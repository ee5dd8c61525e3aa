//! Building the effective configuration from parsed user pieces and
//! the built-in defaults.  Reading and deserializing the file is the
//! caller's business; this is the merging that follows, handed its
//! inputs explicitly rather than through process-wide state.
use vstd::prelude::*;

use crate::config::{
    CategorizationConfig, Config, OutputConfig, ParseConfig, TagAlias, TagDefinition, TagRule,
};
use crate::merge::{missing_defaults, tag_names, ConfigMerger};
use crate::strmap::StrMap;
use crate::{FeedInfo, UserFeedInfo};

verus! {

/// Combine a parsed user configuration with the defaults: default
/// tags the user did not override are appended, feeds are merged
/// entry by entry, and default rules and aliases follow the user's.
/// Fails exactly when a feed of the user's own lacks its url or its
/// author.
pub fn init_config(
    parse_config: ParseConfig,
    output_config: OutputConfig,
    categorization: CategorizationConfig,
    user_feeds: StrMap<UserFeedInfo>,
    default_tags: &Vec<TagDefinition>,
    default_rules: &Vec<TagRule>,
    default_aliases: &Vec<TagAlias>,
    default_feeds: &StrMap<FeedInfo>,
) -> (r: Result<Config, String>)
    requires
        user_feeds.well_formed(),
        default_feeds.well_formed(),
    ensures
        r is Ok <==> (forall|k: Seq<char>|
            #[trigger] user_feeds@.contains_key(k) && !default_feeds@.contains_key(k)
                ==> user_feeds@[k].url is Some && user_feeds@[k].author is Some),
        r matches Ok(c) ==> {
            &&& c.parse_config == parse_config
            &&& c.output_config == output_config
            &&& c.categorization@.enabled == categorization@.enabled
            &&& c.categorization@.auto_tag_new_articles == categorization@.auto_tag_new_articles
            &&& c.categorization@.max_tags_per_item == categorization@.max_tags_per_item
            &&& c.categorization@.confidence_threshold == categorization@.confidence_threshold
            &&& c.categorization@.tags == categorization@.tags + missing_defaults(
                tag_names(categorization@.tags),
                default_tags.deep_view(),
            )
            &&& c.categorization@.rules == categorization@.rules + default_rules.deep_view()
            &&& c.categorization@.aliases == categorization@.aliases
                + default_aliases.deep_view()
            &&& c.feeds.well_formed()
            &&& (forall|k: Seq<char>|
                #[trigger] c.feeds@.contains_key(k) <==> user_feeds@.contains_key(k))
            &&& (forall|k: Seq<char>|
                #[trigger] user_feeds@.contains_key(k) ==> c.feeds@[k] == (
                if default_feeds@.contains_key(k) {
                    crate::merge::merge_single_spec(default_feeds@[k], user_feeds@[k])
                } else {
                    crate::merge::custom_feed_spec(user_feeds@[k])
                }))
        },
{
    let mut categorization = categorization;
    ConfigMerger::merge_tags(&mut categorization, default_tags);
    let feeds = match ConfigMerger::merge_feeds(user_feeds, default_feeds) {
        Ok(f) => f,
        Err(msg) => {
            return Err(msg);
        },
    };
    ConfigMerger::merge_categorization(&mut categorization, default_rules, default_aliases);
    Ok(Config { parse_config, output_config, categorization, feeds })
}

} // verus!
