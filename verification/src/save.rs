//! Reducing a fully merged configuration back to the minimal form a
//! user file holds: only overridden feed fields and the
//! categorization switch are kept.
use vstd::prelude::*;

use crate::config::{
    CategorizationConfig, Config, OutputConfig, ParseConfig, SaveCategorizationConfig, SaveConfig,
};
use crate::strmap::StrMap;
use crate::text::{chars_eq, string_eq_str, to_chars};
use crate::{FeedInfo, FeedInfoView, UserFeedInfo, UserFeedInfoView};

verus! {

/// The user-facing remainder of a feed that has a default: its tier
/// always, and each field only where it differs from the default.
pub open spec fn override_spec(f: FeedInfoView, d: FeedInfoView) -> UserFeedInfoView {
    UserFeedInfoView {
        url: if f.url != d.url {
            Some(f.url)
        } else {
            None
        },
        author: if f.author != d.author {
            Some(f.author)
        } else {
            None
        },
        description: if f.description != d.description {
            f.description
        } else {
            None
        },
        tier: f.tier,
        tags: if f.tags != d.tags {
            f.tags
        } else {
            None
        },
        auto_tag: f.auto_tag,
    }
}

/// A feed with no default is saved whole.
pub open spec fn custom_save_spec(f: FeedInfoView) -> UserFeedInfoView {
    UserFeedInfoView {
        url: Some(f.url),
        author: Some(f.author),
        description: f.description,
        tier: f.tier,
        tags: f.tags,
        auto_tag: f.auto_tag,
    }
}

/// Whether two string lists hold the same strings in order.
fn strings_eq(a: &Vec<String>, b: &Vec<String>) -> (r: bool)
    ensures
        r == (a.deep_view() == b.deep_view()),
{
    if a.len() != b.len() {
        proof {
            assert(a.deep_view().len() != b.deep_view().len());
        }
        return false;
    }
    let n: usize = a.len();
    let mut i: usize = 0;
    while i < n
        invariant
            n == a@.len(),
            n == b@.len(),
            i <= n,
            forall|k: int| 0 <= k < i ==> #[trigger] a.deep_view()[k] == b.deep_view()[k],
        decreases n - i,
    {
        proof {
            assert(a.deep_view()[i as int] == a@[i as int]@);
            assert(b.deep_view()[i as int] == b@[i as int]@);
        }
        if !string_eq_str(&a[i], b[i].as_str()) {
            return false;
        }
        i = i + 1;
    }
    proof {
        assert(a.deep_view() =~= b.deep_view());
    }
    true
}

/// Whether two optional descriptions are the same.
fn opt_string_eq(a: &Option<String>, b: &Option<String>) -> (r: bool)
    ensures
        r == ((match a {
            Some(x) => Some(x@),
            None => None,
        }) == (match b {
            Some(y) => Some(y@),
            None => None,
        })),
{
    match (a, b) {
        (Some(x), Some(y)) => string_eq_str(x, y.as_str()),
        (None, None) => true,
        _ => false,
    }
}

/// Whether two optional tag lists are the same.
fn opt_strings_eq(a: &Option<Vec<String>>, b: &Option<Vec<String>>) -> (r: bool)
    ensures
        r == ((match a {
            Some(x) => Some(x.deep_view()),
            None => None,
        }) == (match b {
            Some(y) => Some(y.deep_view()),
            None => None,
        })),
{
    match (a, b) {
        (Some(x), Some(y)) => strings_eq(x, y),
        (None, None) => true,
        _ => false,
    }
}

/// Handles saving configuration in minimal form.
pub struct ConfigSaver;

impl ConfigSaver {
    /// The minimal user entry for one feed that has a default.
    pub fn create_user_feed_override(feed: &FeedInfo, default_feed: &FeedInfo) -> (r: UserFeedInfo)
        ensures
            r@ == override_spec(feed@, default_feed@),
    {
        let url = if !string_eq_str(&feed.url, default_feed.url.as_str()) {
            Some(feed.url.clone())
        } else {
            None
        };
        let author = if !string_eq_str(&feed.author, default_feed.author.as_str()) {
            Some(feed.author.clone())
        } else {
            None
        };
        let description = if !opt_string_eq(&feed.description, &default_feed.description) {
            match feed.description {
                Some(ref d) => Some(d.clone()),
                None => None,
            }
        } else {
            None
        };
        let tags = if !opt_strings_eq(&feed.tags, &default_feed.tags) {
            match feed.tags {
                Some(ref t) => Some(crate::merge::clone_strings(t)),
                None => None,
            }
        } else {
            None
        };
        UserFeedInfo { url, author, description, tier: feed.tier, tags, auto_tag: feed.auto_tag }
    }

    /// Every configured feed reduced to its user-facing remainder:
    /// an override against its default where one exists, the whole
    /// feed where none does.
    pub fn extract_user_feeds(
        feeds: &StrMap<FeedInfo>,
        default_feeds: &StrMap<FeedInfo>,
    ) -> (r: StrMap<UserFeedInfo>)
        requires
            feeds.well_formed(),
            default_feeds.well_formed(),
        ensures
            r.well_formed(),
            forall|k: Seq<char>| #[trigger] r@.contains_key(k) <==> feeds@.contains_key(k),
            forall|k: Seq<char>|
                #[trigger] feeds@.contains_key(k) ==> r@[k] == (
                if default_feeds@.contains_key(k) {
                    override_spec(feeds@[k], default_feeds@[k])
                } else {
                    custom_save_spec(feeds@[k])
                }),
    {
        let mut out: StrMap<UserFeedInfo> = StrMap::new();
        let n: usize = feeds.len();
        let mut i: usize = 0;
        while i < n
            invariant
                feeds.well_formed(),
                default_feeds.well_formed(),
                n == feeds.entries().len(),
                i <= n,
                out.well_formed(),
                forall|k: Seq<char>| #[trigger] out@.contains_key(k) ==> feeds@.contains_key(k),
                forall|k: Seq<char>|
                    #[trigger] out@.contains_key(k) ==> out@[k] == (
                    if default_feeds@.contains_key(k) {
                        override_spec(feeds@[k], default_feeds@[k])
                    } else {
                        custom_save_spec(feeds@[k])
                    }),
                forall|j: int|
                    0 <= j < i ==> out@.contains_key((#[trigger] feeds.entries()[j]).0),
            decreases n - i,
        {
            let slug: &String = feeds.key_at(i);
            let feed: &FeedInfo = feeds.value_at(i);
            proof {
                feeds.lemma_entry(i as int);
            }
            let user_feed = match default_feeds.get(slug.as_str()) {
                Some(default_feed) => Self::create_user_feed_override(feed, default_feed),
                None => UserFeedInfo {
                    url: Some(feed.url.clone()),
                    author: Some(feed.author.clone()),
                    description: match feed.description {
                        Some(ref d) => Some(d.clone()),
                        None => None,
                    },
                    tier: feed.tier,
                    tags: match feed.tags {
                        Some(ref t) => Some(crate::merge::clone_strings(t)),
                        None => None,
                    },
                    auto_tag: feed.auto_tag,
                },
            };
            out.insert(slug.clone(), user_feed);
            i = i + 1;
        }
        proof {
            assert forall|k: Seq<char>| #[trigger] feeds@.contains_key(k)
                implies out@.contains_key(k) by {
                feeds.lemma_key(k);
            }
        }
        out
    }

    /// The categorization part a user file keeps: the switch alone,
    /// since tags, rules and aliases come from defaults.
    pub fn extract_user_categorization(config: &CategorizationConfig) -> (r:
        SaveCategorizationConfig)
        ensures
            r.enabled == config@.enabled,
    {
        SaveCategorizationConfig { enabled: config.enabled }
    }

    /// The minimal form of a whole configuration: limits and paths
    /// kept as they are, the categorization switch, and only the
    /// user-facing remainder of each feed.
    pub fn build_save_config(config: &Config, default_feeds: &StrMap<FeedInfo>) -> (r: SaveConfig)
        requires
            config.feeds.well_formed(),
            default_feeds.well_formed(),
        ensures
            r.parse_config == config.parse_config,
            r.output_config.feed_data_output_path@
                == config.output_config.feed_data_output_path@,
            r.output_config.item_data_output_path@
                == config.output_config.item_data_output_path@,
            r.output_config.base_url@ == config.output_config.base_url@,
            r.categorization.enabled == config.categorization@.enabled,
            r.feeds.well_formed(),
            forall|k: Seq<char>|
                #[trigger] r.feeds@.contains_key(k) <==> config.feeds@.contains_key(k),
            forall|k: Seq<char>|
                #[trigger] config.feeds@.contains_key(k) ==> r.feeds@[k] == (
                if default_feeds@.contains_key(k) {
                    override_spec(config.feeds@[k], default_feeds@[k])
                } else {
                    custom_save_spec(config.feeds@[k])
                }),
    {
        SaveConfig {
            parse_config: ParseConfig {
                max_articles: config.parse_config.max_articles,
                max_articles_for_search: config.parse_config.max_articles_for_search,
                description_max_words: config.parse_config.description_max_words,
            },
            output_config: OutputConfig {
                feed_data_output_path: config.output_config.feed_data_output_path.clone(),
                item_data_output_path: config.output_config.item_data_output_path.clone(),
                base_url: config.output_config.base_url.clone(),
            },
            categorization: Self::extract_user_categorization(&config.categorization),
            feeds: Self::extract_user_feeds(&config.feeds, default_feeds),
        }
    }
}

} // verus!
