//! Configuration data for the categorization engine and the feed
//! pipeline around it.
//!
//! Confidence values are integers in thousandths: `300` stands for a
//! confidence of 0.30, `1000` for full confidence.
use vstd::prelude::*;

use crate::strmap::StrMap;
use crate::FeedInfo;
use crate::UserFeedInfo;

verus! {

/// Declares a keyword-driven tag candidate.
pub struct TagDefinition {
    pub name: String,
    pub description: String,
    pub keywords: Vec<String>,
}

/// The mathematical content of a `TagDefinition`.
pub ghost struct TagDefView {
    pub name: Seq<char>,
    pub description: Seq<char>,
    pub keywords: Seq<Seq<char>>,
}

impl View for TagDefinition {
    type V = TagDefView;

    open spec fn view(&self) -> TagDefView {
        TagDefView {
            name: self.name@,
            description: self.description@,
            keywords: self.keywords.deep_view(),
        }
    }
}

impl DeepView for TagDefinition {
    type V = TagDefView;

    open spec fn deep_view(&self) -> TagDefView {
        self.view()
    }
}

/// One declarative tagging rule.  `rule_type` names the rule kind;
/// an unknown kind never matches.  A rule may emit one tag (`tag`)
/// or several (`tags`), all with the rule's confidence.
pub struct TagRule {
    pub rule_type: String,
    pub patterns: Vec<String>,
    pub tag: String,
    pub tags: Vec<String>,
    /// Confidence in thousandths, at most 1000.
    pub confidence: u32,
    /// Patterns that veto this rule when they match the content.
    pub exclude_patterns: Vec<String>,
    /// Fewest patterns that must match, for content-analysis rules.
    pub min_keyword_count: Option<usize>,
    /// Keywords that must all match, for author-with-content rules.
    pub required_keywords: Vec<String>,
    /// Tags vetoed for the article, for exclude-if rules.
    pub exclude_tags: Vec<String>,
}

/// The mathematical content of a `TagRule`.
pub ghost struct RuleView {
    pub rule_type: Seq<char>,
    pub patterns: Seq<Seq<char>>,
    pub tag: Seq<char>,
    pub tags: Seq<Seq<char>>,
    pub confidence: u32,
    pub exclude_patterns: Seq<Seq<char>>,
    pub min_keyword_count: Option<usize>,
    pub required_keywords: Seq<Seq<char>>,
    pub exclude_tags: Seq<Seq<char>>,
}

impl View for TagRule {
    type V = RuleView;

    open spec fn view(&self) -> RuleView {
        RuleView {
            rule_type: self.rule_type@,
            patterns: self.patterns.deep_view(),
            tag: self.tag@,
            tags: self.tags.deep_view(),
            confidence: self.confidence,
            exclude_patterns: self.exclude_patterns.deep_view(),
            min_keyword_count: self.min_keyword_count,
            required_keywords: self.required_keywords.deep_view(),
            exclude_tags: self.exclude_tags.deep_view(),
        }
    }
}

impl DeepView for TagRule {
    type V = RuleView;

    open spec fn deep_view(&self) -> RuleView {
        self.view()
    }
}

/// A many-to-one canonicalization of tag-name variants.
pub struct TagAlias {
    pub from: Vec<String>,
    pub to: String,
}

/// The mathematical content of a `TagAlias`.
pub ghost struct AliasView {
    pub from: Seq<Seq<char>>,
    pub to: Seq<char>,
}

impl View for TagAlias {
    type V = AliasView;

    open spec fn view(&self) -> AliasView {
        AliasView { from: self.from.deep_view(), to: self.to@ }
    }
}

impl DeepView for TagAlias {
    type V = AliasView;

    open spec fn deep_view(&self) -> AliasView {
        self.view()
    }
}

/// Everything the categorization engine is configured by.
pub struct CategorizationConfig {
    pub enabled: bool,
    pub auto_tag_new_articles: bool,
    pub max_tags_per_item: usize,
    /// Threshold in thousandths that a keyword score must reach.
    pub confidence_threshold: u32,
    pub tags: Vec<TagDefinition>,
    pub rules: Vec<TagRule>,
    pub aliases: Vec<TagAlias>,
}

/// The mathematical content of a `CategorizationConfig`.
pub ghost struct CatConfigView {
    pub enabled: bool,
    pub auto_tag_new_articles: bool,
    pub max_tags_per_item: usize,
    pub confidence_threshold: u32,
    pub tags: Seq<TagDefView>,
    pub rules: Seq<RuleView>,
    pub aliases: Seq<AliasView>,
}

impl View for CategorizationConfig {
    type V = CatConfigView;

    open spec fn view(&self) -> CatConfigView {
        CatConfigView {
            enabled: self.enabled,
            auto_tag_new_articles: self.auto_tag_new_articles,
            max_tags_per_item: self.max_tags_per_item,
            confidence_threshold: self.confidence_threshold,
            tags: self.tags.deep_view(),
            rules: self.rules.deep_view(),
            aliases: self.aliases.deep_view(),
        }
    }
}

pub fn default_categorization_enabled() -> (r: bool)
    ensures
        r,
{
    true
}

pub fn default_auto_tag_new_articles() -> (r: bool)
    ensures
        r,
{
    true
}

pub fn default_max_tags_per_item() -> (r: usize)
    ensures
        r == 5,
{
    5
}

/// The default keyword-score threshold, in thousandths.
pub fn default_confidence_threshold() -> (r: u32)
    ensures
        r == 300,
{
    300
}

impl Default for CategorizationConfig {
    /// Categorization is on by default, with no tags, rules or
    /// aliases until a configuration supplies them.
    fn default() -> (r: Self)
        ensures
            r@.enabled,
            r@.auto_tag_new_articles,
            r@.max_tags_per_item == 5,
            r@.confidence_threshold == 300,
            r@.tags == Seq::<TagDefView>::empty(),
            r@.rules == Seq::<RuleView>::empty(),
            r@.aliases == Seq::<AliasView>::empty(),
    {
        let r = CategorizationConfig {
            enabled: default_categorization_enabled(),
            auto_tag_new_articles: default_auto_tag_new_articles(),
            max_tags_per_item: default_max_tags_per_item(),
            confidence_threshold: default_confidence_threshold(),
            tags: Vec::new(),
            rules: Vec::new(),
            aliases: Vec::new(),
        };
        proof {
            assert(r@.tags =~= Seq::<TagDefView>::empty());
            assert(r@.rules =~= Seq::<RuleView>::empty());
            assert(r@.aliases =~= Seq::<AliasView>::empty());
        }
        r
    }
}

/// Limits for feed parsing.
pub struct ParseConfig {
    pub max_articles: usize,
    pub max_articles_for_search: usize,
    pub description_max_words: usize,
}

/// Where generated data is written and served from.
pub struct OutputConfig {
    pub feed_data_output_path: String,
    pub item_data_output_path: String,
    pub base_url: String,
}

pub fn default_feed_data_output_path() -> (r: String)
    ensures
        r@ == "./content/data/feedData.json"@,
{
    let r = String::from_str("./content/data/feedData.json");
    r
}

pub fn default_item_data_output_path() -> (r: String)
    ensures
        r@ == "./content/data/itemData.json"@,
{
    let r = String::from_str("./content/data/itemData.json");
    r
}

pub fn default_base_url() -> (r: String)
    ensures
        r@ == "http://localhost:8000/"@,
{
    let r = String::from_str("http://localhost:8000/");
    r
}

pub fn default_max_articles_for_search() -> (r: usize)
    ensures
        r == 200,
{
    200
}

/// The categorization part of a saved configuration: only the
/// enabled flag is user-owned, the rest comes from defaults.
pub struct SaveCategorizationConfig {
    pub enabled: bool,
}

/// The whole configuration: parsing limits, output locations, the
/// categorization setup and the feed table.
pub struct Config {
    pub parse_config: ParseConfig,
    pub output_config: OutputConfig,
    pub categorization: CategorizationConfig,
    pub feeds: StrMap<FeedInfo>,
}

impl Config {
    /// Add or replace one feed.
    pub fn insert_feed(&mut self, slug: String, feed: FeedInfo)
        requires
            old(self).feeds.well_formed(),
        ensures
            final(self).feeds.well_formed(),
            final(self).feeds@ == old(self).feeds@.insert(slug@, feed@),
            final(self).parse_config == old(self).parse_config,
            final(self).output_config == old(self).output_config,
            final(self).categorization == old(self).categorization,
    {
        self.feeds.insert(slug, feed);
    }

    /// Where the generated site is served from.
    pub fn base_url(&self) -> (r: &str)
        ensures
            r@ == self.output_config.base_url@,
    {
        self.output_config.base_url.as_str()
    }
}

impl Default for Config {
    /// A starter configuration: modest parsing limits, the standard
    /// output locations, default categorization and one example
    /// feed.
    fn default() -> (r: Config)
        ensures
            r.parse_config.max_articles == 5,
            r.parse_config.max_articles_for_search == 200,
            r.parse_config.description_max_words == 150,
            r.output_config.feed_data_output_path@ == "./content/data/feedData.json"@,
            r.output_config.item_data_output_path@ == "./content/data/itemData.json"@,
            r.output_config.base_url@ == "http://localhost:8000/"@,
            r.categorization@.enabled,
            r.feeds.well_formed(),
            r.feeds@.contains_key("example"@),
            r.feeds@["example"@].url == "www.example.com"@,
            r.feeds@["example"@].author == "Example Author"@,
            r.feeds@["example"@].description == Some("Example feed for testing"@),
            r.feeds@["example"@].tier == crate::Tier::New,
            r.feeds@["example"@].tags is None,
            r.feeds@["example"@].auto_tag is None,
            r.feeds@.dom() =~= Set::<Seq<char>>::empty().insert("example"@),
    {
        let mut feeds: StrMap<FeedInfo> = StrMap::new();
        feeds.insert(
            String::from_str("example"),
            FeedInfo {
                url: String::from_str("www.example.com"),
                author: String::from_str("Example Author"),
                description: Some(String::from_str("Example feed for testing")),
                tier: crate::Tier::New,
                tags: None,
                auto_tag: None,
            },
        );
        proof {
            assert(feeds@.dom() =~= Set::<Seq<char>>::empty().insert("example"@));
        }
        Config {
            parse_config: ParseConfig {
                max_articles: 5,
                max_articles_for_search: 200,
                description_max_words: 150,
            },
            output_config: OutputConfig {
                feed_data_output_path: default_feed_data_output_path(),
                item_data_output_path: default_item_data_output_path(),
                base_url: default_base_url(),
            },
            categorization: CategorizationConfig::default(),
            feeds,
        }
    }
}

/// The minimal form a configuration is saved in: only user-owned
/// parts.
pub struct SaveConfig {
    pub parse_config: ParseConfig,
    pub output_config: OutputConfig,
    pub categorization: SaveCategorizationConfig,
    pub feeds: StrMap<UserFeedInfo>,
}

} // verus!
