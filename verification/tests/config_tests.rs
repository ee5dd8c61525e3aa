use spacefeeder::config::{
    default_base_url, default_feed_data_output_path, default_item_data_output_path,
    CategorizationConfig, Config, TagDefinition,
};
use spacefeeder::merge::ConfigMerger;
use spacefeeder::save::ConfigSaver;
use spacefeeder::strmap::StrMap;
use spacefeeder::{FeedInfo, Tier, UserFeedInfo};

#[test]
fn config_test_default_config() {
    let config = Config::default();
    assert_eq!(config.parse_config.max_articles, 5);
    assert_eq!(config.parse_config.max_articles_for_search, 200);
    assert_eq!(config.parse_config.description_max_words, 150);
    assert!(config.categorization.enabled);
    assert_eq!(config.feeds.len(), 1);
    let example = config.feeds.get("example").unwrap();
    assert_eq!(example.url, "www.example.com");
    assert_eq!(example.author, "Example Author");
    assert!(matches!(example.tier, Tier::New));
}

#[test]
fn config_test_insert_feed() {
    let mut config = Config::default();
    let feed = FeedInfo {
        url: "https://example.net/feed".to_string(),
        author: "Someone".to_string(),
        description: None,
        tier: Tier::Like,
        tags: None,
        auto_tag: None,
    };
    config.insert_feed("someone".to_string(), feed);
    assert_eq!(config.feeds.len(), 2);
    let inserted = config.feeds.get("someone").unwrap();
    assert_eq!(inserted.url, "https://example.net/feed");
    assert!(matches!(inserted.tier, Tier::Like));
}

#[test]
fn config_test_default_output_paths() {
    assert_eq!(
        default_feed_data_output_path(),
        "./content/data/feedData.json"
    );
    assert_eq!(
        default_item_data_output_path(),
        "./content/data/itemData.json"
    );
    assert_eq!(default_base_url(), "http://localhost:8000/");
}

fn default_feeds_fixture() -> StrMap<FeedInfo> {
    let mut defaults: StrMap<FeedInfo> = StrMap::new();
    defaults.insert(
        "knownfeed".to_string(),
        FeedInfo {
            url: "https://known.example/feed".to_string(),
            author: "Known Author".to_string(),
            description: Some("A known feed".to_string()),
            tier: Tier::New,
            tags: Some(vec!["tech".to_string()]),
            auto_tag: None,
        },
    );
    defaults
}

#[test]
fn test_merge_feeds_keeps_only_named_defaults() {
    let defaults = default_feeds_fixture();
    let mut users: StrMap<UserFeedInfo> = StrMap::new();
    users.insert(
        "knownfeed".to_string(),
        UserFeedInfo {
            url: None,
            author: None,
            description: None,
            tier: Tier::Love,
            tags: Some(vec!["ai".to_string(), "tech".to_string()]),
            auto_tag: None,
        },
    );
    let merged = ConfigMerger::merge_feeds(users, &defaults).unwrap();
    assert_eq!(merged.len(), 1);
    let feed = merged.get("knownfeed").unwrap();
    assert_eq!(feed.url, "https://known.example/feed");
    assert!(matches!(feed.tier, Tier::Love));
    // Tag lists combine, sorted and unique.
    assert_eq!(
        feed.tags.as_ref().unwrap(),
        &vec!["ai".to_string(), "tech".to_string()]
    );
}

#[test]
fn test_merge_feeds_custom_feed_needs_url_and_author() {
    let defaults = default_feeds_fixture();
    let mut users: StrMap<UserFeedInfo> = StrMap::new();
    users.insert(
        "myfeed".to_string(),
        UserFeedInfo {
            url: Some("https://mine.example/feed".to_string()),
            author: None,
            description: None,
            tier: Tier::New,
            tags: None,
            auto_tag: None,
        },
    );
    let merged = ConfigMerger::merge_feeds(users, &defaults);
    assert!(merged.is_err(), "a custom feed without an author is refused");

    let mut users: StrMap<UserFeedInfo> = StrMap::new();
    users.insert(
        "myfeed".to_string(),
        UserFeedInfo {
            url: None,
            author: Some("Me".to_string()),
            description: None,
            tier: Tier::New,
            tags: None,
            auto_tag: None,
        },
    );
    let merged = ConfigMerger::merge_feeds(users, &defaults);
    assert!(merged.is_err(), "a custom feed without a url is refused");

    let mut users: StrMap<UserFeedInfo> = StrMap::new();
    users.insert(
        "myfeed".to_string(),
        UserFeedInfo {
            url: Some("https://mine.example/feed".to_string()),
            author: Some("Me".to_string()),
            description: None,
            tier: Tier::New,
            tags: None,
            auto_tag: None,
        },
    );
    let merged = ConfigMerger::merge_feeds(users, &defaults).unwrap();
    let feed = merged.get("myfeed").unwrap();
    assert_eq!(feed.author, "Me");
}

#[test]
fn test_merge_tags_appends_missing_defaults_only() {
    let mut config = CategorizationConfig {
        enabled: true,
        auto_tag_new_articles: true,
        max_tags_per_item: 5,
        confidence_threshold: 300,
        tags: vec![TagDefinition {
            name: "rust".to_string(),
            description: "user's own rust tag".to_string(),
            keywords: vec!["rust".to_string()],
        }],
        rules: vec![],
        aliases: vec![],
    };
    let defaults = vec![
        TagDefinition {
            name: "rust".to_string(),
            description: "default rust tag".to_string(),
            keywords: vec!["rust".to_string(), "cargo".to_string()],
        },
        TagDefinition {
            name: "ai".to_string(),
            description: "default ai tag".to_string(),
            keywords: vec!["ai".to_string()],
        },
    ];
    ConfigMerger::merge_tags(&mut config, &defaults);
    assert_eq!(config.tags.len(), 2);
    assert_eq!(config.tags[0].description, "user's own rust tag");
    assert_eq!(config.tags[1].name, "ai");
}

#[test]
fn test_extract_user_feeds_keeps_only_overrides() {
    let defaults = default_feeds_fixture();
    let mut feeds: StrMap<FeedInfo> = StrMap::new();
    feeds.insert(
        "knownfeed".to_string(),
        FeedInfo {
            url: "https://known.example/feed".to_string(),
            author: "Renamed Author".to_string(),
            description: Some("A known feed".to_string()),
            tier: Tier::Love,
            tags: Some(vec!["tech".to_string()]),
            auto_tag: None,
        },
    );
    let user_feeds = ConfigSaver::extract_user_feeds(&feeds, &defaults);
    let entry = user_feeds.get("knownfeed").unwrap();
    assert!(entry.url.is_none(), "unchanged url is not saved");
    assert_eq!(entry.author.as_deref(), Some("Renamed Author"));
    assert!(entry.description.is_none(), "unchanged description is not saved");
    assert!(entry.tags.is_none(), "unchanged tags are not saved");
    assert!(matches!(entry.tier, Tier::Love));
}

#[test]
fn test_extract_user_categorization_keeps_switch() {
    let mut c = CategorizationConfig::default();
    c.enabled = false;
    let saved = ConfigSaver::extract_user_categorization(&c);
    assert!(!saved.enabled);
}

#[test]
fn tests_test_default_config() {
    let config = Config::default();
    assert_eq!(config.parse_config.max_articles, 5);
    assert_eq!(config.parse_config.description_max_words, 150);
    assert_eq!(config.feeds.len(), 1);
    assert!(config.feeds.get("example").is_some());
}

#[test]
fn tests_test_insert_feed() {
    let mut config = Config::default();
    let feed = FeedInfo {
        url: "https://other.example/feed".to_string(),
        author: "Another".to_string(),
        description: None,
        tier: Tier::Love,
        tags: None,
        auto_tag: None,
    };
    config.insert_feed("another".to_string(), feed);
    assert_eq!(config.feeds.len(), 2);
    assert!(config.feeds.get("another").is_some());
}

#[test]
fn tests_test_default_output_paths() {
    assert_eq!(
        default_feed_data_output_path(),
        "./content/data/feedData.json"
    );
    assert_eq!(
        default_item_data_output_path(),
        "./content/data/itemData.json"
    );
}
