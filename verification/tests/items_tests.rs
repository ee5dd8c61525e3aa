use spacefeeder::config::CategorizationConfig;
use spacefeeder::engine::CategorizationEngine;
use spacefeeder::items::{build_item, items_of_feed, split_items_by_tier, FeedOutput, ItemOutput, RssItem};
use spacefeeder::{FeedInfo, Tier};

fn item(title: &str) -> RssItem {
    RssItem {
        title: title.to_string(),
        item_url: format!("https://example.com/{title}"),
        description: "Description".to_string(),
        safe_description: "Description".to_string(),
        pub_date: None,
        tags: vec![],
    }
}

fn meta(tier: Tier) -> FeedInfo {
    FeedInfo {
        url: "https://example.com/feed".to_string(),
        author: "Test Author".to_string(),
        description: Some("Test feed".to_string()),
        tier,
        tags: None,
        auto_tag: None,
    }
}

#[test]
fn test_feed_output_to_item_output_conversion() {
    let feed_output = FeedOutput {
        meta: FeedInfo {
            url: "https://example.com/feed".to_string(),
            author: "Test Author".to_string(),
            description: Some("Test feed".to_string()),
            tier: Tier::New,
            tags: None,
            auto_tag: None,
        },
        slug: "test_feed".to_string(),
        items: vec![
            RssItem {
                title: "Article 1".to_string(),
                item_url: "https://example.com/1".to_string(),
                description: "Description 1".to_string(),
                safe_description: "Description 1".to_string(),
                pub_date: None,
                tags: vec![],
            },
            RssItem {
                title: "Article 2".to_string(),
                item_url: "https://example.com/2".to_string(),
                description: "Description 2".to_string(),
                safe_description: "Description 2".to_string(),
                pub_date: None,
                tags: vec![],
            },
        ],
    };

    let items: Vec<ItemOutput> = items_of_feed(&feed_output);
    assert_eq!(items.len(), 2);
    assert_eq!(items[0].item.title, "Article 1");
    assert_eq!(items[1].item.title, "Article 2");
    assert_eq!(items[0].slug, "test_feed");
    assert_eq!(items[0].meta.author, "Test Author");
}

#[test]
fn test_split_items_by_tier_groups_in_order() {
    let items = vec![
        ItemOutput { meta: meta(Tier::New), slug: "a".to_string(), item: item("one") },
        ItemOutput { meta: meta(Tier::Love), slug: "b".to_string(), item: item("two") },
        ItemOutput { meta: meta(Tier::Like), slug: "c".to_string(), item: item("three") },
        ItemOutput { meta: meta(Tier::Love), slug: "d".to_string(), item: item("four") },
    ];
    let (loved, liked, fresh) = split_items_by_tier(&items);
    assert_eq!(loved.len(), 2);
    assert_eq!(loved[0].item.title, "two");
    assert_eq!(loved[1].item.title, "four");
    assert_eq!(liked.len(), 1);
    assert_eq!(liked[0].item.title, "three");
    assert_eq!(fresh.len(), 1);
    assert_eq!(fresh[0].item.title, "one");
}

#[test]
fn test_build_item_summarizes_and_strips() {
    let mut config = CategorizationConfig::default();
    config.max_tags_per_item = 5;
    let engine = CategorizationEngine::from_config(config);
    let feed = meta(Tier::New);
    let categories: Vec<String> = vec![];
    let built = build_item(
        &engine,
        "A title".to_string(),
        "https://example.com/a".to_string(),
        "<p>A short piece about nothing much at all really.</p><p>Second paragraph.</p>"
            .to_string(),
        Some(1_700_000_000),
        &feed,
        "test_feed",
        &categories,
        150,
    );
    assert_eq!(built.title, "A title");
    assert_eq!(built.description, "<p>A short piece about nothing much at all really.");
    assert_eq!(built.safe_description, "A short piece about nothing much at all really.");
    assert_eq!(built.pub_date, Some(1_700_000_000));
    assert!(built.tags.is_empty());
}

#[test]
fn test_build_item_tags_from_categories() {
    let config = CategorizationConfig::default();
    let engine = CategorizationEngine::from_config(config);
    let feed = meta(Tier::New);
    let categories = vec!["Tech".to_string(), "Tech".to_string(), "Science".to_string()];
    let built = build_item(
        &engine,
        "A title".to_string(),
        "https://example.com/a".to_string(),
        "A body of text long enough to stand on its own as a description.".to_string(),
        None,
        &feed,
        "test_feed",
        &categories,
        150,
    );
    // Categories are normalized (lower-cased), recorded once each.
    assert_eq!(built.tags, vec!["tech".to_string(), "science".to_string()]);
}
