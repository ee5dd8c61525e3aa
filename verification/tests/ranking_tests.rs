use spacefeeder::config::{CategorizationConfig, TagDefinition, TagRule};
use spacefeeder::engine::{CategorizationEngine, ItemContext, TagSource};

fn title_rule(pattern: &str, tag: &str, confidence: u32) -> TagRule {
    TagRule {
        rule_type: "title_contains".to_string(),
        patterns: vec![pattern.to_string()],
        tag: tag.to_string(),
        tags: vec![],
        confidence,
        exclude_patterns: vec![],
        min_keyword_count: None,
        required_keywords: vec![],
        exclude_tags: vec![],
    }
}

fn context<'a>(title: &'a str) -> ItemContext<'a> {
    ItemContext {
        title,
        description: None,
        link: None,
        author: None,
        feed_slug: "blog",
        feed_tags: None,
        rss_categories: None,
    }
}

#[test]
fn test_cap_keeps_exactly_the_two_highest_confidences() {
    // Five eligible candidates with distinct confidences; only the
    // two highest survive, in descending order.
    let config = CategorizationConfig {
        enabled: true,
        auto_tag_new_articles: false,
        max_tags_per_item: 2,
        confidence_threshold: 300,
        tags: vec![],
        rules: vec![
            title_rule("alpha", "first", 350),
            title_rule("alpha", "second", 900),
            title_rule("alpha", "third", 550),
            title_rule("alpha", "fourth", 750),
            title_rule("alpha", "fifth", 450),
        ],
        aliases: vec![],
    };
    let engine = CategorizationEngine::from_config(config);
    let tags = engine.generate_tags_for_item(&context("all about alpha"));
    assert_eq!(tags.len(), 2);
    assert_eq!(tags[0].name, "second");
    assert_eq!(tags[0].confidence, 900);
    assert_eq!(tags[1].name, "fourth");
    assert_eq!(tags[1].confidence, 750);
}

#[test]
fn test_ranking_is_stable_on_equal_confidences() {
    let config = CategorizationConfig {
        enabled: true,
        auto_tag_new_articles: false,
        max_tags_per_item: 10,
        confidence_threshold: 300,
        tags: vec![],
        rules: vec![
            title_rule("alpha", "earlier", 600),
            title_rule("alpha", "later", 600),
            title_rule("alpha", "highest", 800),
        ],
        aliases: vec![],
    };
    let engine = CategorizationEngine::from_config(config);
    let tags = engine.generate_tags_for_item(&context("all about alpha"));
    let names: Vec<String> = tags.iter().map(|t| t.name.clone()).collect();
    assert_eq!(
        names,
        vec!["highest".to_string(), "earlier".to_string(), "later".to_string()]
    );
}

#[test]
fn test_generate_is_deterministic() {
    // One engine, one article, two calls: identical output.
    let config = CategorizationConfig {
        enabled: true,
        auto_tag_new_articles: true,
        max_tags_per_item: 5,
        confidence_threshold: 300,
        tags: vec![TagDefinition {
            name: "ai".to_string(),
            description: "AI".to_string(),
            keywords: vec!["ai".to_string(), "llm".to_string()],
        }],
        rules: vec![title_rule("alpha", "first", 700)],
        aliases: vec![],
    };
    let engine = CategorizationEngine::from_config(config);
    let feed_tags = vec!["ai".to_string()];
    let ctx = ItemContext {
        title: "alpha and ai",
        description: Some("notes on the llm landscape"),
        link: Some("https://example.com/a"),
        author: Some("Someone"),
        feed_slug: "blog",
        feed_tags: Some(&feed_tags),
        rss_categories: None,
    };
    let first = engine.generate_tags_for_item(&ctx);
    let second = engine.generate_tags_for_item(&ctx);
    assert_eq!(first.len(), second.len());
    for (a, b) in first.iter().zip(second.iter()) {
        assert_eq!(a.name, b.name);
        assert_eq!(a.confidence, b.confidence);
        assert!(a.source == b.source);
    }
}

#[test]
fn test_disabled_engine_ignores_every_signal() {
    let config = CategorizationConfig {
        enabled: false,
        auto_tag_new_articles: true,
        max_tags_per_item: 5,
        confidence_threshold: 300,
        tags: vec![TagDefinition {
            name: "ai".to_string(),
            description: "AI".to_string(),
            keywords: vec!["ai".to_string()],
        }],
        rules: vec![title_rule("ai", "ai", 900)],
        aliases: vec![],
    };
    let engine = CategorizationEngine::from_config(config);
    assert!(!engine.is_enabled());
    let feed_tags = vec!["ai".to_string()];
    let cats = vec!["ai".to_string()];
    let ctx = ItemContext {
        title: "ai everywhere",
        description: Some("ai ai ai"),
        link: None,
        author: None,
        feed_slug: "blog",
        feed_tags: Some(&feed_tags),
        rss_categories: Some(&cats),
    };
    assert!(engine.generate_tags_for_item(&ctx).is_empty());
}

#[test]
fn test_protocol_categories_enter_with_fixed_confidence() {
    let config = CategorizationConfig {
        enabled: true,
        auto_tag_new_articles: false,
        max_tags_per_item: 5,
        confidence_threshold: 300,
        tags: vec![],
        rules: vec![],
        aliases: vec![],
    };
    let engine = CategorizationEngine::from_config(config);
    let cats = vec!["Tech".to_string()];
    let ctx = ItemContext {
        title: "anything",
        description: None,
        link: None,
        author: None,
        feed_slug: "blog",
        feed_tags: None,
        rss_categories: Some(&cats),
    };
    let tags = engine.generate_tags_for_item(&ctx);
    assert_eq!(tags.len(), 1);
    assert_eq!(tags[0].name, "tech");
    assert_eq!(tags[0].confidence, 900);
    assert!(tags[0].source == TagSource::Feed);
}
