use spacefeeder::config::{CategorizationConfig, TagAlias, TagDefinition, TagRule};
use spacefeeder::engine::CategorizationEngine;
use spacefeeder::engine::ItemContext;

fn create_test_config() -> CategorizationConfig {
    CategorizationConfig {
        enabled: true,
        auto_tag_new_articles: true,
        max_tags_per_item: 5,
        confidence_threshold: 300,
        tags: vec![
            TagDefinition {
                name: "rust".to_string(),
                description: "Rust programming".to_string(),
                keywords: vec!["rust".to_string(), "cargo".to_string()],
            },
            TagDefinition {
                name: "ai".to_string(),
                description: "Artificial Intelligence".to_string(),
                keywords: vec!["ai".to_string(), "llm".to_string(), "gpt".to_string()],
            },
        ],
        rules: vec![
            TagRule {
                rule_type: "title_contains".to_string(),
                patterns: vec!["Rust".to_string()],
                tag: "rust".to_string(),
                tags: vec![],
                confidence: 900,
                exclude_patterns: vec![],
                min_keyword_count: None,
                required_keywords: vec![],
                exclude_tags: vec![],
            },
            TagRule {
                rule_type: "author_contains".to_string(),
                patterns: vec!["Simon Willison".to_string()],
                tag: String::new(),
                tags: vec!["ai".to_string(), "python".to_string()],
                confidence: 700,
                exclude_patterns: vec![],
                min_keyword_count: None,
                required_keywords: vec![],
                exclude_tags: vec![],
            },
        ],
        aliases: vec![TagAlias {
            from: vec!["rustlang".to_string()],
            to: "rust".to_string(),
        }],
    }
}

fn generate<'a>(
    engine: &CategorizationEngine,
    title: &'a str,
    description: Option<&'a str>,
    link: Option<&'a str>,
    author: Option<&'a str>,
    feed_slug: &'a str,
    feed_tags: Option<&'a [String]>,
    rss_categories: Option<&'a [String]>,
) -> Vec<spacefeeder::engine::Tag> {
    let context = ItemContext {
        title,
        description,
        link,
        author,
        feed_slug,
        feed_tags,
        rss_categories,
    };
    engine.generate_tags_for_item(&context)
}

#[test]
fn test_categorization_engine_creation() {
    let config = create_test_config();
    let engine = CategorizationEngine::from_config(config);
    assert!(engine.is_enabled());
    assert_eq!(engine.config.tags.len(), 2);
    assert_eq!(engine.alias_map.len(), 1);
}

#[test]
fn test_title_rule_matching() {
    let config = create_test_config();
    let engine = CategorizationEngine::from_config(config);

    let tags = generate(
        &engine,
        "Learning Rust Programming",
        Some("A guide to Rust"),
        None,
        None,
        "test_feed",
        None,
        None,
    );

    assert!(!tags.is_empty());
    assert_eq!(tags[0].name, "rust");
    assert_eq!(tags[0].confidence, 900);
}

#[test]
fn test_author_rule_matching() {
    let config = create_test_config();
    let engine = CategorizationEngine::from_config(config);

    let tags = generate(
        &engine,
        "Machine Learning Basics",
        Some("Introduction to ML"),
        None,
        Some("Simon Willison"),
        "test_feed",
        None,
        None,
    );

    assert!(tags.len() >= 2);
    let tag_names: Vec<String> = tags.iter().map(|t| t.name.clone()).collect();
    assert!(tag_names.contains(&"ai".to_string()));
    assert!(tag_names.contains(&"python".to_string()));
}

#[test]
fn test_keyword_matching() {
    let config = create_test_config();
    let engine = CategorizationEngine::from_config(config);

    let tags = generate(
        &engine,
        "Building with Cargo",
        Some("How to use cargo for Rust projects"),
        None,
        None,
        "test_feed",
        None,
        None,
    );

    assert!(!tags.is_empty());
    let tag_names: Vec<String> = tags.iter().map(|t| t.name.clone()).collect();
    assert!(tag_names.contains(&"rust".to_string()));
}

#[test]
fn test_alias_normalization() {
    let config = create_test_config();
    let engine = CategorizationEngine::from_config(config);

    let normalized = engine.normalize_tag("rustlang");
    assert_eq!(normalized, "rust");

    let normalized = engine.normalize_tag("RUSTLANG");
    assert_eq!(normalized, "rust");
}

#[test]
fn test_max_tags_limit() {
    let mut config = create_test_config();
    config.max_tags_per_item = 2;
    let engine = CategorizationEngine::from_config(config);

    let feed_tags = vec![
        "manual1".to_string(),
        "manual2".to_string(),
        "manual3".to_string(),
    ];
    let tags = generate(
        &engine,
        "Rust and AI: Building LLM with Cargo",
        Some("GPT implementation in Rust programming language"),
        None,
        Some("Simon Willison"),
        "test_feed",
        Some(&feed_tags),
        None,
    );

    assert_eq!(tags.len(), 2);
}

#[test]
fn test_disabled_categorization() {
    let mut config = create_test_config();
    config.enabled = false;
    let engine = CategorizationEngine::from_config(config);

    let tags = generate(
        &engine,
        "Rust Programming",
        Some("About Rust"),
        None,
        None,
        "test_feed",
        None,
        None,
    );

    assert!(tags.is_empty());
}
