use spacefeeder::config::{CategorizationConfig, TagAlias, TagDefinition, TagRule};
use spacefeeder::engine::{CategorizationEngine, ItemContext};

fn create_test_context<'a>(
    title: &'a str,
    description: Option<&'a str>,
    link: Option<&'a str>,
    author: Option<&'a str>,
    feed_slug: &'a str,
    feed_tags: Option<&'a [String]>,
    rss_categories: Option<&'a [String]>,
) -> ItemContext<'a> {
    ItemContext {
        title,
        description,
        link,
        author,
        feed_slug,
        feed_tags,
        rss_categories,
    }
}

fn create_test_engine() -> CategorizationEngine {
    let config = CategorizationConfig {
        enabled: true,
        auto_tag_new_articles: true,
        max_tags_per_item: 5,
        confidence_threshold: 300,
        tags: vec![
            TagDefinition {
                name: "ai".to_string(),
                description: "AI and ML".to_string(),
                keywords: vec![
                    "artificial intelligence".to_string(),
                    "machine learning".to_string(),
                    "neural network".to_string(),
                ],
            },
            TagDefinition {
                name: "rust".to_string(),
                description: "Rust programming".to_string(),
                keywords: vec!["rust".to_string(), "cargo".to_string(), "rustc".to_string()],
            },
            TagDefinition {
                name: "python".to_string(),
                description: "Python programming".to_string(),
                keywords: vec![
                    "python".to_string(),
                    "django".to_string(),
                    "pip".to_string(),
                ],
            },
        ],
        rules: vec![
            // Test rule: Simon Willison + AI content
            TagRule {
                rule_type: "author_with_content".to_string(),
                patterns: vec!["Simon Willison".to_string()],
                tag: "ai".to_string(),
                tags: vec![],
                confidence: 800,
                exclude_patterns: vec![],
                min_keyword_count: None,
                required_keywords: vec![
                    "artificial intelligence".to_string(),
                    "machine learning".to_string(),
                ],
                exclude_tags: vec![],
            },
            // Test rule: Title contains AI
            TagRule {
                rule_type: "title_contains".to_string(),
                patterns: vec!["AI".to_string()],
                tag: "ai".to_string(),
                tags: vec![],
                confidence: 900,
                exclude_patterns: vec![],
                min_keyword_count: None,
                required_keywords: vec![],
                exclude_tags: vec![],
            },
            // Test rule: Content analysis for Rust
            TagRule {
                rule_type: "content_analysis".to_string(),
                patterns: vec!["rust".to_string(), "cargo".to_string(), "rustc".to_string()],
                tag: "rust".to_string(),
                tags: vec![],
                confidence: 800,
                exclude_patterns: vec![],
                min_keyword_count: Some(2),
                required_keywords: vec![],
                exclude_tags: vec![],
            },
            // Test exclusion rule
            TagRule {
                rule_type: "exclude_if".to_string(),
                patterns: vec!["weekly links".to_string(), "news roundup".to_string()],
                tag: "".to_string(),
                tags: vec![],
                confidence: 1000,
                exclude_patterns: vec![],
                min_keyword_count: None,
                required_keywords: vec![],
                exclude_tags: vec!["ai".to_string(), "rust".to_string(), "python".to_string()],
            },
        ],
        aliases: vec![TagAlias {
            from: vec!["artificial-intelligence".to_string(), "ml".to_string()],
            to: "ai".to_string(),
        }],
    };

    CategorizationEngine::from_config(config)
}

#[test]
fn engine_test_keyword_word_boundaries() {
    let engine = create_test_engine();

    // "ai" should NOT match "said", "wait", "maintain"
    assert!(!engine.matches_keyword("i said hello", "ai"));
    assert!(!engine.matches_keyword("please wait here", "ai"));
    assert!(!engine.matches_keyword("maintain the system", "ai"));

    // "ai" should match when it's a standalone word
    assert!(engine.matches_keyword("ai is powerful", "ai"));
    assert!(engine.matches_keyword("the ai system", "ai"));
    assert!(engine.matches_keyword("talk about ai.", "ai"));
    assert!(engine.matches_keyword("ai", "ai"));

    // Multi-word phrases should work
    assert!(engine.matches_keyword(
        "artificial intelligence is growing",
        "artificial intelligence"
    ));
    assert!(!engine.matches_keyword("partially intelligent systems", "artificial intelligence"));
}

#[test]
fn test_author_with_content_requires_keywords() {
    let engine = create_test_engine();

    // Simon Willison article WITHOUT AI keywords should NOT get AI tag
    let context = create_test_context(
        "Static Sites with Python, uv, Caddy, and Docker",
        Some("A technical tutorial about building static websites using Python tooling and Docker containers for deployment."),
        Some("https://simonwillison.net/2025/Aug/24/example/"),
        Some("Simon Willison"),
        "simonwillison",
        None,
        None,
    );
    let tags = engine.generate_tags_for_item(&context);

    let ai_tags: Vec<_> = tags.iter().filter(|t| t.name == "ai").collect();
    assert!(
        ai_tags.is_empty(),
        "Should not tag non-AI content from Simon Willison with AI"
    );

    // Simon Willison article WITH AI keywords should get AI tag
    let context = create_test_context(
        "Evaluating Large Language Models for Code Generation",
        Some("A deep dive into machine learning approaches for automatic code generation using artificial intelligence and neural networks."),
        Some("https://simonwillison.net/2025/Aug/24/llm-code/"),
        Some("Simon Willison"),
        "simonwillison",
        None,
        None,
    );
    let tags = engine.generate_tags_for_item(&context);

    let ai_tags: Vec<_> = tags.iter().filter(|t| t.name == "ai").collect();
    assert!(
        !ai_tags.is_empty(),
        "Should tag AI content from Simon Willison with AI"
    );
    assert!(
        ai_tags[0].confidence > 500,
        "Should have reasonable confidence for AI content"
    );
}

#[test]
fn test_title_ai_matching_precision() {
    let engine = create_test_engine();

    // Title with "AI" word should match
    let feed_tags = ["news".to_string(), "tech".to_string()];
    let context = create_test_context(
        "Show HN: ClearCam - Add AI object detection to your IP CCTV cameras",
        Some("This runs YOLOv8 + bytetrack with Tinygrad for computer vision detection."),
        None,
        Some("Hacker News"),
        "hackernews",
        Some(&feed_tags),
        None,
    );
    let tags = engine.generate_tags_for_item(&context);

    let ai_tags: Vec<_> = tags.iter().filter(|t| t.name == "ai").collect();
    assert!(!ai_tags.is_empty(), "Should tag articles with 'AI' in title");

    // Title with "said" should NOT trigger AI tag via keyword matching
    let feed_tags = ["news".to_string(), "tech".to_string()];
    let context = create_test_context(
        "CEO said the company will focus on renewable energy",
        Some("The executive announced a major shift toward solar and wind power investments."),
        None,
        Some("Hacker News"),
        "hackernews",
        Some(&feed_tags),
        None,
    );
    let tags = engine.generate_tags_for_item(&context);

    let ai_tags: Vec<_> = tags.iter().filter(|t| t.name == "ai").collect();
    assert!(
        ai_tags.is_empty(),
        "Should not tag articles just because they contain 'said'"
    );
}

#[test]
fn test_content_analysis_multi_keyword_requirement() {
    let engine = create_test_engine();

    // Article mentioning only "rust" (1 keyword) gets lower confidence from keyword match
    // but the content_analysis rule (requires 2) shouldn't fire
    let context = create_test_context(
        "Programming languages overview",
        Some("A comparison of various languages including Go, Python, and rust for different use cases."),
        None,
        Some("Tech Blog"),
        "techblog",
        None,
        None,
    );
    let tags = engine.generate_tags_for_item(&context);

    let rust_tags: Vec<_> = tags.iter().filter(|t| t.name == "rust").collect();
    if !rust_tags.is_empty() {
        assert!(
            rust_tags[0].confidence < 700,
            "Should have low confidence from keyword match, not high confidence from rule"
        );
    }

    // Article mentioning "rust" and "cargo" (2 keywords) gets content_analysis rule match
    let context = create_test_context(
        "Building Rust applications with Cargo",
        Some("A comprehensive guide to using cargo for rust project management and building."),
        None,
        Some("Tech Blog"),
        "techblog",
        None,
        None,
    );
    let tags = engine.generate_tags_for_item(&context);

    let rust_tags: Vec<_> = tags.iter().filter(|t| t.name == "rust").collect();
    assert!(!rust_tags.is_empty(), "Should tag with 2 rust keywords");
    assert!(
        rust_tags[0].confidence >= 700,
        "Should have high confidence from content_analysis rule"
    );
}

#[test]
fn test_exclude_if_prevents_tagging() {
    let engine = create_test_engine();

    // Weekly links article should NOT get programming language tags
    let context = create_test_context(
        "Weekly Links Roundup - August 2025",
        Some("This week's collection includes articles about rust programming, python tutorials, and artificial intelligence breakthroughs."),
        None,
        Some("Tech Newsletter"),
        "newsletter",
        None,
        None,
    );
    let tags = engine.generate_tags_for_item(&context);

    let ai_tags: Vec<_> = tags.iter().filter(|t| t.name == "ai").collect();
    let rust_tags: Vec<_> = tags.iter().filter(|t| t.name == "rust").collect();
    let python_tags: Vec<_> = tags.iter().filter(|t| t.name == "python").collect();

    assert!(ai_tags.is_empty(), "Should not tag AI in weekly links");
    assert!(rust_tags.is_empty(), "Should not tag Rust in weekly links");
    assert!(
        python_tags.is_empty(),
        "Should not tag Python in weekly links"
    );

    // Regular article should get tags normally
    let context = create_test_context(
        "Advanced Rust Programming Techniques",
        Some("Deep dive into cargo workspaces and rustc optimization techniques for better performance."),
        None,
        Some("Programming Blog"),
        "progblog",
        None,
        None,
    );
    let tags = engine.generate_tags_for_item(&context);

    let rust_tags: Vec<_> = tags.iter().filter(|t| t.name == "rust").collect();
    assert!(!rust_tags.is_empty(), "Should tag regular rust articles");
}

#[test]
fn test_feed_level_tags_should_not_override_content() {
    let engine = create_test_engine();

    // Article about Python/Docker from an "AI-focused" feed should NOT get AI tag
    // if the content isn't about AI
    let feed_tags = vec!["ai".to_string(), "database".to_string()];
    let context = create_test_context(
        "Static Sites with Python, uv, Caddy, and Docker",
        Some("A tutorial about building static websites using Python tooling and Docker containers."),
        None,
        Some("Simon Willison"),
        "simonwillison",
        Some(&feed_tags),
        None,
    );
    let tags = engine.generate_tags_for_item(&context);

    // Should get python tag from content
    let tag_names: Vec<_> = tags.iter().map(|t| t.name.clone()).collect();
    assert!(
        tag_names.contains(&"python".to_string()),
        "Should tag Python content"
    );

    // Should NOT get AI tag just because feed has it
    let ai_tags: Vec<_> = tags.iter().filter(|t| t.name == "ai").collect();
    if !ai_tags.is_empty() {
        assert!(
            ai_tags[0].confidence < 800,
            "Feed tags should provide hints (low confidence), not absolute assignments (high confidence). Got confidence: {}",
            ai_tags[0].confidence
        );
    }
}

#[test]
fn test_realistic_hacker_news_false_positives() {
    let engine = create_test_engine();

    // Renewable energy article should NOT get AI tag
    let feed_tags = ["news".to_string(), "tech".to_string()];
    let context = create_test_context(
        "US attack on renewables will lead to power crunch that spikes electricity prices",
        Some("Analysis of renewable energy policy impacts on electricity pricing and grid stability."),
        Some("https://www.cnbc.com/2025/08/24/solar-wind-renewable-trump-tariff.html"),
        Some("Hacker News"),
        "hackernews",
        Some(&feed_tags),
        None,
    );
    let tags = engine.generate_tags_for_item(&context);

    let ai_tags: Vec<_> = tags.iter().filter(|t| t.name == "ai").collect();
    assert!(
        ai_tags.is_empty(),
        "Renewable energy articles should not get AI tag"
    );

    // Valve employee handbook should NOT get AI tag
    let feed_tags = ["news".to_string(), "tech".to_string()];
    let context = create_test_context(
        "Valve Software handbook for new employees [pdf] (2012)",
        Some("Internal company documentation about Valve's flat organizational structure and hiring practices."),
        Some("https://cdn.akamai.steamstatic.com/apps/valve/Valve_NewEmployeeHandbook.pdf"),
        Some("Hacker News"),
        "hackernews",
        Some(&feed_tags),
        None,
    );
    let tags = engine.generate_tags_for_item(&context);

    let ai_tags: Vec<_> = tags.iter().filter(|t| t.name == "ai").collect();
    assert!(ai_tags.is_empty(), "Corporate handbooks should not get AI tag");

    // Actual AI article should get AI tag
    let feed_tags = ["news".to_string(), "tech".to_string()];
    let context = create_test_context(
        "Evaluating LLMs for my personal use case",
        Some("Comprehensive comparison of different large language models including GPT-4, Gemini, and open source alternatives for machine learning applications."),
        Some("https://darkcoding.net/software/personal-ai-evals-aug-2025/"),
        Some("Hacker News"),
        "hackernews",
        Some(&feed_tags),
        None,
    );
    let tags = engine.generate_tags_for_item(&context);

    let ai_tags: Vec<_> = tags.iter().filter(|t| t.name == "ai").collect();
    assert!(!ai_tags.is_empty(), "Actual LLM articles should get AI tag");
}

#[test]
fn engine_test_tag_normalization() {
    let engine = create_test_engine();

    // Check that aliases work correctly
    let normalized = engine.normalize_tag("ml");
    assert_eq!(normalized, "ai", "ML should normalize to AI");

    let normalized = engine.normalize_tag("artificial-intelligence");
    assert_eq!(
        normalized, "ai",
        "artificial-intelligence should normalize to AI"
    );

    let normalized = engine.normalize_tag("rust");
    assert_eq!(normalized, "rust", "rust should stay as rust");
}
