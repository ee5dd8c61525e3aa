use spacefeeder::alias::AliasTable;
use spacefeeder::config::TagRule;
use spacefeeder::matching::StringMatcher;
use spacefeeder::rules::RuleApplicator;

#[test]
fn test_title_rule() {
    let matcher = StringMatcher::new(AliasTable::new());
    let applicator = RuleApplicator::new(&matcher);
    let rule = TagRule {
        rule_type: "title_contains".to_string(),
        patterns: vec!["Rust".to_string()],
        tag: "rust".to_string(),
        tags: vec![],
        confidence: 900,
        exclude_patterns: vec![],
        min_keyword_count: None,
        required_keywords: vec![],
        exclude_tags: vec![],
    };

    let result = applicator.apply_rule(&rule, "Introduction to Rust", None, None, None, "blog");
    assert!(result.is_some());
    let tags = result.unwrap();
    assert_eq!(tags.len(), 1);
    assert_eq!(tags[0].name, "rust");
    assert_eq!(tags[0].confidence, 900);
}

#[test]
fn test_author_with_content_rule() {
    let matcher = StringMatcher::new(AliasTable::new());
    let applicator = RuleApplicator::new(&matcher);
    let rule = TagRule {
        rule_type: "author_with_content".to_string(),
        patterns: vec!["Simon Willison".to_string()],
        tag: "ai".to_string(),
        tags: vec![],
        confidence: 800,
        exclude_patterns: vec![],
        min_keyword_count: None,
        required_keywords: vec!["ai".to_string(), "llm".to_string()],
        exclude_tags: vec![],
    };

    // Should match when author + required keywords present
    let result = applicator.apply_rule(
        &rule,
        "Building AI applications",
        Some("Using LLM models"),
        None,
        Some("Simon Willison"),
        "blog",
    );
    assert!(result.is_some());

    // Should not match when required keyword missing
    let result = applicator.apply_rule(
        &rule,
        "Building web applications",
        Some("Using Django"),
        None,
        Some("Simon Willison"),
        "blog",
    );
    assert!(result.is_none());
}

#[test]
fn test_author_with_content_needs_every_required_keyword() {
    let matcher = StringMatcher::new(AliasTable::new());
    let applicator = RuleApplicator::new(&matcher);
    let rule = TagRule {
        rule_type: "author_with_content".to_string(),
        patterns: vec!["Simon Willison".to_string()],
        tag: "ai".to_string(),
        tags: vec![],
        confidence: 800,
        exclude_patterns: vec![],
        min_keyword_count: None,
        required_keywords: vec!["ai".to_string(), "llm".to_string()],
        exclude_tags: vec![],
    };

    // Only one of the two required keywords: the rule must not fire.
    let result = applicator.apply_rule(
        &rule,
        "Thoughts on AI",
        Some("General reflections"),
        None,
        Some("Simon Willison"),
        "blog",
    );
    assert!(result.is_none(), "one keyword of two must not be enough");

    // Both keywords present: the rule fires with its confidence.
    let result = applicator.apply_rule(
        &rule,
        "Thoughts on AI",
        Some("Notes about my favourite llm"),
        None,
        Some("Simon Willison"),
        "blog",
    );
    let tags = result.unwrap();
    assert_eq!(tags[0].name, "ai");
    assert_eq!(tags[0].confidence, 800);
}

#[test]
fn test_author_with_content_without_required_keywords_never_fires() {
    let matcher = StringMatcher::new(AliasTable::new());
    let applicator = RuleApplicator::new(&matcher);
    let rule = TagRule {
        rule_type: "author_with_content".to_string(),
        patterns: vec!["Simon Willison".to_string()],
        tag: "ai".to_string(),
        tags: vec![],
        confidence: 800,
        exclude_patterns: vec![],
        min_keyword_count: None,
        required_keywords: vec![],
        exclude_tags: vec![],
    };
    // An empty required-keyword list makes the rule inert; plain
    // author matching is the author-contains rule's job.
    let result = applicator.apply_rule(
        &rule,
        "Anything",
        Some("Anything at all"),
        None,
        Some("Simon Willison"),
        "blog",
    );
    assert!(result.is_none());
}

#[test]
fn test_unknown_rule_type_never_matches() {
    let matcher = StringMatcher::new(AliasTable::new());
    let applicator = RuleApplicator::new(&matcher);
    let rule = TagRule {
        rule_type: "sentiment_scan".to_string(),
        patterns: vec!["anything".to_string()],
        tag: "whatever".to_string(),
        tags: vec![],
        confidence: 900,
        exclude_patterns: vec![],
        min_keyword_count: None,
        required_keywords: vec![],
        exclude_tags: vec![],
    };
    let result = applicator.apply_rule(&rule, "anything here", None, None, None, "blog");
    assert!(result.is_none());
}

#[test]
fn test_exclude_patterns_veto_a_matching_rule() {
    let matcher = StringMatcher::new(AliasTable::new());
    let applicator = RuleApplicator::new(&matcher);
    let rule = TagRule {
        rule_type: "title_contains".to_string(),
        patterns: vec!["Rust".to_string()],
        tag: "rust".to_string(),
        tags: vec![],
        confidence: 900,
        exclude_patterns: vec!["sponsored".to_string()],
        min_keyword_count: None,
        required_keywords: vec![],
        exclude_tags: vec![],
    };
    let result = applicator.apply_rule(
        &rule,
        "Rust news",
        Some("A sponsored post about tooling"),
        None,
        None,
        "blog",
    );
    assert!(result.is_none(), "the local veto must silence the rule");
}

#[test]
fn test_feed_slug_rule_requires_exact_equality() {
    let matcher = StringMatcher::new(AliasTable::new());
    let applicator = RuleApplicator::new(&matcher);
    let rule = TagRule {
        rule_type: "feed_slug".to_string(),
        patterns: vec!["hackernews".to_string()],
        tag: "news".to_string(),
        tags: vec![],
        confidence: 600,
        exclude_patterns: vec![],
        min_keyword_count: None,
        required_keywords: vec![],
        exclude_tags: vec![],
    };
    assert!(applicator
        .apply_rule(&rule, "t", None, None, None, "hackernews")
        .is_some());
    assert!(applicator
        .apply_rule(&rule, "t", None, None, None, "hackernews-daily")
        .is_none());
    assert!(applicator
        .apply_rule(&rule, "t", None, None, None, "Hackernews")
        .is_none());
}

#[test]
fn test_url_rule_matches_plain_substrings() {
    let matcher = StringMatcher::new(AliasTable::new());
    let applicator = RuleApplicator::new(&matcher);
    let rule = TagRule {
        rule_type: "url_contains".to_string(),
        patterns: vec!["github.com".to_string()],
        tag: "code".to_string(),
        tags: vec![],
        confidence: 500,
        exclude_patterns: vec![],
        min_keyword_count: None,
        required_keywords: vec![],
        exclude_tags: vec![],
    };
    assert!(applicator
        .apply_rule(&rule, "t", None, Some("https://github.com/x/y"), None, "b")
        .is_some());
    assert!(applicator
        .apply_rule(&rule, "t", None, Some("https://example.org"), None, "b")
        .is_none());
    assert!(applicator.apply_rule(&rule, "t", None, None, None, "b").is_none());
}
