use spacefeeder::alias::AliasTable;
use spacefeeder::matching::StringMatcher;

fn create_test_matcher() -> StringMatcher {
    let mut alias_map = AliasTable::new();
    alias_map.insert("ml".to_string(), "ai".to_string());
    alias_map.insert("artificial-intelligence".to_string(), "ai".to_string());
    StringMatcher::new(alias_map)
}

#[test]
fn matching_test_keyword_word_boundaries() {
    let matcher = create_test_matcher();

    // "ai" should NOT match "said", "wait", "maintain"
    assert!(!matcher.matches_keyword("i said hello", "ai"));
    assert!(!matcher.matches_keyword("please wait here", "ai"));
    assert!(!matcher.matches_keyword("maintain the system", "ai"));

    // "ai" should match when it's a standalone word
    assert!(matcher.matches_keyword("ai is powerful", "ai"));
    assert!(matcher.matches_keyword("the ai system", "ai"));
    assert!(matcher.matches_keyword("talk about ai.", "ai"));
    assert!(matcher.matches_keyword("ai", "ai"));

    // Multi-word phrases should work
    assert!(matcher.matches_keyword(
        "artificial intelligence is growing",
        "artificial intelligence"
    ));
    assert!(!matcher.matches_keyword("partially intelligent systems", "artificial intelligence"));
}

#[test]
fn matching_test_tag_normalization() {
    let matcher = create_test_matcher();

    assert_eq!(matcher.normalize_tag("ml"), "ai");
    assert_eq!(matcher.normalize_tag("ML"), "ai");
    assert_eq!(matcher.normalize_tag("artificial-intelligence"), "ai");
    assert_eq!(matcher.normalize_tag("rust"), "rust"); // No alias
}

#[test]
fn test_check_keywords() {
    let matcher = create_test_matcher();
    let keywords = vec!["rust".to_string(), "cargo".to_string()];

    // Should match with good confidence
    assert!(
        matcher
            .check_keywords("rust and cargo are great", &keywords)
            .unwrap()
            > 500
    );

    // Should match with lower confidence
    assert!(matcher.check_keywords("rust is great", &keywords).unwrap() >= 330);

    // Should not match
    assert!(matcher
        .check_keywords("python is also good", &keywords)
        .is_none());
}

#[test]
fn test_single_match_among_many_keywords_floors_at_330() {
    let matcher = create_test_matcher();
    let keywords = vec![
        "alpha".to_string(),
        "beta".to_string(),
        "gamma".to_string(),
        "delta".to_string(),
        "epsilon".to_string(),
        "zeta".to_string(),
        "eta".to_string(),
        "theta".to_string(),
        "iota".to_string(),
        "kappa".to_string(),
    ];
    // One match in ten keywords: the raw share of 100 is floored.
    assert_eq!(matcher.check_keywords("alpha particles", &keywords), Some(330));
}

#[test]
fn test_check_keywords_exact_share() {
    let matcher = create_test_matcher();
    let keywords = vec![
        "rust".to_string(),
        "cargo".to_string(),
        "rustc".to_string(),
        "crates".to_string(),
    ];
    // Two of four keywords match: exactly half confidence.
    assert_eq!(
        matcher.check_keywords("rust and cargo are great", &keywords),
        Some(500)
    );
    // All four match: full confidence.
    assert_eq!(
        matcher.check_keywords("rust cargo rustc crates", &keywords),
        Some(1000)
    );
}

#[test]
fn test_empty_keyword_never_matches() {
    let matcher = create_test_matcher();
    assert!(!matcher.matches_keyword("anything at all", ""));
    assert!(!matcher.matches_keyword("", ""));
}

#[test]
fn test_phrase_allows_extra_whitespace_between_words() {
    let matcher = create_test_matcher();
    assert!(matcher.matches_keyword("artificial   intelligence wins", "artificial intelligence"));
    assert!(!matcher.matches_keyword("artificialintelligence wins", "artificial intelligence"));
}

#[test]
fn test_later_occurrence_still_matches() {
    // The first occurrence of "ai" sits inside "said"; the later,
    // free-standing one still counts.
    let matcher = create_test_matcher();
    assert!(matcher.matches_keyword("he said ai will matter", "ai"));
}
