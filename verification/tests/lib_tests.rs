use std::str::FromStr;

use spacefeeder::content_type::get_content_type;
use spacefeeder::feed_search::score_feed;
use spacefeeder::find_feed::is_feed_content_type;
use spacefeeder::{FeedInfo, Tier};

#[test]
fn test_tier_from_str_lowercase() {
    assert!(matches!(Tier::from_str("new").unwrap(), Tier::New));
    assert!(matches!(Tier::from_str("like").unwrap(), Tier::Like));
    assert!(matches!(Tier::from_str("love").unwrap(), Tier::Love));
}

#[test]
fn test_tier_from_str_capitalized() {
    assert!(matches!(Tier::from_str("New").unwrap(), Tier::New));
    assert!(matches!(Tier::from_str("Like").unwrap(), Tier::Like));
    assert!(matches!(Tier::from_str("Love").unwrap(), Tier::Love));
}

#[test]
fn test_tier_from_str_invalid() {
    assert!(Tier::from_str("invalid").is_err());
    assert!(Tier::from_str("").is_err());
    assert!(Tier::from_str("NEW").is_err());
    assert!(Tier::from_str("LOVE").is_err());
}

#[test]
fn test_tier_str_round_trip() {
    assert_eq!(Tier::New.tier_str(), "new");
    assert_eq!(Tier::Like.tier_str(), "like");
    assert_eq!(Tier::Love.tier_str(), "love");
    assert!(matches!(Tier::parse(&Tier::Love.tier_str()), Some(Tier::Love)));
}

#[test]
fn test_feed_content_type_detection() {
    assert!(is_feed_content_type(Some("application/rss+xml")));
    assert!(is_feed_content_type(Some("application/atom+xml; charset=utf-8")));
    assert!(is_feed_content_type(Some("application/xml")));
    assert!(is_feed_content_type(Some("text/xml")));
    assert!(!is_feed_content_type(Some("text/html")));
    assert!(!is_feed_content_type(None));
}

#[test]
fn test_feed_search_scoring() {
    let feed = FeedInfo {
        url: "https://rust.example/feed".to_string(),
        author: "Rust Weekly".to_string(),
        description: Some("All about Rust".to_string()),
        tier: Tier::New,
        tags: Some(vec!["rust".to_string(), "programming".to_string()]),
        auto_tag: None,
    };
    // Slug, author, description and a tag all hit: 10 + 5 + 3 + 7.
    assert_eq!(score_feed("rust_weekly", &feed, "Rust", None), Some(25));
    // No field mentions the query at all.
    assert_eq!(score_feed("rust_weekly", &feed, "cooking", None), None);
    // The tag filter is case-insensitive and exact.
    assert_eq!(score_feed("rust_weekly", &feed, "rust", Some("PROGRAMMING")), Some(25));
    assert_eq!(score_feed("rust_weekly", &feed, "rust", Some("prog")), None);
}

#[test]
fn test_get_content_type() {
    assert_eq!(get_content_type("index.html"), "text/html; charset=utf-8");
    assert_eq!(get_content_type("static/site.css"), "text/css");
    assert_eq!(get_content_type("data/itemData.json"), "application/json");
    assert_eq!(get_content_type("images/logo.jpeg"), "image/jpeg");
    assert_eq!(get_content_type("archive.tar.gz"), "application/octet-stream");
    assert_eq!(get_content_type("no_extension"), "application/octet-stream");
    assert_eq!(get_content_type(".hidden"), "application/octet-stream");
}
