//! Feed-article categorization library.
//!
//! The heart of the crate is the categorization engine: a pure,
//! deterministic pipeline that assigns confidence-scored tags to one
//! article from declarative rules, keyword definitions, feed-supplied
//! hints and protocol categories.  Confidence values are carried as
//! integers in thousandths, so that `1000` stands for full confidence.
use vstd::prelude::*;

pub mod alias;
pub mod cli;
pub mod config;
pub mod content_type;
pub mod engine;
pub mod feed_search;
pub mod find_feed;
pub mod item_text;
pub mod items;
pub mod loader;
pub mod matching;
pub mod merge;
pub mod rules;
pub mod save;
pub mod strmap;
pub mod text;
pub mod text_utils;

verus! {

/// How a feed is ranked by the user.
#[derive(Clone, Copy, Debug, PartialEq, Eq, Structural, Hash)]
pub enum Tier {
    New,
    Like,
    Love,
}

/// The tier a tier name denotes: the lower-case names and their
/// capitalized forms, nothing else.
pub open spec fn tier_of(s: Seq<char>) -> Option<Tier> {
    if s == "new"@ || s == "New"@ {
        Some(Tier::New)
    } else if s == "like"@ || s == "Like"@ {
        Some(Tier::Like)
    } else if s == "love"@ || s == "Love"@ {
        Some(Tier::Love)
    } else {
        None
    }
}

impl Tier {
    /// Parse a tier name; `None` for anything but the six accepted
    /// spellings.
    pub fn parse(s: &str) -> (r: Option<Tier>)
        ensures
            r == tier_of(s@),
    {
        if crate::text::str_eq(s, "new") || crate::text::str_eq(s, "New") {
            Some(Tier::New)
        } else if crate::text::str_eq(s, "like") || crate::text::str_eq(s, "Like") {
            Some(Tier::Like)
        } else if crate::text::str_eq(s, "love") || crate::text::str_eq(s, "Love") {
            Some(Tier::Love)
        } else {
            None
        }
    }

    /// The lower-case name of the tier.
    pub fn tier_str(&self) -> (r: String)
        ensures
            r@ == (match *self {
                Tier::New => "new"@,
                Tier::Like => "like"@,
                Tier::Love => "love"@,
            }),
            tier_of(r@) == Some(*self),
    {
        proof {
            reveal_strlit("new");
            reveal_strlit("New");
            reveal_strlit("like");
            reveal_strlit("Like");
            reveal_strlit("love");
            reveal_strlit("Love");
        }
        match self {
            Tier::New => {
                let r = String::from_str("new");
                proof {
                    assert(r@ == "new"@);
                    assert(tier_of(r@) == Some(Tier::New));
                }
                r
            },
            Tier::Like => {
                let r = String::from_str("like");
                proof {
                    assert(r@ == "like"@);
                    assert("like"@ != "new"@ && "like"@ != "New"@);
                    assert(tier_of(r@) == Some(Tier::Like));
                }
                r
            },
            Tier::Love => {
                let r = String::from_str("love");
                proof {
                    assert(r@ == "love"@);
                    assert("love"@ != "new"@ && "love"@ != "New"@);
                    assert("love"@[1] != "like"@[1]);
                    assert("love"@[1] != "Like"@[1]);
                    assert("love"@ != "like"@ && "love"@ != "Like"@);
                    assert(tier_of(r@) == Some(Tier::Love));
                }
                r
            },
        }
    }
}

/// `core::fmt::Error`, declared so that `FromStr` can name it; it
/// is a unit struct carrying nothing.
#[verifier::external_type_specification]
#[verifier::external_body]
pub struct ExFmtError(core::fmt::Error);

/// Relies on `core::fmt::Error` being a unit struct: this builds
/// its only value, for `FromStr` to return on bad input.
#[verifier::external_body]
fn fmt_error() -> core::fmt::Error {
    core::fmt::Error
}

impl core::str::FromStr for Tier {
    type Err = core::fmt::Error;

    fn from_str(s: &str) -> (r: Result<Tier, core::fmt::Error>)
        ensures
            r matches Ok(t) ==> tier_of(s@) == Some(t),
            r is Err ==> tier_of(s@) is None,
    {
        match Tier::parse(s) {
            Some(t) => Ok(t),
            None => Err(fmt_error()),
        }
    }
}

/// One feed, fully specified.
#[derive(Clone, Debug)]
pub struct FeedInfo {
    pub url: String,
    pub author: String,
    pub description: Option<String>,
    pub tier: Tier,
    pub tags: Option<Vec<String>>,
    pub auto_tag: Option<bool>,
}

/// The mathematical content of a `FeedInfo`.
pub ghost struct FeedInfoView {
    pub url: Seq<char>,
    pub author: Seq<char>,
    pub description: Option<Seq<char>>,
    pub tier: Tier,
    pub tags: Option<Seq<Seq<char>>>,
    pub auto_tag: Option<bool>,
}

impl View for FeedInfo {
    type V = FeedInfoView;

    open spec fn view(&self) -> FeedInfoView {
        FeedInfoView {
            url: self.url@,
            author: self.author@,
            description: match self.description {
                Some(ref d) => Some(d@),
                None => None,
            },
            tier: self.tier,
            tags: match self.tags {
                Some(ref t) => Some(t.deep_view()),
                None => None,
            },
            auto_tag: self.auto_tag,
        }
    }
}

impl DeepView for FeedInfo {
    type V = FeedInfoView;

    open spec fn deep_view(&self) -> FeedInfoView {
        self.view()
    }
}

/// A user-written feed entry: only the tier is required, the rest is
/// merged from defaults when absent.
#[derive(Clone, Debug)]
pub struct UserFeedInfo {
    pub url: Option<String>,
    pub author: Option<String>,
    pub description: Option<String>,
    pub tier: Tier,
    pub tags: Option<Vec<String>>,
    pub auto_tag: Option<bool>,
}

/// The mathematical content of a `UserFeedInfo`.
pub ghost struct UserFeedInfoView {
    pub url: Option<Seq<char>>,
    pub author: Option<Seq<char>>,
    pub description: Option<Seq<char>>,
    pub tier: Tier,
    pub tags: Option<Seq<Seq<char>>>,
    pub auto_tag: Option<bool>,
}

impl View for UserFeedInfo {
    type V = UserFeedInfoView;

    open spec fn view(&self) -> UserFeedInfoView {
        UserFeedInfoView {
            url: match self.url {
                Some(ref u) => Some(u@),
                None => None,
            },
            author: match self.author {
                Some(ref a) => Some(a@),
                None => None,
            },
            description: match self.description {
                Some(ref d) => Some(d@),
                None => None,
            },
            tier: self.tier,
            tags: match self.tags {
                Some(ref t) => Some(t.deep_view()),
                None => None,
            },
            auto_tag: self.auto_tag,
        }
    }
}

impl DeepView for UserFeedInfo {
    type V = UserFeedInfoView;

    open spec fn deep_view(&self) -> UserFeedInfoView {
        self.view()
    }
}

} // verus!
