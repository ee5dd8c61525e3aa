//! Scoring registry feeds against a search query.  The query
//! matches case-insensitively as a plain substring of the slug, the
//! author, the description and the tags, each hit weighted by how
//! telling the field is.
use vstd::prelude::*;

use crate::text::{chars_contain, chars_eq, contains_seq, lower_of, lowercase, to_chars};
use crate::FeedInfo;

verus! {

/// Whether some tag, lower-cased, contains the query.
pub open spec fn any_tag_contains(tags: Seq<Seq<char>>, q: Seq<char>) -> bool {
    exists|i: int| 0 <= i < tags.len() && contains_seq(lower_of(#[trigger] tags[i]), q)
}

/// Whether some tag, lower-cased, is exactly the wanted tag.
pub open spec fn any_tag_equals(tags: Seq<Seq<char>>, wanted: Seq<char>) -> bool {
    exists|i: int| 0 <= i < tags.len() && lower_of(#[trigger] tags[i]) == wanted
}

/// The weight a feed earns for a query: ten for a slug hit, five
/// for the author, three for the description, seven for a tag.
pub open spec fn feed_score(slug: Seq<char>, feed: crate::FeedInfoView, q: Seq<char>) -> int {
    (if contains_seq(lower_of(slug), q) {
        10int
    } else {
        0int
    }) + (if contains_seq(lower_of(feed.author), q) {
        5int
    } else {
        0int
    }) + (match feed.description {
        Some(d) => if contains_seq(lower_of(d), q) {
            3int
        } else {
            0int
        },
        None => 0int,
    }) + (match feed.tags {
        Some(tags) => if any_tag_contains(tags, q) {
            7int
        } else {
            0int
        },
        None => 0int,
    })
}

/// Whether a feed passes the optional tag filter: no filter, or
/// some tag equal to the wanted one, case-insensitively.
pub open spec fn passes_tag_filter(feed: crate::FeedInfoView, filter: Option<Seq<char>>) -> bool {
    match filter {
        Some(wanted) => match feed.tags {
            Some(tags) => any_tag_equals(tags, lower_of(wanted)),
            None => false,
        },
        None => true,
    }
}

/// Whether some of `tags`, lower-cased, contains `q`.
fn tags_contain(tags: &Vec<String>, q: &Vec<char>) -> (r: bool)
    ensures
        r == any_tag_contains(tags.deep_view(), q@),
{
    let n: usize = tags.len();
    let mut i: usize = 0;
    while i < n
        invariant
            n == tags.deep_view().len(),
            i <= n,
            forall|k: int|
                0 <= k < i ==> !contains_seq(lower_of(#[trigger] tags.deep_view()[k]), q@),
        decreases n - i,
    {
        proof {
            assert(tags.deep_view()[i as int] == tags@[i as int]@);
        }
        let lowered = lowercase(tags[i].as_str());
        let lv = to_chars(lowered.as_str());
        if chars_contain(&lv, q) {
            return true;
        }
        i = i + 1;
    }
    proof {
        if any_tag_contains(tags.deep_view(), q@) {
            let k = choose|k: int|
                0 <= k < tags.deep_view().len() && contains_seq(
                    lower_of(#[trigger] tags.deep_view()[k]),
                    q@,
                );
            assert(false);
        }
    }
    false
}

/// Whether some of `tags`, lower-cased, is exactly `wanted`.
fn tags_equal(tags: &Vec<String>, wanted: &Vec<char>) -> (r: bool)
    ensures
        r == any_tag_equals(tags.deep_view(), wanted@),
{
    let n: usize = tags.len();
    let mut i: usize = 0;
    while i < n
        invariant
            n == tags.deep_view().len(),
            i <= n,
            forall|k: int| 0 <= k < i ==> lower_of(#[trigger] tags.deep_view()[k]) != wanted@,
        decreases n - i,
    {
        proof {
            assert(tags.deep_view()[i as int] == tags@[i as int]@);
        }
        let lowered = lowercase(tags[i].as_str());
        let lv = to_chars(lowered.as_str());
        if chars_eq(&lv, wanted) {
            return true;
        }
        i = i + 1;
    }
    proof {
        if any_tag_equals(tags.deep_view(), wanted@) {
            let k = choose|k: int|
                0 <= k < tags.deep_view().len() && lower_of(#[trigger] tags.deep_view()[k])
                    == wanted@;
            assert(false);
        }
    }
    false
}

/// Score one registry feed against a query: its weight when it
/// passes the tag filter and matches at all, nothing otherwise.
pub fn score_feed(slug: &str, feed: &FeedInfo, query: &str, filter_tag: Option<&str>) -> (r:
    Option<u32>)
    ensures
        match r {
            Some(score) => passes_tag_filter(
                feed@,
                match filter_tag {
                    Some(f) => Some(f@),
                    None => None,
                },
            ) && score == feed_score(slug@, feed@, lower_of(query@)) && score > 0,
            None => !passes_tag_filter(
                feed@,
                match filter_tag {
                    Some(f) => Some(f@),
                    None => None,
                },
            ) || feed_score(slug@, feed@, lower_of(query@)) == 0,
        },
{
    let q_lower = lowercase(query);
    let q = to_chars(q_lower.as_str());
    match filter_tag {
        Some(wanted) => {
            let wanted_lower = lowercase(wanted);
            let wv = to_chars(wanted_lower.as_str());
            match feed.tags {
                Some(ref tags) => {
                    if !tags_equal(tags, &wv) {
                        return None;
                    }
                },
                None => {
                    return None;
                },
            }
        },
        None => {},
    }
    let mut score: u32 = 0;
    let slug_lower = lowercase(slug);
    let sv = to_chars(slug_lower.as_str());
    if chars_contain(&sv, &q) {
        score = score + 10;
    }
    let author_lower = lowercase(feed.author.as_str());
    let av = to_chars(author_lower.as_str());
    if chars_contain(&av, &q) {
        score = score + 5;
    }
    match feed.description {
        Some(ref d) => {
            let d_lower = lowercase(d.as_str());
            let dv = to_chars(d_lower.as_str());
            if chars_contain(&dv, &q) {
                score = score + 3;
            }
        },
        None => {},
    }
    match feed.tags {
        Some(ref tags) => {
            if tags_contain(tags, &q) {
                score = score + 7;
            }
        },
        None => {},
    }
    proof {
        assert(score == feed_score(slug@, feed@, lower_of(query@)));
    }
    if score > 0 {
        Some(score)
    } else {
        None
    }
}

} // verus!
