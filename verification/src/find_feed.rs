//! Deciding whether an HTTP response announces a feed.
use vstd::prelude::*;

use crate::text::to_chars;

verus! {

/// Whether `hay` starts with `prefix`.
pub open spec fn starts_with_spec(hay: Seq<char>, prefix: Seq<char>) -> bool {
    hay.len() >= prefix.len() && hay.take(prefix.len() as int) == prefix
}

/// Whether a content-type header value announces a feed: it begins
/// with one of the four feed media types.  A missing header never
/// does.
pub open spec fn feed_content_type_spec(header: Option<Seq<char>>) -> bool {
    match header {
        Some(h) => starts_with_spec(h, "application/rss+xml"@) || starts_with_spec(
            h,
            "application/atom+xml"@,
        ) || starts_with_spec(h, "application/xml"@) || starts_with_spec(h, "text/xml"@),
        None => false,
    }
}

/// Whether the characters of `hay` begin with those of `prefix`.
pub fn chars_start_with(hay: &Vec<char>, prefix: &Vec<char>) -> (r: bool)
    ensures
        r == starts_with_spec(hay@, prefix@),
{
    if prefix.len() > hay.len() {
        return false;
    }
    let r = crate::text::chars_match_at(hay, prefix, 0);
    proof {
        assert(hay@.subrange(0, prefix@.len() as int) == hay@.take(prefix@.len() as int));
    }
    r
}

/// Whether the given content-type header announces a feed.
pub fn is_feed_content_type(content_type_header: Option<&str>) -> (r: bool)
    ensures
        r == feed_content_type_spec(
            match content_type_header {
                Some(h) => Some(h@),
                None => None,
            },
        ),
{
    match content_type_header {
        Some(content_type) => {
            let h = to_chars(content_type);
            let rss = to_chars("application/rss+xml");
            let atom = to_chars("application/atom+xml");
            let xml = to_chars("application/xml");
            let text_xml = to_chars("text/xml");
            chars_start_with(&h, &rss) || chars_start_with(&h, &atom) || chars_start_with(
                &h,
                &xml,
            ) || chars_start_with(&h, &text_xml)
        },
        None => false,
    }
}

} // verus!
