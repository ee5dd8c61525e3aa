//! Rule evaluation: one evaluator applies one declarative rule to
//! one article and yields the candidate tags the rule emits, or
//! nothing.
//!
//! Rule kinds form a closed set; a rule whose kind string is unknown
//! never matches.  Every tag-producing rule is vetoed locally when
//! one of its exclude patterns matches the content.
use vstd::prelude::*;

use crate::config::{RuleView, TagRule};
use crate::engine::{Tag, TagSource, TagView};
use crate::matching::{
    kw_match, lemma_match_count_take, match_count, StringMatcher,
};
use crate::text::{contains_seq, lower_of, lowercase, str_eq, to_chars};

verus! {

/// The closed set of rule kinds, with a catch-all for unknown kind
/// strings.
#[derive(Clone, Copy, Debug, PartialEq, Eq, Structural)]
pub enum RuleKind {
    TitleContains,
    ContentContains,
    ContentAnalysis,
    AuthorWithContent,
    UrlContains,
    AuthorContains,
    FeedSlug,
    ExcludeIf,
    Unknown,
}

/// The kind a rule-type string names.
pub open spec fn rule_kind(rt: Seq<char>) -> RuleKind {
    if rt == "title_contains"@ {
        RuleKind::TitleContains
    } else if rt == "content_contains"@ {
        RuleKind::ContentContains
    } else if rt == "content_analysis"@ {
        RuleKind::ContentAnalysis
    } else if rt == "author_with_content"@ {
        RuleKind::AuthorWithContent
    } else if rt == "url_contains"@ {
        RuleKind::UrlContains
    } else if rt == "author_contains"@ {
        RuleKind::AuthorContains
    } else if rt == "feed_slug"@ {
        RuleKind::FeedSlug
    } else if rt == "exclude_if"@ {
        RuleKind::ExcludeIf
    } else {
        RuleKind::Unknown
    }
}

/// The kind named by a rule-type string.
pub fn rule_kind_of(rt: &str) -> (k: RuleKind)
    ensures
        k == rule_kind(rt@),
{
    if str_eq(rt, "title_contains") {
        RuleKind::TitleContains
    } else if str_eq(rt, "content_contains") {
        RuleKind::ContentContains
    } else if str_eq(rt, "content_analysis") {
        RuleKind::ContentAnalysis
    } else if str_eq(rt, "author_with_content") {
        RuleKind::AuthorWithContent
    } else if str_eq(rt, "url_contains") {
        RuleKind::UrlContains
    } else if str_eq(rt, "author_contains") {
        RuleKind::AuthorContains
    } else if str_eq(rt, "feed_slug") {
        RuleKind::FeedSlug
    } else if str_eq(rt, "exclude_if") {
        RuleKind::ExcludeIf
    } else {
        RuleKind::Unknown
    }
}

/// The search text an article offers: its title, a space, and its
/// description when there is one.
pub open spec fn raw_content(title: Seq<char>, description: Option<Seq<char>>) -> Seq<char> {
    title + seq![' '] + (match description {
        Some(d) => d,
        None => Seq::<char>::empty(),
    })
}

/// How many of `pats`, lower-cased, are plain substrings of `c`.
pub open spec fn contain_count(c: Seq<char>, pats: Seq<Seq<char>>) -> nat
    decreases pats.len(),
{
    if pats.len() == 0 {
        0
    } else {
        contain_count(c, pats.drop_last()) + (if contains_seq(c, lower_of(pats.last())) {
            1nat
        } else {
            0nat
        })
    }
}

/// Counting substring matches over one more pattern adds one exactly
/// when that pattern is contained.
pub proof fn lemma_contain_count_take(c: Seq<char>, pats: Seq<Seq<char>>, i: int)
    requires
        0 <= i < pats.len(),
    ensures
        contain_count(c, pats.take(i + 1)) == contain_count(c, pats.take(i)) + (if contains_seq(
            c,
            lower_of(pats[i]),
        ) {
            1nat
        } else {
            0nat
        }),
{
    assert(pats.take(i + 1).drop_last() =~= pats.take(i));
    assert(pats.take(i + 1).last() == pats[i]);
}

/// How many of `pats` equal `s` exactly.
pub open spec fn eq_count(s: Seq<char>, pats: Seq<Seq<char>>) -> nat
    decreases pats.len(),
{
    if pats.len() == 0 {
        0
    } else {
        eq_count(s, pats.drop_last()) + (if pats.last() == s {
            1nat
        } else {
            0nat
        })
    }
}

/// Counting equalities over one more pattern adds one exactly when
/// that pattern is the string itself.
pub proof fn lemma_eq_count_take(s: Seq<char>, pats: Seq<Seq<char>>, i: int)
    requires
        0 <= i < pats.len(),
    ensures
        eq_count(s, pats.take(i + 1)) == eq_count(s, pats.take(i)) + (if pats[i] == s {
            1nat
        } else {
            0nat
        }),
{
    assert(pats.take(i + 1).drop_last() =~= pats.take(i));
    assert(pats.take(i + 1).last() == pats[i]);
}

/// Whether one of the rule's exclude patterns matches the content:
/// a local veto, independent of global exclusion rules.
pub open spec fn locally_excluded(r: RuleView, cl: Seq<char>) -> bool {
    match_count(cl, r.exclude_patterns) > 0
}

/// Whether the rule's own predicate holds of the article, not yet
/// counting the local veto.  `cl` is the lower-cased content.
pub open spec fn rule_predicate(
    r: RuleView,
    cl: Seq<char>,
    title: Seq<char>,
    link: Option<Seq<char>>,
    author: Option<Seq<char>>,
    feed_slug: Seq<char>,
) -> bool {
    match rule_kind(r.rule_type) {
        RuleKind::TitleContains => match_count(lower_of(title), r.patterns) > 0,
        RuleKind::ContentContains => match_count(cl, r.patterns) > 0,
        RuleKind::ContentAnalysis => match_count(cl, r.patterns) >= (match r.min_keyword_count {
            Some(m) => m as nat,
            None => 1nat,
        }),
        RuleKind::AuthorWithContent => match author {
            Some(a) => contain_count(lower_of(a), r.patterns) > 0 && r.required_keywords.len() > 0
                && match_count(cl, r.required_keywords) == r.required_keywords.len(),
            None => false,
        },
        RuleKind::UrlContains => match link {
            Some(u) => contain_count(lower_of(u), r.patterns) > 0,
            None => false,
        },
        RuleKind::AuthorContains => match author {
            Some(a) => contain_count(lower_of(a), r.patterns) > 0,
            None => false,
        },
        RuleKind::FeedSlug => eq_count(feed_slug, r.patterns) > 0,
        RuleKind::ExcludeIf => false,
        RuleKind::Unknown => false,
    }
}

/// Whether the rule fires on the article: its predicate holds and no
/// exclude pattern vetoes it.
pub open spec fn rule_fires(
    r: RuleView,
    title: Seq<char>,
    description: Option<Seq<char>>,
    link: Option<Seq<char>>,
    author: Option<Seq<char>>,
    feed_slug: Seq<char>,
) -> bool {
    let cl = lower_of(raw_content(title, description));
    !locally_excluded(r, cl) && rule_predicate(r, cl, title, link, author, feed_slug)
}

/// The names a firing rule emits: its single tag when set, then its
/// tag list.
pub open spec fn rule_candidate_names(r: RuleView) -> Seq<Seq<char>> {
    (if r.tag.len() > 0 {
        seq![r.tag]
    } else {
        Seq::<Seq<char>>::empty()
    }) + r.tags
}

/// The candidate tags a firing rule emits, all with the rule's
/// confidence.
pub open spec fn rule_tags(r: RuleView) -> Seq<TagView> {
    rule_candidate_names(r).map_values(
        |n: Seq<char>| (TagView { name: n, confidence: r.confidence, source: TagSource::Rule }),
    )
}

/// What applying one rule to one article yields: the rule's tags
/// when it fires and emits at least one, nothing otherwise.
pub open spec fn apply_rule_spec(
    r: RuleView,
    title: Seq<char>,
    description: Option<Seq<char>>,
    link: Option<Seq<char>>,
    author: Option<Seq<char>>,
    feed_slug: Seq<char>,
) -> Option<Seq<TagView>> {
    if rule_fires(r, title, description, link, author, feed_slug) && rule_candidate_names(
        r,
    ).len() > 0 {
        Some(rule_tags(r))
    } else {
        None
    }
}

/// The article text rules search: title, a space, description.
pub fn build_content(title: &str, description: Option<&str>) -> (r: String)
    ensures
        r@ == raw_content(
            title@,
            match description {
                Some(d) => Some(d@),
                None => None,
            },
        ),
{
    let mut s = String::from_str(title);
    s.append(" ");
    match description {
        Some(d) => {
            s.append(d);
            proof {
                reveal_strlit(" ");
                assert(s@ =~= title@ + seq![' '] + d@);
            }
        },
        None => {
            proof {
                reveal_strlit(" ");
                assert(s@ =~= title@ + seq![' '] + Seq::<char>::empty());
            }
        },
    }
    s
}

/// How many of `pats`, lower-cased, keyword-match the already
/// lower-cased content `cl`.
pub fn count_kw_matches(cl: &Vec<char>, pats: &Vec<String>) -> (r: usize)
    ensures
        r == match_count(cl@, pats.deep_view()),
{
    let total: usize = pats.len();
    let ghost pv = pats.deep_view();
    let mut count: usize = 0;
    let mut i: usize = 0;
    proof {
        assert(pv.take(0) =~= Seq::<Seq<char>>::empty());
    }
    while i < total
        invariant
            total == pv.len(),
            i <= total,
            count <= i,
            pv == pats.deep_view(),
            count == match_count(cl@, pv.take(i as int)),
        decreases total - i,
    {
        let lowered = lowercase(pats[i].as_str());
        let lv = to_chars(lowered.as_str());
        proof {
            assert(pats.deep_view()[i as int] == pats@[i as int]@);
            assert(lv@ == lower_of(pv[i as int]));
        }
        if crate::matching::matches_keyword_chars(cl, &lv) {
            count = count + 1;
        }
        proof {
            lemma_match_count_take(cl@, pv, i as int);
        }
        i = i + 1;
    }
    proof {
        assert(pv.take(total as int) =~= pv);
    }
    count
}

/// How many of `pats`, lower-cased, are plain substrings of the
/// already lower-cased text `cl`.
pub fn count_substrings(cl: &Vec<char>, pats: &Vec<String>) -> (r: usize)
    ensures
        r == contain_count(cl@, pats.deep_view()),
{
    let total: usize = pats.len();
    let ghost pv = pats.deep_view();
    let mut count: usize = 0;
    let mut i: usize = 0;
    proof {
        assert(pv.take(0) =~= Seq::<Seq<char>>::empty());
    }
    while i < total
        invariant
            total == pv.len(),
            i <= total,
            count <= i,
            pv == pats.deep_view(),
            count == contain_count(cl@, pv.take(i as int)),
        decreases total - i,
    {
        let lowered = lowercase(pats[i].as_str());
        let lv = to_chars(lowered.as_str());
        proof {
            assert(pats.deep_view()[i as int] == pats@[i as int]@);
            assert(lv@ == lower_of(pv[i as int]));
        }
        if crate::text::chars_contain(cl, &lv) {
            count = count + 1;
        }
        proof {
            lemma_contain_count_take(cl@, pv, i as int);
        }
        i = i + 1;
    }
    proof {
        assert(pv.take(total as int) =~= pv);
    }
    count
}

/// How many of `pats` equal `s` exactly.
pub fn count_equal(s: &str, pats: &Vec<String>) -> (r: usize)
    ensures
        r == eq_count(s@, pats.deep_view()),
{
    let total: usize = pats.len();
    let ghost pv = pats.deep_view();
    let mut count: usize = 0;
    let mut i: usize = 0;
    proof {
        assert(pv.take(0) =~= Seq::<Seq<char>>::empty());
    }
    while i < total
        invariant
            total == pv.len(),
            i <= total,
            count <= i,
            pv == pats.deep_view(),
            count == eq_count(s@, pv.take(i as int)),
        decreases total - i,
    {
        proof {
            assert(pats.deep_view()[i as int] == pats@[i as int]@);
        }
        if str_eq(pats[i].as_str(), s) {
            count = count + 1;
        }
        proof {
            lemma_eq_count_take(s@, pv, i as int);
        }
        i = i + 1;
    }
    proof {
        assert(pv.take(total as int) =~= pv);
    }
    count
}

/// Applies declarative rules to articles.  Kept beside the matcher
/// it consults for keyword and boundary questions.
pub struct RuleApplicator<'a> {
    pub matcher: &'a StringMatcher,
}

impl<'a> RuleApplicator<'a> {
    pub fn new(matcher: &'a StringMatcher) -> (r: RuleApplicator<'a>)
        ensures
            r.matcher == matcher,
    {
        RuleApplicator { matcher }
    }

    /// Apply one rule to one article: the rule's candidate tags when
    /// it fires, nothing otherwise.
    pub fn apply_rule(
        &self,
        rule: &TagRule,
        title: &str,
        description: Option<&str>,
        link: Option<&str>,
        author: Option<&str>,
        feed_slug: &str,
    ) -> (r: Option<Vec<Tag>>)
        ensures
            r.deep_view() == apply_rule_spec(
                rule@,
                title@,
                match description {
                    Some(d) => Some(d@),
                    None => None,
                },
                match link {
                    Some(l) => Some(l@),
                    None => None,
                },
                match author {
                    Some(a) => Some(a@),
                    None => None,
                },
                feed_slug@,
            ),
    {
        apply_rule_exec(rule, title, description, link, author, feed_slug)
    }
}

/// Apply one rule to one article: the rule's candidate tags when it
/// fires, nothing otherwise.
pub fn apply_rule_exec(
    rule: &TagRule,
    title: &str,
    description: Option<&str>,
    link: Option<&str>,
    author: Option<&str>,
    feed_slug: &str,
) -> (r: Option<Vec<Tag>>)
    ensures
        r.deep_view() == apply_rule_spec(
            rule@,
            title@,
            match description {
                Some(d) => Some(d@),
                None => None,
            },
            match link {
                Some(l) => Some(l@),
                None => None,
            },
            match author {
                Some(a) => Some(a@),
                None => None,
            },
            feed_slug@,
        ),
{
    let ghost descv: Option<Seq<char>> = match description {
        Some(d) => Some(d@),
        None => None,
    };
    let content = build_content(title, description);
    let content_lower = lowercase(content.as_str());
    let cl = to_chars(content_lower.as_str());
    proof {
        assert(cl@ == lower_of(raw_content(title@, descv)));
    }
    if count_kw_matches(&cl, &rule.exclude_patterns) > 0 {
        return None;
    }
    let kind = rule_kind_of(rule.rule_type.as_str());
    let fires: bool = match kind {
        RuleKind::TitleContains => {
            let tl = lowercase(title);
            let tv = to_chars(tl.as_str());
            count_kw_matches(&tv, &rule.patterns) > 0
        },
        RuleKind::ContentContains => count_kw_matches(&cl, &rule.patterns) > 0,
        RuleKind::ContentAnalysis => {
            let needed: usize = match rule.min_keyword_count {
                Some(m) => m,
                None => 1,
            };
            count_kw_matches(&cl, &rule.patterns) >= needed
        },
        RuleKind::AuthorWithContent => {
            match author {
                Some(a) => {
                    let al = lowercase(a);
                    let av = to_chars(al.as_str());
                    if count_substrings(&av, &rule.patterns) > 0 {
                        if rule.required_keywords.len() > 0 {
                            count_kw_matches(&cl, &rule.required_keywords)
                                == rule.required_keywords.len()
                        } else {
                            false
                        }
                    } else {
                        false
                    }
                },
                None => false,
            }
        },
        RuleKind::UrlContains => {
            match link {
                Some(u) => {
                    let ul = lowercase(u);
                    let uv = to_chars(ul.as_str());
                    count_substrings(&uv, &rule.patterns) > 0
                },
                None => false,
            }
        },
        RuleKind::AuthorContains => {
            match author {
                Some(a) => {
                    let al = lowercase(a);
                    let av = to_chars(al.as_str());
                    count_substrings(&av, &rule.patterns) > 0
                },
                None => false,
            }
        },
        RuleKind::FeedSlug => count_equal(feed_slug, &rule.patterns) > 0,
        RuleKind::ExcludeIf => false,
        RuleKind::Unknown => false,
    };
    if !fires {
        return None;
    }
    let mut out: Vec<Tag> = Vec::new();
    if !rule.tag.as_str().is_empty() {
        out.push(Tag { name: rule.tag.clone(), confidence: rule.confidence, source: TagSource::Rule });
    }
    let total: usize = rule.tags.len();
    let ghost names = rule_candidate_names(rule@);
    let ghost lead: int = if rule@.tag.len() > 0 {
        1
    } else {
        0
    };
    proof {
        assert(out.deep_view() =~~= rule_tags(rule@).take(lead));
    }
    let mut i: usize = 0;
    while i < total
        invariant
            total == rule@.tags.len(),
            i <= total,
            lead == (if rule@.tag.len() > 0 {
                1int
            } else {
                0int
            }),
            names == rule_candidate_names(rule@),
            names.len() == lead + total,
            rule@ == rule.view(),
            out.deep_view() == rule_tags(rule@).take(lead + i),
        decreases total - i,
    {
        let ghost out0 = out.deep_view();
        out.push(
            Tag { name: rule.tags[i].clone(), confidence: rule.confidence, source: TagSource::Rule },
        );
        proof {
            let idx = lead + i;
            let pushedv = (TagView {
                name: rule.tags@[i as int]@,
                confidence: rule@.confidence,
                source: TagSource::Rule,
            });
            assert(rule.tags.deep_view()[i as int] == rule.tags@[i as int]@);
            assert(names[idx] == rule@.tags[i as int]);
            assert(rule_tags(rule@)[idx] == pushedv);
            assert(out.deep_view() =~= out0.push(pushedv));
            assert(rule_tags(rule@).take(idx + 1) =~= rule_tags(rule@).take(idx).push(
                rule_tags(rule@)[idx],
            ));
            assert(out.deep_view() == rule_tags(rule@).take(idx + 1));
        }
        i = i + 1;
    }
    if out.len() == 0 {
        proof {
            assert(names.len() == 0);
        }
        None
    } else {
        proof {
            assert(out.deep_view() =~~= rule_tags(rule@));
        }
        Some(out)
    }
}

} // verus!
