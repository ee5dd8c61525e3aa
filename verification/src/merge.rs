//! Merging a user configuration with built-in defaults: tags the
//! user did not override are appended, feeds are combined field by
//! field, and default rules and aliases are added after the user's.
use vstd::prelude::*;

use crate::config::{CategorizationConfig, TagAlias, TagDefView, TagDefinition, TagRule};
use crate::strmap::StrMap;
use crate::text::{lex_le, lemma_lex_le_total, lemma_lex_le_trans, string_eq_str};
use crate::{FeedInfo, FeedInfoView, UserFeedInfo, UserFeedInfoView};

verus! {

/// Ascending lexicographic order, duplicates allowed.
pub open spec fn sorted_lex(s: Seq<Seq<char>>) -> bool {
    forall|a: int, b: int| 0 <= a <= b < s.len() ==> lex_le(#[trigger] s[a], #[trigger] s[b])
}

/// Inserting into an ascending list, after everything that is not
/// greater.
pub open spec fn insert_lex(s: Seq<Seq<char>>, x: Seq<char>) -> Seq<Seq<char>>
    decreases s.len(),
{
    if s.len() == 0 {
        seq![x]
    } else if lex_le(s.last(), x) {
        s.push(x)
    } else {
        insert_lex(s.drop_last(), x).push(s.last())
    }
}

/// Sorting a list of names ascending.
pub open spec fn sort_lex(s: Seq<Seq<char>>) -> Seq<Seq<char>>
    decreases s.len(),
{
    if s.len() == 0 {
        Seq::empty()
    } else {
        insert_lex(sort_lex(s.drop_last()), s.last())
    }
}

/// Dropping each element that repeats its immediate predecessor.
pub open spec fn dedup_adjacent(s: Seq<Seq<char>>) -> Seq<Seq<char>>
    decreases s.len(),
{
    if s.len() <= 1 {
        s
    } else if s.last() == s[s.len() - 2] {
        dedup_adjacent(s.drop_last())
    } else {
        dedup_adjacent(s.drop_last()).push(s.last())
    }
}

/// Insertion keeps ascending order, adds the element, keeps length.
proof fn lemma_insert_lex_sorted(s: Seq<Seq<char>>, x: Seq<char>)
    requires
        sorted_lex(s),
    ensures
        sorted_lex(insert_lex(s, x)),
        insert_lex(s, x).len() == s.len() + 1,
    decreases s.len(),
{
    lemma_lex_le_total(x, x);
    if s.len() == 0 {
    } else if lex_le(s.last(), x) {
        let out = s.push(x);
        assert forall|a: int, b: int| 0 <= a <= b < out.len() implies lex_le(
            #[trigger] out[a],
            #[trigger] out[b],
        ) by {
            if b < s.len() {
            } else {
                assert(out[b] == x);
                if a < s.len() {
                    lemma_lex_le_trans(s[a], s.last(), x);
                } else {
                    lemma_lex_le_total(x, x);
                }
            }
        }
    } else {
        assert(sorted_lex(s.drop_last())) by {
            assert(forall|a: int, b: int|
                0 <= a <= b < s.drop_last().len() ==> s.drop_last()[a] == s[a] && s.drop_last()[b]
                    == s[b]);
        }
        lemma_insert_lex_sorted(s.drop_last(), x);
        let inner = insert_lex(s.drop_last(), x);
        let out = inner.push(s.last());
        lemma_lex_le_total(s.last(), x);
        assert(lex_le(x, s.last()));
        assert forall|p: int| 0 <= p < inner.len() implies lex_le(
            #[trigger] inner[p],
            s.last(),
        ) by {
            lemma_insert_lex_members(s.drop_last(), x, p);
            if inner[p] == x {
            } else {
                let y = choose|y: int|
                    0 <= y < s.drop_last().len() && s.drop_last()[y] == inner[p];
                assert(s[y] == inner[p]);
                assert(lex_le(s[y], s[s.len() - 1]));
            }
        }
        assert forall|a: int, b: int| 0 <= a <= b < out.len() implies lex_le(
            #[trigger] out[a],
            #[trigger] out[b],
        ) by {
            if b < inner.len() {
            } else {
                assert(out[b] == s.last());
                if a < inner.len() {
                } else {
                    lemma_lex_le_total(s.last(), s.last());
                }
            }
        }
    }
}

/// Each element of an insertion result is the inserted name or one
/// of the old ones.
proof fn lemma_insert_lex_members(s: Seq<Seq<char>>, x: Seq<char>, p: int)
    requires
        0 <= p < insert_lex(s, x).len(),
    ensures
        insert_lex(s, x)[p] == x || exists|y: int|
            0 <= y < s.len() && s[y] == #[trigger] insert_lex(s, x)[p],
    decreases s.len(),
{
    if s.len() == 0 {
    } else if lex_le(s.last(), x) {
        if p < s.len() {
            assert(s[p] == insert_lex(s, x)[p]);
        }
    } else {
        let inner = insert_lex(s.drop_last(), x);
        if p < inner.len() {
            lemma_insert_lex_members(s.drop_last(), x, p);
            if inner[p] != x {
                let y = choose|y: int|
                    0 <= y < s.drop_last().len() && s.drop_last()[y] == inner[p];
                assert(s[y] == inner[p]);
            }
        } else {
            assert(insert_lex(s, x)[p] == s.last());
            assert(s[s.len() - 1] == s.last());
        }
    }
}

/// Inserting at the first greater position realizes the ascending
/// insertion.
proof fn lemma_insert_lex_split(s: Seq<Seq<char>>, x: Seq<char>, p: int)
    requires
        sorted_lex(s),
        0 <= p <= s.len(),
        forall|k: int| 0 <= k < p ==> lex_le(#[trigger] s[k], x),
        p < s.len() ==> !lex_le(s[p], x),
    ensures
        insert_lex(s, x) == s.insert(p, x),
    decreases s.len(),
{
    if s.len() == 0 {
        assert(insert_lex(s, x) =~= s.insert(p, x));
    } else if lex_le(s.last(), x) {
        assert(p == s.len()) by {
            if p < s.len() {
                lemma_lex_le_trans(s[p], s[s.len() - 1], x);
            }
        }
        assert(insert_lex(s, x) =~= s.insert(p, x));
    } else {
        assert(p < s.len());
        assert(sorted_lex(s.drop_last())) by {
            assert(forall|a: int, b: int|
                0 <= a <= b < s.drop_last().len() ==> s.drop_last()[a] == s[a] && s.drop_last()[b]
                    == s[b]);
        }
        assert(p <= s.len() - 1) by {
            if p == s.len() {
                assert(lex_le(s[s.len() - 1], x));
            }
        }
        assert(forall|k: int| 0 <= k < p ==> lex_le(#[trigger] s.drop_last()[k], x));
        assert(p < s.len() - 1 ==> !lex_le(s.drop_last()[p], x));
        if p == s.len() - 1 {
            assert(s.drop_last().len() == p);
        }
        lemma_insert_lex_split(s.drop_last(), x, p);
        assert(insert_lex(s, x) == insert_lex(s.drop_last(), x).push(s.last()));
        assert(insert_lex(s, x) =~= s.insert(p, x));
    }
}

/// Copy a list of strings.
pub fn clone_strings(v: &Vec<String>) -> (r: Vec<String>)
    ensures
        r.deep_view() == v.deep_view(),
{
    let n: usize = v.len();
    let mut r: Vec<String> = Vec::new();
    let mut i: usize = 0;
    proof {
        assert(r.deep_view() =~~= v.deep_view().take(0));
    }
    while i < n
        invariant
            n == v@.len(),
            i <= n,
            r.deep_view() == v.deep_view().take(i as int),
        decreases n - i,
    {
        let ghost r0 = r.deep_view();
        r.push(v[i].clone());
        proof {
            assert(r.deep_view() =~~= r0.push(v.deep_view()[i as int]));
            assert(r0.push(v.deep_view()[i as int]) =~= v.deep_view().take(i + 1));
        }
        i = i + 1;
    }
    proof {
        assert(v.deep_view().take(n as int) =~= v.deep_view());
    }
    r
}

/// Copy one tag rule.
pub fn clone_rule(r: &TagRule) -> (c: TagRule)
    ensures
        c@ == r@,
{
    TagRule {
        rule_type: r.rule_type.clone(),
        patterns: clone_strings(&r.patterns),
        tag: r.tag.clone(),
        tags: clone_strings(&r.tags),
        confidence: r.confidence,
        exclude_patterns: clone_strings(&r.exclude_patterns),
        min_keyword_count: r.min_keyword_count,
        required_keywords: clone_strings(&r.required_keywords),
        exclude_tags: clone_strings(&r.exclude_tags),
    }
}

/// Copy one tag definition.
pub fn clone_tag_definition(d: &TagDefinition) -> (c: TagDefinition)
    ensures
        c@ == d@,
{
    TagDefinition {
        name: d.name.clone(),
        description: d.description.clone(),
        keywords: clone_strings(&d.keywords),
    }
}

/// Copy one alias.
pub fn clone_alias(a: &TagAlias) -> (c: TagAlias)
    ensures
        c@ == a@,
{
    TagAlias { from: clone_strings(&a.from), to: a.to.clone() }
}

/// Sort names ascending, then drop repeated neighbours: the unique
/// sorted tag list.
pub fn sort_dedup_tags(tags: Vec<String>) -> (r: Vec<String>)
    ensures
        r.deep_view() == dedup_adjacent(sort_lex(tags.deep_view())),
{
    let ghost tv = tags.deep_view();
    let n: usize = tags.len();
    let mut sorted: Vec<String> = Vec::new();
    let mut i: usize = 0;
    proof {
        assert(tv.take(0) =~= Seq::<Seq<char>>::empty());
        assert(sorted.deep_view() =~~= sort_lex(tv.take(0)));
    }
    while i < n
        invariant
            tv == tags.deep_view(),
            n == tv.len(),
            i <= n,
            sorted.deep_view() == sort_lex(tv.take(i as int)),
            sorted_lex(sorted.deep_view()),
        decreases n - i,
    {
        proof {
            assert(tv.take(i + 1).drop_last() =~= tv.take(i as int));
            assert(tv.take(i + 1).last() == tv[i as int]);
            assert(tags.deep_view()[i as int] == tags@[i as int]@);
        }
        let x = tags[i].clone();
        let sn: usize = sorted.len();
        let mut p: usize = 0;
        while p < sn && crate::text::chars_le(
            &crate::text::to_chars(sorted[p].as_str()),
            &crate::text::to_chars(x.as_str()),
        )
            invariant
                sn == sorted.deep_view().len(),
                p <= sn,
                x@ == tv[i as int],
                tv == tags.deep_view(),
                i < tv.len(),
                forall|k: int| 0 <= k < p ==> lex_le(#[trigger] sorted.deep_view()[k], x@),
            decreases sn - p,
        {
            proof {
                assert(sorted.deep_view()[p as int] == sorted@[p as int]@);
            }
            p = p + 1;
        }
        proof {
            if p < sn {
                assert(sorted.deep_view()[p as int] == sorted@[p as int]@);
            }
            lemma_insert_lex_split(sorted.deep_view(), x@, p as int);
            lemma_insert_lex_sorted(sorted.deep_view(), x@);
        }
        let ghost s0 = sorted.deep_view();
        sorted.insert(p, x);
        proof {
            assert(sorted.deep_view() =~~= s0.insert(p as int, tv[i as int]));
        }
        i = i + 1;
    }
    proof {
        assert(tv.take(n as int) =~= tv);
    }
    let ghost sv = sorted.deep_view();
    let mut out: Vec<String> = Vec::new();
    let mut i: usize = 0;
    proof {
        assert(sv.take(0) =~= Seq::<Seq<char>>::empty());
        assert(out.deep_view() =~~= dedup_adjacent(sv.take(0)));
    }
    while i < sorted.len()
        invariant
            sv == sorted.deep_view(),
            i <= sv.len(),
            out.deep_view() == dedup_adjacent(sv.take(i as int)),
        decreases sv.len() - i,
    {
        proof {
            assert(sv.take(i + 1).drop_last() =~= sv.take(i as int));
            assert(sv.take(i + 1).last() == sv[i as int]);
            assert(sorted.deep_view()[i as int] == sorted@[i as int]@);
            if i > 0 {
                assert(sv.take(i + 1)[i - 1] == sv[i - 1]);
                assert(sorted.deep_view()[i - 1] == sorted@[i - 1]@);
            }
        }
        let keep: bool = if i == 0 {
            true
        } else {
            !string_eq_str(&sorted[i - 1], sorted[i].as_str())
        };
        if keep {
            let ghost o0 = out.deep_view();
            out.push(sorted[i].clone());
            proof {
                assert(out.deep_view() =~~= o0.push(sv[i as int]));
            }
        }
        i = i + 1;
    }
    proof {
        assert(sv.take(sv.len() as int) =~= sv);
    }
    out
}

/// How one feed merges with its default: the user's tier always
/// wins, user fields override where given, and tag lists are
/// combined, sorted and made unique.
pub open spec fn merge_single_spec(d: FeedInfoView, u: UserFeedInfoView) -> FeedInfoView {
    FeedInfoView {
        url: match u.url {
            Some(x) => x,
            None => d.url,
        },
        author: match u.author {
            Some(x) => x,
            None => d.author,
        },
        description: match u.description {
            Some(x) => Some(x),
            None => d.description,
        },
        tier: u.tier,
        tags: match u.tags {
            Some(ut) => Some(
                dedup_adjacent(
                    sort_lex(
                        (match d.tags {
                            Some(dt) => dt,
                            None => Seq::empty(),
                        }) + ut,
                    ),
                ),
            ),
            None => d.tags,
        },
        auto_tag: match u.auto_tag {
            Some(x) => Some(x),
            None => d.auto_tag,
        },
    }
}

/// A custom feed stands on its own: every carried field is taken as
/// given.  Meaningful only when url and author are present.
pub open spec fn custom_feed_spec(u: UserFeedInfoView) -> FeedInfoView {
    FeedInfoView {
        url: u.url.unwrap(),
        author: u.author.unwrap(),
        description: u.description,
        tier: u.tier,
        tags: u.tags,
        auto_tag: u.auto_tag,
    }
}

/// The names of a tag-definition list, in order.
pub open spec fn tag_names(defs: Seq<TagDefView>) -> Seq<Seq<char>> {
    Seq::new(defs.len(), |i: int| defs[i].name)
}

/// The default definitions whose names do not occur among the
/// user's, in order.
pub open spec fn missing_defaults(
    user_names: Seq<Seq<char>>,
    defaults: Seq<TagDefView>,
) -> Seq<TagDefView>
    decreases defaults.len(),
{
    if defaults.len() == 0 {
        Seq::empty()
    } else {
        missing_defaults(user_names, defaults.drop_last()) + (if user_names.contains(
            defaults.last().name,
        ) {
            Seq::empty()
        } else {
            seq![defaults.last()]
        })
    }
}

/// Handles merging of default configuration with user configuration.
pub struct ConfigMerger;

impl ConfigMerger {
    /// Merge one feed with its default entry.
    pub fn merge_single_feed(default_feed: FeedInfo, user_feed: &UserFeedInfo) -> (r: FeedInfo)
        ensures
            r@ == merge_single_spec(default_feed@, user_feed@),
    {
        let FeedInfo { url, author, description, tier: _, tags, auto_tag } = default_feed;
        let url = match user_feed.url {
            Some(ref u) => u.clone(),
            None => url,
        };
        let author = match user_feed.author {
            Some(ref a) => a.clone(),
            None => author,
        };
        let description = match user_feed.description {
            Some(ref d) => Some(d.clone()),
            None => description,
        };
        let tags: Option<Vec<String>> = match user_feed.tags {
            Some(ref ut) => {
                let ghost dtv: Seq<Seq<char>> = match tags {
                    Some(ref dt) => dt.deep_view(),
                    None => Seq::empty(),
                };
                let mut all: Vec<String> = match tags {
                    Some(t) => t,
                    None => Vec::new(),
                };
                proof {
                    assert(all.deep_view() == dtv);
                    assert(ut.deep_view().take(0) =~= Seq::<Seq<char>>::empty());
                    assert(all.deep_view() =~= dtv + ut.deep_view().take(0));
                }
                let un: usize = ut.len();
                let mut j: usize = 0;
                while j < un
                    invariant
                        un == ut.deep_view().len(),
                        j <= un,
                        all.deep_view() == dtv + ut.deep_view().take(j as int),
                    decreases un - j,
                {
                    let ghost a0 = all.deep_view();
                    all.push(ut[j].clone());
                    proof {
                        assert(ut.deep_view()[j as int] == ut@[j as int]@);
                        assert(all.deep_view() =~~= a0.push(ut.deep_view()[j as int]));
                        assert(a0.push(ut.deep_view()[j as int]) =~= dtv + ut.deep_view().take(
                            j + 1,
                        ));
                    }
                    j = j + 1;
                }
                proof {
                    assert(ut.deep_view().take(un as int) =~= ut.deep_view());
                }
                Some(sort_dedup_tags(all))
            },
            None => tags,
        };
        let auto_tag = match user_feed.auto_tag {
            Some(b) => Some(b),
            None => auto_tag,
        };
        FeedInfo { url, author, description, tier: user_feed.tier, tags, auto_tag }
    }

    /// Build a feed from user fields alone; both url and author must
    /// be given, and the slug names the feed in the error when one
    /// is missing.
    pub fn create_custom_feed(slug: &str, user_feed: UserFeedInfo) -> (r: Result<
        FeedInfo,
        String,
    >)
        ensures
            r is Ok <==> user_feed.url is Some && user_feed.author is Some,
            r matches Ok(f) ==> f@ == custom_feed_spec(user_feed@),
    {
        let UserFeedInfo { url, author, description, tier, tags, auto_tag } = user_feed;
        let url = match url {
            Some(u) => u,
            None => {
                let mut msg = String::from_str("feed '");
                msg.append(slug);
                msg.append("' must specify url");
                return Err(msg);
            },
        };
        let author = match author {
            Some(a) => a,
            None => {
                let mut msg = String::from_str("feed '");
                msg.append(slug);
                msg.append("' must specify author");
                return Err(msg);
            },
        };
        Ok(FeedInfo { url, author, description, tier, tags, auto_tag })
    }

    /// Merge the user's feed table with the defaults: a default feed
    /// enters only when the user names it, merged field by field; a
    /// feed of the user's own enters as given, and must carry url
    /// and author.
    pub fn merge_feeds(user_feeds: StrMap<UserFeedInfo>, default_feeds: &StrMap<FeedInfo>) -> (r:
        Result<StrMap<FeedInfo>, String>)
        requires
            user_feeds.well_formed(),
            default_feeds.well_formed(),
        ensures
            r matches Ok(m) ==> m.well_formed() && (forall|k: Seq<char>|
                #[trigger] m@.contains_key(k) <==> user_feeds@.contains_key(k)) && (forall|
                k: Seq<char>,
            |
                #[trigger] user_feeds@.contains_key(k) ==> m@[k] == (
                if default_feeds@.contains_key(k) {
                    merge_single_spec(default_feeds@[k], user_feeds@[k])
                } else {
                    custom_feed_spec(user_feeds@[k])
                })),
            r is Ok <==> (forall|k: Seq<char>|
                #[trigger] user_feeds@.contains_key(k) && !default_feeds@.contains_key(k)
                    ==> user_feeds@[k].url is Some && user_feeds@[k].author is Some),
    {
        let mut merged: StrMap<FeedInfo> = StrMap::new();
        let dn: usize = default_feeds.len();
        let mut i: usize = 0;
        while i < dn
            invariant
                user_feeds.well_formed(),
                default_feeds.well_formed(),
                dn == default_feeds.entries().len(),
                i <= dn,
                merged.well_formed(),
                forall|k: Seq<char>|
                    #[trigger] merged@.contains_key(k) ==> user_feeds@.contains_key(k)
                        && default_feeds@.contains_key(k),
                forall|k: Seq<char>|
                    #[trigger] merged@.contains_key(k) ==> merged@[k] == merge_single_spec(
                        default_feeds@[k],
                        user_feeds@[k],
                    ),
                forall|j: int|
                    0 <= j < i && user_feeds@.contains_key(
                        (#[trigger] default_feeds.entries()[j]).0,
                    ) ==> merged@.contains_key(default_feeds.entries()[j].0),
            decreases dn - i,
        {
            let slug: &String = default_feeds.key_at(i);
            proof {
                default_feeds.lemma_entry(i as int);
            }
            match user_feeds.get(slug.as_str()) {
                Some(user_feed) => {
                    let default_feed = default_feeds.value_at(i);
                    let copied = FeedInfo {
                        url: default_feed.url.clone(),
                        author: default_feed.author.clone(),
                        description: match default_feed.description {
                            Some(ref d) => Some(d.clone()),
                            None => None,
                        },
                        tier: default_feed.tier,
                        tags: match default_feed.tags {
                            Some(ref t) => Some(clone_strings(t)),
                            None => None,
                        },
                        auto_tag: default_feed.auto_tag,
                    };
                    proof {
                        assert(copied@ == default_feeds.entries()[i as int].1);
                    }
                    let single = Self::merge_single_feed(copied, user_feed);
                    merged.insert(slug.clone(), single);
                },
                None => {},
            }
            i = i + 1;
        }
        proof {
            assert forall|k: Seq<char>|
                user_feeds@.contains_key(k) && #[trigger] default_feeds@.contains_key(k)
                    implies merged@.contains_key(k) by {
                default_feeds.lemma_key(k);
                let j = choose|j: int|
                    0 <= j < default_feeds.entries().len() && (
                    #[trigger] default_feeds.entries()[j]).0 == k;
            }
        }
        let un: usize = user_feeds.len();
        let mut i: usize = 0;
        while i < un
            invariant
                user_feeds.well_formed(),
                default_feeds.well_formed(),
                un == user_feeds.entries().len(),
                i <= un,
                merged.well_formed(),
                forall|k: Seq<char>|
                    #[trigger] merged@.contains_key(k) ==> user_feeds@.contains_key(k),
                forall|k: Seq<char>|
                    #[trigger] merged@.contains_key(k) && default_feeds@.contains_key(k)
                        ==> merged@[k] == merge_single_spec(default_feeds@[k], user_feeds@[k]),
                forall|k: Seq<char>|
                    #[trigger] merged@.contains_key(k) && !default_feeds@.contains_key(k)
                        ==> merged@[k] == custom_feed_spec(user_feeds@[k]),
                forall|k: Seq<char>|
                    user_feeds@.contains_key(k) && #[trigger] default_feeds@.contains_key(k)
                        ==> merged@.contains_key(k),
                forall|j: int|
                    0 <= j < i ==> merged@.contains_key((#[trigger] user_feeds.entries()[j]).0),
                forall|j: int|
                    0 <= j < i && !default_feeds@.contains_key(
                        (#[trigger] user_feeds.entries()[j]).0,
                    ) ==> user_feeds.entries()[j].1.url is Some
                        && user_feeds.entries()[j].1.author is Some,
            decreases un - i,
        {
            let slug: &String = user_feeds.key_at(i);
            proof {
                user_feeds.lemma_entry(i as int);
            }
            if !default_feeds.contains_key(slug.as_str()) {
                let user_feed = user_feeds.value_at(i);
                let copied = UserFeedInfo {
                    url: match user_feed.url {
                        Some(ref u) => Some(u.clone()),
                        None => None,
                    },
                    author: match user_feed.author {
                        Some(ref a) => Some(a.clone()),
                        None => None,
                    },
                    description: match user_feed.description {
                        Some(ref d) => Some(d.clone()),
                        None => None,
                    },
                    tier: user_feed.tier,
                    tags: match user_feed.tags {
                        Some(ref t) => Some(clone_strings(t)),
                        None => None,
                    },
                    auto_tag: user_feed.auto_tag,
                };
                proof {
                    assert(copied@ == user_feeds.entries()[i as int].1);
                }
                match Self::create_custom_feed(slug.as_str(), copied) {
                    Ok(feed) => {
                        merged.insert(slug.clone(), feed);
                    },
                    Err(msg) => {
                        proof {
                            assert(user_feeds@.contains_key(user_feeds.entries()[i as int].0));
                            assert(user_feeds@[user_feeds.entries()[i as int].0].url is None
                                || user_feeds@[user_feeds.entries()[i as int].0].author is None);
                        }
                        return Err(msg);
                    },
                }
            }
            i = i + 1;
        }
        proof {
            assert forall|k: Seq<char>| #[trigger] user_feeds@.contains_key(k)
                implies merged@.contains_key(k) by {
                user_feeds.lemma_key(k);
            }
            assert forall|k: Seq<char>|
                #[trigger] user_feeds@.contains_key(k) && !default_feeds@.contains_key(k)
                    implies user_feeds@[k].url is Some && user_feeds@[k].author is Some by {
                user_feeds.lemma_key(k);
                let j = choose|j: int|
                    0 <= j < user_feeds.entries().len() && (#[trigger] user_feeds.entries()[j]).0
                        == k;
                user_feeds.lemma_entry(j);
            }
        }
        Ok(merged)
    }

    /// Append every default tag whose name the user has not defined.
    pub fn merge_tags(user_config: &mut CategorizationConfig, default_tags: &Vec<TagDefinition>)
        ensures
            final(user_config)@.tags == old(user_config)@.tags + missing_defaults(
                tag_names(old(user_config)@.tags),
                default_tags.deep_view(),
            ),
            final(user_config)@.enabled == old(user_config)@.enabled,
            final(user_config)@.auto_tag_new_articles == old(user_config)@.auto_tag_new_articles,
            final(user_config)@.max_tags_per_item == old(user_config)@.max_tags_per_item,
            final(user_config)@.confidence_threshold == old(user_config)@.confidence_threshold,
            final(user_config)@.rules == old(user_config)@.rules,
            final(user_config)@.aliases == old(user_config)@.aliases,
    {
        let user_count: usize = user_config.tags.len();
        let ghost oldtags = user_config@.tags;
        let ghost names = tag_names(oldtags);
        let dn: usize = default_tags.len();
        let mut d: usize = 0;
        proof {
            assert(default_tags.deep_view().take(0) =~= Seq::<TagDefView>::empty());
            assert(user_config@.tags =~= oldtags + missing_defaults(
                names,
                default_tags.deep_view().take(0),
            ));
        }
        while d < dn
            invariant
                dn == default_tags.deep_view().len(),
                d <= dn,
                user_count == oldtags.len(),
                names == tag_names(oldtags),
                oldtags == old(user_config)@.tags,
                user_config@.tags == oldtags + missing_defaults(
                    names,
                    default_tags.deep_view().take(d as int),
                ),
                user_config@.enabled == old(user_config)@.enabled,
                user_config@.auto_tag_new_articles == old(user_config)@.auto_tag_new_articles,
                user_config@.max_tags_per_item == old(user_config)@.max_tags_per_item,
                user_config@.confidence_threshold == old(user_config)@.confidence_threshold,
                user_config@.rules == old(user_config)@.rules,
                user_config@.aliases == old(user_config)@.aliases,
            decreases dn - d,
        {
            let default_tag = &default_tags[d];
            let ghost tags_at_start = user_config@.tags;
            proof {
                assert(default_tags.deep_view()[d as int] == default_tags@[d as int]@);
                assert(default_tags.deep_view().take(d + 1).drop_last()
                    =~= default_tags.deep_view().take(d as int));
                assert(default_tags.deep_view().take(d + 1).last() == default_tags.deep_view()[
                    d as int]);
            }
            let mut found: bool = false;
            let mut u: usize = 0;
            while u < user_count
                invariant
                    user_count <= user_config@.tags.len(),
                    u <= user_count,
                    user_count == oldtags.len(),
                    names == tag_names(oldtags),
                    forall|j: int|
                        0 <= j < oldtags.len() ==> #[trigger] user_config@.tags[j] == oldtags[j],
                    default_tag@ == default_tags.deep_view()[d as int],
                    d < default_tags.deep_view().len(),
                    found ==> names.contains(default_tags.deep_view()[d as int].name),
                    !found ==> forall|j: int|
                        0 <= j < u ==> #[trigger] names[j] != default_tags.deep_view()[
                            d as int].name,
                decreases user_count - u,
            {
                proof {
                    assert(user_config@.tags[u as int] == oldtags[u as int]);
                    assert(names[u as int] == oldtags[u as int].name);
                }
                if string_eq_str(&user_config.tags[u].name, default_tag.name.as_str()) {
                    found = true;
                }
                u = u + 1;
            }
            proof {
                if !found && names.contains(default_tags.deep_view()[d as int].name) {
                    let j = choose|j: int|
                        0 <= j < names.len() && #[trigger] names[j] == default_tags.deep_view()[
                            d as int].name;
                    assert(false);
                }
                assert(found == names.contains(default_tags.deep_view()[d as int].name));
            }
            if !found {
                let copied = clone_tag_definition(default_tag);
                user_config.tags.push(copied);
                proof {
                    assert(user_config@.tags =~~= tags_at_start.push(
                        default_tags.deep_view()[d as int],
                    ));
                    assert(missing_defaults(names, default_tags.deep_view().take(d + 1))
                        =~= missing_defaults(names, default_tags.deep_view().take(d as int))
                        + seq![default_tags.deep_view()[d as int]]);
                    assert(user_config@.tags =~= oldtags + missing_defaults(
                        names,
                        default_tags.deep_view().take(d + 1),
                    ));
                }
            } else {
                proof {
                    assert(missing_defaults(names, default_tags.deep_view().take(d + 1))
                        =~= missing_defaults(names, default_tags.deep_view().take(d as int)));
                    assert(user_config@.tags =~= oldtags + missing_defaults(
                        names,
                        default_tags.deep_view().take(d + 1),
                    ));
                }
            }
            d = d + 1;
        }
        proof {
            assert(default_tags.deep_view().take(dn as int) =~= default_tags.deep_view());
        }
    }

    /// Append every default rule and alias after the user's own, in
    /// order.
    pub fn merge_categorization(
        user_config: &mut CategorizationConfig,
        default_rules: &Vec<TagRule>,
        default_aliases: &Vec<TagAlias>,
    )
        ensures
            final(user_config)@.rules == old(user_config)@.rules + default_rules.deep_view(),
            final(user_config)@.aliases == old(user_config)@.aliases + default_aliases.deep_view(),
            final(user_config)@.enabled == old(user_config)@.enabled,
            final(user_config)@.auto_tag_new_articles == old(user_config)@.auto_tag_new_articles,
            final(user_config)@.max_tags_per_item == old(user_config)@.max_tags_per_item,
            final(user_config)@.confidence_threshold == old(user_config)@.confidence_threshold,
            final(user_config)@.tags == old(user_config)@.tags,
    {
        let rn: usize = default_rules.len();
        let mut i: usize = 0;
        proof {
            assert(user_config@.rules =~= old(user_config)@.rules + default_rules.deep_view().take(
                0,
            ));
        }
        while i < rn
            invariant
                rn == default_rules.deep_view().len(),
                i <= rn,
                user_config@.rules == old(user_config)@.rules + default_rules.deep_view().take(
                    i as int,
                ),
                user_config@.enabled == old(user_config)@.enabled,
                user_config@.auto_tag_new_articles == old(user_config)@.auto_tag_new_articles,
                user_config@.max_tags_per_item == old(user_config)@.max_tags_per_item,
                user_config@.confidence_threshold == old(user_config)@.confidence_threshold,
                user_config@.tags == old(user_config)@.tags,
                user_config@.aliases == old(user_config)@.aliases,
            decreases rn - i,
        {
            let ghost r0 = user_config@.rules;
            user_config.rules.push(clone_rule(&default_rules[i]));
            proof {
                assert(default_rules.deep_view()[i as int] == default_rules@[i as int]@);
                assert(user_config@.rules =~~= r0.push(default_rules.deep_view()[i as int]));
                assert(r0.push(default_rules.deep_view()[i as int]) =~= old(user_config)@.rules
                    + default_rules.deep_view().take(i + 1));
            }
            i = i + 1;
        }
        proof {
            assert(default_rules.deep_view().take(rn as int) =~= default_rules.deep_view());
        }
        let an: usize = default_aliases.len();
        let mut i: usize = 0;
        proof {
            assert(user_config@.aliases =~= old(user_config)@.aliases
                + default_aliases.deep_view().take(0));
        }
        while i < an
            invariant
                an == default_aliases.deep_view().len(),
                i <= an,
                user_config@.aliases == old(user_config)@.aliases
                    + default_aliases.deep_view().take(i as int),
                user_config@.rules == old(user_config)@.rules + default_rules.deep_view(),
                user_config@.enabled == old(user_config)@.enabled,
                user_config@.auto_tag_new_articles == old(user_config)@.auto_tag_new_articles,
                user_config@.max_tags_per_item == old(user_config)@.max_tags_per_item,
                user_config@.confidence_threshold == old(user_config)@.confidence_threshold,
                user_config@.tags == old(user_config)@.tags,
            decreases an - i,
        {
            let ghost a0 = user_config@.aliases;
            user_config.aliases.push(clone_alias(&default_aliases[i]));
            proof {
                assert(default_aliases.deep_view()[i as int] == default_aliases@[i as int]@);
                assert(user_config@.aliases =~~= a0.push(default_aliases.deep_view()[i as int]));
                assert(a0.push(default_aliases.deep_view()[i as int]) =~= old(user_config)@.aliases + default_aliases.deep_view().take(i + 1));
            }
            i = i + 1;
        }
        proof {
            assert(default_aliases.deep_view().take(an as int) =~= default_aliases.deep_view());
        }
    }
}

} // verus!
