//! Word-boundary keyword matching.
//!
//! A single-word keyword matches content only where it is delimited
//! by word boundaries: the start or end of the content, or a
//! non-alphabetic character.  A multi-word phrase matches where its
//! words occur in order, separated by runs of whitespace, again
//! anchored at word boundaries.  This keeps a keyword such as "ai"
//! from matching inside "said" or "wait".
use vstd::prelude::*;

use crate::alias::AliasTable;
use crate::text::{is_alpha, is_space, lower_of, occurs_at, to_chars};

verus! {

/// Whether position `i` of `c` starts at a word boundary: the start
/// of the content or a non-alphabetic character before it.
pub open spec fn boundary_before(c: Seq<char>, i: int) -> bool {
    i == 0 || !is_alpha(c[i - 1])
}

/// Whether position `i` of `c` ends at a word boundary: the end of
/// the content or a non-alphabetic character at it.
pub open spec fn boundary_after(c: Seq<char>, i: int) -> bool {
    i == c.len() || !is_alpha(c[i])
}

/// The longest whitespace-free prefix of `s`.
pub open spec fn take_word(s: Seq<char>) -> Seq<char>
    decreases s.len(),
{
    if s.len() == 0 || is_space(s[0]) {
        Seq::empty()
    } else {
        seq![s[0]] + take_word(s.drop_first())
    }
}

/// The whitespace-separated words of `s`, in order.
pub open spec fn words_of(s: Seq<char>) -> Seq<Seq<char>>
    decreases s.len(),
    via words_of_decreases
{
    if s.len() == 0 {
        Seq::empty()
    } else if is_space(s[0]) {
        words_of(s.drop_first())
    } else {
        seq![take_word(s)] + words_of(s.skip(take_word(s).len() as int))
    }
}

#[via_fn]
proof fn words_of_decreases(s: Seq<char>) {
    if s.len() > 0 && !is_space(s[0]) {
        lemma_take_word(s);
    }
}

/// `take_word` takes a non-empty, whitespace-free prefix, and stops
/// at the end or at a whitespace character.
pub proof fn lemma_take_word(s: Seq<char>)
    ensures
        take_word(s).len() <= s.len(),
        take_word(s) == s.take(take_word(s).len() as int),
        forall|j: int| 0 <= j < take_word(s).len() ==> !is_space(s[j]),
        take_word(s).len() == s.len() || (take_word(s).len() < s.len() && is_space(
            s[take_word(s).len() as int],
        )),
        s.len() > 0 && !is_space(s[0]) ==> take_word(s).len() >= 1,
    decreases s.len(),
{
    if s.len() == 0 || is_space(s[0]) {
    } else {
        let rest = s.drop_first();
        lemma_take_word(rest);
        let w = take_word(s);
        assert(w == seq![s[0]] + take_word(rest));
        assert(w =~= s.take(w.len() as int));
        assert(forall|j: int| 1 <= j < w.len() ==> !is_space(rest[j - 1]) ==> !is_space(s[j]));
    }
}

/// A prefix of `s` that is whitespace-free and ends at the end of `s`
/// or just before a whitespace character is exactly `take_word(s)`.
pub proof fn lemma_take_word_unique(s: Seq<char>, k: int)
    requires
        0 <= k <= s.len(),
        forall|j: int| 0 <= j < k ==> !is_space(s[j]),
        k == s.len() || is_space(s[k]),
    ensures
        take_word(s) == s.take(k),
    decreases s.len(),
{
    if s.len() == 0 {
        assert(take_word(s) =~= s.take(k));
    } else if k == 0 {
        assert(is_space(s[0]));
        assert(take_word(s) =~= s.take(k));
    } else {
        assert(!is_space(s[0]));
        let rest = s.drop_first();
        assert(forall|j: int| 0 <= j < k - 1 ==> !is_space(rest[j]));
        assert(k - 1 == rest.len() || is_space(rest[k - 1]));
        lemma_take_word_unique(rest, k - 1);
        assert(take_word(s) == seq![s[0]] + take_word(rest));
        assert(take_word(s) =~= s.take(k));
    }
}

/// A well-formed word: non-empty and whitespace-free.
pub open spec fn word_wf(w: Seq<char>) -> bool {
    w.len() >= 1 && forall|j: int| 0 <= j < w.len() ==> !is_space(w[j])
}

/// Every word of `words_of` is non-empty and whitespace-free.
pub proof fn lemma_words_wf(s: Seq<char>)
    ensures
        forall|w: int| 0 <= w < words_of(s).len() ==> word_wf(#[trigger] words_of(s)[w]),
    decreases s.len(),
{
    if s.len() == 0 {
        assert(words_of(s).len() == 0);
    } else if is_space(s[0]) {
        lemma_words_wf(s.drop_first());
        assert(words_of(s) == words_of(s.drop_first()));
    } else {
        lemma_take_word(s);
        let first = take_word(s);
        let rest = s.skip(first.len() as int);
        lemma_words_wf(rest);
        assert(word_wf(first)) by {
            assert(first == s.take(first.len() as int));
            assert(forall|j: int| 0 <= j < first.len() ==> first[j] == s[j]);
            assert(forall|j: int| 0 <= j < first.len() ==> !is_space(s[j]));
        }
        assert forall|w: int| 0 <= w < words_of(s).len() implies word_wf(
            #[trigger] words_of(s)[w],
        ) by {
            if w == 0 {
                assert(words_of(s)[0] == first);
            } else {
                assert(words_of(s)[w] == words_of(rest)[w - 1]);
            }
        }
    }
}

/// The position where the whitespace run beginning at `j` ends: the
/// first index at or after `j` that is not whitespace, or the end of
/// the content.
pub open spec fn space_run_end(c: Seq<char>, j: int) -> int
    decreases c.len() - j
    when 0 <= j <= c.len()
{
    if j < c.len() && is_space(c[j]) {
        space_run_end(c, j + 1)
    } else {
        j
    }
}

/// The end of a whitespace run lies between its start and the end of
/// the content, and only whitespace stands before it.
pub proof fn lemma_space_run_end(c: Seq<char>, j: int)
    requires
        0 <= j <= c.len(),
    ensures
        j <= space_run_end(c, j) <= c.len(),
        forall|m: int| j <= m < space_run_end(c, j) ==> is_space(c[m]),
        space_run_end(c, j) == c.len() || !is_space(c[space_run_end(c, j)]),
    decreases c.len() - j,
{
    if j < c.len() && is_space(c[j]) {
        lemma_space_run_end(c, j + 1);
    }
}

/// Whether the words `ws` occur in `c` starting exactly at position
/// `i`: each word in order, separated by a non-empty whitespace run,
/// with a word boundary after the last.  The words are meant to come
/// from `words_of`, so none starts with whitespace, and the run
/// before each word is then the longest one.
pub open spec fn phrase_tail_at(c: Seq<char>, ws: Seq<Seq<char>>, i: int) -> bool
    decreases ws.len(),
{
    if ws.len() == 0 {
        false
    } else {
        occurs_at(c, ws[0], i) && {
            let j = i + ws[0].len();
            if ws.len() == 1 {
                boundary_after(c, j)
            } else {
                let k = space_run_end(c, j);
                k > j && phrase_tail_at(c, ws.drop_first(), k)
            }
        }
    }
}

/// Whether keyword `kw` matches content `c` at word boundaries.
pub open spec fn kw_match(c: Seq<char>, kw: Seq<char>) -> bool {
    let ws = words_of(kw);
    ws.len() > 0 && exists|i: int|
        0 <= i <= c.len() && boundary_before(c, i) && #[trigger] phrase_tail_at(c, ws, i)
}

/// How many of `kws` match `c`, each keyword lower-cased first.
pub open spec fn match_count(c: Seq<char>, kws: Seq<Seq<char>>) -> nat
    decreases kws.len(),
{
    if kws.len() == 0 {
        0
    } else {
        match_count(c, kws.drop_last()) + (if kw_match(c, lower_of(kws.last())) {
            1nat
        } else {
            0nat
        })
    }
}

/// The confidence, in thousandths, that a keyword set with `total`
/// keywords earns when `count` of them match: the matched share,
/// clamped to at most one and floored at 0.33.
pub open spec fn keyword_confidence(count: nat, total: nat) -> u32
    recommends
        total > 0,
{
    let share = count * 1000 / total;
    let clamped = if share > 1000 {
        1000
    } else {
        share
    };
    if clamped < 330 {
        330u32
    } else {
        clamped as u32
    }
}

/// The canonical form of a tag name: lower-cased, then collapsed
/// through the alias map when the map knows it.
pub open spec fn normalize_spec(am: Map<Seq<char>, Seq<char>>, t: Seq<char>) -> Seq<char> {
    let l = lower_of(t);
    if am.contains_key(l) {
        am[l]
    } else {
        l
    }
}

/// The words of `v`, split on whitespace.
pub fn split_words(v: &Vec<char>) -> (r: Vec<Vec<char>>)
    ensures
        r.deep_view() == words_of(v@),
{
    let n: usize = v.len();
    let mut out: Vec<Vec<char>> = Vec::new();
    let mut i: usize = 0;
    proof {
        assert(v@.skip(0) =~= v@);
        assert(out.deep_view() =~= Seq::<Seq<char>>::empty());
        assert(out.deep_view() + words_of(v@) =~= words_of(v@));
    }
    while i < n
        invariant
            n == v@.len(),
            i <= n,
            out.deep_view() + words_of(v@.skip(i as int)) == words_of(v@),
        decreases n - i,
    {
        if v[i].is_whitespace() {
            proof {
                assert(v@.skip(i as int).drop_first() =~= v@.skip(i + 1));
            }
            i = i + 1;
        } else {
            let ghost out0 = out.deep_view();
            let start: usize = i;
            let mut w: Vec<char> = Vec::new();
            while i < n && !v[i].is_whitespace()
                invariant
                    n == v@.len(),
                    start <= i <= n,
                    w@ == v@.subrange(start as int, i as int),
                    forall|j: int| start <= j < i ==> !is_space(v@[j]),
                decreases n - i,
            {
                w.push(v[i]);
                i = i + 1;
                proof {
                    assert(w@ =~= v@.subrange(start as int, i as int));
                }
            }
            proof {
                let s = v@.skip(start as int);
                assert(forall|j: int| 0 <= j < i - start ==> s[j] == v@[start + j]);
                assert(forall|j: int| 0 <= j < i - start ==> !is_space(s[j]));
                assert(i - start < s.len() ==> is_space(s[i - start]));
                lemma_take_word_unique(s, i - start);
                assert(w@ =~= s.take(i - start));
                assert(take_word(s) == w@);
                assert(s.len() > 0 && !is_space(s[0]));
                assert(words_of(s) == seq![w@] + words_of(s.skip(i - start)));
                assert(s.skip(i - start) =~= v@.skip(i as int));
            }
            let ghost wv = w@;
            out.push(w);
            proof {
                assert(out.deep_view() =~~= out0.push(wv));
                assert(out0.push(wv) + words_of(v@.skip(i as int)) =~= out0 + (seq![wv]
                    + words_of(v@.skip(i as int))));
                assert(out.deep_view() + words_of(v@.skip(i as int)) == words_of(v@));
            }
        }
    }
    proof {
        assert(v@.skip(n as int) =~= Seq::<char>::empty());
        assert(words_of(v@.skip(n as int)) =~= Seq::<Seq<char>>::empty());
        assert(out.deep_view() =~= out.deep_view() + words_of(v@.skip(n as int)));
    }
    out
}

/// Whether the words `ws[wi..]` stand in `c` from position `i` on,
/// separated by whitespace runs and closed by a word boundary.
fn phrase_at(c: &Vec<char>, ws: &Vec<Vec<char>>, wi: usize, i: usize) -> (r: bool)
    requires
        wi < ws@.len(),
        i <= c@.len(),
        forall|w: int| 0 <= w < ws.deep_view().len() ==> word_wf(#[trigger] ws.deep_view()[w]),
    ensures
        r == phrase_tail_at(c@, ws.deep_view().skip(wi as int), i as int),
    decreases ws@.len() - wi,
{
    let ghost tail = ws.deep_view().skip(wi as int);
    let n: usize = c.len();
    let w: &Vec<char> = &ws[wi];
    proof {
        crate::text::lemma_deep_chars(w);
        assert(ws.deep_view()[wi as int] == w@);
        assert(tail[0] == w@);
        assert(tail.len() == ws@.len() - wi);
        assert(word_wf(w@));
    }
    if n - i < w.len() {
        proof {
            assert(!occurs_at(c@, tail[0], i as int));
        }
        return false;
    }
    if !crate::text::chars_match_at(c, w, i) {
        return false;
    }
    let j: usize = i + w.len();
    proof {
        assert(occurs_at(c@, tail[0], i as int));
    }
    if wi == ws.len() - 1 {
        proof {
            assert(tail.len() == 1);
        }
        if j == n {
            proof {
                assert(boundary_after(c@, j as int));
            }
            true
        } else {
            let b = !c[j].is_alphabetic();
            proof {
                assert(b == boundary_after(c@, j as int));
            }
            b
        }
    } else {
        let ghost rest = tail.drop_first();
        proof {
            assert(tail.len() >= 2);
            assert(rest =~= ws.deep_view().skip(wi as int + 1));
            lemma_space_run_end(c@, j as int);
        }
        let mut k: usize = j;
        while k < n && c[k].is_whitespace()
            invariant
                n == c@.len(),
                j <= k <= n,
                space_run_end(c@, j as int) == space_run_end(c@, k as int),
            decreases n - k,
        {
            k = k + 1;
        }
        proof {
            assert(space_run_end(c@, k as int) == k);
            assert(space_run_end(c@, j as int) == k);
        }
        if k == j {
            proof {
                assert(!phrase_tail_at(c@, tail, i as int));
            }
            return false;
        }
        let r = phrase_at(c, ws, wi + 1, k);
        proof {
            assert(r == phrase_tail_at(c@, rest, k as int));
            assert(phrase_tail_at(c@, tail, i as int) == (occurs_at(c@, tail[0], i as int) && k > j
                && phrase_tail_at(c@, rest, k as int)));
        }
        r
    }
}

/// Whether keyword `kw` matches content `c` at word boundaries,
/// scanning every starting position.
pub fn matches_keyword_chars(c: &Vec<char>, kw: &Vec<char>) -> (r: bool)
    ensures
        r == kw_match(c@, kw@),
{
    let ws = split_words(kw);
    proof {
        lemma_words_wf(kw@);
    }
    if ws.len() == 0 {
        return false;
    }
    let n: usize = c.len();
    let mut i: usize = 0;
    while i < n
        invariant
            n == c@.len(),
            i <= n,
            ws.deep_view() == words_of(kw@),
            ws@.len() > 0,
            forall|w: int| 0 <= w < ws.deep_view().len() ==> word_wf(#[trigger] ws.deep_view()[w]),
            forall|p: int|
                0 <= p < i ==> !(boundary_before(c@, p) && #[trigger] phrase_tail_at(
                    c@,
                    words_of(kw@),
                    p,
                )),
        decreases n - i,
    {
        let at_boundary = if i == 0 {
            true
        } else {
            !c[i - 1].is_alphabetic()
        };
        if at_boundary {
            if phrase_at(c, &ws, 0, i) {
                proof {
                    assert(ws.deep_view().skip(0) =~= words_of(kw@));
                    assert(boundary_before(c@, i as int) && phrase_tail_at(
                        c@,
                        words_of(kw@),
                        i as int,
                    ));
                }
                return true;
            }
            proof {
                assert(ws.deep_view().skip(0) =~= words_of(kw@));
            }
        } else {
            proof {
                assert(!boundary_before(c@, i as int));
            }
        }
        i = i + 1;
    }
    proof {
        assert forall|p: int|
            0 <= p <= c@.len() implies !(boundary_before(c@, p) && #[trigger] phrase_tail_at(
            c@,
            words_of(kw@),
            p,
        )) by {
            if p < n {
            } else if phrase_tail_at(c@, words_of(kw@), p) {
                let w0 = words_of(kw@)[0];
                assert(word_wf(w0));
                assert(occurs_at(c@, w0, p));
                assert(p + w0.len() <= c@.len());
                assert(false);
            }
        }
    }
    false
}

/// What `check_keywords` returns: `None` when no keyword matches,
/// otherwise the matched-share confidence in thousandths.
pub open spec fn check_keywords_spec(c: Seq<char>, kws: Seq<Seq<char>>) -> Option<u32> {
    let count = match_count(lower_of(c), kws);
    if count == 0 {
        None
    } else {
        Some(keyword_confidence(count, kws.len()))
    }
}

/// Counting matches over one more keyword adds one exactly when that
/// keyword matches.
pub proof fn lemma_match_count_take(c: Seq<char>, kws: Seq<Seq<char>>, i: int)
    requires
        0 <= i < kws.len(),
    ensures
        match_count(c, kws.take(i + 1)) == match_count(c, kws.take(i)) + (if kw_match(
            c,
            lower_of(kws[i]),
        ) {
            1nat
        } else {
            0nat
        }),
{
    assert(kws.take(i + 1).drop_last() =~= kws.take(i));
    assert(kws.take(i + 1).last() == kws[i]);
}

/// The number of matched keywords never passes the number of
/// keywords.
pub proof fn lemma_match_count_le(c: Seq<char>, kws: Seq<Seq<char>>)
    ensures
        match_count(c, kws) <= kws.len(),
    decreases kws.len(),
{
    if kws.len() > 0 {
        lemma_match_count_le(c, kws.drop_last());
    }
}

/// The text-matching component: holds the alias table and answers
/// keyword, phrase and normalization questions about content.
pub struct StringMatcher {
    pub alias_map: AliasTable,
}

impl StringMatcher {
    /// The alias table never stores a key twice.
    pub open spec fn wf(&self) -> bool {
        self.alias_map.well_formed()
    }

    /// The alias map the matcher normalizes through.
    pub open spec fn aliases(&self) -> Map<Seq<char>, Seq<char>> {
        self.alias_map@
    }

    pub fn new(alias_map: AliasTable) -> (m: StringMatcher)
        requires
            alias_map.well_formed(),
        ensures
            m.wf(),
            m.aliases() == alias_map@,
    {
        StringMatcher { alias_map }
    }

    /// Whether `keyword` occurs in `content` at word boundaries.
    /// Both sides are taken as given: callers lower-case them first
    /// when they want case-insensitive matching.
    pub fn matches_keyword(&self, content: &str, keyword: &str) -> (r: bool)
        ensures
            r == kw_match(content@, keyword@),
    {
        let c = to_chars(content);
        let k = to_chars(keyword);
        matches_keyword_chars(&c, &k)
    }

    /// Score `keywords` against `content`, case-insensitively:
    /// `None` when none of them matches, otherwise the matched share
    /// in thousandths, floored at 330.
    pub fn check_keywords(&self, content: &str, keywords: &Vec<String>) -> (r: Option<u32>)
        ensures
            r == check_keywords_spec(content@, keywords.deep_view()),
    {
        let lowered = crate::text::lowercase(content);
        let c = to_chars(lowered.as_str());
        let total: usize = keywords.len();
        let ghost kws = keywords.deep_view();
        let mut count: usize = 0;
        let mut i: usize = 0;
        proof {
            assert(kws.take(0) =~= Seq::<Seq<char>>::empty());
        }
        while i < total
            invariant
                total == kws.len(),
                i <= total,
                count <= i,
                c@ == lower_of(content@),
                count == match_count(lower_of(content@), kws.take(i as int)),
                kws == keywords.deep_view(),
            decreases total - i,
        {
            let kw_lower = crate::text::lowercase(keywords[i].as_str());
            let kv = to_chars(kw_lower.as_str());
            proof {
                assert(keywords.deep_view()[i as int] == keywords@[i as int]@);
                assert(kv@ == lower_of(kws[i as int]));
            }
            if matches_keyword_chars(&c, &kv) {
                count = count + 1;
            }
            proof {
                lemma_match_count_take(lower_of(content@), kws, i as int);
            }
            i = i + 1;
        }
        proof {
            assert(kws.take(total as int) =~= kws);
        }
        if count == 0 {
            None
        } else {
            let share: u128 = (count as u128) * 1000 / (total as u128);
            let clamped: u128 = if share > 1000 {
                1000
            } else {
                share
            };
            let conf: u32 = if clamped < 330 {
                330
            } else {
                clamped as u32
            };
            proof {
                assert(count as u128 * 1000 == count * 1000) by (nonlinear_arith);
                assert(conf == keyword_confidence(count as nat, total as nat));
            }
            Some(conf)
        }
    }

    /// The canonical form of `tag`: lower-cased and alias-collapsed.
    pub fn normalize_tag(&self, tag: &str) -> (r: String)
        requires
            self.wf(),
        ensures
            r@ == normalize_spec(self.aliases(), tag@),
    {
        let lowered = crate::text::lowercase(tag);
        match self.alias_map.get(&lowered) {
            Some(canonical) => canonical.clone(),
            None => lowered,
        }
    }
}

} // verus!
