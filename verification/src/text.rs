//! Character and string primitives that the matcher is built on.
//!
//! Everything here is either fully verified (conversion to character
//! vectors, equality, substring search) or a narrow trusted wrapper
//! around a Unicode property of std that vstd gives no specification
//! for (`char::is_alphabetic`, `char::is_whitespace`,
//! `str::to_lowercase`).
use vstd::prelude::*;

verus! {

/// Whether a character counts as alphabetic for word-boundary
/// purposes.  Names the result of `char::is_alphabetic`, a pure
/// Unicode property of the character alone.
pub uninterp spec fn is_alpha(c: char) -> bool;

/// Whether a character is whitespace.  Names the result of
/// `char::is_whitespace`, a pure Unicode property of the character
/// alone.
pub uninterp spec fn is_space(c: char) -> bool;

/// Relies on `char::is_alphabetic`: a pure property of the character.
pub assume_specification[ char::is_alphabetic ](c: char) -> (r: bool)
    ensures
        r == is_alpha(c),
;

/// Relies on `char::is_whitespace`: a pure property of the character.
pub assume_specification[ char::is_whitespace ](c: char) -> (r: bool)
    ensures
        r == is_space(c),
;

/// The lower-case form of a character sequence.  Names the result of
/// `str::to_lowercase`, which depends on the characters alone.
pub uninterp spec fn lower_of(s: Seq<char>) -> Seq<char>;

/// Relies on `str::to_lowercase`: the result depends on the
/// characters of the input alone.
#[verifier::external_body]
pub fn lowercase(s: &str) -> (r: String)
    ensures
        r@ == lower_of(s@),
{
    s.to_lowercase()
}

/// The characters of a string, as a vector that can be indexed
/// directly.
pub fn to_chars(s: &str) -> (v: Vec<char>)
    ensures
        v@ == s@,
{
    let n: usize = s.unicode_len();
    let mut v: Vec<char> = Vec::new();
    let mut i: usize = 0;
    while i < n
        invariant
            n == s@.len(),
            i <= n,
            v@ == s@.take(i as int),
        decreases n - i,
    {
        let c = s.get_char(i);
        v.push(c);
        i = i + 1;
        proof {
            assert(v@ =~= s@.take(i as int));
        }
    }
    proof {
        assert(v@ =~= s@);
    }
    v
}

/// Whether the sequence `pat` occurs in `hay` starting at index `i`.
pub open spec fn occurs_at(hay: Seq<char>, pat: Seq<char>, i: int) -> bool {
    0 <= i && i + pat.len() <= hay.len() && hay.subrange(i, i + pat.len()) == pat
}

/// Whether `pat` occurs anywhere in `hay` as a plain substring.
pub open spec fn contains_seq(hay: Seq<char>, pat: Seq<char>) -> bool {
    exists|i: int| occurs_at(hay, pat, i)
}

/// Whether `pat` occurs at position `i` of `hay`, decided by direct
/// comparison of the characters.
pub fn chars_match_at(hay: &Vec<char>, pat: &Vec<char>, i: usize) -> (r: bool)
    requires
        i + pat@.len() <= hay@.len(),
    ensures
        r == occurs_at(hay@, pat@, i as int),
{
    let n: usize = hay.len();
    let m: usize = pat.len();
    let mut j: usize = 0;
    while j < m
        invariant
            n == hay@.len(),
            m == pat@.len(),
            i + m <= n,
            j <= m,
            forall|k: int| 0 <= k < j ==> hay@[i + k] == pat@[k],
        decreases m - j,
    {
        if hay[i + j] != pat[j] {
            proof {
                assert(hay@.subrange(i as int, i + pat@.len())[j as int] != pat@[j as int]);
            }
            return false;
        }
        j = j + 1;
    }
    proof {
        assert(hay@.subrange(i as int, i + pat@.len()) =~= pat@);
    }
    true
}

/// Whether `pat` is a substring of `hay`, by scanning every starting
/// position.
pub fn chars_contain(hay: &Vec<char>, pat: &Vec<char>) -> (r: bool)
    ensures
        r == contains_seq(hay@, pat@),
{
    let n: usize = hay.len();
    let m: usize = pat.len();
    if m > n {
        proof {
            assert(forall|i: int| !occurs_at(hay@, pat@, i));
        }
        return false;
    }
    if m == 0 {
        proof {
            assert(hay@.subrange(0, 0) =~= pat@);
            assert(occurs_at(hay@, pat@, 0));
        }
        return true;
    }
    let mut i: usize = 0;
    while i <= n - m
        invariant
            n == hay@.len(),
            m == pat@.len(),
            0 < m <= n,
            i <= n - m + 1,
            forall|k: int| 0 <= k < i ==> !occurs_at(hay@, pat@, k),
        decreases n - m + 1 - i,
    {
        if chars_match_at(hay, pat, i) {
            return true;
        }
        i = i + 1;
    }
    proof {
        assert(forall|k: int| occurs_at(hay@, pat@, k) ==> 0 <= k <= n - m);
    }
    false
}

/// The deep view of a character vector is its view.
pub proof fn lemma_deep_chars(v: &Vec<char>)
    ensures
        v.deep_view() == v@,
{
    assert(v.deep_view() =~= v@);
}

/// Whether two strings hold the same characters.
pub fn str_eq(a: &str, b: &str) -> (r: bool)
    ensures
        r == (a@ == b@),
{
    let av = to_chars(a);
    let bv = to_chars(b);
    chars_eq(&av, &bv)
}

/// Whether two character vectors are equal, position by position.
pub fn chars_eq(a: &Vec<char>, b: &Vec<char>) -> (r: bool)
    ensures
        r == (a@ == b@),
{
    if a.len() != b.len() {
        return false;
    }
    let n: usize = a.len();
    let mut i: usize = 0;
    while i < n
        invariant
            n == a@.len(),
            n == b@.len(),
            i <= n,
            forall|k: int| 0 <= k < i ==> a@[k] == b@[k],
        decreases n - i,
    {
        if a[i] != b[i] {
            return false;
        }
        i = i + 1;
    }
    proof {
        assert(a@ =~= b@);
    }
    true
}

/// Relies on `String: FromIterator<char>`: collecting characters
/// builds the string of exactly those characters.
#[verifier::external_body]
pub fn chars_to_string(v: &Vec<char>) -> (r: String)
    ensures
        r@ == v@,
{
    v.iter().collect()
}

/// The first position at or after `from` where `pat` occurs in
/// `hay`, or nothing.
pub open spec fn first_match(hay: Seq<char>, pat: Seq<char>, from: int) -> Option<int>
    decreases hay.len() + 1 - from
    when 0 <= from
{
    if from + pat.len() > hay.len() {
        None
    } else if hay.subrange(from, from + pat.len()) == pat {
        Some(from)
    } else {
        first_match(hay, pat, from + 1)
    }
}

/// A found position lies in range, carries the pattern, and nothing
/// before it does.
pub proof fn lemma_first_match(hay: Seq<char>, pat: Seq<char>, from: int)
    requires
        0 <= from,
    ensures
        match first_match(hay, pat, from) {
            Some(g) => from <= g && g + pat.len() <= hay.len() && occurs_at(hay, pat, g)
                && forall|m: int| from <= m < g ==> !occurs_at(hay, pat, m),
            None => forall|m: int| m >= from ==> !occurs_at(hay, pat, m),
        },
    decreases hay.len() + 1 - from,
{
    if from + pat.len() > hay.len() {
        assert(forall|m: int| m >= from ==> !(#[trigger] occurs_at(hay, pat, m)));
    } else if hay.subrange(from, from + pat.len()) == pat {
    } else {
        lemma_first_match(hay, pat, from + 1);
    }
}

/// The first occurrence of `pat` in `hay` at or after `from`, found
/// by scanning.
pub fn find_from(hay: &Vec<char>, pat: &Vec<char>, from: usize) -> (r: Option<usize>)
    requires
        from <= hay@.len(),
    ensures
        match r {
            Some(g) => first_match(hay@, pat@, from as int) == Some(g as int) && g
                + pat@.len() <= hay@.len() && g >= from,
            None => first_match(hay@, pat@, from as int) is None,
        },
{
    let n: usize = hay.len();
    let m: usize = pat.len();
    if m == 0 {
        proof {
            assert(hay@.subrange(from as int, from as int) =~= pat@);
        }
        return Some(from);
    }
    if m > n || from > n - m {
        proof {
            if first_match(hay@, pat@, from as int) is Some {
                lemma_first_match(hay@, pat@, from as int);
            }
        }
        return None;
    }
    let mut i: usize = from;
    while i <= n - m
        invariant
            n == hay@.len(),
            m == pat@.len(),
            0 < m <= n,
            from <= i,
            i <= n - m + 1,
            first_match(hay@, pat@, from as int) == first_match(hay@, pat@, i as int),
        decreases n - m + 1 - i,
    {
        if chars_match_at(hay, pat, i) {
            proof {
                assert(hay@.subrange(i as int, i + pat@.len()) == pat@);
            }
            return Some(i);
        }
        proof {
            assert(hay@.subrange(i as int, i + pat@.len()) != pat@);
        }
        i = i + 1;
    }
    proof {
        assert(i + m > n);
    }
    None
}

/// Where the trailing whitespace of `s` begins: the first position
/// after which everything is whitespace.
pub open spec fn rspace_start(s: Seq<char>, j: int) -> int
    decreases j
    when 0 <= j <= s.len()
{
    if j > 0 && is_space(s[j - 1]) {
        rspace_start(s, j - 1)
    } else {
        j
    }
}

/// The start of the trailing run lies in range, everything from it
/// on is whitespace, and the character before it is not.
pub proof fn lemma_rspace_start(s: Seq<char>, j: int)
    requires
        0 <= j <= s.len(),
    ensures
        0 <= rspace_start(s, j) <= j,
        forall|m: int| rspace_start(s, j) <= m < j ==> is_space(s[m]),
        rspace_start(s, j) == 0 || !is_space(s[rspace_start(s, j) - 1]),
    decreases j,
{
    if j > 0 && is_space(s[j - 1]) {
        lemma_rspace_start(s, j - 1);
    }
}

/// `s` with leading and trailing whitespace removed.
pub open spec fn trim_spec(s: Seq<char>) -> Seq<char> {
    let b = crate::matching::space_run_end(s, 0);
    let e = rspace_start(s, s.len() as int);
    if b < e {
        s.subrange(b, e)
    } else {
        Seq::empty()
    }
}

/// The characters of `v` with leading and trailing whitespace
/// removed.
pub fn trim_chars(v: &Vec<char>) -> (r: Vec<char>)
    ensures
        r@ == trim_spec(v@),
{
    let n: usize = v.len();
    let mut b: usize = 0;
    proof {
        crate::matching::lemma_space_run_end(v@, 0);
    }
    while b < n && v[b].is_whitespace()
        invariant
            n == v@.len(),
            b <= n,
            crate::matching::space_run_end(v@, 0) == crate::matching::space_run_end(v@, b as int),
        decreases n - b,
    {
        b = b + 1;
    }
    proof {
        assert(crate::matching::space_run_end(v@, b as int) == b);
    }
    let mut e: usize = n;
    proof {
        lemma_rspace_start(v@, n as int);
    }
    while e > 0 && v[e - 1].is_whitespace()
        invariant
            n == v@.len(),
            e <= n,
            rspace_start(v@, n as int) == rspace_start(v@, e as int),
        decreases e,
    {
        e = e - 1;
    }
    proof {
        assert(rspace_start(v@, e as int) == e);
    }
    let mut out: Vec<char> = Vec::new();
    if b >= e {
        proof {
            assert(out@ =~= trim_spec(v@));
        }
        return out;
    }
    let mut i: usize = b;
    while i < e
        invariant
            n == v@.len(),
            b <= i <= e <= n,
            out@ == v@.subrange(b as int, i as int),
        decreases e - i,
    {
        out.push(v[i]);
        i = i + 1;
        proof {
            assert(out@ =~= v@.subrange(b as int, i as int));
        }
    }
    proof {
        assert(out@ =~= trim_spec(v@));
    }
    out
}

/// Lexicographic order on character sequences, by code point.
pub open spec fn lex_le(a: Seq<char>, b: Seq<char>) -> bool
    decreases a.len(),
{
    if a.len() == 0 {
        true
    } else if b.len() == 0 {
        false
    } else if a[0] == b[0] {
        lex_le(a.drop_first(), b.drop_first())
    } else {
        (a[0] as u32) < (b[0] as u32)
    }
}

/// The order is total: two sequences compare one way or the other,
/// and both ways only when they are equal.
pub proof fn lemma_lex_le_total(a: Seq<char>, b: Seq<char>)
    ensures
        lex_le(a, b) || lex_le(b, a),
        lex_le(a, b) && lex_le(b, a) ==> a == b,
    decreases a.len(),
{
    if a.len() > 0 && b.len() > 0 {
        if a[0] == b[0] {
            lemma_lex_le_total(a.drop_first(), b.drop_first());
            if lex_le(a, b) && lex_le(b, a) {
                assert(a.drop_first() == b.drop_first());
                assert(a =~= seq![a[0]] + a.drop_first());
                assert(b =~= seq![b[0]] + b.drop_first());
            }
        } else {
            assert((a[0] as u32) != (b[0] as u32)) by {
                vstd::utf8::char_u32_cast(a[0], a[0] as u32);
                vstd::utf8::char_u32_cast(b[0], b[0] as u32);
            }
        }
    }
}

/// The order is transitive.
pub proof fn lemma_lex_le_trans(a: Seq<char>, b: Seq<char>, c: Seq<char>)
    requires
        lex_le(a, b),
        lex_le(b, c),
    ensures
        lex_le(a, c),
    decreases a.len(),
{
    if a.len() > 0 && b.len() > 0 && c.len() > 0 {
        if a[0] == b[0] && b[0] == c[0] {
            lemma_lex_le_trans(a.drop_first(), b.drop_first(), c.drop_first());
        }
    }
}

/// Decide the lexicographic order of two character vectors.
pub fn chars_le(a: &Vec<char>, b: &Vec<char>) -> (r: bool)
    ensures
        r == lex_le(a@, b@),
{
    let an: usize = a.len();
    let bn: usize = b.len();
    let mut i: usize = 0;
    proof {
        assert(a@.skip(0) =~= a@);
        assert(b@.skip(0) =~= b@);
    }
    while i < an && i < bn
        invariant
            an == a@.len(),
            bn == b@.len(),
            i <= an,
            i <= bn,
            forall|k: int| 0 <= k < i ==> a@[k] == b@[k],
            lex_le(a@, b@) == lex_le(a@.skip(i as int), b@.skip(i as int)),
        decreases an - i,
    {
        proof {
            assert(a@.skip(i as int)[0] == a@[i as int]);
            assert(b@.skip(i as int)[0] == b@[i as int]);
            assert(a@.skip(i as int).drop_first() =~= a@.skip(i + 1));
            assert(b@.skip(i as int).drop_first() =~= b@.skip(i + 1));
        }
        if a[i] != b[i] {
            return (a[i] as u32) < (b[i] as u32);
        }
        i = i + 1;
    }
    proof {
        if i >= an {
            assert(a@.skip(i as int).len() == 0);
        } else {
            assert(b@.skip(i as int).len() == 0);
            assert(a@.skip(i as int).len() > 0);
        }
    }
    an <= bn
}

/// Whether one of the strings in `v` holds exactly the characters
/// of `s`.
pub fn vec_contains_string(v: &Vec<String>, s: &str) -> (r: bool)
    ensures
        r == v.deep_view().contains(s@),
{
    let n: usize = v.len();
    let mut i: usize = 0;
    while i < n
        invariant
            n == v@.len(),
            i <= n,
            forall|k: int| 0 <= k < i ==> v.deep_view()[k] != s@,
        decreases n - i,
    {
        if string_eq_str(&v[i], s) {
            proof {
                assert(v.deep_view()[i as int] == s@);
            }
            return true;
        }
        i = i + 1;
    }
    proof {
        if v.deep_view().contains(s@) {
            let k = choose|k: int| 0 <= k < v.deep_view().len() && v.deep_view()[k] == s@;
            assert(false);
        }
    }
    false
}

/// Whether one `String` equals a string slice, character for
/// character.
pub fn string_eq_str(a: &String, b: &str) -> (r: bool)
    ensures
        r == (a@ == b@),
{
    str_eq(a.as_str(), b)
}

} // verus!
