//! Description handling for fetched feed items: paragraph-aware
//! summarization and HTML tag stripping.
use vstd::prelude::*;

use crate::matching::{split_words, words_of};
use crate::text::{
    chars_to_string, find_from, first_match, to_chars, trim_chars, trim_spec,
};
use crate::text_utils::{join_first_words, join_take};

verus! {

/// A smaller positive break position, when the candidate is one.
pub open spec fn closer_break(current: int, candidate: Option<int>) -> int {
    match candidate {
        Some(p) => if 0 < p < current {
            p
        } else {
            current
        },
        None => current,
    }
}

/// Whether a character can end a sentence.
pub open spec fn ends_sentence(c: char) -> bool {
    c == '.' || c == '!' || c == '?' || c == '"' || c == '\''
}

/// The position where the first paragraph of `t` ends: the earliest
/// positive occurrence of a paragraph break, an HTML break pair or a
/// sentence-closing newline; the whole length when none occurs.
pub open spec fn break_position(t: Seq<char>) -> int {
    let s0 = t.len() as int;
    let s1 = closer_break(s0, first_match(t, seq!['\n', '\n'], 0));
    let s2 = closer_break(s1, first_match(t, seq!['\r', '\n', '\r', '\n'], 0));
    let s3 = closer_break(s2, first_match(t, seq!['<', '/', 'p', '>'], 0));
    let s4 = closer_break(s3, first_match(t, seq!['<', 'b', 'r', '>', '<', 'b', 'r', '>'], 0));
    let s5 = closer_break(
        s4,
        first_match(t, seq!['<', 'b', 'r', '/', '>', '<', 'b', 'r', '/', '>'], 0),
    );
    match first_match(t, seq!['\n'], 0) {
        Some(p) => if 0 < p < s5 && ends_sentence(t[p - 1]) {
            p
        } else {
            s5
        },
        None => s5,
    }
}

/// What paragraph extraction returns for a feed item: the trimmed
/// text before the earliest break, the whole trimmed text when no
/// break cuts it, nothing when only whitespace is left.
pub open spec fn item_first_paragraph_spec(t: Seq<char>) -> Option<Seq<char>> {
    let sb = break_position(t);
    if 0 < sb < t.len() {
        Some(trim_spec(t.take(sb)))
    } else if trim_spec(t).len() > 0 {
        Some(trim_spec(t))
    } else {
        None
    }
}

/// The earliest positive break among the pattern's occurrences,
/// folded into `current`.
fn fold_break(t: &Vec<char>, pat: &Vec<char>, current: usize) -> (r: usize)
    requires
        current <= t@.len(),
    ensures
        r == closer_break(current as int, first_match(t@, pat@, 0)),
        r <= current,
{
    match find_from(t, pat, 0) {
        Some(p) => {
            if 0 < p && p < current {
                p
            } else {
                current
            }
        },
        None => current,
    }
}

/// Extract the first paragraph of a feed item: the text before the
/// earliest paragraph break, HTML break pair or sentence-closing
/// newline, trimmed; the whole trimmed text when no break cuts it.
pub fn extract_first_paragraph(text: &str) -> (r: Option<String>)
    ensures
        match r {
            Some(s) => item_first_paragraph_spec(text@) == Some(s@),
            None => item_first_paragraph_spec(text@) is None,
        },
{
    let tv = to_chars(text);
    let n: usize = tv.len();
    let pat_nn = vec!['\n', '\n'];
    let pat_rr = vec!['\r', '\n', '\r', '\n'];
    let pat_p = vec!['<', '/', 'p', '>'];
    let pat_br = vec!['<', 'b', 'r', '>', '<', 'b', 'r', '>'];
    let pat_brs = vec!['<', 'b', 'r', '/', '>', '<', 'b', 'r', '/', '>'];
    let pat_n = vec!['\n'];
    proof {
        assert(pat_nn@ =~= seq!['\n', '\n']);
        assert(pat_rr@ =~= seq!['\r', '\n', '\r', '\n']);
        assert(pat_p@ =~= seq!['<', '/', 'p', '>']);
        assert(pat_br@ =~= seq!['<', 'b', 'r', '>', '<', 'b', 'r', '>']);
        assert(pat_brs@ =~= seq!['<', 'b', 'r', '/', '>', '<', 'b', 'r', '/', '>']);
        assert(pat_n@ =~= seq!['\n']);
    }
    let s1 = fold_break(&tv, &pat_nn, n);
    let s2 = fold_break(&tv, &pat_rr, s1);
    let s3 = fold_break(&tv, &pat_p, s2);
    let s4 = fold_break(&tv, &pat_br, s3);
    let s5 = fold_break(&tv, &pat_brs, s4);
    let sb: usize = match find_from(&tv, &pat_n, 0) {
        Some(p) => {
            if 0 < p && p < s5 {
                let c = tv[p - 1];
                if c == '.' || c == '!' || c == '?' || c == '"' || c == '\'' {
                    p
                } else {
                    s5
                }
            } else {
                s5
            }
        },
        None => s5,
    };
    proof {
        assert(sb == break_position(tv@));
    }
    if 0 < sb && sb < n {
        let mut para: Vec<char> = Vec::new();
        let mut i: usize = 0;
        while i < sb
            invariant
                sb <= tv@.len(),
                i <= sb,
                para@ == tv@.take(i as int),
            decreases sb - i,
        {
            para.push(tv[i]);
            i = i + 1;
            proof {
                assert(para@ =~= tv@.take(i as int));
            }
        }
        let trimmed = trim_chars(&para);
        Some(chars_to_string(&trimmed))
    } else {
        let trimmed = trim_chars(&tv);
        if trimmed.len() > 0 {
            Some(chars_to_string(&trimmed))
        } else {
            None
        }
    }
}

/// What feed-item truncation returns: the first paragraph when it
/// fits the limit and is substantial (or the whole text fits), the
/// paragraph's first words when the paragraph overflows, and the
/// description's first words otherwise.  No ellipsis is added.
pub open spec fn item_short_description_spec(d: Seq<char>, max_words: usize) -> Seq<char> {
    let fallback = join_first_words(words_of(d), max_words as int);
    match item_first_paragraph_spec(d) {
        Some(fp) => {
            let wc = words_of(fp).len();
            if wc <= max_words {
                if wc >= 10 || words_of(d).len() <= max_words {
                    fp
                } else {
                    fallback
                }
            } else {
                join_words_prefix(fp, max_words as int)
            }
        },
        None => fallback,
    }
}

/// The first `k` words of a text, joined by single spaces.
pub open spec fn join_words_prefix(t: Seq<char>, k: int) -> Seq<char> {
    join_first_words(words_of(t), k)
}

/// Truncate a feed item's description to at most `max_words` words,
/// preferring its first paragraph when that is a substantial,
/// fitting summary.
pub fn get_short_description(description: String, max_words: usize) -> (r: String)
    ensures
        r@ == item_short_description_spec(description@, max_words),
{
    let dv = to_chars(description.as_str());
    match extract_first_paragraph(description.as_str()) {
        Some(fp) => {
            let fpv = to_chars(fp.as_str());
            let fp_words = split_words(&fpv);
            let wc: usize = fp_words.len();
            if wc <= max_words {
                if wc >= 10 {
                    return fp;
                }
                let d_words = split_words(&dv);
                if d_words.len() <= max_words {
                    return fp;
                }
                let joined = join_take(&d_words, max_words);
                return chars_to_string(&joined);
            }
            let joined = join_take(&fp_words, max_words);
            chars_to_string(&joined)
        },
        None => {
            let d_words = split_words(&dv);
            let joined = join_take(&d_words, max_words);
            chars_to_string(&joined)
        },
    }
}

/// What HTML stripping leaves: every maximal span from a `<` to the
/// first following `>` is removed; a `<` with no closing `>` after
/// it stays as ordinary text.
pub open spec fn strip_tags_spec(s: Seq<char>) -> Seq<char>
    decreases s.len(),
    via strip_tags_decreases
{
    if s.len() == 0 {
        Seq::empty()
    } else if s[0] == '<' && first_match(s, seq!['>'], 1) is Some {
        strip_tags_spec(s.skip(first_match(s, seq!['>'], 1).unwrap() + 1))
    } else {
        seq![s[0]] + strip_tags_spec(s.drop_first())
    }
}

#[via_fn]
proof fn strip_tags_decreases(s: Seq<char>) {
    if s.len() > 0 && s[0] == '<' && first_match(s, seq!['>'], 1) is Some {
        crate::text::lemma_first_match(s, seq!['>'], 1);
    }
}

/// Remove HTML tags: every span from a `<` to the first following
/// `>`, angle brackets included.
pub fn strip_tags(text: &str) -> (r: String)
    ensures
        r@ == strip_tags_spec(text@),
{
    let tv = to_chars(text);
    let n: usize = tv.len();
    let gt = vec!['>'];
    proof {
        assert(gt@ =~= seq!['>']);
    }
    let mut out: Vec<char> = Vec::new();
    let mut i: usize = 0;
    proof {
        assert(tv@.skip(0) =~= tv@);
        assert(out@ + strip_tags_spec(tv@) =~= strip_tags_spec(tv@));
    }
    while i < n
        invariant
            n == tv@.len(),
            i <= n,
            gt@ == seq!['>'],
            out@ + strip_tags_spec(tv@.skip(i as int)) == strip_tags_spec(tv@),
        decreases n - i,
    {
        let ghost rest = tv@.skip(i as int);
        if tv[i] == '<' {
            match find_from(&tv, &gt, i + 1) {
                Some(g) => {
                    proof {
                        crate::text::lemma_first_match(rest, seq!['>'], 1);
                        assert(first_match(rest, seq!['>'], 1) == Some(g - i)) by {
                            lemma_first_match_shift(tv@, i as int, g - i);
                        }
                        assert(rest.skip(g - i + 1) =~= tv@.skip(g + 1));
                        assert(strip_tags_spec(rest) == strip_tags_spec(tv@.skip(g + 1)));
                    }
                    i = g + 1;
                },
                None => {
                    proof {
                        assert(first_match(rest, seq!['>'], 1) is None) by {
                            lemma_first_match_shift_none(tv@, i as int);
                        }
                        assert(strip_tags_spec(rest) == seq![rest[0]] + strip_tags_spec(
                            rest.drop_first(),
                        ));
                        assert(rest.drop_first() =~= tv@.skip(i + 1));
                    }
                    let ghost o0 = out@;
                    out.push(tv[i]);
                    proof {
                        assert(out@ =~= o0.push(rest[0]));
                        assert(out@ + strip_tags_spec(tv@.skip(i + 1)) =~= o0 + (seq![rest[0]]
                            + strip_tags_spec(tv@.skip(i + 1))));
                    }
                    i = i + 1;
                },
            }
        } else {
            proof {
                assert(rest[0] != '<');
                assert(strip_tags_spec(rest) == seq![rest[0]] + strip_tags_spec(
                    rest.drop_first(),
                ));
                assert(rest.drop_first() =~= tv@.skip(i + 1));
            }
            let ghost o0 = out@;
            out.push(tv[i]);
            proof {
                assert(out@ =~= o0.push(rest[0]));
                assert(out@ + strip_tags_spec(tv@.skip(i + 1)) =~= o0 + (seq![rest[0]]
                    + strip_tags_spec(tv@.skip(i + 1))));
            }
            i = i + 1;
        }
    }
    proof {
        assert(tv@.skip(n as int) =~= Seq::<char>::empty());
        assert(strip_tags_spec(tv@.skip(n as int)) =~= Seq::<char>::empty());
        assert(out@ =~= out@ + strip_tags_spec(tv@.skip(n as int)));
    }
    chars_to_string(&out)
}

/// A first match within the tail starting at `i` sits `i` later in
/// the whole text.
proof fn lemma_first_match_shift(t: Seq<char>, i: int, g: int)
    requires
        0 <= i < t.len(),
        first_match(t, seq!['>'], i + 1) == Some(i + g),
        g >= 1,
    ensures
        first_match(t.skip(i), seq!['>'], 1) == Some(g),
{
    crate::text::lemma_first_match(t, seq!['>'], i + 1);
    crate::text::lemma_first_match(t.skip(i), seq!['>'], 1);
    let s = t.skip(i);
    assert(crate::text::occurs_at(t, seq!['>'], i + g));
    assert(t.subrange(i + g, i + g + 1)[0] == t[i + g]);
    assert(t[i + g] == '>');
    assert(s[g] == '>');
    assert(s.subrange(g, g + 1) =~= seq!['>']);
    assert(crate::text::occurs_at(s, seq!['>'], g));
    match first_match(s, seq!['>'], 1) {
        Some(g2) => {
            assert(s.subrange(g2, g2 + 1)[0] == s[g2]);
            assert(s[g2] == '>');
            assert(t[i + g2] == '>');
            assert(t.subrange(i + g2, i + g2 + 1) =~= seq!['>']);
            assert(crate::text::occurs_at(t, seq!['>'], i + g2));
            if g2 < g {
                assert(false);
            } else if g2 > g {
                assert(!crate::text::occurs_at(s, seq!['>'], g));
                assert(false);
            }
        },
        None => {
            assert(!crate::text::occurs_at(s, seq!['>'], g));
            assert(false);
        },
    }
}

/// No match in the whole text from `i + 1` on means none in the
/// tail.
proof fn lemma_first_match_shift_none(t: Seq<char>, i: int)
    requires
        0 <= i < t.len(),
        first_match(t, seq!['>'], i + 1) is None,
    ensures
        first_match(t.skip(i), seq!['>'], 1) is None,
{
    crate::text::lemma_first_match(t, seq!['>'], i + 1);
    crate::text::lemma_first_match(t.skip(i), seq!['>'], 1);
    let s = t.skip(i);
    match first_match(s, seq!['>'], 1) {
        Some(g2) => {
            assert(s.subrange(g2, g2 + 1)[0] == s[g2]);
            assert(s[g2] == '>');
            assert(t[i + g2] == '>');
            assert(t.subrange(i + g2, i + g2 + 1) =~= seq!['>']);
            assert(crate::text::occurs_at(t, seq!['>'], i + g2));
            assert(false);
        },
        None => {},
    }
}

} // verus!
