//! Plain description utilities: word-limited truncation and first
//! paragraph extraction.
use vstd::prelude::*;

use crate::matching::{split_words, words_of};
use crate::text::{
    chars_eq, chars_to_string, find_from, first_match, to_chars, trim_chars, trim_spec,
};

verus! {

/// The words joined by single spaces.
pub open spec fn join_words(ws: Seq<Seq<char>>) -> Seq<char>
    decreases ws.len(),
{
    if ws.len() == 0 {
        Seq::empty()
    } else if ws.len() == 1 {
        ws[0]
    } else {
        join_words(ws.drop_last()) + seq![' '] + ws.last()
    }
}

/// The first `k` words of `ws` (all of them when there are fewer),
/// joined by single spaces.
pub open spec fn join_first_words(ws: Seq<Seq<char>>, k: int) -> Seq<char> {
    if k <= ws.len() {
        join_words(ws.take(k))
    } else {
        join_words(ws)
    }
}

/// The first `k` words of `words`, joined by single spaces.
pub fn join_take(words: &Vec<Vec<char>>, k: usize) -> (r: Vec<char>)
    ensures
        r@ == join_first_words(words.deep_view(), k as int),
{
    let ghost wsv = words.deep_view();
    let n: usize = words.len();
    let bound: usize = if k <= n {
        k
    } else {
        n
    };
    proof {
        if k > n {
            assert(wsv.take(n as int) =~= wsv);
        }
        assert(join_first_words(wsv, k as int) == join_words(wsv.take(bound as int)));
    }
    let mut out: Vec<char> = Vec::new();
    let mut i: usize = 0;
    proof {
        assert(wsv.take(0) =~= Seq::<Seq<char>>::empty());
        assert(out@ =~= join_words(wsv.take(0)));
    }
    while i < bound
        invariant
            wsv == words.deep_view(),
            n == wsv.len(),
            bound <= n,
            i <= bound,
            out@ == join_words(wsv.take(i as int)),
        decreases bound - i,
    {
        proof {
            assert(wsv.take(i + 1).drop_last() =~= wsv.take(i as int));
            assert(wsv.take(i + 1).last() == wsv[i as int]);
        }
        let ghost before = out@;
        if i > 0 {
            out.push(' ');
        }
        let w: &Vec<char> = &words[i];
        proof {
            crate::text::lemma_deep_chars(w);
            assert(w@ == wsv[i as int]);
        }
        let m: usize = w.len();
        let mut j: usize = 0;
        let ghost mid = out@;
        while j < m
            invariant
                m == w@.len(),
                j <= m,
                out@ == mid + w@.take(j as int),
            decreases m - j,
        {
            out.push(w[j]);
            j = j + 1;
            proof {
                assert(out@ =~= mid + w@.take(j as int));
            }
        }
        proof {
            assert(w@.take(m as int) =~= w@);
            if i == 0 {
                assert(out@ =~= before + w@);
                assert(join_words(wsv.take(1)) == wsv[0]);
                assert(out@ =~= join_words(wsv.take(1)));
            } else {
                assert(out@ =~= before + seq![' '] + w@);
                assert(out@ =~= join_words(wsv.take(i + 1)));
            }
        }
        i = i + 1;
    }
    out
}

/// What truncation returns: the description itself when it fits the
/// word limit, otherwise its first `max_words` words joined by
/// single spaces with a three-dot ellipsis.
pub open spec fn short_description_spec(d: Seq<char>, max_words: usize) -> Seq<char> {
    if words_of(d).len() <= max_words {
        d
    } else {
        join_words(words_of(d).take(max_words as int)) + seq!['.', '.', '.']
    }
}

/// Truncate a description to at most `max_words` words, appending an
/// ellipsis when something was cut.
pub fn get_short_description(description: String, max_words: usize) -> (r: String)
    ensures
        r@ == short_description_spec(description@, max_words),
{
    let dv = to_chars(description.as_str());
    let words = split_words(&dv);
    if words.len() <= max_words {
        return description;
    }
    let mut out = join_take(&words, max_words);
    out.push('.');
    out.push('.');
    out.push('.');
    proof {
        assert(words.deep_view().take(max_words as int) == words_of(dv@).take(max_words as int));
        assert(out@ =~= join_words(words_of(description@).take(max_words as int)) + seq![
            '.',
            '.',
            '.',
        ]);
    }
    chars_to_string(&out)
}

/// What paragraph extraction returns: the first sentence when it is
/// long enough, else the text before the first blank line, else the
/// first thirty words; nothing when the text has no words.
pub open spec fn first_paragraph_spec(t: Seq<char>) -> Option<Seq<char>> {
    let by_sentence = first_match(t, seq!['.', ' '], 0);
    if by_sentence matches Some(p) && t.take(p + 1).len() > 20 {
        Some(trim_spec(t.take(by_sentence.unwrap() + 1)))
    } else {
        let para = match first_match(t, seq!['\n', '\n'], 0) {
            Some(p) => t.take(p),
            None => t,
        };
        let trimmed = trim_spec(para);
        if trimmed.len() > 0 && trimmed != t {
            Some(trimmed)
        } else if words_of(t).len() > 0 {
            Some(join_first_words(words_of(t), 30))
        } else {
            None
        }
    }
}

/// Extract a first paragraph from text: the first sentence when it
/// is reasonably long, else the part before the first paragraph
/// break, else the first thirty words.
pub fn extract_first_paragraph(text: &str) -> (r: Option<String>)
    ensures
        match r {
            Some(s) => first_paragraph_spec(text@) == Some(s@),
            None => first_paragraph_spec(text@) is None,
        },
{
    let tv = to_chars(text);
    let sentence_pat = vec!['.', ' '];
    proof {
        assert(sentence_pat@ =~= seq!['.', ' ']);
    }
    let n: usize = tv.len();
    match find_from(&tv, &sentence_pat, 0) {
        Some(p) => {
            if p >= 20 {
                let end: usize = p + 1;
                let mut prefix: Vec<char> = Vec::new();
                let mut i: usize = 0;
                while i < end
                    invariant
                        end <= tv@.len(),
                        i <= end,
                        prefix@ == tv@.take(i as int),
                    decreases end - i,
                {
                    prefix.push(tv[i]);
                    i = i + 1;
                    proof {
                        assert(prefix@ =~= tv@.take(i as int));
                    }
                }
                let trimmed = trim_chars(&prefix);
                return Some(chars_to_string(&trimmed));
            }
        },
        None => {},
    }
    let break_pat = vec!['\n', '\n'];
    proof {
        assert(break_pat@ =~= seq!['\n', '\n']);
    }
    let cut: usize = match find_from(&tv, &break_pat, 0) {
        Some(p) => p,
        None => tv.len(),
    };
    let mut para: Vec<char> = Vec::new();
    let mut i: usize = 0;
    while i < cut
        invariant
            cut <= tv@.len(),
            i <= cut,
            para@ == tv@.take(i as int),
        decreases cut - i,
    {
        para.push(tv[i]);
        i = i + 1;
        proof {
            assert(para@ =~= tv@.take(i as int));
        }
    }
    proof {
        if cut == tv@.len() {
            assert(para@ =~= tv@);
        }
    }
    let trimmed = trim_chars(&para);
    if trimmed.len() > 0 && !chars_eq(&trimmed, &tv) {
        return Some(chars_to_string(&trimmed));
    }
    let words = split_words(&tv);
    if words.len() > 0 {
        let joined = join_take(&words, 30);
        Some(chars_to_string(&joined))
    } else {
        None
    }
}

} // verus!
