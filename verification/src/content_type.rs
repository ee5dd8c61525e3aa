//! The MIME type a static file is served with, decided by the
//! extension of its path.
use vstd::prelude::*;

use crate::text::{chars_eq, to_chars};

verus! {

/// The position of the last occurrence of `c` before `j`, or minus
/// one when there is none.
pub open spec fn last_pos(s: Seq<char>, c: char, j: int) -> int
    decreases j
    when j <= s.len()
{
    if j <= 0 {
        -1
    } else if s[j - 1] == c {
        j - 1
    } else {
        last_pos(s, c, j - 1)
    }
}

/// The last occurrence is in range, carries `c`, and nothing after
/// it does.
pub proof fn lemma_last_pos(s: Seq<char>, c: char, j: int)
    requires
        0 <= j <= s.len(),
    ensures
        -1 <= last_pos(s, c, j) < j,
        last_pos(s, c, j) >= 0 ==> s[last_pos(s, c, j)] == c,
        forall|m: int| last_pos(s, c, j) < m < j ==> s[m] != c,
    decreases j,
{
    if j > 0 && s[j - 1] != c {
        lemma_last_pos(s, c, j - 1);
    }
}

/// The extension of a path: what follows the last dot of the final
/// path component, unless that dot starts the component.
pub open spec fn extension_of(p: Seq<char>) -> Option<Seq<char>> {
    let comp = p.skip(last_pos(p, '/', p.len() as int) + 1);
    let d = last_pos(comp, '.', comp.len() as int);
    if d <= 0 {
        None
    } else {
        Some(comp.skip(d + 1))
    }
}

/// The MIME type for an extension; unknown ones are served as plain
/// bytes.
pub open spec fn mime_of(ext: Option<Seq<char>>) -> Seq<char> {
    match ext {
        Some(e) => if e == "html"@ {
            "text/html; charset=utf-8"@
        } else if e == "css"@ {
            "text/css"@
        } else if e == "js"@ {
            "application/javascript"@
        } else if e == "json"@ {
            "application/json"@
        } else if e == "xml"@ {
            "application/xml"@
        } else if e == "txt"@ {
            "text/plain"@
        } else if e == "png"@ {
            "image/png"@
        } else if e == "jpg"@ || e == "jpeg"@ {
            "image/jpeg"@
        } else if e == "gif"@ {
            "image/gif"@
        } else if e == "svg"@ {
            "image/svg+xml"@
        } else if e == "ico"@ {
            "image/x-icon"@
        } else {
            "application/octet-stream"@
        },
        None => "application/octet-stream"@,
    }
}

/// The extension of `path`, when it has one.
fn extension(path: &str) -> (r: Option<Vec<char>>)
    ensures
        match r {
            Some(e) => extension_of(path@) == Some(e@),
            None => extension_of(path@) is None,
        },
{
    let pv = to_chars(path);
    let n: usize = pv.len();
    proof {
        lemma_last_pos(pv@, '/', n as int);
    }
    let mut j: usize = n;
    while j > 0 && pv[j - 1] != '/'
        invariant
            n == pv@.len(),
            j <= n,
            last_pos(pv@, '/', n as int) == last_pos(pv@, '/', j as int),
        decreases j,
    {
        j = j - 1;
    }
    proof {
        assert(last_pos(pv@, '/', j as int) == j - 1);
        assert(last_pos(pv@, '/', n as int) == j - 1);
    }
    let comp_start: usize = j;
    let ghost comp = pv@.skip(comp_start as int);
    proof {
        lemma_last_pos(comp, '.', comp.len() as int);
    }
    let mut k: usize = n;
    while k > comp_start && pv[k - 1] != '.'
        invariant
            n == pv@.len(),
            comp_start <= k <= n,
            comp == pv@.skip(comp_start as int),
            last_pos(comp, '.', (n - comp_start) as int) == last_pos(
                comp,
                '.',
                (k - comp_start) as int,
            ),
        decreases k,
    {
        proof {
            assert(comp[k - 1 - comp_start] == pv@[k - 1]);
        }
        k = k - 1;
    }
    proof {
        if k > comp_start {
            assert(comp[k - 1 - comp_start] == pv@[k - 1]);
            assert(last_pos(comp, '.', (k - comp_start) as int) == k - 1 - comp_start);
        } else {
            assert(last_pos(comp, '.', 0) == -1);
        }
    }
    if k == comp_start || k == comp_start + 1 {
        proof {
            assert(last_pos(comp, '.', comp.len() as int) <= 0);
        }
        return None;
    }
    let mut ext: Vec<char> = Vec::new();
    let mut i: usize = k;
    while i < n
        invariant
            n == pv@.len(),
            k <= i <= n,
            ext@ == pv@.subrange(k as int, i as int),
        decreases n - i,
    {
        ext.push(pv[i]);
        i = i + 1;
        proof {
            assert(ext@ =~= pv@.subrange(k as int, i as int));
        }
    }
    proof {
        let d = last_pos(comp, '.', comp.len() as int);
        assert(d == k - 1 - comp_start);
        assert(ext@ =~= comp.skip(d + 1));
    }
    Some(ext)
}

/// The MIME type a file at `path` is served with.
pub fn get_content_type(path: &str) -> (r: &'static str)
    ensures
        r@ == mime_of(extension_of(path@)),
{
    match extension(path) {
        Some(ext) => {
            let pairs: [(&'static str, &'static str); 12] = [
                ("html", "text/html; charset=utf-8"),
                ("css", "text/css"),
                ("js", "application/javascript"),
                ("json", "application/json"),
                ("xml", "application/xml"),
                ("txt", "text/plain"),
                ("png", "image/png"),
                ("jpg", "image/jpeg"),
                ("jpeg", "image/jpeg"),
                ("gif", "image/gif"),
                ("svg", "image/svg+xml"),
                ("ico", "image/x-icon"),
            ];
            let mut i: usize = 0;
            while i < 12
                invariant
                    i <= 12,
                    extension_of(path@) == Some(ext@),
                    pairs@.len() == 12,
                    pairs@[0] == ("html", "text/html; charset=utf-8"),
                    pairs@[1] == ("css", "text/css"),
                    pairs@[2] == ("js", "application/javascript"),
                    pairs@[3] == ("json", "application/json"),
                    pairs@[4] == ("xml", "application/xml"),
                    pairs@[5] == ("txt", "text/plain"),
                    pairs@[6] == ("png", "image/png"),
                    pairs@[7] == ("jpg", "image/jpeg"),
                    pairs@[8] == ("jpeg", "image/jpeg"),
                    pairs@[9] == ("gif", "image/gif"),
                    pairs@[10] == ("svg", "image/svg+xml"),
                    pairs@[11] == ("ico", "image/x-icon"),
                    forall|t: int| 0 <= t < i ==> ext@ != (#[trigger] pairs@[t]).0@,
                decreases 12 - i,
            {
                let key = to_chars(pairs[i].0);
                if chars_eq(&ext, &key) {
                    proof {
                        assert(ext@ == pairs@[i as int].0@);
                        assert(pairs@[i as int].1@ == mime_of(Some(ext@)));
                    }
                    return pairs[i].1;
                }
                i = i + 1;
            }
            proof {
                assert(mime_of(Some(ext@)) == "application/octet-stream"@);
            }
            "application/octet-stream"
        },
        None => "application/octet-stream",
    }
}

} // verus!
