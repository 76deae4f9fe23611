//! Path-shaped string helpers for the output layer: separator
//! normalization, the `../` prefix that climbs from a page back to the
//! site root, and the 404 page's output name.

use vstd::prelude::*;

use crate::render::{last_slash_from, spec_parent_dir};
use crate::text::{spec_find_from, spec_replace_all, str_chars};
use vstd::string::StrSliceExecFns;

verus! {

/// A path separator: the forward slash, or the backslash of foreign paths.
pub open spec fn is_sep(c: char) -> bool {
    c == '/' || c == '\\'
}

/// `path` with every separator replaced by `/`.
pub open spec fn spec_normalize_path(p: Seq<char>) -> Seq<char> {
    p.map_values(|c: char| if is_sep(c) { '/' } else { c })
}

/// Replace every path separator with a forward slash.
pub fn normalize_path(path: &str) -> (r: String)
    ensures
        r@ == spec_normalize_path(path@),
{
    let pv = str_chars(path);
    let mut out: Vec<char> = Vec::new();
    let mut k: usize = 0;
    while k < pv.len()
        invariant
            k <= pv@.len(),
            out@.len() == k,
            forall|t: int| 0 <= t < k ==> out@[t] == (if is_sep(pv@[t]) { '/' } else { pv@[t] }),
        decreases pv@.len() - k,
    {
        let c = pv[k];
        if c == '/' || c == '\\' {
            out.push('/');
        } else {
            out.push(c);
        }
        k = k + 1;
    }
    proof {
        assert(out@ =~= spec_normalize_path(path@));
    }
    crate::text::chars_to_string(&out)
}

/// Is this path segment a normal directory name (not empty, `.` or `..`)?
pub open spec fn normal_segment(seg: Seq<char>) -> bool {
    seg.len() > 0 && seg != seq!['.'] && seg != seq!['.', '.']
}

/// How many normal segments a `/`-separated path holds.
pub open spec fn count_normal(p: Seq<char>) -> int
    decreases p.len(),
{
    if p.len() == 0 {
        0
    } else {
        let j = spec_find_from(p, 0, seq!['/']);
        if 0 <= j < p.len() {
            (if normal_segment(p.take(j)) {
                1int
            } else {
                0int
            }) + count_normal(p.skip(j + 1))
        } else {
            if normal_segment(p) {
                1
            } else {
                0
            }
        }
    }
}

/// `../` repeated `n` times.
pub open spec fn spec_updirs(n: int) -> Seq<char>
    decreases n,
{
    if n <= 0 {
        Seq::empty()
    } else {
        seq!['.', '.', '/'] + spec_updirs(n - 1)
    }
}

/// What `path_to_root` returns: one `../` per normal directory segment of
/// the page's directory.
pub open spec fn spec_path_to_root(p: Seq<char>) -> Seq<char> {
    spec_updirs(count_normal(spec_parent_dir(p)))
}

fn count_normal_exec(p: Vec<char>) -> (r: usize)
    ensures
        r as int == count_normal(p@),
        r <= p@.len() + 1,
    decreases p@.len(),
{
    if p.len() == 0 {
        return 0;
    }
    let pat = slash_pat();
    let j = crate::text::find_from(&p, 0, &pat);
    if j < p.len() {
        let mut seg: Vec<char> = Vec::new();
        let mut k: usize = 0;
        while k < j
            invariant
                k <= j <= p@.len(),
                seg@ == p@.take(j as int).take(k as int),
            decreases j - k,
        {
            proof {
                assert(p@.take(j as int)[k as int] == p@[k as int]);
            }
            seg.push(p[k]);
            k = k + 1;
        }
        proof {
            assert(p@.take(j as int).take(j as int) =~= p@.take(j as int));
        }
        let mut rest: Vec<char> = Vec::new();
        let mut k2: usize = j + 1;
        while k2 < p.len()
            invariant
                j + 1 <= k2 <= p@.len(),
                rest@ == p@.subrange(j + 1, k2 as int),
            decreases p@.len() - k2,
        {
            rest.push(p[k2]);
            k2 = k2 + 1;
        }
        proof {
            assert(rest@ =~= p@.skip(j + 1));
        }
        let n = count_normal_exec(rest);
        if is_normal_segment(&seg) {
            n + 1
        } else {
            n
        }
    } else {
        if is_normal_segment(&p) {
            1
        } else {
            0
        }
    }
}

fn is_normal_segment(seg: &Vec<char>) -> (r: bool)
    ensures
        r == normal_segment(seg@),
{
    if seg.len() == 0 {
        return false;
    }
    if seg.len() == 1 && seg[0] == '.' {
        proof {
            assert(seg@ =~= seq!['.']);
        }
        return false;
    }
    if seg.len() == 2 && seg[0] == '.' && seg[1] == '.' {
        proof {
            assert(seg@ =~= seq!['.', '.']);
        }
        return false;
    }
    proof {
        if seg@ == seq!['.'] {
            assert(seg@.len() == 1 && seg@[0] == '.');
        }
        if seg@ == seq!['.', '.'] {
            assert(seg@.len() == 2 && seg@[0] == '.' && seg@[1] == '.');
        }
    }
    true
}

/// The slash character, as a pattern.
fn slash_pat() -> (r: Vec<char>)
    ensures
        r@ == seq!['/'],
{
    let mut p: Vec<char> = Vec::new();
    p.push('/');
    proof {
        assert(p@ =~= seq!['/']);
    }
    p
}

/// The `../` chain that leads from the page at `path` back to the root:
/// one step per directory of the page's location.
pub fn path_to_root(path: &str) -> (r: String)
    requires
        path@.len() > 0,
    ensures
        r@ == spec_path_to_root(path@),
{
    let pv = str_chars(path);
    let parent = crate::render::parent_dir_exec(&pv);
    let n = count_normal_exec(parent);
    let mut out = String::new();
    let mut k: usize = 0;
    while k < n
        invariant
            k <= n,
            out@ == spec_updirs(k as int),
        decreases n - k,
    {
        out.push('.');
        out.push('.');
        out.push('/');
        proof {
            assert(spec_updirs(k as int) + seq!['.', '.', '/'] =~= spec_updirs(k + 1)) by {
                lemma_updirs_snoc(k as int);
            }
        }
        k = k + 1;
    }
    out
}

/// Appending one step extends the `../` chain at either end alike.
proof fn lemma_updirs_snoc(n: int)
    ensures
        n >= 0 ==> spec_updirs(n) + seq!['.', '.', '/'] == spec_updirs(n + 1),
    decreases n,
{
    if n > 0 {
        lemma_updirs_snoc(n - 1);
        assert(spec_updirs(n) + seq!['.', '.', '/'] =~= seq!['.', '.', '/'] + (spec_updirs(n - 1)
            + seq!['.', '.', '/']));
        assert(seq!['.', '.', '/'] + spec_updirs(n) =~= spec_updirs(n + 1));
    } else if n == 0 {
        assert(spec_updirs(0) + seq!['.', '.', '/'] =~= spec_updirs(1));
    }
}

/// The output name of the 404 page: the configured input (or `404.md`) with
/// every `.md` replaced by `.ftd`.
pub fn get_404_output_file(input_404: &Option<String>) -> (r: String)
    ensures
        r@ == match input_404 {
            Option::Some(s) => spec_replace_all(s@, ".md"@, ".ftd"@),
            Option::None => spec_replace_all("404.md"@, ".md"@, ".ftd"@),
        },
{
    match input_404 {
        Some(s) => crate::text::replace_in_str(s.as_str(), ".md", ".ftd"),
        None => crate::text::replace_in_str("404.md", ".md", ".ftd"),
    }
}

} // verus!
