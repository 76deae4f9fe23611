//! Line-oriented text utilities: selecting line ranges and anchored
//! regions from chapter sources, heading identifiers, and whitespace
//! handling.

use vstd::prelude::*;

use crate::book::strs_view;
use crate::render::is_ws;
use crate::section_number::spec_digits;
use crate::text::{matches_at, matches_at_exec, spec_find_from, spec_replace_all, str_chars};
use vstd::string::{StrSliceExecFns, StringExecFns};

verus! {

// ---------------------------------------------------------------------------
// Splitting into lines and joining again
// ---------------------------------------------------------------------------

/// A line with one trailing carriage return removed, as `str::lines` does.
pub open spec fn strip_cr(l: Seq<char>) -> Seq<char> {
    if l.len() > 0 && l.last() == '\r' {
        l.drop_last()
    } else {
        l
    }
}

/// The lines of `s`, split at `\n`, each stripped of one trailing `\r`,
/// with no empty line after a trailing newline: `str::lines`.
pub open spec fn spec_lines(s: Seq<char>) -> Seq<Seq<char>>
    decreases s.len(),
{
    if s.len() == 0 {
        Seq::empty()
    } else {
        let j = spec_find_from(s, 0, seq!['\n']);
        if 0 <= j < s.len() {
            seq![strip_cr(s.take(j))] + spec_lines(s.skip(j + 1))
        } else {
            seq![strip_cr(s)]
        }
    }
}

/// The lines joined with `\n` between them and nothing after the last.
pub open spec fn spec_join(ls: Seq<Seq<char>>) -> Seq<char>
    decreases ls.len(),
{
    if ls.len() == 0 {
        Seq::empty()
    } else if ls.len() == 1 {
        ls[0]
    } else {
        ls[0] + seq!['\n'] + spec_join(ls.drop_first())
    }
}

/// The newline character, as a pattern.
fn nl_pat() -> (r: Vec<char>)
    ensures
        r@ == seq!['\n'],
{
    let mut p: Vec<char> = Vec::new();
    p.push('\n');
    proof {
        assert(p@ =~= seq!['\n']);
    }
    p
}

fn strip_cr_exec(l: Vec<char>) -> (r: Vec<char>)
    ensures
        r@ == strip_cr(l@),
{
    let mut l2 = l;
    if l2.len() > 0 && l2[l2.len() - 1] == '\r' {
        l2.pop();
    }
    l2
}

/// Split `s` into its lines.
pub fn split_lines(s: &str) -> (r: Vec<String>)
    ensures
        strs_view(r@) == spec_lines(s@),
{
    let sv = str_chars(s);
    let ls = split_lines_chars(sv);
    let mut out: Vec<String> = Vec::new();
    let mut k: usize = 0;
    while k < ls.len()
        invariant
            k <= ls@.len(),
            out@.len() == k,
            forall|t: int| 0 <= t < k ==> (#[trigger] out@[t])@ == ls@[t]@,
        decreases ls@.len() - k,
    {
        out.push(crate::text::chars_to_string(&ls[k]));
        k = k + 1;
    }
    proof {
        assert(strs_view(out@) =~= chars_views(ls@));
    }
    out
}

/// The views of a vector of character vectors.
pub open spec fn chars_views(s: Seq<Vec<char>>) -> Seq<Seq<char>> {
    s.map_values(|v: Vec<char>| v@)
}

fn split_lines_chars(s: Vec<char>) -> (r: Vec<Vec<char>>)
    ensures
        chars_views(r@) == spec_lines(s@),
    decreases s@.len(),
{
    let pat = nl_pat();
    if s.len() == 0 {
        proof {
            assert(chars_views(Seq::<Vec<char>>::empty()) =~= Seq::<Seq<char>>::empty());
        }
        return Vec::new();
    }
    let j = crate::text::find_from(&s, 0, &pat);
    if j < s.len() {
        let mut first: Vec<char> = Vec::new();
        let mut k: usize = 0;
        while k < j
            invariant
                k <= j <= s@.len(),
                first@ == s@.take(j as int).take(k as int),
            decreases j - k,
        {
            proof {
                assert(s@.take(j as int)[k as int] == s@[k as int]);
            }
            first.push(s[k]);
            k = k + 1;
        }
        proof {
            assert(s@.take(j as int).take(j as int) =~= s@.take(j as int));
        }
        let first2 = strip_cr_exec(first);
        let mut rest: Vec<char> = Vec::new();
        let mut k2: usize = j + 1;
        while k2 < s.len()
            invariant
                j + 1 <= k2 <= s@.len(),
                rest@ == s@.subrange(j + 1, k2 as int),
            decreases s@.len() - k2,
        {
            rest.push(s[k2]);
            k2 = k2 + 1;
        }
        proof {
            assert(rest@ =~= s@.skip(j + 1));
        }
        let tail = split_lines_chars(rest);
        let mut out: Vec<Vec<char>> = Vec::new();
        out.push(first2);
        let mut tail2 = tail;
        out.append(&mut tail2);
        proof {
            assert(chars_views(out@) =~= spec_lines(s@));
        }
        out
    } else {
        let s2 = strip_cr_exec(s);
        let mut out: Vec<Vec<char>> = Vec::new();
        out.push(s2);
        proof {
            assert(chars_views(out@) =~= spec_lines(s@));
        }
        out
    }
}

/// Join lines with `\n`.
fn join_lines(ls: &Vec<String>, lo: usize, hi: usize) -> (r: String)
    requires
        lo <= hi <= ls@.len(),
    ensures
        r@ == spec_join(strs_view(ls@).subrange(lo as int, hi as int)),
    decreases hi - lo,
{
    if lo >= hi {
        proof {
            assert(strs_view(ls@).subrange(lo as int, hi as int) =~= Seq::<Seq<char>>::empty());
        }
        String::new()
    } else if lo + 1 == hi {
        proof {
            assert(strs_view(ls@).subrange(lo as int, hi as int) =~= seq![ls@[lo as int]@]);
        }
        ls[lo].clone()
    } else {
        let mut out = ls[lo].clone();
        out.append("\n");
        let rest = join_lines(ls, lo + 1, hi);
        out.append(rest.as_str());
        proof {
            reveal_strlit("\n");
            assert("\n"@ =~= seq!['\n']);
            let sub = strs_view(ls@).subrange(lo as int, hi as int);
            assert(sub[0] == ls@[lo as int]@);
            assert(sub.drop_first() =~= strs_view(ls@).subrange(lo + 1, hi as int));
            assert(out@ =~= spec_join(sub));
        }
        out
    }
}

// ---------------------------------------------------------------------------
// take_lines
// ---------------------------------------------------------------------------

/// The bounds that a line range `[start, end)` (or `[start, ..)` for `None`)
/// selects from `n` lines, clamped as iterator `skip` and `take` clamp them.
pub open spec fn spec_line_bounds(n: int, start: int, end: Option<usize>) -> (int, int) {
    let lo = if start < n {
        start
    } else {
        n
    };
    let hi = match end {
        Option::Some(e) => {
            let cnt = if e as int > start {
                e as int - start
            } else {
                0
            };
            if lo + cnt < n {
                lo + cnt
            } else {
                n
            }
        },
        Option::None => n,
    };
    (lo, hi)
}

/// The lines of `s` from `start` up to `end` (exclusive; to the end when
/// `None`), joined with `\n`.
pub open spec fn spec_take_lines(s: Seq<char>, start: int, end: Option<usize>) -> Seq<char> {
    let ls = spec_lines(s);
    let (lo, hi) = spec_line_bounds(ls.len() as int, start, end);
    spec_join(ls.subrange(lo, hi))
}

/// Take the lines of `s` with index in `[start, end)`, all remaining lines
/// when `end` is `None`, joined with `\n` and without a trailing newline.
pub fn take_lines(s: &str, start: usize, end: Option<usize>) -> (r: String)
    ensures
        r@ == spec_take_lines(s@, start as int, end),
{
    let ls = split_lines(s);
    let n = ls.len();
    let lo = if start < n {
        start
    } else {
        n
    };
    let hi: usize = match end {
        Some(e) => {
            let cnt = if e > start {
                e - start
            } else {
                0
            };
            if cnt < n - lo {
                lo + cnt
            } else {
                n
            }
        },
        None => n,
    };
    join_lines(&ls, lo, hi)
}

// ---------------------------------------------------------------------------
// Anchored regions
// ---------------------------------------------------------------------------

/// A word character of an anchor name: a letter or digit (any script),
/// underscore or hyphen.
pub open spec fn word_char(c: char) -> bool {
    alphanumeric(c) || c == '_' || c == '-'
}

/// The end of the whitespace run starting at `k`.
pub open spec fn ws_end(l: Seq<char>, k: int) -> int
    decreases l.len() - k,
{
    if 0 <= k < l.len() && is_ws(l[k]) {
        ws_end(l, k + 1)
    } else {
        k
    }
}

/// The end of the word-character run starting at `k`.
pub open spec fn word_end(l: Seq<char>, k: int) -> int
    decreases l.len() - k,
{
    if 0 <= k < l.len() && word_char(l[k]) {
        word_end(l, k + 1)
    } else {
        k
    }
}

/// The name captured after the first occurrence of `pat` (an anchor marker)
/// at or after `j` that is followed, after optional whitespace, by at least
/// one word character; the name is that word-character run.
pub open spec fn capture_after(l: Seq<char>, pat: Seq<char>, j: int) -> Option<Seq<char>>
    decreases l.len() - j,
{
    if j < 0 || j >= l.len() || j + pat.len() > l.len() {
        Option::None
    } else if matches_at(l, j, pat) {
        let k = ws_end(l, j + pat.len());
        let m = word_end(l, k);
        if 0 <= k <= m <= l.len() && m > k {
            Option::Some(l.subrange(k, m))
        } else {
            capture_after(l, pat, j + 1)
        }
    } else {
        capture_after(l, pat, j + 1)
    }
}

/// The name a line's `ANCHOR:` marker captures, if any.
pub open spec fn spec_anchor_start(l: Seq<char>) -> Option<Seq<char>> {
    capture_after(l, "ANCHOR:"@, 0)
}

/// The name a line's `ANCHOR_END:` marker captures, if any.
pub open spec fn spec_anchor_end(l: Seq<char>) -> Option<Seq<char>> {
    capture_after(l, "ANCHOR_END:"@, 0)
}

fn ws_end_exec(l: &Vec<char>, k: usize) -> (r: usize)
    requires
        k <= l@.len(),
    ensures
        r as int == ws_end(l@, k as int),
        k <= r <= l@.len(),
    decreases l@.len() - k,
{
    if k < l.len() && crate::render::is_ws_exec(l[k]) {
        ws_end_exec(l, k + 1)
    } else {
        k
    }
}

fn word_end_exec(l: &Vec<char>, k: usize) -> (r: usize)
    requires
        k <= l@.len(),
    ensures
        r as int == word_end(l@, k as int),
        k <= r <= l@.len(),
    decreases l@.len() - k,
{
    if k < l.len() {
        let c = l[k];
        if c.is_alphanumeric() || c == '_' || c == '-' {
            word_end_exec(l, k + 1)
        } else {
            k
        }
    } else {
        k
    }
}

fn capture_after_exec(l: &Vec<char>, pat: &Vec<char>, j: usize) -> (r: Option<Vec<char>>)
    requires
        j <= l@.len(),
    ensures
        ({
            let s = capture_after(l@, pat@, j as int);
            match (r, s) {
                (Option::Some(v), Option::Some(sv)) => v@ == sv,
                (Option::None, Option::None) => true,
                _ => false,
            }
        }),
    decreases l@.len() - j,
{
    if j >= l.len() || pat.len() > l.len() - j {
        return None;
    }
    if matches_at_exec(l, j, pat) {
        let k = ws_end_exec(l, j + pat.len());
        let m = word_end_exec(l, k);
        if m > k {
            let mut out: Vec<char> = Vec::new();
            let mut t: usize = k;
            while t < m
                invariant
                    k <= t <= m <= l@.len(),
                    out@ == l@.subrange(k as int, t as int),
                decreases m - t,
            {
                out.push(l[t]);
                proof {
                    assert(l@.subrange(k as int, t as int).push(l@[t as int]) =~= l@.subrange(
                        k as int,
                        t + 1,
                    ));
                }
                t = t + 1;
            }
            Some(out)
        } else {
            capture_after_exec(l, pat, j + 1)
        }
    } else {
        capture_after_exec(l, pat, j + 1)
    }
}

/// Do two character vectors hold the same characters?
fn chars_eq(a: &Vec<char>, b: &Vec<char>) -> (r: bool)
    ensures
        r == (a@ == b@),
{
    if a.len() != b.len() {
        proof {
            assert(a@.len() != b@.len());
        }
        return false;
    }
    let mut k: usize = 0;
    while k < a.len()
        invariant
            k <= a@.len() == b@.len(),
            forall|t: int| 0 <= t < k ==> a@[t] == b@[t],
        decreases a@.len() - k,
    {
        if a[k] != b[k] {
            return false;
        }
        k = k + 1;
    }
    proof {
        assert(a@ =~= b@);
    }
    true
}

/// The lines retained between `ANCHOR: name` and `ANCHOR_END: name`:
/// scanning the lines from `i`, once the named start anchor was seen, every
/// line is kept except anchor-marker lines, until the named end anchor
/// stops the scan.
pub open spec fn spec_anchored(
    ls: Seq<Seq<char>>,
    i: int,
    anchor: Seq<char>,
    found: bool,
    acc: Seq<Seq<char>>,
) -> Seq<Seq<char>>
    decreases ls.len() - i,
{
    if !(0 <= i < ls.len()) {
        acc
    } else if found {
        match spec_anchor_end(ls[i]) {
            Option::Some(nm) => {
                if nm == anchor {
                    acc
                } else {
                    spec_anchored(ls, i + 1, anchor, found, acc)
                }
            },
            Option::None => {
                if spec_anchor_start(ls[i]) is Some {
                    spec_anchored(ls, i + 1, anchor, found, acc)
                } else {
                    spec_anchored(ls, i + 1, anchor, found, acc.push(ls[i]))
                }
            },
        }
    } else {
        match spec_anchor_start(ls[i]) {
            Option::Some(nm) => spec_anchored(ls, i + 1, anchor, nm == anchor, acc),
            Option::None => spec_anchored(ls, i + 1, anchor, false, acc),
        }
    }
}

/// What `take_anchored_lines` returns: the retained lines joined with `\n`.
pub open spec fn spec_take_anchored(s: Seq<char>, anchor: Seq<char>) -> Seq<char> {
    spec_join(spec_anchored(spec_lines(s), 0, anchor, false, Seq::empty()))
}

fn exec_anchored(
    ls: &Vec<Vec<char>>,
    i: usize,
    anchor: &Vec<char>,
    found: bool,
    acc: Vec<Vec<char>>,
    start_pat: &Vec<char>,
    end_pat: &Vec<char>,
) -> (r: Vec<Vec<char>>)
    requires
        i <= ls@.len(),
        start_pat@ == "ANCHOR:"@,
        end_pat@ == "ANCHOR_END:"@,
    ensures
        chars_views(r@) == spec_anchored(
            chars_views(ls@),
            i as int,
            anchor@,
            found,
            chars_views(acc@),
        ),
    decreases ls@.len() - i,
{
    if i >= ls.len() {
        return acc;
    }
    proof {
        assert(chars_views(ls@)[i as int] == ls@[i as int]@);
    }
    if found {
        match capture_after_exec(&ls[i], end_pat, 0) {
            Some(nm) => {
                if chars_eq(&nm, anchor) {
                    acc
                } else {
                    exec_anchored(ls, i + 1, anchor, found, acc, start_pat, end_pat)
                }
            },
            None => {
                match capture_after_exec(&ls[i], start_pat, 0) {
                    Some(_) => exec_anchored(ls, i + 1, anchor, found, acc, start_pat, end_pat),
                    None => {
                        let ghost accv = chars_views(acc@);
                        let mut acc2 = acc;
                        let mut line: Vec<char> = Vec::new();
                        push_all_chars(&mut line, &ls[i]);
                        acc2.push(line);
                        proof {
                            assert(chars_views(acc2@) =~= accv.push(ls@[i as int]@));
                        }
                        exec_anchored(ls, i + 1, anchor, found, acc2, start_pat, end_pat)
                    },
                }
            },
        }
    } else {
        match capture_after_exec(&ls[i], start_pat, 0) {
            Some(nm) => {
                let f2 = chars_eq(&nm, anchor);
                exec_anchored(ls, i + 1, anchor, f2, acc, start_pat, end_pat)
            },
            None => exec_anchored(ls, i + 1, anchor, false, acc, start_pat, end_pat),
        }
    }
}

/// Append all characters of `src` to `out`.
fn push_all_chars(out: &mut Vec<char>, src: &Vec<char>)
    ensures
        final(out)@ == old(out)@ + src@,
{
    let mut k: usize = 0;
    while k < src.len()
        invariant
            k <= src@.len(),
            out@ == old(out)@ + src@.take(k as int),
        decreases src@.len() - k,
    {
        out.push(src[k]);
        proof {
            assert(old(out)@ + src@.take(k as int) + seq![src@[k as int]] =~= old(out)@ + src@.take(
                k + 1,
            ));
        }
        k = k + 1;
    }
    proof {
        assert(old(out)@ + src@.take(src@.len() as int) =~= old(out)@ + src@);
    }
}

/// Take the lines between `ANCHOR: anchor` and `ANCHOR_END: anchor`,
/// leaving out all anchor-marker lines, joined with `\n`.
pub fn take_anchored_lines(s: &str, anchor: &str) -> (r: String)
    ensures
        r@ == spec_take_anchored(s@, anchor@),
{
    let sv = str_chars(s);
    let ls = split_lines_chars(sv);
    let av = str_chars(anchor);
    let start_pat = str_chars("ANCHOR:");
    let end_pat = str_chars("ANCHOR_END:");
    proof {
        assert(chars_views(Seq::<Vec<char>>::empty()) =~= Seq::<Seq<char>>::empty());
    }
    let kept = exec_anchored(&ls, 0, &av, false, Vec::new(), &start_pat, &end_pat);
    let mut kept_strs: Vec<String> = Vec::new();
    let mut k: usize = 0;
    while k < kept.len()
        invariant
            k <= kept@.len(),
            kept_strs@.len() == k,
            forall|t: int| 0 <= t < k ==> (#[trigger] kept_strs@[t])@ == kept@[t]@,
        decreases kept@.len() - k,
    {
        kept_strs.push(crate::text::chars_to_string(&kept[k]));
        k = k + 1;
    }
    proof {
        assert(strs_view(kept_strs@) =~= chars_views(kept@));
        assert(strs_view(kept_strs@).subrange(0, kept_strs@.len() as int) =~= strs_view(
            kept_strs@,
        ));
    }
    join_lines(&kept_strs, 0, kept_strs.len())
}

// ---------------------------------------------------------------------------
// Rustdoc-style includes: out-of-range lines hidden behind `# `
// ---------------------------------------------------------------------------

/// Is line index `i` inside `[start, end)` (unbounded for `None`)?
pub open spec fn line_in_range(i: int, start: int, end: Option<usize>) -> bool {
    start <= i && match end {
        Option::Some(e) => i < e as int,
        Option::None => true,
    }
}

/// The lines of `s`, those outside the range prefixed with `# ` (hidden
/// from display, kept for the compiler), joined with `\n`.
pub open spec fn spec_rustdoc_lines(s: Seq<char>, start: int, end: Option<usize>) -> Seq<char> {
    let ls = spec_lines(s);
    spec_join(
        Seq::new(
            ls.len(),
            |i: int|
                if line_in_range(i, start, end) {
                    ls[i]
                } else {
                    "# "@ + ls[i]
                },
        ),
    )
}

/// Keep the lines with index in `[start, end)` as they are and prefix every
/// other line with `# `.
pub fn take_rustdoc_include_lines(s: &str, start: usize, end: Option<usize>) -> (r: String)
    ensures
        r@ == spec_rustdoc_lines(s@, start as int, end),
{
    let ls = split_lines(s);
    let mut mapped: Vec<String> = Vec::new();
    let mut k: usize = 0;
    while k < ls.len()
        invariant
            k <= ls@.len(),
            mapped@.len() == k,
            forall|t: int|
                0 <= t < k ==> (#[trigger] mapped@[t])@ == (if line_in_range(t, start as int, end) {
                    ls@[t]@
                } else {
                    "# "@ + ls@[t]@
                }),
        decreases ls@.len() - k,
    {
        let in_range = start <= k && match end {
            Some(e) => k < e,
            None => true,
        };
        if in_range {
            mapped.push(ls[k].clone());
        } else {
            let mut m = String::new();
            m.append("# ");
            m.append(ls[k].as_str());
            mapped.push(m);
        }
        k = k + 1;
    }
    proof {
        let ghost lv = strs_view(ls@);
        assert(strs_view(mapped@) =~= Seq::new(
            lv.len(),
            |i: int|
                if line_in_range(i, start as int, end) {
                    lv[i]
                } else {
                    "# "@ + lv[i]
                },
        ));
        assert(strs_view(mapped@).subrange(0, mapped@.len() as int) =~= strs_view(mapped@));
    }
    join_lines(&mapped, 0, mapped.len())
}

/// The anchored-include scan: between the named anchors lines stay as they
/// are, outside them they are prefixed with `# `, and all anchor-marker
/// lines are dropped.
pub open spec fn spec_rustdoc_anchored(
    ls: Seq<Seq<char>>,
    i: int,
    anchor: Seq<char>,
    within: bool,
    acc: Seq<Seq<char>>,
) -> Seq<Seq<char>>
    decreases ls.len() - i,
{
    if !(0 <= i < ls.len()) {
        acc
    } else if within {
        match spec_anchor_end(ls[i]) {
            Option::Some(nm) => spec_rustdoc_anchored(ls, i + 1, anchor, !(nm == anchor), acc),
            Option::None => {
                if spec_anchor_start(ls[i]) is Some {
                    spec_rustdoc_anchored(ls, i + 1, anchor, within, acc)
                } else {
                    spec_rustdoc_anchored(ls, i + 1, anchor, within, acc.push(ls[i]))
                }
            },
        }
    } else {
        match spec_anchor_start(ls[i]) {
            Option::Some(nm) => spec_rustdoc_anchored(ls, i + 1, anchor, nm == anchor, acc),
            Option::None => {
                if spec_anchor_end(ls[i]) is Some {
                    spec_rustdoc_anchored(ls, i + 1, anchor, false, acc)
                } else {
                    spec_rustdoc_anchored(ls, i + 1, anchor, false, acc.push("# "@ + ls[i]))
                }
            },
        }
    }
}

/// What `take_rustdoc_include_anchored_lines` returns.
pub open spec fn spec_take_rustdoc_anchored(s: Seq<char>, anchor: Seq<char>) -> Seq<char> {
    spec_join(spec_rustdoc_anchored(spec_lines(s), 0, anchor, false, Seq::empty()))
}

fn exec_rustdoc_anchored(
    ls: &Vec<Vec<char>>,
    i: usize,
    anchor: &Vec<char>,
    within: bool,
    acc: Vec<Vec<char>>,
    start_pat: &Vec<char>,
    end_pat: &Vec<char>,
) -> (r: Vec<Vec<char>>)
    requires
        i <= ls@.len(),
        start_pat@ == "ANCHOR:"@,
        end_pat@ == "ANCHOR_END:"@,
    ensures
        chars_views(r@) == spec_rustdoc_anchored(
            chars_views(ls@),
            i as int,
            anchor@,
            within,
            chars_views(acc@),
        ),
    decreases ls@.len() - i,
{
    if i >= ls.len() {
        return acc;
    }
    proof {
        assert(chars_views(ls@)[i as int] == ls@[i as int]@);
    }
    if within {
        match capture_after_exec(&ls[i], end_pat, 0) {
            Some(nm) => {
                let eq = chars_eq(&nm, anchor);
                exec_rustdoc_anchored(ls, i + 1, anchor, !eq, acc, start_pat, end_pat)
            },
            None => {
                match capture_after_exec(&ls[i], start_pat, 0) {
                    Some(_) => exec_rustdoc_anchored(
                        ls,
                        i + 1,
                        anchor,
                        within,
                        acc,
                        start_pat,
                        end_pat,
                    ),
                    None => {
                        let ghost accv = chars_views(acc@);
                        let mut acc2 = acc;
                        let mut line: Vec<char> = Vec::new();
                        push_all_chars(&mut line, &ls[i]);
                        acc2.push(line);
                        proof {
                            assert(chars_views(acc2@) =~= accv.push(ls@[i as int]@));
                        }
                        exec_rustdoc_anchored(ls, i + 1, anchor, within, acc2, start_pat, end_pat)
                    },
                }
            },
        }
    } else {
        match capture_after_exec(&ls[i], start_pat, 0) {
            Some(nm) => {
                let f2 = chars_eq(&nm, anchor);
                exec_rustdoc_anchored(ls, i + 1, anchor, f2, acc, start_pat, end_pat)
            },
            None => {
                match capture_after_exec(&ls[i], end_pat, 0) {
                    Some(_) => exec_rustdoc_anchored(ls, i + 1, anchor, false, acc, start_pat, end_pat),
                    None => {
                        let ghost accv = chars_views(acc@);
                        let mut acc2 = acc;
                        let mut line: Vec<char> = Vec::new();
                        line.push('#');
                        line.push(' ');
                        push_all_chars(&mut line, &ls[i]);
                        acc2.push(line);
                        proof {
                            reveal_strlit("# ");
                            assert("# "@ =~= seq!['#', ' ']);
                            assert(line@ =~= "# "@ + ls@[i as int]@);
                            assert(chars_views(acc2@) =~= accv.push("# "@ + ls@[i as int]@));
                        }
                        exec_rustdoc_anchored(ls, i + 1, anchor, false, acc2, start_pat, end_pat)
                    },
                }
            },
        }
    }
}

/// Keep the lines between `ANCHOR: anchor` and `ANCHOR_END: anchor` as they
/// are, prefix every line outside them with `# `, and drop all
/// anchor-marker lines; joined with `\n`.
pub fn take_rustdoc_include_anchored_lines(s: &str, anchor: &str) -> (r: String)
    ensures
        r@ == spec_take_rustdoc_anchored(s@, anchor@),
{
    let sv = str_chars(s);
    let ls = split_lines_chars(sv);
    let av = str_chars(anchor);
    let start_pat = str_chars("ANCHOR:");
    let end_pat = str_chars("ANCHOR_END:");
    proof {
        assert(chars_views(Seq::<Vec<char>>::empty()) =~= Seq::<Seq<char>>::empty());
    }
    let kept = exec_rustdoc_anchored(&ls, 0, &av, false, Vec::new(), &start_pat, &end_pat);
    let mut kept_strs: Vec<String> = Vec::new();
    let mut k: usize = 0;
    while k < kept.len()
        invariant
            k <= kept@.len(),
            kept_strs@.len() == k,
            forall|t: int| 0 <= t < k ==> (#[trigger] kept_strs@[t])@ == kept@[t]@,
        decreases kept@.len() - k,
    {
        kept_strs.push(crate::text::chars_to_string(&kept[k]));
        k = k + 1;
    }
    proof {
        assert(strs_view(kept_strs@) =~= chars_views(kept@));
        assert(strs_view(kept_strs@).subrange(0, kept_strs@.len() as int) =~= strs_view(
            kept_strs@,
        ));
    }
    join_lines(&kept_strs, 0, kept_strs.len())
}

// ---------------------------------------------------------------------------
// Identifiers
// ---------------------------------------------------------------------------

/// Whether a character is a Unicode letter or number.
pub uninterp spec fn alphanumeric(c: char) -> bool;

/// Relies on std's `char::is_alphanumeric`: whether `c` is a Unicode letter
/// or digit, a function of the character alone, here named `alphanumeric`.
/// No letter or digit carries the White_Space property, so an alphanumeric
/// character is never whitespace.
pub assume_specification[ char::is_alphanumeric ](c: char) -> (r: bool)
    ensures
        r == alphanumeric(c),
        r ==> !is_ws(c),
;

/// An ASCII uppercase letter lowered; anything else unchanged.
pub open spec fn spec_lower(c: char) -> char {
    if 'A' <= c && c <= 'Z' {
        ((c as u8) + 32) as char
    } else {
        c
    }
}

/// The identifier characters kept from a heading: letters and digits (and
/// `_`, `-`) lowered, whitespace turned into `-`, everything else dropped.
pub open spec fn spec_normalize_id(s: Seq<char>) -> Seq<char>
    decreases s.len(),
{
    if s.len() == 0 {
        Seq::empty()
    } else {
        (if alphanumeric(s[0]) || s[0] == '_' || s[0] == '-' {
            seq![spec_lower(s[0])]
        } else if is_ws(s[0]) {
            seq!['-']
        } else {
            Seq::<char>::empty()
        }) + spec_normalize_id(s.skip(1))
    }
}

/// Convert a string to an identifier usable as an anchor: keep letters,
/// digits, `_` and `-` (lowered), turn whitespace into `-`, drop the rest.
/// The result never holds a whitespace character.
pub fn normalize_id(content: &str) -> (r: String)
    ensures
        r@ == spec_normalize_id(content@),
        forall|t: int| 0 <= t < r@.len() ==> !is_ws(#[trigger] r@[t]),
{
    let n = content.unicode_len();
    let mut out = String::new();
    let mut k: usize = 0;
    proof {
        assert(content@.skip(0) =~= content@);
        assert(out@ + spec_normalize_id(content@) =~= spec_normalize_id(content@));
    }
    while k < n
        invariant
            n == content@.len(),
            k <= n,
            out@ + spec_normalize_id(content@.skip(k as int)) == spec_normalize_id(content@),
            forall|t: int| 0 <= t < out@.len() ==> !is_ws(#[trigger] out@[t]),
        decreases n - k,
    {
        let c = content.get_char(k);
        proof {
            assert(content@.skip(k as int)[0] == content@[k as int]);
            assert(content@.skip(k as int).skip(1) =~= content@.skip(k + 1));
        }
        if c.is_alphanumeric() || c == '_' || c == '-' {
            if 'A' <= c && c <= 'Z' {
                let low = ((c as u8) + 32) as char;
                proof {
                    assert(!is_ws(low));
                }
                out.push(low);
            } else {
                proof {
                    assert(!is_ws(c));
                }
                out.push(c);
            }
        } else if crate::render::is_ws_exec(c) {
            proof {
                assert(!is_ws('-'));
            }
            out.push('-');
        }
        k = k + 1;
    }
    proof {
        assert(content@.skip(n as int) =~= Seq::<char>::empty());
        assert(out@ =~= out@ + spec_normalize_id(content@.skip(n as int)));
    }
    out
}

/// The first `>` at or after `i` with no newline before it, if any.
pub open spec fn gt_before_nl(s: Seq<char>, i: int) -> Option<int>
    decreases s.len() - i,
{
    if !(0 <= i < s.len()) {
        Option::None
    } else if s[i] == '>' {
        Option::Some(i)
    } else if s[i] == '\n' {
        Option::None
    } else {
        gt_before_nl(s, i + 1)
    }
}

/// `s` with each `<`-to-`>` span (not crossing a line break) removed: the
/// narrow tag-stripping scan of heading text.
pub open spec fn spec_strip_tags(s: Seq<char>) -> Seq<char>
    decreases s.len(),
{
    if s.len() == 0 {
        Seq::empty()
    } else if s[0] == '<' {
        match gt_before_nl(s, 1) {
            Option::Some(j) => {
                if 0 < j + 1 <= s.len() {
                    spec_strip_tags(s.skip(j + 1))
                } else {
                    s
                }
            },
            Option::None => seq!['<'] + spec_strip_tags(s.skip(1)),
        }
    } else {
        seq![s[0]] + spec_strip_tags(s.skip(1))
    }
}

fn gt_before_nl_exec(s: &Vec<char>, i: usize) -> (r: Option<usize>)
    requires
        i <= s@.len(),
    ensures
        ({
            let g = gt_before_nl(s@, i as int);
            match (r, g) {
                (Option::Some(x), Option::Some(gx)) => x as int == gx && i <= x < s@.len(),
                (Option::None, Option::None) => true,
                _ => false,
            }
        }),
    decreases s@.len() - i,
{
    if i >= s.len() {
        None
    } else if s[i] == '>' {
        Some(i)
    } else if s[i] == '\n' {
        None
    } else {
        gt_before_nl_exec(s, i + 1)
    }
}

fn strip_tags_exec(s: Vec<char>) -> (r: Vec<char>)
    ensures
        r@ == spec_strip_tags(s@),
    decreases s@.len(),
{
    if s.len() == 0 {
        return s;
    }
    if s[0] == '<' {
        match gt_before_nl_exec(&s, 1) {
            Some(j) => {
                let mut rest: Vec<char> = Vec::new();
                let mut k: usize = j + 1;
                while k < s.len()
                    invariant
                        j + 1 <= k <= s@.len(),
                        rest@ == s@.subrange(j + 1, k as int),
                    decreases s@.len() - k,
                {
                    rest.push(s[k]);
                    k = k + 1;
                }
                proof {
                    assert(rest@ =~= s@.skip(j + 1));
                }
                strip_tags_exec(rest)
            },
            None => {
                let mut rest: Vec<char> = Vec::new();
                let mut k: usize = 1;
                while k < s.len()
                    invariant
                        1 <= k <= s@.len(),
                        rest@ == s@.subrange(1, k as int),
                    decreases s@.len() - k,
                {
                    rest.push(s[k]);
                    k = k + 1;
                }
                proof {
                    assert(rest@ =~= s@.skip(1));
                }
                let tail = strip_tags_exec(rest);
                let mut out: Vec<char> = Vec::new();
                out.push('<');
                let mut t2 = tail;
                out.append(&mut t2);
                proof {
                    assert(out@ =~= spec_strip_tags(s@));
                }
                out
            },
        }
    } else {
        let c = s[0];
        let mut rest: Vec<char> = Vec::new();
        let mut k: usize = 1;
        while k < s.len()
            invariant
                1 <= k <= s@.len(),
                rest@ == s@.subrange(1, k as int),
            decreases s@.len() - k,
        {
            rest.push(s[k]);
            k = k + 1;
        }
        proof {
            assert(rest@ =~= s@.skip(1));
        }
        let tail = strip_tags_exec(rest);
        let mut out: Vec<char> = Vec::new();
        out.push(c);
        let mut t2 = tail;
        out.append(&mut t2);
        proof {
            assert(out@ =~= spec_strip_tags(s@));
        }
        out
    }
}

/// The whitespace-trimmed middle of `l`: leading and trailing Unicode
/// whitespace removed.
pub open spec fn spec_trim(l: Seq<char>) -> Seq<char>
    decreases l.len(),
{
    if l.len() > 0 && is_ws(l[0]) {
        spec_trim(l.skip(1))
    } else if l.len() > 0 && is_ws(l.last()) {
        spec_trim(l.drop_last())
    } else {
        l
    }
}

fn trim_exec(l: Vec<char>) -> (r: Vec<char>)
    ensures
        r@ == spec_trim(l@),
    decreases l@.len(),
{
    let mut l2 = l;
    if l2.len() > 0 && crate::render::is_ws_exec(l2[0]) {
        l2.remove(0);
        trim_exec(l2)
    } else if l2.len() > 0 && crate::render::is_ws_exec(l2[l2.len() - 1]) {
        l2.pop();
        trim_exec(l2)
    } else {
        l2
    }
}

/// The leading `#` characters of `l` removed.
pub open spec fn spec_strip_hashes(l: Seq<char>) -> Seq<char>
    decreases l.len(),
{
    if l.len() > 0 && l[0] == '#' {
        spec_strip_hashes(l.skip(1))
    } else {
        l
    }
}

fn strip_hashes_exec(l: Vec<char>) -> (r: Vec<char>)
    ensures
        r@ == spec_strip_hashes(l@),
    decreases l@.len(),
{
    let mut l2 = l;
    if l2.len() > 0 && l2[0] == '#' {
        l2.remove(0);
        strip_hashes_exec(l2)
    } else {
        l2
    }
}

/// What `id_from_content` computes: HTML tags and a few HTML entities
/// removed, the text trimmed, leading heading markers dropped, trimmed
/// again, and normalized into an identifier.
pub open spec fn spec_id_from_content(s: Seq<char>) -> Seq<char> {
    let c1 = spec_strip_tags(s);
    let c2 = spec_replace_all(c1, "&lt;"@, Seq::empty());
    let c3 = spec_replace_all(c2, "&gt;"@, Seq::empty());
    let c4 = spec_replace_all(c3, "&amp;"@, Seq::empty());
    let c5 = spec_replace_all(c4, "&#39;"@, Seq::empty());
    let c6 = spec_replace_all(c5, "&quot;"@, Seq::empty());
    spec_normalize_id(spec_trim(spec_strip_hashes(spec_trim(c6))))
}

/// An anchor identifier derived from heading content: tags and entities
/// removed, heading markers and surrounding whitespace dropped, the rest
/// normalized.
pub fn id_from_content(content: &str) -> (r: String)
    ensures
        r@ == spec_id_from_content(content@),
{
    let cv = str_chars(content);
    let c1 = strip_tags_exec(cv);
    let s1 = crate::text::chars_to_string(&c1);
    let s2 = crate::text::replace_in_str(s1.as_str(), "&lt;", "");
    let s3 = crate::text::replace_in_str(s2.as_str(), "&gt;", "");
    let s4 = crate::text::replace_in_str(s3.as_str(), "&amp;", "");
    let s5 = crate::text::replace_in_str(s4.as_str(), "&#39;", "");
    let s6 = crate::text::replace_in_str(s5.as_str(), "&quot;", "");
    proof {
        reveal_strlit("");
        assert(""@ =~= Seq::<char>::empty());
    }
    let t1 = trim_exec(str_chars(s6.as_str()));
    let t2 = strip_hashes_exec(t1);
    let t3 = trim_exec(t2);
    normalize_id(crate::text::chars_to_string(&t3).as_str())
}

/// The id counts seen so far, so repeated headings get distinct anchors.
pub struct IdCounter {
    pub entries: Vec<(String, usize)>,
}

/// The view of the counter: key and count pairs, in insertion order.
pub open spec fn counter_view(s: Seq<(String, usize)>) -> Seq<(Seq<char>, usize)> {
    s.map_values(|p: (String, usize)| (p.0@, p.1))
}

/// The first entry with the given key.
pub open spec fn spec_lookup(entries: Seq<(Seq<char>, usize)>, key: Seq<char>) -> Option<int>
    decreases entries.len(),
{
    if entries.len() == 0 {
        Option::None
    } else if entries[0].0 == key {
        Option::Some(0)
    } else {
        match spec_lookup(entries.drop_first(), key) {
            Option::Some(i) => Option::Some(i + 1),
            Option::None => Option::None,
        }
    }
}

impl IdCounter {
    /// A counter with no ids seen yet.
    pub fn new() -> (r: IdCounter)
        ensures
            counter_view(r.entries@).len() == 0,
    {
        IdCounter { entries: Vec::new() }
    }
}

/// A count bumped by one, wrapping at the type bound (which no real
/// document reaches).
pub open spec fn bump(c: usize) -> usize {
    if c == usize::MAX {
        0
    } else {
        (c + 1) as usize
    }
}

/// What `unique_id_from_content` returns and how the counter changes: the
/// id derived from the content, suffixed with `-<count>` when that id was
/// seen before, and the id's count raised by one.
pub open spec fn spec_unique_id(s: Seq<char>, entries: Seq<(Seq<char>, usize)>) -> (Seq<char>, Seq<
    (Seq<char>, usize),
>) {
    let id = spec_id_from_content(s);
    match spec_lookup(entries, id) {
        Option::Some(i) => {
            let c = entries[i].1;
            let unique = if c == 0 {
                id
            } else {
                id + "-"@ + spec_digits(c as nat)
            };
            (unique, entries.update(i, (id, bump(c))))
        },
        Option::None => (id, entries.push((id, 1))),
    }
}

fn lookup_exec(entries: &Vec<(String, usize)>, key: &String) -> (r: Option<usize>)
    ensures
        ({
            let s = spec_lookup(counter_view(entries@), key@);
            match (r, s) {
                (Option::Some(x), Option::Some(sx)) => x as int == sx && x < entries@.len(),
                (Option::None, Option::None) => true,
                _ => false,
            }
        }),
{
    let mut k: usize = 0;
    proof {
        assert(counter_view(entries@).skip(0) =~= counter_view(entries@));
    }
    while k < entries.len()
        invariant
            k <= entries@.len(),
            spec_lookup(counter_view(entries@), key@) == match spec_lookup(
                counter_view(entries@).skip(k as int),
                key@,
            ) {
                Option::Some(i) => Option::Some(i + k as int),
                Option::None => Option::None,
            },
            forall|t: int| 0 <= t < k ==> (#[trigger] counter_view(entries@)[t]).0 != key@,
        decreases entries@.len() - k,
    {
        proof {
            assert(counter_view(entries@).skip(k as int)[0] == counter_view(entries@)[k as int]);
            assert(counter_view(entries@).skip(k as int).drop_first() =~= counter_view(
                entries@,
            ).skip(k + 1));
        }
        if entries[k].0 == *key {
            return Some(k);
        }
        k = k + 1;
    }
    proof {
        assert(counter_view(entries@).skip(entries@.len() as int) =~= Seq::<
            (Seq<char>, usize),
        >::empty());
    }
    None
}

/// An anchor identifier that is unique across the headings counted so far:
/// the derived id, suffixed with the number of times it was already used.
pub fn unique_id_from_content(content: &str, id_counter: &mut IdCounter) -> (r: String)
    ensures
        ({
            let (sid, snew) = spec_unique_id(content@, counter_view(old(id_counter).entries@));
            r@ == sid && counter_view(final(id_counter).entries@) == snew
        }),
{
    let id = id_from_content(content);
    match lookup_exec(&id_counter.entries, &id) {
        Some(i) => {
            let c = id_counter.entries[i].1;
            let unique = if c == 0 {
                id.clone()
            } else {
                let mut s = id.clone();
                s.append("-");
                push_digits_usize(&mut s, c);
                s
            };
            let c2 = if c == usize::MAX {
                0
            } else {
                c + 1
            };
            let _old = id_counter.entries.remove(i);
            id_counter.entries.insert(i, (id, c2));
            proof {
                assert(counter_view(id_counter.entries@) =~= counter_view(
                    old(id_counter).entries@,
                ).update(i as int, (spec_id_from_content(content@), bump(c))));
            }
            unique
        },
        None => {
            id_counter.entries.push((id.clone(), 1));
            proof {
                assert(counter_view(id_counter.entries@) =~= counter_view(
                    old(id_counter).entries@,
                ).push((spec_id_from_content(content@), 1)));
            }
            id
        },
    }
}

/// Append the decimal rendering of a count.
fn push_digits_usize(out: &mut String, n: usize)
    ensures
        final(out)@ == old(out)@ + spec_digits(n as nat),
{
    crate::section_number::push_digits_u64(out, n as u64);
}

// ---------------------------------------------------------------------------
// Whitespace collapsing and source partitioning
// ---------------------------------------------------------------------------

/// `s` with every run of two or more whitespace characters replaced by one
/// space; single whitespace characters stay as they are.
pub open spec fn spec_collapse_ws(s: Seq<char>, i: int) -> Seq<char>
    decreases s.len() - i,
{
    if !(0 <= i < s.len()) {
        Seq::empty()
    } else if is_ws(s[i]) && i + 1 < s.len() && is_ws(s[i + 1]) {
        let j = ws_end(s, i);
        let j2 = if j < i + 2 {
            i + 2
        } else if j > s.len() {
            s.len() as int
        } else {
            j
        };
        seq![' '] + spec_collapse_ws(s, j2)
    } else {
        seq![s[i]] + spec_collapse_ws(s, i + 1)
    }
}

fn collapse_from(s: &Vec<char>, i: usize) -> (r: Vec<char>)
    requires
        i <= s@.len(),
    ensures
        r@ == spec_collapse_ws(s@, i as int),
    decreases s@.len() - i,
{
    if i >= s.len() {
        return Vec::new();
    }
    if crate::render::is_ws_exec(s[i]) && i + 1 < s.len() && crate::render::is_ws_exec(s[i + 1]) {
        let j = ws_end_exec(s, i);
        let j2: usize = if j < i + 2 {
            i + 2
        } else {
            j
        };
        let rest = collapse_from(s, j2);
        let mut out: Vec<char> = Vec::new();
        out.push(' ');
        let mut r2 = rest;
        out.append(&mut r2);
        proof {
            assert(out@ =~= spec_collapse_ws(s@, i as int));
        }
        out
    } else {
        let rest = collapse_from(s, i + 1);
        let mut out: Vec<char> = Vec::new();
        out.push(s[i]);
        let mut r2 = rest;
        out.append(&mut r2);
        proof {
            assert(out@ =~= spec_collapse_ws(s@, i as int));
        }
        out
    }
}

/// Replace every run of two or more whitespace characters with one space.
pub fn collapse_whitespace(text: &str) -> (r: String)
    ensures
        r@ == spec_collapse_ws(text@, 0),
{
    let tv = str_chars(text);
    let out = collapse_from(&tv, 0);
    crate::text::chars_to_string(&out)
}

/// The header/body split of a code snippet: leading blank lines and
/// `#![...]` attribute lines (until the first other line) go to the header,
/// everything from there on to the body; each kept line ends with `\n`.
pub open spec fn spec_partition(
    ls: Seq<Seq<char>>,
    i: int,
    after: bool,
    before: Seq<char>,
    body: Seq<char>,
) -> (Seq<char>, Seq<char>)
    decreases ls.len() - i,
{
    if !(0 <= i < ls.len()) {
        (before, body)
    } else {
        let trimmed = spec_trim(ls[i]);
        let header = trimmed.len() == 0 || matches_at(trimmed, 0, "#!["@);
        if !header || after {
            spec_partition(ls, i + 1, true, before, body + ls[i] + seq!['\n'])
        } else {
            spec_partition(ls, i + 1, false, before + ls[i] + seq!['\n'], body)
        }
    }
}

fn exec_partition(
    ls: &Vec<Vec<char>>,
    i: usize,
    after: bool,
    before: Vec<char>,
    body: Vec<char>,
) -> (r: (Vec<char>, Vec<char>))
    requires
        i <= ls@.len(),
    ensures
        ({
            let (sb, sa) = spec_partition(chars_views(ls@), i as int, after, before@, body@);
            r.0@ == sb && r.1@ == sa
        }),
    decreases ls@.len() - i,
{
    if i >= ls.len() {
        return (before, body);
    }
    proof {
        assert(chars_views(ls@)[i as int] == ls@[i as int]@);
    }
    let mut line: Vec<char> = Vec::new();
    push_all_chars(&mut line, &ls[i]);
    let trimmed = trim_exec(line);
    let pat = str_chars("#![");
    let header = trimmed.len() == 0 || (trimmed.len() >= 3 && matches_at_exec(&trimmed, 0, &pat));
    proof {
        if trimmed@.len() < 3 {
            assert(!matches_at(trimmed@, 0, "#!["@)) by {
                reveal_strlit("#![");
            }
        }
    }
    if !header || after {
        let mut body2 = body;
        push_all_chars(&mut body2, &ls[i]);
        body2.push('\n');
        proof {
            assert(body2@ =~= body@ + ls@[i as int]@ + seq!['\n']);
        }
        exec_partition(ls, i + 1, true, before, body2)
    } else {
        let mut before2 = before;
        push_all_chars(&mut before2, &ls[i]);
        before2.push('\n');
        proof {
            assert(before2@ =~= before@ + ls@[i as int]@ + seq!['\n']);
        }
        exec_partition(ls, i + 1, false, before2, body)
    }
}

/// Split a code snippet into its attribute header (leading blank and
/// `#![...]` lines) and the rest.
pub fn partition_source(s: &str) -> (r: (String, String))
    ensures
        ({
            let (sb, sa) = spec_partition(spec_lines(s@), 0, false, Seq::empty(), Seq::empty());
            r.0@ == sb && r.1@ == sa
        }),
{
    let sv = str_chars(s);
    let ls = split_lines_chars(sv);
    let (b, a) = exec_partition(&ls, 0, false, Vec::new(), Vec::new());
    (crate::text::chars_to_string(&b), crate::text::chars_to_string(&a))
}

} // verus!
