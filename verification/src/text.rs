//! Small text helpers shared by the parser, the loader and the renderer:
//! building strings character by character, substring search, and
//! find-and-replace over character sequences.

use vstd::prelude::*;

verus! {

/// Relies on std's `String::push`: appends exactly one character.
pub assume_specification[ String::push ](s: &mut String, c: char)
    ensures
        final(s)@ == old(s)@ + seq![c],
;

/// Append every character of `src` to `out`.
pub fn push_chars(out: &mut String, src: &str)
    ensures
        final(out)@ == old(out)@ + src@,
{
    out.append(src);
}

/// True when `pat` occurs in `s` starting at position `i`.
pub open spec fn matches_at(s: Seq<char>, i: int, pat: Seq<char>) -> bool {
    0 <= i && i + pat.len() <= s.len() && s.subrange(i, i + pat.len()) =~= pat
}

/// The first position at or after `i` where `pat` occurs in `s`, or the length
/// of `s` when there is none.
pub open spec fn spec_find_from(s: Seq<char>, i: int, pat: Seq<char>) -> int
    decreases s.len() - i,
{
    if i < 0 || i > s.len() {
        s.len() as int
    } else if i + pat.len() > s.len() {
        s.len() as int
    } else if matches_at(s, i, pat) {
        i
    } else {
        spec_find_from(s, i + 1, pat)
    }
}

/// `s` with every occurrence of `pat` replaced by `rep`, scanning left to
/// right without overlap, as `str::replace` does. An empty pattern leaves
/// `s` unchanged (where std would interleave `rep` everywhere, no caller
/// passes an empty pattern).
pub open spec fn spec_replace_all(s: Seq<char>, pat: Seq<char>, rep: Seq<char>) -> Seq<char>
    decreases s.len(),
{
    if pat.len() == 0 || pat.len() > s.len() {
        s
    } else {
        let j = spec_find_from(s, 0, pat);
        if 0 <= j && j + pat.len() <= s.len() {
            s.subrange(0, j) + rep + spec_replace_all(s.skip(j + pat.len()), pat, rep)
        } else {
            s
        }
    }
}

/// Does `pat` occur in `s` at position `i`?
pub fn matches_at_exec(s: &Vec<char>, i: usize, pat: &Vec<char>) -> (r: bool)
    requires
        i <= s@.len(),
    ensures
        r == matches_at(s@, i as int, pat@),
{
    if pat.len() > s.len() - i {
        proof {
            assert(!matches_at(s@, i as int, pat@));
        }
        return false;
    }
    let mut k: usize = 0;
    while k < pat.len()
        invariant
            i + pat@.len() <= s@.len() <= usize::MAX,
            k <= pat@.len(),
            forall|t: int| 0 <= t < k ==> s@[i + t] == pat@[t],
        decreases pat@.len() - k,
    {
        if s[i + k] != pat[k] {
            proof {
                assert(s@.subrange(i as int, i + pat@.len())[k as int] != pat@[k as int]);
            }
            return false;
        }
        k = k + 1;
    }
    proof {
        assert(s@.subrange(i as int, i + pat@.len()) =~= pat@);
    }
    true
}

/// First occurrence of `pat` in `s` at or after `i`, or `s.len()` if none.
pub fn find_from(s: &Vec<char>, i: usize, pat: &Vec<char>) -> (r: usize)
    requires
        i <= s@.len(),
    ensures
        r == spec_find_from(s@, i as int, pat@),
        i <= r <= s@.len(),
        r < s@.len() ==> matches_at(s@, r as int, pat@),
    decreases s@.len() - i,
{
    if pat.len() > s.len() - i {
        proof {
            assert(spec_find_from(s@, i as int, pat@) == s@.len());
        }
        return s.len();
    }
    if matches_at_exec(s, i, pat) {
        i
    } else {
        find_from(s, i + 1, pat)
    }
}

/// `s` with every occurrence of `pat` replaced by `rep`, left to right,
/// without overlap.
pub fn replace_all(s: &Vec<char>, pat: &Vec<char>, rep: &Vec<char>) -> (r: Vec<char>)
    ensures
        r@ == spec_replace_all(s@, pat@, rep@),
{
    let mut out: Vec<char> = Vec::new();
    let mut rest: Vec<char> = Vec::new();
    let mut i: usize = 0;
    while i < s.len()
        invariant
            i <= s@.len(),
            rest@ == s@.take(i as int),
        decreases s@.len() - i,
    {
        rest.push(s[i]);
        i = i + 1;
    }
    proof {
        assert(rest@ =~= s@);
    }
    replace_all_into(&mut out, rest, pat, rep);
    proof {
        assert(out@ =~= Seq::<char>::empty() + spec_replace_all(s@, pat@, rep@));
    }
    out
}

/// Append the replacement of `pat` by `rep` in `s` onto `out`.
fn replace_all_into(out: &mut Vec<char>, s: Vec<char>, pat: &Vec<char>, rep: &Vec<char>)
    ensures
        final(out)@ == old(out)@ + spec_replace_all(s@, pat@, rep@),
    decreases s@.len(),
{
    if pat.len() == 0 || pat.len() > s.len() {
        let mut k: usize = 0;
        while k < s.len()
            invariant
                k <= s@.len(),
                out@ == old(out)@ + s@.take(k as int),
            decreases s@.len() - k,
        {
            out.push(s[k]);
            k = k + 1;
        }
        proof {
            assert(old(out)@ + s@.take(s@.len() as int) =~= old(out)@ + s@);
        }
        return ;
    }
    let j = find_from(&s, 0, pat);
    if j == s.len() {
        let mut k: usize = 0;
        while k < s.len()
            invariant
                k <= s@.len(),
                out@ == old(out)@ + s@.take(k as int),
            decreases s@.len() - k,
        {
            out.push(s[k]);
            k = k + 1;
        }
        proof {
            assert(old(out)@ + s@.take(s@.len() as int) =~= old(out)@ + s@);
        }
        return ;
    }
    let mut k: usize = 0;
    while k < j
        invariant
            k <= j,
            j + pat@.len() <= s@.len(),
            out@ == old(out)@ + s@.take(k as int),
        decreases j - k,
    {
        out.push(s[k]);
        k = k + 1;
    }
    let mut k2: usize = 0;
    while k2 < rep.len()
        invariant
            k2 <= rep@.len(),
            out@ == old(out)@ + s@.take(j as int) + rep@.take(k2 as int),
        decreases rep@.len() - k2,
    {
        out.push(rep[k2]);
        k2 = k2 + 1;
    }
    let mut tail: Vec<char> = Vec::new();
    let mut k3: usize = j + pat.len();
    while k3 < s.len()
        invariant
            j + pat@.len() <= k3 <= s@.len(),
            tail@ == s@.subrange(j + pat@.len(), k3 as int),
        decreases s@.len() - k3,
    {
        tail.push(s[k3]);
        k3 = k3 + 1;
    }
    proof {
        assert(tail@ =~= s@.skip(j + pat@.len()));
        assert(out@ =~= old(out)@ + (s@.subrange(0, j as int) + rep@));
        assert(s@.take(j as int) =~= s@.subrange(0, j as int));
        assert(rep@.take(rep@.len() as int) =~= rep@);
    }
    replace_all_into(out, tail, pat, rep);
    proof {
        assert(old(out)@ + spec_replace_all(s@, pat@, rep@) =~= final(out)@);
    }
}

/// The characters of `s`, as a vector.
pub fn str_chars(s: &str) -> (r: Vec<char>)
    ensures
        r@ == s@,
{
    let n = s.unicode_len();
    let mut out: Vec<char> = Vec::new();
    let mut i: usize = 0;
    while i < n
        invariant
            n == s@.len(),
            i <= n,
            out@ == s@.take(i as int),
        decreases n - i,
    {
        out.push(s.get_char(i));
        i = i + 1;
    }
    proof {
        assert(s@.take(n as int) =~= s@);
    }
    out
}

/// A `String` holding exactly the characters of `v`.
pub fn chars_to_string(v: &Vec<char>) -> (r: String)
    ensures
        r@ == v@,
{
    let mut out = String::new();
    let mut i: usize = 0;
    while i < v.len()
        invariant
            i <= v@.len(),
            out@ == v@.take(i as int),
        decreases v@.len() - i,
    {
        out.push(v[i]);
        proof {
            assert(v@.take(i as int) + seq![v@[i as int]] =~= v@.take(i + 1));
        }
        i = i + 1;
    }
    proof {
        assert(v@.take(v@.len() as int) =~= v@);
    }
    out
}

/// `s` with each `<` and `>` replaced by its HTML entity.
pub open spec fn spec_bracket_escape(s: Seq<char>) -> Seq<char>
    decreases s.len(),
{
    if s.len() == 0 {
        Seq::empty()
    } else {
        (if s[0] == '<' {
            seq!['&', 'l', 't', ';']
        } else if s[0] == '>' {
            seq!['&', 'g', 't', ';']
        } else {
            seq![s[0]]
        }) + spec_bracket_escape(s.skip(1))
    }
}

/// Escape `<` and `>` as HTML entities, leaving everything else alone.
pub fn bracket_escape(s: &str) -> (r: String)
    ensures
        r@ == spec_bracket_escape(s@),
{
    let n = s.unicode_len();
    let mut out = String::new();
    let mut k: usize = 0;
    proof {
        assert(s@.skip(0) =~= s@);
        assert(out@ + spec_bracket_escape(s@) =~= spec_bracket_escape(s@));
    }
    while k < n
        invariant
            n == s@.len(),
            k <= n,
            out@ + spec_bracket_escape(s@.skip(k as int)) == spec_bracket_escape(s@),
        decreases n - k,
    {
        let c = s.get_char(k);
        proof {
            assert(s@.skip(k as int)[0] == s@[k as int]);
            assert(s@.skip(k as int).skip(1) =~= s@.skip(k + 1));
        }
        if c == '<' {
            out.push('&');
            out.push('l');
            out.push('t');
            out.push(';');
        } else if c == '>' {
            out.push('&');
            out.push('g');
            out.push('t');
            out.push(';');
        } else {
            out.push(c);
        }
        k = k + 1;
    }
    proof {
        assert(s@.skip(n as int) =~= Seq::<char>::empty());
        assert(out@ =~= out@ + spec_bracket_escape(s@.skip(n as int)));
    }
    out
}

/// `str::replace` over strings: every occurrence of `pat` replaced by `rep`.
pub fn replace_in_str(s: &str, pat: &str, rep: &str) -> (r: String)
    ensures
        r@ == spec_replace_all(s@, pat@, rep@),
{
    let sv = str_chars(s);
    let pv = str_chars(pat);
    let rv = str_chars(rep);
    let out = replace_all(&sv, &pv, &rv);
    chars_to_string(&out)
}

} // verus!
