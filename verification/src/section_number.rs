//! Dotted section numbers such as `1.2.3.`.

use vstd::prelude::*;

verus! {

/// A section number like "1.2.3.": an ordered sequence of positive sibling
/// indices, one per nesting level, rendered with a trailing dot per entry.
/// The empty sequence renders as "0".
#[derive(Debug, Clone, PartialEq, Eq, Hash)]
pub struct SectionNumber(pub Vec<u32>);

/// The dotted decimal rendering of one sequence of section indices:
/// each entry in decimal followed by `.`, or `0` for the empty sequence.
pub open spec fn spec_render_section(parts: Seq<u32>) -> Seq<char>
    decreases parts.len(),
{
    if parts.len() == 0 {
        Seq::<char>::empty()
    } else {
        spec_render_section(parts.drop_last()) + spec_digits(parts.last() as nat) + seq!['.']
    }
}

/// Decimal digits of `n`, most significant first.
pub open spec fn spec_digits(n: nat) -> Seq<char>
    decreases n,
{
    if n < 10 {
        seq![digit_char(n)]
    } else {
        spec_digits(n / 10) + seq![digit_char(n % 10)]
    }
}

/// The character for one decimal digit value.
pub open spec fn digit_char(d: nat) -> char {
    ('0' as u8 + (d as u8)) as char
}

impl SectionNumber {
    /// What this section number's `render` returns.
    pub open spec fn spec_render(&self) -> Seq<char> {
        if self.0@.len() == 0 {
            seq!['0']
        } else {
            spec_render_section(self.0@)
        }
    }

    /// An empty section number (renders as "0").
    pub fn new() -> (r: SectionNumber)
        ensures
            r.0@ == Seq::<u32>::empty(),
    {
        SectionNumber(Vec::new())
    }

    /// Render as a dotted string: `[1,2,3]` becomes "1.2.3.", `[]` becomes "0".
    pub fn render(&self) -> (r: String)
        ensures
            r@ == self.spec_render(),
    {
        if self.0.len() == 0 {
            let mut s = String::new();
            s.push('0');
            proof {
                assert(s@ =~= seq!['0']);
            }
            return s;
        }
        let mut out = String::new();
        let mut i: usize = 0;
        while i < self.0.len()
            invariant
                i <= self.0@.len(),
                out@ == spec_render_section(self.0@.take(i as int)),
            decreases self.0@.len() - i,
        {
            push_digits(&mut out, self.0[i]);
            out.push('.');
            proof {
                assert(self.0@.take(i + 1 as int).drop_last() =~= self.0@.take(i as int));
                assert(self.0@.take(i + 1 as int).last() == self.0@[i as int]);
            }
            i = i + 1;
        }
        proof {
            assert(self.0@.take(self.0@.len() as int) =~= self.0@);
        }
        out
    }
}

/// Append the decimal rendering of `n` to `out`.
pub(crate) fn push_digits_u64(out: &mut String, n: u64)
    ensures
        final(out)@ == old(out)@ + spec_digits(n as nat),
    decreases n,
{
    if n < 10 {
        out.push(('0' as u8 + (n as u8)) as char);
    } else {
        push_digits_u64(out, n / 10);
        out.push(('0' as u8 + ((n % 10) as u8)) as char);
    }
}

/// Append the decimal rendering of `n` to `out`.
pub(crate) fn push_digits(out: &mut String, n: u32)
    ensures
        final(out)@ == old(out)@ + spec_digits(n as nat),
    decreases n,
{
    if n < 10 {
        out.push(('0' as u8 + (n as u8)) as char);
    } else {
        push_digits(out, n / 10);
        out.push(('0' as u8 + ((n % 10) as u8)) as char);
    }
}

} // verus!
