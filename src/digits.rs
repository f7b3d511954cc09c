//! Decimal digits of unsigned integers, as ASCII bytes.
use vstd::prelude::*;

verus! {

/// The shortest decimal writing of `n`.
pub open spec fn digits(n: nat) -> Seq<u8>
    decreases n,
{
    if n < 10 {
        seq![(0x30 + n) as u8]
    } else {
        digits(n / 10).push((0x30 + n % 10) as u8)
    }
}

/// The number that a string of decimal digits spells.
pub open spec fn digits_value(s: Seq<u8>) -> nat
    decreases s.len(),
{
    if s.len() == 0 {
        0
    } else {
        (digits_value(s.drop_last()) * 10 + (s.last() - 0x30)) as nat
    }
}

/// Reading back the digits of a number gives the number.
pub proof fn lemma_digits_value(n: nat)
    ensures
        digits_value(digits(n)) == n,
    decreases n,
{
    if n >= 10 {
        lemma_digits_value(n / 10);
        assert(digits(n).drop_last() =~= digits(n / 10));
        assert(digits(n).last() == (0x30 + n % 10) as u8);
        let d = digits(n);
        assert(digits_value(d) == (digits_value(d.drop_last()) * 10 + (d.last() - 0x30)) as nat);
        assert(d.last() - 0x30 == n % 10);
        assert(n == (n / 10) * 10 + n % 10);
    } else {
        let d = digits(n);
        assert(digits_value(d) == (digits_value(d.drop_last()) * 10 + (d.last() - 0x30)) as nat);
        assert(digits(n).drop_last() =~= Seq::<u8>::empty());
    }
}

/// Appends the decimal digits of `n` to `out`.
pub fn push_digits(out: &mut Vec<u8>, n: u64)
    ensures
        final(out)@ == old(out)@ + digits(n as nat),
    decreases n,
{
    if n >= 10 {
        push_digits(out, n / 10);
    }
    out.push((n % 10) as u8 + 0x30);
    assert(final(out)@ =~= old(out)@ + digits(n as nat));
}

} // verus!
