//! Decimal rendering of integers, as query output shows them.
use vstd::prelude::*;

verus! {

/// The decimal digits of `n`, most significant first.
pub open spec fn digits(n: nat) -> Seq<u8>
    decreases n,
{
    if n < 10 {
        seq![(48 + n) as u8]
    } else {
        digits(n / 10).push((48 + n % 10) as u8)
    }
}

/// `n` in decimal, with a leading minus sign when negative.
pub open spec fn decimal(n: int) -> Seq<u8> {
    if n < 0 {
        seq![45u8] + digits((-n) as nat)
    } else {
        digits(n as nat)
    }
}

fn push_digits(n: u64, out: &mut Vec<u8>)
    ensures
        final(out)@ == old(out)@ + digits(n as nat),
    decreases n,
{
    if n >= 10 {
        push_digits(n / 10, out);
    }
    out.push(48 + (n % 10) as u8);
    proof {
        if n >= 10 {
            assert(old(out)@ + digits((n / 10) as nat) + seq![(48 + n % 10) as u8] =~= old(out)@
                + digits(n as nat));
        } else {
            assert(old(out)@.push((48 + n) as u8) =~= old(out)@ + digits(n as nat));
        }
    }
}

/// The decimal rendering of `n`.
pub fn decimal_of(n: i64) -> (r: Vec<u8>)
    ensures
        r@ == decimal(n as int),
{
    let mut out: Vec<u8> = Vec::new();
    if n < 0 {
        out.push(45);
        let magnitude: u64 = if n == -9223372036854775808i64 {
            9223372036854775808u64
        } else {
            (-n) as u64
        };
        push_digits(magnitude, &mut out);
        assert(out@ =~= seq![45u8] + digits((-n) as nat));
    } else {
        push_digits(n as u64, &mut out);
        assert(out@ =~= digits(n as nat));
    }
    out
}

/// The decimal rendering of a count.
pub fn decimal_of_count(n: usize) -> (r: Vec<u8>)
    ensures
        r@ == decimal(n as int),
{
    let mut out: Vec<u8> = Vec::new();
    push_digits(n as u64, &mut out);
    assert(out@ =~= digits(n as nat));
    out
}

} // verus!
