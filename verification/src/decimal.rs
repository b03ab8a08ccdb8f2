//! Decimal rendering of integers.

use vstd::prelude::*;

verus! {

/// Decimal digits of `n` (no sign, no leading zeros; `0` is `"0"`).
pub open spec fn dec_digits(n: nat) -> Seq<u8>
    decreases n,
{
    if n < 10 {
        seq![(0x30 + n) as u8]
    } else {
        dec_digits(n / 10) + seq![(0x30 + n % 10) as u8]
    }
}

/// Decimal text of a signed integer, with a leading `-` when negative.
pub open spec fn dec_int(n: int) -> Seq<u8> {
    if n < 0 { seq![0x2du8] + dec_digits((-n) as nat) } else { dec_digits(n as nat) }
}

pub proof fn lemma_dec_digits_ascii(n: nat)
    ensures
        dec_digits(n).len() >= 1,
        forall|k: int| 0 <= k < dec_digits(n).len() ==> 0x30 <= #[trigger] dec_digits(n)[k] <= 0x39,
    decreases n,
{
    if n >= 10 {
        lemma_dec_digits_ascii(n / 10);
        let a = dec_digits(n / 10);
        assert forall|k: int| 0 <= k < dec_digits(n).len() implies 0x30 <= #[trigger] dec_digits(n)[k] <= 0x39 by {
            if k < a.len() {
                assert(dec_digits(n)[k] == a[k]);
            }
        }
    }
}

/// Append the decimal digits of `m` to `out`.
pub fn push_u64_digits(m: u64, out: &mut Vec<u8>)
    ensures final(out)@ == old(out)@ + dec_digits(m as nat),
    decreases m,
{
    if m >= 10 {
        push_u64_digits(m / 10, out);
    }
    out.push(0x30 + (m % 10) as u8);
    proof {
        if m >= 10 {
            assert(final(out)@ =~= old(out)@ + dec_digits(m as nat));
        } else {
            assert(final(out)@ =~= old(out)@ + dec_digits(m as nat));
        }
    }
}

/// Append the decimal text of `n` to `out`.
pub fn push_i64_decimal(n: i64, out: &mut Vec<u8>)
    ensures final(out)@ == old(out)@ + dec_int(n as int),
{
    if n < 0 {
        out.push(0x2d);
        let m: u64 = if n == i64::MIN { 0x8000_0000_0000_0000 } else { (-n) as u64 };
        push_u64_digits(m, out);
        assert(final(out)@ =~= old(out)@ + dec_int(n as int));
    } else {
        push_u64_digits(n as u64, out);
    }
}

/// The decimal text of `n`.
pub fn i64_decimal(n: i64) -> (r: Vec<u8>)
    ensures r@ == dec_int(n as int),
{
    let mut out: Vec<u8> = Vec::new();
    push_i64_decimal(n, &mut out);
    assert(out@ =~= dec_int(n as int));
    out
}

} // verus!
