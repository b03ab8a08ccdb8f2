//! Integer truncation of the floating-point values the container
//! carries (IEEE-754 bit patterns and decimal lexemes), saturating at
//! the `i64` range and mapping NaN to zero.

use vstd::prelude::*;
use crate::ascii::{
    dec_value, digits_end, is_digit, lemma_dec_value_nonneg,
    lemma_digits_end, num_a, num_b, num_c, num_d, num_has_dot, num_has_exp, num_neg,
};

verus! {

/// `x` doubled `k` times.
pub open spec fn times2(x: int, k: nat) -> int
    decreases k,
{
    if k == 0 { x } else { 2 * times2(x, (k - 1) as nat) }
}

/// `x` halved (rounding down) `k` times.
pub open spec fn halve(x: int, k: nat) -> int
    decreases k,
{
    if k == 0 { x } else { halve(x, (k - 1) as nat) / 2 }
}

/// A magnitude with a sign, saturated to the `i64` range.
pub open spec fn saturate(neg: bool, mag: int) -> i64 {
    if neg {
        if mag >= 0x8000_0000_0000_0000 { i64::MIN } else { (-mag) as i64 }
    } else {
        if mag >= 0x8000_0000_0000_0000 { i64::MAX } else { mag as i64 }
    }
}

/// Truncation toward zero of an IEEE-754 value with the given sign bit,
/// biased exponent field, mantissa field, mantissa width and bias
/// (`as i64` semantics: NaN to 0, saturating).
pub open spec fn ieee_trunc(sign: bool, e: int, m: int, mbits: nat, max_e: int, shift: int) -> i64 {
    if e == max_e {
        if m != 0 { 0 } else if sign { i64::MIN } else { i64::MAX }
    } else if e == 0 {
        0
    } else {
        let mant = m + times2(1, mbits);
        let k = e - shift;
        saturate(sign, if k >= 0 { times2(mant, k as nat) } else { halve(mant, (-k) as nat) })
    }
}

/// `f64::from_bits(b) as i64`.
pub open spec fn f64_bits_trunc(b: u64) -> i64 {
    ieee_trunc(b >= 0x8000_0000_0000_0000, ((b / 0x10_0000_0000_0000) % 2048) as int, (b % 0x10_0000_0000_0000) as int, 52, 2047, 1075)
}

/// `f32::from_bits(b) as i64`.
pub open spec fn f32_bits_trunc(b: u32) -> i64 {
    ieee_trunc(b >= 0x8000_0000, ((b / 0x80_0000) % 256) as int, (b % 0x80_0000) as int, 23, 255, 150)
}

proof fn lemma_times2_ge(x: int, j: nat, k: nat)
    requires x >= 0, j <= k,
    ensures times2(x, j) <= times2(x, k), times2(x, j) >= 0,
    decreases k,
{
    if k > j {
        lemma_times2_ge(x, j, (k - 1) as nat);
    } else if k > 0 {
        lemma_times2_ge(x, 0, (k - 1) as nat);
    }
}

proof fn lemma_times2_mul(x: int, k: nat)
    ensures times2(x, k) == x * times2(1, k),
    decreases k,
{
    if k > 0 {
        lemma_times2_mul(x, (k - 1) as nat);
        let t = times2(1, (k - 1) as nat);
        assert(2 * (x * t) == x * (2 * t)) by (nonlinear_arith);
    }
}

proof fn lemma_halve_nonneg(x: int, k: nat)
    requires x >= 0,
    ensures halve(x, k) >= 0, halve(x, k) <= x,
    decreases k,
{
    if k > 0 {
        lemma_halve_nonneg(x, (k - 1) as nat);
    }
}

/// `mant` doubled `k` times, saturated at 2^63.
fn shift_left_sat(mant: u64, k: u64, limit: u64) -> (r: u64)
    requires
        mant >= 1,
        limit <= 63,
        k <= limit,
        times2(mant as int, limit as nat) < 0x1_0000_0000_0000_0000,
    ensures r == times2(mant as int, k as nat),
{
    let mut v = mant;
    let mut i: u64 = 0;
    while i < k
        invariant
            i <= k <= limit,
            v == times2(mant as int, i as nat),
            times2(mant as int, limit as nat) < 0x1_0000_0000_0000_0000,
            mant >= 1,
        decreases k - i,
    {
        proof { lemma_times2_ge(mant as int, (i + 1) as nat, limit as nat); }
        v = v * 2;
        i += 1;
    }
    v
}

fn shift_right(mant: u64, k: u64) -> (r: u64)
    ensures r == halve(mant as int, k as nat),
{
    let mut v = mant;
    let mut i: u64 = 0;
    while i < k
        invariant
            i <= k,
            v == halve(mant as int, i as nat),
        decreases k - i,
    {
        proof { lemma_halve_nonneg(mant as int, i as nat); }
        v = v / 2;
        i += 1;
    }
    v
}

fn saturate_exec(neg: bool, mag: u64, big: bool) -> (r: i64)
    ensures
        !big ==> r == saturate(neg, mag as int),
        big ==> r == (if neg { i64::MIN } else { i64::MAX }),
{
    if big || mag >= 0x8000_0000_0000_0000 {
        if neg { i64::MIN } else { i64::MAX }
    } else if neg {
        -(mag as i64)
    } else {
        mag as i64
    }
}

/// `f64::from_bits(bits) as i64`, computed on the bit pattern.
pub fn f64_bits_to_i64(bits: u64) -> (r: i64)
    ensures r == f64_bits_trunc(bits),
{
    let sign = bits >= 0x8000_0000_0000_0000;
    let e = (bits / 0x10_0000_0000_0000) % 2048;
    let m = bits % 0x10_0000_0000_0000;
    if e == 2047 {
        return if m != 0 { 0 } else if sign { i64::MIN } else { i64::MAX };
    }
    if e == 0 {
        return 0;
    }
    proof {
        reveal_with_fuel(times2, 53);
        assert(times2(1, 52) == 0x10_0000_0000_0000);
    }
    let mant = m + 0x10_0000_0000_0000;
    if e >= 1075 {
        let k = e - 1075;
        if k >= 11 {
            proof {
                assert(times2(mant as int, 11) >= 0x8000_0000_0000_0000) by {
                    lemma_times2_mul(mant as int, 11);
                    reveal_with_fuel(times2, 12);
                }
                lemma_times2_ge(mant as int, 11, k as nat);
            }
            return saturate_exec(sign, 0, true);
        }
        proof {
            lemma_times2_mul(mant as int, 10);
            reveal_with_fuel(times2, 11);
        }
        let v = shift_left_sat(mant, k, 10);
        saturate_exec(sign, v, false)
    } else {
        let v = shift_right(mant, 1075 - e);
        saturate_exec(sign, v, false)
    }
}

/// `f32::from_bits(bits) as i64`, computed on the bit pattern.
pub fn f32_bits_to_i64(bits: u32) -> (r: i64)
    ensures r == f32_bits_trunc(bits),
{
    let sign = bits >= 0x8000_0000;
    let e = (bits / 0x80_0000) % 256;
    let m = bits % 0x80_0000;
    if e == 255 {
        return if m != 0 { 0 } else if sign { i64::MIN } else { i64::MAX };
    }
    if e == 0 {
        return 0;
    }
    proof {
        reveal_with_fuel(times2, 24);
        assert(times2(1, 23) == 0x80_0000);
    }
    let mant = (m + 0x80_0000) as u64;
    if e >= 150 {
        let k = (e - 150) as u64;
        if k >= 40 {
            proof {
                assert(times2(mant as int, 40) >= 0x8000_0000_0000_0000) by {
                    lemma_times2_mul(mant as int, 40);
                    reveal_with_fuel(times2, 41);
                }
                lemma_times2_ge(mant as int, 40, k as nat);
            }
            return saturate_exec(sign, 0, true);
        }
        proof {
            lemma_times2_mul(mant as int, 39);
            reveal_with_fuel(times2, 40);
        }
        let v = shift_left_sat(mant, k, 39);
        saturate_exec(sign, v, false)
    } else {
        let v = shift_right(mant, (150 - e) as u64);
        saturate_exec(sign, v, false)
    }
}

} // verus!

verus! {

pub open spec fn zeros(k: nat) -> Seq<u8> {
    Seq::new(k, |i: int| 0x30u8)
}

/// All mantissa digits of a decimal lexeme (integer part, then
/// fraction part).
pub open spec fn dec_mantissa(t: Seq<u8>) -> Seq<u8> {
    t.subrange(num_a(t, 0), num_b(t, 0)) + (if num_has_dot(t, 0) {
        t.subrange(num_b(t, 0) + 1, num_c(t, 0))
    } else {
        Seq::empty()
    })
}

pub open spec fn dec_frac_len(t: Seq<u8>) -> int {
    if num_has_dot(t, 0) { num_c(t, 0) - (num_b(t, 0) + 1) } else { 0 }
}

/// Start of the exponent digits after the `e`/`E` at `c`.
pub open spec fn exp_digits_start(t: Seq<u8>, c: int) -> int {
    if c + 1 < t.len() && (t[c + 1] == 0x2b || t[c + 1] == 0x2d) { c + 2 } else { c + 1 }
}

pub open spec fn dec_exp(t: Seq<u8>) -> int {
    if num_has_exp(t, 0) {
        let c = num_c(t, 0);
        let v = dec_value(t.subrange(exp_digits_start(t, c), num_d(t, 0)));
        if c + 1 < t.len() && t[c + 1] == 0x2d { -v } else { v }
    } else {
        0
    }
}

/// Truncation toward zero, saturating at the `i64` range, of the exact
/// value of a decimal lexeme `-? digits? (. digits?)? ([eE] [+-]? digits)?`.
pub open spec fn decimal_trunc(t: Seq<u8>) -> i64 {
    let dm = dec_mantissa(t);
    let sh = dec_exp(t) - dec_frac_len(t);
    let mag = if sh >= 0 {
        dec_value(dm + zeros(sh as nat))
    } else if -sh >= dm.len() {
        0
    } else {
        dec_value(dm.subrange(0, dm.len() + sh))
    };
    saturate(num_neg(t, 0), mag)
}

proof fn lemma_dec_value_append_zero(x: Seq<u8>)
    ensures dec_value(x + seq![0x30u8]) == 10 * dec_value(x),
{
    assert((x + seq![0x30u8]).drop_last() =~= x);
}

proof fn lemma_dec_value_zeros(x: Seq<u8>, k: nat)
    ensures dec_value(x + zeros(k)) == dec_value(x) * spec_pow10(k),
    decreases k,
{
    if k == 0 {
        assert(x + zeros(0) =~= x);
    } else {
        lemma_dec_value_zeros(x, (k - 1) as nat);
        assert(x + zeros(k) =~= (x + zeros((k - 1) as nat)) + seq![0x30u8]);
        lemma_dec_value_append_zero(x + zeros((k - 1) as nat));
        let a = dec_value(x);
        let p = spec_pow10((k - 1) as nat);
        assert(10 * (a * p) == a * (10 * p)) by (nonlinear_arith);
    }
}

proof fn lemma_pow10_mono(j: nat, k: nat)
    requires j <= k,
    ensures 1 <= spec_pow10(j) <= spec_pow10(k),
    decreases k,
{
    if k > j {
        lemma_pow10_mono(j, (k - 1) as nat);
    } else if k > 0 {
        lemma_pow10_mono(0, (k - 1) as nat);
    }
}

/// A mantissa worth at least one, followed by 19 or more zeros, is at
/// least 2^63.
proof fn lemma_dec_value_zeros_big(x: Seq<u8>, k: nat)
    requires
        dec_value(x) >= 1,
        k >= 19,
    ensures dec_value(x + zeros(k)) >= 0x8000_0000_0000_0000,
{
    lemma_dec_value_zeros(x, k);
    lemma_pow10_mono(19, k);
    assert(spec_pow10(19) == 10_000_000_000_000_000_000) by {
        reveal_with_fuel(spec_pow10, 20);
    }
    let a = dec_value(x);
    let p = spec_pow10(k);
    assert(a * p >= p) by (nonlinear_arith) requires a >= 1, p >= 1;
}

pub open spec fn spec_pow10(k: nat) -> int
    decreases k,
{
    if k == 0 { 1 } else { 10 * spec_pow10((k - 1) as nat) }
}

proof fn lemma_all_zero_digits(x: Seq<u8>)
    requires forall|i: int| 0 <= i < x.len() ==> #[trigger] x[i] == 0x30,
    ensures dec_value(x) == 0,
    decreases x.len(),
{
    if x.len() > 0 {
        lemma_all_zero_digits(x.drop_last());
    }
}

proof fn lemma_nonzero_digits(x: Seq<u8>, i: int)
    requires
        0 <= i < x.len(),
        x[i] != 0x30,
        forall|k: int| 0 <= k < x.len() ==> is_digit(#[trigger] x[k]),
    ensures dec_value(x) >= 1,
    decreases x.len(),
{
    if i == x.len() - 1 {
        lemma_dec_value_nonneg(x.drop_last());
    } else {
        lemma_nonzero_digits(x.drop_last(), i);
    }
}

pub(crate) fn scan_digits(t: &[u8], p: usize) -> (r: usize)
    requires p <= t@.len(),
    ensures r == digits_end(t@, p as int), p <= r <= t@.len(),
{
    let mut i = p;
    proof { lemma_digits_end(t@, p as int); }
    while i < t.len() && 0x30 <= t[i] && t[i] <= 0x39
        invariant
            p <= i <= t@.len(),
            digits_end(t@, p as int) == digits_end(t@, i as int),
        decreases t@.len() - i,
    {
        i += 1;
    }
    i
}

/// The value of `d` when it fits in `u64`, else `None`.
fn digits_value_vec(d: &Vec<u8>) -> (r: Option<u64>)
    requires forall|k: int| 0 <= k < d@.len() ==> is_digit(#[trigger] d@[k]),
    ensures
        dec_value(d@) >= 0,
        dec_value(d@) <= u64::MAX ==> r == Some(dec_value(d@) as u64),
        dec_value(d@) > u64::MAX ==> r is None,
{
    let r = crate::ascii::digits_value_slice(d.as_slice(), 0, d.len());
    assert(d@.subrange(0, d@.len() as int) =~= d@);
    r
}

/// The mantissa digits of a decimal lexeme, in order.
fn mantissa_digits(t: &[u8]) -> (dm: Vec<u8>)
    ensures
        dm@ == dec_mantissa(t@),
        forall|k: int| 0 <= k < dm@.len() ==> is_digit(#[trigger] dm@[k]),
{
    let ghost s = t@;
    let len = t.len();
    let neg = len > 0 && t[0] == 0x2d;
    let a: usize = if neg { 1 } else { 0 };
    let b = scan_digits(t, a);
    let has_dot = b < len && t[b] == 0x2e;
    proof { lemma_digits_end(s, a as int); }
    let mut dm = crate::bytes::copy_range(t, a, b - a);
    if has_dot {
        let c = scan_digits(t, b + 1);
        proof { lemma_digits_end(s, b + 1); }
        let mut fr = crate::bytes::copy_range(t, b + 1, c - (b + 1));
        dm.append(&mut fr);
    }
    assert(dm@ =~= dec_mantissa(s));
    proof {
        assert forall|k: int| 0 <= k < dm@.len() implies is_digit(#[trigger] dm@[k]) by {
            if k < b - a {
                assert(dm@[k] == s[a + k]);
            } else {
                assert(dm@[k] == s[b + 1 + (k - (b - a))]);
            }
        }
    }
    dm
}

/// The exponent of a decimal lexeme: `(too_big, negative, magnitude)`,
/// where `too_big` says the magnitude exceeds `u64::MAX`.
fn exponent_of(t: &[u8]) -> (r: (bool, bool, u64))
    ensures
        !r.0 ==> dec_exp(t@) == (if r.1 { -(r.2 as int) } else { r.2 as int }),
        r.0 && r.1 ==> dec_exp(t@) < -(u64::MAX as int),
        r.0 && !r.1 ==> dec_exp(t@) > u64::MAX,
        r.0 ==> dec_frac_len(t@) + 20 <= t@.len(),
{
    let ghost s = t@;
    let len = t.len();
    let neg = len > 0 && t[0] == 0x2d;
    let a: usize = if neg { 1 } else { 0 };
    let b = scan_digits(t, a);
    let has_dot = b < len && t[b] == 0x2e;
    let c = if has_dot { scan_digits(t, b + 1) } else { b };
    let has_exp = c < len && (t[c] == 0x65 || t[c] == 0x45);
    if !has_exp {
        return (false, false, 0);
    }
    let c2: usize = if c + 1 < len && (t[c + 1] == 0x2b || t[c + 1] == 0x2d) { c + 2 } else { c + 1 };
    let exp_neg = c + 1 < len && t[c + 1] == 0x2d;
    let d = scan_digits(t, c2);
    proof { lemma_digits_end(s, c2 as int); }
    match crate::ascii::digits_value_slice(t, c2, d) {
        Some(v) => (false, exp_neg, v),
        None => {
            proof {
                lemma_dec_value_lt_pow10(s.subrange(c2 as int, d as int));
                if d - c2 <= 19 {
                    lemma_pow10_mono((d - c2) as nat, 19);
                    assert(spec_pow10(19) == 10_000_000_000_000_000_000) by {
                        reveal_with_fuel(spec_pow10, 20);
                    }
                }
            }
            (true, exp_neg, 0)
        },
    }
}

proof fn lemma_dec_value_lt_pow10(d: Seq<u8>)
    requires forall|k: int| 0 <= k < d.len() ==> is_digit(#[trigger] d[k]),
    ensures dec_value(d) < spec_pow10(d.len()),
    decreases d.len(),
{
    if d.len() > 0 {
        lemma_dec_value_lt_pow10(d.drop_last());
    }
}

fn push_zeros(w: &mut Vec<u8>, n: usize)
    ensures final(w)@ == old(w)@ + zeros(n as nat),
{
    let ghost base = w@;
    let mut z: usize = 0;
    while z < n
        invariant
            z <= n,
            w@ == base + zeros(z as nat),
        decreases n - z,
    {
        w.push(0x30);
        z += 1;
        assert(w@ =~= base + zeros(z as nat));
    }
}

/// Truncate the exact value of a decimal lexeme toward zero,
/// saturating at the `i64` range.
pub fn decimal_to_i64(t: &[u8]) -> (r: i64)
    ensures r == decimal_trunc(t@),
{
    let ghost s = t@;
    let len = t.len();
    let neg = len > 0 && t[0] == 0x2d;
    assert(neg == num_neg(s, 0));
    let dm = mantissa_digits(t);
    let ghost sh_spec = dec_exp(s) - dec_frac_len(s);
    // An all-zero mantissa truncates to zero whatever the exponent.
    let mut nz: usize = 0;
    while nz < dm.len() && dm[nz] == 0x30
        invariant
            nz <= dm@.len(),
            forall|k: int| 0 <= k < nz ==> #[trigger] dm@[k] == 0x30,
        decreases dm@.len() - nz,
    {
        nz += 1;
    }
    if nz == dm.len() {
        proof {
            if sh_spec >= 0 {
                lemma_all_zero_digits(dm@ + zeros(sh_spec as nat));
            } else if -sh_spec < dm@.len() {
                lemma_all_zero_digits(dm@.subrange(0, dm@.len() + sh_spec));
            }
        }
        return 0;
    }
    proof { lemma_nonzero_digits(dm@, nz as int); }
    let (exp_big, exp_neg, exp_val) = exponent_of(t);
    // The number of fraction digits never exceeds the length of the lexeme.
    let a: usize = if neg { 1 } else { 0 };
    let b = scan_digits(t, a);
    let has_dot = b < len && t[b] == 0x2e;
    let c = if has_dot { scan_digits(t, b + 1) } else { b };
    let frac_len: usize = if has_dot { c - (b + 1) } else { 0 };
    assert(frac_len as int == dec_frac_len(s));
    let dlen = dm.len();
    if exp_big {
        if exp_neg {
            // The shift exceeds every mantissa length: the value is below one.
            return 0;
        } else {
            proof { lemma_dec_value_zeros_big(dm@, sh_spec as nat); }
            return saturate_exec(neg, 0, true);
        }
    }
    let sh: i128 = if exp_neg { -(exp_val as i128) - (frac_len as i128) } else { (exp_val as i128) - (frac_len as i128) };
    assert(sh as int == sh_spec);
    if sh >= 0 {
        if sh >= 19 {
            proof { lemma_dec_value_zeros_big(dm@, sh as nat); }
            return saturate_exec(neg, 0, true);
        }
        let mut w: Vec<u8> = dm;
        let ghost base = w@;
        push_zeros(&mut w, sh as usize);
        proof {
            assert forall|k: int| 0 <= k < w@.len() implies is_digit(#[trigger] w@[k]) by {
                if k < base.len() { assert(w@[k] == base[k]); }
            }
        }
        assert(w@ =~= dm@ + zeros(sh as nat));
        match digits_value_vec(&w) {
            Some(v) => saturate_exec(neg, v, false),
            None => saturate_exec(neg, 0, true),
        }
    } else {
        let k = -sh;
        if k >= dlen as i128 {
            return 0;
        }
        let keep = dlen - (k as usize);
        let w = crate::bytes::copy_range(dm.as_slice(), 0, keep);
        proof {
            assert forall|j: int| 0 <= j < w@.len() implies is_digit(#[trigger] w@[j]) by {
                assert(w@[j] == dm@[j]);
            }
        }
        match digits_value_vec(&w) {
            Some(v) => saturate_exec(neg, v, false),
            None => saturate_exec(neg, 0, true),
        }
    }
}

} // verus!
