//! Standard-alphabet base64 with `=` padding (RFC 4648 §4), used for
//! the ASCII form of binary `R` payloads.
//!
//! [`encode`] groups the input in threes and prints four alphabet
//! characters per group, padding a short last group with `=`.
//! [`decode`] is strict: the text must be whole groups of four over the
//! alphabet with at most two `=` pads, and only in the last group.

use vstd::prelude::*;
use crate::text::chars_of_bytes;

verus! {

/// The alphabet character for a 6-bit value.
pub open spec fn b64_char(v: int) -> u8 {
    if v < 26 {
        (0x41 + v) as u8
    } else if v < 52 {
        (0x61 + v - 26) as u8
    } else if v < 62 {
        (0x30 + v - 52) as u8
    } else if v == 62 {
        0x2bu8
    } else {
        0x2fu8
    }
}

/// The 6-bit value of an alphabet character.
pub open spec fn b64_value(c: u8) -> Option<int> {
    if 0x41 <= c <= 0x5a {
        Some(c - 0x41)
    } else if 0x61 <= c <= 0x7a {
        Some(c - 0x61 + 26)
    } else if 0x30 <= c <= 0x39 {
        Some(c - 0x30 + 52)
    } else if c == 0x2b {
        Some(62)
    } else if c == 0x2f {
        Some(63)
    } else {
        None
    }
}

/// The four characters for a group of one to three bytes.
pub open spec fn encode_chunk(c: Seq<u8>) -> Seq<u8> {
    let b0 = c[0] as int;
    let b1 = if c.len() > 1 { c[1] as int } else { 0 };
    let b2 = if c.len() > 2 { c[2] as int } else { 0 };
    let n = b0 * 65536 + b1 * 256 + b2;
    seq![
        b64_char(n / 262144 % 64),
        b64_char(n / 4096 % 64),
        if c.len() > 1 { b64_char(n / 64 % 64) } else { 0x3du8 },
        if c.len() > 2 { b64_char(n % 64) } else { 0x3du8 },
    ]
}

/// Padded base64 text of `b`.
pub open spec fn spec_encode(b: Seq<u8>) -> Seq<u8>
    decreases b.len(),
{
    if b.len() == 0 {
        Seq::empty()
    } else if b.len() <= 3 {
        encode_chunk(b)
    } else {
        encode_chunk(b.subrange(0, 3)) + spec_encode(b.subrange(3, b.len() as int))
    }
}

/// The number of trailing `=` in a group of four.
pub open spec fn group_pad(g: Seq<u8>) -> int {
    if g[3] != 0x3d {
        0
    } else if g[2] != 0x3d {
        1
    } else if g[1] != 0x3d {
        2
    } else if g[0] != 0x3d {
        3
    } else {
        4
    }
}

/// The value of the first `k` characters of a group, as six-bit digits.
pub open spec fn group_value(g: Seq<u8>, k: int) -> Option<int>
    decreases k,
{
    if k <= 0 {
        Some(0)
    } else {
        match (group_value(g, k - 1), b64_value(g[k - 1])) {
            (Some(a), Some(v)) => Some(a * 64 + v),
            _ => None,
        }
    }
}

/// `6 * k` as a power of two.
pub open spec fn shift6(k: int) -> int {
    if k <= 0 { 1 } else if k == 1 { 64 } else if k == 2 { 4096 } else { 262144 }
}

/// The bytes of one group (`last` says it ends the text).
pub open spec fn decode_group(g: Seq<u8>, last: bool) -> Option<Seq<u8>> {
    let pad = group_pad(g);
    if pad > 2 || (pad > 0 && !last) {
        None
    } else {
        match group_value(g, 4 - pad) {
            None => None,
            Some(v) => {
                let n = v * shift6(pad);
                let b0 = (n / 65536 % 256) as u8;
                let b1 = (n / 256 % 256) as u8;
                let b2 = (n % 256) as u8;
                Some(if pad == 2 { seq![b0] } else if pad == 1 { seq![b0, b1] } else { seq![b0, b1, b2] })
            },
        }
    }
}

pub open spec fn decode_groups(t: Seq<u8>) -> Option<Seq<u8>>
    decreases t.len(),
{
    if t.len() < 4 {
        Some(Seq::empty())
    } else {
        match decode_group(t.subrange(0, 4), t.len() == 4) {
            None => None,
            Some(b) => match decode_groups(t.subrange(4, t.len() as int)) {
                None => None,
                Some(rest) => Some(b + rest),
            },
        }
    }
}

/// Strict decoding: `None` unless the text is whole groups over the
/// alphabet with at most two pads, in the last group only.
pub open spec fn spec_decode(t: Seq<u8>) -> Option<Seq<u8>> {
    if t.len() % 4 != 0 { None } else { decode_groups(t) }
}

const ALPHABET: [u8; 64] = [
    0x41, 0x42, 0x43, 0x44, 0x45, 0x46, 0x47, 0x48, 0x49, 0x4a, 0x4b, 0x4c, 0x4d, 0x4e, 0x4f, 0x50,
    0x51, 0x52, 0x53, 0x54, 0x55, 0x56, 0x57, 0x58, 0x59, 0x5a, 0x61, 0x62, 0x63, 0x64, 0x65, 0x66,
    0x67, 0x68, 0x69, 0x6a, 0x6b, 0x6c, 0x6d, 0x6e, 0x6f, 0x70, 0x71, 0x72, 0x73, 0x74, 0x75, 0x76,
    0x77, 0x78, 0x79, 0x7a, 0x30, 0x31, 0x32, 0x33, 0x34, 0x35, 0x36, 0x37, 0x38, 0x39, 0x2b, 0x2f,
];

fn alphabet_char(v: u32) -> (c: u8)
    requires v < 64,
    ensures c == b64_char(v as int),
{
    let a = ALPHABET;
    assert(a@ =~= Seq::new(64, |i: int| b64_char(i)));
    a[v as usize]
}

fn encode_chunk_exec(c: &[u8], out: &mut Vec<u8>)
    requires 1 <= c@.len() <= 3,
    ensures final(out)@ == old(out)@ + encode_chunk(c@),
{
    let b0 = c[0] as u32;
    let b1: u32 = if c.len() > 1 { c[1] as u32 } else { 0 };
    let b2: u32 = if c.len() > 2 { c[2] as u32 } else { 0 };
    let n = b0 * 65536 + b1 * 256 + b2;
    let ghost o = out@;
    out.push(alphabet_char(n / 262144 % 64));
    out.push(alphabet_char(n / 4096 % 64));
    if c.len() > 1 {
        out.push(alphabet_char(n / 64 % 64));
    } else {
        out.push(0x3d);
    }
    if c.len() > 2 {
        out.push(alphabet_char(n % 64));
    } else {
        out.push(0x3d);
    }
    assert(out@ =~= o + encode_chunk(c@));
}

/// Padded standard base64 of `bytes`, as bytes.
pub fn encode_bytes(bytes: &[u8]) -> (r: Vec<u8>)
    ensures r@ == spec_encode(bytes@),
{
    let mut out: Vec<u8> = Vec::new();
    let mut i: usize = 0;
    let len = bytes.len();
    assert(bytes@.subrange(0, len as int) =~= bytes@);
    assert(out@ + spec_encode(bytes@) =~= spec_encode(bytes@));
    while i < len
        invariant
            i <= len == bytes@.len(),
            spec_encode(bytes@) == out@ + spec_encode(bytes@.subrange(i as int, len as int)),
        decreases len - i,
    {
        let end = if len - i >= 3 { i + 3 } else { len };
        let chunk = &bytes[i..end];
        let ghost rest = bytes@.subrange(i as int, len as int);
        assert(chunk@ == rest.subrange(0, (end - i) as int));
        let ghost o = out@;
        encode_chunk_exec(chunk, &mut out);
        proof {
            if rest.len() <= 3 {
                assert(rest.subrange(0, rest.len() as int) =~= rest);
                assert(bytes@.subrange(end as int, len as int) =~= Seq::<u8>::empty());
            } else {
                assert(rest.subrange(3, rest.len() as int) =~= bytes@.subrange(end as int, len as int));
            }
            assert(o + (encode_chunk(chunk@) + spec_encode(bytes@.subrange(end as int, len as int)))
                =~= out@ + spec_encode(bytes@.subrange(end as int, len as int)));
        }
        i = end;
    }
    assert(out@ + Seq::<u8>::empty() =~= out@);
    out
}

/// Every byte of base64 text is ASCII.
pub proof fn lemma_encode_ascii(b: Seq<u8>)
    ensures forall|k: int| 0 <= k < spec_encode(b).len() ==> #[trigger] spec_encode(b)[k] < 128,
    decreases b.len(),
{
    if b.len() > 3 {
        lemma_encode_ascii(b.subrange(3, b.len() as int));
        lemma_chunk_ascii(b.subrange(0, 3));
        let x = encode_chunk(b.subrange(0, 3));
        let y = spec_encode(b.subrange(3, b.len() as int));
        assert forall|k: int| 0 <= k < spec_encode(b).len() implies #[trigger] spec_encode(b)[k] < 128 by {
            if k < x.len() {
                assert(spec_encode(b)[k] == x[k]);
            } else {
                assert(spec_encode(b)[k] == y[k - x.len()]);
            }
        }
    } else if b.len() > 0 {
        lemma_chunk_ascii(b);
    }
}

proof fn lemma_chunk_ascii(c: Seq<u8>)
    requires c.len() >= 1,
    ensures forall|k: int| 0 <= k < encode_chunk(c).len() ==> #[trigger] encode_chunk(c)[k] < 128,
{
    let b0 = c[0] as int;
    let b1 = if c.len() > 1 { c[1] as int } else { 0 };
    let b2 = if c.len() > 2 { c[2] as int } else { 0 };
    let n = b0 * 65536 + b1 * 256 + b2;
    assert(n >= 0);
    assert(0 <= n / 262144 % 64 < 64);
    assert(0 <= n / 4096 % 64 < 64);
    assert(0 <= n / 64 % 64 < 64);
    assert(0 <= n % 64 < 64);
}

/// Padded standard base64 text of `bytes`: ASCII, and its bytes are
/// [`spec_encode`] of the input.
pub fn encode(bytes: &[u8]) -> (s: String)
    ensures
        s@ == chars_of_bytes(spec_encode(bytes@)),
        vstd::utf8::encode_utf8(s@) == spec_encode(bytes@),
        forall|k: int| 0 <= k < spec_encode(bytes@).len() ==> #[trigger] spec_encode(bytes@)[k] < 128,
{
    let b = encode_bytes(bytes);
    proof {
        lemma_encode_ascii(bytes@);
        crate::ascii::lemma_ascii_encode(b@);
    }
    crate::text::string_from_bytes_latin(b.as_slice())
}

fn value(c: u8) -> (r: Option<u32>)
    ensures
        r matches Some(v) ==> b64_value(c) == Some(v as int),
        r is None ==> b64_value(c) is None,
{
    if 0x41 <= c && c <= 0x5a {
        Some((c - 0x41) as u32)
    } else if 0x61 <= c && c <= 0x7a {
        Some((c - 0x61) as u32 + 26)
    } else if 0x30 <= c && c <= 0x39 {
        Some((c - 0x30) as u32 + 52)
    } else if c == 0x2b {
        Some(62)
    } else if c == 0x2f {
        Some(63)
    } else {
        None
    }
}

proof fn lemma_group_value_bound(g: Seq<u8>, k: int)
    requires 0 <= k <= 4,
    ensures group_value(g, k) matches Some(v) ==> 0 <= v < shift6(k) * (if k == 4 { 64int } else { 1int }),
    decreases k,
{
    if k > 0 {
        lemma_group_value_bound(g, k - 1);
    }
}

proof fn lemma_group_value_none(g: Seq<u8>, k: int, j: int)
    requires 0 <= k <= j, group_value(g, k) is None,
    ensures group_value(g, j) is None,
    decreases j - k,
{
    if j > k {
        lemma_group_value_none(g, k, j - 1);
    }
}

/// Decode one group of four characters onto `out`; `false` when the
/// group is not valid.
fn decode_group_exec(g: &[u8], last: bool, out: &mut Vec<u8>) -> (ok: bool)
    requires g@.len() == 4,
    ensures
        ok == decode_group(g@, last) is Some,
        ok ==> final(out)@ == old(out)@ + decode_group(g@, last)->Some_0,
{
    let pad: usize = if g[3] != 0x3du8 { 0 } else if g[2] != 0x3du8 { 1 } else if g[1] != 0x3du8 { 2 } else if g[0] != 0x3du8 { 3 } else { 4 };
    assert(pad as int == group_pad(g@));
    if pad > 2 || (pad > 0 && !last) {
        return false;
    }
    let mut n: u32 = 0;
    let mut k: usize = 0;
    while k < 4 - pad
        invariant
            k <= 4 - pad,
            pad <= 2,
            pad as int == group_pad(g@),
            !(pad > 2 || (pad > 0 && !last)),
            g@.len() == 4,
            group_value(g@, k as int) == Some(n as int),
        decreases 4 - pad - k,
    {
        proof { lemma_group_value_bound(g@, k as int); }
        match value(g[k]) {
            Some(v) => { n = n * 64 + v; }
            None => {
                proof { lemma_group_value_none(g@, k + 1, (4 - pad) as int); }
                return false;
            }
        }
        k += 1;
    }
    proof { lemma_group_value_bound(g@, (4 - pad) as int); }
    let shift: u32 = if pad == 0 { 1 } else if pad == 1 { 64 } else { 4096 };
    assert(shift as int == shift6(pad as int));
    assert(n * shift < 16777216) by (nonlinear_arith)
        requires
            pad <= 2,
            (pad == 0 ==> n < 16777216 && shift == 1),
            (pad == 1 ==> n < 262144 && shift == 64),
            (pad == 2 ==> n < 4096 && shift == 4096);
    let m = n * shift;
    let ghost before = out@;
    out.push((m / 65536 % 256) as u8);
    if pad < 2 {
        out.push((m / 256 % 256) as u8);
    }
    if pad < 1 {
        out.push((m % 256) as u8);
    }
    assert(out@ =~= before + decode_group(g@, last)->Some_0);
    true
}

/// Strict base64 decoding; `None` for anything but whole four-character
/// groups over the alphabet with at most two trailing `=` pads.
#[verifier::spinoff_prover]
#[verifier::rlimit(40)]
pub fn decode(text: &[u8]) -> (r: Option<Vec<u8>>)
    ensures
        match r {
            Some(v) => spec_decode(text@) == Some(v@),
            None => spec_decode(text@) is None,
        },
{
    let len = text.len();
    if len % 4 != 0 {
        return None;
    }
    let mut out: Vec<u8> = Vec::new();
    let mut i: usize = 0;
    assert(text@.subrange(0, len as int) =~= text@);
    assert(decode_groups(text@) matches Some(rest) ==> Seq::<u8>::empty() + rest =~= rest);
    while i < len
        invariant
            i <= len == text@.len(),
            len % 4 == 0,
            i % 4 == 0,
            decode_groups(text@) == match decode_groups(text@.subrange(i as int, len as int)) {
                Some(rest) => Some(out@ + rest),
                None => None::<Seq<u8>>,
            },
        decreases len - i,
    {
        let ghost t = text@.subrange(i as int, len as int);
        let g = &text[i..i + 4];
        assert(g@ =~= t.subrange(0, 4));
        assert(t.subrange(4, t.len() as int) =~= text@.subrange(i + 4, len as int));
        let last = i + 4 == len;
        let ghost before = out@;
        if !decode_group_exec(g, last, &mut out) {
            return None;
        }
        proof {
            let b = decode_group(g@, last)->Some_0;
            match decode_groups(text@.subrange(i + 4, len as int)) {
                Some(rest) => { assert(before + (b + rest) =~= out@ + rest); }
                None => {}
            }
        }
        i += 4;
    }
    assert(text@.subrange(len as int, len as int) =~= Seq::<u8>::empty());
    assert(out@ + Seq::<u8>::empty() =~= out@);
    Some(out)
}

proof fn lemma_char_value(v: int)
    requires 0 <= v < 64,
    ensures b64_value(b64_char(v)) == Some(v), b64_char(v) != 0x3d,
{
}

proof fn lemma_chunk_arith(b0: int, b1: int, b2: int)
    requires 0 <= b0 < 256, 0 <= b1 < 256, 0 <= b2 < 256,
    ensures
        ({
            let n = b0 * 65536 + b1 * 256 + b2;
            let d0 = n / 262144 % 64;
            let d1 = n / 4096 % 64;
            let d2 = n / 64 % 64;
            let d3 = n % 64;
            &&& 0 <= d0 < 64 && 0 <= d1 < 64 && 0 <= d2 < 64 && 0 <= d3 < 64
            &&& ((d0 * 64 + d1) * 64 + d2) * 64 + d3 == n
            &&& n / 65536 % 256 == b0
            &&& n / 256 % 256 == b1
            &&& n % 256 == b2
            &&& (b2 == 0 ==> ((d0 * 64 + d1) * 64 + d2) * 64 == n)
            &&& (b1 == 0 && b2 == 0 ==> (d0 * 64 + d1) * 4096 == n)
        }),
{
    let n = b0 * 65536 + b1 * 256 + b2;
    assert(0 <= n < 16777216) by (nonlinear_arith)
        requires 0 <= b0 < 256, 0 <= b1 < 256, 0 <= b2 < 256, n == b0 * 65536 + b1 * 256 + b2;
    assert(n / 65536 == b0) by (nonlinear_arith)
        requires 0 <= b0 < 256, 0 <= b1 < 256, 0 <= b2 < 256, n == b0 * 65536 + b1 * 256 + b2;
    assert(n % 65536 == b1 * 256 + b2) by (nonlinear_arith)
        requires 0 <= b0 < 256, 0 <= b1 < 256, 0 <= b2 < 256, n == b0 * 65536 + b1 * 256 + b2;
    assert(n / 256 == b0 * 256 + b1) by (nonlinear_arith)
        requires 0 <= b0 < 256, 0 <= b1 < 256, 0 <= b2 < 256, n == b0 * 65536 + b1 * 256 + b2;
    assert(n % 256 == b2) by (nonlinear_arith)
        requires 0 <= b0 < 256, 0 <= b1 < 256, 0 <= b2 < 256, n == b0 * 65536 + b1 * 256 + b2;
    assert((b0 * 256 + b1) % 256 == b1) by (nonlinear_arith)
        requires 0 <= b0 < 256, 0 <= b1 < 256;
    let d0 = n / 262144 % 64;
    let d1 = n / 4096 % 64;
    let d2 = n / 64 % 64;
    let d3 = n % 64;
    assert(((d0 * 64 + d1) * 64 + d2) * 64 + d3 == n) by (nonlinear_arith)
        requires 0 <= n < 16777216, d0 == n / 262144 % 64, d1 == n / 4096 % 64, d2 == n / 64 % 64, d3 == n % 64;
    if b2 == 0 {
        assert(d3 == 0) by (nonlinear_arith)
            requires n == b0 * 65536 + b1 * 256, d3 == n % 64, 0 <= b0, 0 <= b1;
    }
    if b1 == 0 && b2 == 0 {
        assert(d2 == 0 && d3 == 0) by (nonlinear_arith)
            requires n == b0 * 65536, d2 == n / 64 % 64, d3 == n % 64, 0 <= b0 < 256;
    }
}

/// A group printed from one to three bytes decodes back to them (a
/// short group only at the end of the text).
proof fn lemma_chunk_decodes(c: Seq<u8>, last: bool)
    requires 1 <= c.len() <= 3, c.len() < 3 ==> last,
    ensures decode_group(encode_chunk(c), last) == Some(c),
{
    let g = encode_chunk(c);
    let b0 = c[0] as int;
    let b1 = if c.len() > 1 { c[1] as int } else { 0 };
    let b2 = if c.len() > 2 { c[2] as int } else { 0 };
    lemma_chunk_arith(b0, b1, b2);
    let n = b0 * 65536 + b1 * 256 + b2;
    let d0 = n / 262144 % 64;
    let d1 = n / 4096 % 64;
    let d2 = n / 64 % 64;
    let d3 = n % 64;
    lemma_char_value(d0);
    lemma_char_value(d1);
    lemma_char_value(d2);
    lemma_char_value(d3);
    assert(g[0] == b64_char(d0));
    assert(g[1] == b64_char(d1));
    assert(c.len() > 1 ==> g[2] == b64_char(d2));
    assert(c.len() <= 1 ==> g[2] == 0x3d);
    assert(c.len() > 2 ==> g[3] == b64_char(d3));
    assert(c.len() <= 2 ==> g[3] == 0x3d);
    assert(group_value(g, 0) == Some(0int));
    assert(group_value(g, 1) == Some(d0));
    assert(group_value(g, 2) == Some(d0 * 64 + d1));
    if c.len() == 3 {
        assert(group_pad(g) == 0);
        assert(group_value(g, 3) == Some((d0 * 64 + d1) * 64 + d2));
        assert(group_value(g, 4) == Some(n));
        assert(decode_group(g, last)->Some_0 =~= c);
    } else if c.len() == 2 {
        assert(group_pad(g) == 1);
        assert(group_value(g, 3) == Some((d0 * 64 + d1) * 64 + d2));
        assert(decode_group(g, last)->Some_0 =~= c);
    } else {
        assert(group_pad(g) == 2);
        assert(decode_group(g, last)->Some_0 =~= c);
    }
}

pub proof fn lemma_encode_len(b: Seq<u8>)
    ensures
        spec_encode(b).len() % 4 == 0,
        b.len() > 0 ==> spec_encode(b).len() > 0,
    decreases b.len(),
{
    if b.len() > 3 {
        lemma_encode_len(b.subrange(3, b.len() as int));
    }
}

/// Decoding what [`encode`] prints gives back the input bytes, for every
/// input.
pub proof fn lemma_base64_round_trip(b: Seq<u8>)
    ensures
        spec_decode(spec_encode(b)) == Some(b),
        spec_encode(b).len() % 4 == 0,
    decreases b.len(),
{
    lemma_encode_len(b);
    lemma_groups_round_trip(b);
}

#[verifier::spinoff_prover]
proof fn lemma_groups_round_trip(b: Seq<u8>)
    ensures decode_groups(spec_encode(b)) == Some(b),
    decreases b.len(),
{
    let t = spec_encode(b);
    if b.len() == 0 {
        assert(b =~= Seq::<u8>::empty());
    } else if b.len() <= 3 {
        lemma_chunk_decodes(b, true);
        assert(t == encode_chunk(b));
        assert(t.len() == 4);
        assert(t.subrange(0, 4) =~= t);
        assert(t.subrange(4, 4) =~= Seq::<u8>::empty());
        assert(decode_groups(t.subrange(4, 4)) == Some(Seq::<u8>::empty()));
        assert(b + Seq::<u8>::empty() =~= b);
    } else {
        let c = b.subrange(0, 3);
        let rest = b.subrange(3, b.len() as int);
        let ec = encode_chunk(c);
        let er = spec_encode(rest);
        lemma_encode_len(rest);
        lemma_chunk_decodes(c, false);
        lemma_groups_round_trip(rest);
        assert(t == ec + er);
        assert(er.len() > 0);
        assert(t.len() > 4);
        assert(t.subrange(0, 4) =~= ec);
        assert(t.subrange(4, t.len() as int) =~= er);
        assert(decode_group(t.subrange(0, 4), t.len() == 4) == Some(c));
        assert(decode_groups(er) == Some(rest));
        assert(decode_groups(t) == Some(c + rest));
        assert(c + rest =~= b);
    }
}

} // verus!
