//! Binary FBX container reader.
//!
//! Parses the 27-byte header and the recursive Node Record tree into the
//! typed [`FbxNode`] tree. Headers carry a 32-bit `Version` at offset 23;
//! for `Version >= 7500` the per-record `EndOffset`, `NumProperties` and
//! `PropertyListLen` fields widen from 32 to 64 bits.

use vstd::prelude::*;
use crate::bytes::{
    all_zero, copy_range, i16_of, i32_of, i64_of, is_zero_run, le_u16, le_u32, le_u64,
    lemma_le_bounds, lemma_le_bounds4, read_u16, read_u32, read_u64, read_u8, to_i16, to_i32, to_i64,
};
use crate::error::{FbxError, ReadWidth};
use crate::inflate::{inflate_zlib_capped, zlib_inflate_capped};
use vstd::string::StringSliceAdditionalSpecFns;
use crate::model::{
    doc_view, node_view, nodes_view, props_view, reals_view, root_v, DocV, FbxDocument, FbxNode,
    FbxProperty, FbxReal, NodeV, PropV, RealV,
};

verus! {

// ---------------------------------------------------------------------
// Property records
// ---------------------------------------------------------------------

pub open spec fn u32s_of(d: Seq<u8>) -> Seq<u32> {
    Seq::new(d.len() / 4, |i: int| le_u32(d, 4 * i) as u32)
}

pub open spec fn i32s_of(d: Seq<u8>) -> Seq<i32> {
    Seq::new(d.len() / 4, |i: int| i32_of(le_u32(d, 4 * i)))
}

pub open spec fn reals_of(d: Seq<u8>) -> Seq<RealV> {
    Seq::new(d.len() / 8, |i: int| RealV::Bits(le_u64(d, 8 * i) as u64))
}

pub open spec fn i64s_of(d: Seq<u8>) -> Seq<i64> {
    Seq::new(d.len() / 8, |i: int| i64_of(le_u64(d, 8 * i)))
}

pub open spec fn bools_of(d: Seq<u8>) -> Seq<bool> {
    Seq::new(d.len(), |i: int| d[i] != 0)
}

/// The array-record payload at `off` (`ArrayLength`, `Encoding`,
/// `CompressedLength`, contents) for elements of `elem` bytes: the
/// uncompressed contents and the offset just past the record.
pub open spec fn spec_read_array(b: Seq<u8>, off: int, elem: int) -> Result<(Seq<u8>, int), FbxError> {
    if off + 4 > b.len() || off + 8 > b.len() || off + 12 > b.len() {
        Err(FbxError::ReadPastEof(ReadWidth::U32))
    } else {
        let al = le_u32(b, off);
        let enc = le_u32(b, off + 4);
        let cl = le_u32(b, off + 8);
        let po = off + 12;
        if al * elem > usize::MAX {
            Err(FbxError::ArrayLengthOverflow)
        } else if enc == 0 {
            if po + al * elem > b.len() {
                Err(FbxError::ArrayPastEof)
            } else {
                Ok((b.subrange(po, po + al * elem), po + al * elem))
            }
        } else if enc == 1 {
            if po + cl > b.len() {
                Err(FbxError::CompressedArrayPastEof)
            } else {
                match zlib_inflate_capped(b.subrange(po, po + cl), (al * elem) as u64) {
                    None => Err(FbxError::InflateFailed),
                    Some(d) => if d.len() != al * elem {
                        Err(FbxError::InflatedLengthMismatch)
                    } else {
                        Ok((d, po + cl))
                    },
                }
            }
        } else {
            Err(FbxError::UnknownArrayEncoding(enc as u32))
        }
    }
}

/// A typed array property decoded from the array record at `off`.
pub open spec fn spec_read_typed_array(b: Seq<u8>, off: int, code: u8) -> Result<(PropV, int), FbxError> {
    let elem: int = if code == 0x66 || code == 0x69 { 4 } else if code == 0x64 || code == 0x6c { 8 } else { 1 };
    match spec_read_array(b, off, elem) {
        Err(e) => Err(e),
        Ok((d, next)) => Ok((
            if code == 0x66 {
                PropV::F32Array(u32s_of(d))
            } else if code == 0x64 {
                PropV::F64Array(reals_of(d))
            } else if code == 0x6c {
                PropV::I64Array(i64s_of(d))
            } else if code == 0x69 {
                PropV::I32Array(i32s_of(d))
            } else if code == 0x62 {
                PropV::BoolArray(bools_of(d))
            } else {
                PropV::ByteArray(d)
            },
            next,
        )),
    }
}

/// A length-prefixed `S` / `R` payload at `p`.
pub open spec fn spec_read_blob(b: Seq<u8>, p: int, past_eof: FbxError) -> Result<(Seq<u8>, int), FbxError> {
    if p + 4 > b.len() {
        Err(FbxError::ReadPastEof(ReadWidth::U32))
    } else {
        let n = le_u32(b, p);
        if p + 4 + n > b.len() {
            Err(past_eof)
        } else {
            Ok((b.subrange(p + 4, p + 4 + n), p + 4 + n))
        }
    }
}

/// The `C` boolean: the ASCII `T` token byte is true; otherwise the
/// least significant bit decides.
pub open spec fn bool_of_byte(raw: u8) -> bool {
    raw == 0x54 || raw % 2 == 1
}

/// One property record at `off`: the decoded property and the offset
/// just past it.
pub open spec fn spec_read_property(b: Seq<u8>, off: int) -> Result<(PropV, int), FbxError> {
    if off + 1 > b.len() {
        Err(FbxError::ReadPastEof(ReadWidth::U8))
    } else {
        let code = b[off];
        let p = off + 1;
        if code == 0x59 {
            if p + 2 > b.len() { Err(FbxError::ReadPastEof(ReadWidth::I16)) }
            else { Ok((PropV::I16(i16_of(le_u16(b, p))), p + 2)) }
        } else if code == 0x43 {
            if p + 1 > b.len() { Err(FbxError::ReadPastEof(ReadWidth::U8)) }
            else { Ok((PropV::Bool(bool_of_byte(b[p])), p + 1)) }
        } else if code == 0x49 {
            if p + 4 > b.len() { Err(FbxError::ReadPastEof(ReadWidth::U32)) }
            else { Ok((PropV::I32(i32_of(le_u32(b, p))), p + 4)) }
        } else if code == 0x46 {
            if p + 4 > b.len() { Err(FbxError::ReadPastEof(ReadWidth::U32)) }
            else { Ok((PropV::F32(le_u32(b, p) as u32), p + 4)) }
        } else if code == 0x44 {
            if p + 8 > b.len() { Err(FbxError::ReadPastEof(ReadWidth::U64)) }
            else { Ok((PropV::F64(RealV::Bits(le_u64(b, p) as u64)), p + 8)) }
        } else if code == 0x4c {
            if p + 8 > b.len() { Err(FbxError::ReadPastEof(ReadWidth::U64)) }
            else { Ok((PropV::I64(i64_of(le_u64(b, p))), p + 8)) }
        } else if code == 0x66 || code == 0x64 || code == 0x6c || code == 0x69 || code == 0x62 || code == 0x63 {
            spec_read_typed_array(b, p, code)
        } else if code == 0x53 {
            match spec_read_blob(b, p, FbxError::StringPastEof) {
                Err(e) => Err(e),
                Ok((s, next)) => Ok((PropV::Str(s), next)),
            }
        } else if code == 0x52 {
            match spec_read_blob(b, p, FbxError::RawPastEof) {
                Err(e) => Err(e),
                Ok((s, next)) => Ok((PropV::Raw(s), next)),
            }
        } else {
            Err(FbxError::UnknownPropertyType(code))
        }
    }
}

pub open spec fn bytes_res_view(r: Result<(Vec<u8>, usize), FbxError>) -> Result<(Seq<u8>, int), FbxError> {
    match r {
        Ok((v, n)) => Ok((v@, n as int)),
        Err(e) => Err(e),
    }
}

pub open spec fn prop_res_view(r: Result<(FbxProperty, usize), FbxError>) -> Result<(PropV, int), FbxError> {
    match r {
        Ok((p, n)) => Ok((p.view_prop(), n as int)),
        Err(e) => Err(e),
    }
}

fn read_array_payload(bytes: &[u8], off: usize, elem_bytes: usize) -> (r: Result<(Vec<u8>, usize), FbxError>)
    requires
        off <= bytes@.len(),
        elem_bytes == 1 || elem_bytes == 4 || elem_bytes == 8,
    ensures
        bytes_res_view(r) == spec_read_array(bytes@, off as int, elem_bytes as int),
        r matches Ok((_, next)) ==> off < next <= bytes@.len(),
{
    let len = bytes.len();
    let array_length = read_u32(bytes, off, 0)? as usize;
    let encoding = read_u32(bytes, off, 4)?;
    let comp_length = read_u32(bytes, off, 8)? as usize;
    let payload_off = off + 12;
    proof {
        lemma_le_bounds4(bytes@, off as int);
        lemma_le_bounds4(bytes@, off + 4);
        lemma_le_bounds4(bytes@, off + 8);
    }
    let raw_size = match array_length.checked_mul(elem_bytes) {
        Some(n) => n,
        None => { return Err(FbxError::ArrayLengthOverflow); }
    };
    if encoding == 0 {
        if raw_size > len - payload_off {
            return Err(FbxError::ArrayPastEof);
        }
        let out = copy_range(bytes, payload_off, raw_size);
        Ok((out, payload_off + raw_size))
    } else if encoding == 1 {
        if comp_length > len - payload_off {
            return Err(FbxError::CompressedArrayPastEof);
        }
        let comp = &bytes[payload_off..payload_off + comp_length];
        let inflated = match inflate_zlib_capped(comp, raw_size as u64) {
            Ok(v) => v,
            Err(_) => { return Err(FbxError::InflateFailed); }
        };
        if inflated.len() != raw_size {
            return Err(FbxError::InflatedLengthMismatch);
        }
        Ok((inflated, payload_off + comp_length))
    } else {
        Err(FbxError::UnknownArrayEncoding(encoding))
    }
}

fn decode_u32s(d: &Vec<u8>) -> (r: Vec<u32>)
    ensures r@ == u32s_of(d@),
{
    let n = d.len() / 4;
    let mut out: Vec<u32> = Vec::new();
    let mut i: usize = 0;
    while i < n
        invariant
            n == d@.len() / 4,
            d@.len() <= usize::MAX,
            i <= n,
            out@ =~= Seq::new(i as nat, |k: int| le_u32(d@, 4 * k) as u32),
        decreases n - i,
    {
        proof { assert(4 * i + 4 <= d@.len()) by (nonlinear_arith) requires i < n, n == d@.len() / 4; }
        let v = read_u32(d.as_slice(), 4 * i, 0);
        match v {
            Ok(x) => { out.push(x); }
            Err(_) => { assert(false); }
        }
        i += 1;
    }
    out
}

fn decode_i32s(d: &Vec<u8>) -> (r: Vec<i32>)
    ensures r@ == i32s_of(d@),
{
    let n = d.len() / 4;
    let mut out: Vec<i32> = Vec::new();
    let mut i: usize = 0;
    while i < n
        invariant
            n == d@.len() / 4,
            d@.len() <= usize::MAX,
            i <= n,
            out@ =~= Seq::new(i as nat, |k: int| i32_of(le_u32(d@, 4 * k))),
        decreases n - i,
    {
        proof { assert(4 * i + 4 <= d@.len()) by (nonlinear_arith) requires i < n, n == d@.len() / 4; }
        let v = read_u32(d.as_slice(), 4 * i, 0);
        match v {
            Ok(x) => { proof { lemma_le_bounds4(d@, 4 * i); } out.push(to_i32(x)); }
            Err(_) => { assert(false); }
        }
        i += 1;
    }
    out
}

fn decode_reals(d: &Vec<u8>) -> (r: Vec<FbxReal>)
    ensures reals_view(r@) == reals_of(d@),
{
    let n = d.len() / 8;
    let mut out: Vec<FbxReal> = Vec::new();
    let mut i: usize = 0;
    while i < n
        invariant
            n == d@.len() / 8,
            d@.len() <= usize::MAX,
            i <= n,
            reals_view(out@) =~= Seq::new(i as nat, |k: int| RealV::Bits(le_u64(d@, 8 * k) as u64)),
        decreases n - i,
    {
        proof { assert(8 * i + 8 <= d@.len()) by (nonlinear_arith) requires i < n, n == d@.len() / 8; }
        let v = read_u64(d.as_slice(), 8 * i, 0);
        match v {
            Ok(x) => {
                let ghost old_out = out@;
                out.push(FbxReal::Bits(x));
                assert(reals_view(out@) =~= reals_view(old_out).push(RealV::Bits(x)));
            }
            Err(_) => { assert(false); }
        }
        i += 1;
    }
    out
}

fn decode_i64s(d: &Vec<u8>) -> (r: Vec<i64>)
    ensures r@ == i64s_of(d@),
{
    let n = d.len() / 8;
    let mut out: Vec<i64> = Vec::new();
    let mut i: usize = 0;
    while i < n
        invariant
            n == d@.len() / 8,
            d@.len() <= usize::MAX,
            i <= n,
            out@ =~= Seq::new(i as nat, |k: int| i64_of(le_u64(d@, 8 * k))),
        decreases n - i,
    {
        proof { assert(8 * i + 8 <= d@.len()) by (nonlinear_arith) requires i < n, n == d@.len() / 8; }
        let v = read_u64(d.as_slice(), 8 * i, 0);
        match v {
            Ok(x) => { proof { lemma_le_bounds(d@, 8 * i); } out.push(to_i64(x)); }
            Err(_) => { assert(false); }
        }
        i += 1;
    }
    out
}

fn decode_bools(d: &Vec<u8>) -> (r: Vec<bool>)
    ensures r@ == bools_of(d@),
{
    let n = d.len();
    let mut out: Vec<bool> = Vec::new();
    let mut i: usize = 0;
    while i < n
        invariant
            n == d@.len(),
            i <= n,
            out@ =~= Seq::new(i as nat, |k: int| d@[k] != 0),
        decreases n - i,
    {
        out.push(d[i] != 0);
        i += 1;
    }
    out
}

fn read_blob(bytes: &[u8], p: usize, past_eof: FbxError) -> (r: Result<(Vec<u8>, usize), FbxError>)
    requires p <= bytes@.len(),
    ensures
        bytes_res_view(r) == spec_read_blob(bytes@, p as int, past_eof),
        r matches Ok((_, next)) ==> p < next <= bytes@.len(),
{
    let len = bytes.len();
    let n = read_u32(bytes, p, 0)? as usize;
    proof { lemma_le_bounds4(bytes@, p as int); }
    let start = p + 4;
    if n > bytes.len() - start {
        return Err(past_eof);
    }
    let out = copy_range(bytes, start, n);
    Ok((out, start + n))
}

/// Read one property record at `bytes[off]`: the decoded property and
/// the offset just past it.
fn read_property(bytes: &[u8], off: usize) -> (r: Result<(FbxProperty, usize), FbxError>)
    ensures
        prop_res_view(r) == spec_read_property(bytes@, off as int),
        r matches Ok((_, next)) ==> off < next <= bytes@.len(),
{
    let len = bytes.len();
    let code = read_u8(bytes, off, 0)?;
    let p = off + 1;
    if code == 0x59 {
        let v = read_u16(bytes, p, 0, ReadWidth::I16)?;
        Ok((FbxProperty::I16(to_i16(v)), p + 2))
    } else if code == 0x43 {
        let raw = read_u8(bytes, p, 0)?;
        Ok((FbxProperty::Bool(raw == 0x54 || raw % 2 == 1), p + 1))
    } else if code == 0x49 {
        let v = read_u32(bytes, p, 0)?;
        proof { lemma_le_bounds4(bytes@, p as int); }
        Ok((FbxProperty::I32(to_i32(v)), p + 4))
    } else if code == 0x46 {
        let v = read_u32(bytes, p, 0)?;
        Ok((FbxProperty::F32(v), p + 4))
    } else if code == 0x44 {
        let v = read_u64(bytes, p, 0)?;
        Ok((FbxProperty::F64(FbxReal::Bits(v)), p + 8))
    } else if code == 0x4c {
        let v = read_u64(bytes, p, 0)?;
        proof { lemma_le_bounds(bytes@, p as int); }
        Ok((FbxProperty::I64(to_i64(v)), p + 8))
    } else if code == 0x66 {
        let (data, next) = read_array_payload(bytes, p, 4)?;
        Ok((FbxProperty::F32Array(decode_u32s(&data)), next))
    } else if code == 0x64 {
        let (data, next) = read_array_payload(bytes, p, 8)?;
        Ok((FbxProperty::F64Array(decode_reals(&data)), next))
    } else if code == 0x6c {
        let (data, next) = read_array_payload(bytes, p, 8)?;
        Ok((FbxProperty::I64Array(decode_i64s(&data)), next))
    } else if code == 0x69 {
        let (data, next) = read_array_payload(bytes, p, 4)?;
        Ok((FbxProperty::I32Array(decode_i32s(&data)), next))
    } else if code == 0x62 {
        let (data, next) = read_array_payload(bytes, p, 1)?;
        Ok((FbxProperty::BoolArray(decode_bools(&data)), next))
    } else if code == 0x63 {
        let (data, next) = read_array_payload(bytes, p, 1)?;
        Ok((FbxProperty::ByteArray(data), next))
    } else if code == 0x53 {
        let (s, next) = read_blob(bytes, p, FbxError::StringPastEof)?;
        Ok((FbxProperty::String(s), next))
    } else if code == 0x52 {
        let (s, next) = read_blob(bytes, p, FbxError::RawPastEof)?;
        Ok((FbxProperty::Raw(s), next))
    } else {
        Err(FbxError::UnknownPropertyType(code))
    }
}


// ---------------------------------------------------------------------
// Array payload laws
// ---------------------------------------------------------------------

/// The unsigned little-endian value of the `k` bytes of `d` at `o`: the
/// first byte is the least significant.
pub open spec fn le_word(d: Seq<u8>, o: int, k: nat) -> int
    decreases k,
{
    if k == 0 { 0 } else { d[o] as int + 256 * le_word(d, o + 1, (k - 1) as nat) }
}

proof fn lemma_le_word_bounds(d: Seq<u8>, o: int, k: nat)
    ensures 0 <= le_word(d, o, k) < vstd::arithmetic::power2::pow2(8 * k),
    decreases k,
{
    vstd::arithmetic::power2::lemma2_to64();
    if k > 0 {
        let m: nat = (8 * (k - 1)) as nat;
        lemma_le_word_bounds(d, o + 1, (k - 1) as nat);
        vstd::arithmetic::power2::lemma_pow2_adds(8, m);
        let r = le_word(d, o + 1, (k - 1) as nat);
        let p = vstd::arithmetic::power2::pow2(m);
        assert(d[o] as int + 256 * r < 256 * p) by (nonlinear_arith)
            requires 0 <= d[o] < 256, r < p, 0 <= r;
        assert(0 <= d[o] as int + 256 * r) by (nonlinear_arith) requires 0 <= r, 0 <= d[o];
        assert((8 + m) as nat == 8 * k);
    }
}

proof fn lemma_le_word_4(d: Seq<u8>, o: int)
    ensures le_word(d, o, 4) == le_u32(d, o),
{
    reveal_with_fuel(le_word, 5);
}

proof fn lemma_le_word_8(d: Seq<u8>, o: int)
    ensures le_word(d, o, 8) == le_u64(d, o),
{
    reveal_with_fuel(le_word, 9);
}

proof fn lemma_word_in_payload(len: int, i: int, w: int)
    requires 0 <= i < len / w, w > 0,
    ensures w * i + w <= len, 0 <= w * i,
{
    assert(w * i + w <= len) by (nonlinear_arith) requires 0 <= i < len / w, w > 0;
    assert(0 <= w * i) by (nonlinear_arith) requires 0 <= i, w > 0;
}

/// A `d` array payload of `8n` bytes (or more) holds `n` doubles, and
/// double `i` is the bit pattern of the eight bytes at `8i`, least
/// significant first.
pub proof fn lemma_double_array_payload(d: Seq<u8>)
    ensures
        reals_of(d).len() == d.len() / 8,
        forall|i: int| 0 <= i < d.len() / 8 ==> #[trigger] reals_of(d)[i] == RealV::Bits(le_word(d, 8 * i, 8) as u64),
        forall|i: int| 0 <= i < d.len() / 8 ==> 0 <= #[trigger] le_word(d, 8 * i, 8) < 0x1_0000_0000_0000_0000,
{
    assert forall|i: int| 0 <= i < d.len() / 8 implies #[trigger] reals_of(d)[i] == RealV::Bits(le_word(d, 8 * i, 8) as u64) by {
        lemma_le_word_8(d, 8 * i);
    }
    assert forall|i: int| 0 <= i < d.len() / 8 implies 0 <= #[trigger] le_word(d, 8 * i, 8) < 0x1_0000_0000_0000_0000 by {
        lemma_le_word_bounds(d, 8 * i, 8);
        vstd::arithmetic::power2::lemma2_to64();
        vstd::arithmetic::power2::lemma2_to64_rest();
    }
}

/// An `l` array payload holds the two's-complement readings of its
/// consecutive eight-byte words, least significant byte first.
pub proof fn lemma_long_array_payload(d: Seq<u8>)
    ensures
        i64s_of(d).len() == d.len() / 8,
        forall|i: int| 0 <= i < d.len() / 8 ==> #[trigger] i64s_of(d)[i] as int == (if le_word(d, 8 * i, 8) < 0x8000_0000_0000_0000 {
            le_word(d, 8 * i, 8)
        } else {
            le_word(d, 8 * i, 8) - 0x1_0000_0000_0000_0000
        }),
{
    assert forall|i: int| 0 <= i < d.len() / 8 implies #[trigger] i64s_of(d)[i] as int == (if le_word(d, 8 * i, 8) < 0x8000_0000_0000_0000 {
            le_word(d, 8 * i, 8)
        } else {
            le_word(d, 8 * i, 8) - 0x1_0000_0000_0000_0000
        }) by {
        lemma_le_word_8(d, 8 * i);
        lemma_le_word_bounds(d, 8 * i, 8);
        vstd::arithmetic::power2::lemma2_to64();
        vstd::arithmetic::power2::lemma2_to64_rest();
    }
}

/// An `i` array payload holds the two's-complement readings of its
/// consecutive four-byte words; an `f` array payload holds those words
/// as single-precision bit patterns.
pub proof fn lemma_word_array_payloads(d: Seq<u8>)
    ensures
        i32s_of(d).len() == d.len() / 4,
        u32s_of(d).len() == d.len() / 4,
        forall|i: int| 0 <= i < d.len() / 4 ==> #[trigger] u32s_of(d)[i] as int == le_word(d, 4 * i, 4),
        forall|i: int| 0 <= i < d.len() / 4 ==> #[trigger] i32s_of(d)[i] as int == (if le_word(d, 4 * i, 4) < 0x8000_0000 {
            le_word(d, 4 * i, 4)
        } else {
            le_word(d, 4 * i, 4) - 0x1_0000_0000
        }),
{
    assert forall|i: int| 0 <= i < d.len() / 4 implies #[trigger] u32s_of(d)[i] as int == le_word(d, 4 * i, 4) by {
        lemma_le_word_4(d, 4 * i);
        lemma_le_word_bounds(d, 4 * i, 4);
        vstd::arithmetic::power2::lemma2_to64();
    }
    assert forall|i: int| 0 <= i < d.len() / 4 implies #[trigger] i32s_of(d)[i] as int == (if le_word(d, 4 * i, 4) < 0x8000_0000 {
            le_word(d, 4 * i, 4)
        } else {
            le_word(d, 4 * i, 4) - 0x1_0000_0000
        }) by {
        lemma_le_word_4(d, 4 * i);
        lemma_le_word_bounds(d, 4 * i, 4);
        vstd::arithmetic::power2::lemma2_to64();
    }
}

/// A `b` array payload holds one boolean per byte: true exactly when
/// the byte is not zero.
pub proof fn lemma_bool_array_payload(d: Seq<u8>)
    ensures
        bools_of(d).len() == d.len(),
        forall|i: int| 0 <= i < d.len() ==> (#[trigger] bools_of(d)[i] <==> d[i] != 0u8),
{
}


/// The element width of an array type code, by the container format:
/// `f` and `i` four bytes, `d` and `l` eight, `b` one.
pub open spec fn array_code_width(code: u8) -> int {
    if code == 0x66u8 || code == 0x69u8 { 4 } else if code == 0x64u8 || code == 0x6cu8 { 8 } else { 1 }
}

/// A raw (encoding `0`) array record of `n` elements: its elements are
/// the consecutive words of its `n` times width payload bytes, decoded
/// by type code — `d` as double bit patterns, `f` as single bit
/// patterns, `l` and `i` as two's-complement integers, `b` as nonzero
/// bytes — and reading resumes just past the payload.
pub proof fn lemma_raw_array_record(b: Seq<u8>, off: int)
    requires
        0 <= off,
        off + 13 <= b.len(),
        b[off] == 0x64u8 || b[off] == 0x66u8 || b[off] == 0x6cu8 || b[off] == 0x69u8 || b[off] == 0x62u8,
        le_word(b, off + 5, 4) == 0,
        le_word(b, off + 1, 4) * array_code_width(b[off]) <= usize::MAX,
        off + 13 + le_word(b, off + 1, 4) * array_code_width(b[off]) <= b.len(),
    ensures ({
        let n = le_word(b, off + 1, 4);
        let w = array_code_width(b[off]);
        let d = b.subrange(off + 13, off + 13 + n * w);
        let code = b[off];
        &&& spec_read_property(b, off) matches Ok((p, next)) && next == off + 13 + n * w && {
            &&& code == 0x64u8 ==> (p matches PropV::F64Array(v) && v.len() == n
                && forall|i: int| 0 <= i < n ==> #[trigger] v[i] == RealV::Bits(le_word(d, 8 * i, 8) as u64))
            &&& code == 0x66u8 ==> (p matches PropV::F32Array(v) && v.len() == n
                && forall|i: int| 0 <= i < n ==> #[trigger] v[i] as int == le_word(d, 4 * i, 4))
            &&& code == 0x6cu8 ==> (p matches PropV::I64Array(v) && v.len() == n
                && forall|i: int| 0 <= i < n ==> #[trigger] v[i] as int == (if le_word(d, 8 * i, 8) < 0x8000_0000_0000_0000 {
                    le_word(d, 8 * i, 8) } else { le_word(d, 8 * i, 8) - 0x1_0000_0000_0000_0000 }))
            &&& code == 0x69u8 ==> (p matches PropV::I32Array(v) && v.len() == n
                && forall|i: int| 0 <= i < n ==> #[trigger] v[i] as int == (if le_word(d, 4 * i, 4) < 0x8000_0000 {
                    le_word(d, 4 * i, 4) } else { le_word(d, 4 * i, 4) - 0x1_0000_0000 }))
            &&& code == 0x62u8 ==> (p matches PropV::BoolArray(v) && v.len() == n
                && forall|i: int| 0 <= i < n ==> (#[trigger] v[i] <==> d[i] != 0u8))
        }
    }),
{
    let n = le_word(b, off + 1, 4);
    let w = array_code_width(b[off]);
    lemma_le_word_4(b, off + 1);
    lemma_le_word_4(b, off + 5);
    lemma_le_word_bounds(b, off + 1, 4);
    vstd::arithmetic::power2::lemma2_to64();
    let d = b.subrange(off + 13, off + 13 + n * w);
    assert(0 <= n * w) by (nonlinear_arith) requires 0 <= n, 0 < w;
    assert(d.len() == n * w);
    assert((d.len() as int) / w == n) by (nonlinear_arith) requires d.len() as int == n * w, 0 < w, 0 <= n;
    lemma_double_array_payload(d);
    lemma_long_array_payload(d);
    lemma_word_array_payloads(d);
    lemma_bool_array_payload(d);
}

/// A scalar property record reads the bytes after its type code as the
/// container format lays them out: `Y` two bytes, `C` one, `I` and `F`
/// four, `D` and `L` eight, least significant first (integers in two's
/// complement, `C` true for `T` or an odd byte), resuming just past them.
pub proof fn lemma_scalar_record(b: Seq<u8>, off: int)
    requires 0 <= off, off + 9 <= b.len(),
    ensures
        b[off] == 0x59u8 ==> spec_read_property(b, off) == Ok::<(PropV, int), FbxError>((PropV::I16(
            (if le_word(b, off + 1, 2) < 0x8000 { le_word(b, off + 1, 2) } else { le_word(b, off + 1, 2) - 0x1_0000 }) as i16), off + 3)),
        b[off] == 0x43u8 ==> spec_read_property(b, off) == Ok::<(PropV, int), FbxError>((PropV::Bool(b[off + 1] == 0x54u8 || b[off + 1] % 2 == 1), off + 2)),
        b[off] == 0x49u8 ==> spec_read_property(b, off) == Ok::<(PropV, int), FbxError>((PropV::I32(
            (if le_word(b, off + 1, 4) < 0x8000_0000 { le_word(b, off + 1, 4) } else { le_word(b, off + 1, 4) - 0x1_0000_0000 }) as i32), off + 5)),
        b[off] == 0x46u8 ==> spec_read_property(b, off) == Ok::<(PropV, int), FbxError>((PropV::F32(le_word(b, off + 1, 4) as u32), off + 5)),
        b[off] == 0x44u8 ==> spec_read_property(b, off) == Ok::<(PropV, int), FbxError>((PropV::F64(RealV::Bits(le_word(b, off + 1, 8) as u64)), off + 9)),
        b[off] == 0x4cu8 ==> spec_read_property(b, off) == Ok::<(PropV, int), FbxError>((PropV::I64(
            (if le_word(b, off + 1, 8) < 0x8000_0000_0000_0000 { le_word(b, off + 1, 8) } else { le_word(b, off + 1, 8) - 0x1_0000_0000_0000_0000 }) as i64), off + 9)),
{
    reveal_with_fuel(le_word, 3);
    lemma_le_word_4(b, off + 1);
    lemma_le_word_8(b, off + 1);
}

} // verus!

verus! {

// ---------------------------------------------------------------------
// Node records
// ---------------------------------------------------------------------

/// Maximum Node Record nesting depth the reader accepts.
pub const MAX_NODE_DEPTH: usize = 128;

/// Version threshold for the 64-bit Node Record layout.
pub const FBX_VERSION_64BIT_THRESHOLD: u32 = 7500;

/// Total header length: 21-byte magic + 2-byte tail + 4-byte version.
pub const FBX_HEADER_BYTES: usize = 27;

/// The record header (`EndOffset`, `NumProperties`, `PropertyListLen`)
/// at `off`, each field taken as a `usize`.
pub open spec fn spec_read_header(b: Seq<u8>, off: int, use64: bool) -> Result<(usize, usize, usize), FbxError> {
    if use64 {
        if off + 24 > b.len() {
            Err(FbxError::ReadPastEof(ReadWidth::U64))
        } else {
            Ok((
                (le_u64(b, off) as u64) as usize,
                (le_u64(b, off + 8) as u64) as usize,
                (le_u64(b, off + 16) as u64) as usize,
            ))
        }
    } else {
        if off + 12 > b.len() {
            Err(FbxError::ReadPastEof(ReadWidth::U32))
        } else {
            Ok((
                (le_u32(b, off) as u32) as usize,
                (le_u32(b, off + 4) as u32) as usize,
                (le_u32(b, off + 8) as u32) as usize,
            ))
        }
    }
}

/// `count` consecutive property records starting at `p`.
pub open spec fn spec_read_props(b: Seq<u8>, p: int, count: nat) -> Result<(Seq<PropV>, int), FbxError>
    decreases count,
{
    if count == 0 {
        Ok((Seq::empty(), p))
    } else {
        match spec_read_property(b, p) {
            Err(e) => Err(e),
            Ok((pr, next)) => match spec_read_props(b, next, (count - 1) as nat) {
                Err(e) => Err(e),
                Ok((rest, end)) => Ok((seq![pr] + rest, end)),
            },
        }
    }
}

pub open spec fn null_record_len(use64: bool) -> int {
    if use64 { 25 } else { 13 }
}

pub open spec fn header_len(use64: bool) -> int {
    if use64 { 24 } else { 12 }
}

/// The fixed part of the Node Record at `off`: EndOffset,
/// NumProperties, PropertyListLen, and the offset just past the name.
pub open spec fn spec_read_node_head(b: Seq<u8>, off: int, use64: bool) -> Result<(usize, usize, usize, int), FbxError> {
    match spec_read_header(b, off, use64) {
        Err(e) => Err(e),
        Ok((eo, np, pl)) => {
            let p = off + header_len(use64);
            if eo == 0 {
                Err(FbxError::NullRecordEntered)
            } else if eo > b.len() {
                Err(FbxError::EndOffsetPastEof)
            } else if p + 1 > b.len() {
                Err(FbxError::ReadPastEof(ReadWidth::U8))
            } else if p + 1 + b[p] > b.len() {
                Err(FbxError::NamePastEof)
            } else if !vstd::utf8::valid_utf8(b.subrange(p + 1, p + 1 + b[p])) {
                Err(FbxError::NameNotUtf8)
            } else {
                Ok((eo, np, pl, p + 1 + b[p]))
            }
        },
    }
}

/// One Node Record at `off` nested at `depth`: the node and the offset
/// just past it (its EndOffset).
pub open spec fn spec_read_node(b: Seq<u8>, off: int, use64: bool, depth: int) -> Result<(NodeV, int), FbxError>
    decreases 128 - depth, 2int, 0int,
{
    if depth >= 128 {
        Err(FbxError::NestingTooDeep)
    } else {
        match spec_read_node_head(b, off, use64) {
            Err(e) => Err(e),
            Ok((eo, np, pl, q)) => match spec_read_props(b, q, np as nat) {
                Err(e) => Err(e),
                Ok((props, r)) => if r - q != pl {
                    Err(FbxError::PropertyListLenMismatch)
                } else {
                    match spec_read_body(b, r, eo as int, use64, depth) {
                        Err(e) => Err(e),
                        Ok(cs) => Ok((
                            NodeV {
                                name: b.subrange(off + header_len(use64) + 1, q),
                                properties: props,
                                children: cs,
                            },
                            eo as int,
                        )),
                    }
                },
            },
        }
    }
}

/// The part of a node after its properties, from `r` to its EndOffset
/// `eo`: a nested list when bytes remain, which must end exactly at `eo`.
pub open spec fn spec_read_body(b: Seq<u8>, r: int, eo: int, use64: bool, depth: int) -> Result<Seq<NodeV>, FbxError>
    decreases 128 - depth, 1int, 0int,
{
    if r < eo {
        match spec_read_children(b, r, eo, use64, depth) {
            Err(e) => Err(e),
            Ok((cs, s)) => if s != eo { Err(FbxError::EndOffsetMismatch) } else { Ok(cs) },
        }
    } else if r != eo {
        Err(FbxError::EndOffsetMismatch)
    } else {
        Ok(Seq::empty())
    }
}

/// The nested list of a node at `depth`, starting at `p` and bounded by
/// the node's EndOffset `eo`: the children and the offset just past the
/// list's NULL record.
pub open spec fn spec_read_children(b: Seq<u8>, p: int, eo: int, use64: bool, depth: int) -> Result<(Seq<NodeV>, int), FbxError>
    decreases 128 - depth, 0int, b.len() - p,
{
    if depth >= 128 {
        Err(FbxError::NestingTooDeep)
    } else if p + null_record_len(use64) > eo {
        Err(FbxError::NestedListOverrun)
    } else if all_zero(b, p, null_record_len(use64)) {
        Ok((Seq::empty(), p + null_record_len(use64)))
    } else {
        match spec_read_node(b, p, use64, depth + 1) {
            Err(e) => Err(e),
            Ok((c, next)) => if next <= p || next > b.len() {
                Err(FbxError::NestedListOverrun)
            } else {
                match spec_read_children(b, next, eo, use64, depth) {
                    Err(e) => Err(e),
                    Ok((cs, s)) => Ok((seq![c] + cs, s)),
                }
            },
        }
    }
}

pub open spec fn node_res_view(r: Result<(FbxNode, usize), FbxError>) -> Result<(NodeV, int), FbxError> {
    match r {
        Ok((n, next)) => Ok((node_view(n), next as int)),
        Err(e) => Err(e),
    }
}

pub open spec fn prepend_nodes(acc: Seq<NodeV>, r: Result<(Seq<NodeV>, int), FbxError>) -> Result<(Seq<NodeV>, int), FbxError> {
    match r {
        Ok((cs, s)) => Ok((acc + cs, s)),
        Err(e) => Err(e),
    }
}

pub open spec fn prepend_props(acc: Seq<PropV>, r: Result<(Seq<PropV>, int), FbxError>) -> Result<(Seq<PropV>, int), FbxError> {
    match r {
        Ok((ps, s)) => Ok((acc + ps, s)),
        Err(e) => Err(e),
    }
}

fn read_header(bytes: &[u8], off: usize, use_64bit: bool) -> (r: Result<(usize, usize, usize), FbxError>)
    ensures
        r == spec_read_header(bytes@, off as int, use_64bit),
{
    if use_64bit {
        let eo = read_u64(bytes, off, 0)?;
        let np = read_u64(bytes, off, 8)?;
        let pl = read_u64(bytes, off, 16)?;
        Ok((eo as usize, np as usize, pl as usize))
    } else {
        let eo = read_u32(bytes, off, 0)?;
        let np = read_u32(bytes, off, 4)?;
        let pl = read_u32(bytes, off, 8)?;
        Ok((eo as usize, np as usize, pl as usize))
    }
}

fn read_node_head(bytes: &[u8], off: usize, use_64bit: bool) -> (r: Result<(usize, usize, usize, String, usize), FbxError>)
    ensures
        match (r, spec_read_node_head(bytes@, off as int, use_64bit)) {
            (Ok((eo, np, pl, name, q)), Ok((seo, snp, spl, sq))) =>
                eo == seo && np == snp && pl == spl && q == sq && off < q <= bytes@.len()
                && vstd::utf8::encode_utf8(name@) == bytes@.subrange(off + header_len(use_64bit) + 1, q as int),
            (Err(e), Err(se)) => e == se,
            _ => false,
        },
{
    let len = bytes.len();
    let (end_offset, num_props, prop_list_len) = read_header(bytes, off, use_64bit)?;
    let hl: usize = if use_64bit { 24 } else { 12 };
    if end_offset == 0 {
        return Err(FbxError::NullRecordEntered);
    }
    if end_offset > len {
        return Err(FbxError::EndOffsetPastEof);
    }
    let p = off + hl;
    let name_len = read_u8(bytes, p, 0)? as usize;
    let p = p + 1;
    if name_len > len - p {
        return Err(FbxError::NamePastEof);
    }
    let name = match crate::text::string_from_utf8(&bytes[p..p + name_len]) {
        Some(s) => s,
        None => { return Err(FbxError::NameNotUtf8); }
    };
    Ok((end_offset, num_props, prop_list_len, name, p + name_len))
}

pub open spec fn props_res_view(r: Result<(Vec<FbxProperty>, usize), FbxError>) -> Result<(Seq<PropV>, int), FbxError> {
    match r {
        Ok((ps, n)) => Ok((props_view(ps@), n as int)),
        Err(e) => Err(e),
    }
}

fn read_props(bytes: &[u8], start: usize, num_props: usize) -> (r: Result<(Vec<FbxProperty>, usize), FbxError>)
    requires start <= bytes@.len(),
    ensures
        props_res_view(r) == spec_read_props(bytes@, start as int, num_props as nat),
        r matches Ok((_, next)) ==> start <= next <= bytes@.len(),
{
    let len = bytes.len();
    let mut p = start;
    let mut properties: Vec<FbxProperty> = Vec::new();
    let mut i: usize = 0;
    while i < num_props
        invariant
            len == bytes@.len(),
            start <= p <= len,
            i <= num_props,
            spec_read_props(bytes@, start as int, num_props as nat)
                == prepend_props(props_view(properties@), spec_read_props(bytes@, p as int, (num_props - i) as nat)),
        decreases num_props - i,
    {
        let (prop, next) = match read_property(bytes, p) {
            Ok(x) => x,
            Err(e) => { return Err(e); }
        };
        let ghost old_props = properties@;
        properties.push(prop);
        proof {
            assert(props_view(properties@) =~= props_view(old_props).push(prop.view_prop()));
        }
        p = next;
        i += 1;
        proof {
            let tail = spec_read_props(bytes@, p as int, (num_props - i) as nat);
            match tail {
                Ok((rest, end)) => {
                    assert(props_view(old_props) + (seq![prop.view_prop()] + rest) =~= props_view(properties@) + rest);
                }
                Err(_) => {}
            }
        }
    }
    proof {
        assert(props_view(properties@) + Seq::<PropV>::empty() =~= props_view(properties@));
    }
    Ok((properties, p))
}

pub open spec fn nodes_res_view(r: Result<(Vec<FbxNode>, usize), FbxError>) -> Result<(Seq<NodeV>, int), FbxError> {
    match r {
        Ok((cs, n)) => Ok((nodes_view(cs@), n as int)),
        Err(e) => Err(e),
    }
}

pub open spec fn body_res_view(r: Result<Vec<FbxNode>, FbxError>) -> Result<Seq<NodeV>, FbxError> {
    match r {
        Ok(cs) => Ok(nodes_view(cs@)),
        Err(e) => Err(e),
    }
}

fn read_children(bytes: &[u8], start: usize, end_offset: usize, use_64bit: bool, depth: usize)
    -> (r: Result<(Vec<FbxNode>, usize), FbxError>)
    requires
        start <= bytes@.len(),
        end_offset <= bytes@.len(),
        depth < 128,
    ensures
        nodes_res_view(r) == spec_read_children(bytes@, start as int, end_offset as int, use_64bit, depth as int),
        r matches Ok((_, next)) ==> start < next <= bytes@.len(),
    decreases (if depth <= 128 { 128 - depth } else { 0 }), 0int, bytes@.len() - start,
{
    let len = bytes.len();
    let nrb: usize = if use_64bit { 25 } else { 13 };
    let mut p = start;
    let mut children: Vec<FbxNode> = Vec::new();
    proof { crate::model::lemma_nodes_view_len(children@); assert(nodes_view(children@) =~= Seq::<NodeV>::empty()); }
    loop
        invariant
            len == bytes@.len(),
            start <= p <= len,
            end_offset <= len,
            depth < 128,
            nrb as int == null_record_len(use_64bit),
            spec_read_children(bytes@, start as int, end_offset as int, use_64bit, depth as int)
                == prepend_nodes(nodes_view(children@), spec_read_children(bytes@, p as int, end_offset as int, use_64bit, depth as int)),
        decreases len - p,
    {
        if p > end_offset || nrb > end_offset - p {
            return Err(FbxError::NestedListOverrun);
        }
        if is_zero_run(bytes, p, nrb) {
            proof { assert(nodes_view(children@) + Seq::<NodeV>::empty() =~= nodes_view(children@)); }
            return Ok((children, p + nrb));
        }
        let (child, next) = match read_node(bytes, p, use_64bit, depth + 1) {
            Ok(x) => x,
            Err(e) => { return Err(e); }
        };
        let ghost old_children = children@;
        let ghost cv = node_view(child);
        children.push(child);
        proof {
            crate::model::lemma_nodes_view_push(old_children, child);
            let tail = spec_read_children(bytes@, next as int, end_offset as int, use_64bit, depth as int);
            match tail {
                Ok((cs, s)) => {
                    assert(nodes_view(old_children) + (seq![cv] + cs) =~= nodes_view(children@) + cs);
                }
                Err(_) => {}
            }
        }
        p = next;
    }
}

fn read_body(bytes: &[u8], r: usize, end_offset: usize, use_64bit: bool, depth: usize)
    -> (res: Result<Vec<FbxNode>, FbxError>)
    requires
        r <= bytes@.len(),
        end_offset <= bytes@.len(),
        depth < 128,
    ensures
        body_res_view(res) == spec_read_body(bytes@, r as int, end_offset as int, use_64bit, depth as int),
    decreases (if depth <= 128 { 128 - depth } else { 0 }), 1int, 0int,
{
    if r < end_offset {
        let (children, s) = read_children(bytes, r, end_offset, use_64bit, depth)?;
        if s != end_offset {
            return Err(FbxError::EndOffsetMismatch);
        }
        Ok(children)
    } else if r != end_offset {
        Err(FbxError::EndOffsetMismatch)
    } else {
        let v: Vec<FbxNode> = Vec::new();
        proof { assert(nodes_view(v@) =~= Seq::<NodeV>::empty()); }
        Ok(v)
    }
}

/// Read one Node Record at `bytes[off]`: the node and the offset just
/// past it.
fn read_node(bytes: &[u8], off: usize, use_64bit: bool, depth: usize) -> (r: Result<(FbxNode, usize), FbxError>)
    ensures
        node_res_view(r) == spec_read_node(bytes@, off as int, use_64bit, depth as int),
        r matches Ok((_, next)) ==> off < next <= bytes@.len(),
    decreases (if depth <= 128 { 128 - depth } else { 0 }), 2int, 0int,
{
    if depth >= MAX_NODE_DEPTH {
        return Err(FbxError::NestingTooDeep);
    }
    let (end_offset, num_props, prop_list_len, name, q) = read_node_head(bytes, off, use_64bit)?;
    let (properties, p) = read_props(bytes, q, num_props)?;
    if p - q != prop_list_len {
        return Err(FbxError::PropertyListLenMismatch);
    }
    let children = read_body(bytes, p, end_offset, use_64bit, depth)?;
    Ok((FbxNode { name, properties, children }, end_offset))
}


} // verus!

verus! {

// ---------------------------------------------------------------------
// Document and footer
// ---------------------------------------------------------------------

/// FBX binary file magic: `Kaydara FBX Binary  \0` (21 bytes including
/// the trailing NUL).
pub const FBX_MAGIC: [u8; 21] = [
    0x4b, 0x61, 0x79, 0x64, 0x61, 0x72, 0x61, 0x20, 0x46, 0x42, 0x58, 0x20, 0x42, 0x69, 0x6e,
    0x61, 0x72, 0x79, 0x20, 0x20, 0x00,
];

/// The two bytes after the magic in every well-formed binary FBX.
pub const FBX_MAGIC_TAIL: [u8; 2] = [0x1a, 0x00];

/// The constant 16-byte signature that terminates a binary FBX file.
pub const FOOTER_TRAILER: [u8; 16] = [
    0xf8, 0x5a, 0x8c, 0x6a, 0xde, 0xf5, 0xd9, 0x7e, 0xec, 0xe9, 0x0c, 0xe3, 0x75, 0x8f, 0x29, 0x0b,
];

pub open spec fn fbx_magic() -> Seq<u8> {
    seq![0x4bu8, 0x61, 0x79, 0x64, 0x61, 0x72, 0x61, 0x20, 0x46, 0x42, 0x58, 0x20, 0x42, 0x69, 0x6e,
        0x61, 0x72, 0x79, 0x20, 0x20, 0x00]
}

pub open spec fn footer_trailer() -> Seq<u8> {
    seq![0xf8u8, 0x5a, 0x8c, 0x6a, 0xde, 0xf5, 0xd9, 0x7e, 0xec, 0xe9, 0x0c, 0xe3, 0x75, 0x8f, 0x29, 0x0b]
}

/// The header is present and its magic and magic tail match.
pub open spec fn header_ok(b: Seq<u8>) -> bool {
    b.len() >= 27 && b.subrange(0, 21) == fbx_magic() && b[21] == 0x1a && b[22] == 0
}

pub open spec fn header_version(b: Seq<u8>) -> u32 {
    le_u32(b, 23) as u32
}

/// The top-level record list starting at `cur`, which ends at end of
/// input, at a truncated NULL record, or at an all-zero NULL record.
pub open spec fn spec_read_top(b: Seq<u8>, cur: int, use64: bool) -> Result<Seq<NodeV>, FbxError>
    decreases b.len() - cur,
{
    if cur >= b.len() || cur + null_record_len(use64) > b.len() || all_zero(b, cur, null_record_len(use64)) {
        Ok(Seq::empty())
    } else {
        match spec_read_node(b, cur, use64, 0) {
            Err(e) => Err(e),
            Ok((n, next)) => if next <= cur {
                Err(FbxError::EndOffsetMismatch)
            } else {
                match spec_read_top(b, next, use64) {
                    Err(e) => Err(e),
                    Ok(rest) => Ok(seq![n] + rest),
                }
            },
        }
    }
}

/// The binary document that `b` encodes, or the first error met.
pub open spec fn spec_parse_binary(b: Seq<u8>) -> Result<DocV, FbxError> {
    if b.len() < 27 {
        Err(FbxError::HeaderTruncated)
    } else if b.subrange(0, 21) != fbx_magic() {
        Err(FbxError::MagicMismatch)
    } else if b[21] != 0x1a || b[22] != 0 {
        Err(FbxError::MagicTailMismatch)
    } else {
        let version = header_version(b);
        match spec_read_top(b, 27, version >= 7500) {
            Err(e) => Err(e),
            Ok(cs) => Ok(DocV { version, root: root_v(cs) }),
        }
    }
}

pub open spec fn doc_res_view(r: Result<FbxDocument, FbxError>) -> Result<DocV, FbxError> {
    match r {
        Ok(d) => Ok(doc_view(d)),
        Err(e) => Err(e),
    }
}

fn magic_matches(bytes: &[u8]) -> (r: bool)
    requires bytes@.len() >= 27,
    ensures r == (bytes@.subrange(0, 21) == fbx_magic()),
{
    let magic = FBX_MAGIC;
    assert(magic@ =~= fbx_magic());
    let mut i: usize = 0;
    while i < 21
        invariant
            i <= 21,
            bytes@.len() >= 27,
            magic@ == fbx_magic(),
            bytes@.subrange(0, i as int) == fbx_magic().subrange(0, i as int),
        decreases 21 - i,
    {
        if bytes[i] != magic[i] {
            assert(bytes@.subrange(0, 21)[i as int] != fbx_magic()[i as int]);
            return false;
        }
        i += 1;
        assert(bytes@.subrange(0, i as int) =~= fbx_magic().subrange(0, i as int));
    }
    assert(bytes@.subrange(0, 21) =~= fbx_magic());
    true
}

/// The root node holding the given children.
pub(crate) fn make_root(children: Vec<FbxNode>) -> (r: FbxNode)
    ensures node_view(r) == root_v(nodes_view(children@)),
{
    let r = FbxNode { name: String::new(), properties: Vec::new(), children };
    assert(props_view(r.properties@) =~= Seq::<PropV>::empty());
    assert(vstd::utf8::encode_utf8(r.name@) =~= Seq::<u8>::empty());
    r
}

/// Parse a binary-FBX byte buffer.
pub fn parse(bytes: &[u8]) -> (r: Result<FbxDocument, FbxError>)
    ensures
        doc_res_view(r) == spec_parse_binary(bytes@),
{
    let len = bytes.len();
    if len < FBX_HEADER_BYTES {
        return Err(FbxError::HeaderTruncated);
    }
    if !magic_matches(bytes) {
        return Err(FbxError::MagicMismatch);
    }
    if bytes[21] != 0x1a || bytes[22] != 0 {
        return Err(FbxError::MagicTailMismatch);
    }
    let version = match read_u32(bytes, 23, 0) {
        Ok(v) => v,
        Err(_) => { return Err(FbxError::HeaderTruncated); }
    };
    let use_64bit = version >= FBX_VERSION_64BIT_THRESHOLD;
    let children = read_top(bytes, use_64bit)?;
    let root = make_root(children);
    Ok(FbxDocument { version, root })
}

pub open spec fn prepend_top(acc: Seq<NodeV>, r: Result<Seq<NodeV>, FbxError>) -> Result<Seq<NodeV>, FbxError> {
    match r {
        Ok(rest) => Ok(acc + rest),
        Err(e) => Err(e),
    }
}

pub open spec fn top_res_view(r: Result<Vec<FbxNode>, FbxError>) -> Result<Seq<NodeV>, FbxError> {
    match r {
        Ok(cs) => Ok(nodes_view(cs@)),
        Err(e) => Err(e),
    }
}

fn read_top(bytes: &[u8], use_64bit: bool) -> (r: Result<Vec<FbxNode>, FbxError>)
    requires bytes@.len() >= 27,
    ensures top_res_view(r) == spec_read_top(bytes@, 27, use_64bit),
{
    let len = bytes.len();
    let header_bytes: usize = if use_64bit { 25 } else { 13 };
    let mut cur: usize = FBX_HEADER_BYTES;
    let mut children: Vec<FbxNode> = Vec::new();
    proof { assert(nodes_view(children@) =~= Seq::<NodeV>::empty()); }
    loop
        invariant
            len == bytes@.len(),
            27 <= cur <= len,
            header_bytes as int == null_record_len(use_64bit),
            spec_read_top(bytes@, 27, use_64bit)
                == prepend_top(nodes_view(children@), spec_read_top(bytes@, cur as int, use_64bit)),
        decreases len - cur,
    {
        if cur >= len || header_bytes > len - cur || is_zero_run(bytes, cur, header_bytes) {
            proof { assert(nodes_view(children@) + Seq::<NodeV>::empty() =~= nodes_view(children@)); }
            return Ok(children);
        }
        let (node, next) = match read_node(bytes, cur, use_64bit, 0) {
            Ok(x) => x,
            Err(e) => { return Err(e); }
        };
        let ghost old_children = children@;
        let ghost nv = node_view(node);
        children.push(node);
        proof {
            crate::model::lemma_nodes_view_push(old_children, node);
            let tail = spec_read_top(bytes@, next as int, use_64bit);
            match tail {
                Ok(rest) => {
                    assert(nodes_view(old_children) + (seq![nv] + rest) =~= nodes_view(children@) + rest);
                }
                Err(_) => {}
            }
        }
        cur = next;
    }
}

/// The decoded trailing footer block of a binary FBX file: the per-file
/// 16-byte id that opens it.
#[derive(Clone, Copy, Debug, PartialEq, Eq)]
pub struct FbxFooter {
    pub id: [u8; 16],
}

/// The offset just past the top-level NULL record, found by hopping
/// over the top-level records by their EndOffset fields.
pub open spec fn spec_footer_walk(b: Seq<u8>, cur: int, use64: bool) -> Option<int>
    decreases b.len() - cur,
{
    if cur + null_record_len(use64) > b.len() {
        None
    } else if all_zero(b, cur, null_record_len(use64)) {
        Some(cur + null_record_len(use64))
    } else {
        let eo: int = if use64 { ((le_u64(b, cur) as u64) as usize) as int } else { ((le_u32(b, cur) as u32) as usize) as int };
        if eo <= cur || eo > b.len() {
            None
        } else {
            spec_footer_walk(b, eo, use64)
        }
    }
}

/// The first multiple of 16 at or after `n`.
pub open spec fn align16(n: int) -> int {
    n + (16 - n % 16) % 16
}

/// The footer block after the top-level NULL record ending at `cur`:
/// the 16-byte id, zero padding to a 16-byte boundary, 4 zero bytes,
/// the version echo, 120 zero bytes, and the trailer signature ending
/// exactly at end of input.
pub open spec fn spec_footer_tail(b: Seq<u8>, cur: int, version: u32) -> Option<Seq<u8>> {
    let a = align16(cur + 16);
    if cur + 16 > b.len() {
        None
    } else if a > b.len() || !all_zero(b, cur + 16, a - (cur + 16)) {
        None
    } else if a + 128 > b.len() {
        None
    } else if !all_zero(b, a, 4) || le_u32(b, a + 4) != version || !all_zero(b, a + 8, 120) {
        None
    } else if a + 144 > b.len() || b.subrange(a + 128, a + 144) != footer_trailer() || a + 144 != b.len() {
        None
    } else {
        Some(b.subrange(cur, cur + 16))
    }
}

/// The footer id of `b`, when the full footer shape is present.
pub open spec fn spec_parse_footer(b: Seq<u8>) -> Option<Seq<u8>> {
    if !header_ok(b) {
        None
    } else {
        let version = header_version(b);
        match spec_footer_walk(b, 27, version >= 7500) {
            None => None,
            Some(cur) => spec_footer_tail(b, cur, version),
        }
    }
}

fn trailer_matches(bytes: &[u8], at: usize) -> (r: bool)
    requires at + 16 <= bytes@.len(),
    ensures r == (bytes@.subrange(at as int, at + 16) == footer_trailer()),
{
    let _len = bytes.len();
    let t = FOOTER_TRAILER;
    assert(t@ =~= footer_trailer());
    let mut i: usize = 0;
    while i < 16
        invariant
            i <= 16,
            at + 16 <= bytes@.len(),
            bytes@.len() <= usize::MAX,
            t@ == footer_trailer(),
            bytes@.subrange(at as int, at + i) == footer_trailer().subrange(0, i as int),
        decreases 16 - i,
    {
        if bytes[at + i] != t[i] {
            assert(bytes@.subrange(at as int, at + 16)[i as int] != footer_trailer()[i as int]);
            return false;
        }
        i += 1;
        assert(bytes@.subrange(at as int, at + i) =~= footer_trailer().subrange(0, i as int));
    }
    assert(bytes@.subrange(at as int, at + 16) =~= footer_trailer());
    true
}

/// Decode the trailing footer block of a binary FBX byte buffer.
/// `Some` only when the whole footer shape is present and well formed.
pub fn parse_footer(bytes: &[u8]) -> (r: Option<FbxFooter>)
    ensures
        match (r, spec_parse_footer(bytes@)) {
            (Some(f), Some(id)) => f.id@ == id,
            (None, None) => true,
            _ => false,
        },
{
    let len = bytes.len();
    if len < FBX_HEADER_BYTES || !magic_matches(bytes) || bytes[21] != 0x1a || bytes[22] != 0 {
        return None;
    }
    let version = match read_u32(bytes, 23, 0) {
        Ok(v) => v,
        Err(_) => { return None; }
    };
    let use_64bit = version >= FBX_VERSION_64BIT_THRESHOLD;
    let cur = footer_walk(bytes, use_64bit)?;
    let id = footer_tail(bytes, cur, version)?;
    Some(FbxFooter { id })
}

fn footer_walk(bytes: &[u8], use_64bit: bool) -> (r: Option<usize>)
    requires bytes@.len() >= 27,
    ensures
        match (r, spec_footer_walk(bytes@, 27, use_64bit)) {
            (Some(c), Some(sc)) => c == sc && c <= bytes@.len(),
            (None, None) => true,
            _ => false,
        },
{
    let len = bytes.len();
    let header_bytes: usize = if use_64bit { 25 } else { 13 };
    let mut cur: usize = FBX_HEADER_BYTES;
    loop
        invariant
            len == bytes@.len(),
            cur <= len,
            header_bytes as int == null_record_len(use_64bit),
            spec_footer_walk(bytes@, 27, use_64bit) == spec_footer_walk(bytes@, cur as int, use_64bit),
        decreases len - cur,
    {
        if header_bytes > len - cur {
            return None;
        }
        if is_zero_run(bytes, cur, header_bytes) {
            return Some(cur + header_bytes);
        }
        let end_offset: usize = if use_64bit {
            match read_u64(bytes, cur, 0) {
                Ok(v) => v as usize,
                Err(_) => { return None; }
            }
        } else {
            match read_u32(bytes, cur, 0) {
                Ok(v) => v as usize,
                Err(_) => { return None; }
            }
        };
        if end_offset <= cur || end_offset > len {
            return None;
        }
        cur = end_offset;
    }
}

fn footer_tail(bytes: &[u8], start: usize, version: u32) -> (r: Option<[u8; 16]>)
    requires start <= bytes@.len(),
    ensures
        match (r, spec_footer_tail(bytes@, start as int, version)) {
            (Some(id), Some(sid)) => id@ == sid,
            (None, None) => true,
            _ => false,
        },
{
    let len = bytes.len();
    if 16 > len - start {
        return None;
    }
    let mut id = [0u8; 16];
    let mut k: usize = 0;
    while k < 16
        invariant
            k <= 16,
            start + 16 <= bytes@.len(),
            bytes@.len() <= usize::MAX,
            forall|j: int| 0 <= j < k ==> id@[j] == bytes@[start + j],
        decreases 16 - k,
    {
        id[k] = bytes[start + k];
        k += 1;
    }
    assert(id@ =~= bytes@.subrange(start as int, start + 16));
    let mut cur = start + 16;
    // Zero padding to the next 16-byte boundary.
    while cur % 16 != 0
        invariant
            start + 16 <= cur <= align16(start + 16),
            cur <= start + 32,
            len == bytes@.len(),
            all_zero(bytes@, start + 16, cur - (start + 16)),
        decreases align16(start + 16) - cur,
    {
        if cur >= len {
            return None;
        }
        if bytes[cur] != 0 {
            return None;
        }
        cur += 1;
    }
    assert(cur == align16(start + 16));
    if cur > len || 128 > len - cur {
        return None;
    }
    if !is_zero_run(bytes, cur, 4) {
        return None;
    }
    let echo = match read_u32(bytes, cur, 4) {
        Ok(v) => v,
        Err(_) => { return None; }
    };
    if echo != version {
        return None;
    }
    if !is_zero_run(bytes, cur + 8, 120) {
        return None;
    }
    let t = cur + 128;
    if 16 > len - t {
        return None;
    }
    if !trailer_matches(bytes, t) {
        return None;
    }
    if t + 16 != len {
        return None;
    }
    Some(id)
}

} // verus!

verus! {

/// The lowercase hex digit for a nibble `n < 16`.
pub open spec fn hex_digit(n: int) -> u8 {
    if n < 10 { (48 + n) as u8 } else { (87 + n) as u8 }
}

/// Lowercase hex text of `id`, two digits per byte, high nibble first.
pub open spec fn hex_text(id: Seq<u8>) -> Seq<u8> {
    Seq::new(2 * id.len(), |i: int| if i % 2 == 0 { hex_digit((id[i / 2] / 16) as int) } else { hex_digit((id[i / 2] % 16) as int) })
}

/// The value of a hex digit byte (`0-9`, `a-f`, `A-F`).
pub open spec fn hex_value(c: u8) -> Option<u8> {
    if 48 <= c <= 57 {
        Some((c - 48) as u8)
    } else if 97 <= c <= 102 {
        Some((c - 87) as u8)
    } else if 65 <= c <= 70 {
        Some((c - 55) as u8)
    } else {
        None
    }
}

/// The 16-byte id spelled by 32 hex digits, or `None`.
pub open spec fn spec_id_from_hex(b: Seq<u8>) -> Option<Seq<u8>> {
    if b.len() != 32 {
        None
    } else if forall|i: int| 0 <= i < 32 ==> (#[trigger] hex_value(b[i])) is Some {
        Some(Seq::new(16, |i: int| (hex_value(b[2 * i]).unwrap() * 16 + hex_value(b[2 * i + 1]).unwrap()) as u8))
    } else {
        None
    }
}

fn hex_digit_exec(n: u8) -> (c: u8)
    requires n < 16,
    ensures c == hex_digit(n as int),
{
    if n < 10 { 48 + n } else { 87 + n }
}

fn hex_value_exec(c: u8) -> (r: Option<u8>)
    ensures r == hex_value(c),
{
    if 48 <= c && c <= 57 {
        Some(c - 48)
    } else if 97 <= c && c <= 102 {
        Some(c - 87)
    } else if 65 <= c && c <= 70 {
        Some(c - 55)
    } else {
        None
    }
}

impl FbxFooter {
    /// The 16-byte id as a 32-character lowercase hex string.
    pub fn id_hex(&self) -> (s: String)
        ensures
            s@ == crate::text::chars_of_bytes(hex_text(self.id@)),
    {
        let mut out: Vec<u8> = Vec::new();
        let mut i: usize = 0;
        while i < 16
            invariant
                i <= 16,
                self.id@.len() == 16,
                out@ =~= hex_text(self.id@).subrange(0, 2 * i),
            decreases 16 - i,
        {
            let b = self.id[i];
            out.push(hex_digit_exec(b / 16));
            out.push(hex_digit_exec(b % 16));
            i += 1;
            assert(out@ =~= hex_text(self.id@).subrange(0, 2 * i));
        }
        assert(hex_text(self.id@).subrange(0, 32) =~= hex_text(self.id@));
        crate::text::string_from_bytes_latin(out.as_slice())
    }

    /// Parse a 32-character hex string back into the 16-byte id.
    /// `None` on any length or digit deviation.
    pub fn id_from_hex(s: &str) -> (r: Option<[u8; 16]>)
        ensures
            match (r, spec_id_from_hex(s.spec_bytes())) {
                (Some(id), Some(sid)) => id@ == sid,
                (None, None) => true,
                _ => false,
            },
    {
        let bytes = s.as_bytes();
        if bytes.len() != 32 {
            return None;
        }
        let mut id = [0u8; 16];
        let mut i: usize = 0;
        while i < 16
            invariant
                i <= 16,
                bytes@.len() == 32,
                bytes@ == s.spec_bytes(),
                forall|j: int| 0 <= j < 2 * i ==> (#[trigger] hex_value(bytes@[j])) is Some,
                forall|j: int| 0 <= j < i ==> id@[j]
                    == (hex_value(bytes@[2 * j]).unwrap() * 16 + hex_value(bytes@[2 * j + 1]).unwrap()) as u8,
            decreases 16 - i,
        {
            let hi = match hex_value_exec(bytes[2 * i]) {
                Some(v) => v,
                None => { return None; }
            };
            let lo = match hex_value_exec(bytes[2 * i + 1]) {
                Some(v) => v,
                None => { return None; }
            };
            id[i] = hi * 16 + lo;
            i += 1;
        }
        assert(id@ =~= Seq::new(16, |k: int| (hex_value(bytes@[2 * k]).unwrap() * 16 + hex_value(bytes@[2 * k + 1]).unwrap()) as u8));
        Some(id)
    }
}

/// Rendering a footer id as hex and parsing it back yields the id.
pub proof fn lemma_id_hex_round_trip(id: Seq<u8>)
    requires id.len() == 16,
    ensures
        spec_id_from_hex(vstd::utf8::encode_utf8(crate::text::chars_of_bytes(hex_text(id)))) == Some(id),
{
    let t = hex_text(id);
    let cs = crate::text::chars_of_bytes(t);
    assert(vstd::utf8::is_ascii_chars(cs)) by {
        assert forall|i: int| 0 <= i < cs.len() implies '\0' <= #[trigger] cs[i] <= '\u{7f}' by {
            assert(t[i] < 128);
        }
    }
    vstd::utf8::is_ascii_chars_encode_utf8(cs);
    let b = vstd::utf8::encode_utf8(cs);
    assert forall|i: int| 0 <= i < 32 implies b[i] == #[trigger] t[i] by {
        assert(cs[i] == t[i] as char);
        assert((t[i] as char) as u8 == t[i]);
    }
    assert forall|i: int| 0 <= i < 32 implies (#[trigger] hex_value(b[i])) is Some by {
        assert(b[i] == t[i]);
    }
    let r = Seq::new(16, |i: int| (hex_value(b[2 * i]).unwrap() * 16 + hex_value(b[2 * i + 1]).unwrap()) as u8);
    assert forall|i: int| 0 <= i < 16 implies r[i] == id[i] by {
        assert(b[2 * i] == t[2 * i]);
        assert(b[2 * i + 1] == t[2 * i + 1]);
        assert((2 * i) % 2 == 0);
        assert((2 * i + 1) % 2 == 1);
        assert((2 * i) / 2 == i);
        assert((2 * i + 1) / 2 == i);
    }
    assert(r =~= id);
}

} // verus!
