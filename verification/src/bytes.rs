//! Little-endian scalar decoding over byte sequences.

use vstd::prelude::*;
use crate::error::{FbxError, ReadWidth};

verus! {

pub open spec fn le_u16(b: Seq<u8>, o: int) -> int {
    b[o] as int + 256 * (b[o + 1] as int)
}

pub open spec fn le_u32(b: Seq<u8>, o: int) -> int {
    le_u16(b, o) + 65536 * le_u16(b, o + 2)
}

pub open spec fn le_u64(b: Seq<u8>, o: int) -> int {
    le_u32(b, o) + 4294967296 * le_u32(b, o + 4)
}

/// Two's-complement reading of a 16-bit pattern.
pub open spec fn i16_of(v: int) -> i16 {
    if v < 32768 { v as i16 } else { (v - 65536) as i16 }
}

pub open spec fn i32_of(v: int) -> i32 {
    if v < 0x8000_0000 { v as i32 } else { (v - 0x1_0000_0000) as i32 }
}

pub open spec fn i64_of(v: int) -> i64 {
    if v < 0x8000_0000_0000_0000 { v as i64 } else { (v - 0x1_0000_0000_0000_0000) as i64 }
}

pub proof fn lemma_le_bounds(b: Seq<u8>, o: int)
    requires 0 <= o, o + 8 <= b.len(),
    ensures
        0 <= le_u16(b, o) < 0x1_0000,
        0 <= le_u32(b, o) < 0x1_0000_0000,
        0 <= le_u64(b, o) < 0x1_0000_0000_0000_0000,
{
}

pub proof fn lemma_le_bounds4(b: Seq<u8>, o: int)
    requires 0 <= o, o + 4 <= b.len(),
    ensures
        0 <= le_u16(b, o) < 0x1_0000,
        0 <= le_u32(b, o) < 0x1_0000_0000,
{
}

/// `true` when `base + delta + size` bytes are available.
pub open spec fn fits(len: int, base: int, delta: int, size: int) -> bool {
    base + delta + size <= len
}

pub fn read_u8(bytes: &[u8], base: usize, delta: usize) -> (r: Result<u8, FbxError>)
    ensures
        fits(bytes@.len() as int, base as int, delta as int, 1) ==> r == Ok::<u8, FbxError>(bytes@[base + delta]),
        !fits(bytes@.len() as int, base as int, delta as int, 1) ==> r == Err::<u8, FbxError>(FbxError::ReadPastEof(ReadWidth::U8)),
{
    let len = bytes.len();
    if base > len || delta > len - base || len - base - delta < 1 {
        return Err(FbxError::ReadPastEof(ReadWidth::U8));
    }
    Ok(bytes[base + delta])
}

pub fn read_u16(bytes: &[u8], base: usize, delta: usize, width: ReadWidth) -> (r: Result<u16, FbxError>)
    ensures
        fits(bytes@.len() as int, base as int, delta as int, 2) ==> r == Ok::<u16, FbxError>(le_u16(bytes@, base + delta) as u16),
        !fits(bytes@.len() as int, base as int, delta as int, 2) ==> r == Err::<u16, FbxError>(FbxError::ReadPastEof(width)),
{
    let len = bytes.len();
    if base > len || delta > len - base || len - base - delta < 2 {
        return Err(FbxError::ReadPastEof(width));
    }
    let o = base + delta;
    Ok(bytes[o] as u16 + (bytes[o + 1] as u16) * 256)
}

pub fn read_u32(bytes: &[u8], base: usize, delta: usize) -> (r: Result<u32, FbxError>)
    ensures
        fits(bytes@.len() as int, base as int, delta as int, 4) ==> r == Ok::<u32, FbxError>(le_u32(bytes@, base + delta) as u32),
        !fits(bytes@.len() as int, base as int, delta as int, 4) ==> r == Err::<u32, FbxError>(FbxError::ReadPastEof(ReadWidth::U32)),
{
    let len = bytes.len();
    if base > len || delta > len - base || len - base - delta < 4 {
        return Err(FbxError::ReadPastEof(ReadWidth::U32));
    }
    let o = base + delta;
    Ok(bytes[o] as u32 + (bytes[o + 1] as u32) * 256 + (bytes[o + 2] as u32) * 65536
        + (bytes[o + 3] as u32) * 16777216)
}

pub fn read_u64(bytes: &[u8], base: usize, delta: usize) -> (r: Result<u64, FbxError>)
    ensures
        fits(bytes@.len() as int, base as int, delta as int, 8) ==> r == Ok::<u64, FbxError>(le_u64(bytes@, base + delta) as u64),
        !fits(bytes@.len() as int, base as int, delta as int, 8) ==> r == Err::<u64, FbxError>(FbxError::ReadPastEof(ReadWidth::U64)),
{
    let len = bytes.len();
    if base > len || delta > len - base || len - base - delta < 8 {
        return Err(FbxError::ReadPastEof(ReadWidth::U64));
    }
    let o = base + delta;
    let lo = bytes[o] as u64 + (bytes[o + 1] as u64) * 256 + (bytes[o + 2] as u64) * 65536
        + (bytes[o + 3] as u64) * 16777216;
    let hi = bytes[o + 4] as u64 + (bytes[o + 5] as u64) * 256 + (bytes[o + 6] as u64) * 65536
        + (bytes[o + 7] as u64) * 16777216;
    Ok(lo + hi * 4294967296)
}

pub fn to_i16(v: u16) -> (r: i16)
    ensures r == i16_of(v as int),
{
    if v < 32768 { v as i16 } else { (v as i32 - 65536) as i16 }
}

pub fn to_i32(v: u32) -> (r: i32)
    ensures r == i32_of(v as int),
{
    if v < 0x8000_0000 { v as i32 } else { (v as i64 - 0x1_0000_0000) as i32 }
}

pub fn to_i64(v: u64) -> (r: i64)
    ensures r == i64_of(v as int),
{
    if v < 0x8000_0000_0000_0000 {
        v as i64
    } else {
        ((v - 0x8000_0000_0000_0000) as i64) + i64::MIN
    }
}

/// `true` when every byte of `b[start..start + n]` is zero.
pub open spec fn all_zero(b: Seq<u8>, start: int, n: int) -> bool {
    forall|i: int| start <= i < start + n ==> b[i] == 0
}

pub fn is_zero_run(bytes: &[u8], start: usize, n: usize) -> (r: bool)
    requires start + n <= bytes@.len(),
    ensures r == all_zero(bytes@, start as int, n as int),
{
    let _len = bytes.len();
    let end = start + n;
    let mut i = start;
    while i < end
        invariant
            start <= i <= end,
            end == start + n,
            start + n <= bytes@.len(),
            all_zero(bytes@, start as int, i - start),
        decreases end - i,
    {
        if bytes[i] != 0 {
            return false;
        }
        i += 1;
    }
    true
}

/// Copy `bytes[start..start + n]` into a fresh vector.
pub fn copy_range(bytes: &[u8], start: usize, n: usize) -> (r: Vec<u8>)
    requires start + n <= bytes@.len(),
    ensures r@ == bytes@.subrange(start as int, start + n),
{
    let mut out: Vec<u8> = Vec::new();
    let _len = bytes.len();
    let end = start + n;
    let mut i = start;
    while i < end
        invariant
            start <= i <= end,
            end == start + n,
            start + n <= bytes@.len(),
            out@ == bytes@.subrange(start as int, i as int),
        decreases end - i,
    {
        out.push(bytes[i]);
        i += 1;
        assert(out@ =~= bytes@.subrange(start as int, i as int));
    }
    out
}

/// Whether two byte slices are equal.
pub fn bytes_eq(a: &[u8], b: &[u8]) -> (r: bool)
    ensures r == (a@ == b@),
{
    if a.len() != b.len() {
        return false;
    }
    let mut i: usize = 0;
    while i < a.len()
        invariant
            i <= a@.len() == b@.len(),
            forall|k: int| 0 <= k < i ==> a@[k] == b@[k],
        decreases a@.len() - i,
    {
        if a[i] != b[i] {
            return false;
        }
        i += 1;
    }
    assert(a@ =~= b@);
    true
}

} // verus!
