//! UTF-8 conversions provided by the standard library.

use vstd::prelude::*;
use vstd::string::StrSliceExecFns;
use vstd::utf8::{decode_utf8, encode_utf8, valid_utf8};

verus! {

/// Calls `String::from_utf8`. Trusted: it succeeds exactly on valid
/// UTF-8 input, and the resulting string has exactly the input bytes.
#[verifier::external_body]
pub(crate) fn string_from_utf8(bytes: &[u8]) -> (r: Option<String>)
    ensures
        r is Some <==> valid_utf8(bytes@),
        r matches Some(s) ==> encode_utf8(s@) == bytes@,
{
    String::from_utf8(bytes.to_vec()).ok()
}

/// Calls `std::str::from_utf8`. Trusted: it succeeds exactly on valid
/// UTF-8 input, and the resulting string slice has exactly the input
/// bytes.
#[verifier::external_body]
pub(crate) fn str_from_utf8(bytes: &[u8]) -> (r: Option<&str>)
    ensures
        r is Some <==> valid_utf8(bytes@),
        r matches Some(s) ==> encode_utf8(s@) == bytes@,
{
    std::str::from_utf8(bytes).ok()
}

/// The characters `String::from_utf8_lossy` decodes from `bytes` (each
/// ill-formed sequence replaced by U+FFFD).
pub uninterp spec fn utf8_lossy(bytes: Seq<u8>) -> Seq<char>;

/// The characters `String::from_utf8_lossy` gives for `bytes`: the
/// decoded characters of valid UTF-8, the named lossy decoding of
/// anything else.
pub open spec fn lossy_text(bytes: Seq<u8>) -> Seq<char> {
    if valid_utf8(bytes) { decode_utf8(bytes) } else { utf8_lossy(bytes) }
}

/// Calls `String::from_utf8_lossy`. Trusted: the result is the named
/// lossy decoding of the bytes, and for valid UTF-8 it is exactly the
/// decoded characters (the documentation: valid input is returned
/// unchanged). What it makes of ill-formed input is left to the name.
#[verifier::external_body]
pub(crate) fn string_from_utf8_lossy(bytes: &[u8]) -> (s: String)
    ensures
        s@ == utf8_lossy(bytes@),
        valid_utf8(bytes@) ==> s@ == decode_utf8(bytes@),
{
    String::from_utf8_lossy(bytes).into_owned()
}

} // verus!

verus! {

/// Calls `Iterator::collect` into a `String`. Trusted: the string holds
/// exactly the given characters, in order.
#[verifier::external_body]
pub(crate) fn string_from_chars(chars: &[char]) -> (s: String)
    ensures
        s@ == chars@,
{
    chars.iter().collect()
}

/// The characters of a byte sequence read one byte per character.
pub open spec fn chars_of_bytes(b: Seq<u8>) -> Seq<char> {
    b.map_values(|x: u8| x as char)
}

/// A string holding one character per byte of `bytes` (each byte read
/// as the character with that code).
pub fn string_from_bytes_latin(bytes: &[u8]) -> (s: String)
    ensures
        s@ == chars_of_bytes(bytes@),
{
    let mut chars: Vec<char> = Vec::new();
    let mut i: usize = 0;
    while i < bytes.len()
        invariant
            i <= bytes@.len(),
            chars@ =~= chars_of_bytes(bytes@.subrange(0, i as int)),
        decreases bytes@.len() - i,
    {
        chars.push(bytes[i] as char);
        i += 1;
        assert(chars_of_bytes(bytes@.subrange(0, i as int)) =~= chars_of_bytes(bytes@.subrange(0, (i - 1) as int)).push(bytes@[i - 1] as char));
    }
    assert(bytes@.subrange(0, bytes@.len() as int) =~= bytes@);
    string_from_chars(chars.as_slice())
}

/// The characters of a string slice.
pub fn str_chars(s: &str) -> (r: Vec<char>)
    ensures r@ == s@,
{
    let n = s.unicode_len();
    let mut v: Vec<char> = Vec::new();
    let mut i: usize = 0;
    while i < n
        invariant
            i <= n,
            n as nat == s@.len(),
            v@ == s@.subrange(0, i as int),
        decreases n - i,
    {
        v.push(s.get_char(i));
        i += 1;
        assert(v@ =~= s@.subrange(0, i as int));
    }
    assert(s@.subrange(0, n as int) =~= s@);
    v
}

} // verus!
