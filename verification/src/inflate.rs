//! zlib inflation of compressed array payloads, provided by `compcol`.

use vstd::prelude::*;

verus! {

#[verifier::external_type_specification]
#[verifier::external_body]
pub struct ExCompcolError(compcol::Error);

/// The plaintext that `compcol`'s capped zlib decoder produces from
/// `input` when it may emit at most `cap` bytes; `None` when it fails.
pub uninterp spec fn zlib_inflate_capped(input: Seq<u8>, cap: u64) -> Option<Seq<u8>>;

/// Calls `compcol::vec::decompress_to_vec_capped::<compcol::zlib::Zlib>`.
/// Trusted: the result is the named plaintext of `input` under the
/// output cap `cap` (a deterministic decoding of its arguments); an
/// `Err` is returned exactly when that decoding fails.
#[verifier::external_body]
pub(crate) fn inflate_zlib_capped(input: &[u8], cap: u64) -> (r: Result<Vec<u8>, compcol::Error>)
    ensures
        r is Ok <==> zlib_inflate_capped(input@, cap) is Some,
        r matches Ok(v) ==> zlib_inflate_capped(input@, cap) == Some(v@),
{
    compcol::vec::decompress_to_vec_capped::<compcol::zlib::Zlib>(input, cap)
}

} // verus!
