//! Format sniffing and document decoding: binary FBX by its magic,
//! ASCII FBX by its `; FBX` banner.

use vstd::prelude::*;
use crate::ascii::{spec_is_ascii_fbx, spec_parse_ascii};
use crate::binary::{fbx_magic, spec_parse_binary, FBX_MAGIC};
use crate::error::FbxError;
use crate::model::{doc_view, DocV, FbxDocument};

verus! {

/// The input starts with the binary magic `Kaydara FBX Binary  \0`.
pub open spec fn spec_is_binary_fbx(b: Seq<u8>) -> bool {
    b.len() >= 21 && b.subrange(0, 21) == fbx_magic()
}

/// `true` if `bytes` begins with the binary magic.
pub fn is_binary_fbx(bytes: &[u8]) -> (r: bool)
    ensures r == spec_is_binary_fbx(bytes@),
{
    if bytes.len() < 21 {
        return false;
    }
    let magic = FBX_MAGIC;
    assert(magic@ =~= fbx_magic());
    let mut i: usize = 0;
    while i < 21
        invariant
            i <= 21,
            bytes@.len() >= 21,
            magic@ == fbx_magic(),
            bytes@.subrange(0, i as int) == fbx_magic().subrange(0, i as int),
        decreases 21 - i,
    {
        if bytes[i] != magic[i] {
            assert(bytes@.subrange(0, 21)[i as int] != fbx_magic()[i as int]);
            return false;
        }
        i += 1;
        assert(bytes@.subrange(0, i as int) =~= fbx_magic().subrange(0, i as int));
    }
    assert(bytes@.subrange(0, 21) =~= fbx_magic());
    true
}

/// The document in `b`: binary when it has the magic, else ASCII when
/// it has the banner, else not FBX.
pub open spec fn spec_parse_document(b: Seq<u8>) -> Result<DocV, FbxError> {
    if spec_is_binary_fbx(b) {
        spec_parse_binary(b)
    } else if spec_is_ascii_fbx(b) {
        spec_parse_ascii(b)
    } else {
        Err(FbxError::NotFbx)
    }
}

/// FBX decoder state: the last document it read.
#[derive(Debug)]
pub struct FbxDecoder {
    /// The last successfully parsed document.
    pub last_document: Option<FbxDocument>,
}

impl Default for FbxDecoder {
    fn default() -> (d: Self)
        ensures d.last_document is None,
    {
        FbxDecoder { last_document: None }
    }
}

impl FbxDecoder {
    /// A decoder that has read nothing.
    pub fn new() -> (d: Self)
        ensures d.last_document is None,
    {
        FbxDecoder { last_document: None }
    }

    /// Sniff the form of `bytes`, parse the document, and keep it as
    /// the last document; on error the last document is unchanged.
    pub fn decode_document(&mut self, bytes: &[u8]) -> (r: Result<(), FbxError>)
        requires bytes@.len() <= isize::MAX,
        ensures
            match spec_parse_document(bytes@) {
                Ok(d) => r is Ok && (final(self).last_document matches Some(x) && doc_view(x) == d),
                Err(e) => r == Err::<(), FbxError>(e) && final(self).last_document == old(self).last_document,
            },
    {
        let parsed = if is_binary_fbx(bytes) {
            crate::binary::parse(bytes)
        } else if crate::ascii::is_ascii_fbx(bytes) {
            crate::ascii::parse(bytes)
        } else {
            return Err(FbxError::NotFbx);
        };
        match parsed {
            Ok(doc) => {
                self.last_document = Some(doc);
                Ok(())
            }
            Err(e) => Err(e),
        }
    }
}

} // verus!
