//! The library's error type.

use vstd::prelude::*;

verus! {

/// Width of a little-endian scalar read that ran past the end of input.
#[derive(Clone, Copy, Debug, PartialEq, Eq)]
pub enum ReadWidth {
    U8,
    I16,
    U32,
    U64,
}

/// What the ASCII reader found wrong, at a 1-based line and column.
#[derive(Clone, Copy, Debug, PartialEq, Eq)]
pub enum AsciiErrorKind {
    ExpectedColon,
    ExpectedIdentifier,
    UnexpectedEofInBody,
    NestingTooDeep,
    ExpectedArrayOpenBrace,
    ExpectedArrayName,
    ExpectedArrayColon,
    UnexpectedEofInArray,
    ExpectedArraySeparator,
    UnexpectedScalarByte,
    UnexpectedEofInScalar,
    UnterminatedStringAtNewline,
    UnterminatedStringAtEof,
    ExpectedUnsignedInteger,
    ExpectedNumericToken,
}

/// Errors of the binary reader, the ASCII reader and the ASCII writer.
#[derive(Clone, Copy, Debug, PartialEq, Eq)]
pub enum FbxError {
    /// Fewer than the 27 header bytes.
    HeaderTruncated,
    /// The 21-byte `Kaydara FBX Binary  \0` magic does not match.
    MagicMismatch,
    /// The two bytes after the magic are not `0x1A 0x00`.
    MagicTailMismatch,
    /// A scalar read ran past the end of input.
    ReadPastEof(ReadWidth),
    /// Node Record nesting reached the depth limit.
    NestingTooDeep,
    /// A node read started on a NULL-record sentinel.
    NullRecordEntered,
    /// A node's EndOffset lies past the end of input.
    EndOffsetPastEof,
    /// A node's name runs past the end of input.
    NamePastEof,
    /// A node's name is not UTF-8.
    NameNotUtf8,
    /// The properties consumed a byte count other than PropertyListLen.
    PropertyListLenMismatch,
    /// A nested list ran past its node's EndOffset before its NULL record.
    NestedListOverrun,
    /// A node's records ended somewhere other than its EndOffset.
    EndOffsetMismatch,
    /// An unknown property type code.
    UnknownPropertyType(u8),
    /// An `S` property runs past the end of input.
    StringPastEof,
    /// An `R` property runs past the end of input.
    RawPastEof,
    /// ArrayLength times the element width overflows.
    ArrayLengthOverflow,
    /// An uncompressed array runs past the end of input.
    ArrayPastEof,
    /// A compressed array runs past the end of input.
    CompressedArrayPastEof,
    /// zlib inflation failed.
    InflateFailed,
    /// The inflated array has a length other than the declared one.
    InflatedLengthMismatch,
    /// An array encoding other than 0 (raw) or 1 (zlib).
    UnknownArrayEncoding(u32),
    /// An ASCII syntax error at a line and column.
    Ascii(AsciiErrorKind, usize, usize),
    /// A typed array's `*N` count differs from its element count.
    AsciiArrayCountMismatch,
    /// A typed array's `*N` count does not fit in 64 bits.
    AsciiBadUnsignedInteger,
    /// A float token that is not a valid decimal float.
    AsciiBadFloat,
    /// The ASCII writer met a string holding a `"` byte.
    StringHasQuote,
    /// The ASCII writer met a string holding a newline byte.
    StringHasNewline,
    /// The ASCII writer met a `Raw` blob, which has no ASCII form.
    RawHasNoAsciiForm,
    /// The ASCII writer met an array where a scalar was expected.
    ArrayInScalarPosition,
    /// The ASCII writer met a byte array, which has no ASCII form.
    ByteArrayHasNoAsciiForm,
    /// The ASCII writer met a float given as a bit pattern; the writer
    /// prints decimal text only.
    FloatNotDecimal,
    /// A polygon of `PolygonVertexIndex` spanning the given first and
    /// last positions has fewer than three corners.
    PolygonTooFewCorners(usize, usize),
    /// `PolygonVertexIndex` does not end on a polygon-end marker.
    PolygonNotClosed,
    /// The input is neither binary FBX nor ASCII FBX.
    NotFbx,
    /// A `Geometry` has no `Vertices` child.
    MissingVertices,
    /// A `Geometry`'s `Vertices` is not a float array.
    VerticesNotFloatArray,
    /// A `Geometry`'s `Vertices` length is not a multiple of three.
    VerticesLengthNotTriple(usize),
    /// A `Geometry` has no `PolygonVertexIndex` child.
    MissingPolygonVertexIndex,
    /// A `Geometry`'s `PolygonVertexIndex` is not an `i32` array.
    PolygonVertexIndexNotI32Array,
    /// A polygon corner names a vertex past the end of `Vertices` (the
    /// vertex index and the number of vertices).
    VertexIndexOutOfRange(u32, usize),
    /// A layer's data array length is not a multiple of its element
    /// width (the length and the width).
    LayerLengthNotMultiple(usize, usize),
    /// A layer's index array holds (or yields) a negative index.
    LayerIndexNegative(i32),
    /// A layer is `IndexToDirect` but has no index array.
    LayerIndexMissing,
    /// A layer element index past the end of its data (the index and the
    /// element count).
    LayerElementOutOfRange(usize, usize),
    /// A `ByPolygon` material layer whose `Materials` length differs from
    /// the polygon count (the length and the count).
    MaterialsLengthMismatch(usize, u32),
}

/// The description of an ASCII syntax error.
pub open spec fn spec_ascii_message(k: AsciiErrorKind) -> Seq<char> {
    match k {
        AsciiErrorKind::ExpectedColon => "ascii FBX: expected ':' after node key"@,
        AsciiErrorKind::ExpectedIdentifier => "ascii FBX: expected identifier"@,
        AsciiErrorKind::UnexpectedEofInBody => "ascii FBX: unexpected EOF inside `{` body"@,
        AsciiErrorKind::NestingTooDeep => "ascii FBX: node nesting exceeds the 128-level limit"@,
        AsciiErrorKind::ExpectedArrayOpenBrace => "ascii FBX: expected '{' after typed-array count"@,
        AsciiErrorKind::ExpectedArrayName => "ascii FBX: expected 'a' as the typed-array body name"@,
        AsciiErrorKind::ExpectedArrayColon => "ascii FBX: expected ':' after typed-array 'a'"@,
        AsciiErrorKind::UnexpectedEofInArray => "ascii FBX: unexpected EOF inside typed-array body"@,
        AsciiErrorKind::ExpectedArraySeparator => "ascii FBX: expected ',' or '}' in array"@,
        AsciiErrorKind::UnexpectedScalarByte => "ascii FBX: unexpected byte where a scalar value was expected"@,
        AsciiErrorKind::UnexpectedEofInScalar => "ascii FBX: unexpected EOF where a scalar value was expected"@,
        AsciiErrorKind::UnterminatedStringAtNewline => "ascii FBX: unterminated string at newline"@,
        AsciiErrorKind::UnterminatedStringAtEof => "ascii FBX: unterminated string at EOF"@,
        AsciiErrorKind::ExpectedUnsignedInteger => "ascii FBX: expected unsigned integer"@,
        AsciiErrorKind::ExpectedNumericToken => "ascii FBX: expected numeric token"@,
    }
}

/// The description of an error.
pub open spec fn spec_message(e: FbxError) -> Seq<char> {
    match e {
            FbxError::HeaderTruncated => "binary FBX truncated: fewer than 27 header bytes"@,
            FbxError::MagicMismatch => "binary FBX magic mismatch: expected `Kaydara FBX Binary  \\0`"@,
            FbxError::MagicTailMismatch => "binary FBX magic-tail mismatch: expected 0x1A 0x00 at offset 20"@,
            FbxError::ReadPastEof(ReadWidth::U8) => "binary FBX: u8 read past EOF"@,
            FbxError::ReadPastEof(ReadWidth::I16) => "binary FBX: i16 read past EOF"@,
            FbxError::ReadPastEof(ReadWidth::U32) => "binary FBX: u32 read past EOF"@,
            FbxError::ReadPastEof(ReadWidth::U64) => "binary FBX: u64 read past EOF"@,
            FbxError::NestingTooDeep => "FBX: node nesting exceeds the 128-level limit"@,
            FbxError::NullRecordEntered => "binary FBX: read_node entered on a NULL-record sentinel"@,
            FbxError::EndOffsetPastEof => "binary FBX: node EndOffset past file length"@,
            FbxError::NamePastEof => "binary FBX: node Name extends past EOF"@,
            FbxError::NameNotUtf8 => "binary FBX: node Name not UTF-8"@,
            FbxError::PropertyListLenMismatch => "binary FBX: PropertyListLen mismatch"@,
            FbxError::NestedListOverrun => "binary FBX: nested list ran past EndOffset before NULL-record"@,
            FbxError::EndOffsetMismatch => "binary FBX: node consumed bytes up to a position other than its EndOffset"@,
            FbxError::UnknownPropertyType(_) => "binary FBX: unknown property type code"@,
            FbxError::StringPastEof => "binary FBX: S property runs past EOF"@,
            FbxError::RawPastEof => "binary FBX: R property runs past EOF"@,
            FbxError::ArrayLengthOverflow => "binary FBX: array_length * elem_bytes overflow"@,
            FbxError::ArrayPastEof => "binary FBX: uncompressed array runs past EOF"@,
            FbxError::CompressedArrayPastEof => "binary FBX: compressed array runs past EOF"@,
            FbxError::InflateFailed => "binary FBX: zlib inflate failed"@,
            FbxError::InflatedLengthMismatch => "binary FBX: inflated array length mismatch"@,
            FbxError::UnknownArrayEncoding(_) => "binary FBX: unknown array encoding (only 0 / 1 are documented)"@,
            FbxError::Ascii(k, _, _) => spec_ascii_message(k),
            FbxError::AsciiArrayCountMismatch => "ascii FBX: typed-array count != actual element count"@,
            FbxError::AsciiBadUnsignedInteger => "ascii FBX: bad unsigned integer"@,
            FbxError::AsciiBadFloat => "ascii FBX: bad float"@,
            FbxError::StringHasQuote => "ascii FBX writer: string property contains a `\"` byte (quote); grammar has no escape mechanism"@,
            FbxError::StringHasNewline => "ascii FBX writer: string property contains a newline byte"@,
            FbxError::RawHasNoAsciiForm => "ascii FBX writer: `Raw` blob has no ASCII representation"@,
            FbxError::ArrayInScalarPosition => "ascii FBX writer: array variant reached the scalar dispatcher"@,
            FbxError::ByteArrayHasNoAsciiForm => "ascii FBX writer: byte array has no ASCII representation"@,
            FbxError::FloatNotDecimal => "ascii FBX writer: float value is not in decimal form"@,
            FbxError::PolygonTooFewCorners(_, _) => "FBX Geometry: polygon has fewer than 3 corners"@,
            FbxError::PolygonNotClosed => "FBX Geometry: PolygonVertexIndex did not end on a polygon-end marker (negative)"@,
            FbxError::NotFbx => "input is neither binary FBX (Kaydara magic) nor ASCII FBX (`; FBX` banner)"@,
            FbxError::MissingVertices => "FBX Geometry: missing required `Vertices` sub-record"@,
            FbxError::VerticesNotFloatArray => "FBX Geometry: Vertices property is not a d/f array"@,
            FbxError::VerticesLengthNotTriple(_) => "FBX Geometry: Vertices length not a multiple of 3"@,
            FbxError::MissingPolygonVertexIndex => "FBX Geometry: missing `PolygonVertexIndex` sub-record"@,
            FbxError::PolygonVertexIndexNotI32Array => "FBX Geometry: PolygonVertexIndex property is not an i32 array"@,
            FbxError::VertexIndexOutOfRange(_, _) => "FBX Geometry: PolygonVertexIndex value out of range for the Vertices array"@,
            FbxError::LayerLengthNotMultiple(_, _) => "FBX LayerElement: data length not a multiple of the element width"@,
            FbxError::LayerIndexNegative(_) => "FBX LayerElement: IndexToDirect index (negative)"@,
            FbxError::LayerIndexMissing => "FBX LayerElement: ReferenceInformationType==IndexToDirect but no Index sub-record"@,
            FbxError::LayerElementOutOfRange(_, _) => "FBX LayerElement: element index out of range for the data array"@,
            FbxError::MaterialsLengthMismatch(_, _) => "FBX LayerElementMaterial: Materials length differs from the polygon count (ByPolygon mapping)"@,    }
}

impl FbxError {
    /// A human-readable description of the error.
    pub fn message(&self) -> (s: &'static str)
        ensures s@ == spec_message(*self),
    {
        match self {
            FbxError::HeaderTruncated => "binary FBX truncated: fewer than 27 header bytes",
            FbxError::MagicMismatch => "binary FBX magic mismatch: expected `Kaydara FBX Binary  \\0`",
            FbxError::MagicTailMismatch => "binary FBX magic-tail mismatch: expected 0x1A 0x00 at offset 20",
            FbxError::ReadPastEof(ReadWidth::U8) => "binary FBX: u8 read past EOF",
            FbxError::ReadPastEof(ReadWidth::I16) => "binary FBX: i16 read past EOF",
            FbxError::ReadPastEof(ReadWidth::U32) => "binary FBX: u32 read past EOF",
            FbxError::ReadPastEof(ReadWidth::U64) => "binary FBX: u64 read past EOF",
            FbxError::NestingTooDeep => "FBX: node nesting exceeds the 128-level limit",
            FbxError::NullRecordEntered => "binary FBX: read_node entered on a NULL-record sentinel",
            FbxError::EndOffsetPastEof => "binary FBX: node EndOffset past file length",
            FbxError::NamePastEof => "binary FBX: node Name extends past EOF",
            FbxError::NameNotUtf8 => "binary FBX: node Name not UTF-8",
            FbxError::PropertyListLenMismatch => "binary FBX: PropertyListLen mismatch",
            FbxError::NestedListOverrun => "binary FBX: nested list ran past EndOffset before NULL-record",
            FbxError::EndOffsetMismatch => "binary FBX: node consumed bytes up to a position other than its EndOffset",
            FbxError::UnknownPropertyType(_) => "binary FBX: unknown property type code",
            FbxError::StringPastEof => "binary FBX: S property runs past EOF",
            FbxError::RawPastEof => "binary FBX: R property runs past EOF",
            FbxError::ArrayLengthOverflow => "binary FBX: array_length * elem_bytes overflow",
            FbxError::ArrayPastEof => "binary FBX: uncompressed array runs past EOF",
            FbxError::CompressedArrayPastEof => "binary FBX: compressed array runs past EOF",
            FbxError::InflateFailed => "binary FBX: zlib inflate failed",
            FbxError::InflatedLengthMismatch => "binary FBX: inflated array length mismatch",
            FbxError::UnknownArrayEncoding(_) => "binary FBX: unknown array encoding (only 0 / 1 are documented)",
            FbxError::Ascii(k, _, _) => ascii_message(*k),
            FbxError::AsciiArrayCountMismatch => "ascii FBX: typed-array count != actual element count",
            FbxError::AsciiBadUnsignedInteger => "ascii FBX: bad unsigned integer",
            FbxError::AsciiBadFloat => "ascii FBX: bad float",
            FbxError::StringHasQuote => "ascii FBX writer: string property contains a `\"` byte (quote); grammar has no escape mechanism",
            FbxError::StringHasNewline => "ascii FBX writer: string property contains a newline byte",
            FbxError::RawHasNoAsciiForm => "ascii FBX writer: `Raw` blob has no ASCII representation",
            FbxError::ArrayInScalarPosition => "ascii FBX writer: array variant reached the scalar dispatcher",
            FbxError::ByteArrayHasNoAsciiForm => "ascii FBX writer: byte array has no ASCII representation",
            FbxError::FloatNotDecimal => "ascii FBX writer: float value is not in decimal form",
            FbxError::PolygonTooFewCorners(_, _) => "FBX Geometry: polygon has fewer than 3 corners",
            FbxError::PolygonNotClosed => "FBX Geometry: PolygonVertexIndex did not end on a polygon-end marker (negative)",
            FbxError::NotFbx => "input is neither binary FBX (Kaydara magic) nor ASCII FBX (`; FBX` banner)",
            FbxError::MissingVertices => "FBX Geometry: missing required `Vertices` sub-record",
            FbxError::VerticesNotFloatArray => "FBX Geometry: Vertices property is not a d/f array",
            FbxError::VerticesLengthNotTriple(_) => "FBX Geometry: Vertices length not a multiple of 3",
            FbxError::MissingPolygonVertexIndex => "FBX Geometry: missing `PolygonVertexIndex` sub-record",
            FbxError::PolygonVertexIndexNotI32Array => "FBX Geometry: PolygonVertexIndex property is not an i32 array",
            FbxError::VertexIndexOutOfRange(_, _) => "FBX Geometry: PolygonVertexIndex value out of range for the Vertices array",
            FbxError::LayerLengthNotMultiple(_, _) => "FBX LayerElement: data length not a multiple of the element width",
            FbxError::LayerIndexNegative(_) => "FBX LayerElement: IndexToDirect index (negative)",
            FbxError::LayerIndexMissing => "FBX LayerElement: ReferenceInformationType==IndexToDirect but no Index sub-record",
            FbxError::LayerElementOutOfRange(_, _) => "FBX LayerElement: element index out of range for the data array",
            FbxError::MaterialsLengthMismatch(_, _) => "FBX LayerElementMaterial: Materials length differs from the polygon count (ByPolygon mapping)",
        }
    }
}

fn ascii_message(k: AsciiErrorKind) -> (s: &'static str)
    ensures s@ == spec_ascii_message(k),
{
    match k {
        AsciiErrorKind::ExpectedColon => "ascii FBX: expected ':' after node key",
        AsciiErrorKind::ExpectedIdentifier => "ascii FBX: expected identifier",
        AsciiErrorKind::UnexpectedEofInBody => "ascii FBX: unexpected EOF inside `{` body",
        AsciiErrorKind::NestingTooDeep => "ascii FBX: node nesting exceeds the 128-level limit",
        AsciiErrorKind::ExpectedArrayOpenBrace => "ascii FBX: expected '{' after typed-array count",
        AsciiErrorKind::ExpectedArrayName => "ascii FBX: expected 'a' as the typed-array body name",
        AsciiErrorKind::ExpectedArrayColon => "ascii FBX: expected ':' after typed-array 'a'",
        AsciiErrorKind::UnexpectedEofInArray => "ascii FBX: unexpected EOF inside typed-array body",
        AsciiErrorKind::ExpectedArraySeparator => "ascii FBX: expected ',' or '}' in array",
        AsciiErrorKind::UnexpectedScalarByte => "ascii FBX: unexpected byte where a scalar value was expected",
        AsciiErrorKind::UnexpectedEofInScalar => "ascii FBX: unexpected EOF where a scalar value was expected",
        AsciiErrorKind::UnterminatedStringAtNewline => "ascii FBX: unterminated string at newline",
        AsciiErrorKind::UnterminatedStringAtEof => "ascii FBX: unterminated string at EOF",
        AsciiErrorKind::ExpectedUnsignedInteger => "ascii FBX: expected unsigned integer",
        AsciiErrorKind::ExpectedNumericToken => "ascii FBX: expected numeric token",
    }
}

} // verus!
