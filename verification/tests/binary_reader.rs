use oxideav_fbx::binary::{
    parse, parse_footer, FbxFooter, FBX_MAGIC, FBX_MAGIC_TAIL, FBX_VERSION_64BIT_THRESHOLD,
    FOOTER_TRAILER,
};
use oxideav_fbx::error::{FbxError, ReadWidth};
use oxideav_fbx::model::{FbxProperty, FbxReal};

fn build_empty_doc(version: u32) -> Vec<u8> {
    let mut out = Vec::new();
    out.extend_from_slice(&FBX_MAGIC);
    out.extend_from_slice(&FBX_MAGIC_TAIL);
    out.extend_from_slice(&version.to_le_bytes());
    out
}

#[test]
fn header_round_trip_pre_7500() {
    let buf = build_empty_doc(7400);
    let doc = parse(&buf).expect("empty 7400 doc parses");
    assert_eq!(doc.version, 7400);
    assert!(doc.root.children.is_empty());
}

#[test]
fn header_round_trip_post_7500() {
    let buf = build_empty_doc(7700);
    let doc = parse(&buf).expect("empty 7700 doc parses");
    assert_eq!(doc.version, 7700);
    assert!(doc.root.children.is_empty());
}

#[test]
fn rejects_bad_magic() {
    let mut buf = build_empty_doc(7400);
    buf[0] = b'X';
    assert!(parse(&buf).is_err());
}

#[test]
fn rejects_truncated_header() {
    let buf = vec![0u8; 10];
    assert!(parse(&buf).is_err());
}

#[test]
fn rejects_bad_magic_tail() {
    let mut buf = build_empty_doc(7400);
    buf[21] = 0xFF;
    assert!(parse(&buf).is_err());
}

fn push_node_header_32(
    out: &mut Vec<u8>,
    end_offset: u32,
    num_props: u32,
    prop_list_len: u32,
    name: &str,
) {
    out.extend_from_slice(&end_offset.to_le_bytes());
    out.extend_from_slice(&num_props.to_le_bytes());
    out.extend_from_slice(&prop_list_len.to_le_bytes());
    out.push(name.len() as u8);
    out.extend_from_slice(name.as_bytes());
}

#[test]
fn truncated_i16_property_errors_instead_of_panicking() {
    let mut buf = build_empty_doc(7400);
    push_node_header_32(&mut buf, 43, 1, 3, "A");
    buf.push(b'Y');
    buf.push(0x07);
    let err = parse(&buf).expect_err("truncated Y errors");
    assert!(
        err.message().contains("i16"),
        "expected the bounds-checked i16 read to fire, got: {err:?}"
    );
}

#[test]
fn hostile_num_properties_does_not_preallocate() {
    let mut buf = build_empty_doc(7400);
    push_node_header_32(&mut buf, 43, u32::MAX, 3, "A");
    buf.push(b'Y');
    buf.push(0x07);
    assert!(parse(&buf).is_err());
}

#[test]
fn binary_nesting_depth_bomb_errors_instead_of_overflowing_the_stack() {
    const N: u32 = 10_000;
    let mut buf = build_empty_doc(7400);
    let innermost_end = 27 + 14 * N;
    for k in 0..N {
        let end = innermost_end + 13 * (N - 1 - k);
        push_node_header_32(&mut buf, end, 0, 0, "A");
    }
    for _ in 0..N - 1 {
        buf.extend_from_slice(&[0u8; 13]);
    }
    let err = parse(&buf).expect_err("depth bomb rejected");
    assert!(
        err.message().contains("nesting"),
        "expected the depth limit to fire, got: {err:?}"
    );
}

fn append_footer(out: &mut Vec<u8>, version: u32, id: [u8; 16]) {
    let null_bytes = if version >= FBX_VERSION_64BIT_THRESHOLD { 25 } else { 13 };
    out.extend(std::iter::repeat(0u8).take(null_bytes));
    out.extend_from_slice(&id);
    while out.len() % 16 != 0 {
        out.push(0);
    }
    out.extend_from_slice(&[0u8; 4]);
    out.extend_from_slice(&version.to_le_bytes());
    out.extend(std::iter::repeat(0u8).take(120));
    out.extend_from_slice(&FOOTER_TRAILER);
}

fn tiny_doc_with_footer(version: u32, id: [u8; 16]) -> Vec<u8> {
    let mut buf = build_empty_doc(version);
    if version >= FBX_VERSION_64BIT_THRESHOLD {
        let start = buf.len() as u64;
        let end = start + 8 * 3 + 1 + 1 + 5;
        buf.extend_from_slice(&end.to_le_bytes());
        buf.extend_from_slice(&1u64.to_le_bytes());
        buf.extend_from_slice(&5u64.to_le_bytes());
        buf.push(1);
        buf.push(b'A');
    } else {
        let start = buf.len() as u32;
        let end = start + 4 * 3 + 1 + 1 + 5;
        buf.extend_from_slice(&end.to_le_bytes());
        buf.extend_from_slice(&1u32.to_le_bytes());
        buf.extend_from_slice(&5u32.to_le_bytes());
        buf.push(1);
        buf.push(b'A');
    }
    buf.push(b'I');
    buf.extend_from_slice(&7i32.to_le_bytes());
    append_footer(&mut buf, version, id);
    buf
}

#[test]
fn bool_token_bytes_decode_per_the_fixture_observation() {
    for (byte, expect) in [(b'T', true), (b'F', false), (0u8, false), (1u8, true)] {
        let mut buf = build_empty_doc(7400);
        push_node_header_32(&mut buf, 27 + 13 + 1 + 2, 1, 2, "B");
        buf.push(b'C');
        buf.push(byte);
        let doc = parse(&buf).expect("C prop parses");
        assert_eq!(
            doc.root.children[0].properties[0],
            FbxProperty::Bool(expect),
            "byte 0x{byte:02x}"
        );
    }
}

#[test]
fn footer_round_trips_pre_7500() {
    let id = [
        0xfa, 0xbc, 0xaf, 0x0f, 0xd2, 0xc0, 0xd8, 0x63, 0xb2, 0x78, 0xf4, 0x89, 0x14, 0xf3,
        0x26, 0x75,
    ];
    let buf = tiny_doc_with_footer(7400, id);
    let doc = parse(&buf).expect("doc with footer parses");
    assert_eq!(doc.root.children.len(), 1);
    let footer = parse_footer(&buf).expect("footer decodes");
    assert_eq!(footer.id, id);
}

#[test]
fn footer_round_trips_post_7500_64bit_null_record() {
    let id = [0x11; 16];
    let buf = tiny_doc_with_footer(7700, id);
    let footer = parse_footer(&buf).expect("64-bit footer decodes");
    assert_eq!(footer.id, id);
}

#[test]
fn missing_footer_is_none_not_an_error() {
    let mut buf = build_empty_doc(7400);
    buf.extend_from_slice(&[0u8; 13]);
    assert_eq!(parse_footer(&buf), None);
    assert_eq!(parse_footer(&build_empty_doc(7400)), None);
}

#[test]
fn footer_version_echo_mismatch_is_rejected() {
    let mut buf = tiny_doc_with_footer(7400, [0x22; 16]);
    let n = buf.len();
    buf[n - 140..n - 136].copy_from_slice(&7500u32.to_le_bytes());
    assert_eq!(parse_footer(&buf), None);
}

#[test]
fn footer_bad_trailer_signature_is_rejected() {
    let mut buf = tiny_doc_with_footer(7400, [0x22; 16]);
    let n = buf.len();
    buf[n - 1] ^= 0xff;
    assert_eq!(parse_footer(&buf), None);
}

#[test]
fn footer_trailing_garbage_after_signature_is_rejected() {
    let mut buf = tiny_doc_with_footer(7400, [0x22; 16]);
    buf.push(0);
    assert_eq!(parse_footer(&buf), None);
}

#[test]
fn footer_nonzero_alignment_pad_is_rejected() {
    let id = [0x33; 16];
    let mut buf = build_empty_doc(7400);
    buf.extend_from_slice(&[0u8; 13]);
    buf.extend_from_slice(&id);
    assert_ne!(buf.len() % 16, 0, "test premise: padding exists");
    let pad_at = buf.len();
    while buf.len() % 16 != 0 {
        buf.push(0);
    }
    buf.extend_from_slice(&[0u8; 4]);
    buf.extend_from_slice(&7400u32.to_le_bytes());
    buf.extend(std::iter::repeat(0u8).take(120));
    buf.extend_from_slice(&FOOTER_TRAILER);
    assert!(parse_footer(&buf).is_some(), "well-formed shape decodes");
    buf[pad_at] = 1;
    assert_eq!(parse_footer(&buf), None);
}

#[test]
fn footer_id_hex_round_trips() {
    let id = [
        0xfa, 0xbc, 0xaf, 0x0f, 0xd2, 0xc0, 0xd8, 0x63, 0xb2, 0x78, 0xf4, 0x89, 0x14, 0xf3,
        0x26, 0x75,
    ];
    let footer = FbxFooter { id };
    let hex = footer.id_hex();
    assert_eq!(hex, "fabcaf0fd2c0d863b278f48914f32675");
    assert_eq!(FbxFooter::id_from_hex(&hex), Some(id));
    assert_eq!(FbxFooter::id_from_hex("zz"), None);
    assert_eq!(FbxFooter::id_from_hex(&hex[..30]), None);
    let nonhex = format!("g{}", &hex[1..]);
    assert_eq!(FbxFooter::id_from_hex(&nonhex), None);
}

// ---------------------------------------------------------------------
// Further cases of the reader
// ---------------------------------------------------------------------

/// One 32-bit top-level record holding `props` (already encoded).
fn doc_with_record(name: &str, num_props: u32, props: &[u8]) -> Vec<u8> {
    let mut buf = build_empty_doc(7400);
    let end = (buf.len() + 13 + name.len() + props.len()) as u32;
    push_node_header_32(&mut buf, end, num_props, props.len() as u32, name);
    buf.extend_from_slice(props);
    buf.extend_from_slice(&[0u8; 13]);
    buf
}

fn adler32(data: &[u8]) -> u32 {
    let (mut a, mut b) = (1u32, 0u32);
    for &x in data {
        a = (a + x as u32) % 65521;
        b = (b + a) % 65521;
    }
    (b << 16) | a
}

/// A zlib stream holding `data` in one stored deflate block.
fn zlib_stored(data: &[u8]) -> Vec<u8> {
    let mut z = vec![0x78, 0x01, 0x01];
    let len = data.len() as u16;
    z.extend_from_slice(&len.to_le_bytes());
    z.extend_from_slice(&(!len).to_le_bytes());
    z.extend_from_slice(data);
    z.extend_from_slice(&adler32(data).to_be_bytes());
    z
}

fn array_prop(code: u8, count: u32, encoding: u32, payload: &[u8]) -> Vec<u8> {
    let mut p = vec![code];
    p.extend_from_slice(&count.to_le_bytes());
    p.extend_from_slice(&encoding.to_le_bytes());
    p.extend_from_slice(&(payload.len() as u32).to_le_bytes());
    p.extend_from_slice(payload);
    p
}

#[test]
fn scalar_properties_of_every_code() {
    let mut props = Vec::new();
    props.push(b'Y');
    props.extend_from_slice(&(-2i16).to_le_bytes());
    props.push(b'I');
    props.extend_from_slice(&(-70000i32).to_le_bytes());
    props.push(b'L');
    props.extend_from_slice(&(1i64 << 40).to_le_bytes());
    props.push(b'F');
    props.extend_from_slice(&1.5f32.to_bits().to_le_bytes());
    props.push(b'D');
    props.extend_from_slice(&(-2.75f64).to_bits().to_le_bytes());
    props.push(b'S');
    props.extend_from_slice(&3u32.to_le_bytes());
    props.extend_from_slice(b"abc");
    props.push(b'R');
    props.extend_from_slice(&2u32.to_le_bytes());
    props.extend_from_slice(&[9, 8]);
    let buf = doc_with_record("P", 7, &props);
    let doc = parse(&buf).unwrap();
    let p = &doc.root.children[0];
    assert_eq!(p.name, "P");
    assert_eq!(
        p.properties,
        vec![
            FbxProperty::I16(-2),
            FbxProperty::I32(-70000),
            FbxProperty::I64(1 << 40),
            FbxProperty::F32(1.5f32.to_bits()),
            FbxProperty::F64(FbxReal::Bits((-2.75f64).to_bits())),
            FbxProperty::String(b"abc".to_vec()),
            FbxProperty::Raw(vec![9, 8]),
        ]
    );
    assert_eq!(p.properties[3].as_i64(), Some(1));
    assert_eq!(p.properties[4].as_i64(), Some(-2));
    assert_eq!(p.properties[5].as_str(), Some("abc"));
}

#[test]
fn raw_arrays_decode() {
    let mut data = Vec::new();
    for v in [1i32, -2, 3] {
        data.extend_from_slice(&v.to_le_bytes());
    }
    let buf = doc_with_record("Ids", 1, &array_prop(b'i', 3, 0, &data));
    let doc = parse(&buf).unwrap();
    assert_eq!(doc.root.children[0].properties, vec![FbxProperty::I32Array(vec![1, -2, 3])]);

    let buf = doc_with_record("Flags", 1, &array_prop(b'b', 3, 0, &[0, 1, 0]));
    let doc = parse(&buf).unwrap();
    assert_eq!(
        doc.root.children[0].properties,
        vec![FbxProperty::BoolArray(vec![false, true, false])]
    );
}

#[test]
fn zlib_compressed_array_inflates() {
    let mut data = Vec::new();
    for v in [10i64, -20, 1 << 50] {
        data.extend_from_slice(&v.to_le_bytes());
    }
    let buf = doc_with_record("Times", 1, &array_prop(b'l', 3, 1, &zlib_stored(&data)));
    let doc = parse(&buf).unwrap();
    assert_eq!(
        doc.root.children[0].properties,
        vec![FbxProperty::I64Array(vec![10, -20, 1 << 50])]
    );
}

#[test]
fn compressed_array_failures() {
    let data = [0u8; 12];
    // Declares 4 elements but inflates to 3.
    let buf = doc_with_record("V", 1, &array_prop(b'i', 4, 1, &zlib_stored(&data)));
    assert_eq!(parse(&buf).unwrap_err(), FbxError::InflatedLengthMismatch);
    // Declares 2 elements but inflates past the 8-byte cap.
    let buf = doc_with_record("V", 1, &array_prop(b'i', 2, 1, &zlib_stored(&data)));
    assert_eq!(parse(&buf).unwrap_err(), FbxError::InflateFailed);
    // Not a zlib stream at all.
    let buf = doc_with_record("V", 1, &array_prop(b'i', 1, 1, &[1, 2, 3, 4]));
    assert_eq!(parse(&buf).unwrap_err(), FbxError::InflateFailed);
    // Unknown encoding.
    let buf = doc_with_record("V", 1, &array_prop(b'i', 1, 7, &[1, 2, 3, 4]));
    assert_eq!(parse(&buf).unwrap_err(), FbxError::UnknownArrayEncoding(7));
}

#[test]
fn malformed_records_report_their_error() {
    assert_eq!(parse(&[0u8; 10]).unwrap_err(), FbxError::HeaderTruncated);
    let mut bad = build_empty_doc(7400);
    bad[3] = 0;
    assert_eq!(parse(&bad).unwrap_err(), FbxError::MagicMismatch);
    let mut bad = build_empty_doc(7400);
    bad[22] = 1;
    assert_eq!(parse(&bad).unwrap_err(), FbxError::MagicTailMismatch);
    let buf = doc_with_record("Q", 1, &[b'?']);
    assert_eq!(parse(&buf).unwrap_err(), FbxError::UnknownPropertyType(b'?'));
    let mut buf = build_empty_doc(7400);
    push_node_header_32(&mut buf, 10_000, 0, 0, "A");
    assert_eq!(parse(&buf).unwrap_err(), FbxError::EndOffsetPastEof);
    let mut buf = build_empty_doc(7400);
    push_node_header_32(&mut buf, 27 + 13 + 1 + 3, 1, 2, "A");
    buf.extend_from_slice(&[b'Y', 0, 0]);
    assert_eq!(parse(&buf).unwrap_err(), FbxError::PropertyListLenMismatch);
    let mut buf = build_empty_doc(7400);
    push_node_header_32(&mut buf, 27 + 13 + 1 + 5, 1, 5, "A");
    buf.push(b'S');
    buf.extend_from_slice(&100u32.to_le_bytes());
    assert_eq!(parse(&buf).unwrap_err(), FbxError::StringPastEof);
    let _ = ReadWidth::U32;
}
