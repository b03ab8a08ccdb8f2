use oxideav_fbx::binary::FBX_MAGIC;
use oxideav_fbx::decoder::{is_binary_fbx, FbxDecoder};
use oxideav_fbx::error::FbxError;

#[test]
fn ascii_input_is_not_binary() {
    let ascii = b"; FBX 7.4.0 project file\nFBXHeaderExtension:  {\n";
    assert!(!is_binary_fbx(ascii));
}

#[test]
fn binary_magic_detected() {
    assert!(is_binary_fbx(&FBX_MAGIC));
    assert!(is_binary_fbx(&[&FBX_MAGIC[..], &[0u8; 100][..]].concat()));
}

#[test]
fn ascii_input_decodes_via_ascii_front_end() {
    let src = b"; FBX 7.5.0 project file\n\
                FBXHeaderExtension:  {\n\
                \tFBXVersion: 7500\n\
                }\n\
                Objects:  {\n\
                }\n\
                Connections:  {\n\
                }\n";
    let mut dec = FbxDecoder::new();
    dec.decode_document(src).expect("ASCII parse");
    assert_eq!(dec.last_document.as_ref().map(|d| d.version), Some(7500));
}

#[test]
fn neither_binary_nor_ascii_returns_unsupported() {
    let mut dec = FbxDecoder::new();
    let err = dec.decode_document(b"this is not FBX at all").unwrap_err();
    let s = err.message();
    assert!(
        s.contains("ASCII") || s.contains("Kaydara") || s.contains("neither"),
        "expected sniff failure message, got: {s}"
    );
    assert_eq!(err, FbxError::NotFbx);
    assert!(dec.last_document.is_none());
}

#[test]
fn binary_input_decodes_via_binary_front_end() {
    let mut buf = FBX_MAGIC.to_vec();
    buf.extend_from_slice(&[0x1a, 0x00]);
    buf.extend_from_slice(&7300u32.to_le_bytes());
    let mut dec = FbxDecoder::default();
    dec.decode_document(&buf).unwrap();
    assert_eq!(dec.last_document.as_ref().map(|d| d.version), Some(7300));
}

#[test]
fn failed_decode_keeps_the_previous_document() {
    let mut dec = FbxDecoder::new();
    dec.decode_document(b"; FBX 7.5.0\nFBXHeaderExtension:  {\n\tFBXVersion: 7500\n}\n")
        .unwrap();
    let err = dec.decode_document(b"; FBX 7.5.0\nA: \"unterminated\n").unwrap_err();
    assert!(matches!(err, FbxError::Ascii(..)));
    assert_eq!(dec.last_document.as_ref().map(|d| d.version), Some(7500));
    // A truncated binary header is a binary error.
    let err = dec.decode_document(&FBX_MAGIC[..]).unwrap_err();
    assert_eq!(err, FbxError::HeaderTruncated);
}
