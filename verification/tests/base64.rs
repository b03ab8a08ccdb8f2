use oxideav_fbx::base64::{decode, encode, encode_bytes};

#[test]
fn round_trips_every_padding_length() {
    for n in 0..16usize {
        let bytes: Vec<u8> = (0..n as u8)
            .map(|i| i.wrapping_mul(37).wrapping_add(200))
            .collect();
        let text = encode(&bytes);
        assert_eq!(text.len() % 4, 0);
        assert_eq!(decode(text.as_bytes()).as_deref(), Some(bytes.as_slice()));
    }
}

#[test]
fn known_vectors() {
    assert_eq!(encode(b""), "");
    assert_eq!(encode(b"f"), "Zg==");
    assert_eq!(encode(b"fo"), "Zm8=");
    assert_eq!(encode(b"foo"), "Zm9v");
    assert_eq!(encode(b"foobar"), "Zm9vYmFy");
    assert_eq!(decode(b"Zm9vYmE=").as_deref(), Some(&b"fooba"[..]));
}

#[test]
fn fixture_content_prefix_is_a_tga_header() {
    let bytes = decode(b"AAAKAAAAAAAAAAAAAAEAARgA").unwrap();
    assert_eq!(&bytes[..3], &[0, 0, 10]);
    assert_eq!(u16::from_le_bytes([bytes[12], bytes[13]]), 256);
    assert_eq!(u16::from_le_bytes([bytes[14], bytes[15]]), 256);
    assert_eq!(bytes[16], 24);
}

#[test]
fn rejects_non_base64() {
    assert!(decode(b"abc").is_none());
    assert!(decode(b"ab=c").is_none());
    assert!(decode(b"a===").is_none());
    assert!(decode(&[0x89, b'P', b'N', b'G']).is_none());
    assert!(decode(b"Zm9v!!!!").is_none());
}

#[test]
fn encode_bytes_matches_encode() {
    for input in [&b""[..], b"\x00", b"\xff\xfe", b"any carnal pleas"] {
        assert_eq!(encode_bytes(input), encode(input).into_bytes());
    }
    assert_eq!(encode_bytes(b"\xfb\xff"), b"+/8=".to_vec());
}

#[test]
fn decode_of_all_alphabet_symbols() {
    let text = b"ABCDEFGHIJKLMNOPQRSTUVWXYZabcdefghijklmnopqrstuvwxyz0123456789+/";
    let bytes = decode(text).unwrap();
    assert_eq!(bytes.len(), 48);
    assert_eq!(encode(&bytes).as_bytes(), &text[..]);
    assert_eq!(decode(b"").as_deref(), Some(&b""[..]));
    assert_eq!(decode(b"====").as_deref(), None);
}
