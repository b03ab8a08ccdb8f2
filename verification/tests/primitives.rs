use oxideav_fbx::ascii::digits_value_slice;
use oxideav_fbx::bytes::{
    bytes_eq, copy_range, is_zero_run, read_u16, read_u32, read_u64, read_u8, to_i16, to_i32,
    to_i64,
};
use oxideav_fbx::decimal::{i64_decimal, push_i64_decimal, push_u64_digits};
use oxideav_fbx::error::{FbxError, ReadWidth};
use oxideav_fbx::text::{str_chars, string_from_bytes_latin};
use oxideav_fbx::trunc::{decimal_to_i64, f32_bits_to_i64, f64_bits_to_i64};

#[test]
fn little_endian_reads() {
    let b = [1u8, 2, 3, 4, 5, 6, 7, 8, 9];
    assert_eq!(read_u8(&b, 2, 6), Ok(9));
    assert_eq!(read_u8(&b, 5, 4), Err(FbxError::ReadPastEof(ReadWidth::U8)));
    assert_eq!(read_u16(&b, 0, 1, ReadWidth::I16), Ok(0x0302));
    assert_eq!(read_u16(&b, 8, 0, ReadWidth::I16), Err(FbxError::ReadPastEof(ReadWidth::I16)));
    assert_eq!(read_u32(&b, 1, 0), Ok(0x0504_0302));
    assert_eq!(read_u32(&b, 6, 0), Err(FbxError::ReadPastEof(ReadWidth::U32)));
    assert_eq!(read_u64(&b, 0, 1), Ok(0x0908_0706_0504_0302));
    assert_eq!(read_u64(&b, 2, 0), Err(FbxError::ReadPastEof(ReadWidth::U64)));
    assert_eq!(read_u8(&b, usize::MAX, 1), Err(FbxError::ReadPastEof(ReadWidth::U8)));
}

#[test]
fn twos_complement_reinterpretation() {
    assert_eq!(to_i16(0xffff), -1);
    assert_eq!(to_i16(0x7fff), i16::MAX);
    assert_eq!(to_i32(0x8000_0000), i32::MIN);
    assert_eq!(to_i64(u64::MAX - 1), -2);
}

#[test]
fn byte_range_helpers() {
    let b = [0u8, 0, 3, 0];
    assert!(is_zero_run(&b, 0, 2));
    assert!(!is_zero_run(&b, 1, 2));
    assert!(is_zero_run(&b, 3, 1));
    assert!(is_zero_run(&b, 4, 0));
    assert_eq!(copy_range(&b, 1, 2), vec![0, 3]);
    assert!(bytes_eq(b"abc", b"abc"));
    assert!(!bytes_eq(b"abc", b"abd"));
    assert!(!bytes_eq(b"ab", b"abc"));
}

#[test]
fn decimal_text_of_integers() {
    assert_eq!(i64_decimal(0), b"0".to_vec());
    assert_eq!(i64_decimal(-4096), b"-4096".to_vec());
    assert_eq!(i64_decimal(i64::MIN), b"-9223372036854775808".to_vec());
    let mut out = b"x=".to_vec();
    push_u64_digits(u64::MAX, &mut out);
    assert_eq!(out, b"x=18446744073709551615".to_vec());
    let mut out = Vec::new();
    push_i64_decimal(i64::MAX, &mut out);
    assert_eq!(out, b"9223372036854775807".to_vec());
}

#[test]
fn float_truncation_toward_zero() {
    assert_eq!(f64_bits_to_i64(2.999f64.to_bits()), 2);
    assert_eq!(f64_bits_to_i64((-2.999f64).to_bits()), -2);
    assert_eq!(f64_bits_to_i64(f64::INFINITY.to_bits()), i64::MAX);
    assert_eq!(f64_bits_to_i64(f64::NEG_INFINITY.to_bits()), i64::MIN);
    assert_eq!(f64_bits_to_i64(f64::NAN.to_bits()), 0);
    assert_eq!(f64_bits_to_i64(9.3e18f64.to_bits()), i64::MAX);
    assert_eq!(f64_bits_to_i64((-9.223372036854775808e18f64).to_bits()), i64::MIN);
    assert_eq!(f64_bits_to_i64(1e-300f64.to_bits()), 0);
    assert_eq!(f32_bits_to_i64(123.75f32.to_bits()), 123);
    assert_eq!(f32_bits_to_i64((-0.5f32).to_bits()), 0);
    assert_eq!(f32_bits_to_i64(f32::MAX.to_bits()), i64::MAX);
}

#[test]
fn decimal_lexeme_truncation() {
    assert_eq!(decimal_to_i64(b"12.9"), 12);
    assert_eq!(decimal_to_i64(b"-12.9"), -12);
    assert_eq!(decimal_to_i64(b"1.5e2"), 150);
    assert_eq!(decimal_to_i64(b"2.5E-1"), 0);
    assert_eq!(decimal_to_i64(b"7.0"), 7);
    assert_eq!(decimal_to_i64(b"1e30"), i64::MAX);
    assert_eq!(decimal_to_i64(b"-1e30"), i64::MIN);
}

#[test]
fn digit_runs() {
    assert_eq!(digits_value_slice(b"ab0123cd", 2, 6), Some(123));
    assert_eq!(digits_value_slice(b"18446744073709551615", 0, 20), Some(u64::MAX));
    assert_eq!(digits_value_slice(b"18446744073709551616", 0, 20), None);
    assert_eq!(digits_value_slice(b"", 0, 0), Some(0));
}

#[test]
fn text_helpers() {
    assert_eq!(string_from_bytes_latin(&[0x41, 0xe9, 0x00]), "A\u{e9}\u{0}");
    assert_eq!(str_chars("aé€"), vec!['a', 'é', '€']);
}
