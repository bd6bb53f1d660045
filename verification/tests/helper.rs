use rhtar::error::HeaderError;
use rhtar::header::helper::{
    checksum, get_str, get_str_with_min_size, parse_number, parse_octal, put_octal, put_str, seal,
};

#[test]
fn test_get_str_basic() {
    let data = b"hello\0world";
    match get_str(data) {
        Ok(v) => assert_eq!(v, "hello"),
        Err(e) => panic!("Failed to get string: {}", e.message()),
    }
}

#[test]
fn test_get_str_no_null() {
    let data = b"abcde";
    match get_str(data) {
        Ok(v) => assert_eq!(v, "abcde"),
        Err(e) => panic!("Failed to get string: {}", e.message()),
    }
}

#[test]
fn test_get_str_trailing_spaces() {
    let data = b"foo   \0";
    match get_str(data) {
        Ok(v) => assert_eq!(v, "foo   "),
        Err(e) => panic!("Failed to get string: {}", e.message()),
    }
}

#[test]
fn test_parse_octal_u32() {
    let data = b"0000644\0";
    let val: u32 = parse_octal(data).unwrap();
    assert_eq!(val, 0o644);
}

#[test]
fn test_parse_octal_u64() {
    let data = b"00001234\0";
    let val: u64 = parse_octal(data).unwrap();
    assert_eq!(val, 0o1234);
}

#[test]
fn test_parse_octal_empty() {
    let data = b"\0";
    let val: u32 = parse_octal(data).unwrap();
    assert_eq!(val, 0);
}

#[test]
fn test_parse_octal_invalid() {
    let data = b"notnum\0";
    let val: Result<u32, _> = parse_octal(data);
    assert!(val.is_err());
}

#[test]
fn test_put_str_basic() {
    let mut buf = [0u8; 8];
    put_str(&mut buf, "abc");
    assert_eq!(&buf[..4], b"abc\0");
}

#[test]
fn test_put_str_truncate() {
    let mut buf = [0u8; 4];
    put_str(&mut buf, "abcdef");
    assert_eq!(&buf, b"abcd");
}

#[test]
fn test_put_str_exact_fit() {
    let mut buf = [0u8; 3];
    put_str(&mut buf, "xyz");
    assert_eq!(&buf, b"xyz");
}

#[test]
fn test_put_octal_u32() {
    let mut buf = [0u8; 8];
    put_octal(&mut buf, 0o644u32);
    assert_eq!(&buf[..7], b"0000644");
    assert_eq!(buf[7], 0);
}

#[test]
fn test_put_octal_u64() {
    let mut buf = [0u8; 12];
    put_octal(&mut buf, 0o1234u64);
    assert_eq!(&buf[..11], b"00000001234");
    assert_eq!(buf[11], 0);
}

#[test]
fn get_str_rejects_invalid_utf8() {
    let data = [0xffu8, 0xfe, 0x00];
    assert_eq!(get_str(&data), Err(HeaderError::BadEncoding));
}

#[test]
fn get_str_with_min_size_keeps_leading_nul() {
    let data = b" \0";
    assert_eq!(get_str_with_min_size(data, 2), Ok(" \0".to_string()));
    let data = b"ustar\0";
    assert_eq!(get_str_with_min_size(data, 6), Ok("ustar\0".to_string()));
    let data = b"ab\0cd\0ef";
    assert_eq!(get_str_with_min_size(data, 3), Ok("ab\0cd".to_string()));
    assert_eq!(get_str_with_min_size(data, 20), Ok("ab\0cd\0ef".to_string()));
}

#[test]
fn parse_octal_trims_nul_and_space() {
    let val: u64 = parse_octal(b" \0 0000017 \0").unwrap();
    assert_eq!(val, 0o17);
    let val: u64 = parse_octal(b"        ").unwrap();
    assert_eq!(val, 0);
    let val: u64 = parse_octal(b"").unwrap();
    assert_eq!(val, 0);
}

#[test]
fn parse_octal_errors() {
    let val: Result<u64, HeaderError> = parse_octal(b"0000089\0");
    assert_eq!(val, Err(HeaderError::BadOctal));
    let val: Result<u64, HeaderError> = parse_octal(b"12 34\0");
    assert_eq!(val, Err(HeaderError::BadOctal));
    let val: Result<u64, HeaderError> = parse_octal(&[0x31, 0xff, 0x32]);
    assert_eq!(val, Err(HeaderError::BadEncoding));
    let val: Result<u32, HeaderError> = parse_octal(b"77777777777\0");
    assert_eq!(val, Err(HeaderError::BadOctal));
    let val: Result<u32, HeaderError> = parse_octal(b"37777777777\0");
    assert_eq!(val, Ok(u32::MAX));
    let val: Result<u64, HeaderError> = parse_octal(b"7777777777777777777777777");
    assert_eq!(val, Err(HeaderError::BadOctal));
    let val: Result<u64, HeaderError> = parse_octal(b"1777777777777777777777");
    assert_eq!(val, Ok(u64::MAX));
}

#[test]
fn parse_number_follows_the_integer_parser() {
    assert_eq!(parse_number("644", 8), Some(0o644));
    assert_eq!(parse_number("+644", 8), Some(0o644));
    assert_eq!(parse_number("+", 8), None);
    assert_eq!(parse_number("", 10), None);
    assert_eq!(parse_number("-1", 10), None);
    assert_eq!(parse_number("12a", 10), None);
    assert_eq!(parse_number("18446744073709551615", 10), Some(u64::MAX));
    assert_eq!(parse_number("18446744073709551616", 10), None);
    assert_eq!(parse_number("0015", 10), Some(15));
}

#[test]
fn put_octal_cuts_leading_digits_of_a_large_number() {
    let mut buf = [0xffu8; 4];
    put_octal(&mut buf, 0o12345u32);
    assert_eq!(&buf, b"345\0");
    let mut buf = [0xaau8; 8];
    put_octal(&mut buf, 0o1234567012u64);
    assert_eq!(&buf, b"4567012\0");
    let mut buf = [0xaau8; 1];
    put_octal(&mut buf, 7u32);
    assert_eq!(&buf, b"\0");
    let mut buf = [0xaau8; 2];
    put_octal(&mut buf, 0u64);
    assert_eq!(&buf, b"0\0");
}

#[test]
fn octal_round_trip_on_values() {
    let values: [u64; 5] = [0, 1, 0o644, 0o7777777, 0o77777777777];
    for v in values {
        let mut buf = [0u8; 12];
        put_octal(&mut buf, v);
        let back: u64 = parse_octal(&buf).unwrap();
        assert_eq!(back, v);
    }
}

#[test]
fn checksum_counts_the_checksum_field_as_spaces() {
    let block = [0u8; 512];
    assert_eq!(checksum(&block), 8 * 32);
    let mut block = [1u8; 512];
    block[148] = 200;
    assert_eq!(checksum(&block), 504 + 8 * 32);
}

#[test]
fn seal_writes_six_digits_nul_and_space() {
    let mut block = vec![0u8; 512];
    let sum = seal(&mut block);
    assert_eq!(sum, 256);
    assert_eq!(&block[148..156], b"000400\0 ");
    assert_eq!(checksum(&block), 256);
    assert!(block[..148].iter().all(|b| *b == 0));
    assert!(block[156..].iter().all(|b| *b == 0));
}
