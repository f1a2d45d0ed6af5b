use memory_viewer::text::{chars_of, format_i64, parse_integer_chars, string_from_chars, trim_str};
use memory_viewer::types::EValueType;
use memory_viewer::values::{
    decode_utf16_le_bytes, encode_utf16_le, normalize_scan_input, typed_bytes_to_string,
    typed_value_to_bytes, watched_value_size, ValueError,
};

#[test]
fn trim_removes_unicode_whitespace() {
    let t = trim_str("\u{3000} \t 42\n\u{2003}");
    assert_eq!(string_from_chars(&t), "42");
    let all_space = trim_str(" \t\r\n");
    assert!(all_space.is_empty());
    assert_eq!(string_from_chars(&trim_str("a b")), "a b");
}

#[test]
fn trim_matches_std_trim() {
    for s in ["  x  ", "\u{85}y\u{a0}", "", " ", "z", "\u{200b}w"] {
        assert_eq!(string_from_chars(&trim_str(s)), s.trim());
    }
}

#[test]
fn integer_parsing_matches_from_str() {
    let cases = [
        "0", "-0", "+7", "007", "-2147483648", "2147483647", "2147483648", "-2147483649", "+", "-",
        "", "1_0", " 5", "5 ", "--1", "+-1", "12a", "99999999999999999999999",
    ];
    for s in cases {
        let v = chars_of(s);
        let ours = parse_integer_chars(&v, true, i32::MIN as i128, i32::MAX as i128);
        let std = s.parse::<i32>().ok().map(|x| x as i128);
        assert_eq!(ours, std, "i32 parse of {:?}", s);
        let ours64 = parse_integer_chars(&v, true, i64::MIN as i128, i64::MAX as i128);
        let std64 = s.parse::<i64>().ok().map(|x| x as i128);
        assert_eq!(ours64, std64, "i64 parse of {:?}", s);
        let oursu = parse_integer_chars(&v, false, 0, usize::MAX as i128);
        let stdu = s.parse::<usize>().ok().map(|x| x as i128);
        assert_eq!(oursu, stdu, "usize parse of {:?}", s);
    }
}

#[test]
fn integer_formatting_matches_to_string() {
    for v in [0i64, 1, -1, 9, 10, -10, 12345, i64::MIN, i64::MAX, i32::MIN as i64] {
        assert_eq!(format_i64(v), v.to_string());
    }
}

#[test]
fn i32_value_encodes_little_endian() {
    assert_eq!(typed_value_to_bytes(EValueType::I32, " 100 ").unwrap(), vec![100, 0, 0, 0]);
    assert_eq!(typed_value_to_bytes(EValueType::I32, "-1").unwrap(), vec![255, 255, 255, 255]);
    assert_eq!(
        typed_value_to_bytes(EValueType::I32, "305419896").unwrap(),
        vec![0x78, 0x56, 0x34, 0x12]
    );
}

#[test]
fn i64_value_encodes_little_endian() {
    assert_eq!(
        typed_value_to_bytes(EValueType::I64, "-2").unwrap(),
        vec![0xfe, 0xff, 0xff, 0xff, 0xff, 0xff, 0xff, 0xff]
    );
    assert_eq!(
        typed_value_to_bytes(EValueType::I64, "4294967296").unwrap(),
        vec![0, 0, 0, 0, 1, 0, 0, 0]
    );
}

#[test]
fn parse_errors_name_the_type() {
    assert_eq!(typed_value_to_bytes(EValueType::I32, "abc"), Err(ValueError::ParseI32));
    assert_eq!(typed_value_to_bytes(EValueType::I32, "2147483648"), Err(ValueError::ParseI32));
    assert_eq!(typed_value_to_bytes(EValueType::I64, "1.5"), Err(ValueError::ParseI64));
    assert_eq!(ValueError::ParseI32.message(), "Failed to parse i32");
    assert_eq!(ValueError::ParseI64.message(), "Failed to parse i64");
    assert_eq!(ValueError::ParseF32.message(), "Failed to parse f32");
    assert_eq!(ValueError::ParseF64.message(), "Failed to parse f64");
}

#[test]
fn bytes_type_is_unsupported() {
    assert_eq!(typed_value_to_bytes(EValueType::Bytes, "00"), Err(ValueError::UnsupportedWatched));
    assert_eq!(typed_bytes_to_string(EValueType::Bytes, &[0]), Err(ValueError::UnsupportedScan));
    assert_eq!(ValueError::UnsupportedWatched.message(), "Unsupported watched value type");
    assert_eq!(ValueError::UnsupportedScan.message(), "Unsupported scan value type");
}

#[test]
fn integer_bytes_decode_to_decimal_text() {
    assert_eq!(typed_bytes_to_string(EValueType::I32, &[0xff, 0xff, 0xff, 0x7f]).unwrap(), "2147483647");
    assert_eq!(typed_bytes_to_string(EValueType::I32, &[0, 0, 0, 0x80]).unwrap(), "-2147483648");
    assert_eq!(
        typed_bytes_to_string(EValueType::I64, &[1, 0, 0, 0, 0, 0, 0, 0x80]).unwrap(),
        "-9223372036854775807"
    );
}

#[test]
fn wrong_length_is_reported() {
    assert_eq!(typed_bytes_to_string(EValueType::I32, &[1, 2, 3]), Err(ValueError::ExpectedBytes(4)));
    assert_eq!(typed_bytes_to_string(EValueType::I64, &[1, 2, 3, 4]), Err(ValueError::ExpectedBytes(8)));
    assert_eq!(ValueError::ExpectedBytes(4).message(), "Expected 4 bytes");
    assert_eq!(ValueError::ExpectedBytes(8).message(), "Expected 8 bytes");
}

#[test]
fn utf8_text_round_trips() {
    let bytes = typed_value_to_bytes(EValueType::Utf8String, "h\u{e9}llo \u{2713}").unwrap();
    assert_eq!(bytes, "h\u{e9}llo \u{2713}".as_bytes());
    assert_eq!(typed_bytes_to_string(EValueType::Utf8String, &bytes).unwrap(), "h\u{e9}llo \u{2713}");
}

#[test]
fn invalid_utf8_is_reported() {
    assert_eq!(typed_bytes_to_string(EValueType::Utf8String, &[0xc3]), Err(ValueError::InvalidUtf8));
    assert_eq!(ValueError::InvalidUtf8.message(), "Cant convert bytes to string UTF8");
}

#[test]
fn utf16_encoding_matches_std() {
    for s in ["", "abc", "\u{e9}", "\u{65e5}\u{672c}", "a\u{1F600}b", "\u{ffff}\u{10000}\u{10ffff}"] {
        let expected: Vec<u8> = s.encode_utf16().flat_map(|u| u.to_le_bytes()).collect();
        assert_eq!(encode_utf16_le(s), expected);
        assert_eq!(typed_value_to_bytes(EValueType::Utf16String, s).unwrap(), expected);
        assert_eq!(typed_bytes_to_string(EValueType::Utf16String, &expected).unwrap(), s);
    }
}

#[test]
fn utf16_decoding_matches_from_utf16() {
    let cases: Vec<Vec<u8>> = vec![
        vec![0x41, 0x00, 0x42],
        vec![0x00, 0xd8],
        vec![0x00, 0xdc, 0x41, 0x00],
        vec![0x3d, 0xd8, 0x00, 0xde],
        vec![0x3d, 0xd8, 0x41, 0x00],
        vec![0x3d, 0xd8, 0x00],
    ];
    for b in cases {
        let units: Vec<u16> = b.chunks_exact(2).map(|c| u16::from_le_bytes([c[0], c[1]])).collect();
        let std = String::from_utf16(&units).ok();
        let ours = decode_utf16_le_bytes(&b).map(|v| v.into_iter().collect::<String>());
        assert_eq!(ours, std, "bytes {:?}", b);
    }
    assert_eq!(typed_bytes_to_string(EValueType::Utf16String, &[0x00, 0xd8]), Err(ValueError::InvalidUtf16));
    assert_eq!(ValueError::InvalidUtf16.message(), "Cant convert bytes to string UTF16");
}

#[test]
fn integer_round_trip_gives_canonical_text() {
    let bytes = typed_value_to_bytes(EValueType::I32, "  +0042 ").unwrap();
    assert_eq!(typed_bytes_to_string(EValueType::I32, &bytes).unwrap(), "42");
    let back = typed_value_to_bytes(EValueType::I32, "42").unwrap();
    assert_eq!(back, bytes);
}

#[test]
fn scan_input_is_trimmed_except_text() {
    assert_eq!(normalize_scan_input(EValueType::I32, "  12 "), "12");
    assert_eq!(normalize_scan_input(EValueType::Utf8String, "  12 "), "  12 ");
    assert_eq!(normalize_scan_input(EValueType::Utf16String, " a"), " a");
    assert_eq!(normalize_scan_input(EValueType::F64, " 1.5 "), "1.5");
}

#[test]
fn watched_sizes() {
    assert_eq!(watched_value_size(EValueType::I32), Some(4));
    assert_eq!(watched_value_size(EValueType::F32), Some(4));
    assert_eq!(watched_value_size(EValueType::I64), Some(8));
    assert_eq!(watched_value_size(EValueType::F64), Some(8));
    assert_eq!(watched_value_size(EValueType::Utf8String), None);
    assert_eq!(watched_value_size(EValueType::Bytes), None);
}

#[test]
fn utf16_bytes_that_decode_reencode_to_themselves() {
    let samples: Vec<Vec<u8>> = vec![
        vec![],
        vec![0x41, 0x00, 0x42, 0x00],
        vec![0x3D, 0xD8, 0x00, 0xDE, 0x21, 0x00],
        vec![0xFF, 0xFF, 0x00, 0xD7],
    ];
    for b in samples {
        let text = typed_bytes_to_string(EValueType::Utf16String, &b).unwrap();
        assert_eq!(typed_value_to_bytes(EValueType::Utf16String, &text), Ok(b));
    }
}
