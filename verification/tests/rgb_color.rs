use kolorwheel::{ParseError, RgbColor};

#[test]
fn rgb_hex_long_unprefixed() {
    let rgb_result = RgbColor::from_str("1af9cC");
    assert!(matches!(rgb_result, Ok(_)));
    let rgb = rgb_result.unwrap();
    assert_eq!(rgb.r, 0x1A);
    assert_eq!(rgb.g, 0xF9);
    assert_eq!(rgb.b, 0xCC);
}

#[test]
fn rgb_hex_long_prefixed() {
    let rgb_result = RgbColor::from_str("#d498ea");
    assert!(matches!(rgb_result, Ok(_)));
    let rgb = rgb_result.unwrap();
    assert_eq!(rgb.r, 0xD4);
    assert_eq!(rgb.g, 0x98);
    assert_eq!(rgb.b, 0xEA);
}

#[test]
fn rgb_hex_short() {
    let rgb_result = RgbColor::from_str("#C34");
    assert!(matches!(rgb_result, Ok(_)));
    let rgb = rgb_result.unwrap();
    assert_eq!(rgb.r, 0xCC);
    assert_eq!(rgb.g, 0x33);
    assert_eq!(rgb.b, 0x44);
}

#[test]
fn rgb_hex_invalid_length() {
    let rgb_result = RgbColor::from_str("#21");
    assert!(matches!(rgb_result, Err(ParseError::InvalidLength(2))));
}

#[test]
fn rgb_hex_invalid_digit() {
    let rgb_result = RgbColor::from_str("12345G");
    assert!(matches!(rgb_result, Err(ParseError::InvalidDigit(b'G'))));
}

#[test]
fn rgb_hex_invalid_empty() {
    let rgb_result = RgbColor::from_str("");
    assert!(matches!(rgb_result, Err(ParseError::InvalidLength(0))));
}

#[test]
fn rgb_hex_lone_prefix_has_no_digits() {
    assert_eq!(RgbColor::from_str("#"), Err(ParseError::InvalidLength(0)));
}

#[test]
fn rgb_hex_too_long_reports_its_length() {
    assert_eq!(RgbColor::from_str("#1234567"), Err(ParseError::InvalidLength(7)));
    assert_eq!(RgbColor::from_str("1234"), Err(ParseError::InvalidLength(4)));
}

#[test]
fn rgb_hex_prefix_only_at_the_start() {
    assert_eq!(RgbColor::from_str("12#456"), Err(ParseError::InvalidDigit(b'#')));
    assert_eq!(RgbColor::from_str("##12345"), Err(ParseError::InvalidDigit(b'#')));
}

#[test]
fn rgb_hex_reports_the_first_bad_digit() {
    assert_eq!(RgbColor::from_str("1x3y5z"), Err(ParseError::InvalidDigit(b'x')));
    assert_eq!(RgbColor::from_str("#g1z"), Err(ParseError::InvalidDigit(b'g')));
    assert_eq!(RgbColor::from_str("12345/"), Err(ParseError::InvalidDigit(b'/')));
    assert_eq!(RgbColor::from_str("12345:"), Err(ParseError::InvalidDigit(b':')));
    assert_eq!(RgbColor::from_str("@00000"), Err(ParseError::InvalidDigit(b'@')));
    assert_eq!(RgbColor::from_str("`00000"), Err(ParseError::InvalidDigit(b'`')));
}

#[test]
fn rgb_hex_length_counts_bytes() {
    // two letters of two bytes each, and two digits: six bytes, none of the first a digit
    assert_eq!(RgbColor::from_str("éé12"), Err(ParseError::InvalidDigit(0xC3)));
}

#[test]
fn rgb_hex_short_doubles_each_digit() {
    assert_eq!(RgbColor::from_str("fff"), Ok(RgbColor::new(255, 255, 255)));
    assert_eq!(RgbColor::from_str("#09a"), Ok(RgbColor::new(0x00, 0x99, 0xAA)));
}

#[test]
fn rgb_hex_auto_reads_both_forms() {
    assert_eq!(RgbColor::try_parse_hex_auto("#FfA500"), Ok(RgbColor::new(255, 165, 0)));
    assert_eq!(RgbColor::try_parse_hex_auto("abc"), Ok(RgbColor::new(0xAA, 0xBB, 0xCC)));
    assert_eq!(RgbColor::try_parse_hex_auto("ab"), Err(ParseError::InvalidLength(2)));
}

#[test]
fn rgb_hex_six_digits_reads_only_six() {
    assert_eq!(RgbColor::parse_hex_6_digits(b"0a1B2c"), Ok(RgbColor::new(0x0A, 0x1B, 0x2C)));
    assert_eq!(RgbColor::parse_hex_6_digits(b"0a1B2cZZ"), Ok(RgbColor::new(0x0A, 0x1B, 0x2C)));
    assert_eq!(RgbColor::parse_hex_6_digits(b"0a1B2 "), Err(ParseError::InvalidDigit(b' ')));
}

#[test]
fn rgb_hex_digit_values() {
    assert_eq!(RgbColor::parse_hex_digit(b'0'), Ok(0));
    assert_eq!(RgbColor::parse_hex_digit(b'9'), Ok(9));
    assert_eq!(RgbColor::parse_hex_digit(b'a'), Ok(10));
    assert_eq!(RgbColor::parse_hex_digit(b'f'), Ok(15));
    assert_eq!(RgbColor::parse_hex_digit(b'A'), Ok(10));
    assert_eq!(RgbColor::parse_hex_digit(b'F'), Ok(15));
    assert_eq!(RgbColor::parse_hex_digit(b'g'), Err(ParseError::InvalidDigit(b'g')));
    assert_eq!(RgbColor::parse_hex_digit(b'G'), Err(ParseError::InvalidDigit(b'G')));
}

#[test]
fn rgb_from_byte_triples() {
    let expected = RgbColor::new(1, 2, 3);
    assert_eq!(RgbColor::from((1, 2, 3)), expected);
    assert_eq!(RgbColor::from([1, 2, 3]), expected);
    assert_eq!(RgbColor::from(&[1, 2, 3]), expected);
    assert_eq!(RgbColor { r: 1, g: 2, b: 3 }, expected);
}

#[test]
fn rgb_default_is_black() {
    assert_eq!(RgbColor::default(), RgbColor::new(0, 0, 0));
}
