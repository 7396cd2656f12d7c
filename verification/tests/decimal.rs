//! Fixed-point formatting, decimal parsing, and reply cleaning, held
//! against literal text.

use kel103::decimal;
use kel103::text;

#[test]
fn formats_whole_and_fractional_values() {
    assert_eq!(decimal::format_nanos(0), b"0.000".to_vec());
    assert_eq!(decimal::format_nanos(1_000_000_000), b"1.000".to_vec());
    assert_eq!(decimal::format_nanos(12_500_000_000), b"12.500".to_vec());
    assert_eq!(decimal::format_nanos(-500_000_000), b"-0.500".to_vec());
    assert_eq!(decimal::format_nanos(-1_000_000_000), b"-1.000".to_vec());
}

#[test]
fn formats_round_to_nearest_milli_with_ties_to_even() {
    assert_eq!(decimal::format_nanos(1_499_999), b"0.001".to_vec());
    assert_eq!(decimal::format_nanos(1_500_001), b"0.002".to_vec());
    // Ties: 0.0015 goes up to the even 2, 0.0025 stays at the even 2.
    assert_eq!(decimal::format_nanos(1_500_000), b"0.002".to_vec());
    assert_eq!(decimal::format_nanos(2_500_000), b"0.002".to_vec());
}

#[test]
fn parses_plain_decimals() {
    assert_eq!(decimal::parse_decimal(&b"12.500".to_vec()), Some(12_500_000_000));
    assert_eq!(decimal::parse_decimal(&b"-3.25".to_vec()), Some(-3_250_000_000));
    assert_eq!(decimal::parse_decimal(&b"+2".to_vec()), Some(2_000_000_000));
    assert_eq!(decimal::parse_decimal(&b".5".to_vec()), Some(500_000_000));
    assert_eq!(decimal::parse_decimal(&b"1.".to_vec()), Some(1_000_000_000));
    assert_eq!(decimal::parse_decimal(&b"0".to_vec()), Some(0));
}

#[test]
fn parses_at_nano_resolution_and_drops_what_is_below() {
    assert_eq!(decimal::parse_decimal(&b"0.000000001".to_vec()), Some(1));
    assert_eq!(decimal::parse_decimal(&b"0.1234567891".to_vec()), Some(123_456_789));
}

#[test]
fn rejects_text_that_is_not_a_decimal() {
    assert_eq!(decimal::parse_decimal(&b"".to_vec()), None);
    assert_eq!(decimal::parse_decimal(&b".".to_vec()), None);
    assert_eq!(decimal::parse_decimal(&b"-".to_vec()), None);
    assert_eq!(decimal::parse_decimal(&b"1.2.3".to_vec()), None);
    assert_eq!(decimal::parse_decimal(&b"1e3".to_vec()), None);
    assert_eq!(decimal::parse_decimal(&b"abc".to_vec()), None);
    assert_eq!(decimal::parse_decimal(&b"1 2".to_vec()), None);
}

#[test]
fn rejects_values_that_do_not_fit() {
    assert_eq!(decimal::parse_decimal(&b"99999999999999999999".to_vec()), None);
    assert_eq!(decimal::parse_decimal(&b"-99999999999999999999.5".to_vec()), None);
    // The largest representable count of nanos goes through.
    assert_eq!(
        decimal::parse_decimal(&b"9223372036.854775807".to_vec()),
        Some(i64::MAX)
    );
}

#[test]
fn cleaning_strips_units_line_ends_and_whitespace() {
    let v = b'V';
    assert_eq!(text::clean_reply(&b"12.500V\r\n".to_vec(), v), b"12.500".to_vec());
    assert_eq!(text::clean_reply(&b"  12.500 \t".to_vec(), v), b"12.500".to_vec());
    assert_eq!(text::clean_reply(&b"12.500 V".to_vec(), v), b"12.500".to_vec());
    assert_eq!(text::clean_reply(&b"VV\n".to_vec(), v), b"".to_vec());
}

#[test]
fn cleaning_twice_changes_nothing_on_numeric_replies() {
    let v = b'V';
    let once = text::clean_reply(&b"12.500V\r\n".to_vec(), v);
    let twice = text::clean_reply(&once, v);
    assert_eq!(once, b"12.500".to_vec());
    assert_eq!(twice, once);
    assert_eq!(decimal::parse_decimal(&twice), Some(12_500_000_000));
}

#[test]
fn token_search_finds_tokens_anywhere() {
    assert!(text::contains_token(&b"KEL103,FW1.2\n".to_vec(), &b"KEL103".to_vec()));
    assert!(!text::contains_token(&b"OTHERMODEL,1.0\n".to_vec(), &b"KEL103".to_vec()));
    assert!(text::contains_token(&b"xxONxx".to_vec(), &b"ON".to_vec()));
    assert!(!text::contains_token(&b"O".to_vec(), &b"ON".to_vec()));
}
