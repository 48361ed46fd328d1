use std::str::FromStr;
use tensor_converter::{Dimensions, Precision};

#[test]
fn parse() {
    assert_eq!(
        Dimensions::from_str("100x20x3xfp32").unwrap(),
        Dimensions::new(100, 20, 3, Precision::FP32)
    );
}

#[test]
fn parse_u8_precision() {
    assert_eq!(
        Dimensions::parse("481x640x3xu8").unwrap(),
        Dimensions::new(481, 640, 3, Precision::U8)
    );
}

#[test]
fn parse_trims_surrounding_whitespace() {
    assert_eq!(
        Dimensions::parse("  100x20x3xu8\t\n").unwrap(),
        Dimensions::new(100, 20, 3, Precision::U8)
    );
}

#[test]
fn parse_accepts_largest_extent() {
    assert_eq!(
        Dimensions::parse("2147483647x1x3xu8").unwrap(),
        Dimensions::new(2147483647, 1, 3, Precision::U8)
    );
}

#[test]
fn parse_rejects_three_fields() {
    assert!(Dimensions::parse("100x20x3").is_err());
}

#[test]
fn parse_rejects_unknown_precision() {
    assert!(Dimensions::parse("100x20x3xbf16").is_err());
}

#[test]
fn parse_rejects_non_integer_field() {
    assert!(Dimensions::parse("ax20x3xfp32").is_err());
}

#[test]
fn parse_rejects_five_fields() {
    assert!(Dimensions::parse("100x20x3xfp32x7").is_err());
}

#[test]
fn parse_rejects_empty_field() {
    assert!(Dimensions::parse("100xx3xfp32").is_err());
    assert!(Dimensions::parse("100x20x3x").is_err());
}

#[test]
fn parse_rejects_zero_extent() {
    assert!(Dimensions::parse("0x20x3xu8").is_err());
}

#[test]
fn parse_rejects_signed_extent() {
    assert!(Dimensions::parse("-1x20x3xu8").is_err());
    assert!(Dimensions::parse("+1x20x3xu8").is_err());
}

#[test]
fn parse_rejects_oversized_extent() {
    assert!(Dimensions::parse("2147483648x20x3xu8").is_err());
    assert!(Dimensions::parse("99999999999999999999x20x3xu8").is_err());
}

#[test]
fn parse_rejects_empty_string() {
    assert!(Dimensions::parse("").is_err());
    assert!(Dimensions::parse("   ").is_err());
}

#[test]
fn parse_error_is_parse_failure() {
    let e = Dimensions::parse("100x20x3xbf16").unwrap_err();
    assert!(matches!(
        e,
        tensor_converter::ConversionError::ParseFailed { .. }
    ));
    assert_eq!(e.message(), "unrecognized precision: bf16");
}

#[test]
fn descriptor_formats_canonically() {
    assert_eq!(
        Dimensions::new(100, 20, 3, Precision::FP32).descriptor(),
        "100x20x3xfp32"
    );
    assert_eq!(
        Dimensions::new(481, 640, 3, Precision::U8).descriptor(),
        "481x640x3xu8"
    );
}

#[test]
fn descriptor_round_trips() {
    let shapes = [
        Dimensions::new(100, 20, 3, Precision::FP32),
        Dimensions::new(481, 640, 3, Precision::U8),
        Dimensions::new(1, 1, 1, Precision::U8),
        Dimensions::new(2147483647, 9, 300, Precision::FP32),
    ];
    for d in shapes {
        assert_eq!(Dimensions::parse(&d.descriptor()).unwrap(), d);
    }
}

#[test]
fn precision_parse_tokens() {
    assert_eq!(Precision::from_str("u8").unwrap(), Precision::U8);
    assert_eq!(Precision::parse("fp32").unwrap(), Precision::FP32);
    assert!(Precision::parse("bf16").is_err());
    assert!(Precision::parse("U8").is_err());
    assert!(Precision::parse(" u8").is_err());
}
