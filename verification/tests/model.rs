use tensor_converter::{
    serialize_tensor, ConversionError, Dimensions, Precision, NATIVE_TYPE_32FC3, NATIVE_TYPE_8UC3,
};

#[test]
fn precision_sample_sizes() {
    assert_eq!(Precision::U8.len(), 1);
    assert_eq!(Precision::FP32.len(), 4);
}

#[test]
fn byte_length_of_fixture_shape() {
    assert_eq!(Dimensions::new(481, 640, 3, Precision::U8).len(), 481 * 640 * 3);
    assert_eq!(Dimensions::new(481, 640, 3, Precision::U8).len(), 923520);
}

#[test]
fn byte_length_scales_with_precision() {
    assert_eq!(Dimensions::new(100, 20, 3, Precision::FP32).len(), 24000);
    assert_eq!(Dimensions::new(100, 20, 3, Precision::U8).len(), 6000);
    assert_eq!(Dimensions::new(300, 300, 3, Precision::FP32).len(), 1080000);
}

#[test]
fn byte_length_differs_for_different_shapes() {
    let a = Dimensions::new(227, 227, 3, Precision::U8);
    let b = Dimensions::new(481, 640, 3, Precision::U8);
    assert_ne!(a.len(), b.len());
}

#[test]
fn native_type_of_supported_shapes() {
    assert_eq!(Dimensions::new(2, 2, 3, Precision::U8).as_type(), Some(NATIVE_TYPE_8UC3));
    assert_eq!(Dimensions::new(2, 2, 3, Precision::FP32).as_type(), Some(NATIVE_TYPE_32FC3));
    assert_eq!(NATIVE_TYPE_8UC3, 16);
    assert_eq!(NATIVE_TYPE_32FC3, 21);
}

#[test]
fn native_type_undefined_off_three_channels() {
    assert_eq!(Dimensions::new(2, 2, 1, Precision::U8).as_type(), None);
    assert_eq!(Dimensions::new(2, 2, 4, Precision::FP32).as_type(), None);
}

#[test]
fn serialize_copies_exactly_the_tensor() {
    let dims = Dimensions::new(2, 2, 3, Precision::U8);
    let raw: Vec<u8> = (0u8..12).collect();
    let out = serialize_tensor(&raw, &dims).unwrap();
    assert_eq!(out, raw);
    assert_eq!(out.len(), dims.len());
}

#[test]
fn serialize_takes_the_buffer_prefix() {
    let dims = Dimensions::new(1, 2, 3, Precision::U8);
    let raw: Vec<u8> = vec![9, 8, 7, 6, 5, 4, 3, 2, 1];
    let out = serialize_tensor(&raw, &dims).unwrap();
    assert_eq!(out, vec![9, 8, 7, 6, 5, 4]);
}

#[test]
fn serialize_rejects_short_buffer() {
    let dims = Dimensions::new(2, 2, 3, Precision::FP32);
    let raw: Vec<u8> = vec![0; 47];
    let e = serialize_tensor(&raw, &dims).unwrap_err();
    assert!(matches!(e, ConversionError::ResizeFailed { .. }));
}

#[test]
fn error_messages() {
    assert_eq!(ConversionError::InvalidPath.message(), "The path is not a valid file.");
    assert_eq!(ConversionError::PathEncodingFailed.message(), "Unable to stringify the path.");
    let decode = ConversionError::DecodeFailed { message: "bad magic".to_owned() };
    assert_eq!(decode.message(), "bad magic");
}
