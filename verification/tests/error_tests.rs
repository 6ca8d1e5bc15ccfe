use kvtable::error::{byte_desc_string, TypeConversionError};

#[test]
fn empty_slice_description() {
    assert_eq!(byte_desc_string(&[]), "empty byte slice");
}

#[test]
fn single_byte_description() {
    assert_eq!(byte_desc_string(&[0x4a]), "1 byte [0x4a]");
}

#[test]
fn short_slice_description() {
    assert_eq!(byte_desc_string(&[0x00, 0x01, 0xff]), "3 bytes [0x00, 0x01, 0xff]");
}

#[test]
fn long_slice_description_is_elided_after_ten() {
    let bytes: Vec<u8> = (0u8..12).collect();
    assert_eq!(
        byte_desc_string(&bytes),
        "12 bytes [0x00, 0x01, 0x02, 0x03, 0x04, 0x05, 0x06, 0x07, 0x08, 0x09, ...]"
    );
}

#[test]
fn exactly_ten_bytes_not_elided() {
    let bytes: Vec<u8> = (0u8..10).collect();
    assert_eq!(
        byte_desc_string(&bytes),
        "10 bytes [0x00, 0x01, 0x02, 0x03, 0x04, 0x05, 0x06, 0x07, 0x08, 0x09]"
    );
}

#[test]
fn conversion_error_message() {
    let e = TypeConversionError::new_from_bytes(&[0xab], "i64");
    assert_eq!(
        e.message(),
        "failed to convert from byte slice (value: 1 byte [0xab]) to i64"
    );
}

#[test]
fn conversion_error_from_rendered_value() {
    let e = TypeConversionError::new_to_string("oops".to_string(), "String", "bool");
    assert_eq!(e.message(), "failed to convert from String (value: oops) to bool");
}
