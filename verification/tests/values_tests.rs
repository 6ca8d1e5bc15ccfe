use kvtable::values::{
    decode_bool_value, decode_i64_value, decode_string_value, encode_bool_value, encode_i64_value,
    encode_string_value, TryFromDbType, TryIntoDbType,
};

#[test]
fn string_round_trip() {
    let b = encode_string_value("hello world").unwrap();
    assert_eq!(decode_string_value(&b).unwrap(), "hello world");
}

#[test]
fn empty_string_round_trip() {
    let b = encode_string_value("").unwrap();
    assert_eq!(decode_string_value(&b).unwrap(), "");
}

#[test]
fn string_encoding_is_a_document_not_the_raw_text() {
    let b = encode_string_value("abc").unwrap();
    assert_ne!(b, b"abc".to_vec());
    // A document always carries a length header and a terminator.
    assert!(b.len() > 3);
}

#[test]
fn distinct_strings_encode_distinctly() {
    let a = encode_string_value("a@x.com").unwrap();
    let b = encode_string_value("a2@x.com").unwrap();
    assert_ne!(a, b);
}

#[test]
fn i64_round_trip() {
    for v in [0i64, 1, -1, i64::MAX, i64::MIN, 600000] {
        let b = encode_i64_value(v).unwrap();
        assert_eq!(decode_i64_value(&b).unwrap(), v);
    }
}

#[test]
fn bool_round_trip() {
    for v in [true, false] {
        let b = encode_bool_value(v).unwrap();
        assert_eq!(decode_bool_value(&b).unwrap(), v);
    }
}

#[test]
fn decode_rejects_garbage() {
    assert!(decode_string_value(b"not bson").is_err());
    assert!(decode_i64_value(&[]).is_err());
}

#[test]
fn decode_rejects_wrong_type() {
    let b = encode_bool_value(true).unwrap();
    assert!(decode_i64_value(&b).is_err());
    assert!(decode_string_value(&b).is_err());
}

#[test]
fn conversion_traits_round_trip() {
    let stored: Vec<u8> = "Ada".to_string().try_into_db_type().unwrap();
    let back = String::try_from_db_type(&stored).unwrap();
    assert_eq!(back, "Ada");
    let stored: Vec<u8> = 42i64.try_into_db_type().unwrap();
    assert_eq!(i64::try_from_db_type(&stored).unwrap(), 42);
    let stored: Vec<u8> = true.try_into_db_type().unwrap();
    assert!(bool::try_from_db_type(&stored).unwrap());
}

#[test]
fn i64_encoding_has_the_stated_shape() {
    assert_eq!(
        encode_i64_value(1).unwrap(),
        vec![0x10, 0, 0, 0, 0x12, 0x76, 0x00, 1, 0, 0, 0, 0, 0, 0, 0, 0x00]
    );
    assert_eq!(
        encode_i64_value(-1).unwrap(),
        vec![0x10, 0, 0, 0, 0x12, 0x76, 0x00, 0xff, 0xff, 0xff, 0xff, 0xff, 0xff, 0xff, 0xff, 0x00]
    );
}

#[test]
fn bool_encoding_has_the_stated_shape() {
    assert_eq!(
        encode_bool_value(true).unwrap(),
        vec![0x09, 0, 0, 0, 0x08, 0x76, 0x00, 0x01, 0x00]
    );
    assert_eq!(
        encode_bool_value(false).unwrap(),
        vec![0x09, 0, 0, 0, 0x08, 0x76, 0x00, 0x00, 0x00]
    );
}

#[test]
fn deeply_nested_documents_are_an_error_not_a_crash() {
    // Documents nested inside one another tens of thousands of levels
    // deep, each level seven bytes: a decoder that recursed into nested
    // values would exhaust the stack here.
    let depth = 100_000usize;
    let mut b: Vec<u8> = Vec::new();
    for i in 0..depth {
        let len = 5 + 7 * (depth - i);
        b.extend_from_slice(&(len as u32).to_le_bytes());
        b.push(0x03);
        b.push(0x00);
    }
    b.extend_from_slice(&[5, 0, 0, 0, 0]);
    for _ in 0..depth {
        b.push(0x00);
    }
    assert!(decode_string_value(&b).is_err());
    assert!(decode_i64_value(&b).is_err());
    assert!(decode_bool_value(&b).is_err());
}
