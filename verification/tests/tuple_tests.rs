use kvtable::bytes::{bytes_eq, copy_bytes, lex_compare, starts_with, strip_prefix_bytes, Cmp};
use kvtable::error::TransactionError;
use kvtable::tuple::{encode_tuple_bytes, PART_LEN_LIMIT};

#[test]
fn single_part_encoding_is_length_prefixed() {
    let enc = encode_tuple_bytes(&vec![b"ab".to_vec()]).unwrap();
    assert_eq!(enc, vec![0x00, 0x00, 0x00, 0x02, 0x61, 0x62]);
}

#[test]
fn two_part_encoding_concatenates() {
    let enc = encode_tuple_bytes(&vec![b"a".to_vec(), b"bc".to_vec()]).unwrap();
    assert_eq!(enc, vec![0x00, 0x00, 0x00, 0x01, 0x61, 0x00, 0x00, 0x00, 0x02, 0x62, 0x63]);
}

#[test]
fn encodings_lead_with_a_zero_byte() {
    let enc = encode_tuple_bytes(&vec![b"anything".to_vec()]).unwrap();
    assert_eq!(enc[0], 0x00);
}

#[test]
fn distinct_tuples_encode_distinctly() {
    let a = encode_tuple_bytes(&vec![b"ab".to_vec(), b"c".to_vec()]).unwrap();
    let b = encode_tuple_bytes(&vec![b"a".to_vec(), b"bc".to_vec()]).unwrap();
    assert_ne!(a, b);
}

#[test]
fn oversized_part_is_rejected() {
    let huge = vec![0u8; PART_LEN_LIMIT];
    let r = encode_tuple_bytes(&vec![huge]);
    assert!(matches!(r, Err(TransactionError::SerializationError(_))));
}

#[test]
fn lex_compare_orders_bytewise_then_by_length() {
    assert_eq!(lex_compare(b"a", b"b"), Cmp::Lt);
    assert_eq!(lex_compare(b"b", b"a"), Cmp::Gt);
    assert_eq!(lex_compare(b"a", b"a"), Cmp::Eq);
    assert_eq!(lex_compare(b"a", b"ab"), Cmp::Lt);
    assert_eq!(lex_compare(b"ab", b"a"), Cmp::Gt);
    assert_eq!(lex_compare(b"", b"a"), Cmp::Lt);
}

#[test]
fn prefix_helpers() {
    assert!(starts_with(b"abcdef", b"abc"));
    assert!(!starts_with(b"abcdef", b"abd"));
    assert_eq!(strip_prefix_bytes(b"abcdef", b"abc"), Some(b"def".to_vec()));
    assert_eq!(strip_prefix_bytes(b"abcdef", b"x"), None);
    assert!(bytes_eq(b"same", b"same"));
    assert!(!bytes_eq(b"same", b"other"));
    assert_eq!(copy_bytes(b"xyz"), b"xyz".to_vec());
}
