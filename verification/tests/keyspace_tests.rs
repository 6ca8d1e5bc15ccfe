use kvtable::keyspace::{KvKeyspace, RdbKeyspace};

#[test]
fn from_bytes_appends_separator() {
    let ks = RdbKeyspace::from_bytes(b"tbl");
    assert_eq!(ks.as_bytes(), &[0x74, 0x62, 0x6c, 0x1f]);
}

#[test]
fn all_is_empty_prefix() {
    let ks = RdbKeyspace::all();
    assert_eq!(ks.as_bytes(), &[] as &[u8]);
}

#[test]
fn child_keyspace_seals_again() {
    let parent = RdbKeyspace::from_bytes(b"a");
    let child = parent.keyspace(b"b");
    assert_eq!(child.as_bytes(), &[0x61, 0x1f, 0x62, 0x1f]);
}

#[test]
fn pack_appends_literal_bytes() {
    let ks = RdbKeyspace::from_bytes(b"a");
    let key = ks.pack(b"xy");
    assert_eq!(key, vec![0x61, 0x1f, 0x78, 0x79]);
}

#[test]
fn unpack_strips_prefix() {
    let ks = RdbKeyspace::from_bytes(b"a");
    let key = ks.pack(b"xy");
    assert_eq!(ks.unpack(&key), Some(b"xy".to_vec()));
}

#[test]
fn unpack_rejects_foreign_key() {
    let ks = RdbKeyspace::from_bytes(b"a");
    assert_eq!(ks.unpack(b"zz-something"), None);
}

#[test]
fn range_bounds_enclose_prefix() {
    let ks = RdbKeyspace::from_bytes(b"a");
    let (lo, hi) = ks.range();
    assert_eq!(lo, vec![0x61, 0x1f, 0x00]);
    assert_eq!(hi, vec![0x61, 0x1f, 0xff]);
}

#[test]
fn sibling_ranges_do_not_overlap() {
    let parent = RdbKeyspace::from_bytes(b"tbl");
    let a = parent.keyspace(b"users");
    let b = parent.keyspace(b"user");
    let (a_lo, a_hi) = a.range();
    let (b_lo, b_hi) = b.range();
    // One interval lies entirely below the other.
    assert!(a_hi < b_lo || b_hi < a_lo);
}

#[test]
fn sibling_unpack_is_isolated() {
    let parent = RdbKeyspace::from_bytes(b"tbl");
    let a = parent.keyspace(b"aa");
    let b = parent.keyspace(b"ab");
    let key = a.pack(b"payload");
    assert!(b.unpack(&key).is_none());
    assert_eq!(a.unpack(&key), Some(b"payload".to_vec()));
}

#[test]
fn duplicate_preserves_prefix() {
    let ks = RdbKeyspace::from_bytes(b"dup");
    assert_eq!(ks.duplicate().as_bytes(), ks.as_bytes());
}
