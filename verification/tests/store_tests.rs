use kvtable::keyspace::{KvKeyspace, RdbKeyspace};
use kvtable::store::{MemStore, MemTransaction};
use kvtable::transaction::KvTransaction;

fn fresh_txn() -> MemTransaction {
    MemStore::new().begin()
}

#[test]
fn get_after_set_sees_own_write() {
    let mut t = fresh_txn();
    t.set(b"k", b"v").unwrap();
    assert_eq!(t.get(b"k").unwrap(), Some(b"v".to_vec()));
}

#[test]
fn get_missing_is_none() {
    let t = fresh_txn();
    assert_eq!(t.get(b"nope").unwrap(), None);
}

#[test]
fn set_overwrites() {
    let mut t = fresh_txn();
    t.set(b"k", b"v1").unwrap();
    t.set(b"k", b"v2").unwrap();
    assert_eq!(t.get(b"k").unwrap(), Some(b"v2".to_vec()));
}

#[test]
fn clear_removes() {
    let mut t = fresh_txn();
    t.set(b"k", b"v").unwrap();
    t.clear(b"k").unwrap();
    assert_eq!(t.get(b"k").unwrap(), None);
}

#[test]
fn commit_publishes_and_fresh_txn_reads() {
    let mut store = MemStore::new();
    let mut t = store.begin();
    t.set(b"k", b"v").unwrap();
    store.commit(t).unwrap();
    let t2 = store.begin();
    assert_eq!(t2.get(b"k").unwrap(), Some(b"v".to_vec()));
}

#[test]
fn dropped_transaction_changes_nothing() {
    let mut store = MemStore::new();
    let mut t = store.begin();
    t.set(b"k", b"v").unwrap();
    drop(t);
    let t2 = store.begin();
    assert_eq!(t2.get(b"k").unwrap(), None);
}

#[test]
fn get_space_lists_exactly_prefixed_keys_ascending() {
    let mut t = fresh_txn();
    let ks = RdbKeyspace::from_bytes(b"p");
    t.set(&ks.pack(b"b"), b"2").unwrap();
    t.set(&ks.pack(b"a"), b"1").unwrap();
    t.set(b"other", b"x").unwrap();
    let got = t.get_space(&ks).unwrap();
    assert_eq!(got.len(), 2);
    assert_eq!(got[0].as_key(), ks.pack(b"a").as_slice());
    assert_eq!(got[0].as_value(), b"1");
    assert_eq!(got[1].as_key(), ks.pack(b"b").as_slice());
    assert_eq!(got[1].as_value(), b"2");
}

#[test]
fn get_range_is_inclusive_and_ascending() {
    let mut t = fresh_txn();
    t.set(b"a", b"1").unwrap();
    t.set(b"b", b"2").unwrap();
    t.set(b"c", b"3").unwrap();
    t.set(b"d", b"4").unwrap();
    let got = t.get_range(b"b", b"c").unwrap();
    assert_eq!(got.len(), 2);
    assert_eq!(got[0].as_key_value(), (b"b" as &[u8], b"2" as &[u8]));
    assert_eq!(got[1].as_key_value(), (b"c" as &[u8], b"3" as &[u8]));
}

#[test]
fn get_range_accepts_reversed_bounds() {
    let mut t = fresh_txn();
    t.set(b"a", b"1").unwrap();
    t.set(b"b", b"2").unwrap();
    let got = t.get_range(b"b", b"a").unwrap();
    assert_eq!(got.len(), 2);
    assert_eq!(got[0].as_key(), b"a");
    assert_eq!(got[1].as_key(), b"b");
}

#[test]
fn clear_space_removes_only_prefixed_keys() {
    let mut t = fresh_txn();
    let ks = RdbKeyspace::from_bytes(b"p");
    t.set(&ks.pack(b"a"), b"1").unwrap();
    t.set(&ks.pack(b"b"), b"2").unwrap();
    t.set(b"other", b"x").unwrap();
    t.clear_space(&ks).unwrap();
    assert_eq!(t.get(&ks.pack(b"a")).unwrap(), None);
    assert_eq!(t.get(&ks.pack(b"b")).unwrap(), None);
    assert_eq!(t.get(b"other").unwrap(), Some(b"x".to_vec()));
}
