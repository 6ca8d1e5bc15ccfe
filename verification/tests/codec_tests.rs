use kvtable::codec::{
    column_get, column_set, encode_primary_key, get_by_multi, get_by_unique, table_delete,
    table_get, table_get_encoded, table_set,
};
use kvtable::error::TransactionError;
use kvtable::store::MemStore;
use kvtable::table::{ColumnDescriptor, IndexKind, Row, TableDescriptor};
use kvtable::values::{decode_string_value, encode_string_value};

const COL_UUID: usize = 0;
const COL_EMAIL: usize = 1;
const COL_NAME: usize = 2;
const COL_ORG: usize = 3;

const TAG_EMAIL: u16 = 7;
const TAG_ORG: u16 = 9;

/// A `user (uuid)` table with a unique index on `email` and a
/// multi-valued index on `org`.
fn user_table() -> TableDescriptor {
    TableDescriptor {
        name: b"user".to_vec(),
        columns: vec![
            ColumnDescriptor { tag: 0, primary: true, index: IndexKind::Plain },
            ColumnDescriptor { tag: TAG_EMAIL, primary: false, index: IndexKind::Unique },
            ColumnDescriptor { tag: 10, primary: false, index: IndexKind::Plain },
            ColumnDescriptor { tag: TAG_ORG, primary: false, index: IndexKind::Multi },
        ],
    }
}

fn enc(s: &str) -> Vec<u8> {
    encode_string_value(s).unwrap()
}

fn user_row(uuid: &str, email: &str, name: &str, org: &str) -> Row {
    Row::new(vec![enc(uuid), enc(email), enc(name), enc(org)])
}

#[test]
fn round_trip_whole_row() {
    let d = user_table();
    let mut store = MemStore::new();
    let mut t = store.begin();
    let row = user_row("u-1", "a@x.com", "Ada", "org-1");
    table_set(&mut t, &d, &row).unwrap();
    store.commit(t).unwrap();

    let t2 = store.begin();
    let got = table_get(&t2, &d, &vec![enc("u-1")]).unwrap().unwrap();
    assert_eq!(got.cells, row.cells);
    assert!(got.saved);
    assert_eq!(decode_string_value(&got.cells[COL_EMAIL]).unwrap(), "a@x.com");
}

#[test]
fn get_missing_row_is_none() {
    let d = user_table();
    let store = MemStore::new();
    let t = store.begin();
    assert!(table_get(&t, &d, &vec![enc("nobody")]).unwrap().is_none());
}

#[test]
fn primary_key_column_write_is_prohibited() {
    let d = user_table();
    let mut store = MemStore::new();
    let mut t = store.begin();
    let row = user_row("u-1", "a@x.com", "Ada", "org-1");
    table_set(&mut t, &d, &row).unwrap();
    let pk = encode_primary_key(&d, &row).unwrap();

    let r = column_set(&mut t, &d, &pk, COL_UUID, &enc("evil"));
    assert!(matches!(r, Err(TransactionError::OpProhibited)));
    // The stored key cell is untouched.
    let cell = column_get(&t, &d, &pk, COL_UUID).unwrap().unwrap();
    assert_eq!(decode_string_value(&cell).unwrap(), "u-1");
}

#[test]
fn column_set_updates_one_cell() {
    let d = user_table();
    let mut store = MemStore::new();
    let mut t = store.begin();
    let row = user_row("u-1", "a@x.com", "Ada", "org-1");
    table_set(&mut t, &d, &row).unwrap();
    let pk = encode_primary_key(&d, &row).unwrap();
    column_set(&mut t, &d, &pk, COL_NAME, &enc("Grace")).unwrap();
    let cell = column_get(&t, &d, &pk, COL_NAME).unwrap().unwrap();
    assert_eq!(decode_string_value(&cell).unwrap(), "Grace");
    let untouched = column_get(&t, &d, &pk, COL_EMAIL).unwrap().unwrap();
    assert_eq!(decode_string_value(&untouched).unwrap(), "a@x.com");
}

#[test]
fn duplicate_unique_value_is_rejected_and_commits_nothing() {
    let d = user_table();
    let mut store = MemStore::new();

    let mut t = store.begin();
    let a = user_row("uuid-a", "a@x.com", "Ada", "org-1");
    table_set(&mut t, &d, &a).unwrap();
    store.commit(t).unwrap();

    // User B claims the same email inside its own transaction: the write
    // fails with IndexAlreadyExists and the transaction is dropped.
    let mut t2 = store.begin();
    let b = user_row("uuid-b", "a@x.com", "Bob", "org-1");
    let r = table_set(&mut t2, &d, &b);
    assert!(matches!(r, Err(TransactionError::IndexAlreadyExists)));
    drop(t2);

    let t3 = store.begin();
    assert!(table_get(&t3, &d, &vec![enc("uuid-b")]).unwrap().is_none());
    let still_a = get_by_unique(&t3, &d, TAG_EMAIL, &enc("a@x.com")).unwrap().unwrap();
    assert_eq!(decode_string_value(&still_a.cells[COL_UUID]).unwrap(), "uuid-a");
}

#[test]
fn unique_index_follows_an_update() {
    let d = user_table();
    let mut store = MemStore::new();

    let mut t = store.begin();
    let a = user_row("uuid-a", "a@x.com", "Ada", "org-1");
    table_set(&mut t, &d, &a).unwrap();
    store.commit(t).unwrap();

    // Update A's email; the old entry moves to the new value.
    let mut t2 = store.begin();
    let a2 = user_row("uuid-a", "a2@x.com", "Ada", "org-1");
    table_set(&mut t2, &d, &a2).unwrap();
    store.commit(t2).unwrap();

    let t3 = store.begin();
    assert!(get_by_unique(&t3, &d, TAG_EMAIL, &enc("a@x.com")).unwrap().is_none());
    let found = get_by_unique(&t3, &d, TAG_EMAIL, &enc("a2@x.com")).unwrap().unwrap();
    assert_eq!(decode_string_value(&found.cells[COL_UUID]).unwrap(), "uuid-a");
}

#[test]
fn unique_value_can_be_reused_after_delete() {
    let d = user_table();
    let mut store = MemStore::new();

    let mut t = store.begin();
    let a = user_row("uuid-a", "a@x.com", "Ada", "org-1");
    table_set(&mut t, &d, &a).unwrap();
    store.commit(t).unwrap();

    let mut t2 = store.begin();
    table_delete(&mut t2, &d, &a).unwrap();
    store.commit(t2).unwrap();

    let mut t3 = store.begin();
    let b = user_row("uuid-b", "a@x.com", "Bob", "org-1");
    table_set(&mut t3, &d, &b).unwrap();
    store.commit(t3).unwrap();

    let t4 = store.begin();
    let found = get_by_unique(&t4, &d, TAG_EMAIL, &enc("a@x.com")).unwrap().unwrap();
    assert_eq!(decode_string_value(&found.cells[COL_UUID]).unwrap(), "uuid-b");
}

#[test]
fn multi_index_lists_all_rows_sharing_a_value() {
    let d = user_table();
    let mut store = MemStore::new();
    let mut t = store.begin();
    let rows = [
        user_row("u-1", "a@x.com", "Ada", "shared-org"),
        user_row("u-2", "b@x.com", "Bob", "shared-org"),
        user_row("u-3", "c@x.com", "Cyd", "shared-org"),
    ];
    for row in rows.iter() {
        table_set(&mut t, &d, row).unwrap();
    }
    store.commit(t).unwrap();

    let t2 = store.begin();
    let pks = get_by_multi(&t2, &d, TAG_ORG, &enc("shared-org")).unwrap();
    assert_eq!(pks.len(), 3);
    let mut uuids: Vec<String> = Vec::new();
    for pk in pks.iter() {
        let row = table_get_encoded(&t2, &d, pk).unwrap().unwrap();
        uuids.push(decode_string_value(&row.cells[COL_UUID]).unwrap());
    }
    uuids.sort();
    assert_eq!(uuids, vec!["u-1".to_string(), "u-2".to_string(), "u-3".to_string()]);
}

#[test]
fn deleting_one_row_keeps_the_other_multi_entries() {
    let d = user_table();
    let mut store = MemStore::new();
    let mut t = store.begin();
    let a = user_row("u-1", "a@x.com", "Ada", "shared-org");
    let b = user_row("u-2", "b@x.com", "Bob", "shared-org");
    let c = user_row("u-3", "c@x.com", "Cyd", "shared-org");
    table_set(&mut t, &d, &a).unwrap();
    table_set(&mut t, &d, &b).unwrap();
    table_set(&mut t, &d, &c).unwrap();
    store.commit(t).unwrap();

    let mut t2 = store.begin();
    table_delete(&mut t2, &d, &b).unwrap();
    store.commit(t2).unwrap();

    let t3 = store.begin();
    assert!(table_get(&t3, &d, &vec![enc("u-2")]).unwrap().is_none());
    let pks = get_by_multi(&t3, &d, TAG_ORG, &enc("shared-org")).unwrap();
    assert_eq!(pks.len(), 2);
    let mut uuids: Vec<String> = Vec::new();
    for pk in pks.iter() {
        let row = table_get_encoded(&t3, &d, pk).unwrap().unwrap();
        uuids.push(decode_string_value(&row.cells[COL_UUID]).unwrap());
    }
    uuids.sort();
    assert_eq!(uuids, vec!["u-1".to_string(), "u-3".to_string()]);
}

#[test]
fn delete_removes_row_and_unique_entry() {
    let d = user_table();
    let mut store = MemStore::new();
    let mut t = store.begin();
    let a = user_row("u-1", "a@x.com", "Ada", "org-1");
    table_set(&mut t, &d, &a).unwrap();
    store.commit(t).unwrap();

    let mut t2 = store.begin();
    table_delete(&mut t2, &d, &a).unwrap();
    store.commit(t2).unwrap();

    let t3 = store.begin();
    assert!(table_get(&t3, &d, &vec![enc("u-1")]).unwrap().is_none());
    assert!(get_by_unique(&t3, &d, TAG_EMAIL, &enc("a@x.com")).unwrap().is_none());
}

#[test]
fn column_set_on_unique_column_moves_the_index() {
    let d = user_table();
    let mut store = MemStore::new();
    let mut t = store.begin();
    let a = user_row("u-1", "a@x.com", "Ada", "org-1");
    table_set(&mut t, &d, &a).unwrap();
    let pk = encode_primary_key(&d, &a).unwrap();
    column_set(&mut t, &d, &pk, COL_EMAIL, &enc("new@x.com")).unwrap();
    store.commit(t).unwrap();

    let t2 = store.begin();
    assert!(get_by_unique(&t2, &d, TAG_EMAIL, &enc("a@x.com")).unwrap().is_none());
    let found = get_by_unique(&t2, &d, TAG_EMAIL, &enc("new@x.com")).unwrap().unwrap();
    assert_eq!(decode_string_value(&found.cells[COL_UUID]).unwrap(), "u-1");
}

#[test]
fn fresh_rows_start_unsaved() {
    let row = Row::new(vec![enc("u")]);
    assert!(!row.saved);
    assert!(!kvtable::unsaved_bool());
}

#[test]
fn transaction_sees_its_own_row_before_commit() {
    let d = user_table();
    let mut store = MemStore::new();
    let mut t = store.begin();
    let a = user_row("u-1", "a@x.com", "Ada", "org-1");
    table_set(&mut t, &d, &a).unwrap();
    let got = table_get(&t, &d, &vec![enc("u-1")]).unwrap().unwrap();
    assert_eq!(got.cells, a.cells);
}

#[test]
fn unique_and_multi_indices_coexist_on_one_table() {
    let d = user_table();
    let mut store = MemStore::new();
    let mut t = store.begin();
    let a = user_row("u-1", "a@x.com", "Ada", "org-1");
    let b = user_row("u-2", "b@x.com", "Bob", "org-1");
    table_set(&mut t, &d, &a).unwrap();
    table_set(&mut t, &d, &b).unwrap();
    store.commit(t).unwrap();

    // Move A to another organisation; the unique index is untouched and
    // the multi index follows.
    let mut t2 = store.begin();
    let a2 = user_row("u-1", "a@x.com", "Ada", "org-2");
    table_set(&mut t2, &d, &a2).unwrap();
    store.commit(t2).unwrap();

    let t3 = store.begin();
    let found = get_by_unique(&t3, &d, TAG_EMAIL, &enc("a@x.com")).unwrap().unwrap();
    assert_eq!(decode_string_value(&found.cells[COL_UUID]).unwrap(), "u-1");
    assert_eq!(get_by_multi(&t3, &d, TAG_ORG, &enc("org-1")).unwrap().len(), 1);
    assert_eq!(get_by_multi(&t3, &d, TAG_ORG, &enc("org-2")).unwrap().len(), 1);
}
