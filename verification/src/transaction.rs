//! The backend transaction interface.
//!
//! A transaction is a single unit of work over one ordered byte-string
//! store: point reads, ascending range and prefix scans, buffered
//! upserts and deletes. Within one transaction a read observes the
//! transaction's own earlier writes; nothing is visible outside until
//! the owning connection commits it. The contracts speak of the
//! transaction's current readable state as a map from keys to values.

use vstd::prelude::*;

use crate::bytes::{lex_lt, lex_le};
use crate::error::{is_store_error, TransactionError};
use crate::keyspace::{KvKeyspace, RdbKeyspace};

verus! {

/// One key-value pair a scan returns.
pub struct RdbValue {
    /// The full key, prefix included.
    pub key: Vec<u8>,
    /// The stored value bytes.
    pub value: Vec<u8>,
}

impl RdbValue {
    /// A pair from its key and value bytes.
    pub fn new(key: Vec<u8>, value: Vec<u8>) -> (kv: Self)
        ensures
            kv.key == key,
            kv.value == value,
    {
        RdbValue { key, value }
    }

    /// The key bytes.
    pub fn as_key(&self) -> (k: &[u8])
        ensures
            k@ == self.key@,
    {
        self.key.as_slice()
    }

    /// The value bytes.
    pub fn as_value(&self) -> (v: &[u8])
        ensures
            v@ == self.value@,
    {
        self.value.as_slice()
    }

    /// Key and value bytes together.
    pub fn as_key_value(&self) -> (kv: (&[u8], &[u8]))
        ensures
            kv.0@ == self.key@,
            kv.1@ == self.value@,
    {
        (self.key.as_slice(), self.value.as_slice())
    }
}

/// The mathematical view of a scan result: the pairs' byte strings.
pub open spec fn kv_view(kvs: Seq<RdbValue>) -> Seq<(Seq<u8>, Seq<u8>)> {
    Seq::new(kvs.len(), |i: int| (kvs[i].key@, kvs[i].value@))
}

/// Every listed pair is stored, and keys ascend strictly.
pub open spec fn scan_wf(m: Map<Seq<u8>, Seq<u8>>, kvs: Seq<(Seq<u8>, Seq<u8>)>) -> bool {
    &&& forall|i: int|
        0 <= i < kvs.len() ==> m.contains_key(#[trigger] kvs[i].0) && m[kvs[i].0] == kvs[i].1
    &&& forall|i: int, j: int| 0 <= i < j < kvs.len() ==> lex_lt(#[trigger] kvs[i].0, #[trigger] kvs[j].0)
}

/// Whether `k` lies between `from` and `to`, inclusive at both ends and
/// insensitive to the bounds' order.
pub open spec fn in_range(k: Seq<u8>, from: Seq<u8>, to: Seq<u8>) -> bool {
    if lex_le(from, to) {
        lex_le(from, k) && lex_le(k, to)
    } else {
        lex_le(to, k) && lex_le(k, from)
    }
}

/// The scan lists exactly the stored keys within the bounds.
pub open spec fn range_scan_post(
    m: Map<Seq<u8>, Seq<u8>>,
    from: Seq<u8>,
    to: Seq<u8>,
    kvs: Seq<(Seq<u8>, Seq<u8>)>,
) -> bool {
    &&& scan_wf(m, kvs)
    &&& forall|i: int| 0 <= i < kvs.len() ==> in_range(#[trigger] kvs[i].0, from, to)
    &&& forall|k: Seq<u8>|
        m.contains_key(k) && in_range(k, from, to) ==> exists|i: int|
            0 <= i < kvs.len() && #[trigger] kvs[i].0 == k
}

/// The scan lists exactly the stored keys under the prefix.
pub open spec fn prefix_scan_post(
    m: Map<Seq<u8>, Seq<u8>>,
    prefix: Seq<u8>,
    kvs: Seq<(Seq<u8>, Seq<u8>)>,
) -> bool {
    &&& scan_wf(m, kvs)
    &&& forall|i: int| 0 <= i < kvs.len() ==> prefix.is_prefix_of(#[trigger] kvs[i].0)
    &&& forall|k: Seq<u8>|
        m.contains_key(k) && prefix.is_prefix_of(k) ==> exists|i: int|
            0 <= i < kvs.len() && #[trigger] kvs[i].0 == k
}

/// The store's state after every key under `prefix` is gone.
pub open spec fn cleared_space_post(
    old_m: Map<Seq<u8>, Seq<u8>>,
    prefix: Seq<u8>,
    new_m: Map<Seq<u8>, Seq<u8>>,
) -> bool {
    &&& forall|k: Seq<u8>|
        (#[trigger] new_m.contains_key(k)) <==> (old_m.contains_key(k) && !prefix.is_prefix_of(k))
    &&& forall|k: Seq<u8>| #[trigger] new_m.contains_key(k) ==> new_m[k] == old_m[k]
}

/// The operations a backend transaction offers, each contracted against
/// the transaction's readable state. A failed operation leaves that
/// state as it was; what a failure means is the backend's affair.
pub trait KvTransaction: Sized {
    /// The readable state: committed data overlaid with this
    /// transaction's own buffered writes.
    spec fn store(&self) -> Map<Seq<u8>, Seq<u8>>;

    /// The transaction's internal well-formedness.
    spec fn inv(&self) -> bool;

    /// The value stored at `key`, if any.
    fn get(&self, key: &[u8]) -> (r: Result<Option<Vec<u8>>, TransactionError>)
        requires
            self.inv(),
        ensures
            match r {
                Ok(Some(v)) => self.store().contains_key(key@) && v@ == self.store()[key@],
                Ok(None) => !self.store().contains_key(key@),
                Err(e) => is_store_error(e),
            },
    ;

    /// The stored pairs with keys between the bounds (either order,
    /// both ends inclusive), ascending by key.
    fn get_range(&self, from_key: &[u8], to_key: &[u8]) -> (r: Result<
        Vec<RdbValue>,
        TransactionError,
    >)
        requires
            self.inv(),
        ensures
            match r {
                Ok(kvs) => range_scan_post(self.store(), from_key@, to_key@, kv_view(kvs@)),
                Err(e) => is_store_error(e),
            },
    ;

    /// The stored pairs under the keyspace's prefix, ascending by key.
    fn get_space(&self, keyspace: &RdbKeyspace) -> (r: Result<Vec<RdbValue>, TransactionError>)
        requires
            self.inv(),
        ensures
            match r {
                Ok(kvs) => prefix_scan_post(self.store(), keyspace.prefix(), kv_view(kvs@)),
                Err(e) => is_store_error(e),
            },
    ;

    /// Upserts `value` at `key`.
    fn set(&mut self, key: &[u8], value: &[u8]) -> (r: Result<(), TransactionError>)
        requires
            old(self).inv(),
        ensures
            final(self).inv(),
            match r {
                Ok(()) => final(self).store() == old(self).store().insert(key@, value@),
                Err(e) => is_store_error(e) && final(self).store() == old(self).store(),
            },
    ;

    /// Deletes the value at `key`, if any.
    fn clear(&mut self, key: &[u8]) -> (r: Result<(), TransactionError>)
        requires
            old(self).inv(),
        ensures
            final(self).inv(),
            match r {
                Ok(()) => final(self).store() == old(self).store().remove(key@),
                Err(e) => is_store_error(e) && final(self).store() == old(self).store(),
            },
    ;

    /// Deletes every key under the keyspace's prefix in one logical
    /// operation.
    fn clear_space(&mut self, keyspace: &RdbKeyspace) -> (r: Result<(), TransactionError>)
        requires
            old(self).inv(),
        ensures
            final(self).inv(),
            match r {
                Ok(()) => cleared_space_post(
                    old(self).store(),
                    keyspace.prefix(),
                    final(self).store(),
                ),
                Err(e) => is_store_error(e) && final(self).store() == old(self).store(),
            },
    ;
}

} // verus!
