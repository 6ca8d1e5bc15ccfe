//! Secondary-index maintenance.
//!
//! Index entries are created, moved and removed strictly as a side
//! effect of the owning row's writes, inside the row's own transaction.
//! Every reported inconsistency — an entry pointing at a different row,
//! a value already owned by another row, a missing entry on delete —
//! is a data error, fatal for the attempt and never retried; the
//! functions here perform all their reads and checks before their first
//! write, so a data error leaves the transaction's state untouched.
//!
//! Each function's outcome is pinned to a specification-level model of
//! the same decision over the transaction's readable map; a store-level
//! failure passes through as the store reported it.

use vstd::prelude::*;

use crate::bytes::bytes_eq;
use crate::error::{is_store_error, TransactionError};
use crate::table::{
    cell_key, lemma_uidx_key_injective, midx_key, uidx_key, TableDescriptor,
};
use crate::transaction::KvTransaction;

verus! {

/// The second half of a unique-index write: refuse a value already
/// owned by a different row, otherwise point the value at this row.
pub open spec fn spec_unique_insert(
    d: TableDescriptor,
    m: Map<Seq<u8>, Seq<u8>>,
    tag: u16,
    nv: Seq<u8>,
    pk: Seq<u8>,
) -> Result<Map<Seq<u8>, Seq<u8>>, TransactionError> {
    let nk = uidx_key(d, tag, nv);
    if m.contains_key(nk) && m[nk] != pk {
        Err(TransactionError::IndexAlreadyExists)
    } else {
        Ok(m.insert(nk, pk))
    }
}

/// What setting a unique-indexed column does to the store: verify any
/// existing entry for the row's old value, drop it when the value
/// changes, and claim the new value unless another row holds it.
pub open spec fn spec_set_unique_index(
    d: TableDescriptor,
    m: Map<Seq<u8>, Seq<u8>>,
    tag: u16,
    nv: Seq<u8>,
    pk: Seq<u8>,
) -> Result<Map<Seq<u8>, Seq<u8>>, TransactionError> {
    let ck = cell_key(d, pk, tag);
    if m.contains_key(ck) {
        let ov = m[ck];
        let ok = uidx_key(d, tag, ov);
        if m.contains_key(ok) {
            if m[ok] != pk {
                Err(TransactionError::IndexMismatchError)
            } else if ov == nv {
                Ok(m)
            } else {
                spec_unique_insert(d, m.remove(ok), tag, nv, pk)
            }
        } else {
            spec_unique_insert(d, m, tag, nv, pk)
        }
    } else {
        spec_unique_insert(d, m, tag, nv, pk)
    }
}

/// What setting a multi-indexed column does to the store: verify any
/// existing entry for the row's old value, drop it when the value
/// changes, and write the row's own entry for the new value — distinct
/// rows never contend, so insertion cannot fail.
pub open spec fn spec_set_multi_index(
    d: TableDescriptor,
    m: Map<Seq<u8>, Seq<u8>>,
    tag: u16,
    nv: Seq<u8>,
    pk: Seq<u8>,
) -> Result<Map<Seq<u8>, Seq<u8>>, TransactionError> {
    let ck = cell_key(d, pk, tag);
    let nk = midx_key(d, tag, nv, pk);
    if m.contains_key(ck) {
        let ov = m[ck];
        let ok = midx_key(d, tag, ov, pk);
        if m.contains_key(ok) {
            if m[ok] != pk {
                Err(TransactionError::IndexMismatchError)
            } else if ov == nv {
                Ok(m)
            } else {
                Ok(m.remove(ok).insert(nk, pk))
            }
        } else {
            Ok(m.insert(nk, pk))
        }
    } else {
        Ok(m.insert(nk, pk))
    }
}

/// What deleting a unique-index entry does: re-verify that the stored
/// pointer names the row being deleted, then clear it.
pub open spec fn spec_delete_unique_index(
    d: TableDescriptor,
    m: Map<Seq<u8>, Seq<u8>>,
    tag: u16,
    v: Seq<u8>,
    pk: Seq<u8>,
) -> Result<Map<Seq<u8>, Seq<u8>>, TransactionError> {
    let k = uidx_key(d, tag, v);
    if !m.contains_key(k) {
        Err(TransactionError::IndexNotFound)
    } else if m[k] != pk {
        Err(TransactionError::IndexMismatchError)
    } else {
        Ok(m.remove(k))
    }
}

/// What deleting a multi-index entry does: clear the row's own entry,
/// reporting its absence as a data-integrity failure.
pub open spec fn spec_delete_multi_index(
    d: TableDescriptor,
    m: Map<Seq<u8>, Seq<u8>>,
    tag: u16,
    v: Seq<u8>,
    pk: Seq<u8>,
) -> Result<Map<Seq<u8>, Seq<u8>>, TransactionError> {
    let k = midx_key(d, tag, v, pk);
    if !m.contains_key(k) {
        Err(TransactionError::IndexNotFound)
    } else {
        Ok(m.remove(k))
    }
}

/// Sets the unique index of column `tag` to value `new_value` for the
/// row `pkenc`, as the specification-level model prescribes.
pub fn set_unique_index<T: KvTransaction>(
    trx: &mut T,
    d: &TableDescriptor,
    tag: u16,
    new_value: &[u8],
    pkenc: &[u8],
) -> (r: Result<(), TransactionError>)
    requires
        old(trx).inv(),
    ensures
        final(trx).inv(),
        match r {
            Ok(()) => spec_set_unique_index(*d, old(trx).store(), tag, new_value@, pkenc@)
                == Ok::<Map<Seq<u8>, Seq<u8>>, TransactionError>(final(trx).store()),
            Err(e) => is_store_error(e) || (final(trx).store() == old(trx).store()
                && spec_set_unique_index(*d, old(trx).store(), tag, new_value@, pkenc@)
                == Err::<Map<Seq<u8>, Seq<u8>>, TransactionError>(e)),
        },
{
    let ghost m = trx.store();
    let cell_k = d.cell_key_bytes(pkenc, tag);
    let old_val = match trx.get(cell_k.as_slice()) {
        Ok(v) => v,
        Err(e) => {
            return Err(e);
        },
    };
    let new_k = d.unique_index_key(tag, new_value);
    let mut clear_old: Option<Vec<u8>> = None;
    if let Some(ov) = old_val {
        let old_k = d.unique_index_key(tag, ov.as_slice());
        let old_entry = match trx.get(old_k.as_slice()) {
            Ok(v) => v,
            Err(e) => {
                return Err(e);
            },
        };
        if let Some(old_pk) = old_entry {
            if !bytes_eq(old_pk.as_slice(), pkenc) {
                return Err(TransactionError::IndexMismatchError);
            }
            if bytes_eq(ov.as_slice(), new_value) {
                return Ok(());
            }
            proof {
                if uidx_key(*d, tag, ov@) == uidx_key(*d, tag, new_value@) {
                    lemma_uidx_key_injective(*d, tag, ov@, tag, new_value@);
                }
            }
            clear_old = Some(old_k);
        }
    }
    let existing = match trx.get(new_k.as_slice()) {
        Ok(v) => v,
        Err(e) => {
            return Err(e);
        },
    };
    if let Some(existing_pk) = existing {
        if !bytes_eq(existing_pk.as_slice(), pkenc) {
            return Err(TransactionError::IndexAlreadyExists);
        }
    }
    if let Some(old_k) = clear_old {
        match trx.clear(old_k.as_slice()) {
            Ok(()) => (),
            Err(e) => {
                return Err(e);
            },
        }
    }
    match trx.set(new_k.as_slice(), pkenc) {
        Ok(()) => (),
        Err(e) => {
            return Err(e);
        },
    }
    proof {
        assert(spec_set_unique_index(*d, m, tag, new_value@, pkenc@) == Ok::<
            Map<Seq<u8>, Seq<u8>>,
            TransactionError,
        >(trx.store()));
    }
    Ok(())
}

/// Sets the multi index of column `tag` to value `new_value` for the
/// row `pkenc`, as the specification-level model prescribes.
pub fn set_multi_index<T: KvTransaction>(
    trx: &mut T,
    d: &TableDescriptor,
    tag: u16,
    new_value: &[u8],
    pkenc: &[u8],
) -> (r: Result<(), TransactionError>)
    requires
        old(trx).inv(),
    ensures
        final(trx).inv(),
        match r {
            Ok(()) => spec_set_multi_index(*d, old(trx).store(), tag, new_value@, pkenc@)
                == Ok::<Map<Seq<u8>, Seq<u8>>, TransactionError>(final(trx).store()),
            Err(e) => is_store_error(e) || (final(trx).store() == old(trx).store()
                && spec_set_multi_index(*d, old(trx).store(), tag, new_value@, pkenc@)
                == Err::<Map<Seq<u8>, Seq<u8>>, TransactionError>(e)),
        },
{
    let ghost m = trx.store();
    let cell_k = d.cell_key_bytes(pkenc, tag);
    let old_val = match trx.get(cell_k.as_slice()) {
        Ok(v) => v,
        Err(e) => {
            return Err(e);
        },
    };
    let new_k = d.multi_index_key(tag, new_value, pkenc);
    let mut clear_old: Option<Vec<u8>> = None;
    if let Some(ov) = old_val {
        let old_k = d.multi_index_key(tag, ov.as_slice(), pkenc);
        let old_entry = match trx.get(old_k.as_slice()) {
            Ok(v) => v,
            Err(e) => {
                return Err(e);
            },
        };
        if let Some(old_pk) = old_entry {
            if !bytes_eq(old_pk.as_slice(), pkenc) {
                return Err(TransactionError::IndexMismatchError);
            }
            if bytes_eq(ov.as_slice(), new_value) {
                return Ok(());
            }
            clear_old = Some(old_k);
        }
    }
    if let Some(old_k) = clear_old {
        match trx.clear(old_k.as_slice()) {
            Ok(()) => (),
            Err(e) => {
                return Err(e);
            },
        }
    }
    match trx.set(new_k.as_slice(), pkenc) {
        Ok(()) => (),
        Err(e) => {
            return Err(e);
        },
    }
    Ok(())
}

/// Removes the unique-index entry the row `pkenc` owns for value `v`,
/// re-verifying the stored pointer first.
pub fn delete_unique_index<T: KvTransaction>(
    trx: &mut T,
    d: &TableDescriptor,
    tag: u16,
    value: &[u8],
    pkenc: &[u8],
) -> (r: Result<(), TransactionError>)
    requires
        old(trx).inv(),
    ensures
        final(trx).inv(),
        match r {
            Ok(()) => spec_delete_unique_index(*d, old(trx).store(), tag, value@, pkenc@)
                == Ok::<Map<Seq<u8>, Seq<u8>>, TransactionError>(final(trx).store()),
            Err(e) => is_store_error(e) || (final(trx).store() == old(trx).store()
                && spec_delete_unique_index(*d, old(trx).store(), tag, value@, pkenc@)
                == Err::<Map<Seq<u8>, Seq<u8>>, TransactionError>(e)),
        },
{
    let k = d.unique_index_key(tag, value);
    let entry = match trx.get(k.as_slice()) {
        Ok(v) => v,
        Err(e) => {
            return Err(e);
        },
    };
    match entry {
        None => Err(TransactionError::IndexNotFound),
        Some(p) => {
            if !bytes_eq(p.as_slice(), pkenc) {
                return Err(TransactionError::IndexMismatchError);
            }
            match trx.clear(k.as_slice()) {
                Ok(()) => Ok(()),
                Err(e) => Err(e),
            }
        },
    }
}

/// Removes the multi-index entry the row `pkenc` owns for value `v`;
/// its absence is a data-integrity failure, not a normal case.
pub fn delete_multi_index<T: KvTransaction>(
    trx: &mut T,
    d: &TableDescriptor,
    tag: u16,
    value: &[u8],
    pkenc: &[u8],
) -> (r: Result<(), TransactionError>)
    requires
        old(trx).inv(),
    ensures
        final(trx).inv(),
        match r {
            Ok(()) => spec_delete_multi_index(*d, old(trx).store(), tag, value@, pkenc@)
                == Ok::<Map<Seq<u8>, Seq<u8>>, TransactionError>(final(trx).store()),
            Err(e) => is_store_error(e) || (final(trx).store() == old(trx).store()
                && spec_delete_multi_index(*d, old(trx).store(), tag, value@, pkenc@)
                == Err::<Map<Seq<u8>, Seq<u8>>, TransactionError>(e)),
        },
{
    let k = d.multi_index_key(tag, value, pkenc);
    let entry = match trx.get(k.as_slice()) {
        Ok(v) => v,
        Err(e) => {
            return Err(e);
        },
    };
    match entry {
        None => Err(TransactionError::IndexNotFound),
        Some(_p) => {
            match trx.clear(k.as_slice()) {
                Ok(()) => Ok(()),
                Err(e) => Err(e),
            }
        },
    }
}

} // verus!
