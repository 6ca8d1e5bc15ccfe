//! The table codec: whole-row and single-column reads and writes.
//!
//! A row is written as one cell per column under the row's keyspace,
//! its secondary indices updated first — inside the same transaction —
//! so that an index-consistency failure aborts before any column
//! mutation. A row is read cell by cell; a wholly absent key set reads
//! as not found, while a partially present row is reported as found
//! with an empty byte string standing in for each missing cell, never
//! silently misreported as absent. Deleting a row clears its whole
//! keyspace range and every index entry the row owns. Writing a
//! primary-key column through the column-level path is rejected:
//! primary keys are immutable once a row exists.
//!
//! Every function's data outcome is pinned to a specification-level
//! model over the transaction's readable map; store-level failures pass
//! through as reported.

use vstd::prelude::*;

use crate::bytes::copy_bytes;
use crate::error::{is_store_error, TransactionError};
use crate::index::{
    delete_multi_index, delete_unique_index, set_multi_index, set_unique_index,
    spec_delete_multi_index, spec_delete_unique_index, spec_set_multi_index,
    spec_set_unique_index,
};
use crate::table::{
    cell_key, lemma_pk_cells_wf, midx_space, pk_cells, row_space, row_wf, uidx_key,
    collect_pk_cells, IndexKind, Row, TableDescriptor,
};
use crate::keyspace::KvKeyspace;
use crate::transaction::{kv_view, prefix_scan_post, KvTransaction};
use crate::tuple::{encode_tuple, encode_tuple_bytes, parts_view, tuple_wf};

verus! {

/// The encoded primary-key tuple of a row's cells.
pub open spec fn row_pkenc(d: TableDescriptor, cells: Seq<Seq<u8>>) -> Seq<u8> {
    encode_tuple(pk_cells(d.columns@, cells))
}

/// What updating every declared index of the row does to the store,
/// column by column in declaration order, stopping at the first error.
pub open spec fn spec_apply_indices(
    d: TableDescriptor,
    m: Map<Seq<u8>, Seq<u8>>,
    cells: Seq<Seq<u8>>,
    pk: Seq<u8>,
    i: int,
) -> Result<Map<Seq<u8>, Seq<u8>>, TransactionError>
    decreases d.columns@.len() - i,
{
    if i < 0 || i >= d.columns@.len() {
        Ok(m)
    } else {
        let c = d.columns@[i];
        let step = if c.index == IndexKind::Unique {
            spec_set_unique_index(d, m, c.tag, cells[i], pk)
        } else if c.index == IndexKind::Multi {
            spec_set_multi_index(d, m, c.tag, cells[i], pk)
        } else {
            Ok(m)
        };
        match step {
            Ok(m2) => spec_apply_indices(d, m2, cells, pk, i + 1),
            Err(e) => Err(e),
        }
    }
}

/// What writing every column cell of the row does to the store.
pub open spec fn spec_write_cells(
    d: TableDescriptor,
    m: Map<Seq<u8>, Seq<u8>>,
    cells: Seq<Seq<u8>>,
    pk: Seq<u8>,
    i: int,
) -> Map<Seq<u8>, Seq<u8>>
    decreases d.columns@.len() - i,
{
    if i < 0 || i >= d.columns@.len() {
        m
    } else {
        spec_write_cells(d, m.insert(cell_key(d, pk, d.columns@[i].tag), cells[i]), cells, pk, i + 1)
    }
}

/// What persisting a whole row does to the store: all indices first,
/// then all cells.
pub open spec fn spec_table_set(
    d: TableDescriptor,
    m: Map<Seq<u8>, Seq<u8>>,
    cells: Seq<Seq<u8>>,
) -> Result<Map<Seq<u8>, Seq<u8>>, TransactionError> {
    match spec_apply_indices(d, m, cells, row_pkenc(d, cells), 0) {
        Ok(m2) => Ok(spec_write_cells(d, m2, cells, row_pkenc(d, cells), 0)),
        Err(e) => Err(e),
    }
}

/// Whether any cell of the row exists: the row's existence is implicit
/// in its cells.
pub open spec fn spec_row_present(d: TableDescriptor, m: Map<Seq<u8>, Seq<u8>>, pk: Seq<u8>) -> bool {
    exists|i: int|
        0 <= i < d.columns@.len() && m.contains_key(
            #[trigger] cell_key(d, pk, d.columns@[i].tag),
        )
}

/// The cells a read returns: each column's stored value, or the empty
/// byte string where the cell is absent.
pub open spec fn spec_row_cells(d: TableDescriptor, m: Map<Seq<u8>, Seq<u8>>, pk: Seq<u8>) -> Seq<
    Seq<u8>,
> {
    Seq::new(
        d.columns@.len(),
        |i: int|
            if m.contains_key(cell_key(d, pk, d.columns@[i].tag)) {
                m[cell_key(d, pk, d.columns@[i].tag)]
            } else {
                Seq::<u8>::empty()
            },
    )
}

/// What removing every index entry the row owns does to the store.
pub open spec fn spec_remove_indices(
    d: TableDescriptor,
    m: Map<Seq<u8>, Seq<u8>>,
    cells: Seq<Seq<u8>>,
    pk: Seq<u8>,
    i: int,
) -> Result<Map<Seq<u8>, Seq<u8>>, TransactionError>
    decreases d.columns@.len() - i,
{
    if i < 0 || i >= d.columns@.len() {
        Ok(m)
    } else {
        let c = d.columns@[i];
        let step = if c.index == IndexKind::Unique {
            spec_delete_unique_index(d, m, c.tag, cells[i], pk)
        } else if c.index == IndexKind::Multi {
            spec_delete_multi_index(d, m, c.tag, cells[i], pk)
        } else {
            Ok(m)
        };
        match step {
            Ok(m2) => spec_remove_indices(d, m2, cells, pk, i + 1),
            Err(e) => Err(e),
        }
    }
}

/// The store with every key under the row's keyspace gone.
pub open spec fn spec_clear_row(d: TableDescriptor, m: Map<Seq<u8>, Seq<u8>>, pk: Seq<u8>) -> Map<
    Seq<u8>,
    Seq<u8>,
> {
    Map::new(
        |k: Seq<u8>| m.contains_key(k) && !row_space(d, pk).is_prefix_of(k),
        |k: Seq<u8>| m[k],
    )
}

/// What deleting a whole row does to the store: its index entries
/// removed, then its keyspace range cleared.
pub open spec fn spec_table_delete(
    d: TableDescriptor,
    m: Map<Seq<u8>, Seq<u8>>,
    cells: Seq<Seq<u8>>,
) -> Result<Map<Seq<u8>, Seq<u8>>, TransactionError> {
    match spec_remove_indices(d, m, cells, row_pkenc(d, cells), 0) {
        Ok(m2) => Ok(spec_clear_row(d, m2, row_pkenc(d, cells))),
        Err(e) => Err(e),
    }
}

/// What a column-level write does: reject a primary-key column, keep
/// the column's index consistent, then write the one cell.
pub open spec fn spec_column_set(
    d: TableDescriptor,
    m: Map<Seq<u8>, Seq<u8>>,
    pk: Seq<u8>,
    col: int,
    v: Seq<u8>,
) -> Result<Map<Seq<u8>, Seq<u8>>, TransactionError> {
    let c = d.columns@[col];
    if c.primary {
        Err(TransactionError::OpProhibited)
    } else {
        let step = if c.index == IndexKind::Unique {
            spec_set_unique_index(d, m, c.tag, v, pk)
        } else if c.index == IndexKind::Multi {
            spec_set_multi_index(d, m, c.tag, v, pk)
        } else {
            Ok(m)
        };
        match step {
            Ok(m2) => Ok(m2.insert(cell_key(d, pk, c.tag), v)),
            Err(e) => Err(e),
        }
    }
}

/// What `spec_clear_row` holds, key by key.
pub proof fn lemma_spec_clear_row(d: TableDescriptor, m: Map<Seq<u8>, Seq<u8>>, pk: Seq<u8>, k: Seq<u8>)
    ensures
        spec_clear_row(d, m, pk).contains_key(k) <==> (m.contains_key(k) && !row_space(
            d,
            pk,
        ).is_prefix_of(k)),
        spec_clear_row(d, m, pk).contains_key(k) ==> spec_clear_row(d, m, pk)[k] == m[k],
{
}

/// Encodes a row's primary-key tuple.
pub fn encode_primary_key(d: &TableDescriptor, row: &Row) -> (r: Result<Vec<u8>, TransactionError>)
    requires
        row.cells@.len() == d.columns@.len(),
    ensures
        match r {
            Ok(enc) => tuple_wf(pk_cells(d.columns@, parts_view(row.cells@))) && enc@ == row_pkenc(
                *d,
                parts_view(row.cells@),
            ),
            Err(e) => !tuple_wf(pk_cells(d.columns@, parts_view(row.cells@))) && e matches
                TransactionError::SerializationError(_),
        },
{
    let parts = collect_pk_cells(d, row);
    encode_tuple_bytes(&parts)
}

/// Persists the row: every declared index is updated first, inside the
/// row's transaction, then every column cell is written.
pub fn table_set<T: KvTransaction>(trx: &mut T, d: &TableDescriptor, row: &Row) -> (r: Result<
    (),
    TransactionError,
>)
    requires
        old(trx).inv(),
        row.cells@.len() == d.columns@.len(),
    ensures
        final(trx).inv(),
        match r {
            Ok(()) => tuple_wf(pk_cells(d.columns@, parts_view(row.cells@))) && spec_table_set(
                *d,
                old(trx).store(),
                parts_view(row.cells@),
            ) == Ok::<Map<Seq<u8>, Seq<u8>>, TransactionError>(final(trx).store()),
            Err(e) => is_store_error(e) || (!tuple_wf(pk_cells(d.columns@, parts_view(row.cells@)))
                && (e matches TransactionError::SerializationError(_)) && final(trx).store() == old(
                trx,
            ).store()) || spec_table_set(*d, old(trx).store(), parts_view(row.cells@)) == Err::<
                Map<Seq<u8>, Seq<u8>>,
                TransactionError,
            >(e),
        },
{
    let ghost m0 = trx.store();
    let ghost cells = parts_view(row.cells@);
    let pkenc = match encode_primary_key(d, row) {
        Ok(enc) => enc,
        Err(e) => {
            return Err(e);
        },
    };
    let ghost pk = pkenc@;
    let n: usize = d.columns.len();
    let mut i: usize = 0;
    while i < n
        invariant
            0 <= i <= n,
            n == d.columns@.len(),
            trx.inv(),
            cells == parts_view(row.cells@),
            cells.len() == n,
            row.cells@.len() == n,
            pk == pkenc@,
            pk == row_pkenc(*d, cells),
            m0 == old(trx).store(),
            spec_apply_indices(*d, m0, cells, pk, 0) == spec_apply_indices(
                *d,
                trx.store(),
                cells,
                pk,
                i as int,
            ),
        decreases n - i,
    {
        let ghost cur = trx.store();
        let col = d.columns[i];
        proof {
            assert(cells[i as int] == row.cells@[i as int]@);
        }
        let step = match col.index {
            IndexKind::Unique => set_unique_index(trx, d, col.tag, row.cells[i].as_slice(), pkenc.as_slice()),
            IndexKind::Multi => set_multi_index(trx, d, col.tag, row.cells[i].as_slice(), pkenc.as_slice()),
            IndexKind::Plain => Ok(()),
        };
        match step {
            Ok(()) => (),
            Err(e) => {
                proof {
                    if !is_store_error(e) {
                        assert(spec_apply_indices(*d, cur, cells, pk, i as int) == Err::<
                            Map<Seq<u8>, Seq<u8>>,
                            TransactionError,
                        >(e));
                    }
                }
                return Err(e);
            },
        }
        i = i + 1;
    }
    let ghost mid = trx.store();
    proof {
        assert(spec_apply_indices(*d, m0, cells, pk, 0) == Ok::<
            Map<Seq<u8>, Seq<u8>>,
            TransactionError,
        >(mid));
    }
    let mut j: usize = 0;
    while j < n
        invariant
            0 <= j <= n,
            n == d.columns@.len(),
            trx.inv(),
            cells == parts_view(row.cells@),
            cells.len() == n,
            row.cells@.len() == n,
            pk == pkenc@,
            spec_write_cells(*d, mid, cells, pk, 0) == spec_write_cells(
                *d,
                trx.store(),
                cells,
                pk,
                j as int,
            ),
        decreases n - j,
    {
        let key = d.cell_key_bytes(pkenc.as_slice(), d.columns[j].tag);
        proof {
            assert(cells[j as int] == row.cells@[j as int]@);
        }
        match trx.set(key.as_slice(), row.cells[j].as_slice()) {
            Ok(()) => (),
            Err(e) => {
                return Err(e);
            },
        }
        j = j + 1;
    }
    Ok(())
}

/// Reads the row identified by an already encoded primary-key tuple.
pub fn table_get_encoded<T: KvTransaction>(trx: &T, d: &TableDescriptor, pkenc: &[u8]) -> (r:
    Result<Option<Row>, TransactionError>)
    requires
        trx.inv(),
    ensures
        match r {
            Ok(Some(row)) => spec_row_present(*d, trx.store(), pkenc@) && parts_view(row.cells@)
                == spec_row_cells(*d, trx.store(), pkenc@) && row.saved == true,
            Ok(None) => !spec_row_present(*d, trx.store(), pkenc@),
            Err(e) => is_store_error(e),
        },
{
    let ghost m = trx.store();
    let n: usize = d.columns.len();
    let mut cells: Vec<Vec<u8>> = Vec::new();
    let mut any_present: bool = false;
    let mut i: usize = 0;
    while i < n
        invariant
            0 <= i <= n,
            n == d.columns@.len(),
            trx.inv(),
            m == trx.store(),
            parts_view(cells@) == spec_row_cells(*d, m, pkenc@).take(i as int),
            any_present <==> exists|j: int|
                0 <= j < i && m.contains_key(#[trigger] cell_key(*d, pkenc@, d.columns@[j].tag)),
        decreases n - i,
    {
        let key = d.cell_key_bytes(pkenc, d.columns[i].tag);
        let got = match trx.get(key.as_slice()) {
            Ok(v) => v,
            Err(e) => {
                return Err(e);
            },
        };
        let ghost before = parts_view(cells@);
        match got {
            Some(v) => {
                cells.push(v);
                any_present = true;
                proof {
                    assert(m.contains_key(cell_key(*d, pkenc@, d.columns@[i as int].tag)));
                }
            },
            None => {
                cells.push(Vec::new());
                proof {
                    assert(!m.contains_key(cell_key(*d, pkenc@, d.columns@[i as int].tag)));
                }
            },
        }
        proof {
            assert(parts_view(cells@) =~= before.push(
                spec_row_cells(*d, m, pkenc@)[i as int],
            ));
            assert(parts_view(cells@) =~= spec_row_cells(*d, m, pkenc@).take(i as int + 1));
        }
        i = i + 1;
    }
    proof {
        assert(spec_row_cells(*d, m, pkenc@).take(n as int) =~= spec_row_cells(*d, m, pkenc@));
    }
    if any_present {
        Ok(Some(Row { cells, saved: true }))
    } else {
        Ok(None)
    }
}

/// Reads the row identified by its primary-key parts.
pub fn table_get<T: KvTransaction>(trx: &T, d: &TableDescriptor, pk_parts: &Vec<Vec<u8>>) -> (r:
    Result<Option<Row>, TransactionError>)
    requires
        trx.inv(),
    ensures
        match r {
            Ok(Some(row)) => tuple_wf(parts_view(pk_parts@)) && spec_row_present(
                *d,
                trx.store(),
                encode_tuple(parts_view(pk_parts@)),
            ) && parts_view(row.cells@) == spec_row_cells(
                *d,
                trx.store(),
                encode_tuple(parts_view(pk_parts@)),
            ) && row.saved == true,
            Ok(None) => tuple_wf(parts_view(pk_parts@)) && !spec_row_present(
                *d,
                trx.store(),
                encode_tuple(parts_view(pk_parts@)),
            ),
            Err(e) => is_store_error(e) || (!tuple_wf(parts_view(pk_parts@)) && e matches
                TransactionError::SerializationError(_)),
        },
{
    let pkenc = match encode_tuple_bytes(pk_parts) {
        Ok(enc) => enc,
        Err(e) => {
            return Err(e);
        },
    };
    table_get_encoded(trx, d, pkenc.as_slice())
}

/// Deletes the row: every index entry it owns is removed, then its
/// whole keyspace range is cleared in one operation.
pub fn table_delete<T: KvTransaction>(trx: &mut T, d: &TableDescriptor, row: &Row) -> (r: Result<
    (),
    TransactionError,
>)
    requires
        old(trx).inv(),
        row.cells@.len() == d.columns@.len(),
    ensures
        final(trx).inv(),
        match r {
            Ok(()) => tuple_wf(pk_cells(d.columns@, parts_view(row.cells@))) && spec_table_delete(
                *d,
                old(trx).store(),
                parts_view(row.cells@),
            ) == Ok::<Map<Seq<u8>, Seq<u8>>, TransactionError>(final(trx).store()),
            Err(e) => is_store_error(e) || (!tuple_wf(pk_cells(d.columns@, parts_view(row.cells@)))
                && (e matches TransactionError::SerializationError(_)) && final(trx).store() == old(
                trx,
            ).store()) || spec_table_delete(*d, old(trx).store(), parts_view(row.cells@)) == Err::<
                Map<Seq<u8>, Seq<u8>>,
                TransactionError,
            >(e),
        },
{
    let ghost m0 = trx.store();
    let ghost cells = parts_view(row.cells@);
    let pkenc = match encode_primary_key(d, row) {
        Ok(enc) => enc,
        Err(e) => {
            return Err(e);
        },
    };
    let ghost pk = pkenc@;
    let n: usize = d.columns.len();
    let mut i: usize = 0;
    while i < n
        invariant
            0 <= i <= n,
            n == d.columns@.len(),
            trx.inv(),
            cells == parts_view(row.cells@),
            cells.len() == n,
            row.cells@.len() == n,
            pk == pkenc@,
            pk == row_pkenc(*d, cells),
            m0 == old(trx).store(),
            spec_remove_indices(*d, m0, cells, pk, 0) == spec_remove_indices(
                *d,
                trx.store(),
                cells,
                pk,
                i as int,
            ),
        decreases n - i,
    {
        let ghost cur = trx.store();
        let col = d.columns[i];
        proof {
            assert(cells[i as int] == row.cells@[i as int]@);
        }
        let step = match col.index {
            IndexKind::Unique => delete_unique_index(trx, d, col.tag, row.cells[i].as_slice(), pkenc.as_slice()),
            IndexKind::Multi => delete_multi_index(trx, d, col.tag, row.cells[i].as_slice(), pkenc.as_slice()),
            IndexKind::Plain => Ok(()),
        };
        match step {
            Ok(()) => (),
            Err(e) => {
                proof {
                    if !is_store_error(e) {
                        assert(spec_remove_indices(*d, cur, cells, pk, i as int) == Err::<
                            Map<Seq<u8>, Seq<u8>>,
                            TransactionError,
                        >(e));
                    }
                }
                return Err(e);
            },
        }
        i = i + 1;
    }
    let ghost mid = trx.store();
    let space = d.row_keyspace(pkenc.as_slice());
    match trx.clear_space(&space) {
        Ok(()) => (),
        Err(e) => {
            return Err(e);
        },
    }
    proof {
        let after = trx.store();
        assert forall|k: Seq<u8>| true implies (after.contains_key(k) <==> spec_clear_row(
            *d,
            mid,
            pk,
        ).contains_key(k)) by {
            lemma_spec_clear_row(*d, mid, pk, k);
            assert(space.prefix() == row_space(*d, pk));
            assert(after.contains_key(k) <==> (mid.contains_key(k)
                && !space.prefix().is_prefix_of(k)));
        }
        assert forall|k: Seq<u8>| #[trigger] after.contains_key(k) implies after[k]
            == spec_clear_row(*d, mid, pk)[k] by {
            lemma_spec_clear_row(*d, mid, pk, k);
            assert(after[k] == mid[k]);
        }
        assert(after =~= spec_clear_row(*d, mid, pk));
    }
    Ok(())
}

/// Reads one column's cell without materializing the whole row.
pub fn column_get<T: KvTransaction>(trx: &T, d: &TableDescriptor, pkenc: &[u8], col: usize) -> (r:
    Result<Option<Vec<u8>>, TransactionError>)
    requires
        trx.inv(),
        col < d.columns@.len(),
    ensures
        match r {
            Ok(Some(v)) => trx.store().contains_key(cell_key(*d, pkenc@, d.columns@[col as int].tag))
                && v@ == trx.store()[cell_key(*d, pkenc@, d.columns@[col as int].tag)],
            Ok(None) => !trx.store().contains_key(cell_key(*d, pkenc@, d.columns@[col as int].tag)),
            Err(e) => is_store_error(e),
        },
{
    let key = d.cell_key_bytes(pkenc, d.columns[col].tag);
    trx.get(key.as_slice())
}

/// Writes one column's cell, keeping the column's index consistent;
/// writing a primary-key column is rejected with `OpProhibited` and
/// changes nothing.
pub fn column_set<T: KvTransaction>(
    trx: &mut T,
    d: &TableDescriptor,
    pkenc: &[u8],
    col: usize,
    value: &[u8],
) -> (r: Result<(), TransactionError>)
    requires
        old(trx).inv(),
        col < d.columns@.len(),
    ensures
        final(trx).inv(),
        d.columns@[col as int].primary ==> (r == Err::<(), TransactionError>(
            TransactionError::OpProhibited,
        ) && final(trx).store() == old(trx).store()),
        match r {
            Ok(()) => spec_column_set(*d, old(trx).store(), pkenc@, col as int, value@) == Ok::<
                Map<Seq<u8>, Seq<u8>>,
                TransactionError,
            >(final(trx).store()),
            Err(e) => is_store_error(e) || (final(trx).store() == old(trx).store()
                && spec_column_set(*d, old(trx).store(), pkenc@, col as int, value@) == Err::<
                Map<Seq<u8>, Seq<u8>>,
                TransactionError,
            >(e)),
        },
{
    let ghost m0 = trx.store();
    let c = d.columns[col];
    if c.primary {
        return Err(TransactionError::OpProhibited);
    }
    let step = match c.index {
        IndexKind::Unique => set_unique_index(trx, d, c.tag, value, pkenc),
        IndexKind::Multi => set_multi_index(trx, d, c.tag, value, pkenc),
        IndexKind::Plain => Ok(()),
    };
    match step {
        Ok(()) => (),
        Err(e) => {
            return Err(e);
        },
    }
    let key = d.cell_key_bytes(pkenc, c.tag);
    match trx.set(key.as_slice(), value) {
        Ok(()) => Ok(()),
        Err(e) => Err(e),
    }
}

/// Looks a row up by a unique-indexed value: the index entry's payload
/// is the owning row's encoded primary-key tuple.
pub fn get_by_unique<T: KvTransaction>(trx: &T, d: &TableDescriptor, tag: u16, value: &[u8]) -> (r:
    Result<Option<Row>, TransactionError>)
    requires
        trx.inv(),
    ensures
        match r {
            Ok(None) => !trx.store().contains_key(uidx_key(*d, tag, value@)),
            Ok(Some(row)) => trx.store().contains_key(uidx_key(*d, tag, value@))
                && spec_row_present(*d, trx.store(), trx.store()[uidx_key(*d, tag, value@)])
                && parts_view(row.cells@) == spec_row_cells(
                *d,
                trx.store(),
                trx.store()[uidx_key(*d, tag, value@)],
            ) && row.saved == true,
            Err(e) => is_store_error(e) || (e matches TransactionError::IndexMismatchError
                && trx.store().contains_key(uidx_key(*d, tag, value@)) && !spec_row_present(
                *d,
                trx.store(),
                trx.store()[uidx_key(*d, tag, value@)],
            )),
        },
{
    let key = d.unique_index_key(tag, value);
    let entry = match trx.get(key.as_slice()) {
        Ok(v) => v,
        Err(e) => {
            return Err(e);
        },
    };
    match entry {
        None => Ok(None),
        Some(payload) => {
            match table_get_encoded(trx, d, payload.as_slice()) {
                Ok(Some(row)) => Ok(Some(row)),
                Ok(None) => Err(TransactionError::IndexMismatchError),
                Err(e) => Err(e),
            }
        },
    }
}

/// Looks up, by a multi-indexed value, the encoded primary-key tuples
/// of every row owning an entry for that value, ascending by entry key.
pub fn get_by_multi<T: KvTransaction>(trx: &T, d: &TableDescriptor, tag: u16, value: &[u8]) -> (r:
    Result<Vec<Vec<u8>>, TransactionError>)
    requires
        trx.inv(),
    ensures
        match r {
            Ok(pks) => exists|kvs: Seq<(Seq<u8>, Seq<u8>)>|
                prefix_scan_post(trx.store(), midx_space(*d, tag, value@), kvs) && parts_view(pks@)
                    == Seq::new(kvs.len(), |i: int| kvs[i].1),
            Err(e) => is_store_error(e),
        },
{
    let space = d.multi_index_space(tag, value);
    let entries = match trx.get_space(&space) {
        Ok(v) => v,
        Err(e) => {
            return Err(e);
        },
    };
    let ghost kvs = kv_view(entries@);
    let n: usize = entries.len();
    let mut pks: Vec<Vec<u8>> = Vec::new();
    let mut i: usize = 0;
    while i < n
        invariant
            0 <= i <= n,
            n == kvs.len(),
            kvs == kv_view(entries@),
            parts_view(pks@) == kvs.take(i as int).map(|j: int, p: (Seq<u8>, Seq<u8>)| p.1),
        decreases n - i,
    {
        let ghost before = parts_view(pks@);
        pks.push(copy_bytes(entries[i].value.as_slice()));
        proof {
            assert(parts_view(pks@) =~= before.push(kvs[i as int].1));
            assert(parts_view(pks@) =~= kvs.take(i as int + 1).map(
                |j: int, p: (Seq<u8>, Seq<u8>)| p.1,
            ));
        }
        i = i + 1;
    }
    proof {
        assert(kvs.take(n as int) =~= kvs);
        assert(parts_view(pks@) =~= Seq::new(kvs.len(), |i: int| kvs[i].1));
    }
    Ok(pks)
}

} // verus!
