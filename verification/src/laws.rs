//! Laws relating the codec's operations to one another.
//!
//! Each public proof function here states a property of the
//! specification-level models the executable functions' contracts are
//! pinned to, so whatever holds here holds of every verified run: the
//! write-then-read round trip, the exclusivity and ownership rules of a
//! unique index, the side-by-side independence of a multi index's
//! entries, and the two index invariants together with their
//! preservation under whole-row writes.

use vstd::prelude::*;

use crate::bytes::{lemma_concat_split, lemma_head_is_prefix};
use crate::codec::{
    row_pkenc, spec_apply_indices, spec_row_cells, spec_row_present, spec_table_set,
    spec_write_cells,
};
use crate::error::TransactionError;
use crate::index::{spec_delete_multi_index, spec_set_multi_index, spec_set_unique_index};
use crate::table::{
    cell_key, cols_wf, index_space, lemma_cell_key_injective, lemma_cell_key_not_index_key,
    lemma_midx_key_injective, lemma_pk_cells_wf, lemma_uidx_key_injective, lemma_uidx_not_midx,
    lemma_valid_pkenc_shape, midx_key, pk_cells, pk_count, row_space, row_wf, table_wf, uidx_key,
    valid_pkenc, IndexKind, TableDescriptor,
};
use crate::tuple::{be16, be32, encode_tuple, lemma_be16_injective, tuple_wf, PART_LEN_LIMIT};

verus! {

/// Cell keys of one row coincide only for one tag.
proof fn lemma_cell_key_tag_injective(d: TableDescriptor, p: Seq<u8>, t1: u16, t2: u16)
    requires
        cell_key(d, p, t1) == cell_key(d, p, t2),
    ensures
        t1 == t2,
{
    lemma_concat_split(row_space(d, p), be16(t1), row_space(d, p), be16(t2));
    lemma_be16_injective(t1, t2);
}

/// Keys that are no cell key of the row from column `i` on are
/// untouched by the cell-writing phase.
proof fn lemma_write_cells_frame(
    d: TableDescriptor,
    m: Map<Seq<u8>, Seq<u8>>,
    cells: Seq<Seq<u8>>,
    pk: Seq<u8>,
    i: int,
    k: Seq<u8>,
)
    requires
        0 <= i,
        forall|j: int|
            i <= j < d.columns@.len() ==> k != cell_key(d, pk, (#[trigger] d.columns@[j]).tag),
    ensures
        spec_write_cells(d, m, cells, pk, i).contains_key(k) == m.contains_key(k),
        m.contains_key(k) ==> spec_write_cells(d, m, cells, pk, i)[k] == m[k],
    decreases d.columns@.len() - i,
{
    if i < d.columns@.len() {
        let ck = cell_key(d, pk, d.columns@[i].tag);
        lemma_write_cells_frame(d, m.insert(ck, cells[i]), cells, pk, i + 1, k);
        assert(k != ck);
    }
}

/// From column `i` on, the cell-writing phase stores each remaining
/// column's value under its cell key.
proof fn lemma_write_cells_value(
    d: TableDescriptor,
    m: Map<Seq<u8>, Seq<u8>>,
    cells: Seq<Seq<u8>>,
    pk: Seq<u8>,
    i: int,
    j: int,
)
    requires
        cols_wf(d.columns@),
        0 <= i <= j < d.columns@.len(),
    ensures
        spec_write_cells(d, m, cells, pk, i).contains_key(cell_key(d, pk, d.columns@[j].tag)),
        spec_write_cells(d, m, cells, pk, i)[cell_key(d, pk, d.columns@[j].tag)] == cells[j],
    decreases j - i,
{
    let ck = cell_key(d, pk, d.columns@[i].tag);
    let m2 = m.insert(ck, cells[i]);
    if j == i {
        assert forall|j2: int| i + 1 <= j2 < d.columns@.len() implies ck != cell_key(
            d,
            pk,
            (#[trigger] d.columns@[j2]).tag,
        ) by {
            if ck == cell_key(d, pk, d.columns@[j2].tag) {
                lemma_cell_key_tag_injective(d, pk, d.columns@[i].tag, d.columns@[j2].tag);
            }
        }
        lemma_write_cells_frame(d, m2, cells, pk, i + 1, ck);
    } else {
        lemma_write_cells_value(d, m2, cells, pk, i + 1, j);
    }
}

/// LAW — round trip: any row written whole via the table codec reads
/// back whole with every column value equal to the original, from the
/// very state the write produced — hence, the connection layer's
/// contracts being what they are, also from any fresh transaction begun
/// after that state commits.
pub proof fn lemma_set_then_get(
    d: TableDescriptor,
    m: Map<Seq<u8>, Seq<u8>>,
    cells: Seq<Seq<u8>>,
    m1: Map<Seq<u8>, Seq<u8>>,
)
    requires
        table_wf(d),
        cells.len() == d.columns@.len(),
        spec_table_set(d, m, cells) == Ok::<Map<Seq<u8>, Seq<u8>>, TransactionError>(m1),
    ensures
        spec_row_present(d, m1, row_pkenc(d, cells)),
        spec_row_cells(d, m1, row_pkenc(d, cells)) == cells,
{
    let pk = row_pkenc(d, cells);
    let step = spec_apply_indices(d, m, cells, pk, 0);
    if step is Ok {
        let m2 = step->Ok_0;
        assert(m1 == spec_write_cells(d, m2, cells, pk, 0));
        assert forall|i: int| 0 <= i < d.columns@.len() implies m1.contains_key(
            #[trigger] cell_key(d, pk, d.columns@[i].tag),
        ) && m1[cell_key(d, pk, d.columns@[i].tag)] == cells[i] by {
            lemma_write_cells_value(d, m2, cells, pk, 0, i);
        }
        assert(spec_row_present(d, m1, pk)) by {
            assert(m1.contains_key(cell_key(d, pk, d.columns@[0].tag)));
        }
        assert(spec_row_cells(d, m1, pk) =~= cells);
    }
}

/// LAW — unique-index exclusivity: a row cannot claim a value a
/// different row owns. Provided the claiming row's own old-value entry,
/// if it has one, names the claiming row — which holds of any state
/// reached by successful writes — the write fails with
/// `IndexAlreadyExists`, and the model changes nothing.
pub proof fn lemma_unique_claim_fails(
    d: TableDescriptor,
    m: Map<Seq<u8>, Seq<u8>>,
    tag: u16,
    nv: Seq<u8>,
    pk: Seq<u8>,
    owner: Seq<u8>,
)
    requires
        m.contains_key(uidx_key(d, tag, nv)),
        m[uidx_key(d, tag, nv)] == owner,
        owner != pk,
        (m.contains_key(cell_key(d, pk, tag)) && m.contains_key(
            uidx_key(d, tag, m[cell_key(d, pk, tag)]),
        )) ==> m[uidx_key(d, tag, m[cell_key(d, pk, tag)])] == pk,
    ensures
        spec_set_unique_index(d, m, tag, nv, pk) == Err::<Map<Seq<u8>, Seq<u8>>, TransactionError>(
            TransactionError::IndexAlreadyExists,
        ),
{
    if m.contains_key(cell_key(d, pk, tag)) {
        let ov = m[cell_key(d, pk, tag)];
        if m.contains_key(uidx_key(d, tag, ov)) && ov != nv {
            let ok = uidx_key(d, tag, ov);
            let nk = uidx_key(d, tag, nv);
            assert(ok != nk) by {
                if ok == nk {
                    lemma_uidx_key_injective(d, tag, ov, tag, nv);
                }
            }
            assert(m.remove(ok).contains_key(nk) && m.remove(ok)[nk] == owner);
        }
    }
}

/// LAW — a row owns its value: after a unique-indexed write succeeds,
/// the new value's entry names the writing row.
pub proof fn lemma_unique_set_membership(
    d: TableDescriptor,
    m: Map<Seq<u8>, Seq<u8>>,
    tag: u16,
    nv: Seq<u8>,
    pk: Seq<u8>,
    m1: Map<Seq<u8>, Seq<u8>>,
)
    requires
        spec_set_unique_index(d, m, tag, nv, pk) == Ok::<Map<Seq<u8>, Seq<u8>>, TransactionError>(
            m1,
        ),
    ensures
        m1.contains_key(uidx_key(d, tag, nv)),
        m1[uidx_key(d, tag, nv)] == pk,
{
}

/// LAW — multi-index membership: after a multi-indexed write succeeds,
/// the row's own entry for the new value is present and names the row.
pub proof fn lemma_multi_set_membership(
    d: TableDescriptor,
    m: Map<Seq<u8>, Seq<u8>>,
    tag: u16,
    nv: Seq<u8>,
    pk: Seq<u8>,
    m1: Map<Seq<u8>, Seq<u8>>,
)
    requires
        spec_set_multi_index(d, m, tag, nv, pk) == Ok::<Map<Seq<u8>, Seq<u8>>, TransactionError>(
            m1,
        ),
    ensures
        m1.contains_key(midx_key(d, tag, nv, pk)),
        m1[midx_key(d, tag, nv, pk)] == pk,
{
}

/// LAW — multi-index writes do not contend: a multi-indexed write by
/// one row leaves every other row's entry for any value untouched, so
/// rows sharing a value stay discoverable side by side.
pub proof fn lemma_multi_set_surgical(
    d: TableDescriptor,
    m: Map<Seq<u8>, Seq<u8>>,
    tag: u16,
    nv: Seq<u8>,
    pk: Seq<u8>,
    m1: Map<Seq<u8>, Seq<u8>>,
    v2: Seq<u8>,
    pk2: Seq<u8>,
)
    requires
        spec_set_multi_index(d, m, tag, nv, pk) == Ok::<Map<Seq<u8>, Seq<u8>>, TransactionError>(
            m1,
        ),
        pk2 != pk,
        nv.len() < PART_LEN_LIMIT,
        v2.len() < PART_LEN_LIMIT,
        m.contains_key(cell_key(d, pk, tag)) ==> m[cell_key(d, pk, tag)].len() < PART_LEN_LIMIT,
    ensures
        m1.contains_key(midx_key(d, tag, v2, pk2)) == m.contains_key(midx_key(d, tag, v2, pk2)),
        m.contains_key(midx_key(d, tag, v2, pk2)) ==> m1[midx_key(d, tag, v2, pk2)] == m[midx_key(
            d,
            tag,
            v2,
            pk2,
        )],
{
    let other = midx_key(d, tag, v2, pk2);
    let nk = midx_key(d, tag, nv, pk);
    if other == nk {
        lemma_midx_key_injective(d, tag, v2, pk2, tag, nv, pk);
    }
    if m.contains_key(cell_key(d, pk, tag)) {
        let ov = m[cell_key(d, pk, tag)];
        let ok = midx_key(d, tag, ov, pk);
        if other == ok {
            lemma_midx_key_injective(d, tag, v2, pk2, tag, ov, pk);
        }
    }
}

/// LAW — multi-index deletion is surgical: deleting one row's entry for
/// a value leaves every other entry of that index untouched, so the
/// remaining rows sharing the value stay discoverable.
pub proof fn lemma_multi_delete_surgical(
    d: TableDescriptor,
    m: Map<Seq<u8>, Seq<u8>>,
    tag: u16,
    v: Seq<u8>,
    pk: Seq<u8>,
    m1: Map<Seq<u8>, Seq<u8>>,
    v2: Seq<u8>,
    pk2: Seq<u8>,
)
    requires
        spec_delete_multi_index(d, m, tag, v, pk) == Ok::<Map<Seq<u8>, Seq<u8>>, TransactionError>(
            m1,
        ),
        pk2 != pk || v2 != v,
        v.len() < PART_LEN_LIMIT,
        v2.len() < PART_LEN_LIMIT,
    ensures
        m1.contains_key(midx_key(d, tag, v2, pk2)) == m.contains_key(midx_key(d, tag, v2, pk2)),
        m.contains_key(midx_key(d, tag, v2, pk2)) ==> m1[midx_key(d, tag, v2, pk2)] == m[midx_key(
            d,
            tag,
            v2,
            pk2,
        )],
{
    let other = midx_key(d, tag, v2, pk2);
    let k = midx_key(d, tag, v, pk);
    if other == k {
        lemma_midx_key_injective(d, tag, v2, pk2, tag, v, pk);
    }
}


/// The index region's prefix leads every unique-index entry key.
proof fn lemma_index_space_prefixes_uidx(d: TableDescriptor, tag: u16, v: Seq<u8>)
    ensures
        index_space(d).is_prefix_of(uidx_key(d, tag, v)),
{
    assert(uidx_key(d, tag, v) =~= index_space(d) + (be16(tag) + be32(v.len() as u32) + v));
    lemma_head_is_prefix(index_space(d), be16(tag) + be32(v.len() as u32) + v);
}

/// The unique-index invariant for one column: every entry points at a
/// live row actually holding the value, and every live row's value is
/// indexed and owned by that row. Values are read within the key
/// encoding's length bound, which every codec-written cell satisfies.
pub open spec fn unique_index_ok(d: TableDescriptor, m: Map<Seq<u8>, Seq<u8>>, tag: u16) -> bool {
    &&& forall|v: Seq<u8>|
        v.len() < PART_LEN_LIMIT && #[trigger] m.contains_key(uidx_key(d, tag, v)) ==> {
            &&& valid_pkenc(d, m[uidx_key(d, tag, v)])
            &&& m.contains_key(cell_key(d, m[uidx_key(d, tag, v)], tag))
            &&& m[cell_key(d, m[uidx_key(d, tag, v)], tag)] == v
        }
    &&& forall|p: Seq<u8>|
        valid_pkenc(d, p) && #[trigger] m.contains_key(cell_key(d, p, tag)) ==> {
            &&& m[cell_key(d, p, tag)].len() < PART_LEN_LIMIT
            &&& m.contains_key(uidx_key(d, tag, m[cell_key(d, p, tag)]))
            &&& m[uidx_key(d, tag, m[cell_key(d, p, tag)])] == p
        }
}

/// LAW — unique-index uniqueness: under the invariant, two live rows
/// holding the same unique-indexed value are the same row.
pub proof fn lemma_unique_rows_distinct(
    d: TableDescriptor,
    m: Map<Seq<u8>, Seq<u8>>,
    tag: u16,
    p1: Seq<u8>,
    p2: Seq<u8>,
)
    requires
        unique_index_ok(d, m, tag),
        valid_pkenc(d, p1),
        valid_pkenc(d, p2),
        m.contains_key(cell_key(d, p1, tag)),
        m.contains_key(cell_key(d, p2, tag)),
        m[cell_key(d, p1, tag)] == m[cell_key(d, p2, tag)],
    ensures
        p1 == p2,
{
    let v = m[cell_key(d, p1, tag)];
    assert(m[uidx_key(d, tag, v)] == p1);
    assert(m[uidx_key(d, tag, v)] == p2);
}

/// What one successful unique-index write does to the index layer and
/// to the cells, entry by entry.
proof fn lemma_unique_op_shape(
    d: TableDescriptor,
    m: Map<Seq<u8>, Seq<u8>>,
    tag: u16,
    nv: Seq<u8>,
    pk: Seq<u8>,
    m2: Map<Seq<u8>, Seq<u8>>,
)
    requires
        table_wf(d),
        valid_pkenc(d, pk),
        spec_set_unique_index(d, m, tag, nv, pk) == Ok::<Map<Seq<u8>, Seq<u8>>, TransactionError>(
            m2,
        ),
    ensures
        m2.contains_key(uidx_key(d, tag, nv)) && m2[uidx_key(d, tag, nv)] == pk,
        m.contains_key(uidx_key(d, tag, nv)) ==> m[uidx_key(d, tag, nv)] == pk,
        forall|v: Seq<u8>|
            v != nv && #[trigger] m2.contains_key(uidx_key(d, tag, v)) ==> m.contains_key(
                uidx_key(d, tag, v),
            ) && m2[uidx_key(d, tag, v)] == m[uidx_key(d, tag, v)],
        forall|v: Seq<u8>|
            v != nv && #[trigger] m.contains_key(uidx_key(d, tag, v)) && m[uidx_key(d, tag, v)]
                != pk ==> m2.contains_key(uidx_key(d, tag, v)),
        (m.contains_key(cell_key(d, pk, tag)) && m[cell_key(d, pk, tag)] != nv && m.contains_key(
            uidx_key(d, tag, m[cell_key(d, pk, tag)]),
        ) && m[uidx_key(d, tag, m[cell_key(d, pk, tag)])] == pk) ==> !m2.contains_key(
            uidx_key(d, tag, m[cell_key(d, pk, tag)]),
        ),
        forall|p2: Seq<u8>, t2: u16|
            valid_pkenc(d, p2) ==> (m2.contains_key(#[trigger] cell_key(d, p2, t2))
                == m.contains_key(cell_key(d, p2, t2)) && (m.contains_key(cell_key(d, p2, t2))
                ==> m2[cell_key(d, p2, t2)] == m[cell_key(d, p2, t2)])),
{
    let ck = cell_key(d, pk, tag);
    let nk = uidx_key(d, tag, nv);
    assert forall|v: Seq<u8>| v != nv implies uidx_key(d, tag, v) != nk by {
        if uidx_key(d, tag, v) == nk {
            lemma_uidx_key_injective(d, tag, v, tag, nv);
        }
    }
    if m.contains_key(ck) && m.contains_key(uidx_key(d, tag, m[ck])) && m[ck] != nv {
        let ov = m[ck];
        let ok = uidx_key(d, tag, ov);
        assert(m[ok] == pk);
        assert(ok != nk) by {
            if ok == nk {
                lemma_uidx_key_injective(d, tag, ov, tag, nv);
            }
        }
        assert(m2 == m.remove(ok).insert(nk, pk));
        assert forall|v: Seq<u8>| v != nv implies uidx_key(d, tag, v) == ok ==> v == ov by {
            if uidx_key(d, tag, v) == ok {
                lemma_uidx_key_injective(d, tag, v, tag, ov);
            }
        }
    }
    assert forall|p2: Seq<u8>, t2: u16| valid_pkenc(d, p2) implies (m2.contains_key(
        #[trigger] cell_key(d, p2, t2),
    ) == m.contains_key(cell_key(d, p2, t2)) && (m.contains_key(cell_key(d, p2, t2))
        ==> m2[cell_key(d, p2, t2)] == m[cell_key(d, p2, t2)])) by {
        lemma_index_space_prefixes_uidx(d, tag, nv);
        lemma_cell_key_not_index_key(d, p2, t2, nk);
        if m.contains_key(ck) && m.contains_key(uidx_key(d, tag, m[ck])) {
            lemma_index_space_prefixes_uidx(d, tag, m[ck]);
            lemma_cell_key_not_index_key(d, p2, t2, uidx_key(d, tag, m[ck]));
        }
    }
}

/// The index updates of the columns in `[i, k)`, in declaration order,
/// stopping at the first error.
pub open spec fn spec_apply_range(
    d: TableDescriptor,
    m: Map<Seq<u8>, Seq<u8>>,
    cells: Seq<Seq<u8>>,
    pk: Seq<u8>,
    i: int,
    k: int,
) -> Result<Map<Seq<u8>, Seq<u8>>, TransactionError>
    decreases k - i,
{
    if i < 0 || i >= k || i >= d.columns@.len() {
        Ok(m)
    } else {
        let c = d.columns@[i];
        let step = if c.index == IndexKind::Unique {
            spec_set_unique_index(d, m, c.tag, cells[i], pk)
        } else if c.index == IndexKind::Multi {
            spec_set_multi_index(d, m, c.tag, cells[i], pk)
        } else {
            Ok(m)
        };
        match step {
            Ok(m2) => spec_apply_range(d, m2, cells, pk, i + 1, k),
            Err(e) => Err(e),
        }
    }
}

/// The index phase splits at any column position.
proof fn lemma_apply_decompose(
    d: TableDescriptor,
    m: Map<Seq<u8>, Seq<u8>>,
    cells: Seq<Seq<u8>>,
    pk: Seq<u8>,
    i: int,
    k: int,
)
    requires
        0 <= i <= k <= d.columns@.len(),
    ensures
        spec_apply_indices(d, m, cells, pk, i) == match spec_apply_range(d, m, cells, pk, i, k) {
            Ok(mm) => spec_apply_indices(d, mm, cells, pk, k),
            Err(e) => Err(e),
        },
    decreases k - i,
{
    if i < k {
        let c = d.columns@[i];
        let step = if c.index == IndexKind::Unique {
            spec_set_unique_index(d, m, c.tag, cells[i], pk)
        } else if c.index == IndexKind::Multi {
            spec_set_multi_index(d, m, c.tag, cells[i], pk)
        } else {
            Ok::<Map<Seq<u8>, Seq<u8>>, TransactionError>(m)
        };
        match step {
            Ok(m2) => {
                lemma_apply_decompose(d, m2, cells, pk, i + 1, k);
            },
            Err(_) => {},
        }
    }
}

/// From any position, the index phase is the range of remaining columns.
proof fn lemma_apply_is_range(
    d: TableDescriptor,
    m: Map<Seq<u8>, Seq<u8>>,
    cells: Seq<Seq<u8>>,
    pk: Seq<u8>,
    i: int,
)
    requires
        0 <= i <= d.columns@.len(),
    ensures
        spec_apply_indices(d, m, cells, pk, i) == spec_apply_range(
            d,
            m,
            cells,
            pk,
            i,
            d.columns@.len() as int,
        ),
    decreases d.columns@.len() - i,
{
    if i < d.columns@.len() {
        let c = d.columns@[i];
        let step = if c.index == IndexKind::Unique {
            spec_set_unique_index(d, m, c.tag, cells[i], pk)
        } else if c.index == IndexKind::Multi {
            spec_set_multi_index(d, m, c.tag, cells[i], pk)
        } else {
            Ok::<Map<Seq<u8>, Seq<u8>>, TransactionError>(m)
        };
        match step {
            Ok(m2) => {
                lemma_apply_is_range(d, m2, cells, pk, i + 1);
            },
            Err(_) => {},
        }
    }
}

/// A successful unique-index write touches no key besides the new
/// value's entry and the old value's entry.
proof fn lemma_unique_op_touches(
    d: TableDescriptor,
    m: Map<Seq<u8>, Seq<u8>>,
    tagc: u16,
    nv: Seq<u8>,
    pk: Seq<u8>,
    m2: Map<Seq<u8>, Seq<u8>>,
    k: Seq<u8>,
)
    requires
        spec_set_unique_index(d, m, tagc, nv, pk) == Ok::<Map<Seq<u8>, Seq<u8>>, TransactionError>(
            m2,
        ),
        k != uidx_key(d, tagc, nv),
        m.contains_key(cell_key(d, pk, tagc)) ==> k != uidx_key(
            d,
            tagc,
            m[cell_key(d, pk, tagc)],
        ),
    ensures
        m2.contains_key(k) == m.contains_key(k),
        m.contains_key(k) ==> m2[k] == m[k],
{
}

/// A successful multi-index write touches no key besides the row's new
/// entry and the row's old entry.
proof fn lemma_multi_op_touches(
    d: TableDescriptor,
    m: Map<Seq<u8>, Seq<u8>>,
    tagc: u16,
    nv: Seq<u8>,
    pk: Seq<u8>,
    m2: Map<Seq<u8>, Seq<u8>>,
    k: Seq<u8>,
)
    requires
        spec_set_multi_index(d, m, tagc, nv, pk) == Ok::<Map<Seq<u8>, Seq<u8>>, TransactionError>(
            m2,
        ),
        k != midx_key(d, tagc, nv, pk),
        m.contains_key(cell_key(d, pk, tagc)) ==> k != midx_key(
            d,
            tagc,
            m[cell_key(d, pk, tagc)],
            pk,
        ),
    ensures
        m2.contains_key(k) == m.contains_key(k),
        m.contains_key(k) ==> m2[k] == m[k],
{
}

/// Index updates of columns other than the unique column `tag` leave
/// that column's whole index layer and every cell untouched.
#[verifier::rlimit(100)]
proof fn lemma_apply_range_keeps_unique_layer(
    d: TableDescriptor,
    m: Map<Seq<u8>, Seq<u8>>,
    cells: Seq<Seq<u8>>,
    pk: Seq<u8>,
    i: int,
    k: int,
    tag: u16,
    m2: Map<Seq<u8>, Seq<u8>>,
)
    requires
        table_wf(d),
        valid_pkenc(d, pk),
        0 <= i <= k <= d.columns@.len(),
        forall|j: int|
            i <= j < k ==> !((#[trigger] d.columns@[j]).index == IndexKind::Unique
                && d.columns@[j].tag == tag),
        spec_apply_range(d, m, cells, pk, i, k) == Ok::<Map<Seq<u8>, Seq<u8>>, TransactionError>(
            m2,
        ),
    ensures
        forall|v: Seq<u8>|
            v.len() < PART_LEN_LIMIT ==> (m2.contains_key(#[trigger] uidx_key(d, tag, v))
                == m.contains_key(uidx_key(d, tag, v)) && (m.contains_key(uidx_key(d, tag, v))
                ==> m2[uidx_key(d, tag, v)] == m[uidx_key(d, tag, v)])),
        forall|p2: Seq<u8>, t2: u16|
            valid_pkenc(d, p2) ==> (m2.contains_key(#[trigger] cell_key(d, p2, t2))
                == m.contains_key(cell_key(d, p2, t2)) && (m.contains_key(cell_key(d, p2, t2))
                ==> m2[cell_key(d, p2, t2)] == m[cell_key(d, p2, t2)])),
    decreases k - i,
{
    if i < k {
        let c = d.columns@[i];
        if c.index == IndexKind::Unique {
            let step = spec_set_unique_index(d, m, c.tag, cells[i], pk);
            let mi = step->Ok_0;
            assert forall|v: Seq<u8>| v.len() < PART_LEN_LIMIT implies (mi.contains_key(
                #[trigger] uidx_key(d, tag, v),
            ) == m.contains_key(uidx_key(d, tag, v)) && (m.contains_key(uidx_key(d, tag, v))
                ==> mi[uidx_key(d, tag, v)] == m[uidx_key(d, tag, v)])) by {
                if uidx_key(d, tag, v) == uidx_key(d, c.tag, cells[i]) {
                    lemma_uidx_key_injective(d, tag, v, c.tag, cells[i]);
                }
                if m.contains_key(cell_key(d, pk, c.tag)) && uidx_key(d, tag, v) == uidx_key(
                    d,
                    c.tag,
                    m[cell_key(d, pk, c.tag)],
                ) {
                    lemma_uidx_key_injective(d, tag, v, c.tag, m[cell_key(d, pk, c.tag)]);
                }
                lemma_unique_op_touches(d, m, c.tag, cells[i], pk, mi, uidx_key(d, tag, v));
            }
            assert forall|p2: Seq<u8>, t2: u16| valid_pkenc(d, p2) implies (mi.contains_key(
                #[trigger] cell_key(d, p2, t2),
            ) == m.contains_key(cell_key(d, p2, t2)) && (m.contains_key(cell_key(d, p2, t2))
                ==> mi[cell_key(d, p2, t2)] == m[cell_key(d, p2, t2)])) by {
                lemma_index_space_prefixes_uidx(d, c.tag, cells[i]);
                lemma_cell_key_not_index_key(d, p2, t2, uidx_key(d, c.tag, cells[i]));
                if m.contains_key(cell_key(d, pk, c.tag)) {
                    lemma_index_space_prefixes_uidx(d, c.tag, m[cell_key(d, pk, c.tag)]);
                    lemma_cell_key_not_index_key(
                        d,
                        p2,
                        t2,
                        uidx_key(d, c.tag, m[cell_key(d, pk, c.tag)]),
                    );
                }
                lemma_unique_op_touches(d, m, c.tag, cells[i], pk, mi, cell_key(d, p2, t2));
            }
            lemma_apply_range_keeps_unique_layer(d, mi, cells, pk, i + 1, k, tag, m2);
        } else if c.index == IndexKind::Multi {
            let step = spec_set_multi_index(d, m, c.tag, cells[i], pk);
            let mi = step->Ok_0;
            assert forall|v: Seq<u8>| v.len() < PART_LEN_LIMIT implies (mi.contains_key(
                #[trigger] uidx_key(d, tag, v),
            ) == m.contains_key(uidx_key(d, tag, v)) && (m.contains_key(uidx_key(d, tag, v))
                ==> mi[uidx_key(d, tag, v)] == m[uidx_key(d, tag, v)])) by {
                lemma_valid_pkenc_shape(d, pk);
                lemma_uidx_not_midx(d, tag, v, c.tag, cells[i], pk);
                if m.contains_key(cell_key(d, pk, c.tag)) {
                    lemma_uidx_not_midx(d, tag, v, c.tag, m[cell_key(d, pk, c.tag)], pk);
                }
                lemma_multi_op_touches(d, m, c.tag, cells[i], pk, mi, uidx_key(d, tag, v));
            }
            assert forall|p2: Seq<u8>, t2: u16| valid_pkenc(d, p2) implies (mi.contains_key(
                #[trigger] cell_key(d, p2, t2),
            ) == m.contains_key(cell_key(d, p2, t2)) && (m.contains_key(cell_key(d, p2, t2))
                ==> mi[cell_key(d, p2, t2)] == m[cell_key(d, p2, t2)])) by {
                lemma_index_space_prefixes_midx(d, c.tag, cells[i], pk);
                lemma_cell_key_not_index_key(d, p2, t2, midx_key(d, c.tag, cells[i], pk));
                if m.contains_key(cell_key(d, pk, c.tag)) {
                    lemma_index_space_prefixes_midx(d, c.tag, m[cell_key(d, pk, c.tag)], pk);
                    lemma_cell_key_not_index_key(
                        d,
                        p2,
                        t2,
                        midx_key(d, c.tag, m[cell_key(d, pk, c.tag)], pk),
                    );
                }
                lemma_multi_op_touches(d, m, c.tag, cells[i], pk, mi, cell_key(d, p2, t2));
            }
            lemma_apply_range_keeps_unique_layer(d, mi, cells, pk, i + 1, k, tag, m2);
        } else {
            lemma_apply_range_keeps_unique_layer(d, m, cells, pk, i + 1, k, tag, m2);
        }
    }
}

/// Index updates of columns other than the multi column `tag` leave
/// that column's whole index layer and every cell untouched, as long as
/// the writing row's stored cells respect the encoding bound.
#[verifier::rlimit(100)]
proof fn lemma_apply_range_keeps_multi_layer(
    d: TableDescriptor,
    m: Map<Seq<u8>, Seq<u8>>,
    cells: Seq<Seq<u8>>,
    pk: Seq<u8>,
    i: int,
    k: int,
    tag: u16,
    m2: Map<Seq<u8>, Seq<u8>>,
)
    requires
        table_wf(d),
        valid_pkenc(d, pk),
        row_wf(d, cells),
        0 <= i <= k <= d.columns@.len(),
        forall|j: int| i <= j < k ==> (#[trigger] d.columns@[j]).tag != tag,
        forall|t2: u16|
            m.contains_key(#[trigger] cell_key(d, pk, t2)) ==> m[cell_key(d, pk, t2)].len()
                < PART_LEN_LIMIT,
        spec_apply_range(d, m, cells, pk, i, k) == Ok::<Map<Seq<u8>, Seq<u8>>, TransactionError>(
            m2,
        ),
    ensures
        forall|v: Seq<u8>, p: Seq<u8>|
            v.len() < PART_LEN_LIMIT ==> (m2.contains_key(#[trigger] midx_key(d, tag, v, p))
                == m.contains_key(midx_key(d, tag, v, p)) && (m.contains_key(
                midx_key(d, tag, v, p),
            ) ==> m2[midx_key(d, tag, v, p)] == m[midx_key(d, tag, v, p)])),
        forall|p2: Seq<u8>, t2: u16|
            valid_pkenc(d, p2) ==> (m2.contains_key(#[trigger] cell_key(d, p2, t2))
                == m.contains_key(cell_key(d, p2, t2)) && (m.contains_key(cell_key(d, p2, t2))
                ==> m2[cell_key(d, p2, t2)] == m[cell_key(d, p2, t2)])),
    decreases k - i,
{
    if i < k {
        let c = d.columns@[i];
        if c.index == IndexKind::Unique {
            let step = spec_set_unique_index(d, m, c.tag, cells[i], pk);
            let mi = step->Ok_0;
            assert forall|v: Seq<u8>, p: Seq<u8>| v.len() < PART_LEN_LIMIT implies (
            mi.contains_key(#[trigger] midx_key(d, tag, v, p)) == m.contains_key(
                midx_key(d, tag, v, p),
            ) && (m.contains_key(midx_key(d, tag, v, p)) ==> mi[midx_key(d, tag, v, p)] == m[
                midx_key(d, tag, v, p)
            ])) by {
                if p.len() == 0 {
                    assert(midx_key(d, tag, v, p) =~= uidx_key(d, tag, v));
                    if uidx_key(d, tag, v) == uidx_key(d, c.tag, cells[i]) {
                        lemma_uidx_key_injective(d, tag, v, c.tag, cells[i]);
                    }
                    if m.contains_key(cell_key(d, pk, c.tag)) && uidx_key(d, tag, v) == uidx_key(
                        d,
                        c.tag,
                        m[cell_key(d, pk, c.tag)],
                    ) {
                        lemma_uidx_key_injective(d, tag, v, c.tag, m[cell_key(d, pk, c.tag)]);
                    }
                } else {
                    lemma_uidx_not_midx(d, c.tag, cells[i], tag, v, p);
                    if m.contains_key(cell_key(d, pk, c.tag)) {
                        lemma_uidx_not_midx(d, c.tag, m[cell_key(d, pk, c.tag)], tag, v, p);
                    }
                }
                lemma_unique_op_touches(d, m, c.tag, cells[i], pk, mi, midx_key(d, tag, v, p));
            }
            assert forall|p2: Seq<u8>, t2: u16| valid_pkenc(d, p2) implies (mi.contains_key(
                #[trigger] cell_key(d, p2, t2),
            ) == m.contains_key(cell_key(d, p2, t2)) && (m.contains_key(cell_key(d, p2, t2))
                ==> mi[cell_key(d, p2, t2)] == m[cell_key(d, p2, t2)])) by {
                lemma_index_space_prefixes_uidx(d, c.tag, cells[i]);
                lemma_cell_key_not_index_key(d, p2, t2, uidx_key(d, c.tag, cells[i]));
                if m.contains_key(cell_key(d, pk, c.tag)) {
                    lemma_index_space_prefixes_uidx(d, c.tag, m[cell_key(d, pk, c.tag)]);
                    lemma_cell_key_not_index_key(
                        d,
                        p2,
                        t2,
                        uidx_key(d, c.tag, m[cell_key(d, pk, c.tag)]),
                    );
                }
                lemma_unique_op_touches(d, m, c.tag, cells[i], pk, mi, cell_key(d, p2, t2));
            }
            lemma_apply_range_keeps_multi_layer(d, mi, cells, pk, i + 1, k, tag, m2);
        } else if c.index == IndexKind::Multi {
            let step = spec_set_multi_index(d, m, c.tag, cells[i], pk);
            let mi = step->Ok_0;
            assert forall|v: Seq<u8>, p: Seq<u8>| v.len() < PART_LEN_LIMIT implies (
            mi.contains_key(#[trigger] midx_key(d, tag, v, p)) == m.contains_key(
                midx_key(d, tag, v, p),
            ) && (m.contains_key(midx_key(d, tag, v, p)) ==> mi[midx_key(d, tag, v, p)] == m[
                midx_key(d, tag, v, p)
            ])) by {
                lemma_valid_pkenc_shape(d, pk);
                if p.len() == 0 {
                    assert(midx_key(d, tag, v, p) =~= uidx_key(d, tag, v));
                    lemma_uidx_not_midx(d, tag, v, c.tag, cells[i], pk);
                    if m.contains_key(cell_key(d, pk, c.tag)) {
                        lemma_uidx_not_midx(d, tag, v, c.tag, m[cell_key(d, pk, c.tag)], pk);
                    }
                    assert(midx_key(d, tag, v, p) != midx_key(d, c.tag, cells[i], pk));
                } else {
                    if midx_key(d, tag, v, p) == midx_key(d, c.tag, cells[i], pk) {
                        lemma_midx_key_injective(d, tag, v, p, c.tag, cells[i], pk);
                    }
                    if m.contains_key(cell_key(d, pk, c.tag)) && midx_key(d, tag, v, p)
                        == midx_key(d, c.tag, m[cell_key(d, pk, c.tag)], pk) {
                        lemma_midx_key_injective(
                            d,
                            tag,
                            v,
                            p,
                            c.tag,
                            m[cell_key(d, pk, c.tag)],
                            pk,
                        );
                    }
                }
                lemma_multi_op_touches(d, m, c.tag, cells[i], pk, mi, midx_key(d, tag, v, p));
            }
            assert forall|p2: Seq<u8>, t2: u16| valid_pkenc(d, p2) implies (mi.contains_key(
                #[trigger] cell_key(d, p2, t2),
            ) == m.contains_key(cell_key(d, p2, t2)) && (m.contains_key(cell_key(d, p2, t2))
                ==> mi[cell_key(d, p2, t2)] == m[cell_key(d, p2, t2)])) by {
                lemma_index_space_prefixes_midx(d, c.tag, cells[i], pk);
                lemma_cell_key_not_index_key(d, p2, t2, midx_key(d, c.tag, cells[i], pk));
                if m.contains_key(cell_key(d, pk, c.tag)) {
                    lemma_index_space_prefixes_midx(d, c.tag, m[cell_key(d, pk, c.tag)], pk);
                    lemma_cell_key_not_index_key(
                        d,
                        p2,
                        t2,
                        midx_key(d, c.tag, m[cell_key(d, pk, c.tag)], pk),
                    );
                }
                lemma_multi_op_touches(d, m, c.tag, cells[i], pk, mi, cell_key(d, p2, t2));
            }
            lemma_apply_range_keeps_multi_layer(d, mi, cells, pk, i + 1, k, tag, m2);
        } else {
            lemma_apply_range_keeps_multi_layer(d, m, cells, pk, i + 1, k, tag, m2);
        }
    }
}

/// The cell-writing phase leaves the whole index region alone.
proof fn lemma_write_cells_keeps_index_region(
    d: TableDescriptor,
    m: Map<Seq<u8>, Seq<u8>>,
    cells: Seq<Seq<u8>>,
    pk: Seq<u8>,
    k: Seq<u8>,
)
    requires
        table_wf(d),
        valid_pkenc(d, pk),
        index_space(d).is_prefix_of(k),
    ensures
        spec_write_cells(d, m, cells, pk, 0).contains_key(k) == m.contains_key(k),
        m.contains_key(k) ==> spec_write_cells(d, m, cells, pk, 0)[k] == m[k],
{
    assert forall|j: int| 0 <= j < d.columns@.len() implies k != cell_key(
        d,
        pk,
        (#[trigger] d.columns@[j]).tag,
    ) by {
        lemma_cell_key_not_index_key(d, pk, d.columns@[j].tag, k);
    }
    lemma_write_cells_frame(d, m, cells, pk, 0, k);
}

/// LAW — unique-index invariant preservation: any successful whole-row
/// write keeps a unique column's invariant, whatever other indices the
/// table declares — hence, by the uniqueness law above, after any
/// sequence of successful writes no two distinct live rows ever share
/// the unique-indexed value.
#[verifier::rlimit(100)]
pub proof fn lemma_table_set_preserves_unique(
    d: TableDescriptor,
    m: Map<Seq<u8>, Seq<u8>>,
    cells: Seq<Seq<u8>>,
    m1: Map<Seq<u8>, Seq<u8>>,
    cu: int,
)
    requires
        table_wf(d),
        row_wf(d, cells),
        0 <= cu < d.columns@.len(),
        d.columns@[cu].index == IndexKind::Unique,
        unique_index_ok(d, m, d.columns@[cu].tag),
        spec_table_set(d, m, cells) == Ok::<Map<Seq<u8>, Seq<u8>>, TransactionError>(m1),
    ensures
        unique_index_ok(d, m1, d.columns@[cu].tag),
{
    let tag = d.columns@[cu].tag;
    let pk = row_pkenc(d, cells);
    let nv = cells[cu];
    let len = d.columns@.len() as int;
    lemma_pk_cells_wf(d.columns@, cells);
    assert(valid_pkenc(d, pk)) by {
        assert(tuple_wf(pk_cells(d.columns@, cells)) && pk_cells(d.columns@, cells).len()
            == pk_count(d.columns@) && pk == encode_tuple(pk_cells(d.columns@, cells)));
    }
    // Split the index phase into before, at, and after the unique column.
    lemma_apply_decompose(d, m, cells, pk, 0, cu);
    let ra = spec_apply_range(d, m, cells, pk, 0, cu);
    assert(ra is Ok);
    let ma = ra->Ok_0;
    assert forall|j: int| 0 <= j < cu implies !((#[trigger] d.columns@[j]).index
        == IndexKind::Unique && d.columns@[j].tag == tag) by {
        assert(d.columns@[j].tag != d.columns@[cu].tag);
    }
    lemma_apply_range_keeps_unique_layer(d, m, cells, pk, 0, cu, tag, ma);
    let stepb = spec_set_unique_index(d, ma, tag, nv, pk);
    assert(stepb is Ok);
    let mb = stepb->Ok_0;
    let m2 = spec_apply_indices(d, m, cells, pk, 0)->Ok_0;
    assert(spec_apply_indices(d, mb, cells, pk, cu + 1) == Ok::<
        Map<Seq<u8>, Seq<u8>>,
        TransactionError,
    >(m2));
    lemma_apply_is_range(d, mb, cells, pk, cu + 1);
    assert forall|j: int| cu + 1 <= j < len implies !((#[trigger] d.columns@[j]).index
        == IndexKind::Unique && d.columns@[j].tag == tag) by {
        assert(d.columns@[cu].tag != d.columns@[j].tag);
    }
    lemma_apply_range_keeps_unique_layer(d, mb, cells, pk, cu + 1, len, tag, m2);
    lemma_unique_op_shape(d, ma, tag, nv, pk, mb);
    assert(m1 == spec_write_cells(d, m2, cells, pk, 0));

    // The row's stored cell for the column agrees between m and ma, and
    // is bounded by the invariant when present.
    let ck = cell_key(d, pk, tag);
    assert(ma.contains_key(ck) == m.contains_key(ck) && (m.contains_key(ck) ==> ma[ck] == m[ck]));

    // The write phase never touches the index layer.
    assert forall|v: Seq<u8>|
        v.len() < PART_LEN_LIMIT implies m1.contains_key(#[trigger] uidx_key(d, tag, v))
        == m2.contains_key(uidx_key(d, tag, v)) && (m2.contains_key(uidx_key(d, tag, v))
        ==> m1[uidx_key(d, tag, v)] == m2[uidx_key(d, tag, v)]) by {
        lemma_index_space_prefixes_uidx(d, tag, v);
        lemma_write_cells_keeps_index_region(d, m2, cells, pk, uidx_key(d, tag, v));
    }
    // The writing row's cell for the indexed column now holds the value.
    lemma_write_cells_value(d, m2, cells, pk, 0, cu);
    assert(m1.contains_key(ck) && m1[ck] == nv);
    // Other rows' cells are untouched end to end.
    assert forall|p2: Seq<u8>|
        valid_pkenc(d, p2) && p2 != pk implies m1.contains_key(#[trigger] cell_key(d, p2, tag))
        == m.contains_key(cell_key(d, p2, tag)) && (m.contains_key(cell_key(d, p2, tag))
        ==> m1[cell_key(d, p2, tag)] == m[cell_key(d, p2, tag)]) by {
        assert forall|j: int| 0 <= j < len implies cell_key(d, p2, tag) != cell_key(
            d,
            pk,
            (#[trigger] d.columns@[j]).tag,
        ) by {
            if cell_key(d, p2, tag) == cell_key(d, pk, d.columns@[j].tag) {
                lemma_cell_key_injective(d, p2, tag, pk, d.columns@[j].tag);
            }
        }
        lemma_write_cells_frame(d, m2, cells, pk, 0, cell_key(d, p2, tag));
    }

    // Invariant, first half: every surviving entry points at a live row
    // holding the value.
    assert forall|v: Seq<u8>|
        v.len() < PART_LEN_LIMIT && #[trigger] m1.contains_key(uidx_key(d, tag, v)) implies {
        &&& valid_pkenc(d, m1[uidx_key(d, tag, v)])
        &&& m1.contains_key(cell_key(d, m1[uidx_key(d, tag, v)], tag))
        &&& m1[cell_key(d, m1[uidx_key(d, tag, v)], tag)] == v
    } by {
        if v == nv {
            assert(m1[uidx_key(d, tag, nv)] == pk);
        } else {
            assert(mb.contains_key(uidx_key(d, tag, v)));
            assert(ma.contains_key(uidx_key(d, tag, v)));
            assert(m.contains_key(uidx_key(d, tag, v)));
            let p2 = m[uidx_key(d, tag, v)];
            assert(valid_pkenc(d, p2) && m.contains_key(cell_key(d, p2, tag)) && m[cell_key(
                d,
                p2,
                tag,
            )] == v);
            if p2 == pk {
                // The old entry the row owned was cleared; it cannot survive.
                assert(m[ck] == v && v != nv);
                assert(ma.contains_key(ck) && ma[ck] == v);
                assert(ma.contains_key(uidx_key(d, tag, ma[ck])) && ma[uidx_key(d, tag, ma[ck])]
                    == pk);
                assert(!mb.contains_key(uidx_key(d, tag, v)));
                assert(false);
            }
        }
    }
    // Invariant, second half: every live row's value is indexed and
    // owned by that row.
    assert forall|p2: Seq<u8>|
        valid_pkenc(d, p2) && #[trigger] m1.contains_key(cell_key(d, p2, tag)) implies {
        &&& m1[cell_key(d, p2, tag)].len() < PART_LEN_LIMIT
        &&& m1.contains_key(uidx_key(d, tag, m1[cell_key(d, p2, tag)]))
        &&& m1[uidx_key(d, tag, m1[cell_key(d, p2, tag)])] == p2
    } by {
        if p2 == pk {
            assert(m1[ck] == nv);
            assert(nv.len() < PART_LEN_LIMIT);
            assert(mb.contains_key(uidx_key(d, tag, nv)) && mb[uidx_key(d, tag, nv)] == pk);
        } else {
            let v2 = m[cell_key(d, p2, tag)];
            assert(v2.len() < PART_LEN_LIMIT && m.contains_key(uidx_key(d, tag, v2)) && m[uidx_key(
                d,
                tag,
                v2,
            )] == p2);
            assert(ma.contains_key(uidx_key(d, tag, v2)) && ma[uidx_key(d, tag, v2)] == p2);
            if v2 == nv {
                assert(ma[uidx_key(d, tag, nv)] == pk);
                assert(false);
            }
            assert(mb.contains_key(uidx_key(d, tag, v2)));
            assert(mb[uidx_key(d, tag, v2)] == ma[uidx_key(d, tag, v2)]);
            assert(m2.contains_key(uidx_key(d, tag, v2)) && m2[uidx_key(d, tag, v2)] == p2);
        }
    }
}

/// The index region's prefix leads every multi-index entry key.
proof fn lemma_index_space_prefixes_midx(d: TableDescriptor, tag: u16, v: Seq<u8>, p: Seq<u8>)
    ensures
        index_space(d).is_prefix_of(midx_key(d, tag, v, p)),
{
    assert(midx_key(d, tag, v, p) =~= index_space(d) + (be16(tag) + be32(v.len() as u32) + v + p));
    lemma_head_is_prefix(index_space(d), be16(tag) + be32(v.len() as u32) + v + p);
}

/// The multi-index invariant for one column: every entry is owned by a
/// live row actually holding the value, and every live row's value has
/// the row's own entry. Values are read within the key encoding's
/// length bound, which every codec-written cell satisfies.
pub open spec fn multi_index_ok(d: TableDescriptor, m: Map<Seq<u8>, Seq<u8>>, tag: u16) -> bool {
    &&& forall|v: Seq<u8>, p: Seq<u8>|
        v.len() < PART_LEN_LIMIT && #[trigger] m.contains_key(midx_key(d, tag, v, p)) ==> {
            &&& m[midx_key(d, tag, v, p)] == p
            &&& valid_pkenc(d, p)
            &&& m.contains_key(cell_key(d, p, tag))
            &&& m[cell_key(d, p, tag)] == v
        }
    &&& forall|p: Seq<u8>|
        valid_pkenc(d, p) && #[trigger] m.contains_key(cell_key(d, p, tag)) ==> {
            &&& m[cell_key(d, p, tag)].len() < PART_LEN_LIMIT
            &&& m.contains_key(midx_key(d, tag, m[cell_key(d, p, tag)], p))
        }
}

/// LAW — multi-index correctness: under the invariant, a row's own
/// entry for a value exists exactly when the row is live and holds that
/// value; the rows sharing a value are exactly the owners of its
/// entries.
pub proof fn lemma_multi_members_exact(
    d: TableDescriptor,
    m: Map<Seq<u8>, Seq<u8>>,
    tag: u16,
    v: Seq<u8>,
    p: Seq<u8>,
)
    requires
        multi_index_ok(d, m, tag),
        valid_pkenc(d, p),
        v.len() < PART_LEN_LIMIT,
    ensures
        m.contains_key(midx_key(d, tag, v, p)) <==> (m.contains_key(cell_key(d, p, tag))
            && m[cell_key(d, p, tag)] == v),
{
    if m.contains_key(cell_key(d, p, tag)) && m[cell_key(d, p, tag)] == v {
        assert(m.contains_key(midx_key(d, tag, m[cell_key(d, p, tag)], p)));
    }
}

/// What one successful multi-index write does to the index layer and to
/// the cells, entry by entry.
proof fn lemma_multi_op_shape(
    d: TableDescriptor,
    m: Map<Seq<u8>, Seq<u8>>,
    tag: u16,
    nv: Seq<u8>,
    pk: Seq<u8>,
    m2: Map<Seq<u8>, Seq<u8>>,
)
    requires
        table_wf(d),
        valid_pkenc(d, pk),
        nv.len() < PART_LEN_LIMIT,
        m.contains_key(cell_key(d, pk, tag)) ==> m[cell_key(d, pk, tag)].len() < PART_LEN_LIMIT,
        spec_set_multi_index(d, m, tag, nv, pk) == Ok::<Map<Seq<u8>, Seq<u8>>, TransactionError>(
            m2,
        ),
    ensures
        m2.contains_key(midx_key(d, tag, nv, pk)) && m2[midx_key(d, tag, nv, pk)] == pk,
        forall|v: Seq<u8>, p: Seq<u8>|
            v.len() < PART_LEN_LIMIT && !(v == nv && p == pk) && #[trigger] m2.contains_key(
                midx_key(d, tag, v, p),
            ) ==> m.contains_key(midx_key(d, tag, v, p)) && m2[midx_key(d, tag, v, p)] == m[
                midx_key(d, tag, v, p)
            ],
        forall|v: Seq<u8>, p: Seq<u8>|
            v.len() < PART_LEN_LIMIT && p != pk && #[trigger] m.contains_key(
                midx_key(d, tag, v, p),
            ) ==> m2.contains_key(midx_key(d, tag, v, p)),
        (m.contains_key(cell_key(d, pk, tag)) && m[cell_key(d, pk, tag)] != nv && m.contains_key(
            midx_key(d, tag, m[cell_key(d, pk, tag)], pk),
        ) && m[midx_key(d, tag, m[cell_key(d, pk, tag)], pk)] == pk) ==> !m2.contains_key(
            midx_key(d, tag, m[cell_key(d, pk, tag)], pk),
        ),
        forall|p2: Seq<u8>, t2: u16|
            valid_pkenc(d, p2) ==> (m2.contains_key(#[trigger] cell_key(d, p2, t2))
                == m.contains_key(cell_key(d, p2, t2)) && (m.contains_key(cell_key(d, p2, t2))
                ==> m2[cell_key(d, p2, t2)] == m[cell_key(d, p2, t2)])),
{
    let ck = cell_key(d, pk, tag);
    let nk = midx_key(d, tag, nv, pk);
    assert forall|v: Seq<u8>, p: Seq<u8>|
        v.len() < PART_LEN_LIMIT && !(v == nv && p == pk) implies midx_key(d, tag, v, p) != nk by {
        if midx_key(d, tag, v, p) == nk {
            lemma_midx_key_injective(d, tag, v, p, tag, nv, pk);
        }
    }
    if m.contains_key(ck) && m.contains_key(midx_key(d, tag, m[ck], pk)) && m[ck] != nv && m[
        midx_key(d, tag, m[ck], pk)
    ] == pk {
        let ov = m[ck];
        let ok = midx_key(d, tag, ov, pk);
        assert(ok != nk) by {
            if ok == nk {
                lemma_midx_key_injective(d, tag, ov, pk, tag, nv, pk);
            }
        }
        assert(m2 == m.remove(ok).insert(nk, pk));
        assert forall|v: Seq<u8>, p: Seq<u8>|
            v.len() < PART_LEN_LIMIT && midx_key(d, tag, v, p) == ok implies v == ov && p == pk by {
            lemma_midx_key_injective(d, tag, v, p, tag, ov, pk);
        }
    }
    assert forall|p2: Seq<u8>, t2: u16| valid_pkenc(d, p2) implies (m2.contains_key(
        #[trigger] cell_key(d, p2, t2),
    ) == m.contains_key(cell_key(d, p2, t2)) && (m.contains_key(cell_key(d, p2, t2))
        ==> m2[cell_key(d, p2, t2)] == m[cell_key(d, p2, t2)])) by {
        lemma_index_space_prefixes_midx(d, tag, nv, pk);
        lemma_cell_key_not_index_key(d, p2, t2, nk);
        if m.contains_key(ck) {
            lemma_index_space_prefixes_midx(d, tag, m[ck], pk);
            lemma_cell_key_not_index_key(d, p2, t2, midx_key(d, tag, m[ck], pk));
        }
    }
}

/// LAW — multi-index invariant preservation: any successful whole-row
/// write keeps a multi-valued column's invariant, whatever other
/// indices the table declares, as long as the stored cells of the row
/// being overwritten respect the encoding bound — which holds of every
/// codec-written store. Hence, by the correctness law above, after any
/// sequence of successful writes the entries for a value name exactly
/// the live rows holding it.
#[verifier::rlimit(100)]
pub proof fn lemma_table_set_preserves_multi(
    d: TableDescriptor,
    m: Map<Seq<u8>, Seq<u8>>,
    cells: Seq<Seq<u8>>,
    m1: Map<Seq<u8>, Seq<u8>>,
    cm: int,
)
    requires
        table_wf(d),
        row_wf(d, cells),
        0 <= cm < d.columns@.len(),
        d.columns@[cm].index == IndexKind::Multi,
        forall|t2: u16|
            m.contains_key(#[trigger] cell_key(d, row_pkenc(d, cells), t2)) ==> m[cell_key(
                d,
                row_pkenc(d, cells),
                t2,
            )].len() < PART_LEN_LIMIT,
        multi_index_ok(d, m, d.columns@[cm].tag),
        spec_table_set(d, m, cells) == Ok::<Map<Seq<u8>, Seq<u8>>, TransactionError>(m1),
    ensures
        multi_index_ok(d, m1, d.columns@[cm].tag),
{
    let tag = d.columns@[cm].tag;
    let pk = row_pkenc(d, cells);
    let nv = cells[cm];
    let len = d.columns@.len() as int;
    lemma_pk_cells_wf(d.columns@, cells);
    assert(valid_pkenc(d, pk)) by {
        assert(tuple_wf(pk_cells(d.columns@, cells)) && pk_cells(d.columns@, cells).len()
            == pk_count(d.columns@) && pk == encode_tuple(pk_cells(d.columns@, cells)));
    }
    // Split the index phase into before, at, and after the multi column.
    lemma_apply_decompose(d, m, cells, pk, 0, cm);
    let ra = spec_apply_range(d, m, cells, pk, 0, cm);
    assert(ra is Ok);
    let ma = ra->Ok_0;
    assert forall|j: int| 0 <= j < cm implies (#[trigger] d.columns@[j]).tag != tag by {
        assert(d.columns@[j].tag != d.columns@[cm].tag);
    }
    lemma_apply_range_keeps_multi_layer(d, m, cells, pk, 0, cm, tag, ma);
    let stepb = spec_set_multi_index(d, ma, tag, nv, pk);
    assert(stepb is Ok);
    let mb = stepb->Ok_0;
    let m2 = spec_apply_indices(d, m, cells, pk, 0)->Ok_0;
    assert(spec_apply_indices(d, mb, cells, pk, cm + 1) == Ok::<
        Map<Seq<u8>, Seq<u8>>,
        TransactionError,
    >(m2));
    lemma_apply_is_range(d, mb, cells, pk, cm + 1);
    assert forall|j: int| cm + 1 <= j < len implies (#[trigger] d.columns@[j]).tag != tag by {
        assert(d.columns@[cm].tag != d.columns@[j].tag);
    }
    let ck = cell_key(d, pk, tag);
    assert(ma.contains_key(ck) == m.contains_key(ck) && (m.contains_key(ck) ==> ma[ck] == m[ck]));
    assert(ma.contains_key(ck) ==> ma[ck].len() < PART_LEN_LIMIT);
    lemma_multi_op_shape(d, ma, tag, nv, pk, mb);
    assert forall|t2: u16| mb.contains_key(#[trigger] cell_key(d, pk, t2)) implies mb[cell_key(
        d,
        pk,
        t2,
    )].len() < PART_LEN_LIMIT by {
        assert(mb.contains_key(cell_key(d, pk, t2)) == m.contains_key(cell_key(d, pk, t2)));
    }
    lemma_apply_range_keeps_multi_layer(d, mb, cells, pk, cm + 1, len, tag, m2);
    assert(m1 == spec_write_cells(d, m2, cells, pk, 0));

    // The write phase never touches the index layer.
    assert forall|v: Seq<u8>, p: Seq<u8>|
        v.len() < PART_LEN_LIMIT implies m1.contains_key(#[trigger] midx_key(d, tag, v, p))
        == m2.contains_key(midx_key(d, tag, v, p)) && (m2.contains_key(midx_key(d, tag, v, p))
        ==> m1[midx_key(d, tag, v, p)] == m2[midx_key(d, tag, v, p)]) by {
        lemma_index_space_prefixes_midx(d, tag, v, p);
        lemma_write_cells_keeps_index_region(d, m2, cells, pk, midx_key(d, tag, v, p));
    }
    lemma_write_cells_value(d, m2, cells, pk, 0, cm);
    assert(m1.contains_key(ck) && m1[ck] == nv);
    assert forall|p2: Seq<u8>|
        valid_pkenc(d, p2) && p2 != pk implies m1.contains_key(#[trigger] cell_key(d, p2, tag))
        == m.contains_key(cell_key(d, p2, tag)) && (m.contains_key(cell_key(d, p2, tag))
        ==> m1[cell_key(d, p2, tag)] == m[cell_key(d, p2, tag)]) by {
        assert forall|j: int| 0 <= j < len implies cell_key(d, p2, tag) != cell_key(
            d,
            pk,
            (#[trigger] d.columns@[j]).tag,
        ) by {
            if cell_key(d, p2, tag) == cell_key(d, pk, d.columns@[j].tag) {
                lemma_cell_key_injective(d, p2, tag, pk, d.columns@[j].tag);
            }
        }
        lemma_write_cells_frame(d, m2, cells, pk, 0, cell_key(d, p2, tag));
    }

    assert forall|v: Seq<u8>, p: Seq<u8>|
        v.len() < PART_LEN_LIMIT && #[trigger] m1.contains_key(midx_key(d, tag, v, p)) implies {
        &&& m1[midx_key(d, tag, v, p)] == p
        &&& valid_pkenc(d, p)
        &&& m1.contains_key(cell_key(d, p, tag))
        &&& m1[cell_key(d, p, tag)] == v
    } by {
        if v == nv && p == pk {
            assert(m1[midx_key(d, tag, nv, pk)] == pk);
        } else {
            assert(mb.contains_key(midx_key(d, tag, v, p)));
            assert(ma.contains_key(midx_key(d, tag, v, p)));
            assert(m.contains_key(midx_key(d, tag, v, p)));
            assert(m[midx_key(d, tag, v, p)] == p && valid_pkenc(d, p) && m.contains_key(
                cell_key(d, p, tag),
            ) && m[cell_key(d, p, tag)] == v);
            if p == pk {
                assert(m[ck] == v && v != nv);
                assert(ma.contains_key(ck) && ma[ck] == v);
                assert(ma.contains_key(midx_key(d, tag, ma[ck], pk)) && ma[midx_key(
                    d,
                    tag,
                    ma[ck],
                    pk,
                )] == pk);
                assert(!mb.contains_key(midx_key(d, tag, v, p)));
                assert(false);
            }
        }
    }
    assert forall|p2: Seq<u8>|
        valid_pkenc(d, p2) && #[trigger] m1.contains_key(cell_key(d, p2, tag)) implies {
        &&& m1[cell_key(d, p2, tag)].len() < PART_LEN_LIMIT
        &&& m1.contains_key(midx_key(d, tag, m1[cell_key(d, p2, tag)], p2))
    } by {
        if p2 == pk {
            assert(m1[ck] == nv);
            assert(nv.len() < PART_LEN_LIMIT);
            assert(mb.contains_key(midx_key(d, tag, nv, pk)));
        } else {
            let v2 = m[cell_key(d, p2, tag)];
            assert(v2.len() < PART_LEN_LIMIT && m.contains_key(midx_key(d, tag, v2, p2)));
            assert(m[midx_key(d, tag, v2, p2)] == p2);
            assert(ma.contains_key(midx_key(d, tag, v2, p2)));
            assert(ma[midx_key(d, tag, v2, p2)] == p2);
            assert(mb.contains_key(midx_key(d, tag, v2, p2)));
            assert(m2.contains_key(midx_key(d, tag, v2, p2)));
        }
    }
}

} // verus!
