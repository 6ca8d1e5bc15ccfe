//! Table schemas and the on-disk key layout.
//!
//! A table is a named keyspace, an ordered positive-arity primary key,
//! and a fixed set of columns, each carrying a stable numeric tag; the
//! tag, never the declaration order, is what a cell key records. A
//! row's cells live under the table prefix followed directly by the
//! row's encoded primary-key tuple, one cell per column tag.
//! Secondary-index entries live in a disjoint region of the table's
//! keyspace: the region marker follows the table prefix where a row's
//! encoded tuple would stand, and an encoded tuple always leads with a
//! zero byte while the marker does not, so no row key ever collides
//! with an index key.

use vstd::prelude::*;

use crate::bytes::{concat_bytes, copy_bytes, lemma_concat_split};
use crate::keyspace::{child_prefix, sealed_prefix, sep_free, KvKeyspace, RdbKeyspace};
use crate::tuple::{
    be16, be32, encode_tuple, lemma_be16_injective, lemma_encode_leads_zero,
    lemma_encode_unambiguous, push_be16, push_be32, tuple_wf, PART_LEN_LIMIT,
};

verus! {

/// How a column takes part in secondary indexing.
#[derive(Clone, Copy, PartialEq, Eq, Structural, Debug)]
pub enum IndexKind {
    /// Not indexed.
    Plain,
    /// At most one live row per indexed value.
    Unique,
    /// Any number of live rows per indexed value.
    Multi,
}

/// One column: a stable tag, whether it belongs to the primary key, and
/// how it is indexed.
#[derive(Clone, Copy, PartialEq, Eq, Structural, Debug)]
pub struct ColumnDescriptor {
    /// The stable numeric tag serialized into every cell key.
    pub tag: u16,
    /// Whether the column is part of the primary key.
    pub primary: bool,
    /// How the column is indexed.
    pub index: IndexKind,
}

/// A table: its keyspace name and its columns in declaration order.
pub struct TableDescriptor {
    /// The table's keyspace name.
    pub name: Vec<u8>,
    /// The columns, in declaration order.
    pub columns: Vec<ColumnDescriptor>,
}

/// An in-memory row: one serialized value per declared column, in
/// declaration order, and whether the row has been persisted.
pub struct Row {
    /// The serialized column values, aligned with the descriptor.
    pub cells: Vec<Vec<u8>>,
    /// Whether the row has been read from or written to a store.
    pub saved: bool,
}

/// How many of the columns belong to the primary key.
pub open spec fn pk_count(cols: Seq<ColumnDescriptor>) -> int
    decreases cols.len(),
{
    if cols.len() == 0 {
        0
    } else {
        pk_count(cols.drop_last()) + if cols.last().primary {
            1int
        } else {
            0int
        }
    }
}

/// The primary-key tuple of a row: the cells of the primary columns,
/// in declaration order.
pub open spec fn pk_cells(cols: Seq<ColumnDescriptor>, cells: Seq<Seq<u8>>) -> Seq<Seq<u8>>
    decreases cols.len(),
{
    if cols.len() == 0 {
        Seq::<Seq<u8>>::empty()
    } else {
        pk_cells(cols.drop_last(), cells.drop_last()) + if cols.last().primary {
            seq![cells[cols.len() - 1]]
        } else {
            Seq::<Seq<u8>>::empty()
        }
    }
}

/// A well-formed column list: at least one column, distinct tags, at
/// least one primary column, and no index on a primary column.
pub open spec fn cols_wf(cols: Seq<ColumnDescriptor>) -> bool {
    &&& cols.len() > 0
    &&& forall|i: int, j: int|
        0 <= i < j < cols.len() ==> (#[trigger] cols[i]).tag != (#[trigger] cols[j]).tag
    &&& pk_count(cols) > 0
    &&& forall|i: int|
        0 <= i < cols.len() && (#[trigger] cols[i]).primary ==> cols[i].index == IndexKind::Plain
}

/// A well-formed table: a named, separator-free keyspace and a
/// well-formed column list.
pub open spec fn table_wf(d: TableDescriptor) -> bool {
    &&& d.name@.len() > 0
    &&& sep_free(d.name@)
    &&& cols_wf(d.columns@)
}

/// A row shaped for the table: one cell per column, each small enough
/// for the key encoding.
pub open spec fn row_wf(d: TableDescriptor, cells: Seq<Seq<u8>>) -> bool {
    &&& cells.len() == d.columns@.len()
    &&& forall|i: int| 0 <= i < cells.len() ==> (#[trigger] cells[i]).len() < PART_LEN_LIMIT
}

/// An encoded primary-key tuple of the table's arity.
pub open spec fn valid_pkenc(d: TableDescriptor, p: Seq<u8>) -> bool {
    exists|t: Seq<Seq<u8>>|
        tuple_wf(t) && t.len() == pk_count(d.columns@) && p == #[trigger] encode_tuple(t)
}

/// The table's keyspace prefix.
pub open spec fn table_prefix(d: TableDescriptor) -> Seq<u8> {
    sealed_prefix(d.name@)
}

/// The key prefix of the row identified by the encoded tuple `p`.
pub open spec fn row_space(d: TableDescriptor, p: Seq<u8>) -> Seq<u8> {
    table_prefix(d) + p
}

/// The key of one column cell of one row.
pub open spec fn cell_key(d: TableDescriptor, p: Seq<u8>, tag: u16) -> Seq<u8> {
    row_space(d, p) + be16(tag)
}

/// The index-region marker: the bytes of `idx`.
pub open spec fn index_marker() -> Seq<u8> {
    seq![0x69u8, 0x64u8, 0x78u8]
}

/// The keyspace prefix of the table's index region.
pub open spec fn index_space(d: TableDescriptor) -> Seq<u8> {
    child_prefix(table_prefix(d), index_marker())
}

/// The entry key of a unique index: the column tag and the
/// length-prefixed indexed value; its payload is the encoded tuple of
/// the one row holding the value.
pub open spec fn uidx_key(d: TableDescriptor, tag: u16, v: Seq<u8>) -> Seq<u8> {
    index_space(d) + be16(tag) + be32(v.len() as u32) + v
}

/// The key prefix shared by a multi index's entries for one value.
pub open spec fn midx_space(d: TableDescriptor, tag: u16, v: Seq<u8>) -> Seq<u8> {
    index_space(d) + be16(tag) + be32(v.len() as u32) + v
}

/// The entry key of a multi index: the per-value prefix followed by the
/// owning row's encoded tuple, so distinct rows never collide.
pub open spec fn midx_key(d: TableDescriptor, tag: u16, v: Seq<u8>, p: Seq<u8>) -> Seq<u8> {
    midx_space(d, tag, v) + p
}

impl TableDescriptor {
    /// The table's keyspace.
    pub fn keyspace(&self) -> (ks: RdbKeyspace)
        ensures
            ks.prefix() == table_prefix(*self),
    {
        let ks = RdbKeyspace::from_bytes(self.name.as_slice());
        ks
    }

    /// The keyspace of the row identified by the encoded tuple: the
    /// literal prefix its packed cell keys share.
    pub fn row_keyspace(&self, pkenc: &[u8]) -> (ks: RdbKeyspace)
        ensures
            ks.prefix() == row_space(*self, pkenc@),
    {
        let prefix = self.keyspace().pack(pkenc);
        RdbKeyspace::raw(prefix.as_slice())
    }

    /// The key of one column cell.
    pub fn cell_key_bytes(&self, pkenc: &[u8], tag: u16) -> (key: Vec<u8>)
        ensures
            key@ == cell_key(*self, pkenc@, tag),
    {
        let mut suffix: Vec<u8> = Vec::new();
        push_be16(&mut suffix, tag);
        let key = self.row_keyspace(pkenc).pack(suffix.as_slice());
        proof {
            assert(suffix@ =~= be16(tag));
        }
        key
    }

    /// The keyspace of the table's index region.
    pub fn index_keyspace(&self) -> (ks: RdbKeyspace)
        ensures
            ks.prefix() == index_space(*self),
    {
        let ks = self.keyspace().keyspace(&[0x69, 0x64, 0x78]);
        proof {
            assert(ks.prefix() =~= index_space(*self)) by {
                assert(index_marker() =~= seq![0x69u8, 0x64u8, 0x78u8]);
            }
        }
        ks
    }

    /// The entry key of a unique index for one value.
    pub fn unique_index_key(&self, tag: u16, value: &[u8]) -> (key: Vec<u8>)
        ensures
            key@ == uidx_key(*self, tag, value@),
    {
        let mut suffix: Vec<u8> = Vec::new();
        push_be16(&mut suffix, tag);
        push_be32(&mut suffix, #[verifier::truncate] (value.len() as u32));
        let mut suffix = concat_bytes(suffix.as_slice(), value);
        let key = self.index_keyspace().pack(suffix.as_slice());
        proof {
            assert(suffix@ =~= be16(tag) + be32(value@.len() as u32) + value@);
            assert(key@ =~= uidx_key(*self, tag, value@));
        }
        key
    }

    /// The keyspace of a multi index's entries for one value: the
    /// literal prefix those entry keys share.
    pub fn multi_index_space(&self, tag: u16, value: &[u8]) -> (ks: RdbKeyspace)
        ensures
            ks.prefix() == midx_space(*self, tag, value@),
    {
        let mut suffix: Vec<u8> = Vec::new();
        push_be16(&mut suffix, tag);
        push_be32(&mut suffix, #[verifier::truncate] (value.len() as u32));
        let suffix = concat_bytes(suffix.as_slice(), value);
        let prefix = self.index_keyspace().pack(suffix.as_slice());
        let ks = RdbKeyspace::raw(prefix.as_slice());
        proof {
            assert(suffix@ =~= be16(tag) + be32(value@.len() as u32) + value@);
            assert(ks.prefix() =~= midx_space(*self, tag, value@));
        }
        ks
    }

    /// The entry key of a multi index for one value and one row.
    pub fn multi_index_key(&self, tag: u16, value: &[u8], pkenc: &[u8]) -> (key: Vec<u8>)
        ensures
            key@ == midx_key(*self, tag, value@, pkenc@),
    {
        self.multi_index_space(tag, value).pack(pkenc)
    }
}

impl Row {
    /// An unsaved row from its serialized cells.
    pub fn new(cells: Vec<Vec<u8>>) -> (row: Self)
        ensures
            row.cells == cells,
            row.saved == false,
    {
        Row { cells, saved: crate::unsaved_bool() }
    }
}

/// One step of collecting the primary-key cells.
proof fn lemma_pk_cells_step(cols: Seq<ColumnDescriptor>, cells: Seq<Seq<u8>>, i: int)
    requires
        0 <= i < cols.len(),
        cols.len() == cells.len(),
    ensures
        pk_cells(cols.take(i + 1), cells.take(i + 1)) == if cols[i].primary {
            pk_cells(cols.take(i), cells.take(i)).push(cells[i])
        } else {
            pk_cells(cols.take(i), cells.take(i))
        },
{
    assert(cols.take(i + 1).drop_last() =~= cols.take(i));
    assert(cells.take(i + 1).drop_last() =~= cells.take(i));
    assert(cols.take(i + 1).last() == cols[i]);
    assert(cells.take(i + 1)[cols.take(i + 1).len() - 1] == cells[i]);
    if cols[i].primary {
        assert(pk_cells(cols.take(i + 1), cells.take(i + 1)) =~= pk_cells(
            cols.take(i),
            cells.take(i),
        ).push(cells[i]));
    } else {
        assert(pk_cells(cols.take(i + 1), cells.take(i + 1)) =~= pk_cells(
            cols.take(i),
            cells.take(i),
        ));
    }
}

/// The primary-key tuple has one part per primary column, and inherits
/// the row's cell-length bound.
pub proof fn lemma_pk_cells_wf(cols: Seq<ColumnDescriptor>, cells: Seq<Seq<u8>>)
    requires
        cols.len() == cells.len(),
        forall|i: int| 0 <= i < cells.len() ==> (#[trigger] cells[i]).len() < PART_LEN_LIMIT,
    ensures
        pk_cells(cols, cells).len() == pk_count(cols),
        tuple_wf(pk_cells(cols, cells)),
    decreases cols.len(),
{
    if cols.len() > 0 {
        let pc = cols.drop_last();
        let pe = cells.drop_last();
        assert(forall|i: int| 0 <= i < pe.len() ==> #[trigger] pe[i] == cells[i]);
        lemma_pk_cells_wf(pc, pe);
        assert(pk_cells(cols, cells) == pk_cells(pc, pe) + if cols.last().primary {
            seq![cells[cols.len() - 1]]
        } else {
            Seq::<Seq<u8>>::empty()
        });
        assert forall|a: int|
            0 <= a < pk_cells(cols, cells).len() implies (#[trigger] pk_cells(cols, cells)[a]).len()
            < PART_LEN_LIMIT by {
            if a < pk_cells(pc, pe).len() {
                assert(pk_cells(cols, cells)[a] == pk_cells(pc, pe)[a]);
            } else {
                assert(pk_cells(cols, cells)[a] == cells[cols.len() - 1]);
            }
        }
    } else {
        assert(pk_cells(cols, cells) =~= Seq::<Seq<u8>>::empty());
    }
}

/// Collects the primary-key cells of a row, in declaration order.
pub fn collect_pk_cells(d: &TableDescriptor, row: &Row) -> (parts: Vec<Vec<u8>>)
    requires
        row.cells@.len() == d.columns@.len(),
    ensures
        crate::tuple::parts_view(parts@) == pk_cells(
            d.columns@,
            crate::tuple::parts_view(row.cells@),
        ),
{
    let ghost cols = d.columns@;
    let ghost cells = crate::tuple::parts_view(row.cells@);
    let n: usize = d.columns.len();
    let mut parts: Vec<Vec<u8>> = Vec::new();
    let mut i: usize = 0;
    while i < n
        invariant
            0 <= i <= n,
            n == cols.len(),
            cols == d.columns@,
            cells == crate::tuple::parts_view(row.cells@),
            cells.len() == cols.len(),
            crate::tuple::parts_view(parts@) == pk_cells(cols.take(i as int), cells.take(i as int)),
        decreases n - i,
    {
        let ghost before = crate::tuple::parts_view(parts@);
        if d.columns[i].primary {
            parts.push(copy_bytes(row.cells[i].as_slice()));
            proof {
                assert(crate::tuple::parts_view(parts@) =~= before.push(cells[i as int]));
            }
        }
        proof {
            lemma_pk_cells_step(cols, cells, i as int);
            assert(crate::tuple::parts_view(parts@) =~= pk_cells(
                cols.take(i as int + 1),
                cells.take(i as int + 1),
            ));
        }
        i = i + 1;
    }
    proof {
        assert(cols.take(n as int) =~= cols);
        assert(cells.take(n as int) =~= cells);
    }
    parts
}

/// A cell key and an index-region key never coincide: after the table
/// prefix a cell key carries the encoded tuple's zero lead byte where
/// an index key carries the region marker.
pub proof fn lemma_cell_key_not_index_key(d: TableDescriptor, p: Seq<u8>, tag: u16, k: Seq<u8>)
    requires
        valid_pkenc(d, p),
        pk_count(d.columns@) > 0,
        index_space(d).is_prefix_of(k),
    ensures
        cell_key(d, p, tag) != k,
{
    let t = choose|t: Seq<Seq<u8>>|
        tuple_wf(t) && t.len() == pk_count(d.columns@) && p == #[trigger] encode_tuple(t);
    lemma_encode_leads_zero(t);
    let n = table_prefix(d).len() as int;
    let ck = cell_key(d, p, tag);
    assert(ck[n] == p[0]) by {
        assert(row_space(d, p)[n] == (table_prefix(d) + p)[n]);
    }
    assert(index_space(d)[n] == 0x69u8) by {
        assert(index_space(d)[n] == (table_prefix(d) + index_marker())[n]);
    }
    if ck == k {
        assert(k[n] == k.subrange(0, index_space(d).len() as int)[n]);
        assert(k[n] == index_space(d)[n]);
    }
}

/// Cell keys of one table coincide only for the same row and tag.
pub proof fn lemma_cell_key_injective(
    d: TableDescriptor,
    p1: Seq<u8>,
    tag1: u16,
    p2: Seq<u8>,
    tag2: u16,
)
    requires
        valid_pkenc(d, p1),
        valid_pkenc(d, p2),
        cell_key(d, p1, tag1) == cell_key(d, p2, tag2),
    ensures
        p1 == p2,
        tag1 == tag2,
{
    let n = table_prefix(d);
    assert(cell_key(d, p1, tag1) =~= n + (p1 + be16(tag1)));
    assert(cell_key(d, p2, tag2) =~= n + (p2 + be16(tag2)));
    lemma_concat_split(n, p1 + be16(tag1), n, p2 + be16(tag2));
    assert(p1.len() == p2.len());
    lemma_concat_split(p1, be16(tag1), p2, be16(tag2));
    lemma_be16_injective(tag1, tag2);
}

/// Unique-index keys of one table coincide only for the same column and
/// value.
pub proof fn lemma_uidx_key_injective(d: TableDescriptor, t1: u16, v1: Seq<u8>, t2: u16, v2: Seq<u8>)
    requires
        uidx_key(d, t1, v1) == uidx_key(d, t2, v2),
    ensures
        t1 == t2,
        v1 == v2,
{
    let n = index_space(d);
    assert(uidx_key(d, t1, v1) =~= n + be16(t1) + (be32(v1.len() as u32) + v1));
    assert(uidx_key(d, t2, v2) =~= n + be16(t2) + (be32(v2.len() as u32) + v2));
    lemma_concat_split(
        n + be16(t1),
        be32(v1.len() as u32) + v1,
        n + be16(t2),
        be32(v2.len() as u32) + v2,
    );
    lemma_concat_split(n, be16(t1), n, be16(t2));
    lemma_be16_injective(t1, t2);
    lemma_concat_split(be32(v1.len() as u32), v1, be32(v2.len() as u32), v2);
}

/// Multi-index keys of one table coincide only for the same column,
/// value and row.
pub proof fn lemma_midx_key_injective(
    d: TableDescriptor,
    t1: u16,
    v1: Seq<u8>,
    p1: Seq<u8>,
    t2: u16,
    v2: Seq<u8>,
    p2: Seq<u8>,
)
    requires
        v1.len() < PART_LEN_LIMIT,
        v2.len() < PART_LEN_LIMIT,
        midx_key(d, t1, v1, p1) == midx_key(d, t2, v2, p2),
    ensures
        t1 == t2,
        v1 == v2,
        p1 == p2,
{
    let n = index_space(d);
    assert(midx_key(d, t1, v1, p1) =~= (n + be16(t1)) + (be32(v1.len() as u32) + (v1 + p1)));
    assert(midx_key(d, t2, v2, p2) =~= (n + be16(t2)) + (be32(v2.len() as u32) + (v2 + p2)));
    lemma_concat_split(
        n + be16(t1),
        be32(v1.len() as u32) + (v1 + p1),
        n + be16(t2),
        be32(v2.len() as u32) + (v2 + p2),
    );
    lemma_concat_split(n, be16(t1), n, be16(t2));
    lemma_be16_injective(t1, t2);
    lemma_concat_split(
        be32(v1.len() as u32),
        v1 + p1,
        be32(v2.len() as u32),
        v2 + p2,
    );
    assert(be32(v1.len() as u32) == be32(v2.len() as u32));
    crate::tuple::lemma_be32_injective(v1.len() as u32, v2.len() as u32);
    assert(v1.len() == v2.len());
    lemma_concat_split(v1, p1, v2, p2);
}

/// A unique-index key within the length bound and a multi-index key
/// with a non-empty trailing tuple never coincide, whatever lengths the
/// multi entry carries: the recorded value length disagrees with the
/// key's shape.
#[verifier::rlimit(100)]
pub proof fn lemma_uidx_not_midx(
    d: TableDescriptor,
    t1: u16,
    v1: Seq<u8>,
    t2: u16,
    v2: Seq<u8>,
    p: Seq<u8>,
)
    requires
        v1.len() < PART_LEN_LIMIT,
        p.len() > 0,
    ensures
        uidx_key(d, t1, v1) != midx_key(d, t2, v2, p),
{
    if uidx_key(d, t1, v1) == midx_key(d, t2, v2, p) {
        let n = index_space(d);
        assert(uidx_key(d, t1, v1) =~= (n + be16(t1)) + (be32(v1.len() as u32) + v1));
        assert(midx_key(d, t2, v2, p) =~= (n + be16(t2)) + (be32(v2.len() as u32) + (v2 + p)));
        lemma_concat_split(
            n + be16(t1),
            be32(v1.len() as u32) + v1,
            n + be16(t2),
            be32(v2.len() as u32) + (v2 + p),
        );
        lemma_concat_split(
            be32(v1.len() as u32),
            v1,
            be32(v2.len() as u32),
            v2 + p,
        );
        crate::tuple::lemma_be32_injective(v1.len() as u32, v2.len() as u32);
        // The unique key's value is the whole tail, so it is longer than
        // the multi entry's value; yet their four recorded length bytes
        // agree, which pins both lengths below the cap.
        assert(v1.len() == v2.len() + p.len());
        assert(v2.len() < PART_LEN_LIMIT);
        assert(v1.len() == v2.len());
    }
}

/// A valid encoded tuple of positive arity is at least four bytes long
/// and leads with a zero byte.
pub proof fn lemma_valid_pkenc_shape(d: TableDescriptor, p: Seq<u8>)
    requires
        valid_pkenc(d, p),
        pk_count(d.columns@) > 0,
    ensures
        p.len() >= 4,
        p[0] == 0u8,
{
    let t = choose|t: Seq<Seq<u8>>|
        tuple_wf(t) && t.len() == pk_count(d.columns@) && p == #[trigger] encode_tuple(t);
    lemma_encode_leads_zero(t);
}

} // verus!
