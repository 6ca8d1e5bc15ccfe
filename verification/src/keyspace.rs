//! Composable byte-prefix namespaces.
//!
//! A keyspace is an immutable byte prefix. Deriving a child namespace
//! appends the child's bytes and then a separator byte, so that one
//! namespace's prefix cannot collide with a sibling's literal bytes as
//! long as the child bytes themselves avoid the separator. `pack`
//! appends literal key bytes with no separator: a packed key is a key,
//! not a sub-namespace.

use vstd::prelude::*;

use crate::bytes::{concat_bytes, copy_bytes, eq_up_to, lemma_lex_by_diff_point, lex_lt, strip_prefix_bytes};

verus! {

/// The namespace separator byte (ASCII unit separator).
pub const SEPARATOR: u8 = 0x1F;

/// The prefix of a namespace freshly derived from raw bytes.
pub open spec fn sealed_prefix(bytes: Seq<u8>) -> Seq<u8> {
    bytes + seq![SEPARATOR]
}

/// The prefix of the child namespace of `parent` named `child`.
pub open spec fn child_prefix(parent: Seq<u8>, child: Seq<u8>) -> Seq<u8> {
    sealed_prefix(parent + child)
}

/// A byte string with no occurrence of the separator byte.
pub open spec fn sep_free(b: Seq<u8>) -> bool {
    forall|i: int| 0 <= i < b.len() ==> b[i] != SEPARATOR
}

/// The namespace interface a backend's keyspace type offers: an
/// immutable byte prefix from which child namespaces are derived and
/// under which keys are packed and unpacked.
pub trait KvKeyspace: Sized {
    /// The byte prefix this keyspace stands for.
    spec fn prefix(&self) -> Seq<u8>;

    /// The universal namespace: the empty prefix.
    fn all() -> (ks: Self)
        ensures
            ks.prefix() == Seq::<u8>::empty(),
    ;

    /// A namespace over `bytes`, sealed with the separator.
    fn from_bytes(bytes: &[u8]) -> (ks: Self)
        ensures
            ks.prefix() == sealed_prefix(bytes@),
    ;

    /// The raw prefix bytes.
    fn as_bytes(&self) -> (b: &[u8])
        ensures
            b@ == self.prefix(),
    ;

    /// The child namespace named by `bytes`.
    fn keyspace(&self, bytes: &[u8]) -> (ks: Self)
        ensures
            ks.prefix() == child_prefix(self.prefix(), bytes@),
    ;

    /// The literal key for `bytes` under this namespace.
    fn pack(&self, bytes: &[u8]) -> (key: Vec<u8>)
        ensures
            key@ == self.prefix() + bytes@,
    ;

    /// Strips the prefix from `key`; `None` if `key` is not under this
    /// namespace.
    fn unpack(&self, key: &[u8]) -> (r: Option<Vec<u8>>)
        ensures
            match r {
                Some(suffix) => key@ == self.prefix() + suffix@,
                None => !self.prefix().is_prefix_of(key@),
            },
    ;

    /// Inclusive bounds spanning the keys under this namespace.
    fn range(&self) -> (r: (Vec<u8>, Vec<u8>))
        ensures
            r.0@ == self.prefix() + seq![0x00u8],
            r.1@ == self.prefix() + seq![0xFFu8],
    ;
}

/// The concrete keyspace value the storage layer uses: a plain byte
/// buffer holding the prefix.
pub struct RdbKeyspace {
    bytes: Vec<u8>,
}

impl KvKeyspace for RdbKeyspace {
    closed spec fn prefix(&self) -> Seq<u8> {
        self.bytes@
    }

    fn all() -> (ks: Self)
        ensures
            ks.prefix() == Seq::<u8>::empty(),
    {
        let ks = RdbKeyspace { bytes: Vec::new() };
        proof {
            assert(ks.prefix() =~= Seq::<u8>::empty());
        }
        ks
    }

    fn from_bytes(bytes: &[u8]) -> (ks: Self)
        ensures
            ks.prefix() == sealed_prefix(bytes@),
    {
        let mut buf = concat_bytes(bytes, &[]);
        buf.push(SEPARATOR);
        proof {
            assert(buf@ =~= sealed_prefix(bytes@));
        }
        RdbKeyspace { bytes: buf }
    }

    fn as_bytes(&self) -> (b: &[u8])
        ensures
            b@ == self.prefix(),
    {
        self.bytes.as_slice()
    }

    fn keyspace(&self, bytes: &[u8]) -> (ks: Self)
        ensures
            ks.prefix() == child_prefix(self.prefix(), bytes@),
    {
        let mut buf = concat_bytes(self.bytes.as_slice(), bytes);
        buf.push(SEPARATOR);
        proof {
            assert(buf@ =~= child_prefix(self.prefix(), bytes@));
        }
        RdbKeyspace { bytes: buf }
    }

    fn pack(&self, bytes: &[u8]) -> (key: Vec<u8>)
        ensures
            key@ == self.prefix() + bytes@,
    {
        concat_bytes(self.bytes.as_slice(), bytes)
    }

    fn unpack(&self, key: &[u8]) -> (r: Option<Vec<u8>>)
        ensures
            match r {
                Some(suffix) => key@ == self.prefix() + suffix@,
                None => !self.prefix().is_prefix_of(key@),
            },
    {
        strip_prefix_bytes(key, self.bytes.as_slice())
    }

    fn range(&self) -> (r: (Vec<u8>, Vec<u8>))
        ensures
            r.0@ == self.prefix() + seq![0x00u8],
            r.1@ == self.prefix() + seq![0xFFu8],
    {
        let lo = self.pack(&[0x00]);
        let hi = self.pack(&[0xFF]);
        proof {
            assert(lo@ =~= self.prefix() + seq![0x00u8]);
            assert(hi@ =~= self.prefix() + seq![0xFFu8]);
        }
        (lo, hi)
    }
}

impl RdbKeyspace {
    /// An identical keyspace value.
    pub fn duplicate(&self) -> (ks: Self)
        ensures
            ks.prefix() == self.prefix(),
    {
        RdbKeyspace { bytes: concat_bytes(self.bytes.as_slice(), &[]) }
    }

    /// A keyspace over the literal prefix `bytes`, unsealed: the region
    /// of every key a namespace's `pack` could produce from a given
    /// packed-key boundary, as opposed to a derived sub-namespace.
    pub fn raw(bytes: &[u8]) -> (ks: Self)
        ensures
            ks.prefix() == bytes@,
    {
        let ks = RdbKeyspace { bytes: copy_bytes(bytes) };
        ks
    }
}

/// Where two byte strings agree on no full prefix, one never begins
/// with the other, whatever either is extended by.
proof fn lemma_first_diff(a: Seq<u8>, b: Seq<u8>)
    requires
        !a.is_prefix_of(b),
        !b.is_prefix_of(a),
    ensures
        exists|i: int|
            0 <= i < a.len() && i < b.len() && eq_up_to(a, b, i) && a[i] != b[i],
    decreases a.len(),
{
    assert(a.len() > 0) by {
        if a.len() == 0 {
            assert(a =~= b.subrange(0, 0));
        }
    }
    assert(b.len() > 0) by {
        if b.len() == 0 {
            assert(b =~= a.subrange(0, 0));
        }
    }
    if a[0] != b[0] {
        assert(eq_up_to(a, b, 0));
    } else {
        let ta = a.drop_first();
        let tb = b.drop_first();
        if ta.is_prefix_of(tb) {
            assert forall|j: int| 0 <= j < a.len() implies a[j] == b.subrange(
                0,
                a.len() as int,
            )[j] by {
                if j >= 1 {
                    assert(a[j] == ta[j - 1]);
                    assert(ta[j - 1] == tb.subrange(0, ta.len() as int)[j - 1]);
                    assert(tb[j - 1] == b[j]);
                }
            }
            assert(a =~= b.subrange(0, a.len() as int));
            assert(false);
        }
        if tb.is_prefix_of(ta) {
            assert forall|j: int| 0 <= j < b.len() implies b[j] == a.subrange(
                0,
                b.len() as int,
            )[j] by {
                if j >= 1 {
                    assert(b[j] == tb[j - 1]);
                    assert(tb[j - 1] == ta.subrange(0, tb.len() as int)[j - 1]);
                    assert(ta[j - 1] == a[j]);
                }
            }
            assert(b =~= a.subrange(0, b.len() as int));
            assert(false);
        }
        lemma_first_diff(ta, tb);
        let i = choose|i: int|
            0 <= i < ta.len() && i < tb.len() && eq_up_to(ta, tb, i) && ta[i] != tb[i];
        assert forall|j: int| 0 <= j < i + 1 implies a[j] == b[j] by {
            if j >= 1 {
                assert(a[j] == ta[j - 1]);
                assert(b[j] == tb[j - 1]);
            }
        }
        assert(eq_up_to(a, b, i + 1));
        assert(a[i + 1] == ta[i] && b[i + 1] == tb[i]);
        assert(a[i + 1] != b[i + 1]);
    }
}

/// Sibling namespaces with distinct, separator-free names never begin
/// with one another: neither sealed prefix is a prefix of the other.
pub proof fn lemma_sibling_prefixes_diverge(parent: Seq<u8>, a: Seq<u8>, b: Seq<u8>)
    requires
        a != b,
        sep_free(a),
        sep_free(b),
    ensures
        !child_prefix(parent, a).is_prefix_of(child_prefix(parent, b)),
        !child_prefix(parent, b).is_prefix_of(child_prefix(parent, a)),
{
    lemma_sibling_prefix_one_way(parent, a, b);
    lemma_sibling_prefix_one_way(parent, b, a);
}

/// One direction of sibling-prefix divergence.
proof fn lemma_sibling_prefix_one_way(parent: Seq<u8>, a: Seq<u8>, b: Seq<u8>)
    requires
        a != b,
        sep_free(b),
    ensures
        !child_prefix(parent, a).is_prefix_of(child_prefix(parent, b)),
{
    let pa = child_prefix(parent, a);
    let pb = child_prefix(parent, b);
    if pa.is_prefix_of(pb) {
        assert(a.len() <= b.len());
        if a.len() == b.len() {
            assert forall|j: int| 0 <= j < a.len() implies a[j] == b[j] by {
                let k = parent.len() as int + j;
                assert(pa[k] == a[j]);
                assert(pb[k] == b[j]);
                assert(pa[k] == pb.subrange(0, pa.len() as int)[k]);
            }
            assert(a =~= b);
        } else {
            let k: int = parent.len() as int + a.len() as int;
            assert(pa[k] == SEPARATOR);
            assert(pb[k] == b[a.len() as int]);
            assert(pa[k] == pb.subrange(0, pa.len() as int)[k]);
            assert(b[a.len() as int] != SEPARATOR);
        }
    }
}

/// LAW — keyspace prefix isolation, range form: for two sibling
/// keyspaces derived from the same parent with different separator-free
/// child names, the inclusive ranges they report never overlap: one
/// range ends strictly before the other begins.
pub proof fn lemma_sibling_ranges_disjoint(parent: Seq<u8>, a: Seq<u8>, b: Seq<u8>)
    requires
        a != b,
        sep_free(a),
        sep_free(b),
    ensures
        lex_lt(child_prefix(parent, a) + seq![0xFFu8], child_prefix(parent, b) + seq![0x00u8])
            || lex_lt(
            child_prefix(parent, b) + seq![0xFFu8],
            child_prefix(parent, a) + seq![0x00u8],
        ),
{
    let pa = child_prefix(parent, a);
    let pb = child_prefix(parent, b);
    lemma_sibling_prefixes_diverge(parent, a, b);
    lemma_first_diff(pa, pb);
    let i = choose|i: int|
        0 <= i < pa.len() && i < pb.len() && eq_up_to(pa, pb, i) && pa[i] != pb[i];
    let a_lo = pa + seq![0x00u8];
    let a_hi = pa + seq![0xFFu8];
    let b_lo = pb + seq![0x00u8];
    let b_hi = pb + seq![0xFFu8];
    assert forall|j: int| 0 <= j < i implies a_lo[j] == b_lo[j] && a_hi[j] == b_hi[j] && a_hi[j]
        == b_lo[j] && b_hi[j] == a_lo[j] by {
        assert(a_lo[j] == pa[j] && a_hi[j] == pa[j]);
        assert(b_lo[j] == pb[j] && b_hi[j] == pb[j]);
    }
    assert(a_hi[i] == pa[i] && a_lo[i] == pa[i] && b_lo[i] == pb[i] && b_hi[i] == pb[i]);
    if pa[i] < pb[i] {
        assert(eq_up_to(a_hi, b_lo, i));
        lemma_lex_by_diff_point(a_hi, b_lo, i);
    } else {
        assert(eq_up_to(b_hi, a_lo, i));
        lemma_lex_by_diff_point(b_hi, a_lo, i);
    }
}

/// LAW — keyspace prefix isolation, unpack form: a key packed under one
/// of two sibling keyspaces (distinct, separator-free child names)
/// never unpacks against the other, whatever the packed bytes are.
pub proof fn lemma_pack_unpack_isolated(parent: Seq<u8>, a: Seq<u8>, b: Seq<u8>, packed: Seq<u8>)
    requires
        a != b,
        sep_free(a),
        sep_free(b),
    ensures
        !child_prefix(parent, b).is_prefix_of(child_prefix(parent, a) + packed),
{
    let pa = child_prefix(parent, a);
    let pb = child_prefix(parent, b);
    lemma_sibling_prefixes_diverge(parent, a, b);
    if pb.is_prefix_of(pa + packed) {
        if pb.len() <= pa.len() {
            assert(pb.is_prefix_of(pa)) by {
                assert(forall|j: int|
                    0 <= j < pb.len()
                        ==> pb[j] == #[trigger] (pa + packed).subrange(0, pb.len() as int)[j]);
                assert(forall|j: int| 0 <= j < pa.len() ==> (pa + packed)[j] == #[trigger] pa[j]);
                assert(pb =~= pa.subrange(0, pb.len() as int));
            }
        } else {
            assert(pa.is_prefix_of(pb)) by {
                assert(forall|j: int|
                    0 <= j < pb.len()
                        ==> pb[j] == #[trigger] (pa + packed).subrange(0, pb.len() as int)[j]);
                assert(forall|j: int| 0 <= j < pa.len() ==> (pa + packed)[j] == #[trigger] pa[j]);
                assert(pa =~= pb.subrange(0, pa.len() as int));
            }
        }
    }
}

} // verus!
