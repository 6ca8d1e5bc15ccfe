//! An in-memory ordered store and its transactions.
//!
//! The store keeps committed data as a vector of key-value pairs held
//! in strictly ascending key order. A transaction begins as a copy of
//! the committed entries, buffers its own reads and writes against that
//! copy, and replaces the committed entries atomically on commit — so a
//! transaction observes its own writes, never another's, and a dropped
//! transaction changes nothing.

use vstd::prelude::*;

use crate::bytes::{
    copy_bytes, lemma_lex_asymmetric, lemma_lex_total, lemma_lex_trans, lex_compare, lex_le,
    lex_lt, starts_with, Cmp,
};
use crate::error::TransactionError;
use crate::keyspace::{KvKeyspace, RdbKeyspace};
use crate::transaction::{
    cleared_space_post, in_range, kv_view, prefix_scan_post, range_scan_post, KvTransaction,
    RdbValue,
};

verus! {

/// Keys ascend strictly: each key occurs once and in order.
pub open spec fn sorted_kvs(kvs: Seq<(Seq<u8>, Seq<u8>)>) -> bool {
    forall|i: int, j: int|
        0 <= i < j < kvs.len() ==> lex_lt(#[trigger] kvs[i].0, #[trigger] kvs[j].0)
}

/// The map a pair sequence denotes; a later pair wins a key collision,
/// though sorted sequences have none.
pub open spec fn seq_map(kvs: Seq<(Seq<u8>, Seq<u8>)>) -> Map<Seq<u8>, Seq<u8>>
    decreases kvs.len(),
{
    if kvs.len() == 0 {
        Map::<Seq<u8>, Seq<u8>>::empty()
    } else {
        seq_map(kvs.drop_last()).insert(kvs.last().0, kvs.last().1)
    }
}

/// A key is in the denoted map exactly when some pair lists it.
pub proof fn lemma_seq_map_contains(kvs: Seq<(Seq<u8>, Seq<u8>)>, k: Seq<u8>)
    ensures
        seq_map(kvs).contains_key(k) <==> exists|i: int| 0 <= i < kvs.len() && #[trigger] kvs[i].0
            == k,
    decreases kvs.len(),
{
    if kvs.len() > 0 {
        let pre = kvs.drop_last();
        lemma_seq_map_contains(pre, k);
        assert(forall|i: int| 0 <= i < pre.len() ==> #[trigger] pre[i] == kvs[i]);
        if seq_map(kvs).contains_key(k) {
            if k == kvs.last().0 {
                assert(kvs[kvs.len() - 1].0 == k);
            } else {
                assert(seq_map(pre).contains_key(k));
                let i = choose|i: int| 0 <= i < pre.len() && #[trigger] pre[i].0 == k;
                assert(kvs[i].0 == k);
            }
        }
        if exists|i: int| 0 <= i < kvs.len() && #[trigger] kvs[i].0 == k {
            let i = choose|i: int| 0 <= i < kvs.len() && #[trigger] kvs[i].0 == k;
            if i < kvs.len() - 1 {
                assert(pre[i].0 == k);
            }
        }
    }
}

/// A sorted prefix of a sorted sequence stays sorted.
proof fn lemma_sorted_drop_last(kvs: Seq<(Seq<u8>, Seq<u8>)>)
    requires
        sorted_kvs(kvs),
        kvs.len() > 0,
    ensures
        sorted_kvs(kvs.drop_last()),
{
    let pre = kvs.drop_last();
    assert(forall|i: int| 0 <= i < pre.len() ==> #[trigger] pre[i] == kvs[i]);
}

/// In a sorted sequence the denoted map sends each listed key to the
/// value listed beside it.
pub proof fn lemma_seq_map_value(kvs: Seq<(Seq<u8>, Seq<u8>)>, i: int)
    requires
        sorted_kvs(kvs),
        0 <= i < kvs.len(),
    ensures
        seq_map(kvs).contains_key(kvs[i].0),
        seq_map(kvs)[kvs[i].0] == kvs[i].1,
    decreases kvs.len(),
{
    let pre = kvs.drop_last();
    assert(forall|j: int| 0 <= j < pre.len() ==> #[trigger] pre[j] == kvs[j]);
    if i == kvs.len() - 1 {
    } else {
        assert(lex_lt(kvs[i].0, kvs.last().0));
        lemma_lex_asymmetric(kvs[i].0, kvs.last().0);
        lemma_sorted_drop_last(kvs);
        lemma_seq_map_value(pre, i);
    }
}

/// Inserting a pair at its ordered position keeps the sequence sorted
/// and inserts the pair into the denoted map.
pub proof fn lemma_sorted_insert(kvs: Seq<(Seq<u8>, Seq<u8>)>, p: int, pair: (Seq<u8>, Seq<u8>))
    requires
        sorted_kvs(kvs),
        0 <= p <= kvs.len(),
        forall|i: int| 0 <= i < p ==> lex_lt(#[trigger] kvs[i].0, pair.0),
        forall|i: int| p <= i < kvs.len() ==> lex_lt(pair.0, #[trigger] kvs[i].0),
    ensures
        sorted_kvs(kvs.insert(p, pair)),
        seq_map(kvs.insert(p, pair)) == seq_map(kvs).insert(pair.0, pair.1),
{
    let new = kvs.insert(p, pair);
    kvs.insert_ensures(p, pair);
    assert(sorted_kvs(new)) by {
        assert forall|i: int, j: int| 0 <= i < j < new.len() implies lex_lt(
            #[trigger] new[i].0,
            #[trigger] new[j].0,
        ) by {
            if i < p && j < p {
            } else if i < p && j == p {
            } else if i < p && j > p {
                assert(new[j] == kvs[j - 1]);
                if j - 1 < p {
                } else {
                    lemma_lex_trans(kvs[i].0, pair.0, kvs[j - 1].0);
                }
            } else if i == p {
                assert(new[j] == kvs[j - 1]);
            } else {
                assert(new[i] == kvs[i - 1] && new[j] == kvs[j - 1]);
            }
        }
    }
    assert(seq_map(new) =~= seq_map(kvs).insert(pair.0, pair.1)) by {
        assert forall|k: Seq<u8>| true implies (seq_map(new).contains_key(k) <==> seq_map(
            kvs,
        ).insert(pair.0, pair.1).contains_key(k)) by {
            lemma_seq_map_contains(new, k);
            lemma_seq_map_contains(kvs, k);
            if k == pair.0 {
                assert(new[p].0 == k);
            } else {
                if seq_map(new).contains_key(k) {
                    let i = choose|i: int| 0 <= i < new.len() && #[trigger] new[i].0 == k;
                    if i < p {
                        assert(kvs[i].0 == k);
                    } else if i == p {
                        assert(false);
                    } else {
                        assert(kvs[i - 1].0 == k);
                    }
                }
                if seq_map(kvs).contains_key(k) {
                    let i = choose|i: int| 0 <= i < kvs.len() && #[trigger] kvs[i].0 == k;
                    if i < p {
                        assert(new[i].0 == k);
                    } else {
                        assert(new[i + 1].0 == k);
                    }
                }
            }
        }
        assert forall|k: Seq<u8>| seq_map(new).contains_key(k) implies seq_map(new)[k] == seq_map(
            kvs,
        ).insert(pair.0, pair.1)[k] by {
            if k == pair.0 {
                lemma_seq_map_value(new, p);
            } else {
                lemma_seq_map_contains(new, k);
                let i = choose|i: int| 0 <= i < new.len() && #[trigger] new[i].0 == k;
                lemma_seq_map_value(new, i);
                if i < p {
                    lemma_seq_map_value(kvs, i);
                } else {
                    assert(new[i] == kvs[i - 1]);
                    lemma_seq_map_value(kvs, i - 1);
                }
            }
        }
    }
}

/// Removing a pair keeps the sequence sorted and removes its key from
/// the denoted map.
pub proof fn lemma_sorted_remove(kvs: Seq<(Seq<u8>, Seq<u8>)>, p: int)
    requires
        sorted_kvs(kvs),
        0 <= p < kvs.len(),
    ensures
        sorted_kvs(kvs.remove(p)),
        seq_map(kvs.remove(p)) == seq_map(kvs).remove(kvs[p].0),
{
    let new = kvs.remove(p);
    kvs.remove_ensures(p);
    assert(sorted_kvs(new)) by {
        assert forall|i: int, j: int| 0 <= i < j < new.len() implies lex_lt(
            #[trigger] new[i].0,
            #[trigger] new[j].0,
        ) by {
            if i < p && j < p {
            } else if i < p {
                assert(new[j] == kvs[j + 1]);
            } else {
                assert(new[i] == kvs[i + 1] && new[j] == kvs[j + 1]);
            }
        }
    }
    assert(seq_map(new) =~= seq_map(kvs).remove(kvs[p].0)) by {
        assert forall|k: Seq<u8>| true implies (seq_map(new).contains_key(k) <==> seq_map(
            kvs,
        ).remove(kvs[p].0).contains_key(k)) by {
            lemma_seq_map_contains(new, k);
            lemma_seq_map_contains(kvs, k);
            if seq_map(new).contains_key(k) {
                let i = choose|i: int| 0 <= i < new.len() && #[trigger] new[i].0 == k;
                if i < p {
                    assert(kvs[i].0 == k);
                    assert(lex_lt(kvs[i].0, kvs[p].0));
                    lemma_lex_asymmetric(kvs[i].0, kvs[p].0);
                } else {
                    assert(kvs[i + 1].0 == k);
                    assert(lex_lt(kvs[p].0, kvs[i + 1].0));
                    lemma_lex_asymmetric(kvs[p].0, kvs[i + 1].0);
                }
            }
            if seq_map(kvs).contains_key(k) && k != kvs[p].0 {
                let i = choose|i: int| 0 <= i < kvs.len() && #[trigger] kvs[i].0 == k;
                if i < p {
                    assert(new[i].0 == k);
                } else {
                    assert(i != p);
                    assert(new[i - 1].0 == k);
                }
            }
        }
        assert forall|k: Seq<u8>| seq_map(new).contains_key(k) implies seq_map(new)[k] == seq_map(
            kvs,
        ).remove(kvs[p].0)[k] by {
            lemma_seq_map_contains(new, k);
            let i = choose|i: int| 0 <= i < new.len() && #[trigger] new[i].0 == k;
            lemma_seq_map_value(new, i);
            if i < p {
                lemma_seq_map_value(kvs, i);
                assert(lex_lt(kvs[i].0, kvs[p].0));
                lemma_lex_asymmetric(kvs[i].0, kvs[p].0);
            } else {
                assert(new[i] == kvs[i + 1]);
                lemma_seq_map_value(kvs, i + 1);
                assert(lex_lt(kvs[p].0, kvs[i + 1].0));
                lemma_lex_asymmetric(kvs[p].0, kvs[i + 1].0);
            }
        }
    }
}

/// One scan step: filtering one entry longer a prefix of the sequence
/// appends the entry when the predicate admits it.
proof fn lemma_filter_take_step(
    kvs: Seq<(Seq<u8>, Seq<u8>)>,
    i: int,
    pred: spec_fn((Seq<u8>, Seq<u8>)) -> bool,
)
    requires
        0 <= i < kvs.len(),
    ensures
        kvs.take(i + 1).filter(pred) == if pred(kvs[i]) {
            kvs.take(i).filter(pred).push(kvs[i])
        } else {
            kvs.take(i).filter(pred)
        },
{
    lemma_filter_unfold(kvs.take(i + 1), pred);
    assert(kvs.take(i + 1).drop_last() =~= kvs.take(i));
    assert(kvs.take(i + 1).last() == kvs[i]);
}

/// One unfolding of the filter recursion.
proof fn lemma_filter_unfold(kvs: Seq<(Seq<u8>, Seq<u8>)>, pred: spec_fn((Seq<u8>, Seq<u8>)) -> bool)
    requires
        kvs.len() > 0,
    ensures
        kvs.filter(pred) == if pred(kvs.last()) {
            kvs.drop_last().filter(pred).push(kvs.last())
        } else {
            kvs.drop_last().filter(pred)
        },
{
    reveal(Seq::filter);
}

/// Filtering the empty sequence yields the empty sequence.
proof fn lemma_filter_empty(kvs: Seq<(Seq<u8>, Seq<u8>)>, pred: spec_fn((Seq<u8>, Seq<u8>)) -> bool)
    requires
        kvs.len() == 0,
    ensures
        kvs.filter(pred) == kvs,
{
    reveal(Seq::filter);
}

/// Every filtered pair is admitted by the predicate and listed in the
/// original sequence.
proof fn lemma_filter_members(kvs: Seq<(Seq<u8>, Seq<u8>)>, pred: spec_fn((Seq<u8>, Seq<u8>)) -> bool)
    ensures
        forall|a: int| 0 <= a < kvs.filter(pred).len() ==> pred(#[trigger] kvs.filter(pred)[a]),
        forall|a: int|
            0 <= a < kvs.filter(pred).len() ==> exists|j: int|
                0 <= j < kvs.len() && kvs[j] == #[trigger] kvs.filter(pred)[a],
    decreases kvs.len(),
{
    let outv = kvs.filter(pred);
    if kvs.len() == 0 {
        lemma_filter_empty(kvs, pred);
    } else {
        lemma_filter_unfold(kvs, pred);
        let pre = kvs.drop_last();
        lemma_filter_members(pre, pred);
        let pref = pre.filter(pred);
        assert(forall|j: int| 0 <= j < pre.len() ==> #[trigger] pre[j] == kvs[j]);
        assert forall|a: int| 0 <= a < outv.len() implies pred(#[trigger] outv[a]) && exists|
            j: int,
        | 0 <= j < kvs.len() && kvs[j] == outv[a] by {
            if a < pref.len() {
                assert(outv[a] == pref[a]);
                let j = choose|j: int| 0 <= j < pre.len() && pre[j] == pref[a];
                assert(kvs[j] == outv[a]);
            } else {
                assert(outv[a] == kvs.last());
                assert(kvs[kvs.len() - 1] == outv[a]);
            }
        }
    }
}

/// Filtering a sorted sequence keeps it sorted.
proof fn lemma_filter_sorted(kvs: Seq<(Seq<u8>, Seq<u8>)>, pred: spec_fn((Seq<u8>, Seq<u8>)) -> bool)
    requires
        sorted_kvs(kvs),
    ensures
        sorted_kvs(kvs.filter(pred)),
    decreases kvs.len(),
{
    let outv = kvs.filter(pred);
    if kvs.len() == 0 {
        lemma_filter_empty(kvs, pred);
    } else {
        lemma_filter_unfold(kvs, pred);
        let pre = kvs.drop_last();
        lemma_sorted_drop_last(kvs);
        lemma_filter_sorted(pre, pred);
        lemma_filter_members(pre, pred);
        let pref = pre.filter(pred);
        assert(forall|j: int| 0 <= j < pre.len() ==> #[trigger] pre[j] == kvs[j]);
        assert forall|a: int, b: int| 0 <= a < b < outv.len() implies lex_lt(
            #[trigger] outv[a].0,
            #[trigger] outv[b].0,
        ) by {
            assert(outv[a] == pref[a]);
            if b < pref.len() {
                assert(outv[b] == pref[b]);
            } else {
                assert(outv[b] == kvs.last());
                let j = choose|j: int| 0 <= j < pre.len() && pre[j] == pref[a];
                assert(lex_lt(kvs[j].0, kvs[kvs.len() - 1].0));
            }
        }
    }
}

/// No pair the predicate admits is lost by filtering.
proof fn lemma_filter_complete(
    kvs: Seq<(Seq<u8>, Seq<u8>)>,
    pred: spec_fn((Seq<u8>, Seq<u8>)) -> bool,
)
    ensures
        forall|j: int|
            0 <= j < kvs.len() && pred(#[trigger] kvs[j]) ==> exists|a: int|
                0 <= a < kvs.filter(pred).len() && kvs.filter(pred)[a] == kvs[j],
    decreases kvs.len(),
{
    let outv = kvs.filter(pred);
    if kvs.len() == 0 {
        lemma_filter_empty(kvs, pred);
    } else {
        lemma_filter_unfold(kvs, pred);
        let pre = kvs.drop_last();
        lemma_filter_complete(pre, pred);
        let pref = pre.filter(pred);
        assert(forall|j: int| 0 <= j < pre.len() ==> #[trigger] pre[j] == kvs[j]);
        assert forall|j: int| 0 <= j < kvs.len() && pred(#[trigger] kvs[j]) implies exists|a: int|
            0 <= a < outv.len() && outv[a] == kvs[j] by {
            if j < kvs.len() - 1 {
                assert(pre[j] == kvs[j] && pred(pre[j]));
                let a = choose|a: int| 0 <= a < pref.len() && pref[a] == pre[j];
                assert(outv[a] == kvs[j]);
            } else {
                assert(pred(kvs.last()));
                assert(outv[outv.len() - 1] == kvs[j]);
            }
        }
    }
}

/// What a scan of a sorted sequence establishes about the denoted map:
/// the filtered pairs are stored, ascending, and complete.
#[verifier::rlimit(100)]
proof fn lemma_scan_post(kvs: Seq<(Seq<u8>, Seq<u8>)>, pred: spec_fn((Seq<u8>, Seq<u8>)) -> bool)
    requires
        sorted_kvs(kvs),
    ensures
        ({
            let outv = kvs.filter(pred);
            let m = seq_map(kvs);
            &&& sorted_kvs(outv)
            &&& forall|a: int|
                0 <= a < outv.len() ==> pred(#[trigger] outv[a]) && m.contains_key(outv[a].0)
                    && m[outv[a].0] == outv[a].1
            &&& forall|k: Seq<u8>|
                m.contains_key(k) && pred((k, m[k])) ==> exists|a: int|
                    0 <= a < outv.len() && (#[trigger] outv[a]).0 == k
        }),
{
    lemma_filter_members(kvs, pred);
    lemma_filter_sorted(kvs, pred);
    lemma_filter_complete(kvs, pred);
    let outv = kvs.filter(pred);
    let m = seq_map(kvs);
    assert forall|a: int| 0 <= a < outv.len() implies pred(#[trigger] outv[a]) && m.contains_key(
        outv[a].0,
    ) && m[outv[a].0] == outv[a].1 by {
        let j = choose|j: int| 0 <= j < kvs.len() && kvs[j] == outv[a];
        lemma_seq_map_value(kvs, j);
    }
    assert forall|k: Seq<u8>| m.contains_key(k) && pred((k, m[k])) implies exists|a: int|
        0 <= a < outv.len() && (#[trigger] outv[a]).0 == k by {
        lemma_seq_map_contains(kvs, k);
        let j = choose|j: int| 0 <= j < kvs.len() && #[trigger] kvs[j].0 == k;
        lemma_seq_map_value(kvs, j);
        assert(kvs[j] == (k, m[k]));
        let a = choose|a: int| 0 <= a < outv.len() && #[trigger] outv[a] == kvs[j];
        assert(outv[a].0 == k);
    }
}


/// Assembles a range scan's postcondition from the filtered sequence.
#[verifier::rlimit(100)]
proof fn lemma_range_assemble(
    kvs: Seq<(Seq<u8>, Seq<u8>)>,
    from: Seq<u8>,
    to: Seq<u8>,
    lo: Seq<u8>,
    hi: Seq<u8>,
    pred: spec_fn((Seq<u8>, Seq<u8>)) -> bool,
)
    requires
        sorted_kvs(kvs),
        forall|k: Seq<u8>| #[trigger] in_range(k, from, to) <==> (lex_le(lo, k) && lex_le(k, hi)),
        forall|p: (Seq<u8>, Seq<u8>)| #[trigger] pred(p) <==> (lex_le(lo, p.0) && lex_le(p.0, hi)),
    ensures
        range_scan_post(seq_map(kvs), from, to, kvs.filter(pred)),
{
    lemma_scan_post(kvs, pred);
    let outv = kvs.filter(pred);
    let m = seq_map(kvs);
    assert forall|k: Seq<u8>| m.contains_key(k) && in_range(k, from, to) implies exists|a: int|
        0 <= a < outv.len() && #[trigger] outv[a].0 == k by {
        assert(pred((k, m[k])));
        let a = choose|a: int| 0 <= a < outv.len() && (#[trigger] outv[a]).0 == k;
    }
    assert forall|i: int| 0 <= i < outv.len() implies in_range(#[trigger] outv[i].0, from, to) by {
        assert(pred(outv[i]));
    }
}

/// Assembles a prefix scan's postcondition from the filtered sequence.
#[verifier::rlimit(100)]
proof fn lemma_prefix_assemble(
    kvs: Seq<(Seq<u8>, Seq<u8>)>,
    prefix: Seq<u8>,
    pred: spec_fn((Seq<u8>, Seq<u8>)) -> bool,
)
    requires
        sorted_kvs(kvs),
        forall|p: (Seq<u8>, Seq<u8>)| #[trigger] pred(p) <==> prefix.is_prefix_of(p.0),
    ensures
        prefix_scan_post(seq_map(kvs), prefix, kvs.filter(pred)),
{
    lemma_scan_post(kvs, pred);
    let outv = kvs.filter(pred);
    let m = seq_map(kvs);
    assert forall|k: Seq<u8>| m.contains_key(k) && prefix.is_prefix_of(k) implies exists|a: int|
        0 <= a < outv.len() && #[trigger] outv[a].0 == k by {
        assert(pred((k, m[k])));
        let a = choose|a: int| 0 <= a < outv.len() && (#[trigger] outv[a]).0 == k;
    }
    assert forall|i: int| 0 <= i < outv.len() implies prefix.is_prefix_of(#[trigger] outv[i].0) by {
        assert(pred(outv[i]));
    }
}

/// Every key of the filtered sequence's map is a stored key outside the
/// prefix.
#[verifier::rlimit(100)]
proof fn lemma_clear_contains_fwd(
    kvs: Seq<(Seq<u8>, Seq<u8>)>,
    prefix: Seq<u8>,
    pred: spec_fn((Seq<u8>, Seq<u8>)) -> bool,
)
    requires
        forall|p: (Seq<u8>, Seq<u8>)| #[trigger] pred(p) <==> !prefix.is_prefix_of(p.0),
    ensures
        forall|k: Seq<u8>|
            #[trigger] seq_map(kvs.filter(pred)).contains_key(k) ==> seq_map(kvs).contains_key(k)
                && !prefix.is_prefix_of(k),
{
    lemma_filter_members(kvs, pred);
    let outv = kvs.filter(pred);
    assert forall|k: Seq<u8>| #[trigger] seq_map(outv).contains_key(k) implies seq_map(
        kvs,
    ).contains_key(k) && !prefix.is_prefix_of(k) by {
        lemma_seq_map_contains(outv, k);
        lemma_seq_map_contains(kvs, k);
        let a = choose|a: int| 0 <= a < outv.len() && #[trigger] outv[a].0 == k;
        assert(pred(outv[a]));
        let j = choose|j: int| 0 <= j < kvs.len() && #[trigger] kvs[j] == outv[a];
        assert(kvs[j].0 == k);
    }
}

/// Every stored key outside the prefix stays in the filtered sequence's
/// map.
#[verifier::rlimit(100)]
proof fn lemma_clear_contains_rev(
    kvs: Seq<(Seq<u8>, Seq<u8>)>,
    prefix: Seq<u8>,
    pred: spec_fn((Seq<u8>, Seq<u8>)) -> bool,
)
    requires
        forall|p: (Seq<u8>, Seq<u8>)| #[trigger] pred(p) <==> !prefix.is_prefix_of(p.0),
    ensures
        forall|k: Seq<u8>|
            seq_map(kvs).contains_key(k) && !prefix.is_prefix_of(k)
                ==> #[trigger] seq_map(kvs.filter(pred)).contains_key(k),
{
    lemma_filter_complete(kvs, pred);
    let outv = kvs.filter(pred);
    assert forall|k: Seq<u8>|
        seq_map(kvs).contains_key(k) && !prefix.is_prefix_of(k) implies #[trigger] seq_map(
        outv,
    ).contains_key(k) by {
        lemma_seq_map_contains(outv, k);
        lemma_seq_map_contains(kvs, k);
        let j = choose|j: int| 0 <= j < kvs.len() && #[trigger] kvs[j].0 == k;
        assert(pred(kvs[j]));
        let a = choose|a: int| 0 <= a < outv.len() && #[trigger] outv[a] == kvs[j];
        assert(outv[a].0 == k);
    }
}

/// Assembles the cleared-space postcondition from the filtered sequence.
#[verifier::rlimit(100)]
proof fn lemma_clear_assemble(
    kvs: Seq<(Seq<u8>, Seq<u8>)>,
    prefix: Seq<u8>,
    pred: spec_fn((Seq<u8>, Seq<u8>)) -> bool,
)
    requires
        sorted_kvs(kvs),
        forall|p: (Seq<u8>, Seq<u8>)| #[trigger] pred(p) <==> !prefix.is_prefix_of(p.0),
    ensures
        sorted_kvs(kvs.filter(pred)),
        cleared_space_post(seq_map(kvs), prefix, seq_map(kvs.filter(pred))),
{
    lemma_filter_sorted(kvs, pred);
    lemma_filter_members(kvs, pred);
    lemma_clear_contains_fwd(kvs, prefix, pred);
    lemma_clear_contains_rev(kvs, prefix, pred);
    let outv = kvs.filter(pred);
    let m0 = seq_map(kvs);
    let m1 = seq_map(outv);
    assert forall|k: Seq<u8>| #[trigger] m1.contains_key(k) implies m1[k] == m0[k] by {
        lemma_seq_map_contains(outv, k);
        let a = choose|a: int| 0 <= a < outv.len() && #[trigger] outv[a].0 == k;
        lemma_seq_map_value(outv, a);
        let j = choose|j: int| 0 <= j < kvs.len() && #[trigger] kvs[j] == outv[a];
        lemma_seq_map_value(kvs, j);
    }
}

/// A transaction over the in-memory store: a private copy of the
/// committed entries, in strictly ascending key order, carrying this
/// transaction's buffered writes. Its operations never fail: each
/// method refines the backend contract with a success guarantee.
pub struct MemTransaction {
    entries: Vec<RdbValue>,
}

/// The in-memory store: the committed entries, in strictly ascending
/// key order.
pub struct MemStore {
    entries: Vec<RdbValue>,
}

impl MemTransaction {
    /// Finds the ordered position of `key`: every earlier entry is
    /// strictly below it, every later one strictly above; the flag says
    /// whether the entry at the position holds `key` itself.
    fn find_position(&self, key: &[u8]) -> (r: (usize, bool))
        requires
            self.inv(),
        ensures
            ({
                let kvs = kv_view(self.entries@);
                &&& r.0 <= kvs.len()
                &&& forall|i: int| 0 <= i < r.0 ==> lex_lt(#[trigger] kvs[i].0, key@)
                &&& (r.1 <==> (r.0 < kvs.len() && kvs[r.0 as int].0 == key@))
                &&& (!r.1 ==> forall|i: int|
                    r.0 <= i < kvs.len() ==> lex_lt(key@, #[trigger] kvs[i].0))
                &&& (r.1 ==> forall|i: int|
                    r.0 < i < kvs.len() ==> lex_lt(key@, #[trigger] kvs[i].0))
            }),
    {
        let ghost kvs = kv_view(self.entries@);
        let n: usize = self.entries.len();
        let mut i: usize = 0;
        while i < n
            invariant
                0 <= i <= n,
                n == kvs.len(),
                kvs == kv_view(self.entries@),
                self.inv(),
                forall|j: int| 0 <= j < i ==> lex_lt(#[trigger] kvs[j].0, key@),
            decreases n - i,
        {
            proof {
                assert(kvs[i as int].0 == self.entries@[i as int].key@);
            }
            match lex_compare(self.entries[i].key.as_slice(), key) {
                Cmp::Lt => {
                    i = i + 1;
                },
                Cmp::Eq => {
                    proof {
                        assert forall|j: int| i < j < kvs.len() implies lex_lt(
                            key@,
                            #[trigger] kvs[j].0,
                        ) by {
                            assert(lex_lt(kvs[i as int].0, kvs[j].0));
                        }
                    }
                    return (i, true);
                },
                Cmp::Gt => {
                    proof {
                        assert forall|j: int| i <= j < kvs.len() implies lex_lt(
                            key@,
                            #[trigger] kvs[j].0,
                        ) by {
                            if j > i {
                                assert(lex_lt(kvs[i as int].0, kvs[j].0));
                                lemma_lex_trans(key@, kvs[i as int].0, kvs[j].0);
                            }
                        }
                    }
                    return (i, false);
                },
            }
        }
        (n, false)
    }

    /// No entry holds `key` when the position search misses.
    proof fn lemma_absent(&self, key: Seq<u8>, p: int)
        requires
            self.inv(),
            0 <= p <= kv_view(self.entries@).len(),
            forall|i: int| 0 <= i < p ==> lex_lt(#[trigger] kv_view(self.entries@)[i].0, key),
            forall|i: int|
                p <= i < kv_view(self.entries@).len() ==> lex_lt(
                    key,
                    #[trigger] kv_view(self.entries@)[i].0,
                ),
        ensures
            !self.store().contains_key(key),
    {
        let kvs = kv_view(self.entries@);
        lemma_seq_map_contains(kvs, key);
        if self.store().contains_key(key) {
            let i = choose|i: int| 0 <= i < kvs.len() && #[trigger] kvs[i].0 == key;
            if i < p {
                lemma_lex_asymmetric(kvs[i].0, key);
            } else {
                lemma_lex_asymmetric(key, kvs[i].0);
            }
        }
    }
}

impl KvTransaction for MemTransaction {
    closed spec fn store(&self) -> Map<Seq<u8>, Seq<u8>> {
        seq_map(kv_view(self.entries@))
    }

    closed spec fn inv(&self) -> bool {
        sorted_kvs(kv_view(self.entries@))
    }

    fn get(&self, key: &[u8]) -> (r: Result<Option<Vec<u8>>, TransactionError>)
        ensures
            r is Ok,
    {
        let (p, exact) = self.find_position(key);
        if exact {
            proof {
                lemma_seq_map_value(kv_view(self.entries@), p as int);
            }
            Ok(Some(copy_bytes(self.entries[p].value.as_slice())))
        } else {
            proof {
                self.lemma_absent(key@, p as int);
            }
            Ok(None)
        }
    }

    #[verifier::rlimit(100)]
    fn get_range(&self, from_key: &[u8], to_key: &[u8]) -> (r: Result<
        Vec<RdbValue>,
        TransactionError,
    >)
        ensures
            r is Ok,
    {
        let (lo, hi) = match lex_compare(from_key, to_key) {
            Cmp::Gt => (to_key, from_key),
            _ => (from_key, to_key),
        };
        proof {
            lemma_lex_asymmetric(hi@, lo@);
            assert(forall|k: Seq<u8>|
                #[trigger] in_range(k, from_key@, to_key@) <==> (lex_le(lo@, k) && lex_le(k, hi@)));
        }
        let ghost pred = |p: (Seq<u8>, Seq<u8>)| lex_le(lo@, p.0) && lex_le(p.0, hi@);
        let ghost kvs = kv_view(self.entries@);
        let n: usize = self.entries.len();
        let mut out: Vec<RdbValue> = Vec::new();
        let mut i: usize = 0;
        while i < n
            invariant
                0 <= i <= n,
                n == kvs.len(),
                kvs == kv_view(self.entries@),
                self.inv(),
                pred == (|p: (Seq<u8>, Seq<u8>)| lex_le(lo@, p.0) && lex_le(p.0, hi@)),
                kv_view(out@) == kvs.take(i as int).filter(pred),
            decreases n - i,
        {
            let entry = &self.entries[i];
            proof {
                assert(kvs[i as int] == (entry.key@, entry.value@));
            }
            let ge_lo = match lex_compare(lo, entry.key.as_slice()) {
                Cmp::Gt => false,
                _ => true,
            };
            let le_hi = match lex_compare(entry.key.as_slice(), hi) {
                Cmp::Gt => false,
                _ => true,
            };
            let ghost out_before = kv_view(out@);
            if ge_lo && le_hi {
                out.push(RdbValue::new(copy_bytes(entry.key.as_slice()), copy_bytes(
                    entry.value.as_slice(),
                )));
                proof {
                    lemma_lex_asymmetric(entry.key@, lo@);
                    lemma_lex_asymmetric(hi@, entry.key@);
                    lemma_lex_total(lo@, entry.key@);
                    lemma_lex_total(entry.key@, hi@);
                    assert(pred(kvs[i as int]));
                    assert(kv_view(out@) =~= out_before.push((entry.key@, entry.value@)));
                }
            } else {
                proof {
                    lemma_lex_asymmetric(lo@, entry.key@);
                    lemma_lex_asymmetric(entry.key@, hi@);
                    assert(!pred(kvs[i as int]));
                }
            }
            proof {
                lemma_filter_take_step(kvs, i as int, pred);
            }
            i = i + 1;
        }
        proof {
            assert(kvs.take(n as int) =~= kvs);
            lemma_range_assemble(kvs, from_key@, to_key@, lo@, hi@, pred);
            assert(range_scan_post(self.store(), from_key@, to_key@, kv_view(out@)));
        }
        Ok(out)
    }

    #[verifier::rlimit(100)]
    fn get_space(&self, keyspace: &RdbKeyspace) -> (r: Result<Vec<RdbValue>, TransactionError>)
        ensures
            r is Ok,
    {
        let prefix = keyspace.as_bytes();
        let ghost pred = |p: (Seq<u8>, Seq<u8>)| keyspace.prefix().is_prefix_of(p.0);
        let ghost kvs = kv_view(self.entries@);
        let n: usize = self.entries.len();
        let mut out: Vec<RdbValue> = Vec::new();
        let mut i: usize = 0;
        while i < n
            invariant
                0 <= i <= n,
                n == kvs.len(),
                kvs == kv_view(self.entries@),
                prefix@ == keyspace.prefix(),
                self.inv(),
                pred == (|p: (Seq<u8>, Seq<u8>)| keyspace.prefix().is_prefix_of(p.0)),
                kv_view(out@) == kvs.take(i as int).filter(pred),
            decreases n - i,
        {
            let entry = &self.entries[i];
            proof {
                assert(kvs[i as int] == (entry.key@, entry.value@));
            }
            let ghost out_before = kv_view(out@);
            if starts_with(entry.key.as_slice(), prefix) {
                out.push(RdbValue::new(copy_bytes(entry.key.as_slice()), copy_bytes(
                    entry.value.as_slice(),
                )));
                proof {
                    assert(pred(kvs[i as int]));
                    assert(kv_view(out@) =~= out_before.push((entry.key@, entry.value@)));
                }
            } else {
                proof {
                    assert(!pred(kvs[i as int]));
                }
            }
            proof {
                lemma_filter_take_step(kvs, i as int, pred);
            }
            i = i + 1;
        }
        proof {
            assert(kvs.take(n as int) =~= kvs);
            lemma_prefix_assemble(kvs, keyspace.prefix(), pred);
            assert(prefix_scan_post(self.store(), keyspace.prefix(), kv_view(out@)));
        }
        Ok(out)
    }


    fn set(&mut self, key: &[u8], value: &[u8]) -> (r: Result<(), TransactionError>)
        ensures
            r is Ok,
    {
        let ghost kvs0 = kv_view(self.entries@);
        let ghost m0 = self.store();
        let (p, exact) = self.find_position(key);
        if exact {
            proof {
                lemma_sorted_remove(kvs0, p as int);
                kvs0.remove_ensures(p as int);
            }
            self.entries.remove(p);
            proof {
                assert(kv_view(self.entries@) =~= kvs0.remove(p as int));
            }
        }
        let ghost kvs1 = kv_view(self.entries@);
        let ghost m1 = self.store();
        proof {
            if exact {
                assert(m1 == seq_map(kvs0.remove(p as int)));
                assert forall|i: int| p <= i < kvs1.len() implies lex_lt(
                    key@,
                    #[trigger] kvs1[i].0,
                ) by {
                    assert(kvs1[i] == kvs0[i + 1]);
                    assert(lex_lt(kvs0[p as int].0, kvs0[i + 1].0));
                }
                assert(forall|i: int| 0 <= i < p ==> #[trigger] kvs1[i] == kvs0[i]);
            }
            lemma_sorted_insert(kvs1, p as int, (key@, value@));
            kvs1.insert_ensures(p as int, (key@, value@));
        }
        self.entries.insert(p, RdbValue::new(copy_bytes(key), copy_bytes(value)));
        proof {
            assert(kv_view(self.entries@) =~= kvs1.insert(p as int, (key@, value@)));
            assert(self.store() == m1.insert(key@, value@));
            if exact {
                assert(m1 == m0.remove(key@));
                assert(m0.remove(key@).insert(key@, value@) =~= m0.insert(key@, value@));
            }
            assert(self.store() =~= m0.insert(key@, value@));
        }
        Ok(())
    }

    fn clear(&mut self, key: &[u8]) -> (r: Result<(), TransactionError>)
        ensures
            r is Ok,
    {
        let ghost kvs0 = kv_view(self.entries@);
        let ghost m0 = self.store();
        let (p, exact) = self.find_position(key);
        if exact {
            proof {
                lemma_sorted_remove(kvs0, p as int);
            }
            self.entries.remove(p);
            proof {
                assert(kv_view(self.entries@) =~= kvs0.remove(p as int));
                assert(self.store() =~= m0.remove(key@));
            }
        } else {
            proof {
                self.lemma_absent(key@, p as int);
                assert(self.store() =~= m0.remove(key@));
            }
        }
        Ok(())
    }

    #[verifier::rlimit(100)]
    fn clear_space(&mut self, keyspace: &RdbKeyspace) -> (r: Result<(), TransactionError>)
        ensures
            r is Ok,
    {
        let prefix = keyspace.as_bytes();
        let ghost pred = |p: (Seq<u8>, Seq<u8>)| !keyspace.prefix().is_prefix_of(p.0);
        let ghost kvs = kv_view(self.entries@);
        let ghost m0 = self.store();
        let n: usize = self.entries.len();
        let mut out: Vec<RdbValue> = Vec::new();
        let mut i: usize = 0;
        while i < n
            invariant
                0 <= i <= n,
                n == kvs.len(),
                kvs == kv_view(self.entries@),
                prefix@ == keyspace.prefix(),
                self.inv(),
                pred == (|p: (Seq<u8>, Seq<u8>)| !keyspace.prefix().is_prefix_of(p.0)),
                kv_view(out@) == kvs.take(i as int).filter(pred),
            decreases n - i,
        {
            let entry = &self.entries[i];
            proof {
                assert(kvs[i as int] == (entry.key@, entry.value@));
            }
            let ghost out_before = kv_view(out@);
            if !starts_with(entry.key.as_slice(), prefix) {
                out.push(RdbValue::new(copy_bytes(entry.key.as_slice()), copy_bytes(
                    entry.value.as_slice(),
                )));
                proof {
                    assert(pred(kvs[i as int]));
                    assert(kv_view(out@) =~= out_before.push((entry.key@, entry.value@)));
                }
            } else {
                proof {
                    assert(!pred(kvs[i as int]));
                }
            }
            proof {
                lemma_filter_take_step(kvs, i as int, pred);
            }
            i = i + 1;
        }
        self.entries = out;
        proof {
            assert(kvs.take(n as int) =~= kvs);
            lemma_clear_assemble(kvs, keyspace.prefix(), pred);
            assert(cleared_space_post(m0, keyspace.prefix(), self.store()));
        }
        Ok(())
    }
}

impl MemStore {
    /// The committed state as a map from keys to values.
    pub closed spec fn committed(&self) -> Map<Seq<u8>, Seq<u8>> {
        seq_map(kv_view(self.entries@))
    }

    /// The committed entries are held in strictly ascending key order.
    pub closed spec fn inv(&self) -> bool {
        sorted_kvs(kv_view(self.entries@))
    }

    /// An empty store.
    pub fn new() -> (s: Self)
        ensures
            s.inv(),
            s.committed() == Map::<Seq<u8>, Seq<u8>>::empty(),
    {
        let s = MemStore { entries: Vec::new() };
        proof {
            assert(kv_view(s.entries@) =~= Seq::<(Seq<u8>, Seq<u8>)>::empty());
        }
        s
    }

    /// A fresh transaction whose readable state is the committed state.
    pub fn begin(&self) -> (t: MemTransaction)
        requires
            self.inv(),
        ensures
            t.inv(),
            t.store() == self.committed(),
    {
        let ghost kvs = kv_view(self.entries@);
        let n: usize = self.entries.len();
        let mut copied: Vec<RdbValue> = Vec::new();
        let mut i: usize = 0;
        while i < n
            invariant
                0 <= i <= n,
                n == kvs.len(),
                kvs == kv_view(self.entries@),
                kv_view(copied@) == kvs.take(i as int),
            decreases n - i,
        {
            let entry = &self.entries[i];
            let ghost before = kv_view(copied@);
            copied.push(RdbValue::new(copy_bytes(entry.key.as_slice()), copy_bytes(
                entry.value.as_slice(),
            )));
            proof {
                assert(kvs[i as int] == (entry.key@, entry.value@));
                assert(kv_view(copied@) =~= before.push((entry.key@, entry.value@)));
                assert(kvs.take(i as int + 1) =~= kvs.take(i as int).push(kvs[i as int]));
                assert(kv_view(copied@) =~= kvs.take(i as int + 1));
            }
            i = i + 1;
        }
        proof {
            assert(kvs.take(n as int) =~= kvs);
        }
        MemTransaction { entries: copied }
    }

    /// Atomically replaces the committed state with the transaction's
    /// buffered state. The in-memory store never reports a conflict.
    pub fn commit(&mut self, t: MemTransaction) -> (r: Result<(), TransactionError>)
        requires
            t.inv(),
        ensures
            final(self).inv(),
            r is Ok,
            final(self).committed() == t.store(),
    {
        self.entries = t.entries;
        Ok(())
    }
}

} // verus!
