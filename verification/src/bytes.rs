//! Lexicographic order and prefix algebra on byte strings.
//!
//! Every key a store holds is a plain byte string, and every ordering
//! statement the rest of the crate makes — range bounds, ascending scan
//! results, disjointness of sibling namespaces — reduces to the
//! lexicographic order defined here.

use vstd::prelude::*;

verus! {

/// Strict lexicographic order on byte strings: `a` sorts before `b`.
pub open spec fn lex_lt(a: Seq<u8>, b: Seq<u8>) -> bool
    decreases a.len(),
{
    if b.len() == 0 {
        false
    } else if a.len() == 0 {
        true
    } else if a[0] < b[0] {
        true
    } else if a[0] > b[0] {
        false
    } else {
        lex_lt(a.drop_first(), b.drop_first())
    }
}

/// Non-strict lexicographic order.
pub open spec fn lex_le(a: Seq<u8>, b: Seq<u8>) -> bool {
    lex_lt(a, b) || a == b
}

/// At most one of `a < b`, `a == b`, `b < a` holds.
pub proof fn lemma_lex_asymmetric(a: Seq<u8>, b: Seq<u8>)
    ensures
        lex_lt(a, b) ==> !lex_lt(b, a),
        lex_lt(a, b) ==> a != b,
    decreases a.len(),
{
    if a.len() > 0 && b.len() > 0 && a[0] == b[0] {
        lemma_lex_asymmetric(a.drop_first(), b.drop_first());
        if a == b {
            assert(a.drop_first() == b.drop_first());
        }
    }
}

/// At least one of `a < b`, `a == b`, `b < a` holds.
pub proof fn lemma_lex_total(a: Seq<u8>, b: Seq<u8>)
    ensures
        lex_lt(a, b) || lex_lt(b, a) || a == b,
    decreases a.len(),
{
    if a.len() > 0 && b.len() > 0 && a[0] == b[0] {
        let ta = a.drop_first();
        let tb = b.drop_first();
        lemma_lex_total(ta, tb);
        if ta == tb {
            assert(ta.len() == a.len() - 1);
            assert(tb.len() == b.len() - 1);
            assert(a.len() == b.len());
            assert forall|i: int| 0 <= i < a.len() implies a[i] == b[i] by {
                if i > 0 {
                    assert(ta[i - 1] == a[i]);
                    assert(tb[i - 1] == b[i]);
                    assert(ta[i - 1] == tb[i - 1]);
                }
            }
            assert(a =~= b);
        }
    }
}

/// Lexicographic order is transitive.
pub proof fn lemma_lex_trans(a: Seq<u8>, b: Seq<u8>, c: Seq<u8>)
    requires
        lex_lt(a, b),
        lex_lt(b, c),
    ensures
        lex_lt(a, c),
    decreases b.len(),
{
    if a.len() > 0 && b.len() > 0 && c.len() > 0 && a[0] == b[0] && b[0] == c[0] {
        lemma_lex_trans(a.drop_first(), b.drop_first(), c.drop_first());
    }
}

/// Byte strings that differ at position `i` after a common prefix are
/// ordered by that position, whatever follows it.
pub proof fn lemma_lex_by_diff_point(a: Seq<u8>, b: Seq<u8>, i: int)
    requires
        0 <= i < a.len(),
        i < b.len(),
        eq_up_to(a, b, i),
        a[i] < b[i],
    ensures
        lex_lt(a, b),
    decreases i,
{
    if i == 0 {
        assert(a[0] < b[0]);
    } else {
        assert(a[0] == b[0]);
        assert(eq_up_to(a.drop_first(), b.drop_first(), i - 1)) by {
            assert(forall|j: int|
                0 <= j < i - 1 ==> a.drop_first()[j] == a[j + 1] && b.drop_first()[j] == b[j + 1]);
        }
        lemma_lex_by_diff_point(a.drop_first(), b.drop_first(), i - 1);
    }
}

/// Equal concatenations with equally long heads have equal heads and
/// equal tails.
pub proof fn lemma_concat_split(x1: Seq<u8>, y1: Seq<u8>, x2: Seq<u8>, y2: Seq<u8>)
    requires
        x1 + y1 == x2 + y2,
        x1.len() == x2.len(),
    ensures
        x1 == x2,
        y1 == y2,
{
    assert((x1 + y1).len() == x1.len() + y1.len());
    assert((x2 + y2).len() == x2.len() + y2.len());
    assert(y1.len() == y2.len());
    assert forall|i: int| 0 <= i < x1.len() implies x1[i] == x2[i] by {
        assert((x1 + y1)[i] == x1[i]);
        assert((x2 + y2)[i] == x2[i]);
    }
    assert(x1 =~= x2);
    assert forall|i: int| 0 <= i < y1.len() implies y1[i] == y2[i] by {
        assert(i < y2.len());
        assert((x1 + y1)[x1.len() + i] == y1[i]);
        assert((x2 + y2)[x2.len() + i] == y2[i]);
    }
    assert(y1 =~= y2);
}

/// A concatenation's head is a prefix of the whole.
pub proof fn lemma_head_is_prefix(x: Seq<u8>, y: Seq<u8>)
    ensures
        x.is_prefix_of(x + y),
{
    let w = (x + y).subrange(0, x.len() as int);
    assert forall|i: int| 0 <= i < x.len() implies x[i] == w[i] by {
        assert((x + y)[i] == x[i]);
    }
    assert(x =~= (x + y).subrange(0, x.len() as int));
}

/// Result of a three-way byte-string comparison.
#[derive(Clone, Copy, PartialEq, Eq, Structural, Debug)]
pub enum Cmp {
    Lt,
    Eq,
    Gt,
}

/// Relates the first `n` elements of two sequences element by element.
pub open spec fn eq_up_to(a: Seq<u8>, b: Seq<u8>, n: int) -> bool {
    forall|j: int| 0 <= j < n ==> a[j] == b[j]
}

/// When the first `i` bytes agree, the order is decided by the tails.
proof fn lemma_lex_skip_common(a: Seq<u8>, b: Seq<u8>, i: int)
    requires
        0 <= i <= a.len(),
        i <= b.len(),
        eq_up_to(a, b, i),
    ensures
        lex_lt(a, b) <==> lex_lt(a.skip(i), b.skip(i)),
    decreases i,
{
    if i == 0 {
        assert(a.skip(0) =~= a);
        assert(b.skip(0) =~= b);
    } else {
        assert(a[0] == b[0]);
        assert(a.drop_first().skip(i - 1) =~= a.skip(i));
        assert(b.drop_first().skip(i - 1) =~= b.skip(i));
        assert(eq_up_to(a.drop_first(), b.drop_first(), i - 1)) by {
            assert(forall|j: int|
                0 <= j < i - 1 ==> a.drop_first()[j] == a[j + 1] && b.drop_first()[j] == b[j + 1]);
        }
        lemma_lex_skip_common(a.drop_first(), b.drop_first(), i - 1);
    }
}

/// Three-way lexicographic comparison of two byte strings.
pub fn lex_compare(a: &[u8], b: &[u8]) -> (o: Cmp)
    ensures
        o == Cmp::Lt <==> lex_lt(a@, b@),
        o == Cmp::Eq <==> a@ == b@,
        o == Cmp::Gt <==> lex_lt(b@, a@),
{
    proof {
        lemma_lex_asymmetric(a@, b@);
        lemma_lex_asymmetric(b@, a@);
        lemma_lex_total(a@, b@);
    }
    let a_len: usize = a.len();
    let b_len: usize = b.len();
    let min_len: usize = if a_len < b_len {
        a_len
    } else {
        b_len
    };
    let mut i: usize = 0;
    while i < min_len
        invariant
            0 <= i <= min_len,
            min_len <= a@.len(),
            min_len <= b@.len(),
            min_len == a@.len() || min_len == b@.len(),
            eq_up_to(a@, b@, i as int),
        decreases min_len - i,
    {
        let x = a[i];
        let y = b[i];
        if x < y {
            proof {
                lemma_lex_by_diff_point(a@, b@, i as int);
                lemma_lex_asymmetric(a@, b@);
            }
            return Cmp::Lt;
        }
        if x > y {
            proof {
                assert(eq_up_to(b@, a@, i as int));
                lemma_lex_by_diff_point(b@, a@, i as int);
                lemma_lex_asymmetric(b@, a@);
            }
            return Cmp::Gt;
        }
        i = i + 1;
    }
    proof {
        lemma_lex_skip_common(a@, b@, min_len as int);
    }
    if a_len < b_len {
        assert(a@.skip(min_len as int) =~= Seq::<u8>::empty());
        Cmp::Lt
    } else if a_len > b_len {
        assert(b@.skip(min_len as int) =~= Seq::<u8>::empty());
        Cmp::Gt
    } else {
        assert(a@ =~= b@);
        Cmp::Eq
    }
}

/// Whether `key` begins with `prefix`.
pub fn starts_with(key: &[u8], prefix: &[u8]) -> (b: bool)
    ensures
        b == prefix@.is_prefix_of(key@),
{
    let p_len: usize = prefix.len();
    if key.len() < p_len {
        return false;
    }
    let mut i: usize = 0;
    while i < p_len
        invariant
            0 <= i <= p_len,
            p_len == prefix@.len(),
            p_len <= key@.len(),
            eq_up_to(key@, prefix@, i as int),
        decreases p_len - i,
    {
        if key[i] != prefix[i] {
            assert(!prefix@.is_prefix_of(key@)) by {
                assert(key@.subrange(0, p_len as int)[i as int] == key@[i as int]);
            }
            return false;
        }
        i = i + 1;
    }
    assert(prefix@ =~= key@.subrange(0, p_len as int));
    true
}

/// The concatenation of two byte strings, as a fresh vector.
pub fn concat_bytes(a: &[u8], b: &[u8]) -> (r: Vec<u8>)
    ensures
        r@ == a@ + b@,
{
    let mut r: Vec<u8> = Vec::new();
    let mut i: usize = 0;
    while i < a.len()
        invariant
            0 <= i <= a@.len(),
            r@ =~= a@.subrange(0, i as int),
        decreases a@.len() - i,
    {
        r.push(a[i]);
        i = i + 1;
    }
    assert(r@ =~= a@);
    let mut j: usize = 0;
    while j < b.len()
        invariant
            0 <= j <= b@.len(),
            r@ =~= a@ + b@.subrange(0, j as int),
        decreases b@.len() - j,
    {
        r.push(b[j]);
        j = j + 1;
    }
    assert(r@ =~= a@ + b@);
    r
}

/// The suffix of `key` after `prefix`, or `None` if `key` does not
/// begin with `prefix`.
pub fn strip_prefix_bytes(key: &[u8], prefix: &[u8]) -> (r: Option<Vec<u8>>)
    ensures
        match r {
            Some(suffix) => prefix@.is_prefix_of(key@) && key@ == prefix@ + suffix@,
            None => !prefix@.is_prefix_of(key@),
        },
{
    if !starts_with(key, prefix) {
        return None;
    }
    let p_len: usize = prefix.len();
    let mut suffix: Vec<u8> = Vec::new();
    let mut i: usize = p_len;
    while i < key.len()
        invariant
            p_len <= i <= key@.len(),
            prefix@.is_prefix_of(key@),
            suffix@ =~= key@.subrange(p_len as int, i as int),
        decreases key@.len() - i,
    {
        suffix.push(key[i]);
        i = i + 1;
    }
    assert(key@ =~= prefix@ + suffix@);
    Some(suffix)
}

/// A fresh vector holding the same bytes.
pub fn copy_bytes(b: &[u8]) -> (r: Vec<u8>)
    ensures
        r@ == b@,
{
    let r = concat_bytes(b, &[]);
    proof {
        assert(r@ =~= b@);
    }
    r
}

/// Whether two byte strings hold the same bytes.
pub fn bytes_eq(a: &[u8], b: &[u8]) -> (r: bool)
    ensures
        r == (a@ == b@),
{
    match lex_compare(a, b) {
        Cmp::Eq => true,
        _ => false,
    }
}

} // verus!
