//! The stable primary-key tuple encoding.
//!
//! A primary key is an ordered, positive-arity sequence of byte
//! strings. Its encoding prefixes each part with a four-byte big-endian
//! length; two tuples are equal exactly when their encodings are. Part
//! lengths are bounded below `0x100_0000`, so the leading byte of every
//! encoding is zero — the table codec relies on that to keep row cells
//! apart from index entries — and so that an encoding followed by
//! arbitrary bytes determines the tuple (the unambiguity law below).

use vstd::prelude::*;

use crate::error::TransactionError;

verus! {

/// The exclusive upper bound on one key part's length.
pub const PART_LEN_LIMIT: usize = 0x100_0000;

/// The four-byte big-endian rendering of `n`.
pub open spec fn be32(n: u32) -> Seq<u8> {
    seq![
        (n >> 24) as u8,
        ((n >> 16) & 0xFF) as u8,
        ((n >> 8) & 0xFF) as u8,
        (n & 0xFF) as u8,
    ]
}

/// The two-byte big-endian rendering of `n`.
pub open spec fn be16(n: u16) -> Seq<u8> {
    seq![(n >> 8) as u8, (n & 0xFF) as u8]
}

/// Equal two-byte renderings come from equal numbers.
pub proof fn lemma_be16_injective(x: u16, y: u16)
    requires
        be16(x) == be16(y),
    ensures
        x == y,
{
    assert(be16(x)[0] == be16(y)[0] && be16(x)[1] == be16(y)[1]);
    assert((x >> 8) as u8 == (y >> 8) as u8 && (x & 0xFF) as u8 == (y & 0xFF) as u8 ==> x == y)
        by (bit_vector);
}

/// Equal four-byte renderings come from equal numbers.
pub proof fn lemma_be32_injective(x: u32, y: u32)
    requires
        be32(x) == be32(y),
    ensures
        x == y,
{
    assert(be32(x)[0] == be32(y)[0] && be32(x)[1] == be32(y)[1] && be32(x)[2] == be32(y)[2]
        && be32(x)[3] == be32(y)[3]);
    assert((x >> 24) as u8 == (y >> 24) as u8 && ((x >> 16) & 0xFF) as u8 == ((y >> 16)
        & 0xFF) as u8 && ((x >> 8) & 0xFF) as u8 == ((y >> 8) & 0xFF) as u8 && (x & 0xFF) as u8 == (
    y & 0xFF) as u8 ==> x == y) by (bit_vector);
}

/// A small number's four-byte rendering leads with a zero byte.
pub proof fn lemma_be32_small_leads_zero(n: u32)
    requires
        n < 0x100_0000,
    ensures
        be32(n)[0] == 0u8,
{
    assert(n < 0x100_0000 ==> (n >> 24) as u8 == 0u8) by (bit_vector);
}

/// Every part of the tuple is within the length bound.
pub open spec fn tuple_wf(t: Seq<Seq<u8>>) -> bool {
    forall|i: int| 0 <= i < t.len() ==> #[trigger] t[i].len() < PART_LEN_LIMIT
}

/// The encoding of one part: its length, then its bytes.
pub open spec fn encode_part(p: Seq<u8>) -> Seq<u8> {
    be32(p.len() as u32) + p
}

/// The encoding of a tuple: its parts' encodings, in order.
pub open spec fn encode_tuple(t: Seq<Seq<u8>>) -> Seq<u8>
    decreases t.len(),
{
    if t.len() == 0 {
        Seq::<u8>::empty()
    } else {
        encode_part(t[0]) + encode_tuple(t.drop_first())
    }
}

/// A non-empty well-formed tuple's encoding is at least four bytes long
/// and leads with a zero byte.
pub proof fn lemma_encode_leads_zero(t: Seq<Seq<u8>>)
    requires
        tuple_wf(t),
        t.len() > 0,
    ensures
        encode_tuple(t).len() >= 4,
        encode_tuple(t)[0] == 0u8,
{
    assert(t[0].len() < PART_LEN_LIMIT);
    lemma_be32_small_leads_zero(t[0].len() as u32);
    assert(encode_tuple(t)[0] == encode_part(t[0])[0]);
    assert(encode_part(t[0])[0] == be32(t[0].len() as u32)[0]);
}

/// Appending a part to a tuple appends its encoding.
pub proof fn lemma_encode_push(t: Seq<Seq<u8>>, p: Seq<u8>)
    ensures
        encode_tuple(t.push(p)) == encode_tuple(t) + encode_part(p),
    decreases t.len(),
{
    if t.len() == 0 {
        assert(t.push(p).drop_first() =~= Seq::<Seq<u8>>::empty());
        assert(encode_tuple(Seq::<Seq<u8>>::empty()) == Seq::<u8>::empty());
        assert(t.push(p)[0] == p);
        assert(encode_tuple(t.push(p)) == encode_part(p) + Seq::<u8>::empty());
        assert(encode_tuple(t.push(p)) =~= encode_tuple(t) + encode_part(p));
    } else {
        assert(t.push(p).drop_first() =~= t.drop_first().push(p));
        lemma_encode_push(t.drop_first(), p);
        assert(t.push(p)[0] == t[0]);
        assert(encode_tuple(t.push(p)) == encode_part(t[0]) + (encode_tuple(t.drop_first())
            + encode_part(p)));
        assert(encode_tuple(t) == encode_part(t[0]) + encode_tuple(t.drop_first()));
        assert(encode_tuple(t.push(p)) =~= encode_tuple(t) + encode_part(p));
    }
}

/// LAW — tuple-encoding unambiguity: within one arity, an encoding
/// followed by arbitrary bytes determines both the tuple and the bytes.
/// In particular two tuples are equal exactly when their encodings are,
/// and no encoding is a proper prefix of another of the same arity.
pub proof fn lemma_encode_unambiguous(t1: Seq<Seq<u8>>, t2: Seq<Seq<u8>>, s1: Seq<u8>, s2: Seq<u8>)
    requires
        tuple_wf(t1),
        tuple_wf(t2),
        t1.len() == t2.len(),
        encode_tuple(t1) + s1 == encode_tuple(t2) + s2,
    ensures
        t1 == t2,
        s1 == s2,
    decreases t1.len(),
{
    if t1.len() == 0 {
        assert(encode_tuple(t1) + s1 =~= s1);
        assert(encode_tuple(t2) + s2 =~= s2);
        assert(t1 =~= t2);
    } else {
        let p1 = t1[0];
        let p2 = t2[0];
        let l1 = p1.len() as int;
        let l2 = p2.len() as int;
        let w = encode_tuple(t1) + s1;
        let r1 = encode_tuple(t1.drop_first()) + s1;
        let r2 = encode_tuple(t2.drop_first()) + s2;
        assert(w =~= encode_part(p1) + r1);
        assert(w =~= encode_part(p2) + r2);
        assert(l1 == l2) by {
            let ba = be32(p1.len() as u32);
            let bb = be32(p2.len() as u32);
            assert((encode_part(p1) + r1)[0] == ba[0] && (encode_part(p2) + r2)[0] == bb[0]);
            assert((encode_part(p1) + r1)[1] == ba[1] && (encode_part(p2) + r2)[1] == bb[1]);
            assert((encode_part(p1) + r1)[2] == ba[2] && (encode_part(p2) + r2)[2] == bb[2]);
            assert((encode_part(p1) + r1)[3] == ba[3] && (encode_part(p2) + r2)[3] == bb[3]);
            assert(ba =~= bb);
            lemma_be32_injective(p1.len() as u32, p2.len() as u32);
        }
        assert(p1 == p2) by {
            assert forall|j: int| 0 <= j < l1 implies p1[j] == p2[j] by {
                assert((encode_part(p1) + r1)[4 + j] == encode_part(p1)[4 + j]);
                assert(encode_part(p1)[4 + j] == p1[j]);
                assert((encode_part(p2) + r2)[4 + j] == encode_part(p2)[4 + j]);
                assert(encode_part(p2)[4 + j] == p2[j]);
            }
            assert(p1 =~= p2);
        }
        assert(r1 =~= w.skip(4 + l1)) by {
            assert(forall|k: int|
                0 <= k < r1.len() ==> #[trigger] r1[k] == (encode_part(p1) + r1)[4 + l1 + k]);
        }
        assert(r2 =~= w.skip(4 + l2)) by {
            assert(forall|k: int|
                0 <= k < r2.len() ==> #[trigger] r2[k] == (encode_part(p2) + r2)[4 + l2 + k]);
        }
        assert(tuple_wf(t1.drop_first())) by {
            assert(forall|i: int|
                0 <= i < t1.drop_first().len() ==> #[trigger] t1.drop_first()[i] == t1[i + 1]);
        }
        assert(tuple_wf(t2.drop_first())) by {
            assert(forall|i: int|
                0 <= i < t2.drop_first().len() ==> #[trigger] t2.drop_first()[i] == t2[i + 1]);
        }
        lemma_encode_unambiguous(t1.drop_first(), t2.drop_first(), s1, s2);
        assert(t1 =~= t2) by {
            assert(forall|i: int|
                1 <= i < t1.len() ==> #[trigger] t1[i] == t1.drop_first()[i - 1]);
            assert(forall|i: int|
                1 <= i < t2.len() ==> #[trigger] t2[i] == t2.drop_first()[i - 1]);
        }
    }
}

/// Two well-formed same-arity tuples with equal encodings are equal.
pub proof fn lemma_encode_injective(t1: Seq<Seq<u8>>, t2: Seq<Seq<u8>>)
    requires
        tuple_wf(t1),
        tuple_wf(t2),
        t1.len() == t2.len(),
        encode_tuple(t1) == encode_tuple(t2),
    ensures
        t1 == t2,
{
    let s = Seq::<u8>::empty();
    assert(encode_tuple(t1) + s =~= encode_tuple(t2) + s);
    lemma_encode_unambiguous(t1, t2, s, s);
}

/// The tuple view of a vector of key parts.
pub open spec fn parts_view(parts: Seq<Vec<u8>>) -> Seq<Seq<u8>> {
    Seq::new(parts.len(), |i: int| parts[i]@)
}

/// Appends the four-byte big-endian rendering of `n`.
pub fn push_be32(out: &mut Vec<u8>, n: u32)
    ensures
        final(out)@ == old(out)@ + be32(n),
{
    out.push((n >> 24) as u8);
    out.push(((n >> 16) & 0xFF) as u8);
    out.push(((n >> 8) & 0xFF) as u8);
    out.push((n & 0xFF) as u8);
    proof {
        assert(final(out)@ =~= old(out)@ + be32(n));
    }
}

/// Appends the two-byte big-endian rendering of `n`.
pub fn push_be16(out: &mut Vec<u8>, n: u16)
    ensures
        final(out)@ == old(out)@ + be16(n),
{
    out.push((n >> 8) as u8);
    out.push((n & 0xFF) as u8);
    proof {
        assert(final(out)@ =~= old(out)@ + be16(n));
    }
}

/// Encodes a primary-key tuple; rejects a part at or over the length
/// bound with a serialization error, changing nothing.
pub fn encode_tuple_bytes(parts: &Vec<Vec<u8>>) -> (r: Result<Vec<u8>, TransactionError>)
    ensures
        match r {
            Ok(enc) => tuple_wf(parts_view(parts@)) && enc@ == encode_tuple(parts_view(parts@)),
            Err(e) => !tuple_wf(parts_view(parts@)) && e matches
                TransactionError::SerializationError(_),
        },
{
    let ghost t = parts_view(parts@);
    let mut out: Vec<u8> = Vec::new();
    let mut i: usize = 0;
    while i < parts.len()
        invariant
            0 <= i <= parts@.len(),
            t == parts_view(parts@),
            t.len() == parts@.len(),
            forall|j: int| 0 <= j < i ==> #[trigger] t[j].len() < PART_LEN_LIMIT,
            out@ == encode_tuple(t.take(i as int)),
        decreases parts@.len() - i,
    {
        let part = &parts[i];
        if part.len() >= PART_LEN_LIMIT {
            proof {
                assert(t[i as int] == parts@[i as int]@);
                assert(!tuple_wf(t));
            }
            return Err(
                TransactionError::SerializationError(
                    "a primary-key part is too long to encode".to_owned(),
                ),
            );
        }
        let ghost before = out@;
        push_be32(&mut out, part.len() as u32);
        let mut j: usize = 0;
        while j < part.len()
            invariant
                0 <= j <= part@.len(),
                out@ == before + be32(part@.len() as u32) + part@.subrange(0, j as int),
            decreases part@.len() - j,
        {
            out.push(part[j]);
            proof {
                assert(out@ =~= before + be32(part@.len() as u32) + part@.subrange(
                    0,
                    j as int + 1,
                ));
            }
            j = j + 1;
        }
        proof {
            assert(t.take(i as int).push(t[i as int]) =~= t.take(i as int + 1));
            lemma_encode_push(t.take(i as int), t[i as int]);
            assert(part@.subrange(0, part@.len() as int) =~= part@);
            assert(t[i as int] == parts@[i as int]@);
            assert(out@ =~= encode_tuple(t.take(i as int + 1)));
        }
        i = i + 1;
    }
    proof {
        assert(t.take(t.len() as int) =~= t);
    }
    Ok(out)
}

} // verus!
