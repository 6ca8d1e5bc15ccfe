//! The error taxonomy.
//!
//! Connection errors concern the store handle's lifecycle; transaction
//! errors cover store conflicts and failures, data-integrity failures
//! and serialization failures. Only a store-reported write conflict is
//! ever retryable; every data error propagates on first occurrence.

use vstd::prelude::*;

use crate::connect::DbConnType;

verus! {

/// Errors of connection lifecycle calls.
#[derive(Debug)]
pub enum DbConnError {
    /// The backend the connection string selects is not compiled in,
    /// with the connection string that selected it.
    DbDisabled(DbConnType, String),
    /// The store target is unreachable or malformed.
    EstablishFail(String),
    /// One-time driver start-up failed (for instance: start after stop).
    StartError(String),
    /// Driver shutdown failed (for instance: stop after stop).
    StopError(String),
    /// Any other failure the store driver reported.
    Unknown(String),
}

/// Errors of a transaction body or of its commit.
#[derive(Debug)]
pub enum TransactionError {
    /// A value could not be serialized or deserialized.
    SerializationError(String),
    /// The store reported an optimistic-concurrency write conflict;
    /// the only retryable outcome.
    Conflict(String),
    /// Any other store-reported failure, timeouts included.
    StoreFail(String),
    /// A unique index already maps the value to a different row.
    IndexAlreadyExists,
    /// An index entry disagrees with the row data it points at.
    IndexMismatchError,
    /// An index entry that must exist was absent.
    IndexNotFound,
    /// The operation is not allowed (writing a primary-key column).
    OpProhibited,
}

/// Whether an error is the store's own (conflict or other store
/// failure) rather than a data-rule or serialization failure.
pub open spec fn is_store_error(e: TransactionError) -> bool {
    ||| e matches TransactionError::Conflict(_)
    ||| e matches TransactionError::StoreFail(_)
}

impl TransactionError {
    /// Whether the retry protocol may re-run the transaction body after
    /// this error: true exactly for a store-reported write conflict.
    pub fn is_retryable(&self) -> (r: bool)
        ensures
            r == (self matches TransactionError::Conflict(_)),
    {
        match self {
            TransactionError::Conflict(_) => true,
            _ => false,
        }
    }
}

/// The character for the hexadecimal (and decimal) digit `n`.
pub open spec fn digit_char(n: u8) -> char {
    if n == 0 {
        '0'
    } else if n == 1 {
        '1'
    } else if n == 2 {
        '2'
    } else if n == 3 {
        '3'
    } else if n == 4 {
        '4'
    } else if n == 5 {
        '5'
    } else if n == 6 {
        '6'
    } else if n == 7 {
        '7'
    } else if n == 8 {
        '8'
    } else if n == 9 {
        '9'
    } else if n == 10 {
        'a'
    } else if n == 11 {
        'b'
    } else if n == 12 {
        'c'
    } else if n == 13 {
        'd'
    } else if n == 14 {
        'e'
    } else {
        'f'
    }
}

/// The rendering of one byte, `0x`-prefixed, two digits.
pub open spec fn hex_byte(b: u8) -> Seq<char> {
    seq!['0', 'x', digit_char(b / 16), digit_char(b % 16)]
}

/// The decimal rendering of `n`, no leading zeros.
pub open spec fn dec_str(n: nat) -> Seq<char>
    decreases n,
{
    if n < 10 {
        seq![digit_char(n as u8)]
    } else {
        dec_str(n / 10) + seq![digit_char((n % 10) as u8)]
    }
}

/// The comma-separated hex renderings of `bs[i .. k]`.
pub open spec fn bytes_list(bs: Seq<u8>, i: int, k: int) -> Seq<char>
    decreases k - i,
{
    if i >= k || i >= bs.len() {
        Seq::<char>::empty()
    } else if i == k - 1 {
        hex_byte(bs[i])
    } else {
        hex_byte(bs[i]) + ", "@ + bytes_list(bs, i + 1, k)
    }
}

/// How many leading bytes of an offending value a description shows.
pub open spec fn shown_bytes(len: nat) -> int {
    if len <= 10 {
        len as int
    } else {
        10
    }
}

/// The description of an offending byte string: its length and its
/// first bytes, elided past the tenth.
pub open spec fn byte_desc(bs: Seq<u8>) -> Seq<char> {
    if bs.len() == 0 {
        "empty byte slice"@
    } else if bs.len() == 1 {
        "1 byte ["@ + hex_byte(bs[0]) + "]"@
    } else {
        dec_str(bs.len()) + " bytes ["@ + bytes_list(bs, 0, shown_bytes(bs.len())) + (if bs.len()
            > 10 {
            ", ...]"@
        } else {
            "]"@
        })
    }
}

/// Appends the character for digit `n` (0 to 15).
fn append_digit(out: &mut String, n: u8)
    requires
        n < 16,
    ensures
        final(out)@ == old(out)@ + seq![digit_char(n)],
{
    proof {
        reveal_strlit("0");
        reveal_strlit("1");
        reveal_strlit("2");
        reveal_strlit("3");
        reveal_strlit("4");
        reveal_strlit("5");
        reveal_strlit("6");
        reveal_strlit("7");
        reveal_strlit("8");
        reveal_strlit("9");
        reveal_strlit("a");
        reveal_strlit("b");
        reveal_strlit("c");
        reveal_strlit("d");
        reveal_strlit("e");
        reveal_strlit("f");
    }
    match n {
        0 => out.append("0"),
        1 => out.append("1"),
        2 => out.append("2"),
        3 => out.append("3"),
        4 => out.append("4"),
        5 => out.append("5"),
        6 => out.append("6"),
        7 => out.append("7"),
        8 => out.append("8"),
        9 => out.append("9"),
        10 => out.append("a"),
        11 => out.append("b"),
        12 => out.append("c"),
        13 => out.append("d"),
        14 => out.append("e"),
        _ => out.append("f"),
    }
    proof {
        assert(final(out)@ =~= old(out)@ + seq![digit_char(n)]);
    }
}

/// Appends the two-digit hex rendering of `b`.
fn append_hex_byte(out: &mut String, b: u8)
    ensures
        final(out)@ == old(out)@ + hex_byte(b),
{
    proof {
        reveal_strlit("0x");
    }
    out.append("0x");
    append_digit(out, b / 16);
    append_digit(out, b % 16);
    proof {
        assert(final(out)@ =~= old(out)@ + hex_byte(b));
    }
}

/// Appends the decimal rendering of `n`.
fn append_dec(out: &mut String, n: u64)
    ensures
        final(out)@ == old(out)@ + dec_str(n as nat),
    decreases n,
{
    if n >= 10 {
        append_dec(out, n / 10);
    }
    append_digit(out, (n % 10) as u8);
    proof {
        assert(final(out)@ =~= old(out)@ + dec_str(n as nat));
    }
}

/// Appends the comma-separated hex renderings of `bs[i .. k]`.
fn append_bytes_list(out: &mut String, bs: &[u8], i: usize, k: usize)
    requires
        k <= bs@.len(),
    ensures
        final(out)@ == old(out)@ + bytes_list(bs@, i as int, k as int),
    decreases k - i,
{
    proof {
        reveal_strlit(", ");
    }
    if i >= k {
        proof {
            assert(final(out)@ =~= old(out)@ + bytes_list(bs@, i as int, k as int));
        }
        return ;
    }
    append_hex_byte(out, bs[i]);
    if i + 1 < k {
        out.append(", ");
        append_bytes_list(out, bs, i + 1, k);
    }
    proof {
        assert(final(out)@ =~= old(out)@ + bytes_list(bs@, i as int, k as int));
    }
}

/// The description of an offending byte string, as a fresh string.
pub fn byte_desc_string(bs: &[u8]) -> (s: String)
    ensures
        s@ == byte_desc(bs@),
{
    let len: usize = bs.len();
    let mut out = String::new();
    if len == 0 {
        proof {
            reveal_strlit("empty byte slice");
        }
        out.append("empty byte slice");
        proof {
            assert(out@ =~= byte_desc(bs@));
        }
        return out;
    }
    if len == 1 {
        proof {
            reveal_strlit("1 byte [");
            reveal_strlit("]");
        }
        out.append("1 byte [");
        append_hex_byte(&mut out, bs[0]);
        out.append("]");
        proof {
            assert(out@ =~= byte_desc(bs@));
        }
        return out;
    }
    proof {
        reveal_strlit(" bytes [");
        reveal_strlit(", ...]");
        reveal_strlit("]");
    }
    append_dec(&mut out, len as u64);
    out.append(" bytes [");
    let shown: usize = if len <= 10 {
        len
    } else {
        10
    };
    append_bytes_list(&mut out, bs, 0, shown);
    if len > 10 {
        out.append(", ...]");
    } else {
        out.append("]");
    }
    proof {
        assert(out@ =~= byte_desc(bs@));
    }
    out
}

/// A failed conversion between a stored representation and a value,
/// described well enough to diagnose without retrying.
#[derive(Debug)]
pub struct TypeConversionError {
    /// A rendering of the offending value.
    pub value_desc: String,
    /// The name of the type converted from.
    pub from_type: String,
    /// The name of the type converted to.
    pub to_type: String,
}

impl TypeConversionError {
    /// A conversion error from a value already rendered as text.
    pub fn new_to_string(value_desc: String, from_type: &str, to_type: &str) -> (e: Self)
        ensures
            e.value_desc == value_desc,
            e.from_type@ == from_type@,
            e.to_type@ == to_type@,
    {
        TypeConversionError {
            value_desc,
            from_type: from_type.to_owned(),
            to_type: to_type.to_owned(),
        }
    }

    /// A conversion error from offending raw bytes.
    pub fn new_from_bytes(val: &[u8], to_type: &str) -> (e: Self)
        ensures
            e.value_desc@ == byte_desc(val@),
            e.from_type@ == "byte slice"@,
            e.to_type@ == to_type@,
    {
        TypeConversionError {
            value_desc: byte_desc_string(val),
            from_type: "byte slice".to_owned(),
            to_type: to_type.to_owned(),
        }
    }

    /// The full diagnostic text.
    pub fn message(&self) -> (s: String)
        ensures
            s@ == "failed to convert from "@ + self.from_type@ + " (value: "@ + self.value_desc@
                + ") to "@ + self.to_type@,
    {
        proof {
            reveal_strlit("failed to convert from ");
            reveal_strlit(" (value: ");
            reveal_strlit(") to ");
        }
        let mut s = String::new();
        s.append("failed to convert from ");
        s.append(self.from_type.as_str());
        s.append(" (value: ");
        s.append(self.value_desc.as_str());
        s.append(") to ");
        s.append(self.to_type.as_str());
        proof {
            assert(s@ =~= "failed to convert from "@ + self.from_type@ + " (value: "@
                + self.value_desc@ + ") to "@ + self.to_type@);
        }
        s
    }
}

} // verus!
