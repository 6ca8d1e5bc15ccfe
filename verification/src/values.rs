//! Column-value serialization.
//!
//! Every column value and every key-column value is stored in a
//! self-describing binary document format: the value sits in a
//! single-entry document under the fixed key `v`, so adding optional
//! columns later needs no format migration. The integer and boolean
//! encodings are fixed-shape documents stated here byte for byte; the
//! string encoding is named, since spelling it out would mean spelling
//! out UTF-8. Decoding reads the document with the format's raw
//! reader, which walks elements by their recorded lengths and never
//! recurses into nested values, so malformed bytes — however deeply
//! nested — are a reported error, never a crash. Each decoder is
//! contracted to invert whatever the encoder produced, which is
//! exactly what the round-trip law needs.

use vstd::prelude::*;

use vstd::string::StringSliceAdditionalSpecFns;

use crate::error::TypeConversionError;

verus! {

/// The longest string value the encoder accepts: comfortably below
/// what keeps the document's 32-bit length fields exact.
pub const STR_VALUE_LEN_LIMIT: usize = 0x7FFF_FF00;

/// The document encoding of a string value.
pub uninterp spec fn bson_str_doc(s: Seq<char>) -> Seq<u8>;

/// The little-endian bytes of a 64-bit number.
pub open spec fn le64(n: u64) -> Seq<u8> {
    seq![
        (n & 0xFF) as u8,
        ((n >> 8) & 0xFF) as u8,
        ((n >> 16) & 0xFF) as u8,
        ((n >> 24) & 0xFF) as u8,
        ((n >> 32) & 0xFF) as u8,
        ((n >> 40) & 0xFF) as u8,
        ((n >> 48) & 0xFF) as u8,
        ((n >> 56) & 0xFF) as u8,
    ]
}

/// The document encoding of a 64-bit integer value: a 16-byte document
/// — length 16, the 64-bit-integer element type, the key `v`, the
/// value's little-endian two's-complement bytes, the terminator.
pub open spec fn bson_i64_doc(v: i64) -> Seq<u8> {
    seq![0x10u8, 0x00u8, 0x00u8, 0x00u8, 0x12u8, 0x76u8, 0x00u8] + le64(v as u64) + seq![0x00u8]
}

/// The document encoding of a boolean value: a 9-byte document —
/// length 9, the boolean element type, the key `v`, one value byte,
/// the terminator.
pub open spec fn bson_bool_doc(v: bool) -> Seq<u8> {
    seq![
        0x09u8,
        0x00u8,
        0x00u8,
        0x00u8,
        0x08u8,
        0x76u8,
        0x00u8,
        if v {
            0x01u8
        } else {
            0x00u8
        },
        0x00u8,
    ]
}

/// Relies on `bson::Document::to_vec`: the encoding of the single-entry
/// document holding the string depends on the string alone, and within
/// the length bound every 32-bit length field is exact, so encoding
/// cannot fail. The bound keeps out the inputs on which the writer's
/// length arithmetic would overflow.
#[verifier::external_body]
fn encode_string_doc(v: &str) -> (r: Vec<u8>)
    requires
        v.spec_bytes().len() < STR_VALUE_LEN_LIMIT,
    ensures
        r@ == bson_str_doc(v@),
{
    let mut doc = bson::Document::new();
    doc.insert("v", v);
    doc.to_vec().expect("a bounded single-entry document always encodes")
}

/// Encodes a string value, rejecting one too long for the document
/// format's 32-bit length fields.
pub fn encode_string_value(v: &str) -> (r: Result<Vec<u8>, TypeConversionError>)
    ensures
        match r {
            Ok(b) => v.spec_bytes().len() < STR_VALUE_LEN_LIMIT && b@ == bson_str_doc(v@),
            Err(_) => v.spec_bytes().len() >= STR_VALUE_LEN_LIMIT,
        },
{
    let raw = v.as_bytes();
    if raw.len() >= STR_VALUE_LEN_LIMIT {
        return Err(
            TypeConversionError::new_to_string(
                "a string too long for the document format".to_owned(),
                "String",
                "Vec<u8>",
            ),
        );
    }
    Ok(encode_string_doc(v))
}

/// Relies on `bson::RawDocument::from_bytes` and `RawDocument::get_str`:
/// the raw reader checks the document frame and walks top-level elements
/// by their recorded lengths, without recursing into nested values, so
/// any input either yields the string under `v` or a reported error.
/// Decoding inverts whatever `encode_string_value` produced and fails on
/// bytes no string encodes to.
#[verifier::external_body]
pub fn decode_string_value(b: &[u8]) -> (r: Result<String, TypeConversionError>)
    ensures
        match r {
            Ok(s) => forall|s2: Seq<char>| bson_str_doc(s2) == b@ ==> s2 == s@,
            Err(_) => forall|s2: Seq<char>| bson_str_doc(s2) != b@,
        },
{
    let doc = match bson::RawDocument::from_bytes(b) {
        Ok(d) => d,
        Err(_) => return Err(TypeConversionError::new_from_bytes(b, "String")),
    };
    match doc.get_str("v") {
        Ok(s) => Ok(s.to_owned()),
        Err(_) => Err(TypeConversionError::new_from_bytes(b, "String")),
    }
}

/// Relies on `bson::Document::to_vec`: the single-entry integer
/// document has the fixed 16-byte shape stated by `bson_i64_doc`, and
/// its encoding cannot fail.
#[verifier::external_body]
pub fn encode_i64_value(v: i64) -> (r: Result<Vec<u8>, TypeConversionError>)
    ensures
        r is Ok,
        r matches Ok(b) ==> b@ == bson_i64_doc(v),
{
    let mut doc = bson::Document::new();
    doc.insert("v", v);
    doc.to_vec().map_err(|_| TypeConversionError::new_to_string(v.to_string(), "i64", "Vec<u8>"))
}

/// Relies on `bson::RawDocument::from_bytes` and `RawDocument::get_i64`
/// (strict on the 64-bit-integer element type): the raw reader never
/// recurses, so any input either yields the integer under `v` or a
/// reported error. Decoding inverts whatever `encode_i64_value`
/// produced and fails on bytes no 64-bit integer encodes to.
#[verifier::external_body]
pub fn decode_i64_value(b: &[u8]) -> (r: Result<i64, TypeConversionError>)
    ensures
        match r {
            Ok(v) => forall|v2: i64| bson_i64_doc(v2) == b@ ==> v2 == v,
            Err(_) => forall|v2: i64| bson_i64_doc(v2) != b@,
        },
{
    let doc = match bson::RawDocument::from_bytes(b) {
        Ok(d) => d,
        Err(_) => return Err(TypeConversionError::new_from_bytes(b, "i64")),
    };
    match doc.get_i64("v") {
        Ok(v) => Ok(v),
        Err(_) => Err(TypeConversionError::new_from_bytes(b, "i64")),
    }
}

/// Relies on `bson::Document::to_vec`: the single-entry boolean
/// document has the fixed 9-byte shape stated by `bson_bool_doc`, and
/// its encoding cannot fail.
#[verifier::external_body]
pub fn encode_bool_value(v: bool) -> (r: Result<Vec<u8>, TypeConversionError>)
    ensures
        r is Ok,
        r matches Ok(b) ==> b@ == bson_bool_doc(v),
{
    let mut doc = bson::Document::new();
    doc.insert("v", v);
    doc.to_vec().map_err(|_| TypeConversionError::new_to_string(v.to_string(), "bool", "Vec<u8>"))
}

/// Relies on `bson::RawDocument::from_bytes` and `RawDocument::get_bool`
/// (strict on the boolean element type): the raw reader never recurses,
/// so any input either yields the boolean under `v` or a reported
/// error. Decoding inverts whatever `encode_bool_value` produced and
/// fails on bytes no boolean encodes to.
#[verifier::external_body]
pub fn decode_bool_value(b: &[u8]) -> (r: Result<bool, TypeConversionError>)
    ensures
        match r {
            Ok(v) => forall|v2: bool| bson_bool_doc(v2) == b@ ==> v2 == v,
            Err(_) => forall|v2: bool| bson_bool_doc(v2) != b@,
        },
{
    let doc = match bson::RawDocument::from_bytes(b) {
        Ok(d) => d,
        Err(_) => return Err(TypeConversionError::new_from_bytes(b, "bool")),
    };
    match doc.get_bool("v") {
        Ok(v) => Ok(v),
        Err(_) => Err(TypeConversionError::new_from_bytes(b, "bool")),
    }
}

/// Conversion from a stored representation to a model value.
pub trait TryFromDbType<T>: Sized {
    /// Converts a stored representation into the value it encodes.
    fn try_from_db_type(value: &T) -> Result<Self, TypeConversionError>;
}

/// Conversion from a model value to its stored representation.
pub trait TryIntoDbType<T>: Sized {
    /// Converts the value into its stored representation.
    fn try_into_db_type(&self) -> Result<T, TypeConversionError>;
}

impl TryIntoDbType<Vec<u8>> for String {
    fn try_into_db_type(&self) -> (r: Result<Vec<u8>, TypeConversionError>)
        ensures
            r matches Ok(b) ==> b@ == bson_str_doc(self@),
    {
        encode_string_value(self.as_str())
    }
}

impl TryFromDbType<Vec<u8>> for String {
    fn try_from_db_type(value: &Vec<u8>) -> (r: Result<String, TypeConversionError>)
        ensures
            match r {
                Ok(s) => forall|s2: Seq<char>| bson_str_doc(s2) == value@ ==> s2 == s@,
                Err(_) => forall|s2: Seq<char>| bson_str_doc(s2) != value@,
            },
    {
        decode_string_value(value.as_slice())
    }
}

impl TryIntoDbType<Vec<u8>> for i64 {
    fn try_into_db_type(&self) -> (r: Result<Vec<u8>, TypeConversionError>)
        ensures
            r is Ok,
            r matches Ok(b) ==> b@ == bson_i64_doc(*self),
    {
        encode_i64_value(*self)
    }
}

impl TryFromDbType<Vec<u8>> for i64 {
    fn try_from_db_type(value: &Vec<u8>) -> (r: Result<i64, TypeConversionError>)
        ensures
            match r {
                Ok(v) => forall|v2: i64| bson_i64_doc(v2) == value@ ==> v2 == v,
                Err(_) => forall|v2: i64| bson_i64_doc(v2) != value@,
            },
    {
        decode_i64_value(value.as_slice())
    }
}

impl TryIntoDbType<Vec<u8>> for bool {
    fn try_into_db_type(&self) -> (r: Result<Vec<u8>, TypeConversionError>)
        ensures
            r is Ok,
            r matches Ok(b) ==> b@ == bson_bool_doc(*self),
    {
        encode_bool_value(*self)
    }
}

impl TryFromDbType<Vec<u8>> for bool {
    fn try_from_db_type(value: &Vec<u8>) -> (r: Result<bool, TypeConversionError>)
        ensures
            match r {
                Ok(v) => forall|v2: bool| bson_bool_doc(v2) == value@ ==> v2 == v,
                Err(_) => forall|v2: bool| bson_bool_doc(v2) != value@,
            },
    {
        decode_bool_value(value.as_slice())
    }
}

} // verus!
