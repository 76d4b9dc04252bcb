//! The trusted boundary around the structured-text payload codec. Payload
//! trees are carried through the library as opaque `serde_json::Value`s;
//! what the logic observes of them — field lookup, the numeric or string
//! reading of a leaf, the compact serialized text — is named here, and each
//! name is tied to the one outside function that computes it.

use vstd::prelude::*;
use crate::bytes::lit_bytes;

verus! {

#[verifier::external_type_specification]
#[verifier::external_body]
pub struct ExValue(serde_json::Value);

/// The parse of a byte sequence as one structured-text value, when it is
/// well-formed; the result depends on the bytes alone.
pub uninterp spec fn json_parsed(b: Seq<u8>) -> Option<serde_json::Value>;

/// The field of an object value under a key, when the value is an object
/// that holds the key.
pub uninterp spec fn json_field(v: serde_json::Value, key: Seq<char>) -> Option<
    serde_json::Value,
>;

/// The reading of a value as an unsigned 64-bit integer, when it is a
/// number that one can represent.
pub uninterp spec fn json_u64(v: serde_json::Value) -> Option<u64>;

/// The reading of a value as a signed 64-bit integer, when it is a number
/// that one can represent.
pub uninterp spec fn json_i64(v: serde_json::Value) -> Option<i64>;

/// The characters of a value, when it is a string.
pub uninterp spec fn json_str(v: serde_json::Value) -> Option<Seq<char>>;

/// The compact serialized text of a value.
pub uninterp spec fn json_text(v: serde_json::Value) -> Seq<u8>;

/// The four bytes that the null value serializes to.
pub open spec fn null_text() -> Seq<u8> {
    lit_bytes("null"@)
}

/// Relies on serde_json::from_slice::<Value>: parses the bytes as one
/// structured-text value, `None` on any parse error; deterministic in the
/// bytes.
#[verifier::external_body]
pub fn parse_json(b: &Vec<u8>) -> (r: Option<serde_json::Value>)
    ensures
        r == json_parsed(b@),
{
    match serde_json::from_slice::<serde_json::Value>(b) {
        Ok(v) => Some(v),
        Err(_) => None,
    }
}

/// Relies on serde_json::Value::get with a string index: `None` unless the
/// value is an object holding the key; returns a copy of the field.
#[verifier::external_body]
pub fn get_field(v: &serde_json::Value, key: &str) -> (r: Option<serde_json::Value>)
    ensures
        r == json_field(*v, key@),
{
    match v.get(key) {
        Some(f) => Some(f.clone()),
        None => None,
    }
}

/// Relies on serde_json::Value::as_u64: `Some` exactly for an integer
/// number representable as u64.
#[verifier::external_body]
pub fn value_as_u64(v: &serde_json::Value) -> (r: Option<u64>)
    ensures
        r == json_u64(*v),
{
    v.as_u64()
}

/// Relies on serde_json::Value::as_i64: `Some` exactly for an integer
/// number representable as i64.
#[verifier::external_body]
pub fn value_as_i64(v: &serde_json::Value) -> (r: Option<i64>)
    ensures
        r == json_i64(*v),
{
    v.as_i64()
}

/// Relies on serde_json::Value::as_str: `Some` of the characters exactly
/// when the value is a string.
#[verifier::external_body]
pub fn value_as_string(v: &serde_json::Value) -> (r: Option<String>)
    ensures
        match r {
            Some(s) => json_str(*v) == Some(s@),
            None => json_str(*v) is None,
        },
{
    match v.as_str() {
        Some(s) => Some(s.to_owned()),
        None => None,
    }
}

/// Relies on serde_json::to_vec: the compact text of the value. Serializing
/// a `Value` cannot fail — its object keys are strings — so the fallback
/// arm is never taken.
#[verifier::external_body]
pub fn value_to_bytes(v: &serde_json::Value) -> (r: Vec<u8>)
    ensures
        r@ == json_text(*v),
{
    match serde_json::to_vec(v) {
        Ok(b) => b,
        Err(_) => Vec::new(),
    }
}

/// Relies on serde_json::Value::Null serializing to the four bytes `null`.
#[verifier::external_body]
pub fn null_value() -> (r: serde_json::Value)
    ensures
        json_text(r) == null_text(),
{
    serde_json::Value::Null
}

/// Relies on str::eq: equality of string slices is equality of their
/// characters.
#[verifier::external_body]
pub fn str_eq(a: &str, b: &str) -> (r: bool)
    ensures
        r == (a@ == b@),
{
    a == b
}

} // verus!
