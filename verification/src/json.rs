//! Trusted view of `serde_json` values.
//!
//! The stream decoder reads each input line as one JSON document through
//! `serde_json`. The parsed document is carried as an opaque
//! `serde_json::Value`; everything the decoder learns about it comes from
//! the accessors below, whose results are named by uninterpreted spec
//! functions so that the decoding logic itself can be verified.

use vstd::prelude::*;

verus! {

/// Declares `serde_json::Value` so parsed documents can appear in verified
/// signatures; the value stays opaque and is read only through the trusted
/// accessors in this module.
#[verifier::external_type_specification]
#[verifier::external_body]
pub struct ExValue(serde_json::Value);

/// The JSON document held in `bytes`, when `bytes` is exactly one valid
/// document; `None` otherwise.
pub uninterp spec fn parsed_json(bytes: Seq<u8>) -> Option<serde_json::Value>;

/// The value of the object member `key`; `None` on a non-object value or an
/// absent member.
pub uninterp spec fn field_of(v: serde_json::Value, key: Seq<char>) -> Option<serde_json::Value>;

/// The characters of a JSON string value; `None` if the value is not a string.
pub uninterp spec fn str_of(v: serde_json::Value) -> Option<Seq<char>>;

/// The value of a JSON number that is a non-negative integer representable in
/// `u64`; `None` otherwise.
pub uninterp spec fn uint_of(v: serde_json::Value) -> Option<u64>;

/// The value of a JSON boolean; `None` if the value is not a boolean.
pub uninterp spec fn bool_of(v: serde_json::Value) -> Option<bool>;

/// The compact JSON text of a value.
pub uninterp spec fn text_of(v: serde_json::Value) -> Seq<char>;

/// Whether the value is a JSON number.
pub uninterp spec fn number_json(v: serde_json::Value) -> bool;

/// Whether the value is a JSON object.
pub uninterp spec fn object_json(v: serde_json::Value) -> bool;

/// Whether the value is JSON null.
pub uninterp spec fn null_json(v: serde_json::Value) -> bool;

/// Relies on `serde_json::from_slice::<Value>`: parses one JSON document,
/// `None` exactly when the bytes are not a single valid document.
#[verifier::external_body]
pub fn json_parse(bytes: &[u8]) -> (r: Option<serde_json::Value>)
    ensures
        r == parsed_json(bytes@),
{
    serde_json::from_slice(bytes).ok()
}

/// Relies on `serde_json::Value::get`: member lookup, `None` on non-objects
/// and absent members.
#[verifier::external_body]
pub fn json_field<'a>(v: &'a serde_json::Value, key: &str) -> (r: Option<&'a serde_json::Value>)
    ensures
        (match r {
            Some(f) => field_of(*v, key@) == Some(*f),
            None => field_of(*v, key@) is None,
        }),
{
    v.get(key)
}

/// Relies on `serde_json::Value::as_str`: the text of a string value.
#[verifier::external_body]
pub fn json_str(v: &serde_json::Value) -> (r: Option<String>)
    ensures
        (match r {
            Some(s) => str_of(*v) == Some(s@),
            None => str_of(*v) is None,
        }),
{
    match v.as_str() {
        Some(s) => Some(s.to_owned()),
        None => None,
    }
}

/// Relies on `serde_json::Value::as_u64`: the value of an unsigned integer
/// number.
#[verifier::external_body]
pub fn json_uint(v: &serde_json::Value) -> (r: Option<u64>)
    ensures
        r == uint_of(*v),
{
    v.as_u64()
}

/// Relies on `serde_json::Value::as_bool`: the value of a boolean.
#[verifier::external_body]
pub fn json_bool(v: &serde_json::Value) -> (r: Option<bool>)
    ensures
        r == bool_of(*v),
{
    v.as_bool()
}

/// Relies on `serde_json::Value`'s `Display` implementation, which prints
/// the value as compact JSON.
#[verifier::external_body]
pub fn json_text(v: &serde_json::Value) -> (r: String)
    ensures
        r@ == text_of(*v),
{
    v.to_string()
}

/// Relies on `serde_json::Value::is_number`.
#[verifier::external_body]
pub fn json_is_number(v: &serde_json::Value) -> (r: bool)
    ensures
        r == number_json(*v),
{
    v.is_number()
}

/// Relies on `serde_json::Value::is_object`.
#[verifier::external_body]
pub fn json_is_object(v: &serde_json::Value) -> (r: bool)
    ensures
        r == object_json(*v),
{
    v.is_object()
}

/// Relies on `serde_json::Value::is_null`.
#[verifier::external_body]
pub fn json_is_null(v: &serde_json::Value) -> (r: bool)
    ensures
        r == null_json(*v),
{
    v.is_null()
}

} // verus!
