//! Trusted boundary around `serde_json::Value`, the loosely-typed form in
//! which the CoreTime payloads arrive. A value is opaque here: nothing is
//! assumed about what any accessor returns, and the callers state what holds
//! of every outcome.

use vstd::prelude::*;

verus! {

#[verifier::external_type_specification]
#[verifier::external_body]
pub struct ExValue(serde_json::Value);

/// Relies on `serde_json::from_slice` to parse JSON text into a value tree;
/// returns `None` exactly when the bytes are not valid JSON.
#[verifier::external_body]
pub(crate) fn json_from_slice(bytes: &Vec<u8>) -> Option<serde_json::Value> {
    serde_json::from_slice::<serde_json::Value>(bytes.as_slice()).ok()
}

/// Relies on `serde_json::Value::get` to look a key up in an object;
/// returns `None` when the value is not an object or lacks the key.
#[verifier::external_body]
pub(crate) fn value_get<'a>(v: &'a serde_json::Value, key: &str) -> Option<&'a serde_json::Value> {
    v.get(key)
}

/// Relies on `serde_json::Value::as_u64`: `Some` exactly when the value is an
/// integer representable as a u64.
#[verifier::external_body]
pub(crate) fn value_as_u64(v: &serde_json::Value) -> Option<u64> {
    v.as_u64()
}

/// Relies on `serde_json::Value::as_bool`: `Some` exactly when the value is a
/// boolean.
#[verifier::external_body]
pub(crate) fn value_as_bool(v: &serde_json::Value) -> Option<bool> {
    v.as_bool()
}

/// Relies on `serde_json::Value::as_str`: `Some` exactly when the value is a
/// string; the string is handed out as its UTF-8 bytes.
#[verifier::external_body]
pub(crate) fn value_as_str_bytes(v: &serde_json::Value) -> Option<Vec<u8>> {
    v.as_str().map(|s| s.as_bytes().to_vec())
}

/// Relies on `serde_json::Value::as_array`: `Some` exactly when the value is
/// an array.
#[verifier::external_body]
pub(crate) fn value_as_array<'a>(v: &'a serde_json::Value) -> Option<&'a Vec<serde_json::Value>> {
    v.as_array()
}

/// Relies on `serde_json::Value::is_null`.
#[verifier::external_body]
pub(crate) fn value_is_null(v: &serde_json::Value) -> bool {
    v.is_null()
}

/// Relies on `serde_json::Value::is_object`.
#[verifier::external_body]
pub(crate) fn value_is_object(v: &serde_json::Value) -> bool {
    v.is_object()
}

} // verus!
