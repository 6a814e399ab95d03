//! A mathematical model of JSON trees, and the trusted layer over
//! `serde_json` that parses text and reads values against that model.

use vstd::prelude::*;

verus! {

/// The mathematical value of a JSON tree: objects as maps from key text to
/// values, arrays as sequences, and numbers by their `u64` value where they
/// have one (the pipeline reads nothing finer out of a number).
pub enum JsonData {
    Null,
    Bool(bool),
    /// A number representable as a `u64`.
    UNum(u64),
    /// A number not representable as a `u64`: negative or fractional.
    OtherNum,
    Str(Seq<char>),
    Arr(Seq<JsonData>),
    Obj(Map<Seq<char>, JsonData>),
}

#[verifier::external_type_specification]
#[verifier::external_body]
pub struct ExValue(serde_json::Value);

#[verifier::external_type_specification]
#[verifier::external_body]
pub struct ExJsonError(serde_json::Error);

/// The JSON tree a `serde_json::Value` holds.
pub uninterp spec fn json_model(v: serde_json::Value) -> JsonData;

/// The JSON tree that a text parses to, when it is valid JSON: what
/// `serde_json::from_str` accepts and returns, a function of the text alone.
pub uninterp spec fn json_of(s: Seq<char>) -> Option<JsonData>;

/// Parses text as JSON.
///
/// Relies on `serde_json::from_str::<serde_json::Value>`: it returns `Ok`
/// exactly on valid JSON text, and what it returns depends on the text alone
/// (the tree is named `json_of`).
#[verifier::external_body]
pub fn json_parse(s: &str) -> (r: Result<serde_json::Value, serde_json::Error>)
    ensures
        (match r {
            Ok(v) => json_of(s@) == Some(json_model(v)),
            Err(_) => json_of(s@) is None,
        }),
{
    serde_json::from_str(s)
}

/// Looks up a key of a JSON object.
///
/// Relies on `serde_json::Value::get` with a string index: on an object it
/// returns the value under the key, on every other value `None`.
#[verifier::external_body]
pub fn json_get<'a>(v: &'a serde_json::Value, key: &str) -> (r: Option<&'a serde_json::Value>)
    ensures
        (match json_model(*v) {
            JsonData::Obj(m) => {
                &&& r is Some <==> m.contains_key(key@)
                &&& (r is Some ==> m.contains_key(key@) && json_model(*r->0) == m[key@])
            },
            _ => r is None,
        }),
{
    v.get(key)
}

/// Relies on `serde_json::Value::as_str`: the string a JSON string value
/// holds, `None` on every other value.
pub assume_specification[ serde_json::Value::as_str ](v: &serde_json::Value) -> (r: Option<&str>)
    ensures
        (match json_model(*v) {
            JsonData::Str(s) => r is Some && r->0@ == s,
            _ => r is None,
        }),
;

/// Relies on `serde_json::Value::as_u64`: the value of a JSON number that is
/// a non-negative integer fitting a `u64`, `None` on every other value.
pub assume_specification[ serde_json::Value::as_u64 ](v: &serde_json::Value) -> (r: Option<u64>)
    ensures
        (match json_model(*v) {
            JsonData::UNum(n) => r == Some(n),
            _ => r is None,
        }),
;

/// Relies on `serde_json::Value::as_array`: the elements of a JSON array,
/// `None` on every other value.
pub assume_specification[ serde_json::Value::as_array ](v: &serde_json::Value) -> (r: Option<
    &Vec<serde_json::Value>,
>)
    ensures
        (match json_model(*v) {
            JsonData::Arr(a) => r is Some && r->0@.map_values(
                |x: serde_json::Value| json_model(x),
            ) == a,
            _ => r is None,
        }),
;

/// Relies on `serde_json::Value::is_null`: whether the value is JSON `null`.
pub assume_specification[ serde_json::Value::is_null ](v: &serde_json::Value) -> (r: bool)
    ensures
        r == (json_model(*v) is Null),
;

/// Relies on `serde_json::Value::is_object`: whether the value is a JSON
/// object.
pub assume_specification[ serde_json::Value::is_object ](v: &serde_json::Value) -> (r: bool)
    ensures
        r == (json_model(*v) is Obj),
;

} // verus!
