//! The JSON values that the library carries and reads through `serde_json`.
use vstd::prelude::*;
use crate::text::opt_string_view;

verus! {

/// `serde_json::Value`, carried opaquely.
#[verifier::external_type_specification]
#[verifier::external_body]
pub struct ExJsonValue(serde_json::Value);

/// `text` is a well-formed JSON document (what `serde_json::from_str` accepts).
pub uninterp spec fn json_text_valid(text: Seq<char>) -> bool;

/// Parses `text` as a JSON value with `serde_json::from_str`. The contract
/// claims only that parsing succeeds exactly on the texts `json_text_valid`
/// names; the parsed value itself is opaque here.
#[verifier::external_body]
pub(crate) fn parse_json(text: &str) -> (r: Option<serde_json::Value>)
    ensures
        r is Some <==> json_text_valid(text@),
{
    serde_json::from_str::<serde_json::Value>(text).ok()
}

/// The string under `key` of a JSON value, as `Value::get` then
/// `Value::as_str` read it; `None` where the value is not an object, has no
/// such key, or holds something other than a string there.
pub uninterp spec fn json_value_string(value: serde_json::Value, key: Seq<char>) -> Option<Seq<char>>;

/// The string under `key` of a JSON object (`Value::get` then `Value::as_str`).
/// The contract claims that the result is the one `json_value_string` names
/// for the value and the key.
#[verifier::external_body]
pub(crate) fn json_str_field(value: &serde_json::Value, key: &str) -> (r: Option<String>)
    ensures
        opt_string_view(r) == json_value_string(*value, key@),
{
    value.get(key).and_then(serde_json::Value::as_str).map(String::from)
}

/// The string under `key` of the JSON value that `serde_json::from_str`
/// parses from `text`; `None` where the text is not JSON, the value has no
/// such key, or what stands there is not a string.
pub uninterp spec fn json_text_field(text: Seq<char>, key: Seq<char>) -> Option<Seq<char>>;

/// Parses `text` with `serde_json::from_str` and reads the string under `key`
/// with `Value::get` and `Value::as_str`. The contract claims that the result
/// is the one `json_text_field` names for the text and the key, and that a
/// text `serde_json` refuses gives `None`.
#[verifier::external_body]
pub(crate) fn json_field_in_text(text: &str, key: &str) -> (r: Option<String>)
    ensures
        opt_string_view(r) == json_text_field(text@, key@),
        !json_text_valid(text@) ==> r is None,
{
    match serde_json::from_str::<serde_json::Value>(text) {
        Ok(v) => v.get(key).and_then(serde_json::Value::as_str).map(String::from),
        Err(_) => None,
    }
}

} // verus!
