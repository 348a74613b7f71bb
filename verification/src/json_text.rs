//! JSON text: reading a `JsonValue` from text through serde_json.
use vstd::prelude::*;
use crate::json::{JsonNumber, JsonValue, JsonView};

verus! {

#[verifier::external_type_specification]
#[verifier::external_body]
pub struct ExSerdeValue(serde_json::Value);

#[verifier::external_type_specification]
#[verifier::external_body]
pub struct ExSerdeNumber(serde_json::Number);

/// A serde_json number in the library's form: an integer that fits `u64`, else one
/// that fits `i64`, else the bits of its float.
#[verifier::external_body]
fn number_from_serde(n: &serde_json::Number) -> JsonNumber {
    match (n.as_u64(), n.as_i64()) {
        (Some(u), _) => JsonNumber::PosInt(u),
        (None, Some(i)) => JsonNumber::NegInt(i),
        (None, None) => JsonNumber::Float(n.as_f64().unwrap_or_default().to_bits()),
    }
}

/// A serde_json value in the library's form, node for node; object entries in the
/// order serde_json's map yields them.
#[verifier::external_body]
fn value_from_serde(v: &serde_json::Value) -> JsonValue {
    match v {
        serde_json::Value::Null => JsonValue::Null,
        serde_json::Value::Bool(b) => JsonValue::Bool(*b),
        serde_json::Value::Number(n) => JsonValue::Number(number_from_serde(n)),
        serde_json::Value::String(s) => JsonValue::String(s.clone()),
        serde_json::Value::Array(a) => JsonValue::Array(a.iter().map(value_from_serde).collect()),
        serde_json::Value::Object(m) => JsonValue::Object(m.iter().map(|(k, x)| (k.clone(), value_from_serde(x))).collect()),
    }
}

/// Name for what `serde_json::from_str::<serde_json::Value>` gives for a text, carried
/// over to the library's form: the value the text holds, or `None` when it is not
/// valid JSON.
pub uninterp spec fn json_of_text(text: Seq<char>) -> Option<JsonView>;

/// `serde_json::from_str` into a `serde_json::Value`: the value `text` holds, or the
/// parser's message when it holds none. The message itself is left unsaid.
#[verifier::external_body]
pub(crate) fn parse_json_text(text: &str) -> (r: Result<JsonValue, String>)
    ensures
        match r {
            Ok(v) => json_of_text(text@) == Some(v@),
            Err(_) => json_of_text(text@) is None,
        },
{
    match serde_json::from_str::<serde_json::Value>(text) {
        Ok(v) => Ok(value_from_serde(&v)),
        Err(e) => Err(e.to_string()),
    }
}

/// The value a stored JSON text holds: `None` when there is no text or it is not
/// valid JSON.
pub fn stored_json_value(text: Option<&str>) -> (r: Option<JsonValue>)
    ensures
        match text {
            None => r is None,
            Some(t) => match json_of_text(t@) {
                Some(v) => r matches Some(x) && x@ == v,
                None => r is None,
            },
        },
{
    match text {
        None => None,
        Some(t) => match parse_json_text(t) {
            Ok(v) => Some(v),
            Err(_) => None,
        },
    }
}

} // verus!
