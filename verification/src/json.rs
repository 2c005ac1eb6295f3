//! The `serde_json` values that the library carries, and the calls into
//! `serde_json` that it makes: reading JSON text and writing JSON values.

use vstd::prelude::*;

verus! {

#[verifier::external_type_specification]
#[verifier::external_body]
pub struct ExValue(serde_json::Value);

#[verifier::external_type_specification]
#[verifier::external_body]
pub struct ExNumber(serde_json::Number);

#[verifier::external_type_specification]
#[verifier::external_body]
#[verifier::reject_recursive_types(K)]
#[verifier::reject_recursive_types(V)]
pub struct ExMap<K, V>(serde_json::Map<K, V>);

/// `Clone` of a `serde_json` map: the derived-style copy of its entries.
/// Claimed: the copy is the same value as the one cloned.
pub assume_specification[ <serde_json::Map<String, serde_json::Value> as Clone>::clone ](
    m: &serde_json::Map<String, serde_json::Value>,
) -> (r: serde_json::Map<String, serde_json::Value>)
    ensures
        r == *m,
;

/// `Clone` of a `serde_json` number (derived). Claimed: the copy is the
/// same value as the one cloned.
pub assume_specification[ <serde_json::Number as Clone>::clone ](n: &serde_json::Number) -> (r:
    serde_json::Number)
    ensures
        r == *n,
;

/// `Clone` of a `serde_json` value (derived). Claimed: the copy is the
/// same value as the one cloned.
pub assume_specification[ <serde_json::Value as Clone>::clone ](v: &serde_json::Value) -> (r:
    serde_json::Value)
    ensures
        r == *v,
;

/// A JSON value, told apart by its outermost form; the payloads of
/// numbers, arrays and objects are carried as `serde_json` values.
#[derive(Debug, Clone, PartialEq)]
pub enum JsonValue {
    Null,
    Bool(bool),
    Number(serde_json::Number),
    String(String),
    Array(Vec<serde_json::Value>),
    Object(serde_json::Map<String, serde_json::Value>),
}

/// What `serde_json` reads from the JSON text `text`: the value, or the
/// message of the error it reports.
pub uninterp spec fn json_text(text: Seq<char>) -> Result<JsonValue, Seq<char>>;

/// Reads JSON text with `serde_json::from_str::<serde_json::Value>` and
/// tells the outermost form of the value apart; an error becomes its
/// message (`Display`). Claimed: the value and the message are those that
/// `serde_json` gives for this text, a function of the text alone. Not
/// claimed: anything about which texts are valid JSON, or what value a
/// given text holds.
#[verifier::external_body]
pub(crate) fn parse_json_text(text: &str) -> (r: Result<JsonValue, String>)
    ensures
        json_text(text@) == match r {
            Ok(v) => Ok(v),
            Err(m) => Err(m@),
        },
{
    match serde_json::from_str::<serde_json::Value>(text) {
        Ok(serde_json::Value::Null) => Ok(JsonValue::Null),
        Ok(serde_json::Value::Bool(b)) => Ok(JsonValue::Bool(b)),
        Ok(serde_json::Value::Number(n)) => Ok(JsonValue::Number(n)),
        Ok(serde_json::Value::String(s)) => Ok(JsonValue::String(s)),
        Ok(serde_json::Value::Array(a)) => Ok(JsonValue::Array(a)),
        Ok(serde_json::Value::Object(m)) => Ok(JsonValue::Object(m)),
        Err(e) => Err(e.to_string()),
    }
}

/// The compact JSON text (as UTF-8 bytes) that `serde_json` writes for `v`.
pub uninterp spec fn json_encoding(v: serde_json::Value) -> Seq<u8>;

/// Writes `v` as compact JSON with `serde_json::to_vec`. Claimed: the
/// bytes are those that `serde_json` writes for this value, a function of
/// the value alone. `to_vec` fails only for maps with non-string keys,
/// which a `serde_json::Value` cannot hold, so the call does not fail.
#[verifier::external_body]
pub(crate) fn encode_value(v: &serde_json::Value) -> (bytes: Vec<u8>)
    ensures
        bytes@ == json_encoding(*v),
{
    serde_json::to_vec(v).expect("a JSON value always serializes")
}

} // verus!
