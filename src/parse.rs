//! Reading a line of text as a JSON value, through serde_json.
use vstd::prelude::*;
use crate::json::{JsonValue, json_wf};
use serde_json::Value;

verus! {

#[verifier::external_type_specification]
#[verifier::external_body]
pub struct ExValue(Value);

/// The JSON value that serde_json reads from `line`, if it is JSON.
pub uninterp spec fn json_of(line: Seq<char>) -> Option<JsonValue>;

/// Converts a serde_json value into the library's tree, one variant for one:
/// numbers that fit `u64` or `i64` become integers, others keep serde_json's
/// text; object members keep their order.
#[verifier::external_body]
fn json_from_serde(v: &Value) -> JsonValue {
    match v {
        Value::Null => JsonValue::Null,
        Value::Bool(b) => JsonValue::Bool(*b),
        Value::Number(n) => match (n.as_u64(), n.as_i64()) {
            (Some(u), _) => JsonValue::UInt(u),
            (_, Some(i)) => JsonValue::NegInt(i),
            _ => JsonValue::Float(n.to_string()),
        },
        Value::String(s) => JsonValue::Str(s.clone()),
        Value::Array(a) => JsonValue::Array(a.iter().map(json_from_serde).collect()),
        Value::Object(o) => JsonValue::Object(
            o.iter().map(|(k, x)| (k.clone(), json_from_serde(x))).collect(),
        ),
    }
}

/// Relies on `serde_json::from_str::<serde_json::Value>`: the result depends on
/// the text alone; a `serde_json::Map` holds each key once, and a non-integer
/// number is written by serde_json as a JSON number literal.
#[verifier::external_body]
pub(crate) fn parse_json(line: &str) -> (r: Option<JsonValue>)
    ensures
        r == json_of(line@),
        r matches Some(v) ==> json_wf(v),
{
    serde_json::from_str::<serde_json::Value>(line).ok().map(|v| json_from_serde(&v))
}

} // verus!
