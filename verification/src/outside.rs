//! The library's few calls into outside crates, each behind a trusted item.
//!
//! Everything else in the crate is verified against the contracts stated
//! here, so each contract says no more than the outside crate's source and
//! documentation plainly show.

use vstd::prelude::*;

use crate::json::{Json, JsonV};

verus! {

/// What parsing a text as JSON yields, as this library's tree: `None` when
/// the text is not one well-formed JSON document.  The result depends on
/// the text alone; its value on given characters is stated nowhere, so
/// nothing about the outside parser is believed beyond determinism.
pub uninterp spec fn json_of(s: Seq<char>) -> Option<JsonV>;

#[verifier::external_type_specification]
#[verifier::external_body]
pub struct ExValue(serde_json::Value);

/// Relies on the shape of `serde_json::Value`: the parsed tree is carried
/// over node for node, in field order.  A number that `Number::as_i64`
/// reads as an integer becomes `Json::Int`; any other number keeps its
/// text, as `Number`'s `Display` writes it.
#[verifier::external_body]
fn value_to_json(v: &serde_json::Value) -> Json {
    match v {
        serde_json::Value::Null => Json::Null,
        serde_json::Value::Bool(b) => Json::Bool(*b),
        serde_json::Value::Number(n) => match n.as_i64() {
            Some(i) => Json::Int(i),
            None => Json::Num(n.to_string()),
        },
        serde_json::Value::String(s) => Json::Str(s.clone()),
        serde_json::Value::Array(a) => Json::Arr(a.iter().map(value_to_json).collect()),
        serde_json::Value::Object(o) => Json::Obj(
            o.iter().map(|(k, x)| (k.clone(), value_to_json(x))).collect(),
        ),
    }
}

/// Relies on `serde_json::from_str`: it parses the text, or fails, on the
/// strength of the text alone, so its result carries the name [`json_of`].
#[verifier::external_body]
pub(crate) fn parse_json(s: &str) -> (r: Option<Json>)
    ensures
        match r {
            Some(j) => json_of(s@) == Some(j@),
            None => json_of(s@) is None,
        },
{
    match serde_json::from_str::<serde_json::Value>(s) {
        Ok(v) => Some(value_to_json(&v)),
        Err(_) => None,
    }
}

/// Relies on `uuid::Uuid::now_v7` and its `Display`: the hyphenated text
/// form of a UUID is 36 characters.  Nothing is stated about which
/// characters: the value depends on the clock and on randomness.  (On a
/// system clock set before the Unix epoch the call aborts the process; no
/// input of this function can exclude that.)
#[verifier::external_body]
pub(crate) fn fresh_uuid() -> (r: String)
    ensures
        r@.len() == 36,
{
    format!("{}", uuid::Uuid::now_v7())
}

} // verus!
