//! Reading JSON text, which is left to `serde_json`.

use vstd::prelude::*;
use crate::json::{Json, JsonValue, Num};

verus! {

/// `serde_json::Value`, which is carried from the parser to `lift`.
#[verifier::external_type_specification]
#[verifier::external_body]
pub struct ExValue(serde_json::Value);

/// `serde_json::Error`, of which nothing is read.
#[verifier::external_type_specification]
#[verifier::external_body]
pub struct ExError(serde_json::Error);

/// What `serde_json::from_str` makes of a text: the value that it reads from
/// it, and `None` where it reports an error.
pub uninterp spec fn document_of(text: Seq<char>) -> Option<JsonValue>;

/// The JSON value that a `serde_json::Value` holds.
pub uninterp spec fn value_of(v: serde_json::Value) -> JsonValue;

/// Calls `serde_json::from_str` for a `serde_json::Value`.
///
/// Trusted: the outcome depends on the text alone, so it is the one that
/// `document_of` names.
#[verifier::external_body]
fn parse_value(text: &str) -> (r: Result<serde_json::Value, serde_json::Error>)
    ensures
        match r {
            Ok(v) => document_of(text@) == Some(value_of(v)),
            Err(_) => document_of(text@) is None,
        },
{
    serde_json::from_str::<serde_json::Value>(text)
}

/// Copies a `serde_json::Value` into a `Json`, variant by variant.
///
/// Trusted: the copy stands for the value that `v` holds. A number
/// is an integer where `serde_json::Number::as_i128` gives one, and else the
/// bits of what `as_f64` gives. The members of an object are those of its
/// `serde_json::Map`, which holds no key twice.
#[verifier::external_body]
fn lift(v: &serde_json::Value) -> (j: Json)
    ensures
        j@ == value_of(*v),
        j.wf(),
{
    match v {
        serde_json::Value::Null => Json::Null,
        serde_json::Value::Bool(b) => Json::Bool(*b),
        serde_json::Value::Number(n) => Json::Number(match n.as_i128() {
            Some(i) => Num::Int(i),
            None => Num::Float(n.as_f64().unwrap_or_default().to_bits()),
        }),
        serde_json::Value::String(s) => Json::String(s.clone()),
        serde_json::Value::Array(a) => Json::Array(a.iter().map(lift).collect()),
        serde_json::Value::Object(m) => Json::Object(
            m.iter().map(|(k, x)| (k.clone(), lift(x))).collect(),
        ),
    }
}

/// Reads one JSON value from `text`.
///
/// Returns the value exactly when `serde_json` accepts the text; the value is
/// then well formed. Returns `None` when it rejects the text.
pub fn parse_record(text: &str) -> (r: Option<Json>)
    ensures
        match r {
            Some(j) => document_of(text@) == Some(j@) && j.wf(),
            None => document_of(text@) is None,
        },
{
    match parse_value(text) {
        Ok(v) => Some(lift(&v)),
        Err(_) => None,
    }
}

} // verus!
