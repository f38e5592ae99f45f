//! The boundary between JSON text and the `Json` model.
//!
//! Parsing and printing JSON text are delegated to serde_json; everything
//! else in this crate works on `Json` values. Both directions are
//! deterministic functions of their argument, so their results are named by
//! the uninterpreted functions `json_parse` and `json_text`.

use vstd::prelude::*;

use crate::json::{Json, JsonV};

verus! {

#[verifier::external_type_specification]
#[verifier::external_body]
pub struct ExJsonValue(serde_json::Value);

/// What serde_json parses the given text into, translated to the model:
/// `None` when the text is not valid JSON.
pub uninterp spec fn json_parse(s: Seq<char>) -> Option<JsonV>;

/// The text serde_json prints for the given value.
pub uninterp spec fn json_text(j: JsonV) -> Seq<char>;

/// Relies on serde_json::Value: each arm moves one variant's payload into the
/// library's own model. A number outside i64 keeps its printed form.
#[verifier::external_body]
fn from_value(v: serde_json::Value) -> Json {
    match v {
        serde_json::Value::Null => Json::Null,
        serde_json::Value::Bool(b) => Json::Bool(b),
        serde_json::Value::Number(n) => match n.as_i64() {
            Some(i) => Json::Int(i),
            None => Json::NumLit(n.to_string()),
        },
        serde_json::Value::String(s) => Json::Str(s),
        serde_json::Value::Array(a) => Json::Arr(a.into_iter().map(from_value).collect()),
        serde_json::Value::Object(o) => Json::Obj(
            o.into_iter().map(|(k, w)| (k, from_value(w))).collect(),
        ),
    }
}

/// Relies on serde_json::Value and serde_json::Number::from_str: each arm
/// moves one model variant back; a `NumLit` that does not read back as a
/// JSON number becomes null.
#[verifier::external_body]
fn to_value(j: &Json) -> serde_json::Value {
    match j {
        Json::Null => serde_json::Value::Null,
        Json::Bool(b) => serde_json::Value::Bool(*b),
        Json::Int(i) => serde_json::Value::Number(serde_json::Number::from(*i)),
        Json::NumLit(s) => match s.parse::<serde_json::Number>() {
            Ok(n) => serde_json::Value::Number(n),
            Err(_) => serde_json::Value::Null,
        },
        Json::Str(s) => serde_json::Value::String(s.clone()),
        Json::Arr(items) => serde_json::Value::Array(items.iter().map(to_value).collect()),
        Json::Obj(entries) => serde_json::Value::Object(
            entries.iter().map(|(k, w)| (k.clone(), to_value(w))).collect(),
        ),
    }
}

/// Relies on serde_json::from_str: parses JSON text, or fails exactly on
/// text that is not a JSON document. The outcome depends on the text alone.
#[verifier::external_body]
pub fn json_from_str(s: &str) -> (r: Option<Json>)
    ensures
        match r {
            Some(j) => json_parse(s@) == Some(j@),
            None => json_parse(s@) is None,
        },
{
    match serde_json::from_str::<serde_json::Value>(s) {
        Ok(v) => Some(from_value(v)),
        Err(_) => None,
    }
}

/// Relies on serde_json::to_string: prints a JSON value; printing a
/// `serde_json::Value` cannot fail, and the text depends on the value alone.
#[verifier::external_body]
pub fn json_to_string(j: &Json) -> (r: String)
    ensures
        r@ == json_text(j@),
{
    match serde_json::to_string(&to_value(j)) {
        Ok(s) => s,
        Err(_) => String::new(),
    }
}

} // verus!
