//! The boundary to the external JSON text parser: `serde_json` turns raw
//! text into its own value tree, which is converted, one node for one node,
//! into the loader's [`JsonValue`]. Only this module is trusted; everything
//! downstream of the converted tree is verified.

use crate::catalog::BuildErrV;
use crate::catalog::BuilderError;
use crate::catalog::Catalog;
use crate::catalog::CatalogV;
use crate::catalog::from_json;
use crate::catalog::spec_from_json;
use crate::json::JsonValue;
use vstd::prelude::*;

verus! {

#[verifier::external_type_specification]
#[verifier::external_body]
pub struct ExValue(serde_json::Value);

#[verifier::external_type_specification]
#[verifier::external_body]
#[verifier::reject_recursive_types(K)]
#[verifier::reject_recursive_types(V)]
pub struct ExMap<K, V>(serde_json::Map<K, V>);

/// Relies on `serde_json::Map::iter`: converts an object's fields, one for
/// one, in the map's iteration order.
#[verifier::external_body]
fn convert_fields(m: &serde_json::Map<String, serde_json::Value>) -> (r: Vec<(String, JsonValue)>) {
    m.iter().map(|(k, x)| (k.clone(), convert_value(x))).collect()
}

/// Relies on `slice::iter`: converts an array's elements, one for one, in
/// order.
#[verifier::external_body]
fn convert_items(a: &Vec<serde_json::Value>) -> (r: Vec<JsonValue>) {
    a.iter().map(convert_value).collect()
}

/// Relies on the shape of `serde_json::Value`: each node is copied into the
/// corresponding `JsonValue` node, field for field; a number that is not an
/// `i64` and every other node kind become `Other`.
#[verifier::external_body]
fn convert_value(v: &serde_json::Value) -> (r: JsonValue) {
    match v {
        serde_json::Value::Object(m) => JsonValue::Object(convert_fields(m)),
        serde_json::Value::Array(a) => JsonValue::Array(convert_items(a)),
        serde_json::Value::String(s) => JsonValue::Str(s.clone()),
        serde_json::Value::Number(n) => match n.as_i64() {
            Some(i) => JsonValue::Int(i),
            None => JsonValue::Other,
        },
        _ => JsonValue::Other,
    }
}

/// The tree that a JSON text parses to, or the parse-error message: what
/// the adapter's parse-and-convert returns. The parse depends on the text
/// alone, so the result can be named.
pub uninterp spec fn spec_parse_text(s: Seq<char>) -> Result<JsonValue, Seq<char>>;

/// Relies on `serde_json::from_str`: parses JSON text into a value tree, or
/// reports the parser's error as its message. Both depend on the text
/// alone; the outcome is named `spec_parse_text`.
#[verifier::external_body]
fn parse_json_text(s: &str) -> (r: Result<JsonValue, String>)
    ensures
        match (r, spec_parse_text(s@)) {
            (Ok(js), Ok(t)) => js == t,
            (Err(m), Err(e)) => m@ == e,
            _ => false,
        },
{
    match serde_json::from_str::<serde_json::Value>(s) {
        Ok(v) => Ok(convert_value(&v)),
        Err(e) => Err(e.to_string()),
    }
}

/// Loads the catalog from JSON text: the external parser turns the text
/// into a tree, and the verified loader does the rest. When the text parses
/// to a tree, the result is exactly that tree's catalog or load error; a
/// text the parser rejects fails with `Json` and the parser's message,
/// never swallowed or converted.
pub fn from_str(s: &str) -> (r: Result<Catalog, BuilderError>)
    ensures
        match spec_parse_text(s@) {
            Ok(t) => match r {
                Ok(c) => c.wf() && spec_from_json(t) == Ok::<CatalogV, BuildErrV>(c@),
                Err(e) => spec_from_json(t) == Err::<CatalogV, BuildErrV>(e@),
            },
            Err(m) => (r matches Err(e) && e@ == BuildErrV::Json(m)),
        },
{
    match parse_json_text(s) {
        Ok(js) => from_json(&js),
        Err(m) => Err(BuilderError::Json(m)),
    }
}

} // verus!
