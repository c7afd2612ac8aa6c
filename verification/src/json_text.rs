//! Reading JSON text with `serde_json`, and what is believed of it.
use vstd::prelude::*;
use crate::json::{Json, JsonValue, Member};

verus! {

/// The tree type of `serde_json`.
#[verifier::external_type_specification]
#[verifier::external_body]
pub struct ExSerdeValue(serde_json::Value);

/// What a `serde_json::Value` holds: null, a boolean, the text of a number,
/// the bytes of a string, the items of an array, or the members of an object
/// in the order in which the value walks them.
pub uninterp spec fn serde_tree(v: serde_json::Value) -> Json;

/// The tree that `serde_json::from_str` reads from a text, where it reads one.
pub uninterp spec fn parsed_json(text: Seq<char>) -> Option<Json>;

/// Calls `serde_json::from_str`, and `to_string` on its error. Believed:
/// whether it succeeds, and the tree it gives, depend on the text alone.
#[verifier::external_body]
fn read_value(text: &str) -> (r: Result<serde_json::Value, String>)
    ensures
        match r {
            Ok(v) => parsed_json(text@) == Some(serde_tree(v)),
            Err(_) => parsed_json(text@) is None,
        },
{
    serde_json::from_str(text).map_err(|e: serde_json::Error| e.to_string())
}

/// Moves what a `serde_json::Value` holds into a tree of this library, one
/// variant for one, a number by its text.
#[verifier::external_body]
fn tree_of(v: &serde_json::Value) -> (r: JsonValue)
    ensures
        r@ == serde_tree(*v),
{
    match v {
        serde_json::Value::Null => JsonValue::Null,
        serde_json::Value::Bool(b) => JsonValue::Bool(*b),
        serde_json::Value::Number(n) => JsonValue::Number(n.to_string().into_bytes()),
        serde_json::Value::String(s) => JsonValue::String(s.clone().into_bytes()),
        serde_json::Value::Array(a) => JsonValue::Array(a.iter().map(tree_of).collect()),
        serde_json::Value::Object(o) => JsonValue::Object(
            o.iter().map(|(k, v)| Member { key: k.clone().into_bytes(), value: tree_of(v) }).collect(),
        ),
    }
}

/// The tree that a JSON text spells, or the reader's message where the text
/// is no JSON.
pub fn parse_json(text: &str) -> (r: Result<JsonValue, String>)
    ensures
        match r {
            Ok(tree) => parsed_json(text@) == Some(tree@),
            Err(_) => parsed_json(text@) is None,
        },
{
    match read_value(text) {
        Ok(v) => Ok(tree_of(&v)),
        Err(msg) => Err(msg),
    }
}

} // verus!
