//! Reading JSON text into trees and writing trees as JSON text.
//!
//! Both directions are the work of `serde_json`. This module only carries the
//! values across: what the parser accepts and what the printer writes is
//! named here, not restated.

use crate::json::{Json, JsonValue};
use vstd::prelude::*;

verus! {

/// `serde_json::Value`, carried between the functions below as it is: nothing
/// in this library looks inside one.
#[verifier::external_type_specification]
#[verifier::external_body]
pub struct ExValue(serde_json::Value);

/// The tree that a `serde_json::Value` holds, with the fields of each object
/// in the order in which `serde_json` walks them.
pub uninterp spec fn value_tree(value: serde_json::Value) -> JsonValue;

/// The tree that `serde_json` reads from `text`, or `None` where it rejects
/// `text`: the text must be one JSON value, with nothing but white space
/// around it.
pub uninterp spec fn json_parse(text: Seq<u8>) -> Option<JsonValue>;

/// The tree that `serde_json` holds once it was handed `tree`: its maps keep
/// one field per name, in their own order, and numbers are read from their text.
pub uninterp spec fn json_stored(tree: JsonValue) -> JsonValue;

/// The compact JSON text that `serde_json` writes for a value that holds `tree`.
pub uninterp spec fn json_text(tree: JsonValue) -> Seq<char>;

/// `serde_json::from_slice`, read as a `serde_json::Value`: the value read
/// from the whole of `text`, `None` where the parser reports an error.
#[verifier::external_body]
fn read_value(text: &[u8]) -> (r: Option<serde_json::Value>)
    ensures
        match r {
            Some(value) => json_parse(text@) == Some(value_tree(value)),
            None => json_parse(text@) is None,
        },
{
    serde_json::from_slice::<serde_json::Value>(text).ok()
}

/// Moves a `serde_json::Value` into a `Json`, variant by variant:
/// `Number::as_i64` tells the integers of 64 signed bits from the other
/// numbers, which are kept as the text that `Number` displays.
#[verifier::external_body]
fn tree_of_value(value: serde_json::Value) -> (r: Json)
    ensures
        r@ == value_tree(value),
{
    match value {
        serde_json::Value::Null => Json::Null,
        serde_json::Value::Bool(b) => Json::Bool(b),
        serde_json::Value::Number(n) => match n.as_i64() {
            Some(i) => Json::Int(i),
            None => Json::Number(n.to_string()),
        },
        serde_json::Value::String(s) => Json::String(s),
        serde_json::Value::Array(a) => Json::Array(a.into_iter().map(tree_of_value).collect()),
        serde_json::Value::Object(m) => Json::Object(
            m.into_iter().map(|(k, v)| (k, tree_of_value(v))).collect(),
        ),
    }
}

/// Builds the `serde_json::Value` for a `Json`, variant by variant. A number
/// kept as text is read by `Number::from_str`, and is null where that fails;
/// the fields of an object are collected into a `serde_json::Map`.
#[verifier::external_body]
fn value_of_tree(tree: &Json) -> (r: serde_json::Value)
    ensures
        value_tree(r) == json_stored(tree@),
{
    match tree {
        Json::Null => serde_json::Value::Null,
        Json::Bool(b) => serde_json::Value::Bool(*b),
        Json::Int(i) => serde_json::Value::from(*i),
        Json::Number(t) => t.parse::<serde_json::Number>().map_or(
            serde_json::Value::Null,
            serde_json::Value::Number,
        ),
        Json::String(s) => serde_json::Value::String(s.clone()),
        Json::Array(a) => serde_json::Value::Array(a.iter().map(value_of_tree).collect()),
        Json::Object(f) => serde_json::Value::Object(
            f.iter().map(|(k, v)| (k.clone(), value_of_tree(v))).collect(),
        ),
    }
}

/// `Display` of `serde_json::Value`: the compact JSON text of the value.
#[verifier::external_body]
fn write_value(value: &serde_json::Value) -> (r: String)
    ensures
        r@ == json_text(value_tree(*value)),
{
    value.to_string()
}

/// The view of a tree that may be absent.
pub open spec fn view_of(tree: Option<Json>) -> Option<JsonValue> {
    match tree {
        Some(j) => Some(j@),
        None => None,
    }
}

/// Reads `text` as one JSON value.
pub fn parse(text: &[u8]) -> (r: Option<Json>)
    ensures
        view_of(r) == json_parse(text@),
{
    match read_value(text) {
        Some(value) => Some(tree_of_value(value)),
        None => None,
    }
}

/// Writes `tree` as compact JSON text.
pub fn render(tree: &Json) -> (r: String)
    ensures
        r@ == json_text(json_stored(tree@)),
{
    let value = value_of_tree(tree);
    write_value(&value)
}

} // verus!
