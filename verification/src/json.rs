//! JSON values out of text.

use serde_json::Value;
use vstd::prelude::*;

verus! {

/// The JSON value that `serde_json` reads from a text, or `None` where the text is not JSON.
pub uninterp spec fn parsed_json(text: Seq<char>) -> Option<Value>;

/// `serde_json::from_str`: the value that the text denotes. Which texts are JSON, and what they
/// denote, is left to `serde_json`.
#[verifier::external_body]
fn parse(text: &str) -> (r: Option<Value>)
    ensures
        r == parsed_json(text@),
{
    serde_json::from_str(text).ok()
}

/// `serde_json::Value::default`: the null value, which is what the text `null` denotes.
#[verifier::external_body]
fn null() -> (r: Value)
    ensures
        parsed_json("null"@) == Some(r),
{
    Value::default()
}

/// The value that a text denotes; null where it denotes none.
pub open spec fn value_or_null(text: Seq<char>) -> Value {
    match parsed_json(text) {
        Some(value) => value,
        None => parsed_json("null"@)->0,
    }
}

/// The value that a text denotes; null where it denotes none.
pub fn read_value(text: &str) -> (r: Value)
    ensures
        r == value_or_null(text@),
{
    match parse(text) {
        Some(value) => value,
        None => null(),
    }
}

} // verus!
