//! JSON values, carried as they are, and their text.

use serde_json::Value;
use vstd::prelude::*;

verus! {

#[verifier::external_type_specification]
#[verifier::external_body]
pub struct ExValue(serde_json::Value);

#[verifier::external_type_specification]
#[verifier::external_body]
pub struct ExJsonError(serde_json::Error);

/// `serde_json::Value`'s `Clone`: the same value again.
pub assume_specification[ <serde_json::Value as Clone>::clone ](value: &Value) -> (result: Value)
    ensures
        result == *value,
;

/// What `serde_json::to_string` makes of a value.
pub uninterp spec fn json_text(value: Value) -> Result<Seq<char>, serde_json::Error>;

/// What `serde_json::from_str` makes of a text.
pub uninterp spec fn parsed_json(text: Seq<char>) -> Result<Value, serde_json::Error>;

/// What an error of the `serde_json` crate prints.
pub uninterp spec fn json_error_text(error: serde_json::Error) -> Seq<char>;

/// A `Result` with its text taken by its characters.
pub open spec fn text_view(result: Result<String, serde_json::Error>) -> Result<
    Seq<char>,
    serde_json::Error,
> {
    match result {
        Ok(text) => Ok(text@),
        Err(error) => Err(error),
    }
}

/// The value that `null` stands for.
pub open spec fn null() -> Value {
    parsed_json("null"@)->Ok_0
}

/// `serde_json::Value::default`: what `serde_json::from_str` makes of `null`.
#[verifier::external_body]
pub(crate) fn null_value() -> (value: Value)
    ensures
        value == null(),
{
    Value::default()
}

/// `serde_json::to_string` on a JSON value: a function of the value alone.
#[verifier::external_body]
pub(crate) fn print_json(value: &Value) -> (result: Result<String, serde_json::Error>)
    ensures
        text_view(result) == json_text(*value),
{
    serde_json::to_string(value)
}

/// `serde_json::from_str` for a JSON value: a function of the text alone.
#[verifier::external_body]
pub(crate) fn scan_json(text: &str) -> (result: Result<Value, serde_json::Error>)
    ensures
        result == parsed_json(text@),
{
    serde_json::from_str(text)
}

/// `serde_json::Error`'s `Display`: a function of the error alone.
#[verifier::external_body]
pub(crate) fn print_json_error(error: &serde_json::Error) -> (text: String)
    ensures
        text@ == json_error_text(*error),
{
    error.to_string()
}

/// An optional value again.
pub fn copy_value(value: &Option<Value>) -> (result: Option<Value>)
    ensures
        result == *value,
{
    match value {
        Some(inner) => Some(inner.clone()),
        None => None,
    }
}

} // verus!
