//! JSON documents, read through `serde_json`. The documents themselves are
//! opaque here: what is known of one is what the functions below report.

use vstd::prelude::*;

verus! {

/// `serde_json::Value`, a JSON document, carried through as it is.
#[verifier::external_type_specification]
#[verifier::external_body]
pub struct ExValue(serde_json::Value);

/// `serde_json::Error`, what a parse fails with, carried through as it is.
#[verifier::external_type_specification]
#[verifier::external_body]
pub struct ExError(serde_json::Error);

/// What `serde_json::from_str` makes of a text: the document, or the error.
pub uninterp spec fn parsed(text: Seq<char>) -> Result<serde_json::Value, serde_json::Error>;

/// The message of a parse error, as its `Display` gives it.
pub uninterp spec fn message_of(error: serde_json::Error) -> Seq<char>;

/// The member that `Value::get` finds under a key: present only in a JSON
/// object that holds the key.
pub uninterp spec fn member(doc: serde_json::Value, key: Seq<char>) -> Option<serde_json::Value>;

/// The elements of a JSON array, as `Value::as_array` gives them.
pub uninterp spec fn elements(doc: serde_json::Value) -> Option<Seq<serde_json::Value>>;

/// The content of a JSON string, as `Value::as_str` gives it.
pub uninterp spec fn string_of(doc: serde_json::Value) -> Option<Seq<char>>;

/// The value of a JSON number that fits `u64`, as `Value::as_u64` gives it.
pub uninterp spec fn unsigned_of(doc: serde_json::Value) -> Option<u64>;

/// Whether the document is a JSON object, as `Value::is_object` tells.
pub uninterp spec fn is_object(doc: serde_json::Value) -> bool;

/// The compact JSON text of a document, as its `Display` writes it.
pub uninterp spec fn rendered(doc: serde_json::Value) -> Seq<char>;

/// Calls `serde_json::from_str` for a `Value`. The outcome depends on the
/// text alone, so it is named: `parsed`.
#[verifier::external_body]
pub(crate) fn parse(text: &str) -> (outcome: Result<serde_json::Value, serde_json::Error>)
    ensures
        outcome == parsed(text@),
{
    serde_json::from_str::<serde_json::Value>(text)
}

/// Renders a `serde_json::Error` through its `Display`.
#[verifier::external_body]
pub(crate) fn error_message(error: &serde_json::Error) -> (message: String)
    ensures
        message@ == message_of(*error),
{
    error.to_string()
}

/// Calls `Value::get` with a string key: `None` unless the document is an
/// object that holds the key.
#[verifier::external_body]
pub(crate) fn get<'a>(doc: &'a serde_json::Value, key: &str) -> (found: Option<
    &'a serde_json::Value,
>)
    ensures
        match found {
            Some(v) => member(*doc, key@) == Some(*v),
            None => member(*doc, key@) is None,
        },
{
    doc.get(key)
}

/// Calls `Value::as_array`: the elements of an array, `None` for any other
/// document.
#[verifier::external_body]
pub(crate) fn as_array<'a>(doc: &'a serde_json::Value) -> (items: Option<
    &'a Vec<serde_json::Value>,
>)
    ensures
        match items {
            Some(v) => elements(*doc) == Some(v@),
            None => elements(*doc) is None,
        },
{
    doc.as_array()
}

/// Calls `Value::as_str`: the content of a string, `None` for any other
/// document.
#[verifier::external_body]
pub(crate) fn as_str<'a>(doc: &'a serde_json::Value) -> (content: Option<&'a str>)
    ensures
        match content {
            Some(s) => string_of(*doc) == Some(s@),
            None => string_of(*doc) is None,
        },
{
    doc.as_str()
}

/// Calls `Value::as_u64`.
#[verifier::external_body]
pub(crate) fn as_u64(doc: &serde_json::Value) -> (number: Option<u64>)
    ensures
        number == unsigned_of(*doc),
{
    doc.as_u64()
}

/// Calls `Value::is_object`.
#[verifier::external_body]
pub(crate) fn value_is_object(doc: &serde_json::Value) -> (b: bool)
    ensures
        b == is_object(*doc),
{
    doc.is_object()
}

/// Renders a document through its `Display`, which writes compact JSON.
#[verifier::external_body]
pub(crate) fn render(doc: &serde_json::Value) -> (text: String)
    ensures
        text@ == rendered(*doc),
{
    doc.to_string()
}

} // verus!
