//! JSON text. Reading text into a document and writing a document as text
//! are serde_json's work; what this library takes from it is stated here and
//! believed, not proved.
use vstd::prelude::*;
use crate::json::document::{Json, JsonValue};

verus! {

/// A parsed JSON value of serde_json.
#[verifier::external_type_specification]
#[verifier::external_body]
pub struct ExValue(serde_json::Value);

/// The error with which serde_json refuses a text.
#[verifier::external_type_specification]
#[verifier::external_body]
pub struct ExError(serde_json::Error);

/// Why a text was refused.
#[derive(Clone, Copy, Debug, PartialEq, Eq, Structural)]
pub enum Category {
    /// Bytes could not be read.
    Io,
    /// The text is not JSON.
    Syntax,
    /// The text is JSON of another shape than was asked for.
    Data,
    /// The text ends too early.
    Eof,
}

/// Why and where a text was refused.
#[derive(Clone, Copy, Debug, PartialEq, Eq, Structural)]
pub struct JsonFault {
    pub category: Category,
    /// Line of the fault, counted from 1.
    pub line: usize,
    /// Column of the fault, counted from 1.
    pub column: usize,
}

/// What `serde_json::from_str` makes of a text: the document that the text
/// denotes, or the fault it finds.
pub uninterp spec fn json_parse(text: Seq<char>) -> Result<JsonValue, JsonFault>;

/// The document that a value of serde_json holds.
pub uninterp spec fn value_document(value: serde_json::Value) -> JsonValue;

/// The category, line and column that an error of serde_json holds.
pub uninterp spec fn error_fault(error: serde_json::Error) -> JsonFault;

/// The text that serde_json writes for a value that holds the document.
pub uninterp spec fn json_text(document: JsonValue) -> Seq<char>;

/// `serde_json::from_str` at the type `serde_json::Value`. The contract
/// claims that the outcome depends on the text alone: the same text gives a
/// value with the same content, or an error with the same category, line and
/// column.
#[verifier::external_body]
pub(crate) fn parse_text(text: &str) -> (parsed: Result<serde_json::Value, serde_json::Error>)
    ensures
        match parsed {
            Ok(value) => json_parse(text@) == Ok::<JsonValue, JsonFault>(value_document(value)),
            Err(error) => json_parse(text@) == Err::<JsonValue, JsonFault>(error_fault(error)),
        },
{
    serde_json::from_str::<serde_json::Value>(text)
}

/// Copies a `serde_json::Value` into a document, variant by variant. A
/// number becomes a count where `serde_json::Number::as_u64` gives one. An
/// object's members are taken from `serde_json::Map::iter`, which yields
/// each key once. The contract claims that the copy has the content of the
/// value.
#[verifier::external_body]
pub(crate) fn document_of(value: &serde_json::Value) -> (document: Json)
    ensures
        document@ == value_document(*value),
{
    match value {
        serde_json::Value::Null => Json::Null,
        serde_json::Value::Bool(b) => Json::Bool(*b),
        serde_json::Value::Number(n) => match n.as_u64() {
            Some(count) => Json::Count(count),
            None => Json::OtherNumber,
        },
        serde_json::Value::String(s) => Json::Text(s.clone()),
        serde_json::Value::Array(items) => Json::Array(items.iter().map(document_of).collect()),
        serde_json::Value::Object(map) => Json::Object(
            map.iter().map(|(key, item)| (key.clone(), document_of(item))).collect(),
        ),
    }
}

/// Copies what `serde_json::Error::classify`, `line` and `column` return.
/// The contract claims that these three are what the error holds.
#[verifier::external_body]
pub(crate) fn fault_of(error: &serde_json::Error) -> (fault: JsonFault)
    ensures
        fault == error_fault(*error),
{
    JsonFault {
        category: match error.classify() {
            serde_json::error::Category::Io => Category::Io,
            serde_json::error::Category::Syntax => Category::Syntax,
            serde_json::error::Category::Data => Category::Data,
            serde_json::error::Category::Eof => Category::Eof,
        },
        line: error.line(),
        column: error.column(),
    }
}

/// Builds a `serde_json::Value` from a document, variant by variant: a count
/// through `From<u64>`, an object by collecting its members into a
/// `serde_json::Map`, where a later member replaces an earlier one with its
/// key. The contract claims that the value has the content of the document.
/// A document with an inexact number is left out: no value stands for it.
#[verifier::external_body]
pub(crate) fn value_of(document: &Json) -> (value: serde_json::Value)
    requires
        document@.is_exact(),
    ensures
        value_document(value) == document@,
{
    match document {
        Json::Null | Json::OtherNumber => serde_json::Value::Null,
        Json::Bool(b) => serde_json::Value::Bool(*b),
        Json::Count(n) => serde_json::Value::from(*n),
        Json::Text(s) => serde_json::Value::String(s.clone()),
        Json::Array(items) => serde_json::Value::Array(items.iter().map(value_of).collect()),
        Json::Object(entries) => serde_json::Value::Object(
            entries.iter().map(|(key, item)| (key.clone(), value_of(item))).collect(),
        ),
    }
}

/// `to_string` on a `serde_json::Value`, which writes compact JSON. The
/// contract claims that the text depends on the content of the value alone;
/// serde_json is built with its members ordered by key. A value with an
/// inexact number is left out: its content does not say which number it is.
#[verifier::external_body]
pub(crate) fn text_of(value: &serde_json::Value) -> (text: String)
    requires
        value_document(*value).is_exact(),
    ensures
        text@ == json_text(value_document(*value)),
{
    value.to_string()
}

} // verus!
