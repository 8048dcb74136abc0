//! The JSON codec behind the library: `serde_json` reads documents and prints
//! values. Nothing in this module is proved; each item says what it takes on
//! trust from that crate.

use crate::json::{Json, JsonView};
use vstd::prelude::*;

verus! {

/// `serde_json::Number`, carried through evaluation without being looked
/// into.
#[verifier::external_type_specification]
#[verifier::external_body]
pub struct ExNumber(serde_json::Number);

/// `serde_json::Value`, the codec's own document type.
#[verifier::external_type_specification]
#[verifier::external_body]
pub struct ExValue(serde_json::Value);

/// `serde_json::Error`, the codec's diagnostic.
#[verifier::external_type_specification]
#[verifier::external_body]
pub struct ExError(serde_json::Error);

/// `Clone` on `serde_json::Number` copies the number: the clone is the same
/// number as the original.
pub assume_specification[ <serde_json::Number as Clone>::clone ](n: &serde_json::Number) -> (r:
    serde_json::Number)
    ensures
        r == *n,
;

/// The document that `serde_json::from_str` reads from a text, or `None`
/// where it rejects the text.
pub uninterp spec fn json_document(text: Seq<char>) -> Option<JsonView>;

/// The text that `serde_json::to_string_pretty` prints for a value, or
/// `None` where it gives an error.
pub uninterp spec fn pretty_text(value: JsonView) -> Option<Seq<char>>;

/// Moves a `serde_json::Value` into a [`Json`], variant by variant. The
/// fields of an object come in the order in which `serde_json::Map` hands
/// them out. Nothing is claimed of the result here; see [`from_str`].
#[verifier::external_body]
pub(crate) fn from_codec(value: serde_json::Value) -> Json {
    match value {
        serde_json::Value::Null => Json::Null,
        serde_json::Value::Bool(b) => Json::Bool(b),
        serde_json::Value::Number(n) => Json::Number(n),
        serde_json::Value::String(s) => Json::String(s),
        serde_json::Value::Array(items) => Json::Array(
            items.into_iter().map(from_codec).collect(),
        ),
        serde_json::Value::Object(fields) => Json::Object(
            fields.into_iter().map(|(name, v)| (name, from_codec(v))).collect(),
        ),
    }
}

/// Copies a [`Json`] into a `serde_json::Value`, variant by variant. The
/// fields of an object are collected into a `serde_json::Map`. Nothing is
/// claimed of the result here; see [`to_string_pretty`].
#[verifier::external_body]
pub(crate) fn to_codec(value: &Json) -> serde_json::Value {
    match value {
        Json::Null => serde_json::Value::Null,
        Json::Bool(b) => serde_json::Value::Bool(*b),
        Json::Number(n) => serde_json::Value::Number(n.clone()),
        Json::String(s) => serde_json::Value::String(s.clone()),
        Json::Array(items) => serde_json::Value::Array(items.iter().map(to_codec).collect()),
        Json::Object(fields) => serde_json::Value::Object(
            fields.iter().map(|(name, v)| (name.clone(), to_codec(v))).collect(),
        ),
    }
}

/// `serde_json::from_str`, with the document it reads moved into a
/// [`Json`]. What it gives depends on the text alone, so the result has a
/// name, [`json_document`]: the claim is that the call succeeds where the
/// name is `Some`, and then returns that document. A document that was read
/// is well formed, because `serde_json::Map` holds each key once.
#[verifier::external_body]
pub(crate) fn from_str(text: &str) -> (r: Result<Json, serde_json::Error>)
    ensures
        r is Ok <==> json_document(text@) is Some,
        r matches Ok(value) ==> json_document(text@) == Some(value@) && value@.well_formed(),
{
    match serde_json::from_str::<serde_json::Value>(text) {
        Ok(value) => Ok(from_codec(value)),
        Err(e) => Err(e),
    }
}

/// `serde_json::to_string_pretty`, on a copy of a [`Json`]. What it gives
/// depends on the value alone, so the result has a name, [`pretty_text`]:
/// the claim is that the call succeeds where the name is `Some`, and then
/// returns that text.
#[verifier::external_body]
pub(crate) fn to_string_pretty(value: &Json) -> (r: Result<String, serde_json::Error>)
    ensures
        r is Ok <==> pretty_text(value@) is Some,
        r matches Ok(text) ==> pretty_text(value@) == Some(text@),
{
    serde_json::to_string_pretty(&to_codec(value))
}

/// The message of a `serde_json::Error`, as its `Display` writes it. Nothing
/// is claimed of the message.
#[verifier::external_body]
pub(crate) fn error_text(e: &serde_json::Error) -> String {
    e.to_string()
}

} // verus!
