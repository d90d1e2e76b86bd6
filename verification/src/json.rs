//! The JSON handling of manifest payloads, carried out by serde_json behind
//! trusted declarations: the library treats the payload as opaque bytes and
//! only asks whether they parse, and for a pretty-printed rendering.

use vstd::prelude::*;

verus! {

/// Whether the byte string is one valid JSON document (as serde_json's
/// deserializer for `Value` accepts it: one value, optionally surrounded by
/// whitespace, nothing trailing).
pub uninterp spec fn is_valid_json(b: Seq<u8>) -> bool;

/// The pretty-printed rendering of a valid JSON document, as serde_json
/// produces it: parse the bytes to a `Value`, then serialize with two-space
/// indentation. A function of the bytes alone.
pub uninterp spec fn json_pretty_of(b: Seq<u8>) -> Seq<char>;

#[verifier::external_type_specification]
#[verifier::external_body]
pub struct ExJsonError(serde_json::Error);

/// Relies on serde_json::from_slice::<Value> and serde_json::to_string_pretty.
/// Parsing returns `Ok` exactly when the bytes form one valid JSON document,
/// and its verdict depends on the bytes alone. Serializing the parsed `Value`
/// cannot fail (its maps carry string keys, its numbers are plain primitives,
/// and the writer is an in-memory buffer) and depends on the bytes alone, so
/// the rendered text is a function of the input: `json_pretty_of`.
#[verifier::external_body]
pub(crate) fn json_render(data: &[u8]) -> (r: Result<String, serde_json::Error>)
    ensures
        r is Ok == is_valid_json(data@),
        r matches Ok(s) ==> s@ == json_pretty_of(data@),
{
    let value: serde_json::Value = serde_json::from_slice(data)?;
    serde_json::to_string_pretty(&value)
}

/// Relies on serde_json::Error's Display impl for the diagnostic text of a
/// parse failure.
#[verifier::external_body]
pub(crate) fn json_error_message(e: &serde_json::Error) -> String {
    e.to_string()
}

} // verus!
