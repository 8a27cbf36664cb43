//! Trusted declarations for reading a provider document through
//! `serde_json`: one named result for the range fields the extractor pulls
//! out of a document, and the one wrapper that computes it.

use vstd::prelude::*;

verus! {

/// Whether the text is well-formed JSON; whether `serde_json::from_str`
/// succeeds depends on the characters of the text alone.
pub uninterp spec fn json_wellformed(s: Seq<char>) -> bool;

/// The range fields serde_json reads out of a document: when `text` parses
/// as JSON and `pointer` resolves to an array within it, one entry per
/// array element in order, holding the element's string value under `key`
/// (absent when the element is no object, lacks the key, or holds a
/// non-string there); `None` when the text is not JSON or the pointer does
/// not lead to an array. serde_json computes all of this from the three
/// texts alone.
pub uninterp spec fn doc_fields(text: Seq<char>, pointer: Seq<char>, key: Seq<char>) -> Option<
    Seq<Option<Seq<char>>>,
>;

/// Why a document yields no range fields at all.
#[derive(Debug, PartialEq, Eq, Structural)]
pub enum DocumentFault {
    /// The text is not well-formed JSON.
    NotJson,
    /// The text is JSON, but the pointer does not lead to an array.
    NotAnArray,
}

/// The fields as plain character sequences.
pub open spec fn fields_view(v: Seq<Option<String>>) -> Seq<Option<Seq<char>>> {
    Seq::new(
        v.len(),
        |i: int|
            if v[i] is Some {
                Some(v[i].unwrap()@)
            } else {
                None
            },
    )
}

/// Relies on serde_json: `from_str::<Value>` parses the text exactly when
/// it is well-formed JSON; `Value::pointer` resolves the JSON-Pointer path;
/// `Value::as_array` exposes the array's elements; `Value::get` and
/// `Value::as_str` read each element's `key` member. Each computes from its
/// arguments alone, so the composed outcome is a function of the three
/// texts.
#[verifier::external_body]
pub(crate) fn document_fields(
    text: &str,
    pointer: &str,
    key: &str,
) -> (r: Result<Vec<Option<String>>, DocumentFault>)
    ensures
        r is Ok ==> json_wellformed(text@),
        r matches Err(f) ==> (f == DocumentFault::NotJson <==> !json_wellformed(text@)),
        (r is Ok) <==> doc_fields(text@, pointer@, key@) is Some,
        r matches Ok(v) ==> fields_view(v@) == doc_fields(text@, pointer@, key@).unwrap(),
{
    let doc: serde_json::Value = match serde_json::from_str(text) {
        Ok(d) => d,
        Err(_) => return Err(DocumentFault::NotJson),
    };
    match doc.pointer(pointer).and_then(serde_json::Value::as_array) {
        None => Err(DocumentFault::NotAnArray),
        Some(arr) => Ok(
            arr.iter().map(
                |e| e.get(key).and_then(serde_json::Value::as_str).map(str::to_owned),
            ).collect(),
        ),
    }
}

} // verus!
