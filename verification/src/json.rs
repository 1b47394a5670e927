//! The two things this library asks of a JSON implementation: to read the
//! entries of an object, and to write a text as a JSON string.

use vstd::prelude::*;

verus! {

/// The entries of the JSON object that `text` holds, in the order in which
/// the parser's map yields them: each key, and the value where it is a
/// string. Nothing where `text` is not JSON or holds another kind of value.
pub uninterp spec fn json_object(text: Seq<char>) -> Option<Seq<(Seq<char>, Option<Seq<char>>)>>;

/// `text` written as a JSON string, with its quotes and escapes.
pub uninterp spec fn json_string(text: Seq<char>) -> Option<Seq<char>>;

/// `serde_json::from_str` at `serde_json::Value`, then `Value::as_object` and
/// `Value::as_str` to hand the object's entries out as plain values. The
/// contract only names the result: what it holds is decided by serde_json.
#[verifier::external_body]
pub(crate) fn parse_object(text: &str) -> (entries: Option<Vec<(String, Option<String>)>>)
    ensures
        entries.deep_view() == json_object(text@),
{
    let value: serde_json::Value = serde_json::from_str(text).ok()?;
    let object = value.as_object()?;
    let mut entries = Vec::new();
    for (key, item) in object.iter() {
        entries.push((key.clone(), item.as_str().map(String::from)));
    }
    Some(entries)
}

/// `serde_json::to_string` at `str`. The contract names the result, and adds
/// what the serializer's escape table shows: a line feed in the text is
/// written as an escape, so none stands in the result.
#[verifier::external_body]
pub(crate) fn quote(text: &str) -> (quoted: Option<String>)
    ensures
        quoted.deep_view() == json_string(text@),
        quoted matches Some(written) ==> !written@.contains('\n'),
{
    serde_json::to_string(text).ok()
}

} // verus!
