//! Reading and writing JSON text.

use vstd::prelude::*;

use crate::text;

verus! {

broadcast use vstd::string::group_string_axioms;

/// The string that `serde_json::Value::pointer` and `Value::as_str` find in a JSON text at a
/// pointer: none where the text is not JSON, nothing is there, or what is there is no string.
pub uninterp spec fn json_str_at(json: Seq<char>, pointer: Seq<char>) -> Option<Seq<char>>;

/// What `serde_json::from_str` has against a text, if it is not JSON.
pub uninterp spec fn json_fault(json: Seq<char>) -> Option<Seq<char>>;

/// `serde_json::from_str` to a `Value`, then `Value::pointer` and `Value::as_str`: the string at a
/// place of a JSON text.
#[verifier::external_body]
pub(crate) fn str_at(json: &str, pointer: &str) -> (r: Option<String>)
    ensures
        text::opt_string(r) == json_str_at(json@, pointer@),
{
    let value = serde_json::from_str::<serde_json::Value>(json).ok()?;
    value.pointer(pointer)?.as_str().map(String::from)
}

/// `serde_json::from_str` to a `Value`: its error as text, where it returns one.
#[verifier::external_body]
pub(crate) fn parse_fault(json: &str) -> (r: Option<String>)
    ensures
        text::opt_string(r) == json_fault(json@),
{
    serde_json::from_str::<serde_json::Value>(json).err().map(|e| e.to_string())
}

/// Whether a key stands for itself in a pointer.
pub open spec fn is_plain_key(key: Seq<char>) -> bool {
    forall|i: int| 0 <= i < key.len() ==> #[trigger] key[i] != '/' && key[i] != '~'
}

/// The pointer to a member of an object.
pub open spec fn member(key: Seq<char>) -> Seq<char> {
    seq!['/'] + key
}

/// `serde_json::Value::to_string` of an object with the given members, all of them strings. What
/// is read back at a key is the last value given for it; at other keys there is nothing.
#[verifier::external_body]
pub(crate) fn object_text(members: Vec<(String, String)>) -> (r: String)
    ensures
        forall|i: int|
            #![trigger members@[i]]
            0 <= i < members@.len() && is_plain_key(members@[i].0@) && (forall|j: int|
                i < j < members@.len() ==> (#[trigger] members@[j]).0@ != members@[i].0@)
                ==> json_str_at(r@, member(members@[i].0@)) == Some(members@[i].1@),
        forall|key: Seq<char>|
            is_plain_key(key) && (forall|j: int|
                0 <= j < members@.len() ==> (#[trigger] members@[j]).0@ != key) ==> (
            #[trigger] json_str_at(r@, member(key))) is None,
{
    let object: serde_json::Map<String, serde_json::Value> = members.into_iter().map(
        |(key, value)| (key, serde_json::Value::String(value)),
    ).collect();
    serde_json::Value::Object(object).to_string()
}

} // verus!
