//! JSON texts, read and written by `serde_json`.

use vstd::prelude::*;

verus! {

/// A JSON value as `serde_json` holds it.
#[verifier::external_type_specification]
#[verifier::external_body]
pub struct ExValue(serde_json::Value);

/// What `serde_json` reads a text as: nothing where it is no JSON value; else the
/// members of the object that it is, none where it is no object. Each member is
/// given by the text that it is, if it is one, and by the natural number that it
/// is, if it is one that 64 bits hold.
pub uninterp spec fn json_object(text: Seq<char>) -> Option<
    Map<Seq<char>, (Option<Seq<char>>, Option<u64>)>,
>;

/// The members of a JSON value, as `json_object` gives them.
pub uninterp spec fn json_members(value: serde_json::Value) -> Map<
    Seq<char>,
    (Option<Seq<char>>, Option<u64>),
>;

/// The JSON string literal that `serde_json` writes for a text.
pub uninterp spec fn json_literal(text: Seq<char>) -> Seq<char>;

/// What the member `key` of an object is as a text.
pub open spec fn text_member(
    members: Map<Seq<char>, (Option<Seq<char>>, Option<u64>)>,
    key: Seq<char>,
) -> Option<Seq<char>> {
    if members.contains_key(key) {
        members[key].0
    } else {
        None
    }
}

/// What the member `key` of an object is as a natural number.
pub open spec fn count_member(
    members: Map<Seq<char>, (Option<Seq<char>>, Option<u64>)>,
    key: Seq<char>,
) -> Option<u64> {
    if members.contains_key(key) {
        members[key].1
    } else {
        None
    }
}

/// `serde_json::from_str` into a `serde_json::Value`: whether it reads the text,
/// and the members of what it reads, depend on the text alone.
#[verifier::external_body]
pub(crate) fn parse(text: &str) -> (r: Option<serde_json::Value>)
    ensures
        r is Some <==> json_object(text@) is Some,
        r matches Some(value) ==> json_object(text@) == Some(json_members(value)),
{
    serde_json::from_str(text).ok()
}

/// `serde_json::Value::get` with a key, then `as_str`: the member's text where the
/// value is an object that has the member and the member is a string.
#[verifier::external_body]
pub(crate) fn text_at(value: &serde_json::Value, key: &str) -> (r: Option<String>)
    ensures
        crate::text::opt(r) == text_member(json_members(*value), key@),
{
    value.get(key).and_then(|member| member.as_str()).map(str::to_owned)
}

/// `serde_json::Value::get` with a key, then `as_u64`: the member's number where
/// the value is an object that has the member and the member is a natural number
/// that 64 bits hold.
#[verifier::external_body]
pub(crate) fn count_at(value: &serde_json::Value, key: &str) -> (r: Option<u64>)
    ensures
        r == count_member(json_members(*value), key@),
{
    value.get(key).and_then(|member| member.as_u64())
}

/// `serde_json::Value::as_object`, then `serde_json::Map::keys`: the names of the
/// members that the value has, none where it is no object. Nothing is said of
/// their order.
#[verifier::external_body]
pub(crate) fn keys(value: &serde_json::Value) -> (r: Vec<String>)
    ensures
        forall|key: Seq<char>|
            crate::text::views(r@).contains(key) <==> json_members(*value).contains_key(key),
{
    match value.as_object() {
        Some(members) => members.keys().cloned().collect(),
        None => Vec::new(),
    }
}

/// `serde_json::to_string` of a text: it fails for no text, and what it writes
/// depends on the text alone.
#[verifier::external_body]
pub(crate) fn literal(text: &str) -> (r: Option<String>)
    ensures
        crate::text::opt(r) == Some(json_literal(text@)),
{
    serde_json::to_string(text).ok()
}

} // verus!
