//! Questions about a JSON document.
use vstd::prelude::*;
use crate::names::name_of;

verus! {

/// A JSON value of `serde_json`, as an opaque value.
#[verifier::external_type_specification]
#[verifier::external_body]
pub struct ExValue(serde_json::Value);

/// The document that `serde_json::from_slice` reads from these bytes, if they are
/// JSON.
pub uninterp spec fn parsed_json(bytes: Seq<u8>) -> Option<serde_json::Value>;

/// The members of an object; another value has none.
pub uninterp spec fn members_of(value: serde_json::Value) -> Map<Seq<char>, serde_json::Value>;

/// The elements of an array; another value has no list of elements.
pub uninterp spec fn elements_of(value: serde_json::Value) -> Option<Seq<serde_json::Value>>;

/// The text of a string; another value has none.
pub uninterp spec fn string_of(value: serde_json::Value) -> Option<Seq<char>>;

/// `serde_json::from_slice`: whether the bytes are JSON, and which document they
/// are, depends on nothing but the bytes.
#[verifier::external_body]
pub(crate) fn parse_json(bytes: &[u8]) -> (r: Option<serde_json::Value>)
    ensures
        r == parsed_json(bytes@),
{
    serde_json::from_slice::<serde_json::Value>(bytes).ok()
}

/// `serde_json::Value::get` with a string: the member of an object with that key.
#[verifier::external_body]
pub(crate) fn json_member<'a>(value: &'a serde_json::Value, key: &str) -> (r: Option<
    &'a serde_json::Value,
>)
    ensures
        r is Some <==> members_of(*value).contains_key(key@),
        r matches Some(found) ==> *found == members_of(*value)[key@],
{
    value.get(key)
}

/// `serde_json::Value::as_array`: the elements, if the value is an array.
#[verifier::external_body]
pub(crate) fn json_elements(value: &serde_json::Value) -> (r: Option<&Vec<serde_json::Value>>)
    ensures
        r is Some <==> elements_of(*value) is Some,
        r matches Some(elements) ==> elements_of(*value) == Some(elements@),
{
    value.as_array()
}

/// `serde_json::Value::as_str`: the text, if the value is a string.
#[verifier::external_body]
pub(crate) fn json_string(value: &serde_json::Value) -> (r: Option<&str>)
    ensures
        r is Some <==> string_of(*value) is Some,
        r matches Some(text) ==> string_of(*value) == Some(text@),
{
    value.as_str()
}

/// The value under a key, if the value is an object with that key.
pub open spec fn member(value: serde_json::Value, key: Seq<char>) -> Option<serde_json::Value> {
    if members_of(value).contains_key(key) {
        Some(members_of(value)[key])
    } else {
        None
    }
}

/// The length of the array under a key, if there is one.
pub open spec fn array_len_at(value: serde_json::Value, key: Seq<char>) -> Option<usize> {
    match member(value, key) {
        Some(found) => match elements_of(found) {
            Some(elements) => Some(elements.len() as usize),
            None => None,
        },
        None => None,
    }
}

/// The text under `inner` in the object under `outer`, if there is one.
pub open spec fn text_at(
    value: serde_json::Value,
    outer: Seq<char>,
    inner: Seq<char>,
) -> Option<Seq<char>> {
    match member(value, outer) {
        Some(object) => match member(object, inner) {
            Some(found) => string_of(found),
            None => None,
        },
        None => None,
    }
}

/// The length of the array under a key.
pub fn array_len(value: &serde_json::Value, key: &str) -> (r: Option<usize>)
    ensures
        r == array_len_at(*value, key@),
{
    match json_member(value, key) {
        Some(found) => match json_elements(found) {
            Some(elements) => Some(elements.len()),
            None => None,
        },
        None => None,
    }
}

/// The text under `inner` in the object under `outer`.
pub fn nested_text(value: &serde_json::Value, outer: &str, inner: &str) -> (r: Option<String>)
    ensures
        name_of(r) == text_at(*value, outer@, inner@),
{
    match json_member(value, outer) {
        Some(object) => match json_member(object, inner) {
            Some(found) => match json_string(found) {
                Some(text) => Some(text.to_owned()),
                None => None,
            },
            None => None,
        },
        None => None,
    }
}

} // verus!
