//! What the library takes from the crates `serde_json` and `bytes`.
//!
//! Nothing in this file is proved. Each item names the outside function that it calls and says what
//! is claimed of it; the rest of the library is proved from these claims. They are about
//! `serde_json` with its default features: numbers are 64-bit integers or doubles, objects are
//! ordered by key, and the parser limits nesting.

use crate::digits::digit_runs_fit;
use crate::json::Json;
use vstd::prelude::*;

verus! {

/// `serde_json::Value`, a JSON document in memory. What one holds is named by [`json`].
#[verifier::external_type_specification]
#[verifier::external_body]
pub struct ExValue(serde_json::Value);

/// The document that a `serde_json::Value` holds.
pub uninterp spec fn json(value: serde_json::Value) -> Json;

/// `serde_json::Value::get` with a string: the member of that name, where the value is an object and
/// has one.
#[verifier::external_body]
pub(crate) fn value_get<'a>(value: &'a serde_json::Value, key: &str) -> (found: Option<
    &'a serde_json::Value,
>)
    ensures
        match json(*value).member(key@) {
            Some(member) => found matches Some(inner) && json(*inner) == member,
            None => found is None,
        },
{
    value.get(key)
}

/// `serde_json::Value::get_mut` with a string: the member of that name, where the value is an object
/// and has one. What is written through the reference becomes the member, and nothing else changes.
#[verifier::external_body]
pub(crate) fn value_get_mut<'a>(value: &'a mut serde_json::Value, key: &str) -> (found: Option<
    &'a mut serde_json::Value,
>)
    ensures
        match json(*old(value)).member(key@) {
            Some(member) => {
                &&& found is Some
                &&& json(*found.unwrap()) == member
                &&& json(*final(value)) == json(*old(value)).with_member(
                    key@,
                    json(*final(found.unwrap())),
                )
            },
            None => found is None && json(*final(value)) == json(*old(value)),
        },
{
    value.get_mut(key)
}

/// `serde_json::Value::as_u64`: the integer, where the value is one that is neither negative nor too
/// large. A float is no integer, whatever its value.
#[verifier::external_body]
pub(crate) fn value_as_u64(value: &serde_json::Value) -> (count: Option<u64>)
    ensures
        count == json(*value).as_count(),
{
    value.as_u64()
}

/// `serde_json::Value::as_array`: the items, where the value is an array.
#[verifier::external_body]
pub(crate) fn value_as_array(value: &serde_json::Value) -> (items: Option<&Vec<serde_json::Value>>)
    ensures
        match json(*value) {
            Json::Array(model) => {
                &&& items is Some
                &&& items.unwrap()@.len() == model.len()
                &&& forall|i: int|
                    0 <= i < model.len() ==> json(#[trigger] items.unwrap()@[i]) == model[i]
            },
            _ => items is None,
        },
{
    value.as_array()
}

/// `serde_json::Value::is_object`: whether the value is an object.
#[verifier::external_body]
pub(crate) fn value_is_object(value: &serde_json::Value) -> (answer: bool)
    ensures
        answer == (json(*value) is Object),
{
    value.is_object()
}

/// `<serde_json::Value as IndexMut<&str>>::index_mut`, assigned through: sets the member of that
/// name, whether or not it is there, and keeps the others. On most values that are no objects it
/// panics, so the value has to be one.
#[verifier::external_body]
pub(crate) fn value_set(value: &mut serde_json::Value, key: &str, member: serde_json::Value)
    requires
        json(*old(value)) is Object,
    ensures
        json(*final(value)) == json(*old(value)).with_member(key@, json(member)),
{
    value[key] = member;
}

/// `<serde_json::Value as From<u64>>::from`: the number as an integer.
#[verifier::external_body]
pub(crate) fn value_from_u64(count: u64) -> (value: serde_json::Value)
    ensures
        json(value) == Json::Integer(count as int),
{
    serde_json::Value::from(count)
}

/// `serde_json::Map::new`, as a value: the object without members.
#[verifier::external_body]
pub(crate) fn value_empty_object() -> (value: serde_json::Value)
    ensures
        json(value) == Json::Object(Map::empty()),
{
    serde_json::Value::Object(serde_json::Map::new())
}

/// How many levels of arrays and objects the documents that [`parse_json`] gives have at most. The
/// parser gives an error for a text that is nested deeper.
pub const MAX_NESTING: usize = 127;

/// The document that `serde_json::from_slice::<serde_json::Value>` reads from a text, or `None` where
/// it gives an error.
pub uninterp spec fn parsed(text: Seq<u8>) -> Option<Json>;

/// `serde_json::from_slice::<serde_json::Value>`: whether a text is JSON, and which document it
/// holds, depends on the text alone; and the document is nested within the limit. Which document a
/// given text holds is not said.
///
/// The parser counts the digits of a number in an `i32`, and with overflow checks it panics where
/// there are too many, so no run of digits may be longer than that.
#[verifier::external_body]
pub(crate) fn parse_json(text: &[u8]) -> (value: Option<serde_json::Value>)
    requires
        digit_runs_fit(text@),
    ensures
        match parsed(text@) {
            Some(document) => value matches Some(held) && json(held) == document,
            None => value is None,
        },
        value matches Some(held) ==> json(held).nests_within(MAX_NESTING as nat),
{
    serde_json::from_slice::<serde_json::Value>(text).ok()
}

/// The text that `serde_json::to_vec` writes for a document.
pub uninterp spec fn encoded(document: Json) -> Seq<u8>;

/// `serde_json::to_vec` on a value: it gives no error, since a value has only strings for keys and is
/// written to memory, and the text depends on the document alone. The text is compact and escapes
/// control characters, so it holds no byte below a space. Parsed again, it gives a document that
/// differs at most in the values of floats, and where there are no floats it gives the same document.
///
/// It recurses into the value, so the nesting has to be within the limit. Whether the text of a
/// document with floats is parsed without an error is not said, nor to which float each is.
#[verifier::external_body]
pub(crate) fn encode_json(value: &serde_json::Value) -> (text: Option<Vec<u8>>)
    requires
        json(*value).nests_within(MAX_NESTING as nat),
    ensures
        text is Some,
        text.unwrap()@ == encoded(json(*value)),
        forall|i: int| 0 <= i < text.unwrap()@.len() ==> #[trigger] text.unwrap()@[i] >= 0x20,
        parsed(text.unwrap()@) matches Some(document) ==> json(*value).same_but_floats(document),
        json(*value).without_floats() ==> parsed(text.unwrap()@) == Some(json(*value)),
{
    serde_json::to_vec(value).ok()
}

/// `bytes::Bytes`, a buffer of bytes that is not changed once it is made. What one holds is named by
/// [`content`].
#[verifier::external_type_specification]
#[verifier::external_body]
pub struct ExBytes(bytes::Bytes);

/// The bytes that a `bytes::Bytes` holds.
pub uninterp spec fn content(buffer: bytes::Bytes) -> Seq<u8>;

/// `<bytes::Bytes as From<Vec<u8>>>::from`: a buffer that holds the bytes of the vector.
#[verifier::external_body]
pub(crate) fn bytes_from_vec(vec: Vec<u8>) -> (buffer: bytes::Bytes)
    ensures
        content(buffer) == vec@,
{
    bytes::Bytes::from(vec)
}

/// `<bytes::Bytes as Deref>::deref`: the bytes that the buffer holds.
#[verifier::external_body]
pub(crate) fn bytes_as_slice(buffer: &bytes::Bytes) -> (slice: &[u8])
    ensures
        slice@ == content(*buffer),
{
    buffer
}

} // verus!
