//! Request documents as text, written by serde_json.

use vstd::prelude::*;

use crate::json::JsonView;

verus! {

/// serde_json's value type, carried as it is.
#[verifier::external_type_specification]
#[verifier::external_body]
pub struct ExValue(serde_json::Value);

/// What a `serde_json::Value` holds.
pub uninterp spec fn content(value: serde_json::Value) -> JsonView;

/// The compact text that serde_json's `Display` writes for a value with the given content. The
/// order in which members were put into an object does not matter: its map is sorted by name.
pub uninterp spec fn compact_text(value: JsonView) -> Seq<char>;

/// Calls `serde_json::Map::new`: an object with no members.
#[verifier::external_body]
pub(crate) fn empty_object() -> (r: serde_json::Value)
    ensures
        content(r) == JsonView::Object(Map::empty()),
{
    serde_json::Value::Object(serde_json::Map::new())
}

/// Calls serde_json's `IndexMut` with a name: on an object, the member with that name takes the
/// value assigned to it, and the others keep theirs.
#[verifier::external_body]
pub(crate) fn put(object: &mut serde_json::Value, name: &str, value: serde_json::Value)
    requires
        content(*old(object)) is Object,
    ensures
        content(*final(object)) == JsonView::Object(
            content(*old(object))->Object_0.insert(name@, content(value)),
        ),
{
    object[name] = value;
}

/// Calls `serde_json::Value::from` on a text: a string with the same characters.
#[verifier::external_body]
pub(crate) fn string_value(text: &str) -> (r: serde_json::Value)
    ensures
        content(r) == JsonView::Str(text@),
{
    serde_json::Value::from(text)
}

/// Calls `serde_json::Value::from` on an integer: the number of the same value.
#[verifier::external_body]
pub(crate) fn integer_value(n: i64) -> (r: serde_json::Value)
    ensures
        content(r) == JsonView::integer(n),
{
    serde_json::Value::from(n)
}

/// Calls `serde_json::Value::from` on a boolean: the same boolean.
#[verifier::external_body]
pub(crate) fn boolean_value(b: bool) -> (r: serde_json::Value)
    ensures
        content(r) == JsonView::Bool(b),
{
    serde_json::Value::from(b)
}

/// Calls `serde_json::Value::from` on a vector of one value: an array of that value alone.
#[verifier::external_body]
pub(crate) fn list_of_one(item: serde_json::Value) -> (r: serde_json::Value)
    ensures
        content(r) == JsonView::Array(seq![content(item)]),
{
    serde_json::Value::from(vec![item])
}

/// Calls `to_string` on a `serde_json::Value`, which goes through its `Display`: the compact
/// text of what the value holds.
#[verifier::external_body]
pub(crate) fn to_text(value: &serde_json::Value) -> (text: String)
    ensures
        text@ == compact_text(content(*value)),
{
    value.to_string()
}

} // verus!
