//! JSON values of the `serde_json` crate, and what the library relies on in it.
use vstd::prelude::*;

verus! {

/// What a JSON value holds.
pub enum JsonTree {
    Null,
    Bool(bool),
    /// A number, by the digits that it is written with.
    Number(Seq<char>),
    Text(Seq<char>),
    Array(Seq<JsonTree>),
    Object(Map<Seq<char>, JsonTree>),
}

/// `serde_json::Value`, of which [`json_tree`] says what it holds.
#[verifier::external_type_specification]
#[verifier::external_body]
pub struct ExJsonValue(serde_json::Value);

/// What a JSON value holds.
pub uninterp spec fn json_tree(value: serde_json::Value) -> JsonTree;

/// What `serde_json::from_str` reads in a text: the value, or the text of the error.
pub uninterp spec fn json_read(text: Seq<char>) -> Result<JsonTree, Seq<char>>;

/// What `serde_json::to_string` writes for a value.
pub uninterp spec fn json_written(tree: JsonTree) -> Seq<char>;

/// The trees of a list of JSON values.
pub open spec fn json_trees(values: Seq<serde_json::Value>) -> Seq<JsonTree> {
    Seq::new(values.len(), |i: int| json_tree(values[i]))
}

/// The member of an object that has the name `key`; `None` for every other value.
pub open spec fn member(tree: JsonTree, key: Seq<char>) -> Option<JsonTree> {
    match tree {
        JsonTree::Object(members) => if members.dom().contains(key) {
            Some(members[key])
        } else {
            None
        },
        _ => None,
    }
}

/// The members that a list of named values makes, a later one in place of an earlier one of the
/// same name.
pub open spec fn members_of(entries: Seq<(String, serde_json::Value)>) -> Map<Seq<char>, JsonTree>
    decreases entries.len(),
{
    if entries.len() == 0 {
        Map::empty()
    } else {
        members_of(entries.drop_last()).insert(entries.last().0@, json_tree(entries.last().1))
    }
}

/// `serde_json::Value::as_str`: the text of a string value, `None` for every other value.
pub assume_specification[ serde_json::Value::as_str ](value: &serde_json::Value) -> (r: Option<
    &str,
>)
    ensures
        match json_tree(*value) {
            JsonTree::Text(text) => r is Some && r->Some_0@ == text,
            _ => r is None,
        },
;

/// `serde_json::Value::get` with a text: the member of that name of an object, `None` for every
/// other value and where there is no such member.
#[verifier::external_body]
pub(crate) fn json_get<'a>(value: &'a serde_json::Value, key: &str) -> (r: Option<
    &'a serde_json::Value,
>)
    ensures
        r is Some <==> member(json_tree(*value), key@) is Some,
        r matches Some(found) ==> member(json_tree(*value), key@) == Some(json_tree(*found)),
{
    value.get(key)
}

/// `serde_json::from_str` into a `serde_json::Value`: what it reads, or the text of its error, is
/// a function of the text alone.
#[verifier::external_body]
pub(crate) fn json_from_str(text: &str) -> (r: Result<serde_json::Value, String>)
    ensures
        match json_read(text@) {
            Ok(tree) => r is Ok && json_tree(r->Ok_0) == tree,
            Err(message) => r is Err && r->Err_0@ == message,
        },
{
    serde_json::from_str::<serde_json::Value>(text).map_err(|err| err.to_string())
}

/// `serde_json::to_string` of a `serde_json::Value`: it never fails, since every key is a text
/// and the output grows in memory, and what it writes depends on what the value holds only. The
/// values that are written here were read by `serde_json::from_str`, which bounds their depth.
#[verifier::external_body]
pub(crate) fn json_to_string(value: &serde_json::Value) -> (r: Result<String, String>)
    ensures
        r is Ok,
        r->Ok_0@ == json_written(json_tree(*value)),
{
    serde_json::to_string(value).map_err(|err| err.to_string())
}

/// `serde_json::Value::from` on a text: the string value.
#[verifier::external_body]
pub(crate) fn json_text(text: &str) -> (r: serde_json::Value)
    ensures
        json_tree(r) == JsonTree::Text(text@),
{
    serde_json::Value::from(text)
}

/// `serde_json::Value::from` on a `bool`: the boolean value.
#[verifier::external_body]
pub(crate) fn json_bool(value: bool) -> (r: serde_json::Value)
    ensures
        json_tree(r) == JsonTree::Bool(value),
{
    serde_json::Value::from(value)
}

/// `serde_json::Value::from` on a list of values: the array of them, in order.
#[verifier::external_body]
pub(crate) fn json_array(items: Vec<serde_json::Value>) -> (r: serde_json::Value)
    ensures
        json_tree(r) == JsonTree::Array(json_trees(items@)),
{
    serde_json::Value::from(items)
}

/// `serde_json::Value::from_iter` on named values: the object of them, where a later value takes
/// the place of an earlier one of the same name.
#[verifier::external_body]
pub(crate) fn json_object(entries: Vec<(String, serde_json::Value)>) -> (r: serde_json::Value)
    ensures
        json_tree(r) == JsonTree::Object(members_of(entries@)),
{
    serde_json::Value::from_iter(entries)
}

} // verus!
