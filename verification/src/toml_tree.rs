//! TOML values of the `toml` crate, and what the library relies on in it.
use vstd::prelude::*;

verus! {

/// What a TOML value holds, as far as the library reads it.
pub enum TomlTree {
    Text(Seq<char>),
    Array(Seq<TomlTree>),
    Table(Map<Seq<char>, TomlTree>),
    /// A number, a boolean or a date.
    Other,
}

/// `toml::Value`, of which [`toml_tree`] says what it holds.
#[verifier::external_type_specification]
#[verifier::external_body]
pub struct ExTomlValue(toml::Value);

/// What a TOML value holds.
pub uninterp spec fn toml_tree(value: toml::Value) -> TomlTree;

/// What `toml::from_str` reads in a text; `None` where the text is no TOML document.
pub uninterp spec fn toml_read(text: Seq<char>) -> Option<TomlTree>;

/// The trees of a list of TOML values.
pub open spec fn toml_trees(values: Seq<toml::Value>) -> Seq<TomlTree> {
    Seq::new(values.len(), |i: int| toml_tree(values[i]))
}

/// The entry of a table under `key`; `None` for every other value.
pub open spec fn entry(tree: TomlTree, key: Seq<char>) -> Option<TomlTree> {
    match tree {
        TomlTree::Table(entries) => if entries.dom().contains(key) {
            Some(entries[key])
        } else {
            None
        },
        _ => None,
    }
}

/// `toml::Value::as_str`: the text of a string value, `None` for every other value.
pub assume_specification[ toml::Value::as_str ](value: &toml::Value) -> (r: Option<&str>)
    ensures
        match toml_tree(*value) {
            TomlTree::Text(text) => r is Some && r->Some_0@ == text,
            _ => r is None,
        },
;

/// `toml::Value::as_array`: the items of an array, `None` for every other value.
pub assume_specification[ toml::Value::as_array ](value: &toml::Value) -> (r: Option<
    &Vec<toml::Value>,
>)
    ensures
        match toml_tree(*value) {
            TomlTree::Array(items) => r is Some && toml_trees(r->Some_0@) == items,
            _ => r is None,
        },
;

/// `toml::Value::get` with a text: the entry of a table under that key, `None` for every other
/// value and where there is no such entry.
#[verifier::external_body]
pub(crate) fn toml_get<'a>(value: &'a toml::Value, key: &str) -> (r: Option<&'a toml::Value>)
    ensures
        r is Some <==> entry(toml_tree(*value), key@) is Some,
        r matches Some(found) ==> entry(toml_tree(*value), key@) == Some(toml_tree(*found)),
{
    value.get(key)
}

/// `toml::from_str` into a `toml::Value`: whether it succeeds, and what it reads, is a function of
/// the text alone. The text of its error is dropped.
#[verifier::external_body]
pub(crate) fn toml_from_str(text: &str) -> (r: Option<toml::Value>)
    ensures
        match toml_read(text@) {
            Some(tree) => r is Some && toml_tree(r->Some_0) == tree,
            None => r is None,
        },
{
    toml::from_str::<toml::Value>(text).ok()
}

} // verus!
