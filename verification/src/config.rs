//! Reading structured configuration values.

use vstd::prelude::*;

verus! {

/// `toml::Value`, carried through verified code without looking inside.
#[verifier::external_type_specification]
#[verifier::external_body]
pub struct ExValue(toml::Value);

/// What a configuration value holds, as far as the model reads it: text, a
/// list, a table keyed by text, or anything else.
pub enum ConfigTree {
    Text(Seq<char>),
    Array(Seq<ConfigTree>),
    Table(Map<Seq<char>, ConfigTree>),
    Other,
}

/// The content of a configuration value. Nothing is known of it but what
/// the accessors below report.
pub uninterp spec fn config_tree(value: toml::Value) -> ConfigTree;

/// The entry stored under `key`, where `tree` is a table that has one.
pub open spec fn tree_field(tree: ConfigTree, key: Seq<char>) -> Option<ConfigTree> {
    match tree {
        ConfigTree::Table(entries) => if entries.contains_key(key) {
            Some(entries[key])
        } else {
            None
        },
        _ => None,
    }
}

/// The contents of each value of `values`, in order.
pub open spec fn config_trees(values: Seq<toml::Value>) -> Seq<ConfigTree> {
    Seq::new(values.len(), |i: int| config_tree(values[i]))
}

/// Calls `toml::Value::get` with a text key. Trusted: the result is the
/// entry under `key` when the value is a table that has such an entry, and
/// nothing otherwise.
#[verifier::external_body]
pub(crate) fn field<'a>(value: &'a toml::Value, key: &str) -> (found: Option<&'a toml::Value>)
    ensures
        match found {
            Some(inner) => tree_field(config_tree(*value), key@) == Some(config_tree(*inner)),
            None => tree_field(config_tree(*value), key@) is None,
        },
{
    value.get(key)
}

/// Calls `toml::Value::as_str`. Trusted: the result is the text of a text
/// value, and nothing for every other value.
#[verifier::external_body]
pub(crate) fn text<'a>(value: &'a toml::Value) -> (found: Option<&'a str>)
    ensures
        match found {
            Some(content) => config_tree(*value) == ConfigTree::Text(content@),
            None => !(config_tree(*value) is Text),
        },
{
    value.as_str()
}

/// Calls `toml::Value::as_array`. Trusted: the result is the items of an
/// array value, in order, and nothing for every other value.
#[verifier::external_body]
pub(crate) fn items<'a>(value: &'a toml::Value) -> (found: Option<&'a Vec<toml::Value>>)
    ensures
        match found {
            Some(list) => config_tree(*value) == ConfigTree::Array(config_trees(list@)),
            None => !(config_tree(*value) is Array),
        },
{
    value.as_array()
}

/// Whether two texts hold the same characters.
pub fn same_text(left: &str, right: &str) -> (same: bool)
    ensures
        same == (left@ == right@),
{
    let left_owned = left.to_owned();
    let right_owned = right.to_owned();
    left_owned == right_owned
}

} // verus!
