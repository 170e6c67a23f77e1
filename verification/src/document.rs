//! Parsed JSON documents, read through the `serde_json` crate.
use crate::table;
use vstd::prelude::*;

verus! {

/// A parsed document: `serde_json`'s dynamic value.
#[verifier::external_type_specification]
#[verifier::external_body]
pub struct ExValue(serde_json::Value);

/// What a parsed document holds.
pub enum Tree {
    Null,
    Bool(bool),
    /// An integer from 0 to `u64::MAX`.
    Unsigned(u64),
    /// Any other number.
    OtherNumber,
    Text(Seq<char>),
    List(Seq<Tree>),
    /// Members under distinct names, in the order in which they are walked.
    Record(Seq<(Seq<char>, Tree)>),
}

/// What the parsed document `v` holds.
pub uninterp spec fn tree(v: serde_json::Value) -> Tree;

/// What the JSON text `s` holds, or `None` where it is no JSON.
pub uninterp spec fn json_tree(s: Seq<char>) -> Option<Tree>;

/// Read JSON with `serde_json::from_str`. What it makes of the text, and which
/// texts it takes, is `json_tree`.
#[verifier::external_body]
pub(crate) fn read_json(s: &str) -> (r: Option<serde_json::Value>)
    ensures
        match r {
            Some(v) => json_tree(s@) == Some(tree(v)),
            None => json_tree(s@) is None,
        },
{
    serde_json::from_str(s).ok()
}

/// The members of a record.
pub open spec fn members_of(t: Tree) -> Option<Seq<(Seq<char>, Tree)>> {
    match t {
        Tree::Record(members) => Some(members),
        _ => None,
    }
}

/// The member of a record under `name`.
pub open spec fn member_of(t: Tree, name: Seq<char>) -> Option<Tree> {
    match t {
        Tree::Record(members) => table::lookup(members, name),
        _ => None,
    }
}

/// The items of a list.
pub open spec fn items_of(t: Tree) -> Option<Seq<Tree>> {
    match t {
        Tree::List(items) => Some(items),
        _ => None,
    }
}

/// The number in `t`, if it is an integer from 0 to `u64::MAX`.
pub open spec fn number_of(t: Tree) -> Option<u64> {
    match t {
        Tree::Unsigned(n) => Some(n),
        _ => None,
    }
}

/// The truth value in `t`.
pub open spec fn bool_of(t: Tree) -> Option<bool> {
    match t {
        Tree::Bool(b) => Some(b),
        _ => None,
    }
}

/// The text in `t`.
pub open spec fn text_of(t: Tree) -> Option<Seq<char>> {
    match t {
        Tree::Text(s) => Some(s),
        _ => None,
    }
}

/// What several parsed documents hold.
pub open spec fn trees(v: Seq<serde_json::Value>) -> Seq<Tree> {
    v.map_values(|x: serde_json::Value| tree(x))
}

/// What several named documents hold.
pub open spec fn named_trees(v: Seq<(&String, &serde_json::Value)>) -> Seq<(Seq<char>, Tree)> {
    v.map_values(|m: (&String, &serde_json::Value)| (m.0@, tree(*m.1)))
}

/// The members of an object, by `Value::as_object` and `Map::iter`: all of them,
/// in the map's order.
#[verifier::external_body]
pub(crate) fn members(v: &serde_json::Value) -> (r: Option<Vec<(&String, &serde_json::Value)>>)
    ensures
        match r {
            Some(m) => members_of(tree(*v)) == Some(named_trees(m@)),
            None => members_of(tree(*v)) is None,
        },
{
    v.as_object().map(|m| m.iter().collect())
}

/// The member of an object under `name`, by `Value::get`, which finds nothing
/// in a value of another kind.
#[verifier::external_body]
pub(crate) fn member<'a>(v: &'a serde_json::Value, name: &str) -> (r: Option<&'a serde_json::Value>)
    ensures
        match r {
            Some(x) => member_of(tree(*v), name@) == Some(tree(*x)),
            None => member_of(tree(*v), name@) is None,
        },
{
    v.get(name)
}

/// The items of an array, by `Value::as_array`.
#[verifier::external_body]
pub(crate) fn items(v: &serde_json::Value) -> (r: Option<&Vec<serde_json::Value>>)
    ensures
        match r {
            Some(a) => items_of(tree(*v)) == Some(trees(a@)),
            None => items_of(tree(*v)) is None,
        },
{
    v.as_array()
}

/// The number in a value, by `Value::as_u64`, which takes no negative number
/// and nothing that was written as a fraction.
#[verifier::external_body]
pub(crate) fn number(v: &serde_json::Value) -> (r: Option<u64>)
    ensures
        r == number_of(tree(*v)),
{
    v.as_u64()
}

/// The truth value in a value, by `Value::as_bool`.
#[verifier::external_body]
pub(crate) fn truth(v: &serde_json::Value) -> (r: Option<bool>)
    ensures
        r == bool_of(tree(*v)),
{
    v.as_bool()
}

/// The text in a value, by `Value::as_str`.
#[verifier::external_body]
pub(crate) fn string(v: &serde_json::Value) -> (r: Option<&str>)
    ensures
        match r {
            Some(s) => text_of(tree(*v)) == Some(s@),
            None => text_of(tree(*v)) is None,
        },
{
    v.as_str()
}

} // verus!
