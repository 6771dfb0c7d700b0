//! JSON documents, as the `serde_json` crate holds them.

use vstd::prelude::*;
use vstd::string::*;

verus! {

#[verifier::external_type_specification]
#[verifier::external_body]
pub struct ExValue(serde_json::Value);

/// What a document holds.
pub ghost enum Tree {
    Null,
    Bool(bool),
    /// A whole number, from the least `i64` to the greatest `u64`.
    Integer(int),
    /// Any other number, as it is written.
    Decimal(Seq<char>),
    Text(Seq<char>),
    List(Seq<Tree>),
    Object(Map<Seq<char>, Tree>),
}

/// What a `serde_json::Value` holds.
pub uninterp spec fn tree(v: serde_json::Value) -> Tree;

/// What a text reads as, or how it is refused.
pub uninterp spec fn parsed_json(text: Seq<char>) -> Result<Tree, Seq<char>>;

/// How a document is written over several lines.
pub uninterp spec fn pretty_json(t: Tree) -> Seq<char>;

impl Tree {
    /// The member of an object.
    pub open spec fn member(self, key: Seq<char>) -> Option<Tree> {
        match self {
            Tree::Object(map) => if map.contains_key(key) {
                Some(map[key])
            } else {
                None
            },
            _ => None,
        }
    }

    pub open spec fn text(self) -> Option<Seq<char>> {
        match self {
            Tree::Text(s) => Some(s),
            _ => None,
        }
    }

    pub open spec fn list(self) -> Option<Seq<Tree>> {
        match self {
            Tree::List(items) => Some(items),
            _ => None,
        }
    }

    pub open spec fn unsigned(self) -> Option<u64> {
        match self {
            Tree::Integer(n) if 0 <= n => Some(n as u64),
            _ => None,
        }
    }

    /// The text member of an object.
    pub open spec fn text_member(self, key: Seq<char>) -> Option<Seq<char>> {
        match self.member(key) {
            Some(t) => t.text(),
            None => None,
        }
    }

    /// The list member of an object; empty where it has none.
    pub open spec fn items(self, key: Seq<char>) -> Seq<Tree> {
        match self.member(key) {
            Some(t) => match t.list() {
                Some(items) => items,
                None => Seq::empty(),
            },
            None => Seq::empty(),
        }
    }
}

/// Whether a text reads as a document.
pub open spec fn reads_as(text: Seq<char>, t: Tree) -> bool {
    parsed_json(text) == Ok::<Tree, Seq<char>>(t)
}

/// How deep the lists and objects of a document that is read may stand in one another.
pub const MAX_DEPTH: u8 = 127;

/// The key by which the reader knows a document that is embedded as its text. Of an object
/// that starts with it, the text under it is read in place of the object.
pub const EMBEDDED_KEY: &'static str = "$serde_json::private::RawValue";

/// Whether a document is read back as it was written: its numbers are whole, its lists and
/// objects stand at most `depth` deep in one another, and no object has the key of an
/// embedded document.
pub open spec fn plain(t: Tree, depth: nat) -> bool
    decreases depth,
{
    match t {
        Tree::Decimal(written) => false,
        Tree::List(items) => depth > 0 && forall|i: int|
            0 <= i < items.len() ==> plain(#[trigger] items[i], (depth - 1) as nat),
        Tree::Object(members) => depth > 0 && !members.contains_key(EMBEDDED_KEY@)
            && forall|key: Seq<char>|
            members.contains_key(key) ==> plain(#[trigger] members[key], (depth - 1) as nat),
        _ => true,
    }
}

/// What a list of documents holds.
pub open spec fn trees(list: Seq<serde_json::Value>) -> Seq<Tree> {
    Seq::new(list.len(), |i: int| tree(list[i]))
}

pub open spec fn opt_tree(v: Option<&serde_json::Value>) -> Option<Tree> {
    match v {
        Some(x) => Some(tree(*x)),
        None => None,
    }
}

pub open spec fn opt_str(v: Option<&str>) -> Option<Seq<char>> {
    match v {
        Some(s) => Some(s@),
        None => None,
    }
}

/// `serde_json::from_str` into a `Value`: what the text reads as, or the error's own
/// words.
#[verifier::external_body]
pub(crate) fn read_json(text: &str) -> (r: Result<serde_json::Value, String>)
    ensures
        match r {
            Ok(v) => parsed_json(text@) == Ok::<Tree, Seq<char>>(tree(v)),
            Err(e) => parsed_json(text@) == Err::<Tree, Seq<char>>(e@),
        },
{
    serde_json::from_str::<serde_json::Value>(text).map_err(|e| e.to_string())
}

/// `serde_json::to_string_pretty` of a `Value`. It fails only on a type that refuses to
/// be written, or on a map whose keys are no strings, and a `Value` is neither.
///
/// What it writes is read back by `serde_json::from_str`, a newline after it or not: each
/// text and each whole number exactly, down to the depth that is read. Of a number with a
/// fraction or an exponent that is not said, nor of an object that has `EMBEDDED_KEY`.
#[verifier::external_body]
pub(crate) fn write_json(v: &serde_json::Value) -> (r: Result<String, String>)
    ensures
        r is Ok,
        r->Ok_0@ == pretty_json(tree(*v)),
        plain(tree(*v), MAX_DEPTH as nat) ==> reads_as(r->Ok_0@, tree(*v)),
        plain(tree(*v), MAX_DEPTH as nat) ==> reads_as(r->Ok_0@ + "\n"@, tree(*v)),
{
    serde_json::to_string_pretty(v).map_err(|e| e.to_string())
}

/// `Value::get` by a key: the member of an object, and nothing of anything else.
#[verifier::external_body]
pub(crate) fn get<'a>(v: &'a serde_json::Value, key: &str) -> (r: Option<&'a serde_json::Value>)
    ensures
        opt_tree(r) == tree(*v).member(key@),
{
    v.get(key)
}

/// `Value::as_str`: the text of a string, and nothing of anything else.
#[verifier::external_body]
pub(crate) fn as_text<'a>(v: &'a serde_json::Value) -> (r: Option<&'a str>)
    ensures
        opt_str(r) == tree(*v).text(),
{
    v.as_str()
}

/// `Value::as_array`: the items of a list, and nothing of anything else.
#[verifier::external_body]
pub(crate) fn as_list<'a>(v: &'a serde_json::Value) -> (r: Option<&'a Vec<serde_json::Value>>)
    ensures
        r is Some == (tree(*v) is List),
        r is Some ==> tree(*v).list() == Some(trees(r->0@)),
{
    v.as_array()
}

/// `Value::as_u64`: an unsigned integer, and nothing of anything else.
#[verifier::external_body]
pub(crate) fn as_unsigned(v: &serde_json::Value) -> (r: Option<u64>)
    ensures
        r == tree(*v).unsigned(),
{
    v.as_u64()
}

/// `Value::is_null`.
#[verifier::external_body]
pub(crate) fn is_null(v: &serde_json::Value) -> (r: bool)
    ensures
        r == (tree(*v) is Null),
{
    v.is_null()
}

/// `Value::clone`.
#[verifier::external_body]
pub(crate) fn copy_value(v: &serde_json::Value) -> (r: serde_json::Value)
    ensures
        tree(r) == tree(*v),
{
    v.clone()
}

/// A `Value::String`.
#[verifier::external_body]
pub(crate) fn text_value(s: &str) -> (r: serde_json::Value)
    ensures
        tree(r) == Tree::Text(s@),
{
    serde_json::Value::String(s.to_owned())
}

/// `Map::insert` on the members of an object; a value that is no object stays as it is.
#[verifier::external_body]
pub(crate) fn set_member(v: &mut serde_json::Value, key: &str, member: serde_json::Value)
    ensures
        tree(*final(v)) == (match tree(*old(v)) {
            Tree::Object(map) => Tree::Object(map.insert(key@, tree(member))),
            other => other,
        }),
{
    if let Some(map) = v.as_object_mut() {
        map.insert(key.to_owned(), member);
    }
}

/// The text member of an object.
pub fn text_member<'a>(v: &'a serde_json::Value, key: &str) -> (r: Option<&'a str>)
    ensures
        opt_str(r) == tree(*v).text_member(key@),
{
    match get(v, key) {
        Some(m) => as_text(m),
        None => None,
    }
}

/// The list member of an object.
pub fn list_member<'a>(v: &'a serde_json::Value, key: &str) -> (r: Option<&'a Vec<serde_json::Value>>)
    ensures
        r is Some ==> tree(*v).items(key@) == trees(r->0@),
        r is None ==> tree(*v).items(key@).len() == 0,
        r is Some == (tree(*v).member(key@) is Some && tree(*v).member(key@)->0 is List),
{
    match get(v, key) {
        Some(m) => as_list(m),
        None => None,
    }
}

} // verus!
