//! JSON documents.
//!
//! The parts of a message are JSON documents, held as `serde_json::Value`.
//! Such a value is opaque here. What it holds is named by `json_of`, as a
//! `JsonView`, and the functions of this module say what the values that they
//! build and read hold. Printing and parsing are `serde_json`'s own; their
//! results are named, not defined.

use crate::text::decimal;
use serde_json::Value;
use vstd::prelude::*;

verus! {

/// `serde_json::Value`, a JSON document. What is inside a value is not
/// read here.
#[verifier::external_type_specification]
#[verifier::external_body]
pub struct ExValue(Value);

/// A JSON document as a value. A number is held as `serde_json` writes it;
/// the members of an object are held by name.
pub enum JsonView {
    Null,
    Bool(bool),
    Number(Seq<char>),
    Text(Seq<char>),
    List(Seq<JsonView>),
    Object(Map<Seq<char>, JsonView>),
}

/// The document that a `serde_json::Value` holds.
pub uninterp spec fn json_of(value: Value) -> JsonView;

/// The compact text that `serde_json::to_vec` prints for a document.
pub uninterp spec fn json_text(doc: JsonView) -> Seq<u8>;

/// The document that `serde_json::from_slice` reads from a text, if the text
/// is one that it accepts.
pub uninterp spec fn json_parsed(text: Seq<u8>) -> Option<JsonView>;

/// The object without members.
pub open spec fn empty_object() -> JsonView {
    JsonView::Object(Map::empty())
}

/// The object `doc` with the member `key` set to `value`.
pub open spec fn with_member(doc: JsonView, key: Seq<char>, value: JsonView) -> JsonView {
    JsonView::Object(doc->Object_0.insert(key, value))
}

/// The object with the given members, each a name and a value. Where a
/// name comes twice, the later member stands.
pub open spec fn object(members: Seq<(Seq<char>, JsonView)>) -> JsonView
    decreases members.len(),
{
    if members.len() == 0 {
        empty_object()
    } else {
        with_member(object(members.drop_last()), members.last().0, members.last().1)
    }
}

/// The text `t` as a document.
pub open spec fn text(t: Seq<char>) -> JsonView {
    JsonView::Text(t)
}

/// The list of the texts `items`.
pub open spec fn text_list(items: Seq<Seq<char>>) -> JsonView {
    JsonView::List(items.map_values(|t: Seq<char>| JsonView::Text(t)))
}

/// The text of the member `key` of `doc`, if `doc` is an object that has
/// such a member and the member is a text.
pub open spec fn text_member(doc: JsonView, key: Seq<char>) -> Option<Seq<char>> {
    match doc {
        JsonView::Object(members) => if members.contains_key(key) {
            match members[key] {
                JsonView::Text(t) => Some(t),
                _ => None,
            }
        } else {
            None
        },
        _ => None,
    }
}

/// The truth value of the member `key` of `doc`, if `doc` is an object that
/// has such a member and the member is `true` or `false`.
pub open spec fn bool_member(doc: JsonView, key: Seq<char>) -> Option<bool> {
    match doc {
        JsonView::Object(members) => if members.contains_key(key) {
            match members[key] {
                JsonView::Bool(b) => Some(b),
                _ => None,
            }
        } else {
            None
        },
        _ => None,
    }
}

/// The document that a text stands for: what it parses to, or the empty
/// object if it does not parse.
pub open spec fn document(text: Seq<u8>) -> JsonView {
    match json_parsed(text) {
        Some(doc) => doc,
        None => empty_object(),
    }
}

/// `serde_json::Value::Bool`: the value that holds a truth value.
#[verifier::external_body]
pub(crate) fn json_bool(b: bool) -> (v: Value)
    ensures
        json_of(v) == JsonView::Bool(b),
{
    Value::Bool(b)
}

/// `Value::from` of a `u32`: the value that holds the number, which
/// `serde_json` writes in decimal.
#[verifier::external_body]
pub(crate) fn json_number(n: u32) -> (v: Value)
    ensures
        json_of(v) == JsonView::Number(decimal(n as nat)),
{
    Value::from(n)
}

/// `serde_json::Value::String`: the value that holds a copy of the text.
#[verifier::external_body]
pub(crate) fn json_string(s: &str) -> (v: Value)
    ensures
        json_of(v) == JsonView::Text(s@),
{
    Value::String(s.to_string())
}

/// `serde_json::Value::Array`: the value that holds the given values, in
/// their order.
#[verifier::external_body]
pub(crate) fn json_list(items: Vec<Value>) -> (v: Value)
    ensures
        json_of(v) == JsonView::List(items@.map_values(|item: Value| json_of(item))),
{
    Value::Array(items)
}

/// `serde_json::Value::Object` of `serde_json::Map::new`: the object without
/// members.
#[verifier::external_body]
pub(crate) fn json_object() -> (v: Value)
    ensures
        json_of(v) == empty_object(),
{
    Value::Object(serde_json::Map::new())
}

/// `serde_json::Map::insert` on the members of an object: the member `key`
/// is set to `value`, in place of a member of that name if there was one,
/// and the other members stay.
#[verifier::external_body]
pub(crate) fn json_insert(object: Value, key: &str, value: Value) -> (v: Value)
    requires
        json_of(object) is Object,
    ensures
        json_of(v) == with_member(json_of(object), key@, json_of(value)),
{
    let mut object = object;
    if let Value::Object(members) = &mut object {
        members.insert(key.to_string(), value);
    }
    object
}

/// `Clone` of a `serde_json::Value`: a value that holds the same document.
#[verifier::external_body]
pub(crate) fn json_clone(value: &Value) -> (v: Value)
    ensures
        json_of(v) == json_of(*value),
{
    value.clone()
}

/// `serde_json::to_vec` of a value: its compact text. Printing a value
/// cannot fail: the names of its members are strings and it holds no number
/// that is not finite. The members of an object are printed in the order of
/// their names, whatever the order in which they were set; this is so as
/// long as `serde_json` is built without its feature `preserve_order`.
#[verifier::external_body]
pub(crate) fn json_print(value: &Value) -> (text: Vec<u8>)
    ensures
        text@ == json_text(json_of(*value)),
{
    serde_json::to_vec(value).unwrap()
}

/// `serde_json::from_slice` to a value: the value that the text stands for,
/// or nothing if the text is not accepted.
#[verifier::external_body]
pub(crate) fn json_parse(text: &[u8]) -> (r: Option<Value>)
    ensures
        match r {
            Some(v) => json_parsed(text@) == Some(json_of(v)),
            None => json_parsed(text@).is_none(),
        },
{
    serde_json::from_slice(text).ok()
}

/// Indexing a value by a name, then `Value::as_str`: the text of that
/// member. Indexing gives `null` where the value is no object or has no such
/// member, and `as_str` gives nothing for what is not a string.
#[verifier::external_body]
pub(crate) fn json_text_member(value: &Value, key: &str) -> (r: Option<String>)
    ensures
        match r {
            Some(s) => text_member(json_of(*value), key@) == Some(s@),
            None => text_member(json_of(*value), key@).is_none(),
        },
{
    value[key].as_str().map(|s| s.to_string())
}

/// Indexing a value by a name, then `Value::as_bool`: the truth value of
/// that member. Indexing gives `null` where the value is no object or has no
/// such member, and `as_bool` gives nothing for what is not a boolean.
#[verifier::external_body]
pub(crate) fn json_bool_member(value: &Value, key: &str) -> (r: Option<bool>)
    ensures
        r == bool_member(json_of(*value), key@),
{
    value[key].as_bool()
}

/// An object that is being put together, member by member.
pub struct ObjectBuilder {
    value: Value,
    members: Ghost<Seq<(Seq<char>, JsonView)>>,
}

impl ObjectBuilder {
    /// The members set so far, in the order in which they were set.
    pub closed spec fn members(&self) -> Seq<(Seq<char>, JsonView)> {
        self.members@
    }

    /// The value holds the object of the members set so far.
    #[verifier::type_invariant]
    spec fn holds_its_members(&self) -> bool {
        json_of(self.value) == object(self.members@)
    }

    /// An object without members.
    pub fn new() -> (b: Self)
        ensures
            b.members() == Seq::<(Seq<char>, JsonView)>::empty(),
    {
        ObjectBuilder { value: json_object(), members: Ghost(Seq::empty()) }
    }

    /// Sets the member `key` to `value`.
    pub fn member(self, key: &str, value: Value) -> (b: Self)
        ensures
            b.members() == self.members().push((key@, json_of(value))),
    {
        proof {
            use_type_invariant(&self);
            assert(self.members@.push((key@, json_of(value))).drop_last() =~= self.members@);
        }
        let ghost members = self.members@.push((key@, json_of(value)));
        ObjectBuilder { value: json_insert(self.value, key, value), members: Ghost(members) }
    }

    /// Sets the member `key` to the text `t`.
    pub fn text(self, key: &str, t: &str) -> (b: Self)
        ensures
            b.members() == self.members().push((key@, text(t@))),
    {
        self.member(key, json_string(t))
    }

    /// The object with the members that were set.
    pub fn finish(self) -> (v: Value)
        ensures
            json_of(v) == object(self.members()),
    {
        proof {
            use_type_invariant(&self);
        }
        self.value
    }
}

} // verus!
