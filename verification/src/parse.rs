//! Parsing of retained bytes.
//!
//! `serde_json` parses; what it hands back is taken over level by level into a
//! [`Json`] value.

use vstd::prelude::*;
use crate::json::{well_formed, Json, JsonView, Member, MemberView};
use serde_json::Value;

verus! {

/// A value of `serde_json`, handed from the parser to [`open_value`].
#[verifier::external_type_specification]
#[verifier::external_body]
pub struct ExValue(serde_json::Value);

/// The parser's own error.
#[verifier::external_type_specification]
#[verifier::external_body]
pub struct ExError(serde_json::Error);

/// The JSON content that a parsed value holds: its members in the order in which
/// it keeps them, its numbers as the text in which it writes them.
pub uninterp spec fn value_json(value: serde_json::Value) -> JsonView;

/// What `serde_json::from_slice` makes of a byte string: its JSON content, or
/// nothing where it does not parse.
pub uninterp spec fn parsed_json(bytes: Seq<u8>) -> Option<JsonView>;

/// The JSON content of a parsed object member.
pub open spec fn member_json(member: (String, serde_json::Value)) -> MemberView {
    MemberView { key: member.0@, value: value_json(member.1) }
}

/// One level of a parsed value.
pub(crate) enum Node {
    Null,
    Bool(bool),
    Number(String),
    Text(String),
    Array(Vec<serde_json::Value>),
    Object(Vec<(String, serde_json::Value)>),
}

impl Node {
    /// The content of the value of which this is the first level.
    pub closed spec fn content(self) -> JsonView {
        match self {
            Node::Null => JsonView::Null,
            Node::Bool(b) => JsonView::Bool(b),
            Node::Number(n) => JsonView::Number(n@),
            Node::Text(s) => JsonView::Text(s@),
            Node::Array(items) => JsonView::Array(items@.map_values(|v: Value| value_json(v))),
            Node::Object(members) => JsonView::Object(
                members@.map_values(|m: (String, Value)| member_json(m)),
            ),
        }
    }
}

/// `serde_json::from_slice` at the type `Value`. Whether the bytes parse, and to
/// what, depends on the bytes alone; nothing is said of which bytes do.
#[verifier::external_body]
fn from_slice(bytes: &[u8]) -> (r: Result<serde_json::Value, serde_json::Error>)
    ensures
        match r {
            Ok(v) => parsed_json(bytes@) == Some(value_json(v)),
            Err(_) => parsed_json(bytes@) is None,
        },
{
    serde_json::from_slice::<Value>(bytes)
}

/// Tells the variants of `serde_json::Value` apart and moves their fields out:
/// `Number::to_string` gives the text of a number, `Map::into_iter` the members
/// of an object, each once, in the order in which the map keeps them. A map holds
/// no key twice.
#[verifier::external_body]
fn open_value(value: serde_json::Value) -> (node: Node)
    ensures
        node.content() == value_json(value),
        match node {
            Node::Object(members) => forall|i: int, j: int|
                0 <= i < j < members@.len() ==> (#[trigger] members@[i]).0@ != (
                #[trigger] members@[j]).0@,
            _ => true,
        },
{
    match value {
        Value::Null => Node::Null,
        Value::Bool(b) => Node::Bool(b),
        Value::Number(n) => Node::Number(n.to_string()),
        Value::String(s) => Node::Text(s),
        Value::Array(items) => Node::Array(items),
        Value::Object(members) => Node::Object(members.into_iter().collect()),
    }
}

/// Takes a parsed value over, its members in their order.
pub fn to_json(value: serde_json::Value) -> (json: Json)
    ensures
        json@ == value_json(value),
        well_formed(json@),
    decreases value_json(value),
{
    let ghost whole = value_json(value);
    match open_value(value) {
        Node::Null => Json::Null,
        Node::Bool(b) => Json::Bool(b),
        Node::Number(n) => Json::Number(n),
        Node::Text(s) => Json::Text(s),
        Node::Array(items) => {
            let mut out: Vec<Json> = Vec::new();
            let ghost content = items@.map_values(|v: Value| value_json(v));
            for item in it: items
                invariant
                    value_json(value) == whole,
                    whole == JsonView::Array(content),
                    content == it.seq().map_values(|v: Value| value_json(v)),
                    out@.len() == it.index(),
                    forall|k: int| 0 <= k < out@.len() ==> (#[trigger] out@[k])@ == content[k],
                    forall|k: int| 0 <= k < out@.len() ==> well_formed(#[trigger] content[k]),
            {
                assert(value_json(item) == content[it.index() as int]);
                assert(decreases_to!(whole => whole->Array_0));
                assert(decreases_to!(content => content[it.index() as int]));
                let json = to_json(item);
                out.push(json);
            }
            let json = Json::Array(out);
            assert(json@->Array_0 =~= content);
            json
        },
        Node::Object(members) => {
            let mut out: Vec<Member> = Vec::new();
            let ghost content = members@.map_values(|m: (String, Value)| member_json(m));
            for member in it: members
                invariant
                    value_json(value) == whole,
                    whole == JsonView::Object(content),
                    content == it.seq().map_values(|m: (String, Value)| member_json(m)),
                    out@.len() == it.index(),
                    forall|k: int| 0 <= k < out@.len() ==> (#[trigger] out@[k])@ == content[k],
                    forall|k: int|
                        0 <= k < out@.len() ==> well_formed((#[trigger] content[k]).value),
            {
                assert(member_json(member) == content[it.index() as int]);
                assert(decreases_to!(whole => whole->Object_0));
                assert(decreases_to!(content => content[it.index() as int]));
                let (key, inner) = member;
                let ghost at = content[it.index() as int];
                assert(decreases_to!(at => at.value));
                let json = to_json(inner);
                out.push(Member { key, value: json });
            }
            let json = Json::Object(out);
            assert(json@->Object_0 =~= content);
            json
        },
    }
}

/// Parses a byte string; `None` when it is no JSON text.
pub fn parse_json(bytes: &[u8]) -> (r: Option<Json>)
    ensures
        match r {
            Some(json) => parsed_json(bytes@) == Some(json@) && well_formed(json@),
            None => parsed_json(bytes@) is None,
        },
{
    match from_slice(bytes) {
        Ok(value) => Some(to_json(value)),
        Err(_) => None,
    }
}

} // verus!
