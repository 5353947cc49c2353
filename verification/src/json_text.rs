//! The compact text of a JSON value.

use vstd::prelude::*;
use crate::json::{lemma_array_view, member_views, views, Json, JsonView, MemberView};
use crate::text::{bool_text, digit_char, to_bool_text};

verus! {

/// How a character stands in a JSON string literal: the quotation mark, the
/// backslash and the control characters escaped, every other as it is.
pub open spec fn escaped_char(c: char) -> Seq<char> {
    if c == '"' || c == '\\' {
        seq!['\\', c]
    } else if c == '\u{8}' {
        seq!['\\', 'b']
    } else if c == '\t' {
        seq!['\\', 't']
    } else if c == '\n' {
        seq!['\\', 'n']
    } else if c == '\u{c}' {
        seq!['\\', 'f']
    } else if c == '\r' {
        seq!['\\', 'r']
    } else if ' ' > c {
        seq!['\\', 'u', '0', '0', digit_char(c as int / 16), digit_char(c as int % 16)]
    } else {
        seq![c]
    }
}

/// The characters of a string as they stand in a JSON string literal.
pub open spec fn escaped_text(s: Seq<char>) -> Seq<char>
    decreases s.len(),
{
    if s.len() == 0 {
        Seq::empty()
    } else {
        escaped_text(s.drop_last()) + escaped_char(s.last())
    }
}

/// The JSON string literal that denotes `s`: quoted, with escapes.
pub open spec fn string_literal(s: Seq<char>) -> Seq<char> {
    seq!['"'] + escaped_text(s) + seq!['"']
}

/// `serde_json::Value::to_string` on a string value writes the string literal,
/// with the short escapes of JSON where there is one, and four lower-case
/// hexadecimal digits for every other control character.
#[verifier::external_body]
pub(crate) fn quote(s: &str) -> (literal: String)
    ensures
        literal@ == string_literal(s@),
{
    serde_json::Value::from(s).to_string()
}

/// The text of a value without insignificant whitespace.
pub open spec fn json_text(value: JsonView) -> Seq<char>
    decreases value, 0nat,
{
    match value {
        JsonView::Null => "null"@,
        JsonView::Bool(b) => bool_text(b),
        JsonView::Number(n) => n,
        JsonView::Text(s) => string_literal(s),
        JsonView::Array(items) => "["@ + items_text(items, items.len()) + "]"@,
        JsonView::Object(members) => "{"@ + members_text(members, members.len()) + "}"@,
    }
}

/// The texts of the first `n` items, separated by commas.
pub open spec fn items_text(items: Seq<JsonView>, n: nat) -> Seq<char>
    decreases items, n,
{
    if n == 0 || n > items.len() {
        Seq::empty()
    } else if n == 1 {
        json_text(items[0])
    } else {
        items_text(items, (n - 1) as nat) + ","@ + json_text(items[n - 1])
    }
}

/// The texts of the first `n` members, separated by commas.
pub open spec fn members_text(members: Seq<MemberView>, n: nat) -> Seq<char>
    decreases members, n,
{
    if n == 0 || n > members.len() {
        Seq::empty()
    } else if n == 1 {
        string_literal(members[0].key) + ":"@ + json_text(members[0].value)
    } else {
        members_text(members, (n - 1) as nat) + ","@ + string_literal(members[n - 1].key) + ":"@
            + json_text(members[n - 1].value)
    }
}

/// Writes a value without insignificant whitespace.
pub fn to_json_text(value: &Json) -> (text: String)
    ensures
        text@ == json_text(value@),
    decreases *value,
{
    proof {
        lemma_array_view(*value);
    }
    match value {
        Json::Null => "null".to_string(),
        Json::Bool(b) => to_bool_text(*b).to_string(),
        Json::Number(n) => n.clone(),
        Json::Text(s) => quote(s.as_str()),
        Json::Array(items) => {
            let ghost all = views(items@);
            let mut out = "[".to_string();
            let mut i: usize = 0;
            while i < items.len()
                invariant
                    i <= items@.len(),
                    *value == Json::Array(*items),
                    all == views(items@),
                    out@ == "["@ + items_text(all, i as nat),
                decreases items@.len() - i,
            {
                if i > 0 {
                    out.append(",");
                }
                assert(all[i as int] == items@[i as int]@);
                assert(decreases_to!(*value => value->Array_0@[i as int]));
                let text = to_json_text(&items[i]);
                out.append(text.as_str());
                i += 1;
                assert(out@ =~= "["@ + items_text(all, i as nat));
            }
            out.append("]");
            out
        },
        Json::Object(members) => {
            let ghost all = member_views(members@);
            let mut out = "{".to_string();
            let mut i: usize = 0;
            while i < members.len()
                invariant
                    i <= members@.len(),
                    *value == Json::Object(*members),
                    all == member_views(members@),
                    out@ == "{"@ + members_text(all, i as nat),
                decreases members@.len() - i,
            {
                if i > 0 {
                    out.append(",");
                }
                let key = quote(members[i].key.as_str());
                assert(all[i as int] == members@[i as int]@);
                assert(decreases_to!(*value => value->Object_0@[i as int].value));
                let text = to_json_text(&members[i].value);
                out.append(key.as_str());
                out.append(":");
                out.append(text.as_str());
                i += 1;
                assert(out@ =~= "{"@ + members_text(all, i as nat));
            }
            out.append("}");
            out
        },
    }
}

} // verus!
