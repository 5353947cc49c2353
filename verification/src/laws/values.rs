//! What the basic notions of the library mean: members, equality, numerals, texts.

use vstd::prelude::*;
use crate::hashing::{sha256, short_hash_of};
use crate::json::{get_opt, lookup, same_json, same_opt, well_formed, JsonView, MemberView};
use crate::json_text::{json_text, string_literal};
use crate::laws::equality::{lemma_lookup_is_first, lemma_lookup_own};
use crate::prefix::{common_prefix_len, BYTES_PER_TOKEN_APPROX};
use crate::laws::prefixes::law_prefix_is_longest;
use crate::text::{bool_text, decimal, hex};
use vstd::utf8::encode_utf8;

verus! {

/// What is found under a key is the value of the first member that has it.
pub proof fn law_get_finds_the_first_member(members: Seq<MemberView>, key: Seq<char>, i: int)
    requires
        0 <= i < members.len(),
        members[i].key == key,
        forall|j: int| 0 <= j < i ==> (#[trigger] members[j]).key != key,
    ensures
        JsonView::Object(members).get(key) == Some(members[i].value),
        lookup(members, key) == Some(members[i].value),
{
    lemma_lookup_is_first(members, key, i);
}

/// Nothing is found under a key that no member has.
pub proof fn law_get_finds_nothing_else(members: Seq<MemberView>, key: Seq<char>)
    requires
        forall|i: int| 0 <= i < members.len() ==> (#[trigger] members[i]).key != key,
    ensures
        JsonView::Object(members).get(key) is None,
        lookup(members, key) is None,
{
}

/// Only objects have members, only strings a text, only arrays items.
pub proof fn law_kinds_have_their_contents(value: JsonView, key: Seq<char>)
    ensures
        value !is Object ==> value.get(key) is None,
        get_opt(Some(value), key) == value.get(key),
        get_opt(None, key) is None,
        forall|s: Seq<char>| value == JsonView::Text(s) <==> value.as_text() == Some(s),
        forall|v: Seq<JsonView>| value == JsonView::Array(v) <==> value.as_array() == Some(v),
        value.is_true() <==> value == JsonView::Bool(true),
{
}

/// Values of different kinds are never equal. Null equals null, truth values and
/// strings are equal when they are the same, and numbers when their texts are the
/// same, or both denote zero as a fraction.
pub proof fn law_scalars_are_equal_by_value(a: JsonView, b: JsonView)
    ensures
        same_json(a, b) ==> match a {
            JsonView::Null => b is Null,
            JsonView::Bool(x) => b == JsonView::Bool(x),
            JsonView::Text(x) => b == JsonView::Text(x),
            JsonView::Number(x) => b is Number && (b->Number_0 == x || {
                &&& x == "0.0"@ || x == "-0.0"@
                &&& b->Number_0 == "0.0"@ || b->Number_0 == "-0.0"@
            }),
            JsonView::Array(_) => b is Array,
            JsonView::Object(_) => b is Object,
        },
        a == b && a !is Array && a !is Object ==> same_json(a, b),
        same_json(JsonView::Number("0.0"@), JsonView::Number("-0.0"@)),
        same_json(JsonView::Number("-0.0"@), JsonView::Number("0.0"@)),
{
}

/// Arrays are equal when they have the same length and equal items at every
/// index.
pub proof fn law_arrays_are_equal_by_index(x: Seq<JsonView>, y: Seq<JsonView>)
    ensures
        same_json(JsonView::Array(x), JsonView::Array(y)) <==> x.len() == y.len() && forall|i: int|
            0 <= i < x.len() ==> same_json(#[trigger] x[i], y[i]),
{
}

/// Objects with distinct keys are equal when every member of the one stands in
/// the other, at whatever place, with an equal value.
pub proof fn law_objects_are_equal_by_members(x: Seq<MemberView>, y: Seq<MemberView>)
    requires
        well_formed(JsonView::Object(x)),
        well_formed(JsonView::Object(y)),
    ensures
        same_json(JsonView::Object(x), JsonView::Object(y)) <==> {
            &&& forall|i: int|
                0 <= i < x.len() ==> exists|j: int|
                    0 <= j < y.len() && (#[trigger] y[j]).key == (#[trigger] x[i]).key && same_json(
                        x[i].value,
                        y[j].value,
                    )
            &&& forall|j: int|
                0 <= j < y.len() ==> exists|i: int|
                    0 <= i < x.len() && (#[trigger] x[i]).key == (#[trigger] y[j]).key
        },
{
    assert forall|i: int, j: int|
        0 <= i < x.len() && 0 <= j < y.len() && (#[trigger] x[i]).key == (
        #[trigger] y[j]).key implies lookup(y, x[i].key) == Some(y[j].value) && lookup(x, y[j].key)
        == Some(x[i].value) by {
        lemma_lookup_own(y, j);
        lemma_lookup_own(x, i);
    }
    if same_json(JsonView::Object(x), JsonView::Object(y)) {
        assert forall|i: int| 0 <= i < x.len() implies exists|j: int|
            0 <= j < y.len() && (#[trigger] y[j]).key == (#[trigger] x[i]).key && same_json(
                x[i].value,
                y[j].value,
            ) by {
            let key = x[i].key;
            assert(lookup(y, key) is Some);
            let j = choose|j: int| crate::json::first_at(y, key, j);
            lemma_lookup_is_first(y, key, j);
            assert(y[j].key == key);
        }
        assert forall|j: int| 0 <= j < y.len() implies exists|i: int|
            0 <= i < x.len() && (#[trigger] x[i]).key == (#[trigger] y[j]).key by {
            let key = y[j].key;
            assert(lookup(x, key) is Some);
            let i = choose|i: int| crate::json::first_at(x, key, i);
            assert(x[i].key == key);
        }
    }
}

/// Values that may be absent are equal when both are, or neither is and they are
/// equal.
pub proof fn law_optional_values_are_equal(a: Option<JsonView>, b: Option<JsonView>)
    ensures
        same_opt(a, b) <==> (a is None && b is None) || (a is Some && b is Some && same_json(
            a->0,
            b->0,
        )),
{
}

/// A value is well-formed when in it, at every depth, no object has a key twice.
pub proof fn law_well_formed_means_distinct_keys(value: JsonView)
    ensures
        well_formed(value) <==> match value {
            JsonView::Array(items) => forall|i: int|
                0 <= i < items.len() ==> well_formed(#[trigger] items[i]),
            JsonView::Object(members) => {
                &&& forall|i: int|
                    0 <= i < members.len() ==> well_formed((#[trigger] members[i]).value)
                &&& forall|i: int, j: int|
                    0 <= i < members.len() && 0 <= j < members.len() && i != j ==> (
                    #[trigger] members[i]).key != (#[trigger] members[j]).key
            },
            _ => true,
        },
{
}

/// The number that a sequence of decimal digits denotes.
pub open spec fn number_of(digits: Seq<char>) -> int
    decreases digits.len(),
{
    if digits.len() == 0 {
        0
    } else {
        10 * number_of(digits.drop_last()) + (digits.last() as int - '0' as int)
    }
}

/// A decimal numeral denotes its number, in digits, without leading zeros.
pub proof fn law_decimal_denotes_its_number(n: nat)
    ensures
        number_of(decimal(n)) == n,
        decimal(n).len() > 0,
        forall|i: int| 0 <= i < decimal(n).len() ==> '0' <= #[trigger] decimal(n)[i] <= '9',
        decimal(n).len() > 1 ==> decimal(n)[0] != '0',
        n > 0 ==> decimal(n)[0] != '0',
    decreases n,
{
    reveal_with_fuel(number_of, 2);
    if n >= 10 {
        law_decimal_denotes_its_number(n / 10);
        assert(decimal(n).drop_last() =~= decimal(n / 10));
        assert(decimal(n)[0] == decimal(n / 10)[0]);
    } else {
        assert(decimal(n).drop_last() =~= Seq::<char>::empty());
    }
}

/// The number that a hexadecimal digit in lower case denotes.
pub open spec fn nibble_of(c: char) -> int {
    if '0' <= c <= '9' {
        c as int - '0' as int
    } else {
        c as int - 'a' as int + 10
    }
}

/// Two hexadecimal digits stand for each byte, the higher one first.
pub proof fn law_hex_denotes_its_bytes(bytes: Seq<u8>, i: int)
    requires
        0 <= i < bytes.len(),
    ensures
        hex(bytes).len() == 2 * bytes.len(),
        16 * nibble_of(hex(bytes)[2 * i]) + nibble_of(hex(bytes)[2 * i + 1]) == bytes[i],
        0 <= nibble_of(hex(bytes)[2 * i]) < 16,
        0 <= nibble_of(hex(bytes)[2 * i + 1]) < 16,
        '0' <= hex(bytes)[2 * i] <= '9' || 'a' <= hex(bytes)[2 * i] <= 'f',
        '0' <= hex(bytes)[2 * i + 1] <= '9' || 'a' <= hex(bytes)[2 * i + 1] <= 'f',
{
    assert((2 * i) / 2 == i && (2 * i) % 2 == 0);
    assert((2 * i + 1) / 2 == i && (2 * i + 1) % 2 == 1);
    let b = bytes[i] as int;
    assert(0 <= b / 16 < 16 && 0 <= b % 16 < 16 && 16 * (b / 16) + b % 16 == b);
}

/// A short hash is the start of the digest of the salt and the text, in
/// hexadecimal: two digits for each of its first eight bytes.
pub proof fn law_short_hash_starts_the_digest(salt: Seq<u8>, s: Seq<char>, i: int)
    requires
        sha256(salt + encode_utf8(s)).len() == 32,
        0 <= i < 8,
    ensures
        short_hash_of(salt, s).len() == 16,
        16 * nibble_of(short_hash_of(salt, s)[2 * i]) + nibble_of(short_hash_of(salt, s)[2 * i + 1])
            == sha256(salt + encode_utf8(s))[i],
{
    let digest = sha256(salt + encode_utf8(s));
    law_hex_denotes_its_bytes(digest, i);
    assert(short_hash_of(salt, s)[2 * i] == hex(digest)[2 * i]);
    assert(short_hash_of(salt, s)[2 * i + 1] == hex(digest)[2 * i + 1]);
}

/// Truth values are written as words.
pub proof fn law_truth_values_are_words(b: bool)
    ensures
        b ==> bool_text(b) == "true"@,
        !b ==> bool_text(b) == "false"@,
{
}

/// Some texts with a comma between each two.
pub open spec fn comma_separated(parts: Seq<Seq<char>>) -> Seq<char>
    decreases parts.len(),
{
    if parts.len() == 0 {
        Seq::empty()
    } else if parts.len() == 1 {
        parts[0]
    } else {
        comma_separated(parts.drop_last()) + seq![','] + parts.last()
    }
}

/// The texts of values, in their order.
pub open spec fn texts_of(items: Seq<JsonView>) -> Seq<Seq<char>> {
    Seq::new(items.len(), |i: int| json_text(items[i]))
}

/// The texts of members, key and value around a colon, in their order.
pub open spec fn member_texts_of(members: Seq<MemberView>) -> Seq<Seq<char>> {
    Seq::new(
        members.len(),
        |i: int| string_literal(members[i].key) + seq![':'] + json_text(members[i].value),
    )
}

/// The first texts of an array are separated by commas.
proof fn lemma_items_are_separated(items: Seq<JsonView>, n: nat)
    requires
        n <= items.len(),
    ensures
        crate::json_text::items_text(items, n) == comma_separated(texts_of(items).take(n as int)),
    decreases n,
{
    let parts = texts_of(items).take(n as int);
    reveal_strlit(",");
    assert(","@ =~= seq![',']);
    if n > 1 {
        lemma_items_are_separated(items, (n - 1) as nat);
        assert(parts.drop_last() =~= texts_of(items).take(n - 1));
        assert(parts.last() == json_text(items[n - 1]));
    } else if n == 1 {
        assert(parts[0] == json_text(items[0]));
    }
}

/// The first members of an object are separated by commas.
proof fn lemma_members_are_separated(members: Seq<MemberView>, n: nat)
    requires
        n <= members.len(),
    ensures
        crate::json_text::members_text(members, n) == comma_separated(
            member_texts_of(members).take(n as int),
        ),
    decreases n,
{
    let parts = member_texts_of(members).take(n as int);
    reveal_strlit(",");
    reveal_strlit(":");
    assert(","@ =~= seq![',']);
    assert(":"@ =~= seq![':']);
    if n > 1 {
        lemma_members_are_separated(members, (n - 1) as nat);
        assert(parts.drop_last() =~= member_texts_of(members).take(n - 1));
        let last = string_literal(members[n - 1].key) + seq![':'] + json_text(members[n - 1].value);
        assert(parts.last() == last);
        let before = comma_separated(parts.drop_last()) + seq![','];
        assert(before + string_literal(members[n - 1].key) + seq![':'] + json_text(
            members[n - 1].value,
        ) =~= before + last);
    } else if n == 1 {
        assert(parts[0] == string_literal(members[0].key) + seq![':'] + json_text(
            members[0].value,
        ));
    }
}

/// A JSON text has no insignificant whitespace: scalars stand as they are, strings
/// as literals, and arrays and objects hold their parts in order, separated by
/// commas.
pub proof fn law_json_text_is_compact(value: JsonView)
    ensures
        json_text(value) == match value {
            JsonView::Null => seq!['n', 'u', 'l', 'l'],
            JsonView::Bool(true) => seq!['t', 'r', 'u', 'e'],
            JsonView::Bool(false) => seq!['f', 'a', 'l', 's', 'e'],
            JsonView::Number(n) => n,
            JsonView::Text(s) => string_literal(s),
            JsonView::Array(items) => seq!['['] + comma_separated(texts_of(items)) + seq![']'],
            JsonView::Object(members) => seq!['{'] + comma_separated(member_texts_of(members))
                + seq!['}'],
        },
{
    reveal_strlit("null");
    reveal_strlit("true");
    reveal_strlit("false");
    reveal_strlit("[");
    reveal_strlit("]");
    reveal_strlit("{");
    reveal_strlit("}");
    assert("null"@ =~= seq!['n', 'u', 'l', 'l']);
    assert("true"@ =~= seq!['t', 'r', 'u', 'e']);
    assert("false"@ =~= seq!['f', 'a', 'l', 's', 'e']);
    assert("["@ =~= seq!['[']);
    assert("]"@ =~= seq![']']);
    assert("{"@ =~= seq!['{']);
    assert("}"@ =~= seq!['}']);
    match value {
        JsonView::Array(items) => {
            lemma_items_are_separated(items, items.len());
            assert(texts_of(items).take(items.len() as int) =~= texts_of(items));
        },
        JsonView::Object(members) => {
            lemma_members_are_separated(members, members.len());
            assert(member_texts_of(members).take(members.len() as int) =~= member_texts_of(
                members,
            ));
        },
        _ => {},
    }
}

/// A string literal stands between quotation marks.
pub proof fn law_empty_literal()
    ensures
        string_literal(Seq::empty()) == seq!['"', '"'],
{
    assert(string_literal(Seq::empty()) =~= seq!['"', '"']);
}

/// Character by character a literal grows by the character itself, or by its
/// escape: for the quotation mark, the backslash and the control characters.
pub proof fn law_literal_grows_by_characters(s: Seq<char>, c: char)
    ensures
        ({
            let before = string_literal(s).drop_last();
            let after = string_literal(s.push(c));
            let n = before.len() as int;
            &&& after.take(n) == before
            &&& after.last() == '"'
            &&& c as int >= 32 && c != '"' && c != '\\' ==> after == before + seq![c, '"']
            &&& c == '"' || c == '\\' ==> after == before + seq!['\\', c, '"']
            &&& c as int == 8 ==> after == before + seq!['\\', 'b', '"']
            &&& c as int == 9 ==> after == before + seq!['\\', 't', '"']
            &&& c as int == 10 ==> after == before + seq!['\\', 'n', '"']
            &&& c as int == 12 ==> after == before + seq!['\\', 'f', '"']
            &&& c as int == 13 ==> after == before + seq!['\\', 'r', '"']
            &&& (c as int) < 32 && c as int != 8 && c as int != 9 && c as int != 10 && c as int != 12
                && c as int != 13 ==> {
                &&& after.len() == n + 7
                &&& after.subrange(n, n + 4) == seq!['\\', 'u', '0', '0']
                &&& 16 * nibble_of(after[n + 4]) + nibble_of(after[n + 5]) == c as int
                &&& 0 <= nibble_of(after[n + 4]) < 2
                &&& 0 <= nibble_of(after[n + 5]) < 16
            }
        }),
{
    let before = string_literal(s).drop_last();
    let after = string_literal(s.push(c));
    let n = before.len() as int;
    let piece = crate::json_text::escaped_char(c);
    assert(s.push(c).drop_last() =~= s);
    assert(before =~= seq!['"'] + crate::json_text::escaped_text(s));
    assert(after =~= before + piece + seq!['"']);
    assert(after.take(n) =~= before);
    let k = c as int;
    assert(0 <= k / 16 && k == 16 * (k / 16) + k % 16 && 0 <= k % 16 < 16);
    if piece.len() == 1 {
        assert(after =~= before + seq![c, '"']);
    } else if piece.len() == 2 {
        assert(after =~= before + seq![piece[0], piece[1], '"']);
    } else {
        assert(after.subrange(n, n + 4) =~= seq!['\\', 'u', '0', '0']);
        assert(after[n + 4] == piece[4] && after[n + 5] == piece[5]);
    }
}

/// The common prefix of two byte strings is common, and nothing longer is: behind
/// it they differ, or one of them ends. A token is taken for four bytes.
pub proof fn law_common_prefix(a: Seq<u8>, b: Seq<u8>)
    ensures
        common_prefix_len(a, b) <= a.len(),
        common_prefix_len(a, b) <= b.len(),
        a.take(common_prefix_len(a, b) as int) == b.take(common_prefix_len(a, b) as int),
        common_prefix_len(a, b) == a.len() || common_prefix_len(a, b) == b.len()
            || a[common_prefix_len(a, b) as int] != b[common_prefix_len(a, b) as int],
        BYTES_PER_TOKEN_APPROX == 4,
{
    law_prefix_is_longest(a, b);
    let n = common_prefix_len(a, b) as int;
    assert(a.take(n) =~= b.take(n));
}

} // verus!
