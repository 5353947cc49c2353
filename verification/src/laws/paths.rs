//! What the reported and the logged paths say.

use vstd::prelude::*;
use crate::divergence::{
    divergence, extra_member, first_difference, item_difference, member_difference,
};
use crate::hashing::short_hash_of;
use crate::json::{lookup, same_json, JsonView, MemberView};
use crate::laws::equality::law_no_divergence_iff_equal;
use crate::path::{further, StepView};
use crate::sanitize::{first_punctuation, known_segments, logged_further, rendered, sanitized};
use crate::text::decimal;

verus! {

/// A path without steps is itself. A key follows a dot, unless the path is empty
/// so far; an index stands in brackets.
pub proof fn law_path_text(path: Seq<char>, steps: Seq<StepView>, key: Seq<char>, i: nat)
    ensures
        further(path, Seq::empty()) == path,
        further(path, steps).len() == 0 ==> further(path, steps.push(StepView::Key(key))) == key,
        further(path, steps).len() > 0 ==> further(path, steps.push(StepView::Key(key))) == further(
            path,
            steps,
        ) + seq!['.'] + key,
        further(path, steps.push(StepView::Index(i as int))) == further(path, steps) + seq!['[']
            + decimal(i) + seq![']'],
{
    reveal_strlit(".");
    reveal_strlit("[");
    reveal_strlit("]");
    assert("."@ =~= seq!['.']);
    assert("["@ =~= seq!['[']);
    assert("]"@ =~= seq![']']);
    assert(steps.push(StepView::Key(key)).drop_last() =~= steps);
    assert(steps.push(StepView::Index(i as int)).drop_last() =~= steps);
}

/// A reported divergence is the path with the steps of the first difference.
pub proof fn law_divergence_follows_the_steps(path: Seq<char>, prev: JsonView, curr: JsonView)
    ensures
        match first_difference(prev, curr) {
            Some(steps) => divergence(path, prev, curr) == Some(further(path, steps)),
            None => divergence(path, prev, curr) is None && same_json(prev, curr),
        },
{
    law_no_divergence_iff_equal(path, prev, curr);
}

/// Values that are not both objects or both arrays differ where they stand.
pub proof fn law_scalars_differ_where_they_stand(prev: JsonView, curr: JsonView)
    requires
        !(prev is Object && curr is Object),
        !(prev is Array && curr is Array),
        !same_json(prev, curr),
    ensures
        first_difference(prev, curr) == Some(Seq::<StepView>::empty()),
{
}

/// From an index on, arrays that agree up to another one differ from there on.
proof fn lemma_items_agree_up_to(p: Seq<JsonView>, c: Seq<JsonView>, from: int, to: int)
    requires
        0 <= from <= to <= p.len(),
        to <= c.len(),
        forall|k: int| from <= k < to ==> same_json(#[trigger] p[k], c[k]),
    ensures
        item_difference(p, c, from) == item_difference(p, c, to),
    decreases to - from,
{
    if from < to {
        assert(same_json(p[from], c[from]));
        law_no_divergence_iff_equal(Seq::empty(), p[from], c[from]);
        lemma_items_agree_up_to(p, c, from + 1, to);
    }
}

/// Arrays differ first at the first index at which their items do, and there in
/// the way the items do.
pub proof fn law_arrays_differ_at_the_first_index(p: Seq<JsonView>, c: Seq<JsonView>, i: int)
    requires
        0 <= i < p.len(),
        i < c.len(),
        !same_json(p[i], c[i]),
        forall|k: int| 0 <= k < i ==> same_json(#[trigger] p[k], c[k]),
    ensures
        first_difference(p[i], c[i]) is Some,
        first_difference(JsonView::Array(p), JsonView::Array(c)) == Some(
            seq![StepView::Index(i)] + first_difference(p[i], c[i])->0,
        ),
{
    lemma_items_agree_up_to(p, c, 0, i);
    law_no_divergence_iff_equal(Seq::empty(), p[i], c[i]);
}

/// An array that goes on where the other ends differs at the first index that the
/// other lacks.
pub proof fn law_arrays_differ_where_one_ends(p: Seq<JsonView>, c: Seq<JsonView>, n: int)
    requires
        p.len() != c.len(),
        n == if p.len() < c.len() { p.len() as int } else { c.len() as int },
        forall|k: int| 0 <= k < n ==> same_json(#[trigger] p[k], c[k]),
    ensures
        first_difference(JsonView::Array(p), JsonView::Array(c)) == Some(seq![StepView::Index(n)]),
{
    lemma_items_agree_up_to(p, c, 0, n);
}

/// Whether a member of the previous object stands in the current one with an
/// equal value.
pub open spec fn kept(member: MemberView, curr: Seq<MemberView>) -> bool {
    lookup(curr, member.key) matches Some(value) && same_json(member.value, value)
}

/// From a member on, objects that agree up to another one differ from there on.
proof fn lemma_members_agree_up_to(p: Seq<MemberView>, c: Seq<MemberView>, from: int, to: int)
    requires
        0 <= from <= to <= p.len(),
        forall|k: int| from <= k < to ==> kept(#[trigger] p[k], c),
    ensures
        member_difference(p, c, from) == member_difference(p, c, to),
    decreases to - from,
{
    if from < to {
        assert(kept(p[from], c));
        law_no_divergence_iff_equal(Seq::empty(), p[from].value, lookup(c, p[from].key)->0);
        lemma_members_agree_up_to(p, c, from + 1, to);
    }
}

/// Objects differ first at the first previous member that the current object
/// lacks or holds with another value.
pub proof fn law_objects_differ_at_the_first_member(p: Seq<MemberView>, c: Seq<MemberView>, i: int)
    requires
        0 <= i < p.len(),
        !kept(p[i], c),
        forall|k: int| 0 <= k < i ==> kept(#[trigger] p[k], c),
    ensures
        match lookup(c, p[i].key) {
            None => first_difference(JsonView::Object(p), JsonView::Object(c)) == Some(
                seq![StepView::Key(p[i].key)],
            ),
            Some(value) => {
                &&& first_difference(p[i].value, value) is Some
                &&& first_difference(JsonView::Object(p), JsonView::Object(c)) == Some(
                    seq![StepView::Key(p[i].key)] + first_difference(p[i].value, value)->0,
                )
            },
        },
{
    lemma_members_agree_up_to(p, c, 0, i);
    if let Some(value) = lookup(c, p[i].key) {
        law_no_divergence_iff_equal(Seq::empty(), p[i].value, value);
    }
}

/// From a member on, members whose keys are known up to another one.
proof fn lemma_known_up_to(p: Seq<MemberView>, c: Seq<MemberView>, from: int, to: int)
    requires
        0 <= from <= to <= c.len(),
        forall|k: int| from <= k < to ==> lookup(p, (#[trigger] c[k]).key) is Some,
    ensures
        extra_member(p, c, from) == extra_member(p, c, to),
    decreases to - from,
{
    if from < to {
        assert(lookup(p, c[from].key) is Some);
        lemma_known_up_to(p, c, from + 1, to);
    }
}

/// Where every previous member is kept, objects differ first at the first current
/// member whose key is new.
pub proof fn law_objects_differ_at_the_first_new_key(
    p: Seq<MemberView>,
    c: Seq<MemberView>,
    j: int,
)
    requires
        forall|k: int| 0 <= k < p.len() ==> kept(#[trigger] p[k], c),
        0 <= j < c.len(),
        lookup(p, c[j].key) is None,
        forall|k: int| 0 <= k < j ==> lookup(p, (#[trigger] c[k]).key) is Some,
    ensures
        first_difference(JsonView::Object(p), JsonView::Object(c)) == Some(
            seq![StepView::Key(c[j].key)],
        ),
{
    lemma_members_agree_up_to(p, c, 0, p.len() as int);
    lemma_known_up_to(p, c, 0, j);
}

/// The protocol field names: these and no others are shown in a logged path.
pub proof fn law_protocol_field_names(name: Seq<char>)
    ensures
        known_segments().contains(name) <==> {
            ||| name == "project"@
            ||| name == "request"@
            ||| name == "requestId"@
            ||| name == "sessionId"@
            ||| name == "session_id"@
            ||| name == "model"@
            ||| name == "userAgent"@
            ||| name == "requestType"@
            ||| name == "enabledCreditTypes"@
            ||| name == "systemInstruction"@
            ||| name == "system_instruction"@
            ||| name == "tools"@
            ||| name == "toolConfig"@
            ||| name == "tool_config"@
            ||| name == "functionDeclarations"@
            ||| name == "function_declarations"@
            ||| name == "generationConfig"@
            ||| name == "generation_config"@
            ||| name == "safetySettings"@
            ||| name == "safety_settings"@
            ||| name == "contents"@
            ||| name == "role"@
            ||| name == "parts"@
            ||| name == "text"@
            ||| name == "thought"@
            ||| name == "thoughtSignature"@
            ||| name == "thought_signature"@
            ||| name == "functionCall"@
            ||| name == "function_call"@
            ||| name == "functionResponse"@
            ||| name == "function_response"@
            ||| name == "name"@
            ||| name == "args"@
            ||| name == "id"@
            ||| name == "response"@
            ||| name == "result"@
            ||| name == "inlineData"@
            ||| name == "inline_data"@
            ||| name == "mimeType"@
            ||| name == "mime_type"@
            ||| name == "data"@
            ||| name == "cachedContent"@
            ||| name == "cached_content"@
        },
{
    assert(known_segments()[0] == "project"@);
    assert(known_segments()[1] == "request"@);
    assert(known_segments()[2] == "requestId"@);
    assert(known_segments()[3] == "sessionId"@);
    assert(known_segments()[4] == "session_id"@);
    assert(known_segments()[5] == "model"@);
    assert(known_segments()[6] == "userAgent"@);
    assert(known_segments()[7] == "requestType"@);
    assert(known_segments()[8] == "enabledCreditTypes"@);
    assert(known_segments()[9] == "systemInstruction"@);
    assert(known_segments()[10] == "system_instruction"@);
    assert(known_segments()[11] == "tools"@);
    assert(known_segments()[12] == "toolConfig"@);
    assert(known_segments()[13] == "tool_config"@);
    assert(known_segments()[14] == "functionDeclarations"@);
    assert(known_segments()[15] == "function_declarations"@);
    assert(known_segments()[16] == "generationConfig"@);
    assert(known_segments()[17] == "generation_config"@);
    assert(known_segments()[18] == "safetySettings"@);
    assert(known_segments()[19] == "safety_settings"@);
    assert(known_segments()[20] == "contents"@);
    assert(known_segments()[21] == "role"@);
    assert(known_segments()[22] == "parts"@);
    assert(known_segments()[23] == "text"@);
    assert(known_segments()[24] == "thought"@);
    assert(known_segments()[25] == "thoughtSignature"@);
    assert(known_segments()[26] == "thought_signature"@);
    assert(known_segments()[27] == "functionCall"@);
    assert(known_segments()[28] == "function_call"@);
    assert(known_segments()[29] == "functionResponse"@);
    assert(known_segments()[30] == "function_response"@);
    assert(known_segments()[31] == "name"@);
    assert(known_segments()[32] == "args"@);
    assert(known_segments()[33] == "id"@);
    assert(known_segments()[34] == "response"@);
    assert(known_segments()[35] == "result"@);
    assert(known_segments()[36] == "inlineData"@);
    assert(known_segments()[37] == "inline_data"@);
    assert(known_segments()[38] == "mimeType"@);
    assert(known_segments()[39] == "mime_type"@);
    assert(known_segments()[40] == "data"@);
    assert(known_segments()[41] == "cachedContent"@);
    assert(known_segments()[42] == "cached_content"@);
    if known_segments().contains(name) {
        let k = choose|k: int| 0 <= k < known_segments().len() && known_segments()[k] == name;
        assert(known_segments().len() == 43);
    }
}

/// A segment is shown as it is where it is a protocol field name, or where it
/// stands in brackets and is made of digits. Every other one is shown by the
/// salted hash of the whole segment.
pub proof fn law_segments_are_shown(salt: Seq<u8>, segment: Seq<char>, in_bracket: bool)
    ensures
        segment.len() == 0 ==> rendered(salt, segment, in_bracket).len() == 0,
        segment.len() > 0 ==> rendered(salt, segment, in_bracket) == (if known_segments().contains(
            segment,
        ) || (in_bracket && forall|i: int|
            0 <= i < segment.len() ==> '0' <= #[trigger] segment[i] <= '9') {
            segment
        } else {
            "<key:"@ + short_hash_of(salt, "path|"@ + segment) + ">"@
        }),
{
}

/// Whether a text holds no dot and no bracket.
pub open spec fn unbroken(text: Seq<char>) -> bool {
    forall|i: int|
        0 <= i < text.len() ==> #[trigger] text[i] != '.' && text[i] != '[' && text[i] != ']'
}

/// A text without dots and brackets is a single segment.
pub proof fn law_unbroken_text_is_one_segment(salt: Seq<u8>, text: Seq<char>, in_bracket: bool)
    requires
        unbroken(text),
    ensures
        sanitized(salt, text, in_bracket) == rendered(salt, text, false),
{
    assert(forall|j: int| !first_punctuation(text, j));
}

/// A dot or a bracket stands in a sanitized path as it is and ends the segment
/// before it. An opening bracket opens the bracket, a closing one closes it, and a
/// segment stands in brackets where the closing one follows it.
pub proof fn law_punctuation_ends_a_segment(
    salt: Seq<u8>,
    text: Seq<char>,
    rest: Seq<char>,
    in_bracket: bool,
)
    requires
        unbroken(text),
    ensures
        sanitized(salt, text + seq!['.'] + rest, in_bracket) == rendered(salt, text, false)
            + seq!['.'] + sanitized(salt, rest, in_bracket),
        sanitized(salt, text + seq!['['] + rest, in_bracket) == rendered(salt, text, false)
            + seq!['['] + sanitized(salt, rest, true),
        sanitized(salt, text + seq![']'] + rest, in_bracket) == rendered(salt, text, in_bracket)
            + seq![']'] + sanitized(salt, rest, false),
{
    lemma_first_end(salt, text, '.', rest, in_bracket);
    lemma_first_end(salt, text, '[', rest, in_bracket);
    lemma_first_end(salt, text, ']', rest, in_bracket);
}

/// A segment ends at the first dot or bracket.
proof fn lemma_first_end(
    salt: Seq<u8>,
    text: Seq<char>,
    c: char,
    rest: Seq<char>,
    in_bracket: bool,
)
    requires
        unbroken(text),
        c == '.' || c == '[' || c == ']',
    ensures
        sanitized(salt, text + seq![c] + rest, in_bracket) == rendered(
            salt,
            text,
            c == ']' && in_bracket,
        ) + seq![c] + sanitized(salt, rest, c == '[' || c == '.' && in_bracket),
{
    let whole = text + seq![c] + rest;
    let n = text.len() as int;
    assert(forall|j: int| 0 <= j < n ==> #[trigger] whole[j] == text[j]);
    assert(whole[n] == c);
    assert(first_punctuation(whole, n));
    let k = choose|k: int| first_punctuation(whole, k);
    if k < n {
        assert(whole[k] == text[k]);
    } else if n < k {
        assert(whole[n] == c);
    }
    assert(whole.take(n) =~= text);
    assert(whole.skip(n + 1) =~= rest);
}

/// A logged path is the sanitized known path, each further key rendered as a
/// whole behind a dot, each index in brackets.
pub proof fn law_logged_path_follows_the_steps(
    salt: Seq<u8>,
    base: Seq<char>,
    steps: Seq<StepView>,
    key: Seq<char>,
    i: nat,
)
    ensures
        logged_further(salt, base, Seq::empty()) == sanitized(salt, base, false),
        logged_further(salt, base, steps.push(StepView::Key(key))) == logged_further(
            salt,
            base,
            steps,
        ) + (if further(base, steps).len() == 0 {
            Seq::empty()
        } else {
            seq!['.']
        }) + rendered(salt, key, false),
        logged_further(salt, base, steps.push(StepView::Index(i as int))) == logged_further(
            salt,
            base,
            steps,
        ) + seq!['['] + decimal(i) + seq![']'],
{
    reveal_strlit(".");
    reveal_strlit("[");
    reveal_strlit("]");
    assert("."@ =~= seq!['.']);
    assert("["@ =~= seq!['[']);
    assert("]"@ =~= seq![']']);
    assert(steps.push(StepView::Key(key)).drop_last() =~= steps);
    assert(steps.push(StepView::Index(i as int)).drop_last() =~= steps);
    let before = logged_further(salt, base, steps);
    assert(before + Seq::<char>::empty() =~= before);
}

/// A sanitized text is empty only where the text is.
proof fn lemma_sanitized_is_empty_with_its_text(salt: Seq<u8>, text: Seq<char>, in_bracket: bool)
    ensures
        sanitized(salt, text, in_bracket).len() == 0 <==> text.len() == 0,
{
    reveal_strlit("<key:");
    assert(forall|j: int| text.len() == 0 ==> !first_punctuation(text, j));
    law_segments_are_shown(salt, text, false);
}

/// A logged path is empty only where the text of the path is.
pub proof fn law_logged_path_is_empty_with_its_text(
    salt: Seq<u8>,
    base: Seq<char>,
    steps: Seq<StepView>,
)
    ensures
        logged_further(salt, base, steps).len() == 0 <==> further(base, steps).len() == 0,
    decreases steps.len(),
{
    if steps.len() == 0 {
        lemma_sanitized_is_empty_with_its_text(salt, base, false);
    } else {
        reveal_strlit("<key:");
        reveal_strlit(".");
        reveal_strlit("[");
        law_logged_path_is_empty_with_its_text(salt, base, steps.drop_last());
        if let StepView::Key(key) = steps.last() {
            law_segments_are_shown(salt, key, false);
        }
    }
}

} // verus!
