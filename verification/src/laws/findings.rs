//! What counts as a change of the history, told by the keys of the two bodies.

use vstd::prelude::*;
use crate::divergence::first_difference;
use crate::history::{
    all_digits, args_of, args_sentinel, contents_of, kind_of, output_sentinel, result_of, shows,
    transition_name, Finding, SignatureKind,
};
use crate::json::{same_json, same_opt, JsonView};
use crate::laws::equality::law_no_divergence_iff_equal;
use crate::laws::precedence::{law_findings_are_first, occurs_at};
use crate::path::{PathView, StepView};
use crate::scan::{finding_place, first_finding, first_transition, part_at, transition_report};
use crate::text::decimal;
use vstd::utf8::encode_utf8;

verus! {

/// Whether `contents` is the list that stands under `contents` of the `request` of
/// a body; where no list stands there, `contents` is empty.
pub open spec fn lists_contents(body: JsonView, contents: Seq<JsonView>) -> bool {
    match body.get("request"@) {
        Some(request) => match request.get("contents"@) {
            Some(JsonView::Array(items)) => contents == items,
            _ => contents.len() == 0,
        },
        None => contents.len() == 0,
    }
}

/// What a value that may be absent holds under a key.
pub open spec fn under(value: Option<JsonView>, key: Seq<char>) -> Option<JsonView> {
    if value is Some {
        value->0.get(key)
    } else {
        None
    }
}

/// The function call of a part, under either of its two keys.
pub open spec fn call_in(part: JsonView) -> Option<JsonView> {
    if part.get("functionCall"@) is Some {
        part.get("functionCall"@)
    } else {
        part.get("function_call"@)
    }
}

/// The function response of a part, under either of its two keys.
pub open spec fn response_in(part: JsonView) -> Option<JsonView> {
    if part.get("functionResponse"@) is Some {
        part.get("functionResponse"@)
    } else {
        part.get("function_response"@)
    }
}

/// What stands in the signature slots of a part, which are four: two keys beside
/// the function call, and the same two inside it.
pub open spec fn in_slot(part: JsonView, slot: int) -> Option<JsonView> {
    if slot == 0 {
        part.get("thoughtSignature"@)
    } else if slot == 1 {
        part.get("thought_signature"@)
    } else if slot == 2 {
        under(call_in(part), "thoughtSignature"@)
    } else {
        under(call_in(part), "thought_signature"@)
    }
}

/// How the signature slots are named in a path.
pub open spec fn slot_name(slot: int) -> Seq<char> {
    if slot == 0 {
        "thoughtSignature"@
    } else if slot == 1 {
        "thought_signature"@
    } else if slot == 2 {
        "functionCall.thoughtSignature"@
    } else {
        "functionCall.thought_signature"@
    }
}

/// Whether two parts hold different signatures in a slot.
pub open spec fn slot_differs(a: JsonView, b: JsonView, slot: int) -> bool {
    0 <= slot < 4 && !same_opt(in_slot(a, slot), in_slot(b, slot))
}

/// Whether two values are both there and differ.
pub open spec fn edited(a: Option<JsonView>, b: Option<JsonView>) -> bool {
    a is Some && b is Some && !same_json(a->0, b->0)
}

/// Whether arguments are the marker that stands for truncated ones.
pub open spec fn is_args_marker(args: JsonView) -> bool {
    args.get("_truncated"@) == Some(JsonView::Text("Arguments truncated to save context window."@))
}

/// Whether an output is the marker that stands for a truncated one: the fixed text,
/// a number, and a closing bracket, and nothing else.
pub open spec fn is_output_marker(output: JsonView) -> bool {
    let start = "[Tool output truncated to save context. Original length: "@;
    &&& output is Text
    &&& output->Text_0.len() > start.len() + 1
    &&& output->Text_0.take(start.len() as int) == start
    &&& output->Text_0.last() == ']'
    &&& forall|k: int|
        start.len() <= k < output->Text_0.len() - 1 ==> '0' <= #[trigger] output->Text_0[k] <= '9'
}

/// Whether a pair of parts at one place shows a finding.
pub open spec fn told(finding: Finding, a: JsonView, b: JsonView) -> bool {
    let args = under(call_in(a), "args"@);
    let new_args = under(call_in(b), "args"@);
    let output = under(under(response_in(a), "response"@), "result"@);
    let new_output = under(under(response_in(b), "response"@), "result"@);
    match finding {
        Finding::ArgsTruncated => edited(args, new_args) && is_args_marker(new_args->0)
            && !is_args_marker(args->0),
        Finding::ArgsEdited => edited(args, new_args) && (is_args_marker(new_args->0)
            ==> is_args_marker(args->0)),
        Finding::OutputTruncated => edited(output, new_output) && is_output_marker(new_output->0)
            && !is_output_marker(output->0),
        Finding::OutputEdited => edited(output, new_output) && (is_output_marker(new_output->0)
            ==> is_output_marker(output->0)),
        Finding::Signature => exists|slot: int| slot_differs(a, b, slot),
        Finding::Thought => {
            &&& a.get("thought"@) == Some(JsonView::Bool(true)) || b.get("thought"@) == Some(
                JsonView::Bool(true),
            )
            &&& !same_opt(a.get("text"@), b.get("text"@))
        },
    }
}

/// Whether a finding shows at a place: in a part that both lists hold. Signatures
/// count in every content that both lists hold; everything else only in the
/// contents before the last of the current list.
pub open spec fn found_at(
    finding: Finding,
    prev: Seq<JsonView>,
    curr: Seq<JsonView>,
    i: int,
    j: int,
) -> bool {
    &&& 0 <= i < prev.len()
    &&& i < curr.len()
    &&& finding is Signature || i < curr.len() - 1
    &&& match (prev[i].get("parts"@), curr[i].get("parts"@)) {
        (Some(JsonView::Array(x)), Some(JsonView::Array(y))) => 0 <= j < x.len() && j < y.len()
            && told(finding, x[j], y[j]),
        _ => false,
    }
}

/// Truncated arguments are recognised by their marker, and by nothing else.
pub proof fn law_args_marker_is_exact(args: JsonView)
    ensures
        args_sentinel(args) == is_args_marker(args),
{
}

/// Truncated output is recognised by its marker, and by nothing else.
pub proof fn law_output_marker_is_exact(output: JsonView)
    ensures
        output_sentinel(output) == is_output_marker(output),
{
    let start = "[Tool output truncated to save context. Original length: "@;
    reveal_strlit("]");
    assert("]"@ =~= seq![']']);
    if is_output_marker(output) {
        let s = output->Text_0;
        let digits = s.subrange(start.len() as int, s.len() - 1);
        assert(all_digits(digits));
        assert(s =~= s.take(start.len() as int) + digits + "]"@);
        assert(output == JsonView::Text(start + digits + "]"@));
    }
    if output_sentinel(output) {
        let digits = choose|digits: Seq<char>|
            digits.len() > 0 && #[trigger] all_digits(digits) && output == JsonView::Text(
                start + digits + "]"@,
            );
        let s = output->Text_0;
        assert(s.take(start.len() as int) =~= start);
        assert(s.last() == ']');
        assert forall|k: int| start.len() <= k < s.len() - 1 implies '0' <= #[trigger] s[k] <= '9' by {
            assert(s[k] == digits[k - start.len()]);
        }
    }
}

/// What is found in a pair of parts is told by the keys of the parts.
proof fn lemma_shown_is_told(finding: Finding, a: JsonView, b: JsonView)
    ensures
        shows(finding, a, b) == told(finding, a, b),
{
    law_args_marker_is_exact(args_of(a)->0);
    law_args_marker_is_exact(args_of(b)->0);
    law_output_marker_is_exact(result_of(a)->0);
    law_output_marker_is_exact(result_of(b)->0);
    if finding is Signature {
        assert(slot_differs(a, b, 0) || slot_differs(a, b, 1) || slot_differs(a, b, 2)
            || slot_differs(a, b, 3) <==> exists|slot: int| slot_differs(a, b, slot));
    }
}

/// The contents of a body are those that it lists.
pub proof fn law_contents_are_those_listed(body: JsonView, contents: Seq<JsonView>)
    requires
        lists_contents(body, contents),
    ensures
        contents_of(body) == contents,
{
    assert(contents.len() == 0 ==> contents =~= Seq::<JsonView>::empty());
}

/// A place at which a finding occurs is one at which it shows.
proof fn lemma_occurs_where_found(
    finding: Finding,
    prev: Seq<JsonView>,
    curr: Seq<JsonView>,
    i: int,
    j: int,
)
    ensures
        occurs_at(finding, prev, curr, i, j) == found_at(finding, prev, curr, i, j),
{
    if 0 <= i < prev.len() && i < curr.len() {
        lemma_shown_is_told(finding, part_at(prev, i, j), part_at(curr, i, j));
    }
}

/// A finding is reported for the first place, content by content and part by part,
/// at which it shows; where it shows nowhere, nothing is reported. The contents of
/// the two bodies are the lists under `request.contents`.
pub proof fn law_finding_is_at_the_first_place(
    finding: Finding,
    prev: JsonView,
    curr: JsonView,
    p: Seq<JsonView>,
    c: Seq<JsonView>,
)
    requires
        lists_contents(prev, p),
        lists_contents(curr, c),
    ensures
        first_finding(finding, prev, curr) is Some <==> finding_place(finding, prev, curr) is Some,
        match finding_place(finding, prev, curr) {
            Some((i, j)) => {
                &&& found_at(finding, p, c, i, j)
                &&& forall|m: int, n: int|
                    #[trigger] found_at(finding, p, c, m, n) ==> i < m || (i == m && j <= n)
            },
            None => forall|m: int, n: int| !(#[trigger] found_at(finding, p, c, m, n)),
        },
{
    law_contents_are_those_listed(prev, p);
    law_contents_are_those_listed(curr, c);
    law_findings_are_first(finding, prev, curr);
    assert forall|m: int, n: int| #[trigger]
        found_at(finding, p, c, m, n) == occurs_at(finding, p, c, m, n) by {
        lemma_occurs_where_found(finding, p, c, m, n);
    }
    if let Some((i, j)) = finding_place(finding, prev, curr) {
        assert(found_at(finding, p, c, i, j));
    }
}

/// Where a signature slot of two parts at one place differs, a signature divergence
/// is found: at that place, or at an earlier one where a slot differs too. Every
/// content that both bodies hold is looked at, the last one too.
pub proof fn law_signature_divergence_is_found(
    prev: JsonView,
    curr: JsonView,
    p: Seq<JsonView>,
    c: Seq<JsonView>,
    i: int,
    j: int,
    x: Seq<JsonView>,
    y: Seq<JsonView>,
    slot: int,
)
    requires
        lists_contents(prev, p),
        lists_contents(curr, c),
        0 <= i < p.len(),
        i < c.len(),
        p[i].get("parts"@) == Some(JsonView::Array(x)),
        c[i].get("parts"@) == Some(JsonView::Array(y)),
        0 <= j < x.len(),
        j < y.len(),
        0 <= slot < 4,
        !same_opt(in_slot(x[j], slot), in_slot(y[j], slot)),
    ensures
        first_finding(Finding::Signature, prev, curr) is Some,
        first_transition(prev, curr) is Some,
        finding_place(Finding::Signature, prev, curr) matches Some((m, n)) && {
            &&& m < i || (m == i && n <= j)
            &&& found_at(Finding::Signature, p, c, m, n)
            &&& forall|k: int, l: int|
                #[trigger] found_at(Finding::Signature, p, c, k, l) ==> m < k || (m == k && n <= l)
        },
{
    law_finding_is_at_the_first_place(Finding::Signature, prev, curr, p, c);
    assert(slot_differs(x[j], y[j], slot));
    assert(found_at(Finding::Signature, p, c, i, j));
}

/// The path of a part, up to the dot behind it.
pub open spec fn part_path(i: int, j: int) -> Seq<char> {
    "request.contents["@ + decimal(i as nat) + "].parts["@ + decimal(j as nat) + "]."@
}

/// A signature divergence is reported at the first of the four slots that differs,
/// with the transition from what the previous part holds there to what the current
/// part does.
pub proof fn law_signature_divergence_names_its_slot(
    prev: JsonView,
    curr: JsonView,
    p: Seq<JsonView>,
    c: Seq<JsonView>,
    i: int,
    j: int,
    x: Seq<JsonView>,
    y: Seq<JsonView>,
    slot: int,
)
    requires
        lists_contents(prev, p),
        lists_contents(curr, c),
        finding_place(Finding::Signature, prev, curr) == Some((i, j)),
        p[i].get("parts"@) == Some(JsonView::Array(x)),
        c[i].get("parts"@) == Some(JsonView::Array(y)),
        slot_differs(x[j], y[j], slot),
        forall|k: int| 0 <= k < slot ==> !slot_differs(x[j], y[j], k),
    ensures
        first_finding(Finding::Signature, prev, curr) == Some(
            PathView { base: part_path(i, j) + slot_name(slot), steps: Seq::empty() },
        ),
        first_transition(prev, curr) == Some(
            transition_name(kind_of(in_slot(x[j], slot)), kind_of(in_slot(y[j], slot))),
        ),
        transition_report(prev, curr) == transition_name(
            kind_of(in_slot(x[j], slot)),
            kind_of(in_slot(y[j], slot)),
        ),
{
    law_contents_are_those_listed(prev, p);
    law_contents_are_those_listed(curr, c);
    assert(0 < slot ==> !slot_differs(x[j], y[j], 0));
    assert(1 < slot ==> !slot_differs(x[j], y[j], 1));
    assert(2 < slot ==> !slot_differs(x[j], y[j], 2));
}

/// Without a signature divergence there is no transition.
pub proof fn law_no_transition_without_a_divergence(prev: JsonView, curr: JsonView)
    ensures
        first_transition(prev, curr) is Some <==> finding_place(
            Finding::Signature,
            prev,
            curr,
        ) is Some,
        first_transition(prev, curr) is None ==> transition_report(prev, curr) == "none"@,
{
}

/// The other findings are reported at the field in which they show. Where a value
/// was edited, the steps to its first difference follow.
pub proof fn law_finding_names_its_field(
    finding: Finding,
    prev: JsonView,
    curr: JsonView,
    p: Seq<JsonView>,
    c: Seq<JsonView>,
    i: int,
    j: int,
    x: Seq<JsonView>,
    y: Seq<JsonView>,
)
    requires
        lists_contents(prev, p),
        lists_contents(curr, c),
        finding_place(finding, prev, curr) == Some((i, j)),
        p[i].get("parts"@) == Some(JsonView::Array(x)),
        c[i].get("parts"@) == Some(JsonView::Array(y)),
    ensures
        ({
            let found = first_finding(finding, prev, curr);
            let none = Seq::<StepView>::empty();
            let args = part_path(i, j) + "functionCall.args"@;
            let output = part_path(i, j) + "functionResponse.response.result"@;
            let text = part_path(i, j) + "text"@;
            let old_args = under(call_in(x[j]), "args"@);
            let new_args = under(call_in(y[j]), "args"@);
            let old_output = under(under(response_in(x[j]), "response"@), "result"@);
            let new_output = under(under(response_in(y[j]), "response"@), "result"@);
            &&& finding is ArgsTruncated ==> found == Some(PathView { base: args, steps: none })
            &&& finding is OutputTruncated ==> found == Some(PathView { base: output, steps: none })
            &&& finding is Thought ==> found == Some(PathView { base: text, steps: none })
            &&& finding is ArgsEdited ==> first_difference(old_args->0, new_args->0) is Some
                && found == Some(
                PathView { base: args, steps: first_difference(old_args->0, new_args->0)->0 },
            )
            &&& finding is OutputEdited ==> first_difference(old_output->0, new_output->0) is Some
                && found == Some(
                PathView {
                    base: output,
                    steps: first_difference(old_output->0, new_output->0)->0,
                },
            )
        }),
{
    law_contents_are_those_listed(prev, p);
    law_contents_are_those_listed(curr, c);
    law_finding_is_at_the_first_place(finding, prev, curr, p, c);
    assert(found_at(finding, p, c, i, j));
    law_no_divergence_iff_equal(
        Seq::empty(),
        under(call_in(x[j]), "args"@)->0,
        under(call_in(y[j]), "args"@)->0,
    );
    law_no_divergence_iff_equal(
        Seq::empty(),
        under(under(response_in(x[j]), "response"@), "result"@)->0,
        under(under(response_in(y[j]), "response"@), "result"@)->0,
    );
}

/// A signature is missing where it is absent or null. The placeholder is one exact
/// text. Every other text of at least fifty bytes is a real signature, and whatever
/// else stands there is unknown.
pub proof fn law_signature_kinds(slot: Option<JsonView>)
    ensures
        kind_of(slot) == SignatureKind::Missing <==> slot is None || slot == Some(JsonView::Null),
        kind_of(slot) == SignatureKind::Sentinel <==> slot == Some(
            JsonView::Text("skip_thought_signature_validator"@),
        ),
        kind_of(slot) == SignatureKind::Real <==> {
            &&& slot is Some
            &&& slot->0 is Text
            &&& slot->0->Text_0 != "skip_thought_signature_validator"@
            &&& encode_utf8(slot->0->Text_0).len() >= 50
        },
{
}

/// The word for a kind of signature.
pub open spec fn kind_word(kind: SignatureKind) -> Seq<char> {
    match kind {
        SignatureKind::Missing => "MISSING"@,
        SignatureKind::Sentinel => "SENTINEL"@,
        SignatureKind::Real => "REAL"@,
        SignatureKind::Unknown => "UNKNOWN"@,
    }
}

/// A transition between two different known kinds is named by both. Two different
/// real signatures have a name of their own, and everything else is unknown.
pub proof fn law_transitions_are_named_by_their_kinds(a: SignatureKind, b: SignatureKind)
    ensures
        a != b && a != SignatureKind::Unknown && b != SignatureKind::Unknown ==> transition_name(
            a,
            b,
        ) == kind_word(a) + "_TO_"@ + kind_word(b),
        a == SignatureKind::Real && b == SignatureKind::Real ==> transition_name(a, b)
            == "REAL_TO_REAL_DIFFERENT"@,
        (a == b && a != SignatureKind::Real) || a == SignatureKind::Unknown || b
            == SignatureKind::Unknown ==> transition_name(a, b) == "UNKNOWN_SIGNATURE_TRANSITION"@,
{
    reveal_strlit("MISSING");
    reveal_strlit("SENTINEL");
    reveal_strlit("REAL");
    reveal_strlit("_TO_");
    reveal_strlit("MISSING_TO_REAL");
    reveal_strlit("MISSING_TO_SENTINEL");
    reveal_strlit("SENTINEL_TO_REAL");
    reveal_strlit("SENTINEL_TO_MISSING");
    reveal_strlit("REAL_TO_SENTINEL");
    reveal_strlit("REAL_TO_MISSING");
    let to = "_TO_"@;
    assert("MISSING"@ + to + "REAL"@ =~= "MISSING_TO_REAL"@);
    assert("MISSING"@ + to + "SENTINEL"@ =~= "MISSING_TO_SENTINEL"@);
    assert("SENTINEL"@ + to + "REAL"@ =~= "SENTINEL_TO_REAL"@);
    assert("SENTINEL"@ + to + "MISSING"@ =~= "SENTINEL_TO_MISSING"@);
    assert("REAL"@ + to + "SENTINEL"@ =~= "REAL_TO_SENTINEL"@);
    assert("REAL"@ + to + "MISSING"@ =~= "REAL_TO_MISSING"@);
}

} // verus!
