//! Which class is reported when several apply, and where.

use vstd::prelude::*;
use crate::classify::{
    append_only, class_name, classification, first_region, law_class_names_are_distinct,
    region_divergence, region_report, regions, request_id_only, Class,
};
use crate::divergence::divergence;
use crate::history::{
    all_digits, args_of, args_sentinel, both_changed, contents_of, first_part, first_place, kind_of,
    output_sentinel, parts_of, result_of, shows, slot_change, transition_name, Finding,
    SignatureKind, TOOL_OUTPUT_TRUNCATION_PREFIX,
};
use crate::identity::TrajectoryView;
use crate::json::{same_json, same_opt, JsonView};
use crate::laws::equality::{law_no_divergence_iff_equal, lemma_further_extends};
use crate::outcome::{outcome_of, RequestView};
use crate::scan::{finding_place, first_finding, part_at, search_limit, transition_report};
use crate::snapshot::SnapshotView;
use crate::text::{decimal, digit_char};

verus! {

/// The place of a class in the order of precedence, the first at 0.
pub open spec fn rank(class: Class) -> int {
    match class {
        Class::Identical => 0,
        Class::ContentAppendOnly => 1,
        Class::AccountProjectChange => 2,
        Class::ModelChange => 3,
        Class::UserAgentChange => 4,
        Class::SystemInstructionChange => 5,
        Class::ToolDefinitionChange => 6,
        Class::GenerationConfigChange => 7,
        Class::SessionIdChange => 8,
        Class::ToolArgsTruncation => 9,
        Class::ToolOutputTruncation => 10,
        Class::ToolArgsChange => 11,
        Class::ToolOutputChange => 12,
        Class::SignatureChange => 13,
        Class::ThoughtChange => 14,
        Class::RequestIdOnly => 15,
        Class::Unknown => 16,
    }
}

/// The order of precedence: equality and a pure append first, then what selects the
/// cache, then the regions of the request in the order of its serialization, then the
/// history, truncations before edits, and last the `requestId` and what no rule
/// recognises.
pub proof fn law_order_of_precedence()
    ensures
        rank(Class::Identical) < rank(Class::ContentAppendOnly),
        rank(Class::ContentAppendOnly) < rank(Class::AccountProjectChange),
        rank(Class::AccountProjectChange) < rank(Class::ModelChange),
        rank(Class::ModelChange) < rank(Class::UserAgentChange),
        rank(Class::UserAgentChange) < rank(Class::SystemInstructionChange),
        rank(Class::SystemInstructionChange) < rank(Class::ToolDefinitionChange),
        rank(Class::ToolDefinitionChange) < rank(Class::GenerationConfigChange),
        rank(Class::GenerationConfigChange) < rank(Class::SessionIdChange),
        rank(Class::SessionIdChange) < rank(Class::ToolArgsTruncation),
        rank(Class::ToolArgsTruncation) < rank(Class::ToolOutputTruncation),
        rank(Class::ToolOutputTruncation) < rank(Class::ToolArgsChange),
        rank(Class::ToolArgsChange) < rank(Class::ToolOutputChange),
        rank(Class::ToolOutputChange) < rank(Class::SignatureChange),
        rank(Class::SignatureChange) < rank(Class::ThoughtChange),
        rank(Class::ThoughtChange) < rank(Class::RequestIdOnly),
        rank(Class::RequestIdOnly) < rank(Class::Unknown),
{
}

/// Whether some region of the class differs.
pub open spec fn region_differs(class: Class, prev: JsonView, curr: JsonView) -> bool {
    exists|k: int|
        0 <= k < regions().len() && (#[trigger] regions()[k]).1 == class && region_divergence(
            prev,
            curr,
            regions()[k].0,
        ) is Some
}

/// Whether two bodies differ in the way that a class stands for.
pub open spec fn applies(class: Class, prev: JsonView, curr: JsonView) -> bool {
    match class {
        Class::Identical => same_json(prev, curr),
        Class::ContentAppendOnly => append_only(prev, curr),
        Class::ToolArgsTruncation => first_finding(Finding::ArgsTruncated, prev, curr) is Some,
        Class::ToolOutputTruncation => first_finding(Finding::OutputTruncated, prev, curr) is Some,
        Class::ToolArgsChange => first_finding(Finding::ArgsEdited, prev, curr) is Some,
        Class::ToolOutputChange => first_finding(Finding::OutputEdited, prev, curr) is Some,
        Class::SignatureChange => first_finding(Finding::Signature, prev, curr) is Some,
        Class::ThoughtChange => first_finding(Finding::Thought, prev, curr) is Some,
        Class::RequestIdOnly => request_id_only(prev, curr),
        Class::Unknown => true,
        _ => region_differs(class, prev, curr),
    }
}

/// The first region that differs, from one on, differs, and none before it does.
pub proof fn lemma_first_region(prev: JsonView, curr: JsonView, k: int)
    requires
        0 <= k <= regions().len(),
    ensures
        match first_region(prev, curr, k) {
            Some(found) => {
                &&& k <= found < regions().len()
                &&& region_divergence(prev, curr, regions()[found].0) is Some
                &&& forall|m: int|
                    k <= m < found ==> region_divergence(
                        prev,
                        curr,
                        (#[trigger] regions()[m]).0,
                    ) is None
            },
            None => forall|m: int|
                k <= m < regions().len() ==> region_divergence(
                    prev,
                    curr,
                    (#[trigger] regions()[m]).0,
                ) is None,
        },
    decreases regions().len() - k,
{
    if k < regions().len() {
        lemma_first_region(prev, curr, k + 1);
    }
}

/// The regions stand in the order of precedence of their classes, between the
/// trailing append and the changes of the history.
proof fn lemma_regions_are_ranked(k: int, m: int)
    requires
        0 <= k <= m < regions().len(),
    ensures
        2 <= rank(regions()[k].1) <= rank(regions()[m].1) <= 8,
{
}

/// The class that is reported is the one that applies and comes first in the
/// order of precedence.
pub proof fn law_precedence(prev: JsonView, curr: JsonView, class: Class)
    ensures
        classification(prev, curr).1 == class <==> {
            &&& applies(class, prev, curr)
            &&& forall|other: Class|
                rank(other) < rank(class) ==> !(#[trigger] applies(other, prev, curr))
        },
{
    let reported = classification(prev, curr).1;
    lemma_first_region(prev, curr, 0);
    let rule = first_region(prev, curr, 0);
    assert(applies(reported, prev, curr)) by {
        if rule is Some {
            let k = rule->0;
            assert(regions()[k].1 == regions()[k].1);
            lemma_regions_are_ranked(k, k);
            assert(region_differs(regions()[k].1, prev, curr));
        }
    }
    assert forall|other: Class| rank(other) < rank(reported) implies !(#[trigger] applies(
        other,
        prev,
        curr,
    )) by {
        if region_differs(other, prev, curr) {
            let m = choose|m: int|
                0 <= m < regions().len() && (#[trigger] regions()[m]).1 == other
                    && region_divergence(prev, curr, regions()[m].0) is Some;
            lemma_regions_are_ranked(m, m);
            if rule is Some {
                lemma_regions_are_ranked(rule->0, rule->0);
                if m < rule->0 {
                    assert(region_divergence(prev, curr, regions()[m].0) is None);
                } else {
                    lemma_regions_are_ranked(rule->0, m);
                }
            }
        }
        if rule is Some {
            lemma_regions_are_ranked(rule->0, rule->0);
        }
    }
    if applies(class, prev, curr) && (forall|other: Class|
        rank(other) < rank(class) ==> !(#[trigger] applies(other, prev, curr))) {
        assert(rank(class) == rank(reported));
        assert(class == reported);
    }
}

/// Two bodies are reported as identical exactly when they are equal, and then no
/// path is reported.
pub proof fn law_identical_iff_equal(prev: JsonView, curr: JsonView)
    ensures
        classification(prev, curr).1 is Identical <==> same_json(prev, curr),
        classification(prev, curr).1 is Identical ==> classification(prev, curr).0.len() == 0,
{
    law_precedence(prev, curr, Class::Identical);
}

/// A divergence that no rule recognises is reported at the first path at which
/// the two bodies differ.
pub proof fn law_unknown_reports_the_first_divergence(prev: JsonView, curr: JsonView)
    requires
        classification(prev, curr).1 is Unknown,
    ensures
        divergence(Seq::empty(), prev, curr) == Some(classification(prev, curr).0),
{
    law_no_divergence_iff_equal(Seq::empty(), prev, curr);
    lemma_first_region(prev, curr, 0);
    if first_region(prev, curr, 0) is Some {
        lemma_regions_are_ranked(first_region(prev, curr, 0)->0, first_region(prev, curr, 0)->0);
    }
}

/// The path that is reported for a region starts with the path of the region.
pub proof fn law_region_path_lies_in_its_region(prev: JsonView, curr: JsonView, region: Seq<char>)
    ensures
        region_divergence(prev, curr, region) matches Some(found) ==> region.is_prefix_of(found),
{
    if let Some(path) = region_report(prev, curr, region) {
        lemma_further_extends(region, path.steps);
    }
}

/// Whether the pair of parts at a place shows a finding.
pub open spec fn occurs_at(
    finding: Finding,
    prev: Seq<JsonView>,
    curr: Seq<JsonView>,
    i: int,
    j: int,
) -> bool {
    &&& 0 <= i < search_limit(finding, curr)
    &&& i < prev.len()
    &&& i < curr.len()
    &&& parts_of(prev[i]) is Some
    &&& parts_of(curr[i]) is Some
    &&& 0 <= j < parts_of(prev[i])->0.len()
    &&& j < parts_of(curr[i])->0.len()
    &&& shows(finding, part_at(prev, i, j), part_at(curr, i, j))
}

/// The first pair of parts, from one on, that shows a finding.
proof fn lemma_first_part(finding: Finding, prev: Seq<JsonView>, curr: Seq<JsonView>, j: int)
    requires
        0 <= j,
    ensures
        match first_part(finding, prev, curr, j) {
            Some(found) => {
                &&& j <= found < prev.len()
                &&& found < curr.len()
                &&& shows(finding, prev[found], curr[found])
                &&& forall|l: int|
                    j <= l < found ==> !shows(finding, #[trigger] prev[l], curr[l])
            },
            None => forall|l: int|
                j <= l < prev.len() && l < curr.len() ==> !shows(
                    finding,
                    #[trigger] prev[l],
                    curr[l],
                ),
        },
    decreases prev.len() - j,
{
    if j < prev.len() && j < curr.len() {
        lemma_first_part(finding, prev, curr, j + 1);
    }
}

/// The first place, from a content on, that shows a finding.
proof fn lemma_first_place(finding: Finding, prev: Seq<JsonView>, curr: Seq<JsonView>, i: int)
    requires
        0 <= i,
    ensures
        match first_place(finding, prev, curr, search_limit(finding, curr), i) {
            Some((k, l)) => {
                &&& i <= k
                &&& occurs_at(finding, prev, curr, k, l)
                &&& forall|m: int, n: int|
                    i <= m && #[trigger] occurs_at(finding, prev, curr, m, n) ==> k < m || (k == m
                        && l <= n)
            },
            None => forall|m: int, n: int|
                i <= m ==> !(#[trigger] occurs_at(finding, prev, curr, m, n)),
        },
    decreases search_limit(finding, curr) - i,
{
    let limit = search_limit(finding, curr);
    if i < limit && i < prev.len() && i < curr.len() {
        if parts_of(prev[i]) is Some && parts_of(curr[i]) is Some {
            lemma_first_part(finding, parts_of(prev[i])->0, parts_of(curr[i])->0, 0);
        }
        lemma_first_place(finding, prev, curr, i + 1);
        assert forall|m: int, n: int|
            i <= m && #[trigger] occurs_at(finding, prev, curr, m, n) implies match first_place(
            finding,
            prev,
            curr,
            limit,
            i,
        ) {
            Some((k, l)) => k < m || (k == m && l <= n),
            None => false,
        } by {
            if m == i {
                let p = parts_of(prev[i])->0;
                let c = parts_of(curr[i])->0;
                assert(shows(finding, p[n], c[n]));
            }
        }
    }
}

/// A finding is reported for the first place, content by content and part by
/// part, at which it occurs, and not at all where it occurs nowhere.
pub proof fn law_findings_are_first(finding: Finding, prev: JsonView, curr: JsonView)
    ensures
        match finding_place(finding, prev, curr) {
            Some((i, j)) => {
                &&& occurs_at(finding, contents_of(prev), contents_of(curr), i, j)
                &&& forall|m: int, n: int|
                    #[trigger] occurs_at(finding, contents_of(prev), contents_of(curr), m, n) ==> i
                        < m || (i == m && j <= n)
            },
            None => forall|m: int, n: int|
                !(#[trigger] occurs_at(finding, contents_of(prev), contents_of(curr), m, n)),
        },
{
    lemma_first_place(finding, contents_of(prev), contents_of(curr), 0);
}

/// Arguments that stand where the truncation marker stood are an edit, never a
/// truncation.
pub proof fn law_replacing_the_args_marker_is_an_edit(prev: JsonView, curr: JsonView)
    requires
        both_changed(args_of(prev), args_of(curr)),
        args_sentinel(args_of(prev)->0),
    ensures
        shows(Finding::ArgsEdited, prev, curr),
        !shows(Finding::ArgsTruncated, prev, curr),
{
}

/// Tool output that stands where the truncation marker stood is an edit, never a
/// truncation.
pub proof fn law_replacing_the_output_marker_is_an_edit(prev: JsonView, curr: JsonView)
    requires
        both_changed(result_of(prev), result_of(curr)),
        output_sentinel(result_of(prev)->0),
    ensures
        shows(Finding::OutputEdited, prev, curr),
        !shows(Finding::OutputTruncated, prev, curr),
{
}

/// A decimal numeral is made of digits.
pub proof fn lemma_decimal_is_digits(n: nat)
    ensures
        decimal(n).len() > 0,
        all_digits(decimal(n)),
    decreases n,
{
    assert(forall|d: int| 0 <= d < 10 ==> '0' <= #[trigger] digit_char(d) <= '9');
    if n >= 10 {
        lemma_decimal_is_digits(n / 10);
    }
}

/// The marker of truncated output is recognised whatever the original length
/// was.
pub proof fn law_output_marker_is_recognised(n: nat)
    ensures
        output_sentinel(JsonView::Text(TOOL_OUTPUT_TRUNCATION_PREFIX@ + decimal(n) + "]"@)),
{
    lemma_decimal_is_digits(n);
}

/// Two slots that both hold the sentinel never differ: the sentinel is a single
/// exact value.
pub proof fn law_sentinels_never_differ(prev: Option<JsonView>, curr: Option<JsonView>)
    requires
        kind_of(prev) == SignatureKind::Sentinel,
        kind_of(curr) == SignatureKind::Sentinel,
    ensures
        same_opt(prev, curr),
{
}

/// A transition always has a name.
proof fn lemma_transition_is_named(prev: SignatureKind, curr: SignatureKind)
    ensures
        transition_name(prev, curr) != "none"@,
{
    reveal_strlit("none");
    reveal_strlit("MISSING_TO_REAL");
    reveal_strlit("MISSING_TO_SENTINEL");
    reveal_strlit("SENTINEL_TO_REAL");
    reveal_strlit("SENTINEL_TO_MISSING");
    reveal_strlit("REAL_TO_REAL_DIFFERENT");
    reveal_strlit("REAL_TO_SENTINEL");
    reveal_strlit("REAL_TO_MISSING");
    reveal_strlit("UNKNOWN_SIGNATURE_TRANSITION");
    assert("none"@.len() == 4);
    assert(transition_name(prev, curr).len() > 4);
}

/// A transition is reported exactly for an outcome that is classified as a
/// signature change; a signature that differs beside a change that takes
/// precedence is not surfaced.
pub proof fn law_transition_iff_signature_change(
    salt: Seq<u8>,
    prev: Option<SnapshotView>,
    prev_value: Option<JsonView>,
    request: RequestView,
    trajectory: TrajectoryView,
    seq: u64,
)
    ensures
        ({
            let outcome = outcome_of(salt, prev, prev_value, request, trajectory, seq);
            outcome.signature_transition != "none"@ <==> outcome.classification == class_name(
                Class::SignatureChange,
            )
        }),
{
    reveal_strlit("NEW_SESSION");
    reveal_strlit("DEDUPED");
    reveal_strlit("PREVIOUS_PARSE_ERROR");
    reveal_strlit("THINKING_SIGNATURE_CHANGE");
    assert("THINKING_SIGNATURE_CHANGE"@.len() == 25);
    assert("NEW_SESSION"@.len() == 11);
    assert("DEDUPED"@.len() == 7);
    assert("PREVIOUS_PARSE_ERROR"@.len() == 20);
    if prev_value is Some {
        let value = prev_value->0;
        let class = classification(value, request.body).1;
        law_class_names_are_distinct(class, Class::SignatureChange);
        if class is SignatureChange {
            law_precedence(value, request.body, Class::SignatureChange);
            assert(applies(Class::SignatureChange, value, request.body));
            let place = finding_place(Finding::Signature, value, request.body);
            assert(place is Some);
            let (i, j) = place->0;
            let change = slot_change(
                part_at(contents_of(value), i, j),
                part_at(contents_of(request.body), i, j),
            )->0;
            lemma_transition_is_named(kind_of(change.prev), kind_of(change.curr));
            assert(transition_report(value, request.body) != "none"@);
        }
    }
}

} // verus!
