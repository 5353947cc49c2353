//! Scans of two conversation histories for the first change of each kind.

use vstd::prelude::*;
use crate::divergence::{first_difference, first_difference_steps};
use crate::history::{
    args_of, contents_array, contents_of, either, first_place, first_place_from, flagged,
    is_args_truncation_sentinel, is_tool_output_truncation_sentinel, kind_of, parts_of, result_of,
    shows, signature_kind, signature_transition_enum, slot_change, transition_name, Finding,
};
use crate::json::{get_from, json_equal, opt_equal, opt_view, views, Json, JsonView};
use crate::path::{known_path, opt_path, DivergencePath, PathView};
use crate::text::{decimal, to_decimal};

verus! {

/// The path of a field of part `j` of content `i`.
pub open spec fn part_field_path(i: int, j: int, field: Seq<char>) -> Seq<char> {
    "request.contents["@ + decimal(i as nat) + "].parts["@ + decimal(j as nat) + "]."@ + field
}

/// The first path under `base` at which two values differ, `base` itself where
/// they do not.
pub open spec fn precise_path(base: Seq<char>, prev: JsonView, curr: JsonView) -> PathView {
    match first_difference(prev, curr) {
        Some(steps) => PathView { base, steps },
        None => known_path(base),
    }
}

/// The path at which a finding in a pair of parts at `(i, j)` is reported.
pub open spec fn finding_path(
    finding: Finding,
    prev: JsonView,
    curr: JsonView,
    i: int,
    j: int,
) -> PathView {
    let args = part_field_path(i, j, "functionCall.args"@);
    let output = part_field_path(i, j, "functionResponse.response.result"@);
    match finding {
        Finding::ArgsTruncated => known_path(args),
        Finding::ArgsEdited => precise_path(args, args_of(prev)->0, args_of(curr)->0),
        Finding::OutputTruncated => known_path(output),
        Finding::OutputEdited => precise_path(output, result_of(prev)->0, result_of(curr)->0),
        Finding::Signature => known_path(
            part_field_path(i, j, slot_change(prev, curr)->0.suffix),
        ),
        Finding::Thought => known_path(part_field_path(i, j, "text"@)),
    }
}

/// Part `j` of content `i`.
pub open spec fn part_at(contents: Seq<JsonView>, i: int, j: int) -> JsonView {
    (parts_of(contents[i])->0)[j]
}

/// The path at which a finding at a place is reported.
pub open spec fn place_path(
    finding: Finding,
    prev: Seq<JsonView>,
    curr: Seq<JsonView>,
    place: Option<(int, int)>,
) -> Option<PathView> {
    match place {
        Some((i, j)) => Some(
            finding_path(finding, part_at(prev, i, j), part_at(curr, i, j), i, j),
        ),
        None => None,
    }
}

/// The index before which a finding is looked for: the last of the current
/// contents is no history, but it carries signatures.
pub open spec fn search_limit(finding: Finding, curr: Seq<JsonView>) -> int {
    if finding is Signature {
        curr.len() as int
    } else {
        curr.len() - 1
    }
}

/// The place of the first occurrence of a finding in two request bodies.
pub open spec fn finding_place(finding: Finding, prev: JsonView, curr: JsonView) -> Option<
    (int, int),
> {
    let p = contents_of(prev);
    let c = contents_of(curr);
    first_place(finding, p, c, search_limit(finding, c), 0)
}

/// The path of the first occurrence of a finding in two request bodies.
pub open spec fn first_finding(finding: Finding, prev: JsonView, curr: JsonView) -> Option<
    PathView,
> {
    place_path(finding, contents_of(prev), contents_of(curr), finding_place(finding, prev, curr))
}

/// Writes the path of a field of part `j` of content `i`.
fn to_part_field_path(i: usize, j: usize, field: &str) -> (path: String)
    ensures
        path@ == part_field_path(i as int, j as int, field@),
{
    let mut path = "request.contents[".to_string();
    path.append(to_decimal(i as u64).as_str());
    path.append("].parts[");
    path.append(to_decimal(j as u64).as_str());
    path.append("].");
    path.append(field);
    path
}

/// The value under the first of two keys, else under the second.
fn part_get<'a>(part: &'a Json, camel: &str, snake: &str) -> (found: Option<&'a Json>)
    ensures
        opt_view(found) == either(part@, camel@, snake@),
{
    match part.get(camel) {
        Some(v) => Some(v),
        None => part.get(snake),
    }
}

/// The list under `parts` of one content.
fn parts_array<'a>(content: &'a Json) -> (parts: Option<&'a Vec<Json>>)
    ensures
        match parts {
            Some(v) => parts_of(content@) == Some(views(v@)),
            None => parts_of(content@) is None,
        },
{
    match content.get("parts") {
        Some(v) => v.as_array(),
        None => None,
    }
}

/// The first tool-argument and tool-output changes of each kind.
pub struct ContentDiffs {
    pub args_trunc: Option<DivergencePath>,
    pub args_change: Option<DivergencePath>,
    pub output_trunc: Option<DivergencePath>,
    pub output_change: Option<DivergencePath>,
}

impl ContentDiffs {
    /// The path that is recorded for a finding.
    pub open spec fn path(self, finding: Finding) -> Option<PathView> {
        match finding {
            Finding::ArgsTruncated => opt_path(self.args_trunc),
            Finding::ArgsEdited => opt_path(self.args_change),
            Finding::OutputTruncated => opt_path(self.output_trunc),
            Finding::OutputEdited => opt_path(self.output_change),
            _ => None,
        }
    }
}

/// Whether the finding is one that [`ContentDiffs`] records.
pub open spec fn is_tool_finding(finding: Finding) -> bool {
    match finding {
        Finding::Signature => false,
        Finding::Thought => false,
        _ => true,
    }
}

/// The first path under `base` at which two values differ, `base` itself where
/// they do not.
pub(crate) fn to_precise_path(base: String, prev: &Json, curr: &Json) -> (path: DivergencePath)
    ensures
        path@ == precise_path(base@, prev@, curr@),
{
    match first_difference_steps(prev, curr) {
        Some(steps) => DivergencePath { base, steps },
        None => DivergencePath::known(base),
    }
}

/// Records what a pair of parts shows, where nothing was recorded before.
fn scan_part(prev: &Json, curr: &Json, i: usize, j: usize, out: &mut ContentDiffs)
    ensures
        forall|finding: Finding|
            is_tool_finding(finding) ==> #[trigger] final(out).path(finding) == (if old(
                out,
            ).path(finding) is None && shows(finding, prev@, curr@) {
                Some(finding_path(finding, prev@, curr@, i as int, j as int))
            } else {
                old(out).path(finding)
            }),
{
    let pa = get_from(part_get(prev, "functionCall", "function_call"), "args");
    let ca = get_from(part_get(curr, "functionCall", "function_call"), "args");
    if let (Some(x), Some(y)) = (pa, ca) {
        if !json_equal(x, y) {
            let base = to_part_field_path(i, j, "functionCall.args");
            if is_args_truncation_sentinel(y) && !is_args_truncation_sentinel(x) {
                if out.args_trunc.is_none() {
                    out.args_trunc = Some(DivergencePath::known(base));
                }
            } else if out.args_change.is_none() {
                out.args_change = Some(to_precise_path(base, x, y));
            }
        }
    }
    let pr = get_from(
        get_from(part_get(prev, "functionResponse", "function_response"), "response"),
        "result",
    );
    let cr = get_from(
        get_from(part_get(curr, "functionResponse", "function_response"), "response"),
        "result",
    );
    if let (Some(x), Some(y)) = (pr, cr) {
        if !json_equal(x, y) {
            let base = to_part_field_path(i, j, "functionResponse.response.result");
            if is_tool_output_truncation_sentinel(y) && !is_tool_output_truncation_sentinel(x) {
                if out.output_trunc.is_none() {
                    out.output_trunc = Some(DivergencePath::known(base));
                }
            } else if out.output_change.is_none() {
                out.output_change = Some(to_precise_path(base, x, y));
            }
        }
    }
}

/// What is recorded of a finding is the path at the place where it first occurs;
/// while nothing is recorded, that place is still ahead.
spec fn caught_up(
    recorded: Option<PathView>,
    finding: Finding,
    prev: Seq<JsonView>,
    curr: Seq<JsonView>,
    whole: Option<(int, int)>,
    ahead: Option<(int, int)>,
) -> bool {
    if recorded is Some {
        recorded == place_path(finding, prev, curr, whole)
    } else {
        whole == ahead
    }
}

/// Scans historical `contents[i]` (i < last index of current contents) for
/// tool-argument and tool-output changes, distinguishing exact sentinel
/// transitions from arbitrary edits.
pub fn scan_historical_content_diffs(prev: &Json, curr: &Json) -> (out: ContentDiffs)
    ensures
        forall|finding: Finding|
            is_tool_finding(finding) ==> #[trigger] out.path(finding) == first_finding(
                finding,
                prev@,
                curr@,
            ),
{
    let pv = contents_array(prev);
    let cv = contents_array(curr);
    let ghost ps = contents_of(prev@);
    let ghost cs = contents_of(curr@);
    let mut out = ContentDiffs {
        args_trunc: None,
        args_change: None,
        output_trunc: None,
        output_change: None,
    };
    let last: usize = if cv.len() == 0 {
        0
    } else {
        cv.len() - 1
    };
    let mut i: usize = 0;
    while i < last && i < pv.len()
        invariant
            ps == views(pv@),
            cs == views(cv@),
            last <= cv@.len(),
            cv@.len() == 0 ==> last == 0,
            cv@.len() > 0 ==> last == cv@.len() - 1,
            i <= last,
            i <= pv@.len(),
            forall|finding: Finding|
                is_tool_finding(finding) ==> caught_up(
                    #[trigger] out.path(finding),
                    finding,
                    ps,
                    cs,
                    first_place(finding, ps, cs, cs.len() - 1, 0),
                    first_place(finding, ps, cs, cs.len() - 1, i as int),
                ),
        decreases last - i,
    {
        assert(ps[i as int] == pv@[i as int]@);
        assert(cs[i as int] == cv@[i as int]@);
        if let (Some(pp), Some(cp)) = (parts_array(&pv[i]), parts_array(&cv[i])) {
            let ghost pps = views(pp@);
            let ghost cps = views(cp@);
            let mut j: usize = 0;
            while j < pp.len() && j < cp.len()
                invariant
                    ps == views(pv@),
                    cs == views(cv@),
                    i < last <= cv@.len(),
                    i < pv@.len(),
                    cv@.len() > 0 ==> last == cv@.len() - 1,
                    pps == views(pp@),
                    cps == views(cp@),
                    parts_of(ps[i as int]) == Some(pps),
                    parts_of(cs[i as int]) == Some(cps),
                    j <= pp@.len(),
                    j <= cp@.len(),
                    forall|finding: Finding|
                        is_tool_finding(finding) ==> caught_up(
                            #[trigger] out.path(finding),
                            finding,
                            ps,
                            cs,
                            first_place(finding, ps, cs, cs.len() - 1, 0),
                            first_place_from(finding, ps, cs, cs.len() - 1, i as int, j as int),
                        ),
                decreases pp@.len() - j,
            {
                assert(pps[j as int] == pp@[j as int]@);
                assert(cps[j as int] == cp@[j as int]@);
                let ghost before = out;
                scan_part(&pp[j], &cp[j], i, j, &mut out);
                assert forall|finding: Finding| is_tool_finding(finding) implies caught_up(
                    #[trigger] out.path(finding),
                    finding,
                    ps,
                    cs,
                    first_place(finding, ps, cs, cs.len() - 1, 0),
                    first_place_from(finding, ps, cs, cs.len() - 1, i as int, j + 1),
                ) by {
                    let earlier = before.path(finding);
                    assert(caught_up(
                        earlier,
                        finding,
                        ps,
                        cs,
                        first_place(finding, ps, cs, cs.len() - 1, 0),
                        first_place_from(finding, ps, cs, cs.len() - 1, i as int, j as int),
                    ));
                }
                j += 1;
            }
        }
        i += 1;
    }
    out
}

/// The transition that is reported for the first signature divergence.
pub open spec fn first_transition(prev: JsonView, curr: JsonView) -> Option<Seq<char>> {
    match finding_place(Finding::Signature, prev, curr) {
        Some((i, j)) => {
            let change = slot_change(
                part_at(contents_of(prev), i, j),
                part_at(contents_of(curr), i, j),
            )->0;
            Some(transition_name(kind_of(change.prev), kind_of(change.curr)))
        },
        None => None,
    }
}

/// The first signature slot in which two parts differ: its field path and the
/// transition.
fn part_signature_change(prev: &Json, curr: &Json) -> (change: Option<
    (&'static str, &'static str),
>)
    ensures
        match change {
            Some((field, transition)) => {
                let slot = slot_change(prev@, curr@);
                &&& slot is Some
                &&& field@ == slot->0.suffix
                &&& transition@ == transition_name(kind_of(slot->0.prev), kind_of(slot->0.curr))
            },
            None => slot_change(prev@, curr@) is None,
        },
{
    let a = prev.get("thoughtSignature");
    let b = curr.get("thoughtSignature");
    if !opt_equal(a, b) {
        return Some(
            ("thoughtSignature", signature_transition_enum(signature_kind(a), signature_kind(b))),
        );
    }
    let a = prev.get("thought_signature");
    let b = curr.get("thought_signature");
    if !opt_equal(a, b) {
        return Some(
            ("thought_signature", signature_transition_enum(signature_kind(a), signature_kind(b))),
        );
    }
    let prev_call = part_get(prev, "functionCall", "function_call");
    let curr_call = part_get(curr, "functionCall", "function_call");
    let a = get_from(prev_call, "thoughtSignature");
    let b = get_from(curr_call, "thoughtSignature");
    if !opt_equal(a, b) {
        return Some(
            (
                "functionCall.thoughtSignature",
                signature_transition_enum(signature_kind(a), signature_kind(b)),
            ),
        );
    }
    let a = get_from(prev_call, "thought_signature");
    let b = get_from(curr_call, "thought_signature");
    if !opt_equal(a, b) {
        return Some(
            (
                "functionCall.thought_signature",
                signature_transition_enum(signature_kind(a), signature_kind(b)),
            ),
        );
    }
    None
}

/// First path where a `thoughtSignature` / `thought_signature` value differs,
/// including signatures nested under `functionCall`, together with the
/// representation transition observed at that exact path.
///
/// The transition is computed from the same previous/current values that
/// produced the divergence, and never from any cache state.
pub fn signature_divergence(prev: &Json, curr: &Json) -> (found: Option<(String, &'static str)>)
    ensures
        match found {
            Some((path, transition)) => {
                &&& first_finding(Finding::Signature, prev@, curr@) == Some(known_path(path@))
                &&& first_transition(prev@, curr@) == Some(transition@)
            },
            None => finding_place(Finding::Signature, prev@, curr@) is None,
        },
{
    let pv = contents_array(prev);
    let cv = contents_array(curr);
    let ghost ps = contents_of(prev@);
    let ghost cs = contents_of(curr@);
    let ghost whole = finding_place(Finding::Signature, prev@, curr@);
    let mut i: usize = 0;
    while i < pv.len() && i < cv.len()
        invariant
            ps == contents_of(prev@),
            ps == views(pv@),
            cs == contents_of(curr@),
            cs == views(cv@),
            whole == finding_place(Finding::Signature, prev@, curr@),
            i <= pv@.len(),
            i <= cv@.len(),
            whole == first_place(Finding::Signature, ps, cs, cs.len() as int, i as int),
        decreases pv@.len() - i,
    {
        assert(ps[i as int] == pv@[i as int]@);
        assert(cs[i as int] == cv@[i as int]@);
        if let (Some(pp), Some(cp)) = (parts_array(&pv[i]), parts_array(&cv[i])) {
            let ghost pps = views(pp@);
            let ghost cps = views(cp@);
            let mut j: usize = 0;
            while j < pp.len() && j < cp.len()
                invariant
                    ps == contents_of(prev@),
                    ps == views(pv@),
                    cs == contents_of(curr@),
                    cs == views(cv@),
                    whole == finding_place(Finding::Signature, prev@, curr@),
                    i < cv@.len(),
                    i < pv@.len(),
                    pps == views(pp@),
                    cps == views(cp@),
                    parts_of(ps[i as int]) == Some(pps),
                    parts_of(cs[i as int]) == Some(cps),
                    j <= pp@.len(),
                    j <= cp@.len(),
                    whole == first_place_from(
                        Finding::Signature,
                        ps,
                        cs,
                        cs.len() as int,
                        i as int,
                        j as int,
                    ),
                decreases pp@.len() - j,
            {
                assert(pps[j as int] == pp@[j as int]@);
                assert(cps[j as int] == cp@[j as int]@);
                if let Some((field, transition)) = part_signature_change(&pp[j], &cp[j]) {
                    return Some((to_part_field_path(i, j, field), transition));
                }
                j += 1;
            }
        }
        i += 1;
    }
    None
}

/// First `thoughtSignature` divergence path, if any.
pub fn signature_diff_path(prev: &Json, curr: &Json) -> (found: Option<String>)
    ensures
        match found {
            Some(path) => first_finding(Finding::Signature, prev@, curr@) == Some(known_path(path@)),
            None => first_finding(Finding::Signature, prev@, curr@) is None,
        },
{
    match signature_divergence(prev, curr) {
        Some((path, _)) => Some(path),
        None => None,
    }
}

/// The name that is reported for the signatures of two request bodies.
pub open spec fn transition_report(prev: JsonView, curr: JsonView) -> Seq<char> {
    match first_transition(prev, curr) {
        Some(name) => name,
        None => "none"@,
    }
}

/// Transition name for a signature divergence, or `none` when the two snapshots
/// have no divergent signature slot.
pub fn signature_transition(prev: &Json, curr: &Json) -> (name: &'static str)
    ensures
        name@ == transition_report(prev@, curr@),
{
    match signature_divergence(prev, curr) {
        Some((_, transition)) => transition,
        None => "none",
    }
}

/// Whether a value that may be absent is `true`.
fn is_flagged(value: Option<&Json>) -> (r: bool)
    ensures
        r == flagged(opt_view(value)),
{
    match value {
        Some(v) => v.is_true(),
        None => false,
    }
}

/// First differing `text` in a historical content part flagged `thought: true`.
pub fn historical_thought_change_path(prev: &Json, curr: &Json) -> (found: Option<String>)
    ensures
        match found {
            Some(path) => first_finding(Finding::Thought, prev@, curr@) == Some(known_path(path@)),
            None => first_finding(Finding::Thought, prev@, curr@) is None,
        },
{
    let pv = contents_array(prev);
    let cv = contents_array(curr);
    let ghost ps = contents_of(prev@);
    let ghost cs = contents_of(curr@);
    let ghost whole = finding_place(Finding::Thought, prev@, curr@);
    let last: usize = if cv.len() == 0 {
        0
    } else {
        cv.len() - 1
    };
    let mut i: usize = 0;
    while i < last && i < pv.len()
        invariant
            ps == contents_of(prev@),
            ps == views(pv@),
            cs == contents_of(curr@),
            cs == views(cv@),
            whole == finding_place(Finding::Thought, prev@, curr@),
            last <= cv@.len(),
            cv@.len() == 0 ==> last == 0,
            cv@.len() > 0 ==> last == cv@.len() - 1,
            i <= last,
            i <= pv@.len(),
            whole == first_place(Finding::Thought, ps, cs, cs.len() - 1, i as int),
        decreases last - i,
    {
        assert(ps[i as int] == pv@[i as int]@);
        assert(cs[i as int] == cv@[i as int]@);
        if let (Some(pp), Some(cp)) = (parts_array(&pv[i]), parts_array(&cv[i])) {
            let ghost pps = views(pp@);
            let ghost cps = views(cp@);
            let mut j: usize = 0;
            while j < pp.len() && j < cp.len()
                invariant
                    ps == contents_of(prev@),
                    ps == views(pv@),
                    cs == contents_of(curr@),
                    cs == views(cv@),
                    whole == finding_place(Finding::Thought, prev@, curr@),
                    i < last <= cv@.len(),
                    i < pv@.len(),
                    cv@.len() > 0 ==> last == cv@.len() - 1,
                    pps == views(pp@),
                    cps == views(cp@),
                    parts_of(ps[i as int]) == Some(pps),
                    parts_of(cs[i as int]) == Some(cps),
                    j <= pp@.len(),
                    j <= cp@.len(),
                    whole == first_place_from(
                        Finding::Thought,
                        ps,
                        cs,
                        cs.len() - 1,
                        i as int,
                        j as int,
                    ),
                decreases pp@.len() - j,
            {
                assert(pps[j as int] == pp@[j as int]@);
                assert(cps[j as int] == cp@[j as int]@);
                let thought = is_flagged(pp[j].get("thought")) || is_flagged(cp[j].get("thought"));
                if thought && !opt_equal(pp[j].get("text"), cp[j].get("text")) {
                    return Some(to_part_field_path(i, j, "text"));
                }
                j += 1;
            }
        }
        i += 1;
    }
    None
}

} // verus!
