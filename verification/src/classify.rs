//! The classification of the difference between two request bodies.
//!
//! When several semantic regions differ at once the classification is chosen by
//! an explicit protocol-aware precedence list, not by the order of members:
//!
//!   * `project` / `model` / `userAgent` are whole-cache-key selectors: a change
//!     invalidates the entire upstream cache key, so they outrank anything
//!     request-internal.
//!   * `request.*` regions then follow their serialization order, which is the
//!     order the cached prefix is built in.
//!   * Historical content instability (truncation, edits, signatures) follows,
//!     because it invalidates the cached prefix part-way through.
//!   * The volatile top-level `requestId` is last, and `UNKNOWN` is only reached
//!     for a structural divergence no rule recognises.
//!
//! A pure trailing append of `request.contents`, tolerating the volatile
//! top-level `requestId`, is the normal, expected case and is looked for before
//! the list.

use vstd::prelude::*;
use crate::divergence::opt_chars;
use crate::history::{contents_array, contents_of, Finding};
use crate::json::{get_from, get_opt, json_equal, opt_view, same_json, views, Json, JsonView};
use crate::masked::{
    equal_except, key_path_views, key_views, path_view, same_except, PathStep,
};
use crate::path::{known_path, opt_path, opt_text, DivergencePath, PathView, StepView};
use crate::scan::{
    first_finding, historical_thought_change_path, precise_path, scan_historical_content_diffs,
    signature_diff_path, to_precise_path,
};
use crate::text::{chars_of, decimal, to_decimal};

verus! {

/// What the difference between two request bodies amounts to.
pub ghost enum Class {
    Identical,
    ContentAppendOnly,
    AccountProjectChange,
    ModelChange,
    UserAgentChange,
    SystemInstructionChange,
    ToolDefinitionChange,
    GenerationConfigChange,
    SessionIdChange,
    ToolArgsTruncation,
    ToolOutputTruncation,
    ToolArgsChange,
    ToolOutputChange,
    SignatureChange,
    ThoughtChange,
    RequestIdOnly,
    Unknown,
}

/// The name under which a class is reported.
pub open spec fn class_name(class: Class) -> Seq<char> {
    match class {
        Class::Identical => "IDENTICAL"@,
        Class::ContentAppendOnly => "CONTENT_APPEND_ONLY"@,
        Class::AccountProjectChange => "ACCOUNT_PROJECT_CHANGE"@,
        Class::ModelChange => "MODEL_CHANGE"@,
        Class::UserAgentChange => "USER_AGENT_CHANGE"@,
        Class::SystemInstructionChange => "SYSTEM_INSTRUCTION_CHANGE"@,
        Class::ToolDefinitionChange => "TOOL_DEFINITION_CHANGE"@,
        Class::GenerationConfigChange => "GENERATION_CONFIG_CHANGE"@,
        Class::SessionIdChange => "SESSION_ID_CHANGE"@,
        Class::ToolArgsTruncation => "HISTORICAL_TOOL_ARGS_TRUNCATION"@,
        Class::ToolOutputTruncation => "HISTORICAL_TOOL_OUTPUT_TRUNCATION"@,
        Class::ToolArgsChange => "HISTORICAL_TOOL_ARGS_CHANGE"@,
        Class::ToolOutputChange => "HISTORICAL_TOOL_OUTPUT_CHANGE"@,
        Class::SignatureChange => "THINKING_SIGNATURE_CHANGE"@,
        Class::ThoughtChange => "HISTORICAL_THOUGHT_CHANGE"@,
        Class::RequestIdOnly => "REQUEST_ID_ONLY"@,
        Class::Unknown => "UNKNOWN"@,
    }
}

/// Whether `i` is the index of the first dot of a path.
pub open spec fn first_dot(path: Seq<char>, i: int) -> bool {
    &&& 0 <= i < path.len()
    &&& path[i] == '.'
    &&& forall|j: int| 0 <= j < i ==> #[trigger] path[j] != '.'
}

/// The value that a path of keys, separated by dots, leads to.
pub open spec fn dotted(value: JsonView, path: Seq<char>) -> Option<JsonView>
    decreases path.len(),
{
    if exists|i: int| first_dot(path, i) {
        let i = choose|i: int| first_dot(path, i);
        match value.get(path.take(i)) {
            Some(inner) => dotted(inner, path.skip(i + 1)),
            None => None,
        }
    } else {
        value.get(path)
    }
}

/// A string made of some of the characters of a list.
fn string_of(chars: &Vec<char>, from: usize, to: usize) -> (s: String)
    requires
        from <= to <= chars@.len(),
    ensures
        s@ == chars@.subrange(from as int, to as int),
{
    let mut s = String::new();
    let mut i: usize = from;
    while i < to
        invariant
            from <= i <= to <= chars@.len(),
            s@ == chars@.subrange(from as int, i as int),
        decreases to - i,
    {
        s.push(chars[i]);
        i += 1;
        assert(s@ =~= chars@.subrange(from as int, i as int));
    }
    s
}

/// Resolves a dot-separated path (no array indices).
pub fn dotted_get<'a>(value: &'a Json, path: &str) -> (found: Option<&'a Json>)
    ensures
        opt_view(found) == dotted(value@, path@),
{
    let chars = chars_of(path);
    let mut cur: &'a Json = value;
    let mut start: usize = 0;
    let mut i: usize = 0;
    assert(chars@.skip(0) =~= chars@);
    while i < chars.len()
        invariant
            start <= i <= chars@.len(),
            dotted(value@, path@) == dotted(cur@, chars@.skip(start as int)),
            forall|j: int| start <= j < i ==> #[trigger] chars@[j] != '.',
        decreases chars@.len() - i,
    {
        if chars[i] == '.' {
            let ghost rest = chars@.skip(start as int);
            let segment = string_of(&chars, start, i);
            assert(first_dot(rest, i - start));
            assert(rest.take(i - start) =~= segment@);
            assert(rest.skip(i - start + 1) =~= chars@.skip(i + 1));
            match cur.get(segment.as_str()) {
                Some(inner) => {
                    cur = inner;
                },
                None => {
                    return None;
                },
            }
            start = i + 1;
        }
        i += 1;
    }
    let ghost rest = chars@.skip(start as int);
    assert(forall|j: int| 0 <= j < rest.len() ==> #[trigger] rest[j] == chars@[start + j]);
    assert(forall|j: int| !first_dot(rest, j));
    let segment = string_of(&chars, start, chars.len());
    assert(segment@ =~= rest);
    cur.get(segment.as_str())
}

/// Where the region rooted at `path` differs, if it differs at all.
pub open spec fn region_report(prev: JsonView, curr: JsonView, path: Seq<char>) -> Option<
    PathView,
> {
    match (dotted(prev, path), dotted(curr, path)) {
        (None, None) => None,
        (Some(x), Some(y)) => if same_json(x, y) {
            None
        } else {
            Some(precise_path(path, x, y))
        },
        _ => Some(known_path(path)),
    }
}

/// A divergence path within the region rooted at `path`, if the region differs
/// at all.
pub open spec fn region_divergence(prev: JsonView, curr: JsonView, path: Seq<char>) -> Option<
    Seq<char>,
> {
    opt_text(region_report(prev, curr, path))
}

/// Where the region rooted at `path` differs, if it differs at all.
fn region_difference(prev: &Json, curr: &Json, path: &str) -> (found: Option<DivergencePath>)
    ensures
        opt_path(found) == region_report(prev@, curr@, path@),
{
    match (dotted_get(prev, path), dotted_get(curr, path)) {
        (None, None) => None,
        (Some(x), Some(y)) => {
            if json_equal(x, y) {
                None
            } else {
                Some(to_precise_path(path.to_string(), x, y))
            }
        },
        _ => Some(DivergencePath::known(path.to_string())),
    }
}

/// Returns a precise divergence path within the region rooted at `path`, if the
/// region differs at all.
pub fn region_diff_path(prev: &Json, curr: &Json, path: &str) -> (found: Option<String>)
    ensures
        opt_chars(found) == region_divergence(prev@, curr@, path@),
{
    match region_difference(prev, curr, path) {
        Some(found) => Some(found.text()),
        None => None,
    }
}

/// The regions with a class of their own, the most relevant first.
pub open spec fn regions() -> Seq<(Seq<char>, Class)> {
    seq![
        ("project"@, Class::AccountProjectChange),
        ("model"@, Class::ModelChange),
        ("userAgent"@, Class::UserAgentChange),
        ("request.systemInstruction"@, Class::SystemInstructionChange),
        ("request.tools"@, Class::ToolDefinitionChange),
        ("request.toolConfig"@, Class::ToolDefinitionChange),
        ("request.tool_config"@, Class::ToolDefinitionChange),
        ("request.generationConfig"@, Class::GenerationConfigChange),
        ("request.generation_config"@, Class::GenerationConfigChange),
        ("request.sessionId"@, Class::SessionIdChange),
        ("request.session_id"@, Class::SessionIdChange),
        ("sessionId"@, Class::SessionIdChange),
        ("session_id"@, Class::SessionIdChange),
    ]
}

/// The number of regions with a class of their own.
const REGION_COUNT: usize = 13;

/// The path and the class name of a region.
fn region(k: usize) -> (rule: (&'static str, &'static str))
    requires
        k < REGION_COUNT,
    ensures
        rule.0@ == regions()[k as int].0,
        rule.1@ == class_name(regions()[k as int].1),
{
    match k {
        0 => ("project", "ACCOUNT_PROJECT_CHANGE"),
        1 => ("model", "MODEL_CHANGE"),
        2 => ("userAgent", "USER_AGENT_CHANGE"),
        3 => ("request.systemInstruction", "SYSTEM_INSTRUCTION_CHANGE"),
        4 => ("request.tools", "TOOL_DEFINITION_CHANGE"),
        5 => ("request.toolConfig", "TOOL_DEFINITION_CHANGE"),
        6 => ("request.tool_config", "TOOL_DEFINITION_CHANGE"),
        7 => ("request.generationConfig", "GENERATION_CONFIG_CHANGE"),
        8 => ("request.generation_config", "GENERATION_CONFIG_CHANGE"),
        9 => ("request.sessionId", "SESSION_ID_CHANGE"),
        10 => ("request.session_id", "SESSION_ID_CHANGE"),
        11 => ("sessionId", "SESSION_ID_CHANGE"),
        _ => ("session_id", "SESSION_ID_CHANGE"),
    }
}

/// The first region, from `k` on, that differs.
pub open spec fn first_region(prev: JsonView, curr: JsonView, k: int) -> Option<int>
    decreases regions().len() - k,
{
    if 0 <= k < regions().len() {
        if region_divergence(prev, curr, regions()[k].0) is Some {
            Some(k)
        } else {
            first_region(prev, curr, k + 1)
        }
    } else {
        None
    }
}

/// The path of the volatile top-level `requestId`.
pub open spec fn request_id_path() -> Seq<Seq<char>> {
    seq!["requestId"@]
}

/// The path of the conversation.
pub open spec fn contents_path() -> Seq<Seq<char>> {
    seq!["request"@, "contents"@]
}

/// Whether a body holds a conversation that can be appended to: a list of
/// contents, or none yet.
pub open spec fn has_conversation(body: JsonView) -> bool {
    match get_opt(body.get("request"@), "contents"@) {
        Some(contents) => contents is Array,
        None => true,
    }
}

/// Whether `curr.request.contents` is `prev.request.contents` plus a trailing
/// append, tolerating only the volatile top-level `requestId`.
pub open spec fn append_only(prev: JsonView, curr: JsonView) -> bool {
    let p = contents_of(prev);
    let c = contents_of(curr);
    &&& has_conversation(prev)
    &&& p.len() < c.len()
    &&& forall|i: int| 0 <= i < p.len() ==> same_json(#[trigger] p[i], c[i])
    &&& same_except(prev, curr, Seq::empty(), seq![request_id_path(), contents_path()])
}

/// The path of content `i`.
pub open spec fn content_path(i: int) -> Seq<char> {
    "request.contents["@ + decimal(i as nat) + "]"@
}

/// Whether `curr` is a body with a pure trailing append; the path of the first
/// content that was appended.
pub fn is_content_append_only(prev: &Json, curr: &Json) -> (path: Option<String>)
    ensures
        opt_chars(path) == (if append_only(prev@, curr@) {
            Some(content_path(contents_of(prev@).len() as int))
        } else {
            None
        }),
{
    let pc = contents_array(prev);
    let cc = contents_array(curr);
    let ghost ps = contents_of(prev@);
    let ghost cs = contents_of(curr@);
    if pc.len() >= cc.len() {
        return None;
    }
    if let Some(contents) = get_from(prev.get("request"), "contents") {
        if contents.as_array().is_none() {
            return None;
        }
    }
    let mut i: usize = 0;
    while i < pc.len()
        invariant
            ps == contents_of(prev@),
            cs == contents_of(curr@),
            ps == views(pc@),
            cs == views(cc@),
            pc@.len() < cc@.len(),
            has_conversation(prev@),
            i <= pc@.len(),
            forall|k: int| 0 <= k < i ==> same_json(#[trigger] ps[k], cs[k]),
        decreases pc@.len() - i,
    {
        assert(ps[i as int] == pc@[i as int]@);
        assert(cs[i as int] == cc@[i as int]@);
        if !json_equal(&pc[i], &cc[i]) {
            return None;
        }
        i += 1;
    }
    let root: Vec<PathStep> = Vec::new();
    let ignored = vec![vec!["requestId"], vec!["request", "contents"]];
    proof {
        assert(path_view(root@) =~= Seq::<StepView>::empty());
        assert(key_views(ignored@[0]@) =~= request_id_path());
        assert(key_views(ignored@[1]@) =~= contents_path());
        assert(key_path_views(ignored@) =~= seq![request_id_path(), contents_path()]);
    }
    if !equal_except(prev, curr, &root, &ignored) {
        return None;
    }
    let mut path = "request.contents[".to_string();
    path.append(to_decimal(pc.len() as u64).as_str());
    path.append("]");
    Some(path)
}

/// Whether the volatile top-level `requestId` is all that differs.
pub open spec fn request_id_only(prev: JsonView, curr: JsonView) -> bool {
    same_except(prev, curr, Seq::empty(), seq![request_id_path()])
}

/// What is reported for two request bodies: where they differ, and the class.
pub open spec fn report(prev: JsonView, curr: JsonView) -> (PathView, Class) {
    let args_truncation = first_finding(Finding::ArgsTruncated, prev, curr);
    let output_truncation = first_finding(Finding::OutputTruncated, prev, curr);
    let args_change = first_finding(Finding::ArgsEdited, prev, curr);
    let output_change = first_finding(Finding::OutputEdited, prev, curr);
    let signature = first_finding(Finding::Signature, prev, curr);
    let thought = first_finding(Finding::Thought, prev, curr);
    let rule = first_region(prev, curr, 0);
    if same_json(prev, curr) {
        (known_path(Seq::empty()), Class::Identical)
    } else if append_only(prev, curr) {
        (known_path(content_path(contents_of(prev).len() as int)), Class::ContentAppendOnly)
    } else if rule is Some {
        (region_report(prev, curr, regions()[rule->0].0)->0, regions()[rule->0].1)
    } else if args_truncation is Some {
        (args_truncation->0, Class::ToolArgsTruncation)
    } else if output_truncation is Some {
        (output_truncation->0, Class::ToolOutputTruncation)
    } else if args_change is Some {
        (args_change->0, Class::ToolArgsChange)
    } else if output_change is Some {
        (output_change->0, Class::ToolOutputChange)
    } else if signature is Some {
        (signature->0, Class::SignatureChange)
    } else if thought is Some {
        (thought->0, Class::ThoughtChange)
    } else if request_id_only(prev, curr) {
        (known_path("requestId"@), Class::RequestIdOnly)
    } else {
        (precise_path(Seq::empty(), prev, curr), Class::Unknown)
    }
}

/// The path and the class that are reported for two request bodies.
pub open spec fn classification(prev: JsonView, curr: JsonView) -> (Seq<char>, Class) {
    (report(prev, curr).0.text(), report(prev, curr).1)
}

/// Classifies the semantic divergence between two request bodies.
///
/// Returns `(path, classification)`. `path` is empty and the classification is
/// `IDENTICAL` when the two bodies are structurally equal.
pub fn classify_diff(prev: &Json, curr: &Json) -> (reported: (String, &'static str))
    ensures
        reported.0@ == classification(prev@, curr@).0,
        reported.1@ == class_name(classification(prev@, curr@).1),
{
    let (path, class) = classify_difference(prev, curr);
    (path.text(), class)
}

/// Classifies the semantic divergence between two request bodies, and tells where
/// they differ.
pub fn classify_difference(prev: &Json, curr: &Json) -> (reported: (
    DivergencePath,
    &'static str,
))
    ensures
        reported.0@ == report(prev@, curr@).0,
        reported.1@ == class_name(report(prev@, curr@).1),
{
    if json_equal(prev, curr) {
        return (DivergencePath::known(String::new()), "IDENTICAL");
    }
    if let Some(path) = is_content_append_only(prev, curr) {
        return (DivergencePath::known(path), "CONTENT_APPEND_ONLY");
    }
    let mut k: usize = 0;
    while k < REGION_COUNT
        invariant
            k <= REGION_COUNT,
            !same_json(prev@, curr@),
            !append_only(prev@, curr@),
            first_region(prev@, curr@, 0) == first_region(prev@, curr@, k as int),
        decreases REGION_COUNT - k,
    {
        let (path, class) = region(k);
        if let Some(found) = region_difference(prev, curr, path) {
            return (found, class);
        }
        k += 1;
    }
    let diffs = scan_historical_content_diffs(prev, curr);
    assert(opt_path(diffs.args_trunc) == diffs.path(Finding::ArgsTruncated));
    assert(opt_path(diffs.output_trunc) == diffs.path(Finding::OutputTruncated));
    assert(opt_path(diffs.args_change) == diffs.path(Finding::ArgsEdited));
    assert(opt_path(diffs.output_change) == diffs.path(Finding::OutputEdited));
    if let Some(path) = diffs.args_trunc {
        return (path, "HISTORICAL_TOOL_ARGS_TRUNCATION");
    }
    if let Some(path) = diffs.output_trunc {
        return (path, "HISTORICAL_TOOL_OUTPUT_TRUNCATION");
    }
    if let Some(path) = diffs.args_change {
        return (path, "HISTORICAL_TOOL_ARGS_CHANGE");
    }
    if let Some(path) = diffs.output_change {
        return (path, "HISTORICAL_TOOL_OUTPUT_CHANGE");
    }
    if let Some(path) = signature_diff_path(prev, curr) {
        return (DivergencePath::known(path), "THINKING_SIGNATURE_CHANGE");
    }
    if let Some(path) = historical_thought_change_path(prev, curr) {
        return (DivergencePath::known(path), "HISTORICAL_THOUGHT_CHANGE");
    }
    let root: Vec<PathStep> = Vec::new();
    let ignored = vec![vec!["requestId"]];
    proof {
        assert(path_view(root@) =~= Seq::<StepView>::empty());
        assert(key_views(ignored@[0]@) =~= request_id_path());
        assert(key_path_views(ignored@) =~= seq![request_id_path()]);
    }
    if equal_except(prev, curr, &root, &ignored) {
        return (DivergencePath::known("requestId".to_string()), "REQUEST_ID_ONLY");
    }
    (to_precise_path(String::new(), prev, curr), "UNKNOWN")
}

/// A reported name stands for one class only.
pub proof fn law_class_names_are_distinct(a: Class, b: Class)
    ensures
        class_name(a) == class_name(b) ==> a == b,
{
    reveal_strlit("IDENTICAL");
    reveal_strlit("CONTENT_APPEND_ONLY");
    reveal_strlit("ACCOUNT_PROJECT_CHANGE");
    reveal_strlit("MODEL_CHANGE");
    reveal_strlit("USER_AGENT_CHANGE");
    reveal_strlit("SYSTEM_INSTRUCTION_CHANGE");
    reveal_strlit("TOOL_DEFINITION_CHANGE");
    reveal_strlit("GENERATION_CONFIG_CHANGE");
    reveal_strlit("SESSION_ID_CHANGE");
    reveal_strlit("HISTORICAL_TOOL_ARGS_TRUNCATION");
    reveal_strlit("HISTORICAL_TOOL_OUTPUT_TRUNCATION");
    reveal_strlit("HISTORICAL_TOOL_ARGS_CHANGE");
    reveal_strlit("HISTORICAL_TOOL_OUTPUT_CHANGE");
    reveal_strlit("THINKING_SIGNATURE_CHANGE");
    reveal_strlit("HISTORICAL_THOUGHT_CHANGE");
    reveal_strlit("REQUEST_ID_ONLY");
    reveal_strlit("UNKNOWN");
    if class_name(a) == class_name(b) {
        assert(class_name(a).len() == class_name(b).len());
        assert(class_name(a)[0] == class_name(b)[0]);
    }
}

} // verus!
