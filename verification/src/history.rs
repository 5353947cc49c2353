//! Changes inside the conversation history of two request bodies.

use vstd::prelude::*;
use crate::json::{get_from, get_opt, opt_view, same_json, same_opt, views, Json, JsonView};
use crate::text::{chars_of, str_eq};

verus! {

/// Minimum byte length before a `thoughtSignature` string is treated as a real
/// signature.
pub const MIN_REAL_SIGNATURE_LEN: usize = 50;

/// The placeholder that stands where no real signature is known.
pub const SENTINEL_SIGNATURE: &'static str = "skip_thought_signature_validator";

/// Exact sentinel for truncated tool-call arguments: the string stored under
/// `_truncated` inside the `functionCall.args` object.
pub const ARGS_TRUNCATION_TEXT: &'static str = "Arguments truncated to save context window.";

/// Exact prefix for truncated tool output, as in `[Tool output truncated to save
/// context. Original length: N]`.
pub const TOOL_OUTPUT_TRUNCATION_PREFIX: &'static str = "[Tool output truncated to save context. Original length: ";

/// The value under the first of two keys, else under the second.
pub open spec fn either(value: JsonView, camel: Seq<char>, snake: Seq<char>) -> Option<JsonView> {
    match value.get(camel) {
        Some(v) => Some(v),
        None => value.get(snake),
    }
}

/// The list under `request.contents`, empty where there is none.
pub open spec fn contents_of(body: JsonView) -> Seq<JsonView> {
    match get_opt(body.get("request"@), "contents"@) {
        Some(JsonView::Array(items)) => items,
        _ => Seq::empty(),
    }
}

/// The list under `parts` of one content.
pub open spec fn parts_of(content: JsonView) -> Option<Seq<JsonView>> {
    match content.get("parts"@) {
        Some(value) => value.as_array(),
        None => None,
    }
}

/// The list under `request.contents`, empty where there is none.
pub fn contents_array<'a>(body: &'a Json) -> (items: &'a [Json])
    ensures
        views(items@) == contents_of(body@),
{
    match get_from(body.get("request"), "contents") {
        Some(value) => match value.as_array() {
            Some(items) => items.as_slice(),
            None => {
                let none: &[Json] = &[];
                assert(views(none@) =~= Seq::<JsonView>::empty());
                none
            },
        },
        None => {
            let none: &[Json] = &[];
            assert(views(none@) =~= Seq::<JsonView>::empty());
            none
        },
    }
}

/// True for the exact tool-argument truncation sentinel object.
pub open spec fn args_sentinel(value: JsonView) -> bool {
    value.get("_truncated"@) == Some(JsonView::Text(ARGS_TRUNCATION_TEXT@))
}

/// Whether all characters are ASCII decimal digits.
pub open spec fn all_digits(s: Seq<char>) -> bool {
    forall|i: int| 0 <= i < s.len() ==> '0' <= #[trigger] s[i] <= '9'
}

/// True for the exact tool-output truncation sentinel string.
pub open spec fn output_sentinel(value: JsonView) -> bool {
    exists|digits: Seq<char>|
        digits.len() > 0 && #[trigger] all_digits(digits) && value == JsonView::Text(
            TOOL_OUTPUT_TRUNCATION_PREFIX@ + digits + "]"@,
        )
}

/// True for the exact tool-argument truncation sentinel object.
pub fn is_args_truncation_sentinel(value: &Json) -> (r: bool)
    ensures
        r == args_sentinel(value@),
{
    match value.get("_truncated") {
        Some(v) => match v.as_str() {
            Some(s) => str_eq(s, ARGS_TRUNCATION_TEXT),
            None => false,
        },
        None => false,
    }
}

/// True for the exact tool-output truncation sentinel string.
/// Validates structure and format, not a broad substring.
pub fn is_tool_output_truncation_sentinel(value: &Json) -> (r: bool)
    ensures
        r == output_sentinel(value@),
{
    let text = match value.as_str() {
        Some(s) => chars_of(s),
        None => {
            return false;
        },
    };
    let prefix = chars_of(TOOL_OUTPUT_TRUNCATION_PREFIX);
    let close = chars_of("]");
    proof {
        reveal_strlit("]");
    }
    if text.len() < 2 || text.len() - 2 < prefix.len() {
        return false;
    }
    let ghost all = text@;
    let ghost digits = all.subrange(prefix@.len() as int, all.len() - 1);
    assert forall|other: Seq<char>| all == prefix@ + other + close@ implies other == digits by {
        assert(other =~= digits);
    }
    let mut i: usize = 0;
    while i < prefix.len()
        invariant
            i <= prefix@.len(),
            prefix@.len() + 2 <= text@.len(),
            prefix@ == TOOL_OUTPUT_TRUNCATION_PREFIX@,
            close@ == "]"@,
            value@ == JsonView::Text(text@),
            forall|k: int| 0 <= k < i ==> text@[k] == #[trigger] prefix@[k],
        decreases prefix@.len() - i,
    {
        if text[i] != prefix[i] {
            assert forall|other: Seq<char>| value@ != JsonView::Text(prefix@ + other + close@) by {
                assert((prefix@ + other + close@)[i as int] == prefix@[i as int]);
            }
            return false;
        }
        i += 1;
    }
    let last: usize = text.len() - 1;
    if text[last] != ']' {
        assert forall|other: Seq<char>| value@ != JsonView::Text(prefix@ + other + close@) by {
            assert((prefix@ + other + close@).last() == ']');
        }
        return false;
    }
    assert(all =~= prefix@ + digits + close@);
    let mut k: usize = prefix.len();
    while k < last
        invariant
            prefix@.len() <= k <= last,
            last == text@.len() - 1,
            value@ == JsonView::Text(text@),
            prefix@ == TOOL_OUTPUT_TRUNCATION_PREFIX@,
            close@ == "]"@,
            digits == text@.subrange(prefix@.len() as int, last as int),
            forall|other: Seq<char>| text@ == prefix@ + other + close@ ==> other == digits,
            forall|m: int| prefix@.len() <= m < k ==> '0' <= #[trigger] text@[m] <= '9',
        decreases last - k,
    {
        let c: char = text[k];
        if !('0' <= c && c <= '9') {
            assert(digits[k - prefix@.len()] == c);
            assert(!all_digits(digits));
            return false;
        }
        k += 1;
    }
    assert(all_digits(digits));
    true
}

/// Diagnostic representation class of a single `thoughtSignature` slot. No
/// signature value is retained or emitted; only the class is used.
#[derive(Clone, Copy, PartialEq, Eq, Structural)]
pub enum SignatureKind {
    /// Field absent or explicit JSON `null`.
    Missing,
    /// Exactly the sentinel.
    Sentinel,
    /// Non-sentinel string of at least the minimum length.
    Real,
    /// Present but neither real nor the sentinel, such as a short non-sentinel
    /// string or a value that is no string.
    Unknown,
}

/// The number of bytes of a string.
pub open spec fn byte_len(s: Seq<char>) -> nat {
    vstd::utf8::encode_utf8(s).len()
}

/// A real signature is long enough and not the sentinel.
pub open spec fn real_signature(s: Seq<char>) -> bool {
    byte_len(s) >= MIN_REAL_SIGNATURE_LEN && s != SENTINEL_SIGNATURE@
}

/// The class of a signature slot.
pub open spec fn kind_of(slot: Option<JsonView>) -> SignatureKind {
    match slot {
        None => SignatureKind::Missing,
        Some(JsonView::Null) => SignatureKind::Missing,
        Some(JsonView::Text(s)) => if s == SENTINEL_SIGNATURE@ {
            SignatureKind::Sentinel
        } else if real_signature(s) {
            SignatureKind::Real
        } else {
            SignatureKind::Unknown
        },
        _ => SignatureKind::Unknown,
    }
}

/// The name of the transition between two classes. The sentinel is a single
/// exact value, so a change between two sentinels has no name of its own.
pub open spec fn transition_name(prev: SignatureKind, curr: SignatureKind) -> Seq<char> {
    match (prev, curr) {
        (SignatureKind::Missing, SignatureKind::Real) => "MISSING_TO_REAL"@,
        (SignatureKind::Missing, SignatureKind::Sentinel) => "MISSING_TO_SENTINEL"@,
        (SignatureKind::Sentinel, SignatureKind::Real) => "SENTINEL_TO_REAL"@,
        (SignatureKind::Sentinel, SignatureKind::Missing) => "SENTINEL_TO_MISSING"@,
        (SignatureKind::Real, SignatureKind::Real) => "REAL_TO_REAL_DIFFERENT"@,
        (SignatureKind::Real, SignatureKind::Sentinel) => "REAL_TO_SENTINEL"@,
        (SignatureKind::Real, SignatureKind::Missing) => "REAL_TO_MISSING"@,
        _ => "UNKNOWN_SIGNATURE_TRANSITION"@,
    }
}

/// True when `s` is a real signature: non-sentinel and at least
/// `MIN_REAL_SIGNATURE_LEN` bytes.
pub fn is_real_signature(s: &str) -> (r: bool)
    ensures
        r == real_signature(s@),
{
    s.as_bytes().len() >= MIN_REAL_SIGNATURE_LEN && !str_eq(s, SENTINEL_SIGNATURE)
}

/// Classifies a `thoughtSignature` slot without retaining its value.
pub fn signature_kind(slot: Option<&Json>) -> (kind: SignatureKind)
    ensures
        kind == kind_of(opt_view(slot)),
{
    match slot {
        None => SignatureKind::Missing,
        Some(value) => match value {
            Json::Null => SignatureKind::Missing,
            Json::Text(s) => {
                if str_eq(s.as_str(), SENTINEL_SIGNATURE) {
                    SignatureKind::Sentinel
                } else if is_real_signature(s.as_str()) {
                    SignatureKind::Real
                } else {
                    SignatureKind::Unknown
                }
            },
            _ => SignatureKind::Unknown,
        },
    }
}

/// Maps a previous/current representation pair to the transition name.
pub fn signature_transition_enum(prev: SignatureKind, curr: SignatureKind) -> (name: &'static str)
    ensures
        name@ == transition_name(prev, curr),
{
    match (prev, curr) {
        (SignatureKind::Missing, SignatureKind::Real) => "MISSING_TO_REAL",
        (SignatureKind::Missing, SignatureKind::Sentinel) => "MISSING_TO_SENTINEL",
        (SignatureKind::Sentinel, SignatureKind::Real) => "SENTINEL_TO_REAL",
        (SignatureKind::Sentinel, SignatureKind::Missing) => "SENTINEL_TO_MISSING",
        (SignatureKind::Real, SignatureKind::Real) => "REAL_TO_REAL_DIFFERENT",
        (SignatureKind::Real, SignatureKind::Sentinel) => "REAL_TO_SENTINEL",
        (SignatureKind::Real, SignatureKind::Missing) => "REAL_TO_MISSING",
        _ => "UNKNOWN_SIGNATURE_TRANSITION",
    }
}

/// The arguments of a part's function call.
pub open spec fn args_of(part: JsonView) -> Option<JsonView> {
    get_opt(either(part, "functionCall"@, "function_call"@), "args"@)
}

/// The result of a part's function response.
pub open spec fn result_of(part: JsonView) -> Option<JsonView> {
    get_opt(
        get_opt(either(part, "functionResponse"@, "function_response"@), "response"@),
        "result"@,
    )
}

/// The signature that a part's function call carries under a key.
pub open spec fn call_signature_of(part: JsonView, key: Seq<char>) -> Option<JsonView> {
    get_opt(either(part, "functionCall"@, "function_call"@), key)
}

/// A signature slot in which two parts differ: where it stands in the part, and
/// the two values.
pub ghost struct SlotChange {
    pub suffix: Seq<char>,
    pub prev: Option<JsonView>,
    pub curr: Option<JsonView>,
}

/// The first signature slot in which two parts differ.
pub open spec fn slot_change(prev: JsonView, curr: JsonView) -> Option<SlotChange> {
    let camel = "thoughtSignature"@;
    let snake = "thought_signature"@;
    if !same_opt(prev.get(camel), curr.get(camel)) {
        Some(SlotChange { suffix: camel, prev: prev.get(camel), curr: curr.get(camel) })
    } else if !same_opt(prev.get(snake), curr.get(snake)) {
        Some(SlotChange { suffix: snake, prev: prev.get(snake), curr: curr.get(snake) })
    } else if !same_opt(call_signature_of(prev, camel), call_signature_of(curr, camel)) {
        Some(
            SlotChange {
                suffix: "functionCall.thoughtSignature"@,
                prev: call_signature_of(prev, camel),
                curr: call_signature_of(curr, camel),
            },
        )
    } else if !same_opt(call_signature_of(prev, snake), call_signature_of(curr, snake)) {
        Some(
            SlotChange {
                suffix: "functionCall.thought_signature"@,
                prev: call_signature_of(prev, snake),
                curr: call_signature_of(curr, snake),
            },
        )
    } else {
        None
    }
}

/// Whether a value that may be absent is `true`.
pub open spec fn flagged(value: Option<JsonView>) -> bool {
    value == Some(JsonView::Bool(true))
}

/// What can be found in a pair of corresponding parts.
pub ghost enum Finding {
    ArgsTruncated,
    ArgsEdited,
    OutputTruncated,
    OutputEdited,
    Signature,
    Thought,
}

/// Both values are there and they differ.
pub open spec fn both_changed(prev: Option<JsonView>, curr: Option<JsonView>) -> bool {
    prev is Some && curr is Some && !same_json(prev->0, curr->0)
}

/// Whether a pair of corresponding parts shows the finding.
pub open spec fn shows(finding: Finding, prev: JsonView, curr: JsonView) -> bool {
    let args_truncated = args_sentinel(args_of(curr)->0) && !args_sentinel(args_of(prev)->0);
    let output_truncated = output_sentinel(result_of(curr)->0) && !output_sentinel(
        result_of(prev)->0,
    );
    match finding {
        Finding::ArgsTruncated => both_changed(args_of(prev), args_of(curr)) && args_truncated,
        Finding::ArgsEdited => both_changed(args_of(prev), args_of(curr)) && !args_truncated,
        Finding::OutputTruncated => both_changed(result_of(prev), result_of(curr))
            && output_truncated,
        Finding::OutputEdited => both_changed(result_of(prev), result_of(curr))
            && !output_truncated,
        Finding::Signature => slot_change(prev, curr) is Some,
        Finding::Thought => {
            &&& flagged(prev.get("thought"@)) || flagged(curr.get("thought"@))
            &&& !same_opt(prev.get("text"@), curr.get("text"@))
        },
    }
}

/// The index, from `j` on, of the first pair of parts that shows the finding.
pub open spec fn first_part(
    finding: Finding,
    prev: Seq<JsonView>,
    curr: Seq<JsonView>,
    j: int,
) -> Option<int>
    decreases prev.len() - j,
{
    if 0 <= j < prev.len() && j < curr.len() {
        if shows(finding, prev[j], curr[j]) {
            Some(j)
        } else {
            first_part(finding, prev, curr, j + 1)
        }
    } else {
        None
    }
}

/// The first pair of parts of the contents at one index that shows the finding.
pub open spec fn first_in_content(
    finding: Finding,
    prev: JsonView,
    curr: JsonView,
    j: int,
) -> Option<int> {
    match (parts_of(prev), parts_of(curr)) {
        (Some(p), Some(c)) => first_part(finding, p, c, j),
        _ => None,
    }
}

/// The place of the first pair of parts that shows the finding, among the
/// contents from `i` up to `limit`.
pub open spec fn first_place(
    finding: Finding,
    prev: Seq<JsonView>,
    curr: Seq<JsonView>,
    limit: int,
    i: int,
) -> Option<(int, int)>
    decreases limit - i,
{
    if 0 <= i < limit && i < prev.len() && i < curr.len() {
        match first_in_content(finding, prev[i], curr[i], 0) {
            Some(j) => Some((i, j)),
            None => first_place(finding, prev, curr, limit, i + 1),
        }
    } else {
        None
    }
}

/// The place of the first pair of parts that shows the finding, from part `j`
/// of content `i` on.
pub open spec fn first_place_from(
    finding: Finding,
    prev: Seq<JsonView>,
    curr: Seq<JsonView>,
    limit: int,
    i: int,
    j: int,
) -> Option<(int, int)> {
    match first_in_content(finding, prev[i], curr[i], j) {
        Some(found) => Some((i, found)),
        None => first_place(finding, prev, curr, limit, i + 1),
    }
}

} // verus!
