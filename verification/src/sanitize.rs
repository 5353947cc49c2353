//! JSON paths that are safe to log: fixed protocol field names and array indices
//! are shown, everything else is hashed.

use vstd::prelude::*;
use crate::hashing::{short_hash, short_hash_of, Salt};
use crate::history::all_digits;
use crate::masked::key_views;
use crate::path::{further, step_views, DivergencePath, Step, StepView};
use crate::text::{chars_of, decimal, str_eq, to_decimal};

verus! {

/// Protocol field names that are safe to echo in a JSON path. Any other
/// (user-controlled) key must be hashed before logging.
pub open spec fn known_segments() -> Seq<Seq<char>> {
    seq![
        "project"@,
        "request"@,
        "requestId"@,
        "sessionId"@,
        "session_id"@,
        "model"@,
        "userAgent"@,
        "requestType"@,
        "enabledCreditTypes"@,
        "systemInstruction"@,
        "system_instruction"@,
        "tools"@,
        "toolConfig"@,
        "tool_config"@,
        "functionDeclarations"@,
        "function_declarations"@,
        "generationConfig"@,
        "generation_config"@,
        "safetySettings"@,
        "safety_settings"@,
        "contents"@,
        "role"@,
        "parts"@,
        "text"@,
        "thought"@,
        "thoughtSignature"@,
        "thought_signature"@,
        "functionCall"@,
        "function_call"@,
        "functionResponse"@,
        "function_response"@,
        "name"@,
        "args"@,
        "id"@,
        "response"@,
        "result"@,
        "inlineData"@,
        "inline_data"@,
        "mimeType"@,
        "mime_type"@,
        "data"@,
        "cachedContent"@,
        "cached_content"@,
    ]
}

/// Whether a segment is a protocol field name.
pub fn is_known_segment(segment: &str) -> (r: bool)
    ensures
        r == known_segments().contains(segment@),
{
    let known: [&'static str; 43] = [
        "project",
        "request",
        "requestId",
        "sessionId",
        "session_id",
        "model",
        "userAgent",
        "requestType",
        "enabledCreditTypes",
        "systemInstruction",
        "system_instruction",
        "tools",
        "toolConfig",
        "tool_config",
        "functionDeclarations",
        "function_declarations",
        "generationConfig",
        "generation_config",
        "safetySettings",
        "safety_settings",
        "contents",
        "role",
        "parts",
        "text",
        "thought",
        "thoughtSignature",
        "thought_signature",
        "functionCall",
        "function_call",
        "functionResponse",
        "function_response",
        "name",
        "args",
        "id",
        "response",
        "result",
        "inlineData",
        "inline_data",
        "mimeType",
        "mime_type",
        "data",
        "cachedContent",
        "cached_content",
    ];
    assert(key_views(known@) =~= known_segments());
    let mut i: usize = 0;
    while i < 43
        invariant
            i <= 43,
            known@.len() == 43,
            key_views(known@) == known_segments(),
            forall|k: int| 0 <= k < i ==> #[trigger] known_segments()[k] != segment@,
        decreases 43 - i,
    {
        assert(key_views(known@)[i as int] == known@[i as int]@);
        if str_eq(known[i], segment) {
            return true;
        }
        i += 1;
    }
    false
}

/// How one path segment is shown: numeric indices and known protocol field names
/// as they are, everything else by a salted hash.
pub open spec fn rendered(salt: Seq<u8>, segment: Seq<char>, in_bracket: bool) -> Seq<char> {
    if segment.len() == 0 {
        Seq::empty()
    } else if in_bracket && all_digits(segment) {
        segment
    } else if known_segments().contains(segment) {
        segment
    } else {
        "<key:"@ + short_hash_of(salt, "path|"@ + segment) + ">"@
    }
}

/// Whether a character ends a path segment.
pub open spec fn is_punctuation(c: char) -> bool {
    c == '.' || c == '[' || c == ']'
}

/// Whether `i` is the index of the first character that ends a segment.
pub open spec fn first_punctuation(path: Seq<char>, i: int) -> bool {
    &&& 0 <= i < path.len()
    &&& is_punctuation(path[i])
    &&& forall|j: int| 0 <= j < i ==> !is_punctuation(#[trigger] path[j])
}

/// A path as it is shown: its punctuation as it stands, each segment between
/// rendered. A segment counts as bracketed when it ends at the bracket that
/// closes the last one opened.
pub open spec fn sanitized(salt: Seq<u8>, path: Seq<char>, in_bracket: bool) -> Seq<char>
    decreases path.len(),
{
    if exists|i: int| first_punctuation(path, i) {
        let i = choose|i: int| first_punctuation(path, i);
        let c = path[i];
        rendered(salt, path.take(i), c == ']' && in_bracket) + seq![c] + sanitized(
            salt,
            path.skip(i + 1),
            c == '[' || c == '.' && in_bracket,
        )
    } else {
        rendered(salt, path, false)
    }
}

/// Renders one path segment: numeric indices are echoed, known protocol field
/// names are echoed, everything else is replaced by a salted hash.
pub fn render_path_segment(salt: &Salt, segment: &str, in_bracket: bool) -> (shown: String)
    ensures
        shown@ == rendered(salt@, segment@, in_bracket),
{
    if segment.is_empty() {
        return String::new();
    }
    if in_bracket && is_all_digits(segment) {
        return segment.to_string();
    }
    if is_known_segment(segment) {
        return segment.to_string();
    }
    let mut input = "path|".to_string();
    input.append(segment);
    let mut shown = "<key:".to_string();
    shown.append(short_hash(salt, input.as_str()).as_str());
    shown.append(">");
    shown
}

/// Whether all characters are ASCII decimal digits.
fn is_all_digits(s: &str) -> (r: bool)
    ensures
        r == all_digits(s@),
{
    let chars = chars_of(s);
    let mut i: usize = 0;
    while i < chars.len()
        invariant
            i <= chars@.len(),
            chars@ == s@,
            forall|k: int| 0 <= k < i ==> '0' <= #[trigger] s@[k] <= '9',
        decreases chars@.len() - i,
    {
        let c: char = chars[i];
        if !('0' <= c && c <= '9') {
            return false;
        }
        i += 1;
    }
    true
}

/// Sanitizes a JSON path for logging: fixed protocol field names and array
/// indices are shown; arbitrary/user-controlled key segments are hashed.
pub fn sanitize_path(salt: &Salt, path: &str) -> (shown: String)
    ensures
        shown@ == sanitized(salt@, path@, false),
{
    let chars = chars_of(path);
    let mut out = String::new();
    let mut token = String::new();
    let mut in_bracket = false;
    let mut i: usize = 0;
    let ghost mut start: int = 0;
    assert(chars@.skip(0) =~= path@);
    assert(out@ + sanitized(salt@, path@, false) =~= sanitized(salt@, path@, false));
    while i < chars.len()
        invariant
            0 <= start <= i <= chars@.len(),
            token@ == chars@.subrange(start, i as int),
            forall|j: int| start <= j < i ==> !is_punctuation(#[trigger] chars@[j]),
            sanitized(salt@, path@, false) == out@ + sanitized(
                salt@,
                chars@.skip(start),
                in_bracket,
            ),
        decreases chars@.len() - i,
    {
        let c: char = chars[i];
        if c == '.' || c == '[' || c == ']' {
            let ghost rest = chars@.skip(start);
            let ghost before = out@;
            let bracketed = c == ']' && in_bracket;
            proof {
                assert forall|j: int| 0 <= j < i - start implies !is_punctuation(
                    #[trigger] rest[j],
                ) by {
                    assert(rest[j] == chars@[start + j]);
                }
                assert(first_punctuation(rest, i - start));
                assert(rest.take(i - start) =~= token@);
                assert(rest.skip(i - start + 1) =~= chars@.skip(i + 1));
            }
            let shown = render_path_segment(salt, token.as_str(), bracketed);
            out.append(shown.as_str());
            out.push(c);
            in_bracket = c == '[' || (c == '.' && in_bracket);
            token = String::new();
            proof {
                start = i + 1;
                let tail = sanitized(salt@, chars@.skip(start), in_bracket);
                assert(out@ + tail =~= before + (shown@ + seq![c] + tail));
                assert(chars@.subrange(start, i + 1) =~= Seq::<char>::empty());
            }
        } else {
            token.push(c);
            assert(token@ =~= chars@.subrange(start, i + 1));
        }
        i += 1;
    }
    let ghost rest = chars@.skip(start);
    proof {
        assert(rest =~= token@);
        assert forall|j: int| 0 <= j < rest.len() implies !is_punctuation(#[trigger] rest[j]) by {
            assert(rest[j] == chars@[start + j]);
        }
        assert(forall|j: int| !first_punctuation(rest, j));
    }
    let shown = render_path_segment(salt, token.as_str(), false);
    out.append(shown.as_str());
    out
}

/// How a path that is some steps longer is logged: each key is rendered as a
/// whole, whatever punctuation it holds.
pub open spec fn logged_further(salt: Seq<u8>, base: Seq<char>, steps: Seq<StepView>) -> Seq<char>
    decreases steps.len(),
{
    if steps.len() == 0 {
        sanitized(salt, base, false)
    } else {
        let before = logged_further(salt, base, steps.drop_last());
        match steps.last() {
            StepView::Key(key) => if further(base, steps.drop_last()).len() == 0 {
                before + rendered(salt, key, false)
            } else {
                before + "."@ + rendered(salt, key, false)
            },
            StepView::Index(i) => before + "["@ + decimal(i as nat) + "]"@,
        }
    }
}

/// Sanitizes the path of a divergence for logging: its known part as a path, and
/// every further key as a whole, by name or by hash.
pub fn log_path(salt: &Salt, path: &DivergencePath) -> (shown: String)
    ensures
        shown@ == logged_further(salt@, path@.base, path@.steps),
{
    let ghost base = path.base@;
    let ghost all = step_views(path.steps@);
    let mut shown = sanitize_path(salt, path.base.as_str());
    let mut bare = path.base.as_str().is_empty();
    let mut i: usize = 0;
    assert(all.take(0) =~= Seq::<StepView>::empty());
    while i < path.steps.len()
        invariant
            i <= path.steps@.len(),
            base == path.base@,
            all == step_views(path.steps@),
            bare == (further(base, all.take(i as int)).len() == 0),
            shown@ == logged_further(salt@, base, all.take(i as int)),
        decreases path.steps@.len() - i,
    {
        assert(all[i as int] == path.steps@[i as int]@);
        assert(all.take(i + 1).drop_last() =~= all.take(i as int));
        assert(all.take(i + 1).last() == all[i as int]);
        match &path.steps[i] {
            Step::Key(key) => {
                if !bare {
                    shown.append(".");
                }
                shown.append(render_path_segment(salt, key.as_str(), false).as_str());
                proof {
                    reveal_strlit(".");
                }
                bare = bare && key.as_str().is_empty();
            },
            Step::Index(index) => {
                shown.append("[");
                shown.append(to_decimal(*index as u64).as_str());
                shown.append("]");
                proof {
                    reveal_strlit("[");
                }
                bare = false;
            },
        }
        i += 1;
    }
    assert(all.take(i as int) =~= all);
    shown
}

} // verus!
