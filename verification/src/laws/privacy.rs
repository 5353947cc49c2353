//! What a logged path can show.

use vstd::prelude::*;
use crate::classify::{
    class_name, content_path, first_region, region_report, regions, report, Class,
};
use crate::hashing::short_hash_of;
use crate::history::{
    all_digits, contents_of, kind_of, shows, slot_change, transition_name, Finding, SignatureKind,
};
use crate::identity::{account_key_of, trajectory_of, FingerprintView};
use crate::json::JsonView;
use crate::laws::precedence::{
    law_findings_are_first, lemma_decimal_is_digits, lemma_first_region,
};
use crate::observe::observed;
use crate::outcome::{divergence_text, parsed_previous, RequestView};
use crate::path::{further, item_path, one_further, PathView, StepView};
use crate::sanitize::{
    first_punctuation, is_punctuation, known_segments, logged_further, rendered, sanitized,
};
use crate::scan::{
    finding_path, finding_place, first_finding, part_at, part_field_path, transition_report,
};
use crate::store::{previous, StoreView};
use crate::text::decimal;

verus! {

/// Whether a piece of a logged path is safe: punctuation, a protocol field name,
/// an array index, or the salted hash of a segment.
pub open spec fn safe_piece(salt: Seq<u8>, piece: Seq<char>) -> bool {
    ||| piece.len() == 1 && is_punctuation(piece[0])
    ||| known_segments().contains(piece)
    ||| piece.len() > 0 && all_digits(piece)
    ||| hashed_segment(salt, piece)
}

/// Whether a piece of a logged path is the salted hash of some segment.
pub open spec fn hashed_segment(salt: Seq<u8>, piece: Seq<char>) -> bool {
    exists|segment: Seq<char>| piece == "<key:"@ + #[trigger] short_hash_of(
        salt,
        "path|"@ + segment,
    ) + ">"@
}

/// Some pieces, one after the other.
pub open spec fn joined(pieces: Seq<Seq<char>>) -> Seq<char>
    decreases pieces.len(),
{
    if pieces.len() == 0 {
        Seq::empty()
    } else {
        pieces[0] + joined(pieces.skip(1))
    }
}

/// Whether some pieces are safe, each of them.
pub open spec fn all_safe(salt: Seq<u8>, pieces: Seq<Seq<char>>) -> bool {
    forall|i: int| 0 <= i < pieces.len() ==> safe_piece(salt, #[trigger] pieces[i])
}

/// A segment is rendered as nothing or as one safe piece.
proof fn lemma_rendered_is_safe(salt: Seq<u8>, segment: Seq<char>, in_bracket: bool)
    ensures
        rendered(salt, segment, in_bracket).len() == 0 || safe_piece(
            salt,
            rendered(salt, segment, in_bracket),
        ),
{
    if segment.len() > 0 && !(in_bracket && all_digits(segment)) && !known_segments().contains(
        segment,
    ) {
        let piece = rendered(salt, segment, in_bracket);
        assert(piece == "<key:"@ + short_hash_of(salt, "path|"@ + segment) + ">"@);
        assert(hashed_segment(salt, piece));
    }
}

/// A safe piece in front of safe pieces.
proof fn lemma_in_front(salt: Seq<u8>, piece: Seq<char>, pieces: Seq<Seq<char>>)
    requires
        all_safe(salt, pieces),
        piece.len() == 0 || safe_piece(salt, piece),
    ensures
        exists|more: Seq<Seq<char>>| #[trigger] all_safe(salt, more) && joined(more) == piece
            + joined(pieces),
{
    if piece.len() == 0 {
        assert(piece + joined(pieces) =~= joined(pieces));
        assert(all_safe(salt, pieces));
    } else {
        let more = seq![piece] + pieces;
        assert(more.skip(1) =~= pieces);
        assert(joined(more) == piece + joined(pieces));
        assert forall|i: int| 0 <= i < more.len() implies safe_piece(salt, #[trigger] more[i]) by {
            if i > 0 {
                assert(more[i] == pieces[i - 1]);
            }
        }
        assert(all_safe(salt, more));
    }
}

/// A sanitized path is made of safe pieces only.
pub proof fn law_sanitized_path_is_safe(salt: Seq<u8>, path: Seq<char>, in_bracket: bool)
    ensures
        exists|pieces: Seq<Seq<char>>| #[trigger] all_safe(salt, pieces) && joined(pieces)
            == sanitized(salt, path, in_bracket),
    decreases path.len(),
{
    let none = Seq::<Seq<char>>::empty();
    assert(all_safe(salt, none));
    if exists|i: int| first_punctuation(path, i) {
        let i = choose|i: int| first_punctuation(path, i);
        let c = path[i];
        let shown = rendered(salt, path.take(i), c == ']' && in_bracket);
        let rest = path.skip(i + 1);
        let next = c == '[' || c == '.' && in_bracket;
        law_sanitized_path_is_safe(salt, rest, next);
        let pieces = choose|pieces: Seq<Seq<char>>| #[trigger]
            all_safe(salt, pieces) && joined(pieces) == sanitized(salt, rest, next);
        assert(safe_piece(salt, seq![c]));
        lemma_in_front(salt, seq![c], pieces);
        let more = choose|more: Seq<Seq<char>>| #[trigger]
            all_safe(salt, more) && joined(more) == seq![c] + joined(pieces);
        lemma_rendered_is_safe(salt, path.take(i), c == ']' && in_bracket);
        lemma_in_front(salt, shown, more);
        assert(shown + seq![c] + sanitized(salt, rest, next) =~= shown + (seq![c] + sanitized(
            salt,
            rest,
            next,
        )));
    } else {
        lemma_rendered_is_safe(salt, path, false);
        lemma_in_front(salt, rendered(salt, path, false), none);
        assert(rendered(salt, path, false) + joined(none) =~= rendered(salt, path, false));
    }
}

/// Safe pieces with a safe piece behind them.
proof fn lemma_behind(salt: Seq<u8>, pieces: Seq<Seq<char>>, piece: Seq<char>)
    requires
        all_safe(salt, pieces),
        piece.len() == 0 || safe_piece(salt, piece),
    ensures
        exists|more: Seq<Seq<char>>| #[trigger] all_safe(salt, more) && joined(more) == joined(
            pieces,
        ) + piece,
    decreases pieces.len(),
{
    if piece.len() == 0 {
        assert(joined(pieces) + piece =~= joined(pieces));
        assert(all_safe(salt, pieces));
    } else {
        let more = pieces.push(piece);
        lemma_joined_push(pieces, piece);
        assert(all_safe(salt, more));
    }
}

/// Pieces with a piece behind them, one after the other.
proof fn lemma_joined_push(pieces: Seq<Seq<char>>, piece: Seq<char>)
    ensures
        joined(pieces.push(piece)) == joined(pieces) + piece,
    decreases pieces.len(),
{
    let more = pieces.push(piece);
    if pieces.len() == 0 {
        assert(more.skip(1) =~= pieces);
        assert(joined(more.skip(1)) =~= Seq::<char>::empty());
        assert(joined(more) =~= joined(pieces) + piece);
    } else {
        lemma_joined_push(pieces.skip(1), piece);
        assert(more.skip(1) =~= pieces.skip(1).push(piece));
        assert(joined(more) =~= joined(pieces) + piece);
    }
}

/// Whether a text is made of safe pieces.
pub open spec fn is_safe(salt: Seq<u8>, shown: Seq<char>) -> bool {
    exists|pieces: Seq<Seq<char>>| #[trigger] all_safe(salt, pieces) && joined(pieces) == shown
}

/// A safe text with a safe piece behind it.
proof fn lemma_safe_grows(salt: Seq<u8>, shown: Seq<char>, piece: Seq<char>)
    requires
        is_safe(salt, shown),
        piece.len() == 0 || safe_piece(salt, piece),
    ensures
        is_safe(salt, shown + piece),
{
    let pieces = choose|pieces: Seq<Seq<char>>| #[trigger]
        all_safe(salt, pieces) && joined(pieces) == shown;
    lemma_behind(salt, pieces, piece);
}

/// A logged path is made of safe pieces only.
pub proof fn law_logged_path_is_safe(salt: Seq<u8>, path: PathView)
    ensures
        is_safe(salt, logged_further(salt, path.base, path.steps)),
    decreases path.steps.len(),
{
    if path.steps.len() == 0 {
        law_sanitized_path_is_safe(salt, path.base, false);
    } else {
        reveal_strlit(".");
        reveal_strlit("[");
        reveal_strlit("]");
        assert("."@ =~= seq!['.']);
        assert("["@ =~= seq!['[']);
        assert("]"@ =~= seq![']']);
        let shorter = PathView { base: path.base, steps: path.steps.drop_last() };
        let before = logged_further(salt, path.base, shorter.steps);
        law_logged_path_is_safe(salt, shorter);
        match path.steps.last() {
            StepView::Key(key) => {
                lemma_rendered_is_safe(salt, key, false);
                lemma_safe_grows(salt, before, rendered(salt, key, false));
                lemma_safe_grows(salt, before, "."@);
                lemma_safe_grows(salt, before + "."@, rendered(salt, key, false));
            },
            StepView::Index(i) => {
                let digits = decimal(i as nat);
                lemma_decimal_is_digits(i as nat);
                lemma_safe_grows(salt, before, "["@);
                lemma_safe_grows(salt, before + "["@, digits);
                lemma_safe_grows(salt, before + "["@ + digits, "]"@);
            },
        }
    }
}

/// A key is logged as a whole, whatever characters it holds: a protocol field name
/// as it is, every other key by the salted hash of the whole key. Nothing of the
/// other keys shows.
pub proof fn law_keys_are_logged_whole(salt: Seq<u8>, path: PathView, key: Seq<char>)
    requires
        path.text().len() > 0,
        key.len() > 0,
    ensures
        logged_further(salt, path.base, path.steps.push(StepView::Key(key))) == logged_further(
            salt,
            path.base,
            path.steps,
        ) + "."@ + (if known_segments().contains(key) {
            key
        } else {
            "<key:"@ + short_hash_of(salt, "path|"@ + key) + ">"@
        }),
{
    assert(path.steps.push(StepView::Key(key)).drop_last() =~= path.steps);
}

/// Whether no bracket is left open in a path.
pub open spec fn complete(path: Seq<char>, in_bracket: bool) -> bool
    decreases path.len(),
{
    if exists|i: int| first_punctuation(path, i) {
        let i = choose|i: int| first_punctuation(path, i);
        let c = path[i];
        complete(path.skip(i + 1), c == '[' || c == '.' && in_bracket)
    } else {
        !in_bracket
    }
}

/// There is only one first end of a segment.
proof fn lemma_first_is_unique(path: Seq<char>, i: int, k: int)
    requires
        first_punctuation(path, i),
        first_punctuation(path, k),
    ensures
        i == k,
{
    if i < k {
        assert(!is_punctuation(path[i]));
    } else if k < i {
        assert(!is_punctuation(path[k]));
    }
}

/// Where some character ends a segment there is a first one that does.
proof fn lemma_some_first(path: Seq<char>, i: int)
    requires
        0 <= i < path.len(),
        is_punctuation(path[i]),
    ensures
        exists|k: int| first_punctuation(path, k),
    decreases i,
{
    if exists|j: int| 0 <= j < i && is_punctuation(#[trigger] path[j]) {
        let j = choose|j: int| 0 <= j < i && is_punctuation(#[trigger] path[j]);
        lemma_some_first(path, j);
    } else {
        assert(first_punctuation(path, i));
    }
}

/// After a complete path, a dot or an opening bracket starts a new segment.
proof fn lemma_new_segment(salt: Seq<u8>, a: Seq<char>, c: char, b: Seq<char>, in_bracket: bool)
    requires
        complete(a, in_bracket),
        c == '.' || c == '[',
    ensures
        sanitized(salt, a + seq![c] + b, in_bracket) == sanitized(salt, a, in_bracket) + seq![c]
            + sanitized(salt, b, c == '['),
        complete(a + seq![c] + b, in_bracket) == complete(b, c == '['),
    decreases a.len(),
{
    let whole = a + seq![c] + b;
    assert(forall|j: int| 0 <= j < a.len() ==> #[trigger] whole[j] == a[j]);
    if exists|i: int| first_punctuation(a, i) {
        let i = choose|i: int| first_punctuation(a, i);
        assert(first_punctuation(whole, i));
        let k = choose|k: int| first_punctuation(whole, k);
        lemma_first_is_unique(whole, i, k);
        let d = a[i];
        let next = d == '[' || d == '.' && in_bracket;
        lemma_new_segment(salt, a.skip(i + 1), c, b, next);
        assert(whole.skip(i + 1) =~= a.skip(i + 1) + seq![c] + b);
        assert(whole.take(i) =~= a.take(i));
        let head = rendered(salt, a.take(i), d == ']' && in_bracket) + seq![d];
        let mid = sanitized(salt, a.skip(i + 1), next);
        let tail = sanitized(salt, b, c == '[');
        assert(head + (mid + seq![c] + tail) =~= (head + mid) + seq![c] + tail);
    } else {
        let n = a.len() as int;
        assert(whole[n] == c);
        assert forall|j: int| 0 <= j < n implies !is_punctuation(#[trigger] whole[j]) by {
            if is_punctuation(a[j]) {
                lemma_some_first(a, j);
            }
        }
        assert(first_punctuation(whole, n));
        let k = choose|k: int| first_punctuation(whole, k);
        lemma_first_is_unique(whole, n, k);
        assert(whole.take(n) =~= a);
        assert(whole.skip(n + 1) =~= b);
    }
}

/// Whether a key holds no punctuation.
pub open spec fn is_plain(key: Seq<char>) -> bool {
    forall|j: int| 0 <= j < key.len() ==> !is_punctuation(#[trigger] key[j])
}

/// Whether no key among some steps holds punctuation.
pub open spec fn all_plain(steps: Seq<StepView>) -> bool {
    forall|k: int|
        0 <= k < steps.len() ==> ((#[trigger] steps[k]) matches StepView::Key(key) ==> is_plain(key))
}

/// A key without punctuation is one segment of a path.
proof fn lemma_plain_key(salt: Seq<u8>, key: Seq<char>)
    requires
        is_plain(key),
    ensures
        sanitized(salt, key, false) == rendered(salt, key, false),
        complete(key, false),
{
    assert(forall|j: int| !first_punctuation(key, j));
}

/// An array index is shown as it is.
proof fn lemma_index_is_shown(salt: Seq<u8>, i: int)
    ensures
        sanitized(salt, decimal(i as nat) + "]"@, true) == decimal(i as nat) + "]"@,
        complete(decimal(i as nat) + "]"@, true),
{
    reveal_strlit("]");
    let digits = decimal(i as nat);
    let text = digits + "]"@;
    let n = digits.len() as int;
    lemma_decimal_is_digits(i as nat);
    assert("]"@ =~= seq![']']);
    assert forall|j: int| 0 <= j < n implies !is_punctuation(#[trigger] text[j]) by {
        assert('0' <= digits[j] <= '9');
    }
    assert(text[n] == ']');
    assert(first_punctuation(text, n));
    let k = choose|k: int| first_punctuation(text, k);
    lemma_first_is_unique(text, n, k);
    let none = Seq::<char>::empty();
    assert(text.take(n) =~= digits);
    assert(text.skip(n + 1) =~= none);
    lemma_plain_key(salt, none);
    assert(sanitized(salt, none, false) =~= none);
    assert(sanitized(salt, text, true) =~= text);
}

/// Where no key holds punctuation, a path is logged as its text is sanitized.
pub proof fn law_plain_paths_are_logged_as_sanitized(
    salt: Seq<u8>,
    base: Seq<char>,
    steps: Seq<StepView>,
)
    requires
        complete(base, false),
        all_plain(steps),
    ensures
        logged_further(salt, base, steps) == sanitized(salt, further(base, steps), false),
        complete(further(base, steps), false),
    decreases steps.len(),
{
    if steps.len() > 0 {
        let before = further(base, steps.drop_last());
        assert forall|k: int| 0 <= k < steps.drop_last().len() implies ((
        #[trigger] steps.drop_last()[k]) matches StepView::Key(key) ==> is_plain(key)) by {
            assert(steps[k] == steps.drop_last()[k]);
        }
        law_plain_paths_are_logged_as_sanitized(salt, base, steps.drop_last());
        assert(steps[steps.len() - 1] == steps.last());
        match steps.last() {
            StepView::Key(key) => {
                reveal_strlit(".");
                assert("."@ =~= seq!['.']);
                lemma_plain_key(salt, key);
                if before.len() > 0 {
                    lemma_new_segment(salt, before, '.', key, false);
                } else {
                    lemma_plain_key(salt, before);
                    assert(sanitized(salt, before, false) + rendered(salt, key, false) =~= rendered(
                        salt,
                        key,
                        false,
                    ));
                }
            },
            StepView::Index(i) => {
                reveal_strlit("[");
                assert("["@ =~= seq!['[']);
                let tail = decimal(i as nat) + "]"@;
                lemma_index_is_shown(salt, i);
                lemma_new_segment(salt, before, '[', tail, false);
                assert(item_path(before, i) =~= before + seq!['['] + tail);
                assert(sanitized(salt, before, false) + seq!['['] + tail =~= sanitized(
                    salt,
                    before,
                    false,
                ) + "["@ + decimal(i as nat) + "]"@);
            },
        }
    }
}

/// A protocol field name holds no punctuation.
proof fn lemma_names_are_plain(k: int)
    requires
        0 <= k < known_segments().len(),
    ensures
        is_plain(known_segments()[k]),
{
    reveal_strlit("project");
    reveal_strlit("request");
    reveal_strlit("requestId");
    reveal_strlit("sessionId");
    reveal_strlit("session_id");
    reveal_strlit("model");
    reveal_strlit("userAgent");
    reveal_strlit("requestType");
    reveal_strlit("enabledCreditTypes");
    reveal_strlit("systemInstruction");
    reveal_strlit("system_instruction");
    reveal_strlit("tools");
    reveal_strlit("toolConfig");
    reveal_strlit("tool_config");
    reveal_strlit("functionDeclarations");
    reveal_strlit("function_declarations");
    reveal_strlit("generationConfig");
    reveal_strlit("generation_config");
    reveal_strlit("safetySettings");
    reveal_strlit("safety_settings");
    reveal_strlit("contents");
    reveal_strlit("role");
    reveal_strlit("parts");
    reveal_strlit("text");
    reveal_strlit("thought");
    reveal_strlit("thoughtSignature");
    reveal_strlit("thought_signature");
    reveal_strlit("functionCall");
    reveal_strlit("function_call");
    reveal_strlit("functionResponse");
    reveal_strlit("function_response");
    reveal_strlit("name");
    reveal_strlit("args");
    reveal_strlit("id");
    reveal_strlit("response");
    reveal_strlit("result");
    reveal_strlit("inlineData");
    reveal_strlit("inline_data");
    reveal_strlit("mimeType");
    reveal_strlit("mime_type");
    reveal_strlit("data");
    reveal_strlit("cachedContent");
    reveal_strlit("cached_content");
}

/// The protocol field names that stand in the paths of the rules.
pub proof fn lemma_protocol_names()
    ensures
        known_segments().contains("project"@),
        known_segments().contains("request"@),
        known_segments().contains("requestId"@),
        known_segments().contains("sessionId"@),
        known_segments().contains("session_id"@),
        known_segments().contains("model"@),
        known_segments().contains("userAgent"@),
        known_segments().contains("systemInstruction"@),
        known_segments().contains("tools"@),
        known_segments().contains("toolConfig"@),
        known_segments().contains("tool_config"@),
        known_segments().contains("generationConfig"@),
        known_segments().contains("generation_config"@),
        known_segments().contains("contents"@),
        known_segments().contains("parts"@),
        known_segments().contains("text"@),
        known_segments().contains("thoughtSignature"@),
        known_segments().contains("thought_signature"@),
        known_segments().contains("functionCall"@),
        known_segments().contains("functionResponse"@),
        known_segments().contains("args"@),
        known_segments().contains("response"@),
        known_segments().contains("result"@),
{
    assert(known_segments()[0] == "project"@);
    assert(known_segments()[1] == "request"@);
    assert(known_segments()[2] == "requestId"@);
    assert(known_segments()[3] == "sessionId"@);
    assert(known_segments()[4] == "session_id"@);
    assert(known_segments()[5] == "model"@);
    assert(known_segments()[6] == "userAgent"@);
    assert(known_segments()[9] == "systemInstruction"@);
    assert(known_segments()[11] == "tools"@);
    assert(known_segments()[12] == "toolConfig"@);
    assert(known_segments()[13] == "tool_config"@);
    assert(known_segments()[16] == "generationConfig"@);
    assert(known_segments()[17] == "generation_config"@);
    assert(known_segments()[20] == "contents"@);
    assert(known_segments()[22] == "parts"@);
    assert(known_segments()[23] == "text"@);
    assert(known_segments()[25] == "thoughtSignature"@);
    assert(known_segments()[26] == "thought_signature"@);
    assert(known_segments()[27] == "functionCall"@);
    assert(known_segments()[29] == "functionResponse"@);
    assert(known_segments()[32] == "args"@);
    assert(known_segments()[34] == "response"@);
    assert(known_segments()[35] == "result"@);
}

/// Whether all keys among some steps are protocol field names.
pub open spec fn all_protocol(steps: Seq<StepView>) -> bool {
    forall|k: int|
        0 <= k < steps.len() ==> ((#[trigger] steps[k]) matches StepView::Key(key)
            ==> known_segments().contains(key))
}

/// Whether a text is a path of protocol field names and array indices.
pub open spec fn is_protocol(text: Seq<char>) -> bool {
    exists|steps: Seq<StepView>| #[trigger] all_protocol(steps) && text == further(
        Seq::empty(),
        steps,
    )
}

/// A path of protocol field names and array indices is logged as it stands.
proof fn lemma_protocol_is_logged(salt: Seq<u8>, steps: Seq<StepView>)
    requires
        all_protocol(steps),
    ensures
        logged_further(salt, Seq::empty(), steps) == further(Seq::empty(), steps),
    decreases steps.len(),
{
    let root = Seq::<char>::empty();
    if steps.len() == 0 {
        lemma_plain_key(salt, root);
        assert(sanitized(salt, root, false) =~= root);
    } else {
        assert forall|k: int| 0 <= k < steps.drop_last().len() implies ((
        #[trigger] steps.drop_last()[k]) matches StepView::Key(key) ==> known_segments().contains(
            key,
        )) by {
            assert(steps[k] == steps.drop_last()[k]);
        }
        lemma_protocol_is_logged(salt, steps.drop_last());
        assert(steps[steps.len() - 1] == steps.last());
        if let StepView::Key(key) = steps.last() {
            law_protocol_names_are_shown(salt, key, false);
            let before = further(root, steps.drop_last());
            if before.len() == 0 {
                assert(before + key =~= key);
            }
        }
    }
}

/// A path of protocol field names and array indices is shown as it stands.
pub proof fn law_protocol_paths_are_shown(salt: Seq<u8>, text: Seq<char>)
    requires
        is_protocol(text),
    ensures
        sanitized(salt, text, false) == text,
{
    let root = Seq::<char>::empty();
    let steps = choose|steps: Seq<StepView>| #[trigger]
        all_protocol(steps) && text == further(root, steps);
    lemma_plain_key(salt, root);
    assert forall|k: int| 0 <= k < steps.len() implies ((
    #[trigger] steps[k]) matches StepView::Key(key) ==> is_plain(key)) by {
        if let StepView::Key(key) = steps[k] {
            let m = choose|m: int| 0 <= m < known_segments().len() && known_segments()[m] == key;
            lemma_names_are_plain(m);
        }
    }
    law_plain_paths_are_logged_as_sanitized(salt, root, steps);
    lemma_protocol_is_logged(salt, steps);
}

/// A protocol path that grows by a protocol step is one.
proof fn lemma_protocol_grows(path: Seq<char>, step: StepView)
    requires
        is_protocol(path),
        step matches StepView::Key(key) ==> known_segments().contains(key),
    ensures
        is_protocol(one_further(path, step)),
{
    let root = Seq::<char>::empty();
    let steps = choose|steps: Seq<StepView>| #[trigger]
        all_protocol(steps) && path == further(root, steps);
    let more = steps.push(step);
    assert(more.drop_last() =~= steps);
    assert(all_protocol(more));
    assert(one_further(path, step) == further(root, more));
}

/// The root is a protocol path.
proof fn lemma_root_is_protocol()
    ensures
        is_protocol(Seq::empty()),
{
    let none = Seq::<StepView>::empty();
    assert(all_protocol(none));
    assert(further(Seq::empty(), none) == Seq::<char>::empty());
}

/// A path followed by a dot and a field name is a protocol path.
proof fn lemma_field(path: Seq<char>, name: Seq<char>)
    requires
        is_protocol(path),
        path.len() > 0,
        known_segments().contains(name),
    ensures
        is_protocol(path + "."@ + name),
{
    lemma_protocol_grows(path, StepView::Key(name));
    assert(one_further(path, StepView::Key(name)) == path + "."@ + name);
}

/// A field name on its own is a protocol path.
pub proof fn lemma_root_field(name: Seq<char>)
    requires
        known_segments().contains(name),
    ensures
        is_protocol(name),
{
    let root = Seq::<char>::empty();
    lemma_root_is_protocol();
    lemma_protocol_grows(root, StepView::Key(name));
    assert(one_further(root, StepView::Key(name)) == name);
}

/// A field of the request is a protocol path.
pub proof fn lemma_request_field(text: Seq<char>, name: Seq<char>)
    requires
        text == "request."@ + name,
        known_segments().contains(name),
    ensures
        is_protocol(text),
{
    reveal_strlit("request.");
    reveal_strlit("request");
    reveal_strlit(".");
    lemma_protocol_names();
    lemma_root_field("request"@);
    lemma_field("request"@, name);
    assert(text =~= "request"@ + "."@ + name);
}

/// The regions have paths.
proof fn lemma_region_is_protocol(k: int)
    requires
        0 <= k < regions().len(),
    ensures
        is_protocol(regions()[k].0),
{
    reveal_strlit("project");
    reveal_strlit("model");
    reveal_strlit("userAgent");
    reveal_strlit("sessionId");
    reveal_strlit("session_id");
    reveal_strlit("request.");
    reveal_strlit("systemInstruction");
    reveal_strlit("tools");
    reveal_strlit("toolConfig");
    reveal_strlit("tool_config");
    reveal_strlit("generationConfig");
    reveal_strlit("generation_config");
    reveal_strlit("request.systemInstruction");
    reveal_strlit("request.tools");
    reveal_strlit("request.toolConfig");
    reveal_strlit("request.tool_config");
    reveal_strlit("request.generationConfig");
    reveal_strlit("request.generation_config");
    reveal_strlit("request.sessionId");
    reveal_strlit("request.session_id");
    lemma_protocol_names();
    let text = regions()[k].0;
    if k == 3 {
        assert(text =~= "request."@ + "systemInstruction"@);
        lemma_request_field(text, "systemInstruction"@);
    } else if k == 4 {
        assert(text =~= "request."@ + "tools"@);
        lemma_request_field(text, "tools"@);
    } else if k == 5 {
        assert(text =~= "request."@ + "toolConfig"@);
        lemma_request_field(text, "toolConfig"@);
    } else if k == 6 {
        assert(text =~= "request."@ + "tool_config"@);
        lemma_request_field(text, "tool_config"@);
    } else if k == 7 {
        assert(text =~= "request."@ + "generationConfig"@);
        lemma_request_field(text, "generationConfig"@);
    } else if k == 8 {
        assert(text =~= "request."@ + "generation_config"@);
        lemma_request_field(text, "generation_config"@);
    } else if k == 9 {
        assert(text =~= "request."@ + "sessionId"@);
        lemma_request_field(text, "sessionId"@);
    } else if k == 10 {
        assert(text =~= "request."@ + "session_id"@);
        lemma_request_field(text, "session_id"@);
    } else {
        lemma_root_field(text);
    }
}

/// A content has a path.
pub proof fn lemma_content_is_protocol(i: int)
    ensures
        is_protocol(content_path(i)),
{
    reveal_strlit("request.");
    reveal_strlit("contents");
    reveal_strlit("request.contents[");
    reveal_strlit("[");
    lemma_protocol_names();
    let contents = "request."@ + "contents"@;
    lemma_request_field(contents, "contents"@);
    lemma_protocol_grows(contents, StepView::Index(i));
    assert(one_further(contents, StepView::Index(i)) =~= content_path(i));
}

/// A field of a part has a path.
pub proof fn lemma_part_field_is_protocol(i: int, j: int, name: Seq<char>)
    requires
        known_segments().contains(name),
    ensures
        is_protocol(part_field_path(i, j, name)),
{
    reveal_strlit("parts");
    reveal_strlit(".");
    reveal_strlit("[");
    reveal_strlit("]");
    reveal_strlit("].");
    reveal_strlit("].parts[");
    lemma_protocol_names();
    let content = content_path(i);
    lemma_content_is_protocol(i);
    assert(content.len() > 0);
    lemma_field(content, "parts"@);
    let parts = content + "."@ + "parts"@;
    lemma_protocol_grows(parts, StepView::Index(j));
    let part = one_further(parts, StepView::Index(j));
    lemma_field(part, name);
    assert(part + "."@ + name =~= part_field_path(i, j, name));
}

/// A field inside a field of a part has a path.
pub proof fn lemma_inner_field_is_protocol(i: int, j: int, outer: Seq<char>, name: Seq<char>)
    requires
        is_protocol(part_field_path(i, j, outer)),
        known_segments().contains(name),
    ensures
        is_protocol(part_field_path(i, j, outer + "."@ + name)),
{
    let path = part_field_path(i, j, outer);
    reveal_strlit("].");
    assert(path.len() > 0);
    lemma_field(path, name);
    assert(path + "."@ + name =~= part_field_path(i, j, outer + "."@ + name));
}

/// A finding is reported at or under a protocol path.
proof fn lemma_finding_is_protocol(finding: Finding, prev: JsonView, curr: JsonView, i: int, j: int)
    requires
        shows(finding, prev, curr),
    ensures
        is_protocol(finding_path(finding, prev, curr, i, j).base),
{
    reveal_strlit(".");
    reveal_strlit("text");
    reveal_strlit("thoughtSignature");
    reveal_strlit("thought_signature");
    reveal_strlit("functionCall");
    reveal_strlit("functionCall.args");
    reveal_strlit("functionCall.thoughtSignature");
    reveal_strlit("functionCall.thought_signature");
    reveal_strlit("args");
    reveal_strlit("functionResponse");
    reveal_strlit("response");
    reveal_strlit("result");
    reveal_strlit("functionResponse.response.result");
    lemma_protocol_names();
    let call = "functionCall"@;
    let reply = "functionResponse"@;
    lemma_part_field_is_protocol(i, j, call);
    match finding {
        Finding::ArgsTruncated | Finding::ArgsEdited => {
            lemma_inner_field_is_protocol(i, j, call, "args"@);
            assert(call + "."@ + "args"@ =~= "functionCall.args"@);
        },
        Finding::OutputTruncated | Finding::OutputEdited => {
            lemma_part_field_is_protocol(i, j, reply);
            lemma_inner_field_is_protocol(i, j, reply, "response"@);
            lemma_inner_field_is_protocol(i, j, reply + "."@ + "response"@, "result"@);
            assert(reply + "."@ + "response"@ + "."@ + "result"@
                =~= "functionResponse.response.result"@);
        },
        Finding::Signature => {
            lemma_part_field_is_protocol(i, j, "thoughtSignature"@);
            lemma_part_field_is_protocol(i, j, "thought_signature"@);
            lemma_inner_field_is_protocol(i, j, call, "thoughtSignature"@);
            lemma_inner_field_is_protocol(i, j, call, "thought_signature"@);
            assert(call + "."@ + "thoughtSignature"@ =~= "functionCall.thoughtSignature"@);
            assert(call + "."@ + "thought_signature"@ =~= "functionCall.thought_signature"@);
        },
        Finding::Thought => {
            lemma_part_field_is_protocol(i, j, "text"@);
        },
    }
}

/// A finding that is reported is reported at or under a protocol path.
proof fn lemma_first_finding_is_protocol(finding: Finding, prev: JsonView, curr: JsonView)
    ensures
        first_finding(finding, prev, curr) matches Some(found) ==> is_protocol(found.base),
{
    law_findings_are_first(finding, prev, curr);
    if let Some((i, j)) = finding_place(finding, prev, curr) {
        lemma_finding_is_protocol(
            finding,
            part_at(contents_of(prev), i, j),
            part_at(contents_of(curr), i, j),
            i,
            j,
        );
    }
}

/// Whatever is reported of two bodies is reported at or under a path of protocol
/// field names and array indices, which is logged as it stands. Only the steps
/// from there on can lead over other keys.
pub proof fn law_reported_base_is_shown(salt: Seq<u8>, prev: JsonView, curr: JsonView)
    ensures
        is_protocol(report(prev, curr).0.base),
        sanitized(salt, report(prev, curr).0.base, false) == report(prev, curr).0.base,
{
    lemma_root_is_protocol();
    lemma_content_is_protocol(contents_of(prev).len() as int);
    lemma_first_finding_is_protocol(Finding::ArgsTruncated, prev, curr);
    lemma_first_finding_is_protocol(Finding::OutputTruncated, prev, curr);
    lemma_first_finding_is_protocol(Finding::ArgsEdited, prev, curr);
    lemma_first_finding_is_protocol(Finding::OutputEdited, prev, curr);
    lemma_first_finding_is_protocol(Finding::Signature, prev, curr);
    lemma_first_finding_is_protocol(Finding::Thought, prev, curr);
    lemma_first_region(prev, curr, 0);
    if let Some(k) = first_region(prev, curr, 0) {
        lemma_region_is_protocol(k);
        assert(region_report(prev, curr, regions()[k].0)->0.base == regions()[k].0);
    }
    lemma_protocol_names();
    lemma_root_field("requestId"@);
    assert(is_protocol(report(prev, curr).0.base));
    law_protocol_paths_are_shown(salt, report(prev, curr).0.base);
}

/// A protocol field name is shown as it is, an array index too, and every other
/// segment by its salted hash.
pub proof fn law_protocol_names_are_shown(salt: Seq<u8>, segment: Seq<char>, in_bracket: bool)
    ensures
        known_segments().contains(segment) ==> rendered(salt, segment, in_bracket) == segment,
        segment.len() > 0 && all_digits(segment) ==> rendered(salt, segment, true) == segment,
        segment.len() > 0 && !known_segments().contains(segment) ==> rendered(salt, segment, false)
            == "<key:"@ + short_hash_of(salt, "path|"@ + segment) + ">"@,
{
    if known_segments().contains(segment) && segment.len() == 0 {
        assert(rendered(salt, segment, in_bracket) =~= segment);
    }
}

/// Whether a text is the salted hash of something.
pub open spec fn salted_hash(salt: Seq<u8>, shown: Seq<char>) -> bool {
    exists|s: Seq<char>| shown == #[trigger] short_hash_of(salt, s)
}

/// Whether a text is a classification.
pub open spec fn known_classification(shown: Seq<char>) -> bool {
    ||| shown == "NEW_SESSION"@
    ||| shown == "DEDUPED"@
    ||| shown == "PREVIOUS_PARSE_ERROR"@
    ||| exists|class: Class| shown == #[trigger] class_name(class)
}

/// Whether a text is a transition, or says that there is none.
pub open spec fn known_transition(shown: Seq<char>) -> bool {
    ||| shown == "none"@
    ||| exists|prev: SignatureKind, curr: SignatureKind|
        shown == #[trigger] transition_name(prev, curr)
}

/// Whether a text is a path that is safe to log, or says that there is none.
pub open spec fn safe_path(salt: Seq<u8>, shown: Seq<char>) -> bool {
    shown == "none"@ || is_safe(salt, shown)
}

/// Of an outcome the identities are salted hashes, the divergence is shown as a
/// safe path, and the other texts are names, but for the method, which the caller
/// chooses.
pub proof fn law_outcome_shows_hashes_paths_and_names(
    salt: Seq<u8>,
    store: StoreView,
    request: RequestView,
    fingerprint: FingerprintView,
)
    ensures
        ({
            let outcome = observed(salt, store, request, fingerprint);
            &&& salted_hash(salt, outcome.trajectory_key)
            &&& salted_hash(salt, outcome.account_key)
            &&& outcome.session_key matches Some(key) ==> salted_hash(salt, key)
            &&& outcome.trajectory_source == "content_seed"@ || outcome.trajectory_source
                == "environment_fallback"@
            &&& outcome.ordering == "arrival"@
            &&& outcome.method == request.method
            &&& safe_path(salt, divergence_text(salt, outcome.first_divergence))
            &&& known_classification(outcome.classification)
            &&& known_transition(outcome.signature_transition)
        }),
{
    let outcome = observed(salt, store, request, fingerprint);
    let key = trajectory_of(salt, request.body, fingerprint).id;
    let prev = previous(store, key);
    let value = parsed_previous(prev);
    if outcome.first_divergence is Some {
        law_logged_path_is_safe(salt, outcome.first_divergence->0);
    }
    if value is Some {
        let class = report(value->0, request.body).1;
        assert(known_classification(class_name(class)));
        let name = transition_report(value->0, request.body);
        match finding_place(Finding::Signature, value->0, request.body) {
            Some((i, j)) => {
                let change = slot_change(
                    part_at(contents_of(value->0), i, j),
                    part_at(contents_of(request.body), i, j),
                )->0;
                assert(name == transition_name(kind_of(change.prev), kind_of(change.curr)));
            },
            None => {},
        }
        assert(known_transition(name));
    }
}

/// An account id shows in an outcome only by its salted hash: two ids with the
/// same hash cannot be told apart.
pub proof fn law_account_shows_only_by_its_hash(
    salt: Seq<u8>,
    store: StoreView,
    request: RequestView,
    other_id: Option<Seq<char>>,
    fingerprint: FingerprintView,
)
    requires
        account_key_of(salt, request.account_id) == account_key_of(salt, other_id),
    ensures
        observed(salt, store, request, fingerprint) == observed(
            salt,
            store,
            (RequestView { account_id: other_id, ..request }),
            fingerprint,
        ),
{
}

} // verus!
