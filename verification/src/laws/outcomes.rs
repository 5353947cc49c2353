//! What an outcome tells of a request, and how it is logged.

use vstd::prelude::*;
use crate::classify::{class_name, report};
use crate::hashing::{sha256, short_hash_of};
use crate::history::all_digits;
use crate::identity::{
    account_key_of, session_key_of, trajectory_of, FingerprintView, TrajectoryView,
};
use crate::json::JsonView;
use crate::laws::observations::{number_or_none, text_or_none};
use crate::laws::paths::law_logged_path_is_empty_with_its_text;
use crate::laws::privacy::{
    all_protocol, all_safe, hashed_segment, is_protocol, is_safe, joined, law_logged_path_is_safe,
    law_protocol_names_are_shown, law_protocol_paths_are_shown, lemma_content_is_protocol,
    lemma_inner_field_is_protocol, lemma_part_field_is_protocol, lemma_protocol_names,
    lemma_request_field, lemma_root_field, safe_piece,
};
use crate::laws::values::law_common_prefix;
use crate::observe::observed;
use crate::outcome::{divergence_text, outcome_line, outcome_of, OutcomeView, RequestView};
use crate::parse::parsed_json;
use crate::path::{further, PathView, StepView};
use crate::prefix::common_prefix_len;
use crate::sanitize::{known_segments, logged_further};
use crate::scan::transition_report;
use crate::snapshot::SnapshotView;
use crate::store::StoreView;
use crate::text::{bool_text, decimal, hex};

verus! {

/// What every outcome tells of the request itself, and of the account and the
/// session in comparison with the previous snapshot.
pub proof fn law_outcome_tells_of_the_request(
    salt: Seq<u8>,
    prev: Option<SnapshotView>,
    prev_value: Option<JsonView>,
    request: RequestView,
    trajectory: TrajectoryView,
    seq: u64,
)
    ensures
        ({
            let outcome = outcome_of(salt, prev, prev_value, request, trajectory, seq);
            &&& outcome.trajectory_key == trajectory.id
            &&& outcome.trajectory_source == trajectory.source
            &&& outcome.account_key == account_key_of(salt, request.account_id)
            &&& outcome.session_key == session_key_of(salt, request.body)
            &&& outcome.method == request.method
            &&& outcome.observation_seq == seq
            &&& outcome.current_bytes == request.serialized.len()
            &&& outcome.current_sha256 == hex(sha256(request.serialized))
            &&& outcome.ordering == "arrival"@
            &&& outcome.account_changed <==> prev is Some && prev->0.account_key
                != outcome.account_key
            &&& outcome.session_changed <==> prev is Some && prev->0.session_key
                != outcome.session_key
            &&& outcome.previous_bytes is Some <==> prev is Some
            &&& prev is Some ==> outcome.previous_bytes == Some(prev->0.bytes.len())
        }),
{
}

/// Without a previous snapshot nothing is compared.
pub proof fn law_first_request_of_a_trajectory(
    salt: Seq<u8>,
    prev_value: Option<JsonView>,
    request: RequestView,
    trajectory: TrajectoryView,
    seq: u64,
)
    ensures
        ({
            let outcome = outcome_of(salt, None, prev_value, request, trajectory, seq);
            &&& outcome.classification == "NEW_SESSION"@
            &&& outcome.lcp_bytes is None
            &&& outcome.estimated_lcp_tokens is None
            &&& outcome.first_diff_offset is None
            &&& outcome.first_divergence is None
            &&& outcome.signature_transition == "none"@
        }),
{
}

/// A request with the digest of the previous one is a repetition of it, all of whose
/// bytes are in common; a token is taken for four bytes.
pub proof fn law_repeated_request(
    salt: Seq<u8>,
    prev: SnapshotView,
    prev_value: Option<JsonView>,
    request: RequestView,
    trajectory: TrajectoryView,
    seq: u64,
)
    requires
        prev.sha256_hex == hex(sha256(request.serialized)),
    ensures
        ({
            let outcome = outcome_of(salt, Some(prev), prev_value, request, trajectory, seq);
            &&& outcome.classification == "DEDUPED"@
            &&& outcome.lcp_bytes == Some(request.serialized.len())
            &&& outcome.estimated_lcp_tokens == Some(request.serialized.len() / 4)
            &&& outcome.first_diff_offset == Some(request.serialized.len())
            &&& outcome.first_divergence is None
            &&& outcome.signature_transition == "none"@
        }),
{
}

/// Whenever there is a previous snapshot with another digest, whatever the class, the
/// number of common bytes and the offset of the first difference are the same
/// number: up to it the current and the previous bytes agree, and there they differ
/// or one of them ends. A token is taken for four bytes.
pub proof fn law_common_bytes_end_at_the_first_difference(
    salt: Seq<u8>,
    prev: SnapshotView,
    prev_value: Option<JsonView>,
    request: RequestView,
    trajectory: TrajectoryView,
    seq: u64,
)
    requires
        prev.sha256_hex != hex(sha256(request.serialized)),
    ensures
        ({
            let outcome = outcome_of(salt, Some(prev), prev_value, request, trajectory, seq);
            let a = request.serialized;
            let b = prev.bytes;
            &&& outcome.lcp_bytes matches Some(n) && {
                &&& n <= a.len()
                &&& n <= b.len()
                &&& forall|i: int| 0 <= i < n ==> #[trigger] a[i] == b[i]
                &&& n == a.len() || n == b.len() || a[n as int] != b[n as int]
                &&& outcome.first_diff_offset == Some(n)
                &&& outcome.estimated_lcp_tokens == Some(n / 4)
            }
        }),
{
    let a = request.serialized;
    let b = prev.bytes;
    law_common_prefix(a, b);
    let n = common_prefix_len(a, b) as int;
    assert forall|i: int| 0 <= i < n implies #[trigger] a[i] == b[i] by {
        assert(a.take(n)[i] == b.take(n)[i]);
    }
}

/// A request that differs from the previous one is classified by what the previous
/// bytes parse to, and its divergence is where the report of the two bodies says. A
/// transition is told only of a signature change.
pub proof fn law_changed_request_is_classified(
    salt: Seq<u8>,
    prev: SnapshotView,
    value: JsonView,
    request: RequestView,
    trajectory: TrajectoryView,
    seq: u64,
)
    requires
        prev.sha256_hex != hex(sha256(request.serialized)),
    ensures
        ({
            let outcome = outcome_of(salt, Some(prev), Some(value), request, trajectory, seq);
            let reported = report(value, request.body);
            &&& outcome.classification == class_name(reported.1)
            &&& outcome.first_divergence == Some(reported.0)
            &&& reported.1 is SignatureChange ==> outcome.signature_transition == transition_report(
                value,
                request.body,
            )
            &&& !(reported.1 is SignatureChange) ==> outcome.signature_transition == "none"@
        }),
{
}

/// Where the previous bytes do not parse, that is what is told, and no path.
pub proof fn law_previous_bytes_that_do_not_parse(
    salt: Seq<u8>,
    prev: SnapshotView,
    request: RequestView,
    trajectory: TrajectoryView,
    seq: u64,
)
    requires
        prev.sha256_hex != hex(sha256(request.serialized)),
    ensures
        ({
            let outcome = outcome_of(salt, Some(prev), None, request, trajectory, seq);
            &&& outcome.classification == "PREVIOUS_PARSE_ERROR"@
            &&& outcome.first_divergence is Some
            &&& outcome.first_divergence->0.base.len() == 0
            &&& outcome.first_divergence->0.steps.len() == 0
            &&& outcome.signature_transition == "none"@
        }),
{
}

/// A request is compared with what the store holds under its trajectory, parsed, and
/// has the next sequence number of the store.
pub proof fn law_request_is_compared_within_its_trajectory(
    salt: Seq<u8>,
    store: StoreView,
    request: RequestView,
    fingerprint: FingerprintView,
)
    ensures
        ({
            let trajectory = trajectory_of(salt, request.body, fingerprint);
            let held = store.sessions.contains_key(trajectory.id);
            let snapshot = store.sessions[trajectory.id];
            &&& held ==> observed(salt, store, request, fingerprint) == outcome_of(
                salt,
                Some(snapshot),
                parsed_json(snapshot.bytes),
                request,
                trajectory,
                store.seq,
            )
            &&& !held ==> observed(salt, store, request, fingerprint) == outcome_of(
                salt,
                None,
                None,
                request,
                trajectory,
                store.seq,
            )
        }),
{
}

/// No protocol field name starts like the word for an absent path.
proof fn lemma_names_differ_from_none(k: int)
    requires
        0 <= k < known_segments().len(),
    ensures
        known_segments()[k].len() >= 2,
        known_segments()[k][0] != 'n' || known_segments()[k][1] != 'o',
{
    reveal_strlit("project");
    reveal_strlit("request");
    reveal_strlit("requestId");
    reveal_strlit("sessionId");
    reveal_strlit("session_id");
    reveal_strlit("model");
    reveal_strlit("userAgent");
    reveal_strlit("requestType");
    reveal_strlit("enabledCreditTypes");
    reveal_strlit("systemInstruction");
    reveal_strlit("system_instruction");
    reveal_strlit("tools");
    reveal_strlit("toolConfig");
    reveal_strlit("tool_config");
    reveal_strlit("functionDeclarations");
    reveal_strlit("function_declarations");
    reveal_strlit("generationConfig");
    reveal_strlit("generation_config");
    reveal_strlit("safetySettings");
    reveal_strlit("safety_settings");
    reveal_strlit("contents");
    reveal_strlit("role");
    reveal_strlit("parts");
    reveal_strlit("text");
    reveal_strlit("thought");
    reveal_strlit("thoughtSignature");
    reveal_strlit("thought_signature");
    reveal_strlit("functionCall");
    reveal_strlit("function_call");
    reveal_strlit("functionResponse");
    reveal_strlit("function_response");
    reveal_strlit("name");
    reveal_strlit("args");
    reveal_strlit("id");
    reveal_strlit("response");
    reveal_strlit("result");
    reveal_strlit("inlineData");
    reveal_strlit("inline_data");
    reveal_strlit("mimeType");
    reveal_strlit("mime_type");
    reveal_strlit("data");
    reveal_strlit("cachedContent");
    reveal_strlit("cached_content");
}

/// A piece of a logged path is not empty, and does not start like the word for an
/// absent path.
proof fn lemma_pieces_differ_from_none(salt: Seq<u8>, piece: Seq<char>)
    requires
        safe_piece(salt, piece),
    ensures
        piece.len() > 0,
        piece[0] != 'n' || (piece.len() >= 2 && piece[1] != 'o'),
{
    if known_segments().contains(piece) {
        let k = choose|k: int| 0 <= k < known_segments().len() && known_segments()[k] == piece;
        lemma_names_differ_from_none(k);
    } else if hashed_segment(salt, piece) {
        reveal_strlit("<key:");
        let segment = choose|segment: Seq<char>|
            piece == "<key:"@ + #[trigger] short_hash_of(salt, "path|"@ + segment) + ">"@;
        assert(piece[0] == '<');
    } else if piece.len() > 0 && all_digits(piece) {
        assert('0' <= piece[0] <= '9');
    }
}

/// A logged path is never the word for an absent path.
proof fn lemma_logged_path_is_not_none(salt: Seq<u8>, shown: Seq<char>)
    requires
        is_safe(salt, shown),
    ensures
        shown != "none"@,
{
    reveal_strlit("none");
    let pieces = choose|pieces: Seq<Seq<char>>| #[trigger]
        all_safe(salt, pieces) && joined(pieces) == shown;
    if pieces.len() > 0 {
        assert(safe_piece(salt, pieces[0]));
        lemma_pieces_differ_from_none(salt, pieces[0]);
        assert(shown == pieces[0] + joined(pieces.skip(1)));
        assert(shown[0] == pieces[0][0]);
        if pieces[0].len() >= 2 {
            assert(shown[1] == pieces[0][1]);
        }
        if shown == "none"@ {
            assert(shown[0] == 'n');
            assert(shown[1] == 'o');
        }
    } else if shown == "none"@ {
        assert(shown.len() == 4);
    }
}

/// A divergence is logged as its sanitized path whenever its text is not empty, and
/// that is never the word for an absent one. Where there is no divergence, or its
/// path is empty, the word stands in its place.
pub proof fn law_divergence_is_logged(salt: Seq<u8>, path: PathView)
    ensures
        divergence_text(salt, None) == "none"@,
        further(path.base, path.steps).len() == 0 ==> divergence_text(salt, Some(path))
            == "none"@,
        further(path.base, path.steps).len() > 0 ==> {
            &&& divergence_text(salt, Some(path)) == logged_further(salt, path.base, path.steps)
            &&& divergence_text(salt, Some(path)) != "none"@
        },
{
    law_logged_path_is_empty_with_its_text(salt, path.base, path.steps);
    law_logged_path_is_safe(salt, path);
    lemma_logged_path_is_not_none(salt, logged_further(salt, path.base, path.steps));
}

/// A path of protocol field names and indices is logged as it stands.
proof fn lemma_protocol_path_is_logged(salt: Seq<u8>, path: PathView)
    requires
        is_protocol(path.base),
        all_protocol(path.steps),
    ensures
        logged_further(salt, path.base, path.steps) == further(path.base, path.steps),
    decreases path.steps.len(),
{
    let steps = path.steps;
    if steps.len() == 0 {
        law_protocol_paths_are_shown(salt, path.base);
    } else {
        assert forall|k: int| 0 <= k < steps.drop_last().len() implies ((
        #[trigger] steps.drop_last()[k]) matches StepView::Key(key) ==> known_segments().contains(
            key,
        )) by {
            assert(steps[k] == steps.drop_last()[k]);
        }
        lemma_protocol_path_is_logged(
            salt,
            PathView { base: path.base, steps: steps.drop_last() },
        );
        assert(steps[steps.len() - 1] == steps.last());
        if let StepView::Key(key) = steps.last() {
            law_protocol_names_are_shown(salt, key, false);
            let before = further(path.base, steps.drop_last());
            if before.len() == 0 {
                assert(before + key =~= key);
            }
        }
    }
}

/// A divergence whose path is made of protocol field names and indices is logged
/// exactly as its text.
pub proof fn law_protocol_divergence_is_logged_as_its_text(salt: Seq<u8>, path: PathView)
    requires
        is_protocol(path.base),
        all_protocol(path.steps),
        further(path.base, path.steps).len() > 0,
    ensures
        divergence_text(salt, Some(path)) == further(path.base, path.steps),
{
    law_divergence_is_logged(salt, path);
    lemma_protocol_path_is_logged(salt, path);
}

/// The paths of an appended content, of a changed signature, of the `requestId` and
/// of the session are logged exactly as they are.
pub proof fn law_known_divergences_are_logged_as_their_text(salt: Seq<u8>, i: nat, j: nat)
    ensures
        ({
            let content = "request.contents["@ + decimal(i) + "]"@;
            let part = "request.contents["@ + decimal(i) + "].parts["@ + decimal(j) + "]."@;
            let none = Seq::<StepView>::empty();
            &&& divergence_text(salt, Some(PathView { base: content, steps: none })) == content
            &&& divergence_text(salt, Some(PathView { base: "requestId"@, steps: none }))
                == "requestId"@
            &&& divergence_text(salt, Some(PathView { base: "request.sessionId"@, steps: none }))
                == "request.sessionId"@
            &&& divergence_text(
                salt,
                Some(PathView { base: part + "thoughtSignature"@, steps: none }),
            ) == part + "thoughtSignature"@
            &&& divergence_text(
                salt,
                Some(PathView { base: part + "thought_signature"@, steps: none }),
            ) == part + "thought_signature"@
            &&& divergence_text(
                salt,
                Some(PathView { base: part + "functionCall.args"@, steps: none }),
            ) == part + "functionCall.args"@
            &&& divergence_text(salt, Some(PathView { base: part + "text"@, steps: none })) == part
                + "text"@
        }),
{
    reveal_strlit("request.contents[");
    reveal_strlit("requestId");
    reveal_strlit("request.sessionId");
    reveal_strlit("request.");
    reveal_strlit("sessionId");
    reveal_strlit("functionCall");
    reveal_strlit("functionCall.args");
    reveal_strlit("args");
    reveal_strlit(".");
    let none = Seq::<StepView>::empty();
    assert(all_protocol(none));
    let content = "request.contents["@ + decimal(i) + "]"@;
    let part = "request.contents["@ + decimal(i) + "].parts["@ + decimal(j) + "]."@;
    let call = "functionCall"@;
    lemma_protocol_names();
    lemma_content_is_protocol(i as int);
    law_protocol_divergence_is_logged_as_its_text(salt, PathView { base: content, steps: none });
    lemma_root_field("requestId"@);
    law_protocol_divergence_is_logged_as_its_text(
        salt,
        PathView { base: "requestId"@, steps: none },
    );
    assert("request.sessionId"@ =~= "request."@ + "sessionId"@);
    lemma_request_field("request.sessionId"@, "sessionId"@);
    law_protocol_divergence_is_logged_as_its_text(
        salt,
        PathView { base: "request.sessionId"@, steps: none },
    );
    lemma_part_field_is_protocol(i as int, j as int, "thoughtSignature"@);
    law_protocol_divergence_is_logged_as_its_text(
        salt,
        PathView { base: part + "thoughtSignature"@, steps: none },
    );
    lemma_part_field_is_protocol(i as int, j as int, "thought_signature"@);
    law_protocol_divergence_is_logged_as_its_text(
        salt,
        PathView { base: part + "thought_signature"@, steps: none },
    );
    lemma_part_field_is_protocol(i as int, j as int, call);
    lemma_inner_field_is_protocol(i as int, j as int, call, "args"@);
    assert(call + "."@ + "args"@ =~= "functionCall.args"@);
    law_protocol_divergence_is_logged_as_its_text(
        salt,
        PathView { base: part + "functionCall.args"@, steps: none },
    );
    lemma_part_field_is_protocol(i as int, j as int, "text"@);
    law_protocol_divergence_is_logged_as_its_text(
        salt,
        PathView { base: part + "text"@, steps: none },
    );
}

/// The line of an outcome names, in this order, the trajectory and its source, the
/// ordering, the account and whether it changed, the session and whether it changed,
/// the method, the sequence number, the current and the previous length, the common
/// prefix in bytes, as a percentage and in tokens, the offset and the path of the
/// first difference, the class, and the transition of the signature.
pub proof fn law_outcome_line(salt: Seq<u8>, o: OutcomeView, percent: Option<Seq<char>>)
    ensures
        outcome_line(salt, o, percent) == "[CACHE-DIAG] trajectory="@ + o.trajectory_key
            + " trajectory_source="@ + o.trajectory_source + " ordering="@ + o.ordering
            + " account="@ + o.account_key + " account_changed="@ + bool_text(o.account_changed)
            + " session="@ + text_or_none(o.session_key) + " session_changed="@ + bool_text(
            o.session_changed,
        ) + " method="@ + o.method + " obs_seq="@ + decimal(o.observation_seq as nat)
            + " current_bytes="@ + decimal(o.current_bytes) + " previous_bytes="@ + number_or_none(
            o.previous_bytes,
        ) + " lcp_bytes="@ + number_or_none(o.lcp_bytes) + " lcp_percent="@ + text_or_none(percent)
            + " estimated_lcp_tokens="@ + number_or_none(o.estimated_lcp_tokens)
            + " first_diff_offset="@ + number_or_none(o.first_diff_offset) + " first_divergence="@
            + divergence_text(salt, o.first_divergence) + " classification="@ + o.classification
            + " signature_transition="@ + o.signature_transition,
{
}

} // verus!
