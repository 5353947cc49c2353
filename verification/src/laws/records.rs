//! What the records of the library hold.

use vstd::prelude::*;
use crate::divergence::opt_chars;
use crate::identity::{opt_str, string_views, SessionFingerprint, Trajectory};
use crate::json::{json_view, member_views, opt_view, views, Json, JsonView};
use crate::masked::{key_path_views, key_views, path_view, PathStep};
use crate::outcome::{opt_nat, DiagnosticOutcome};
use crate::path::{step_views, DivergencePath, Step, StepView};
use crate::registry::{observation_views, SigSourceObservation};
use crate::signature_source::{slot_view, SigPlan, SigSourceEntry};
use crate::snapshot::Snapshot;

verus! {

/// The content of a JSON value is that of its parts, in their order.
pub proof fn law_json_contents(json: Json)
    ensures
        match json {
            Json::Null => json@ == JsonView::Null,
            Json::Bool(b) => json@ == JsonView::Bool(b),
            Json::Number(n) => json@ == JsonView::Number(n@),
            Json::Text(s) => json@ == JsonView::Text(s@),
            Json::Array(items) => {
                &&& json@ is Array
                &&& json@->Array_0.len() == items@.len()
                &&& forall|i: int|
                    0 <= i < items@.len() ==> #[trigger] json@->Array_0[i] == items@[i]@
                &&& json@->Array_0 == views(items@)
            },
            Json::Object(members) => {
                &&& json@ is Object
                &&& json@->Object_0.len() == members@.len()
                &&& forall|i: int|
                    0 <= i < members@.len() ==> {
                        &&& (#[trigger] json@->Object_0[i]).key == members@[i].key@
                        &&& json@->Object_0[i].value == members@[i].value@
                    }
                &&& json@->Object_0 == member_views(members@)
            },
        },
        json@ == json_view(json),
{
    match json {
        Json::Array(items) => {
            assert(json@->Array_0 =~= views(items@));
        },
        Json::Object(members) => {
            assert(json@->Object_0 =~= member_views(members@));
        },
        _ => {},
    }
}

/// The content of a list of strings is that of each of them.
pub proof fn law_string_lists(strings: Seq<String>, i: int)
    requires
        0 <= i < strings.len(),
    ensures
        string_views(strings).len() == strings.len(),
        string_views(strings)[i] == strings[i]@,
        opt_chars(Some(strings[i])) == Some(strings[i]@),
        opt_chars(None) is None,
{
}

/// The content of a value or a text that may be absent.
pub proof fn law_optional_contents(json: &Json, text: &str)
    ensures
        opt_view(Some(json)) == Some(json@),
        opt_view(None) is None,
        opt_str(Some(text)) == Some(text@),
        opt_str(None) is None,
{
}

/// The content of some key paths is that of each of their keys, and the content of a
/// path that is followed is that of each of its steps.
pub proof fn law_key_paths(paths: Seq<Vec<&str>>, k: int, i: int, steps: Seq<PathStep>, n: int)
    requires
        0 <= k < paths.len(),
        0 <= i < paths[k]@.len(),
        0 <= n < steps.len(),
    ensures
        key_path_views(paths).len() == paths.len(),
        key_path_views(paths)[k] == key_views(paths[k]@),
        key_views(paths[k]@).len() == paths[k]@.len(),
        key_views(paths[k]@)[i] == paths[k]@[i]@,
        path_view(steps).len() == steps.len(),
        match steps[n] {
            PathStep::Key(key) => path_view(steps)[n] == StepView::Key(key@),
            PathStep::Index(index) => path_view(steps)[n] == StepView::Index(index as int),
        },
{
}

/// The content of a path is its known text and its steps, in their order.
pub proof fn law_path_contents(path: DivergencePath, i: int)
    requires
        0 <= i < path.steps@.len(),
    ensures
        path@.base == path.base@,
        path@.steps.len() == path.steps@.len(),
        path@.steps == step_views(path.steps@),
        match path.steps@[i] {
            Step::Key(key) => path@.steps[i] == StepView::Key(key@),
            Step::Index(n) => path@.steps[i] == StepView::Index(n as int),
        },
{
}

/// The content of an outcome is that of its fields.
pub proof fn law_outcome_contents(outcome: DiagnosticOutcome)
    ensures
        outcome@.trajectory_key == outcome.trajectory_key@,
        outcome@.trajectory_source == outcome.trajectory_source@,
        outcome@.account_key == outcome.account_key@,
        outcome@.account_changed == outcome.account_changed,
        outcome@.session_key is Some <==> outcome.session_key is Some,
        outcome.session_key is Some ==> outcome@.session_key->0 == outcome.session_key->0@,
        outcome@.session_changed == outcome.session_changed,
        outcome@.method == outcome.method@,
        outcome@.observation_seq == outcome.observation_seq,
        outcome@.current_bytes == outcome.current_bytes,
        outcome@.current_sha256 == outcome.current_sha256@,
        outcome@.previous_bytes == opt_nat(outcome.previous_bytes),
        outcome@.lcp_bytes == opt_nat(outcome.lcp_bytes),
        outcome@.estimated_lcp_tokens == opt_nat(outcome.estimated_lcp_tokens),
        outcome@.first_diff_offset == opt_nat(outcome.first_diff_offset),
        outcome@.first_divergence is Some <==> outcome.first_divergence is Some,
        outcome.first_divergence is Some ==> outcome@.first_divergence->0
            == outcome.first_divergence->0@,
        outcome@.classification == outcome.classification@,
        outcome@.signature_transition == outcome.signature_transition@,
        outcome@.ordering == outcome.ordering@,
{
}

/// The content of a count that may be absent.
pub proof fn law_optional_counts(n: usize)
    ensures
        opt_nat(Some(n)) == Some(n as nat),
        opt_nat(None) is None,
{
}

/// The content of a snapshot is that of its fields.
pub proof fn law_snapshot_contents(snapshot: Snapshot)
    ensures
        snapshot@.bytes == snapshot.bytes@,
        snapshot@.sha256_hex == snapshot.sha256_hex@,
        snapshot@.seq == snapshot.seq,
        snapshot@.account_key == snapshot.account_key@,
        snapshot@.session_key == opt_chars(snapshot.session_key),
{
}

/// The content of a trajectory is that of its fields, and so is that of what session
/// management reports.
pub proof fn law_identity_contents(trajectory: Trajectory, fingerprint: SessionFingerprint)
    ensures
        trajectory@.id == trajectory.id@,
        trajectory@.source == trajectory.source@,
        fingerprint@.sanitized_texts == string_views(fingerprint.sanitized_texts@),
        fingerprint@.session_id == fingerprint.session_id@,
{
}

/// The content of an entry is that of its fields.
pub proof fn law_entry_contents(entry: SigSourceEntry)
    ensures
        entry@.source == entry.source,
        entry@.restore_phase == entry.restore_phase,
        entry@.store_record_hash == opt_chars(entry.store_record_hash),
        entry@.fallback_marked == entry.fallback_marked,
        entry@.session_lookup == entry.session_lookup@,
        entry@.session_message_count == opt_nat(entry.session_message_count),
        entry@.v2b_action == entry.v2b_action,
{
}

/// The content of a plan is that of its entries, by tool id.
pub proof fn law_plan_contents(plan: SigPlan, tool_id: Seq<char>)
    ensures
        plan@.contains_key(tool_id) <==> plan.entries@.contains_key(tool_id),
        plan@.contains_key(tool_id) ==> plan@[tool_id] == plan.entries@[tool_id]@,
        slot_view(Some(plan)) == Some(plan@),
        slot_view(None) is None,
{
}

/// The content of a list of observations is that of the fields of each.
pub proof fn law_observation_contents(observations: Seq<SigSourceObservation>, i: int)
    requires
        0 <= i < observations.len(),
    ensures
        observation_views(observations).len() == observations.len(),
        observation_views(observations)[i].content_index == observations[i].content_index,
        observation_views(observations)[i].part_index == observations[i].part_index,
        observation_views(observations)[i].tool_id_hash == observations[i].tool_id_hash@,
        observation_views(observations)[i].entry == observations[i].entry@,
{
}

} // verus!
