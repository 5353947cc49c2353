//! What a plan holds after each record.

use vstd::prelude::*;
use crate::signature_source::{
    after_action, after_builder, after_restore, EntryView, RestorePhase, SigSource, V2bAction,
};

verus! {

/// A builder record without a tool id, or for a call whose signature came from the
/// per-turn store, changes nothing. Every other one is noted under its tool id with
/// its source and its mark, and with nothing of a restore; only a fallback to the
/// session says which session it looked at.
pub proof fn law_builder_record(
    plan: Map<Seq<char>, EntryView>,
    tool_id: Seq<char>,
    source: SigSource,
    marked: bool,
)
    ensures
        ({
            let now = after_builder(plan, tool_id, source, marked);
            let held = plan.contains_key(tool_id) && plan[tool_id].source is PerTurnStore;
            &&& tool_id.len() == 0 || held ==> now == plan
            &&& tool_id.len() > 0 && !held ==> {
                &&& now.dom() == plan.dom().insert(tool_id)
                &&& now[tool_id].source == source
                &&& now[tool_id].fallback_marked == marked
                &&& now[tool_id].restore_phase is NoPhase
                &&& now[tool_id].store_record_hash is None
                &&& now[tool_id].session_lookup == (if source is SessionFallback {
                    "LATEST"@
                } else {
                    "none"@
                })
                &&& now[tool_id].session_message_count is None
                &&& now[tool_id].v2b_action is NoAction
            }
        }),
{
    let now = after_builder(plan, tool_id, source, marked);
    if now != plan {
        assert(now.dom() =~= plan.dom().insert(tool_id));
    }
}

/// A restore without a tool id changes nothing. Every other one is noted under its
/// tool id, whatever was there: as a signature of the per-turn store, with its phase,
/// the hash of its record and its mark.
pub proof fn law_restore_record(
    plan: Map<Seq<char>, EntryView>,
    tool_id: Seq<char>,
    phase: RestorePhase,
    rec_hash: Seq<char>,
    marked: bool,
)
    ensures
        ({
            let now = after_restore(plan, tool_id, phase, rec_hash, marked);
            &&& tool_id.len() == 0 ==> now == plan
            &&& tool_id.len() > 0 ==> {
                &&& now.dom() == plan.dom().insert(tool_id)
                &&& now[tool_id].source is PerTurnStore
                &&& now[tool_id].restore_phase == phase
                &&& now[tool_id].store_record_hash == Some(rec_hash)
                &&& now[tool_id].fallback_marked == marked
                &&& now[tool_id].session_lookup == "none"@
                &&& now[tool_id].session_message_count is None
                &&& now[tool_id].v2b_action is NoAction
            }
        }),
{
    let now = after_restore(plan, tool_id, phase, rec_hash, marked);
    if tool_id.len() > 0 {
        assert(now.dom() =~= plan.dom().insert(tool_id));
    }
}

/// A stability action is noted on the builder's record of a tool id, one without the
/// hash of a restored record, and changes nothing else of it. Without a tool id or
/// without such a record nothing changes.
pub proof fn law_action_record(
    plan: Map<Seq<char>, EntryView>,
    tool_id: Seq<char>,
    action: V2bAction,
)
    ensures
        ({
            let now = after_action(plan, tool_id, action);
            let built = plan.contains_key(tool_id) && plan[tool_id].store_record_hash is None;
            &&& tool_id.len() == 0 || !built ==> now == plan
            &&& tool_id.len() > 0 && built ==> {
                &&& now.dom() == plan.dom()
                &&& now[tool_id].v2b_action == action
                &&& now[tool_id].source == plan[tool_id].source
                &&& now[tool_id].restore_phase == plan[tool_id].restore_phase
                &&& now[tool_id].store_record_hash is None
                &&& now[tool_id].fallback_marked == plan[tool_id].fallback_marked
                &&& now[tool_id].session_lookup == plan[tool_id].session_lookup
                &&& now[tool_id].session_message_count == plan[tool_id].session_message_count
            }
        }),
{
    let now = after_action(plan, tool_id, action);
    if tool_id.len() > 0 && plan.contains_key(tool_id) {
        assert(now.dom() =~= plan.dom());
    }
}

} // verus!
