//! Which function calls of a body are attributed, and how that is reported.

use vstd::prelude::*;
use crate::hashing::short_hash_of;
use crate::history::parts_of;
use crate::json::{JsonView, MemberView};
use crate::laws::attribution::{
    attributed_at, law_observations_follow_the_body, lemma_part_observations, observed_at,
    stands_before, tells,
};
use crate::laws::equality::lemma_lookup_is_first;
use crate::registry::{
    body_observations, observation_line, observation_lines, part_observations, plan_observations,
    registered, registration, request_id_of, tool_id_of, ObservationView, RegistryView,
};
use crate::scan::part_at;
use crate::signature_source::{
    action_name, phase_of, phase_tag, source_name, EntryView, RestorePhase, SigPlan, SigSource,
    V2bAction,
};
use crate::text::{bool_text, decimal};

verus! {

/// Whether a part holds, under `functionCall`, a call whose `id` is a given string.
/// What else the call holds does not matter.
pub open spec fn calls(part: JsonView, id: Seq<char>) -> bool {
    &&& part.get("functionCall"@) is Some
    &&& part.get("functionCall"@)->0.get("id"@) == Some(JsonView::Text(id))
}

/// Whether part `j` of content `i` makes a call whose `id` is a given string.
pub open spec fn calls_at(contents: Seq<JsonView>, i: int, j: int, id: Seq<char>) -> bool {
    &&& 0 <= i < contents.len()
    &&& match contents[i].get("parts"@) {
        Some(JsonView::Array(parts)) => 0 <= j < parts.len() && calls(parts[j], id),
        _ => false,
    }
}

/// What is observed of the call at a place: the salted hash of its id, and what the
/// plan holds under the id.
pub open spec fn observation_at(
    salt: Seq<u8>,
    plan: Map<Seq<char>, EntryView>,
    i: nat,
    j: nat,
    id: Seq<char>,
) -> ObservationView {
    ObservationView {
        content_index: i,
        part_index: j,
        tool_id_hash: short_hash_of(salt, "toolid|"@ + id),
        entry: plan[id],
    }
}

/// Whether exactly one of some observations stands at a place, and which it is.
pub open spec fn only_at(
    observations: Seq<ObservationView>,
    i: nat,
    j: nat,
    observation: ObservationView,
) -> bool {
    &&& observations.contains(observation)
    &&& forall|k: int|
        0 <= k < observations.len() && (#[trigger] observations[k]).content_index == i
            && observations[k].part_index == j ==> observations[k] == observation
    &&& forall|k: int, l: int|
        0 <= k < observations.len() && 0 <= l < observations.len() && (
        #[trigger] observations[k]).content_index == i && observations[k].part_index == j && (
        #[trigger] observations[l]).content_index == i && observations[l].part_index == j ==> k == l
}

/// Whether some observations tell of the calls of a body whose ids a plan holds, and
/// of nothing else: exactly one stands at the place of each such call, each stands
/// at the place of such a call, and they come in the order of their places.
pub open spec fn tell_of_the_calls(
    salt: Seq<u8>,
    plan: Map<Seq<char>, EntryView>,
    contents: Seq<JsonView>,
    observations: Seq<ObservationView>,
) -> bool {
    &&& forall|i: nat, j: nat, id: Seq<char>|
        #[trigger] calls_at(contents, i as int, j as int, id) && plan.contains_key(id) ==> only_at(
            observations,
            i,
            j,
            observation_at(salt, plan, i, j, id),
        )
    &&& forall|k: int|
        0 <= k < observations.len() ==> exists|id: Seq<char>|
            plan.contains_key(id) && #[trigger] calls_at(
                contents,
                (#[trigger] observations[k]).content_index as int,
                observations[k].part_index as int,
                id,
            )
    &&& forall|k: int, l: int|
        0 <= k < l < observations.len() ==> {
            let a = #[trigger] observations[k];
            let b = #[trigger] observations[l];
            a.content_index < b.content_index || (a.content_index == b.content_index && a.part_index
                < b.part_index)
        }
}

/// A call under its keys is what the plan attributes.
proof fn lemma_calls_are_attributed(
    plan: Map<Seq<char>, EntryView>,
    contents: Seq<JsonView>,
    i: int,
    j: int,
    id: Seq<char>,
)
    requires
        calls_at(contents, i, j, id),
        plan.contains_key(id),
    ensures
        attributed_at(plan, contents, i, j),
        tool_id_of(part_at(contents, i, j)) == Some(id),
{
}

/// Observations in the order of their places that tell what the plan says of the
/// calls tell of the calls by their keys.
proof fn lemma_tell_by_keys(
    salt: Seq<u8>,
    plan: Map<Seq<char>, EntryView>,
    contents: Seq<JsonView>,
    all: Seq<ObservationView>,
)
    requires
        forall|k: int| 0 <= k < all.len() ==> tells(salt, plan, contents, #[trigger] all[k]),
        forall|k: int, l: int|
            0 <= k < l < all.len() ==> stands_before(#[trigger] all[k], #[trigger] all[l]),
        forall|i: int, j: int|
            #[trigger] attributed_at(plan, contents, i, j) ==> observed_at(all, i, j),
    ensures
        tell_of_the_calls(salt, plan, contents, all),
{
    assert forall|i: nat, j: nat, id: Seq<char>| #[trigger]
        calls_at(contents, i as int, j as int, id) && plan.contains_key(id) implies only_at(
        all,
        i,
        j,
        observation_at(salt, plan, i, j, id),
    ) by {
        lemma_calls_are_attributed(plan, contents, i as int, j as int, id);
        assert(observed_at(all, i as int, j as int));
        let at = choose|k: int|
            0 <= k < all.len() && (#[trigger] all[k]).content_index == i && all[k].part_index == j;
        assert(tells(salt, plan, contents, all[at]));
        assert(all[at] == observation_at(salt, plan, i, j, id));
        assert forall|k: int, l: int|
            0 <= k < all.len() && 0 <= l < all.len() && (#[trigger] all[k]).content_index == i
                && all[k].part_index == j && (#[trigger] all[l]).content_index == i
                && all[l].part_index == j implies k == l by {
            if k < l {
                assert(stands_before(all[k], all[l]));
            } else if l < k {
                assert(stands_before(all[l], all[k]));
            }
        }
    }
    assert forall|k: int| 0 <= k < all.len() implies exists|id: Seq<char>|
        plan.contains_key(id) && #[trigger] calls_at(
            contents,
            (#[trigger] all[k]).content_index as int,
            all[k].part_index as int,
            id,
        ) by {
        assert(tells(salt, plan, contents, all[k]));
        let i = all[k].content_index as int;
        let j = all[k].part_index as int;
        let id = tool_id_of(part_at(contents, i, j))->0;
        assert(calls_at(contents, i, j, id));
    }
    assert forall|k: int, l: int| 0 <= k < l < all.len() implies {
        let a = #[trigger] all[k];
        let b = #[trigger] all[l];
        a.content_index < b.content_index || (a.content_index == b.content_index && a.part_index
            < b.part_index)
    } by {
        assert(stands_before(all[k], all[l]));
    }
}

/// Of the parts of one content exactly those are observed that hold a
/// `functionCall` whose `id` the plan holds: each once, with the hash of its id and
/// the entry of its id, in the order of the parts.
pub proof fn law_parts_are_observed_by_call_id(
    salt: Seq<u8>,
    plan: Map<Seq<char>, EntryView>,
    parts: Seq<JsonView>,
    ci: nat,
)
    ensures
        ({
            let all = part_observations(salt, plan, parts, ci, parts.len() as int);
            &&& forall|j: nat, id: Seq<char>|
                j < parts.len() && #[trigger] calls(parts[j as int], id) && plan.contains_key(id)
                    ==> only_at(all, ci, j, observation_at(salt, plan, ci, j, id))
            &&& forall|k: int|
                0 <= k < all.len() ==> {
                    &&& (#[trigger] all[k]).content_index == ci
                    &&& all[k].part_index < parts.len()
                    &&& exists|id: Seq<char>|
                        plan.contains_key(id) && #[trigger] calls(
                            parts[all[k].part_index as int],
                            id,
                        )
                }
            &&& forall|k: int, l: int|
                0 <= k < l < all.len() ==> (#[trigger] all[k]).part_index < (
                #[trigger] all[l]).part_index
        }),
{
    let members = seq![MemberView { key: "parts"@, value: JsonView::Array(parts) }];
    let content = JsonView::Object(members);
    assert(crate::json::first_at(members, "parts"@, 0));
    lemma_lookup_is_first(members, "parts"@, 0);
    assert(content.get("parts"@) == Some(JsonView::Array(parts)));
    let contents = Seq::new(ci + 1, |i: int| content);
    let i = ci as int;
    assert(contents[i] == content);
    assert(parts_of(contents[i]) == Some(parts));
    lemma_part_observations(salt, plan, contents, i, parts.len() as int);
    let all = part_observations(salt, plan, parts, ci, parts.len() as int);
    assert forall|j: nat, id: Seq<char>|
        j < parts.len() && #[trigger] calls(parts[j as int], id) && plan.contains_key(
            id,
        ) implies only_at(all, ci, j, observation_at(salt, plan, ci, j, id)) by {
        assert(calls_at(contents, i, j as int, id));
        lemma_calls_are_attributed(plan, contents, i, j as int, id);
        assert(observed_at(all, i, j as int));
        let at = choose|k: int|
            0 <= k < all.len() && (#[trigger] all[k]).content_index == i && all[k].part_index == j;
        assert(tells(salt, plan, contents, all[at]));
        assert(all[at] == observation_at(salt, plan, ci, j, id));
        assert forall|k: int, l: int|
            0 <= k < all.len() && 0 <= l < all.len() && (#[trigger] all[k]).content_index == ci
                && all[k].part_index == j && (#[trigger] all[l]).content_index == ci
                && all[l].part_index == j implies k == l by {
            if k < l {
                assert(stands_before(all[k], all[l]));
            } else if l < k {
                assert(stands_before(all[l], all[k]));
            }
        }
    }
    assert forall|k: int| 0 <= k < all.len() implies {
        &&& (#[trigger] all[k]).content_index == ci
        &&& all[k].part_index < parts.len()
        &&& exists|id: Seq<char>|
            plan.contains_key(id) && #[trigger] calls(parts[all[k].part_index as int], id)
    } by {
        assert(tells(salt, plan, contents, all[k]));
        let j = all[k].part_index as int;
        let id = tool_id_of(part_at(contents, i, j))->0;
        assert(part_at(contents, i, j) == parts[j]);
        assert(calls(parts[j], id));
    }
    assert forall|k: int, l: int| 0 <= k < l < all.len() implies (#[trigger] all[k]).part_index < (
    #[trigger] all[l]).part_index by {
        assert(stands_before(all[k], all[l]));
    }
}

/// What holds the contents of a body: the request inside it, or the body itself
/// where it has no `request`.
pub open spec fn holder_of(body: JsonView) -> JsonView {
    if body.get("request"@) is Some {
        body.get("request"@)->0
    } else {
        body
    }
}

/// The observations of a body tell of the calls whose ids the plan holds, and of
/// nothing else. A body without a list of contents has none.
pub proof fn law_bodies_are_observed_by_call_id(
    salt: Seq<u8>,
    plan: Map<Seq<char>, EntryView>,
    body: JsonView,
)
    ensures
        match holder_of(body).get("contents"@) {
            Some(JsonView::Array(contents)) => tell_of_the_calls(
                salt,
                plan,
                contents,
                plan_observations(salt, plan, body),
            ),
            _ => plan_observations(salt, plan, body).len() == 0,
        },
{
    if let Some(JsonView::Array(contents)) = holder_of(body).get("contents"@) {
        law_observations_follow_the_body(salt, plan, body, contents);
        lemma_tell_by_keys(salt, plan, contents, plan_observations(salt, plan, body));
    }
}

/// A body is observed under the plan that is registered under its top-level
/// `requestId`, a string that is not empty. Without such a string, or without a
/// plan under it, nothing is observed.
pub proof fn law_plans_are_found_by_request_id(
    salt: Seq<u8>,
    registry: RegistryView,
    body: JsonView,
)
    ensures
        match body.get("requestId"@) {
            Some(JsonView::Text(id)) => {
                &&& request_id_of(body) is Some <==> id.len() > 0
                &&& id.len() > 0 ==> request_id_of(body) == Some(id)
                &&& id.len() > 0 && registry.plans.contains_key(id) ==> body_observations(
                    salt,
                    registry,
                    body,
                ) == plan_observations(salt, registry.plans[id].entries, body)
                &&& id.len() == 0 || !registry.plans.contains_key(id) ==> body_observations(
                    salt,
                    registry,
                    body,
                ).len() == 0
            },
            _ => request_id_of(body) is None && body_observations(salt, registry, body).len() == 0,
        },
{
}

/// There is something to register exactly when diagnostics are enabled, a plan is
/// active that holds an entry, and the body has a top-level `requestId` that is a
/// string and not empty. It is registered with what the plan holds, under the
/// `requestId`.
pub proof fn law_registration(enabled: bool, active: Option<SigPlan>, body: JsonView)
    ensures
        registration(enabled, active, body) is Some <==> {
            &&& enabled
            &&& active is Some
            &&& exists|id: Seq<char>| #[trigger] active->0@.contains_key(id)
            &&& body.get("requestId"@) is Some
            &&& body.get("requestId"@)->0 is Text
            &&& body.get("requestId"@)->0->Text_0.len() > 0
        },
        registration(enabled, active, body) matches Some((key, plan)) ==> {
            &&& body.get("requestId"@) == Some(JsonView::Text(key))
            &&& plan == active->0@
        },
{
    if active is Some {
        let plan = active->0@;
        if !(exists|id: Seq<char>| #[trigger] plan.contains_key(id)) {
            assert(plan =~= Map::<Seq<char>, EntryView>::empty());
        }
    }
}

/// Registering a plan puts it under its key with the current sequence number, leaves
/// every other plan as it is, and moves the sequence on by one; behind the last
/// number the sequence starts again.
pub proof fn law_registering(
    registry: RegistryView,
    key: Seq<char>,
    plan: Map<Seq<char>, EntryView>,
    other: Seq<char>,
)
    requires
        other != key,
    ensures
        ({
            let now = registered(registry, key, plan);
            &&& now.plans.contains_key(key)
            &&& now.plans[key].seq == registry.seq
            &&& now.plans[key].entries == plan
            &&& now.plans.contains_key(other) <==> registry.plans.contains_key(other)
            &&& registry.plans.contains_key(other) ==> now.plans[other] == registry.plans[other]
            &&& registry.seq < u64::MAX ==> now.seq == registry.seq + 1
            &&& registry.seq == u64::MAX ==> now.seq == 0
        }),
{
}

/// One line is written for each observation, in their order.
pub proof fn law_lines_follow_the_observations(
    observations: Seq<ObservationView>,
    trajectory: Seq<char>,
    seq: u64,
    k: int,
)
    requires
        0 <= k < observations.len(),
    ensures
        observation_lines(observations, trajectory, seq).len() == observations.len(),
        observation_lines(observations, trajectory, seq)[k] == observation_line(
            observations[k],
            trajectory,
            seq,
        ),
{
}

/// A text that may be absent, in which case the word for that stands in its place.
pub open spec fn text_or_none(text: Option<Seq<char>>) -> Seq<char> {
    if text is Some {
        text->0
    } else {
        "none"@
    }
}

/// A number that may be absent, in which case the word for that stands in its place.
pub open spec fn number_or_none(n: Option<nat>) -> Seq<char> {
    if n is Some {
        decimal(n->0)
    } else {
        "none"@
    }
}

/// The line of an observation names, in this order, the trajectory, the sequence
/// number, the place of the call, the source of its signature, the hash of its id,
/// the hash of the record, the phase of the restore, the lookup of the session, its
/// message count, the mark of a fallback and the stability action.
pub proof fn law_observation_line(o: ObservationView, trajectory: Seq<char>, seq: u64)
    ensures
        observation_line(o, trajectory, seq) == "[CACHE-SIG-SOURCE] trajectory="@ + trajectory
            + " obs_seq="@ + decimal(seq as nat) + " content_index="@ + decimal(o.content_index)
            + " part_index="@ + decimal(o.part_index) + " sig_source="@ + source_name(
            o.entry.source,
        ) + " tool_id_hash="@ + o.tool_id_hash + " store_record_hash="@ + text_or_none(
            o.entry.store_record_hash,
        ) + " restore_phase="@ + phase_tag(o.entry.restore_phase) + " session_lookup="@
            + o.entry.session_lookup + " session_message_count="@ + number_or_none(
            o.entry.session_message_count,
        ) + " fallback_marked="@ + bool_text(o.entry.fallback_marked) + " v2b_action="@
            + action_name(o.entry.v2b_action),
{
}

/// The sources, the phases and the actions are reported under these names, and a tag
/// that names no phase stands for none.
pub proof fn law_attribution_names(tag: Seq<char>)
    ensures
        source_name(SigSource::PerTurnStore) == "PER_TURN_STORE"@,
        source_name(SigSource::ToolCache) == "TOOL_CACHE"@,
        source_name(SigSource::SessionFallback) == "SESSION_FALLBACK"@,
        source_name(SigSource::TrustedClient) == "TRUSTED_CLIENT"@,
        source_name(SigSource::Sentinel) == "SENTINEL"@,
        source_name(SigSource::NoSource) == "NONE"@,
        phase_tag(RestorePhase::P1ToolId) == "P1_TOOL_ID"@,
        phase_tag(RestorePhase::P2Fingerprint) == "P2_FINGERPRINT"@,
        phase_tag(RestorePhase::P3Text) == "P3_TEXT"@,
        phase_tag(RestorePhase::P4Tail) == "P4_TAIL"@,
        phase_tag(RestorePhase::NoPhase) == "NONE"@,
        action_name(V2bAction::NoAction) == "none"@,
        action_name(V2bAction::StabilizedToSentinel) == "STABILIZED_TO_SENTINEL"@,
        phase_of(tag) == RestorePhase::NoPhase || phase_tag(phase_of(tag)) == tag,
        (forall|phase: RestorePhase| #[trigger] phase_tag(phase) != tag) ==> phase_of(tag)
            == RestorePhase::NoPhase,
{
    assert(phase_tag(phase_of(tag)) == phase_tag(phase_of(tag)));
}

} // verus!
