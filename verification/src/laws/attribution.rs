//! Which attribution of a signature wins, and where it can be read back.

use vstd::prelude::*;
use crate::hashing::short_hash_of;
use crate::history::parts_of;
use crate::identity::{inner_of, trajectory_of, FingerprintView};
use crate::json::JsonView;
use crate::observe::observed;
use crate::outcome::RequestView;
use crate::registry::{
    body_observations, content_observations, observation_lines, part_observations,
    plan_observations, plans_evicted, registered, request_id_of, tool_id_of, ObservationView,
    RegistryView, MAX_RETAINED_PLANS,
};
use crate::scan::part_at;
use crate::signature_source::{
    after_action, after_builder, after_restore, builder_entry, has_builder, restore_entry, EntryView,
    RestorePhase, SigSource, V2bAction,
};
use crate::store::StoreView;

verus! {

/// A restore wins over whatever the builder recorded before it.
pub proof fn law_restore_wins_over_an_earlier_builder(
    plan: Map<Seq<char>, EntryView>,
    tool_id: Seq<char>,
    source: SigSource,
    builder_marked: bool,
    phase: RestorePhase,
    rec_hash: Seq<char>,
    marked: bool,
)
    requires
        tool_id.len() > 0,
    ensures
        ({
            let built = after_builder(plan, tool_id, source, builder_marked);
            let restored = after_restore(built, tool_id, phase, rec_hash, marked);
            &&& restored.contains_key(tool_id)
            &&& restored[tool_id] == restore_entry(phase, rec_hash, marked)
            &&& restored[tool_id].source == SigSource::PerTurnStore
        }),
{
}

/// A builder record never clobbers a restore.
pub proof fn law_restore_wins_over_a_later_builder(
    plan: Map<Seq<char>, EntryView>,
    tool_id: Seq<char>,
    phase: RestorePhase,
    rec_hash: Seq<char>,
    marked: bool,
    source: SigSource,
    builder_marked: bool,
)
    ensures
        ({
            let restored = after_restore(plan, tool_id, phase, rec_hash, marked);
            after_builder(restored, tool_id, source, builder_marked) == restored
        }),
{
}

/// Of two builder records the later one wins, unless it would clobber a restore.
pub proof fn law_last_builder_wins(
    plan: Map<Seq<char>, EntryView>,
    tool_id: Seq<char>,
    first: SigSource,
    first_marked: bool,
    last: SigSource,
    last_marked: bool,
)
    requires
        tool_id.len() > 0,
        first != SigSource::PerTurnStore,
        !(plan.contains_key(tool_id) && plan[tool_id].source == SigSource::PerTurnStore),
    ensures
        ({
            let once = after_builder(plan, tool_id, first, first_marked);
            let twice = after_builder(once, tool_id, last, last_marked);
            twice[tool_id] == builder_entry(last, last_marked)
        }),
{
}

/// A stability action changes nothing but the action of a builder attribution; on
/// a tool id without one, restored or unknown, it changes nothing at all.
pub proof fn law_action_keeps_the_attribution(
    plan: Map<Seq<char>, EntryView>,
    tool_id: Seq<char>,
    action: V2bAction,
)
    ensures
        ({
            let noted = after_action(plan, tool_id, action);
            &&& noted.dom() == plan.dom()
            &&& has_builder(plan, tool_id) && tool_id.len() > 0 ==> noted[tool_id] == (EntryView {
                v2b_action: action,
                ..plan[tool_id]
            })
            &&& !has_builder(plan, tool_id) ==> noted == plan
        }),
{
    let noted = after_action(plan, tool_id, action);
    assert(noted.dom() =~= plan.dom());
}

/// A restore leaves no builder attribution behind, whatever was recorded before;
/// a builder record leaves one, unless it would clobber a per-turn store record.
pub proof fn law_restore_entries_take_no_action(
    plan: Map<Seq<char>, EntryView>,
    tool_id: Seq<char>,
    phase: RestorePhase,
    rec_hash: Seq<char>,
    marked: bool,
    source: SigSource,
    action: V2bAction,
)
    requires
        tool_id.len() > 0,
    ensures
        ({
            let restored = after_restore(plan, tool_id, phase, rec_hash, marked);
            after_action(restored, tool_id, action) == restored
        }),
        !plan.contains_key(tool_id) ==> has_builder(
            after_builder(plan, tool_id, source, marked),
            tool_id,
        ),
{
}

/// Attributions of one tool id leave those of every other as they are; one
/// without a tool id leaves all of them.
pub proof fn law_other_tools_are_untouched(
    plan: Map<Seq<char>, EntryView>,
    tool_id: Seq<char>,
    other: Seq<char>,
    source: SigSource,
    phase: RestorePhase,
    rec_hash: Seq<char>,
    marked: bool,
    action: V2bAction,
)
    requires
        other != tool_id || tool_id.len() == 0,
    ensures
        ({
            let built = after_builder(plan, tool_id, source, marked);
            let restored = after_restore(plan, tool_id, phase, rec_hash, marked);
            let noted = after_action(plan, tool_id, action);
            &&& built.contains_key(other) == plan.contains_key(other)
            &&& restored.contains_key(other) == plan.contains_key(other)
            &&& noted.contains_key(other) == plan.contains_key(other)
            &&& plan.contains_key(other) ==> built[other] == plan[other]
            &&& plan.contains_key(other) ==> restored[other] == plan[other]
            &&& plan.contains_key(other) ==> noted[other] == plan[other]
        }),
{
}

/// Whether the sequence numbers of the plans tell the order of registration:
/// each was assigned before the next one to come, and none was assigned twice.
pub open spec fn in_registration_order(registry: RegistryView) -> bool {
    &&& forall|key: Seq<char>|
        registry.plans.contains_key(key) ==> (#[trigger] registry.plans[key]).seq < registry.seq
    &&& distinct_plan_seqs(registry)
}

/// Whether no two plans have the same sequence number.
pub open spec fn distinct_plan_seqs(registry: RegistryView) -> bool {
    forall|a: Seq<char>, b: Seq<char>|
        registry.plans.contains_key(a) && registry.plans.contains_key(b) && a != b ==> (
        #[trigger] registry.plans[a]).seq != (#[trigger] registry.plans[b]).seq
}

/// The order of registration is kept until the last number has been assigned.
pub proof fn law_registration_order_is_kept(
    before: RegistryView,
    key: Seq<char>,
    plan: Map<Seq<char>, EntryView>,
    after: RegistryView,
)
    requires
        in_registration_order(before),
        before.seq < u64::MAX,
        plans_evicted(registered(before, key, plan), after),
    ensures
        after.seq == before.seq + 1,
        in_registration_order(after),
{
    let now = registered(before, key, plan);
    assert forall|other: Seq<char>| after.plans.contains_key(other) implies {
        &&& now.plans.contains_key(other)
        &&& #[trigger] after.plans[other] == now.plans[other]
        &&& now.plans[other].seq < after.seq
        &&& other != key ==> before.plans.contains_key(other) && now.plans[other].seq < before.seq
    } by {
        assert(after.plans.dom().contains(other) && now.plans.dom().contains(other));
        if other != key {
            assert(before.plans.contains_key(other));
        }
    }
    assert forall|a: Seq<char>, b: Seq<char>|
        after.plans.contains_key(a) && after.plans.contains_key(b) && a != b implies (
    #[trigger] after.plans[a]).seq != (#[trigger] after.plans[b]).seq by {
        assert(after.plans[a] == now.plans[a]);
        assert(after.plans[b] == now.plans[b]);
        if a != key && b != key {
            assert(before.plans[a].seq != before.plans[b].seq);
        }
    }
}

/// Of two results of an eviction of plans the one holds what the other holds.
proof fn lemma_same_plans_are_kept(before: RegistryView, a: RegistryView, b: RegistryView)
    requires
        before.plans.dom().finite(),
        distinct_plan_seqs(before),
        plans_evicted(before, a),
        plans_evicted(before, b),
    ensures
        b.plans.submap_of(a.plans),
{
    assert forall|key: Seq<char>| #[trigger] b.plans.dom().contains(key) implies a.plans.dom().contains(
        key,
    ) && a.plans[key] == b.plans[key] by {
        assert(b.plans.dom().contains(key) && before.plans.dom().contains(key));
        if !a.plans.contains_key(key) {
            assert(b.plans.dom().subset_of(before.plans.dom()));
            vstd::set_lib::lemma_len_subset(b.plans.dom(), before.plans.dom());
            if forall|other: Seq<char>|
                a.plans.dom().contains(other) ==> #[trigger] b.plans.dom().contains(other) {
                assert(a.plans.dom().subset_of(b.plans.dom().remove(key)));
                vstd::set_lib::lemma_len_subset(a.plans.dom(), b.plans.dom().remove(key));
            } else {
                let other = choose|other: Seq<char>|
                    a.plans.dom().contains(other) && !(#[trigger] b.plans.dom().contains(other));
                assert(a.plans.dom().contains(other) && before.plans.dom().contains(other));
                assert(before.plans[key].seq <= before.plans[other].seq);
                assert(before.plans[other].seq <= before.plans[key].seq);
            }
        }
        assert(a.plans.dom().contains(key) && before.plans.dom().contains(key));
    }
}

/// Which plans an eviction leaves is determined: the newest ones.
pub proof fn law_plan_eviction_is_determined(before: RegistryView, a: RegistryView, b: RegistryView)
    requires
        before.plans.dom().finite(),
        distinct_plan_seqs(before),
        plans_evicted(before, a),
        plans_evicted(before, b),
    ensures
        a == b,
{
    lemma_same_plans_are_kept(before, a, b);
    lemma_same_plans_are_kept(before, b, a);
    assert(a.plans =~= b.plans);
}

/// A plan that was just registered is there: eviction takes the oldest first.
pub proof fn law_newest_plan_stays(
    before: RegistryView,
    key: Seq<char>,
    plan: Map<Seq<char>, EntryView>,
    after: RegistryView,
)
    requires
        before.plans.dom().finite(),
        in_registration_order(before),
        plans_evicted(registered(before, key, plan), after),
    ensures
        after.plans.contains_key(key),
        after.plans[key].entries == plan,
{
    let now = registered(before, key, plan);
    if !after.plans.contains_key(key) {
        assert(now.plans.contains_key(key));
        assert forall|kept: Seq<char>| !after.plans.dom().contains(kept) by {
            if after.plans.dom().contains(kept) {
                assert(now.plans.dom().contains(kept));
                assert(now.plans[key].seq <= now.plans[kept].seq);
                assert(before.plans.contains_key(kept));
            }
        }
        assert(after.plans.dom() =~= Set::<Seq<char>>::empty());
        assert(now.plans.dom() =~= before.plans.dom().insert(key));
        assert(now.plans.dom().len() > 0);
    }
    assert(after.plans.dom().contains(key) && now.plans.dom().contains(key));
}

/// What is observed of a body is read from the plan that was registered under
/// its request id.
pub proof fn law_registered_plan_is_read_back(
    salt: Seq<u8>,
    before: RegistryView,
    body: JsonView,
    key: Seq<char>,
    plan: Map<Seq<char>, EntryView>,
    after: RegistryView,
)
    requires
        before.plans.dom().finite(),
        in_registration_order(before),
        request_id_of(body) == Some(key),
        plans_evicted(registered(before, key, plan), after),
    ensures
        body_observations(salt, after, body) == plan_observations(salt, plan, body),
{
    law_newest_plan_stays(before, key, plan, after);
}

/// The outcome of an observation carries the trajectory and the sequence number
/// with which the lines that attribute its signatures are written.
pub proof fn law_outcome_is_joined_to_its_lines(
    salt: Seq<u8>,
    store: StoreView,
    request: RequestView,
    fingerprint: FingerprintView,
)
    ensures
        observed(salt, store, request, fingerprint).trajectory_key == trajectory_of(
            salt,
            request.body,
            fingerprint,
        ).id,
        observed(salt, store, request, fingerprint).observation_seq == store.seq,
{
}

/// One line is written for each attributed function call, and none for a body
/// without a registered plan.
pub proof fn law_one_line_per_observation(
    salt: Seq<u8>,
    registry: RegistryView,
    body: JsonView,
    trajectory: Seq<char>,
    seq: u64,
)
    ensures
        observation_lines(body_observations(salt, registry, body), trajectory, seq).len()
            == body_observations(salt, registry, body).len(),
        (match request_id_of(body) {
            Some(key) => !registry.plans.contains_key(key),
            None => true,
        }) ==> observation_lines(
            body_observations(salt, registry, body),
            trajectory,
            seq,
        ).len() == 0,
{
}

/// Whether the part at a place makes a function call that the plan attributes.
pub open spec fn attributed_at(
    plan: Map<Seq<char>, EntryView>,
    contents: Seq<JsonView>,
    i: int,
    j: int,
) -> bool {
    &&& 0 <= i < contents.len()
    &&& parts_of(contents[i]) is Some
    &&& 0 <= j < parts_of(contents[i])->0.len()
    &&& tool_id_of(part_at(contents, i, j)) is Some
    &&& plan.contains_key(tool_id_of(part_at(contents, i, j))->0)
}

/// Whether an observation tells what the plan says of the call at its place.
pub open spec fn tells(
    salt: Seq<u8>,
    plan: Map<Seq<char>, EntryView>,
    contents: Seq<JsonView>,
    observation: ObservationView,
) -> bool {
    let i = observation.content_index as int;
    let j = observation.part_index as int;
    let id = tool_id_of(part_at(contents, i, j))->0;
    &&& attributed_at(plan, contents, i, j)
    &&& observation.tool_id_hash == short_hash_of(salt, "toolid|"@ + id)
    &&& observation.entry == plan[id]
}

/// Whether an observation stands at an earlier place than another.
pub open spec fn stands_before(a: ObservationView, b: ObservationView) -> bool {
    a.content_index < b.content_index || (a.content_index == b.content_index && a.part_index
        < b.part_index)
}

/// Whether some observation stands at a place.
pub open spec fn observed_at(observations: Seq<ObservationView>, i: int, j: int) -> bool {
    exists|k: int|
        0 <= k < observations.len() && (#[trigger] observations[k]).content_index == i
            && observations[k].part_index == j
}

/// Observations further on in a list keep their places.
proof fn lemma_still_observed(
    before: Seq<ObservationView>,
    more: Seq<ObservationView>,
    i: int,
    j: int,
)
    requires
        observed_at(before, i, j) || observed_at(more, i, j),
    ensures
        observed_at(before + more, i, j),
{
    let all = before + more;
    if observed_at(before, i, j) {
        let k = choose|k: int|
            0 <= k < before.len() && (#[trigger] before[k]).content_index == i
                && before[k].part_index == j;
        assert(all[k] == before[k]);
    } else {
        let k = choose|k: int|
            0 <= k < more.len() && (#[trigger] more[k]).content_index == i && more[k].part_index
                == j;
        assert(all[before.len() + k] == more[k]);
    }
}

/// The observations of the first parts of one content.
pub proof fn lemma_part_observations(
    salt: Seq<u8>,
    plan: Map<Seq<char>, EntryView>,
    contents: Seq<JsonView>,
    i: int,
    n: int,
)
    requires
        0 <= i < contents.len(),
        parts_of(contents[i]) is Some,
        0 <= n <= parts_of(contents[i])->0.len(),
    ensures
        ({
            let all = part_observations(salt, plan, parts_of(contents[i])->0, i as nat, n);
            &&& forall|k: int|
                0 <= k < all.len() ==> {
                    &&& tells(salt, plan, contents, #[trigger] all[k])
                    &&& all[k].content_index == i
                    &&& all[k].part_index < n
                }
            &&& forall|k: int, l: int|
                0 <= k < l < all.len() ==> stands_before(#[trigger] all[k], #[trigger] all[l])
            &&& forall|j: int|
                j < n && #[trigger] attributed_at(plan, contents, i, j) ==> observed_at(all, i, j)
        }),
    decreases n,
{
    let parts = parts_of(contents[i])->0;
    let all = part_observations(salt, plan, parts, i as nat, n);
    if n > 0 {
        let before = part_observations(salt, plan, parts, i as nat, n - 1);
        lemma_part_observations(salt, plan, contents, i, n - 1);
        let at = part_at(contents, i, n - 1);
        assert(at == parts[n - 1]);
        if attributed_at(plan, contents, i, n - 1) {
            let last = all.last();
            assert(all == before.push(last));
            assert(tells(salt, plan, contents, last));
            assert forall|j: int| j < n && #[trigger] attributed_at(
                plan,
                contents,
                i,
                j,
            ) implies observed_at(all, i, j) by {
                assert(all =~= before + seq![last]);
                if j == n - 1 {
                    assert(seq![last][0].part_index == j);
                    assert(observed_at(seq![last], i, j));
                }
                lemma_still_observed(before, seq![last], i, j);
            }
        } else {
            assert(all == before);
        }
    }
}

/// The observations of the first contents.
proof fn lemma_content_observations(
    salt: Seq<u8>,
    plan: Map<Seq<char>, EntryView>,
    contents: Seq<JsonView>,
    n: int,
)
    requires
        0 <= n <= contents.len(),
    ensures
        ({
            let all = content_observations(salt, plan, contents, n);
            &&& forall|k: int|
                0 <= k < all.len() ==> tells(salt, plan, contents, #[trigger] all[k])
                    && all[k].content_index < n
            &&& forall|k: int, l: int|
                0 <= k < l < all.len() ==> stands_before(#[trigger] all[k], #[trigger] all[l])
            &&& forall|i: int, j: int|
                i < n && #[trigger] attributed_at(plan, contents, i, j) ==> observed_at(all, i, j)
        }),
    decreases n,
{
    let all = content_observations(salt, plan, contents, n);
    if n > 0 {
        let before = content_observations(salt, plan, contents, n - 1);
        lemma_content_observations(salt, plan, contents, n - 1);
        if parts_of(contents[n - 1]) is Some {
            let parts = parts_of(contents[n - 1])->0;
            let more = part_observations(salt, plan, parts, (n - 1) as nat, parts.len() as int);
            lemma_part_observations(salt, plan, contents, n - 1, parts.len() as int);
            assert(all == before + more);
            assert forall|k: int| 0 <= k < all.len() implies tells(
                salt,
                plan,
                contents,
                #[trigger] all[k],
            ) && all[k].content_index < n by {
                if k < before.len() {
                    assert(all[k] == before[k]);
                } else {
                    assert(all[k] == more[k - before.len()]);
                }
            }
            assert forall|k: int, l: int| 0 <= k < l < all.len() implies stands_before(
                #[trigger] all[k],
                #[trigger] all[l],
            ) by {
                if l < before.len() {
                    assert(all[k] == before[k] && all[l] == before[l]);
                } else if k >= before.len() {
                    assert(all[k] == more[k - before.len()]);
                    assert(all[l] == more[l - before.len()]);
                } else {
                    assert(all[k] == before[k]);
                    assert(all[l] == more[l - before.len()]);
                }
            }
            assert forall|i: int, j: int| i < n && #[trigger] attributed_at(
                plan,
                contents,
                i,
                j,
            ) implies observed_at(all, i, j) by {
                lemma_still_observed(before, more, i, j);
            }
        }
    }
}

/// The observations of a body are those of the function calls that its plan
/// attributes: each stands at the place of such a call and tells what the plan
/// says of it, each such call is observed, and they come in the order of their
/// places.
pub proof fn law_observations_follow_the_body(
    salt: Seq<u8>,
    plan: Map<Seq<char>, EntryView>,
    body: JsonView,
    contents: Seq<JsonView>,
)
    requires
        inner_of(body).get("contents"@) == Some(JsonView::Array(contents)),
    ensures
        ({
            let all = plan_observations(salt, plan, body);
            &&& forall|k: int|
                0 <= k < all.len() ==> tells(salt, plan, contents, #[trigger] all[k])
            &&& forall|k: int, l: int|
                0 <= k < l < all.len() ==> stands_before(#[trigger] all[k], #[trigger] all[l])
            &&& forall|i: int, j: int|
                #[trigger] attributed_at(plan, contents, i, j) ==> observed_at(all, i, j)
        }),
{
    lemma_content_observations(salt, plan, contents, contents.len() as int);
}

/// A registry never holds more plans than the maximum.
pub proof fn law_plans_are_bounded(
    before: RegistryView,
    key: Seq<char>,
    plan: Map<Seq<char>, EntryView>,
    after: RegistryView,
)
    requires
        plans_evicted(registered(before, key, plan), after),
    ensures
        after.plans.dom().len() <= MAX_RETAINED_PLANS,
{
}

} // verus!
