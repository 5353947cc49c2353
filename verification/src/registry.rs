//! The plans of finished request builds, by request id, and the lines that
//! attribute the signatures of an observed body.

use vstd::prelude::*;
use crate::eviction::oldest;
use crate::hashing::{short_hash, short_hash_of, Salt};
use crate::history::parts_of;
use crate::identity::{inner_of, inner_request, string_views};
use crate::json::{get_from, get_opt, views, Json, JsonView};
use crate::outcome::{count_or_none, or_none, to_count_or_none};
use crate::signature_source::{
    action_name, phase_tag, slot_view, source_name, EntryView, SigPlan, SigSourceEntry,
};
use crate::text::{bool_text, decimal, to_bool_text, to_decimal};
use dashmap::DashMap;
use std::sync::Arc;

verus! {

/// Maximum number of plans retained in the registry. On overflow the plan with
/// the smallest sequence is evicted.
pub const MAX_RETAINED_PLANS: usize = 256;

/// The plans that a map holds, by request id, each with its sequence number.
pub uninterp spec fn held_plans(map: DashMap<String, (u64, Arc<SigPlan>)>) -> Map<
    Seq<char>,
    (u64, Arc<SigPlan>),
>;

/// `DashMap::new` gives a map that holds nothing.
#[verifier::external_body]
fn new_plans() -> (plans: DashMap<String, (u64, Arc<SigPlan>)>)
    ensures
        held_plans(plans).dom() == Set::<Seq<char>>::empty(),
{
    DashMap::new()
}

/// `DashMap::insert` puts `value` under `key`, in place of what was there.
#[verifier::external_body]
fn insert_plan(
    plans: &mut DashMap<String, (u64, Arc<SigPlan>)>,
    key: String,
    value: (u64, Arc<SigPlan>),
)
    ensures
        held_plans(*final(plans)) == held_plans(*old(plans)).insert(key@, value),
{
    plans.insert(key, value);
}

/// `DashMap::remove` takes out what is held under `key`.
#[verifier::external_body]
fn remove_plan(plans: &mut DashMap<String, (u64, Arc<SigPlan>)>, key: &str)
    ensures
        held_plans(*final(plans)) == held_plans(*old(plans)).remove(key@),
{
    plans.remove(key);
}

/// `DashMap::len` counts the entries.
#[verifier::external_body]
fn plan_len(plans: &DashMap<String, (u64, Arc<SigPlan>)>) -> (n: usize)
    ensures
        n == held_plans(*plans).dom().len(),
{
    plans.len()
}

/// `DashMap::get` gives access to what is held under `key`; of it the plan is
/// handed out.
#[verifier::external_body]
fn get_plan(plans: &DashMap<String, (u64, Arc<SigPlan>)>, key: &str) -> (plan: Option<Arc<SigPlan>>)
    ensures
        match plan {
            Some(p) => held_plans(*plans).contains_key(key@) && p == held_plans(*plans)[key@].1,
            None => !held_plans(*plans).contains_key(key@),
        },
{
    plans.get(key).map(|entry| entry.value().1.clone())
}

/// `DashMap::iter` visits every entry once, in no stated order; of each the key
/// and the sequence number are handed out.
#[verifier::external_body]
fn plan_ages(plans: &DashMap<String, (u64, Arc<SigPlan>)>) -> (ages: Vec<(String, u64)>)
    ensures
        forall|i: int|
            0 <= i < ages@.len() ==> {
                let key = (#[trigger] ages@[i]).0@;
                held_plans(*plans).contains_key(key) && held_plans(*plans)[key].0 == ages@[i].1
            },
        forall|key: Seq<char>|
            #[trigger] held_plans(*plans).contains_key(key) ==> exists|i: int|
                0 <= i < ages@.len() && (#[trigger] ages@[i]).0@ == key,
{
    plans.iter().map(|entry| (entry.key().clone(), entry.value().0)).collect()
}

/// The plans of finished request builds.
pub struct Registry {
    plans: DashMap<String, (u64, Arc<SigPlan>)>,
    seq: u64,
}

/// A registered plan with its sequence number.
pub ghost struct RegisteredPlan {
    pub seq: u64,
    pub entries: Map<Seq<char>, EntryView>,
}

/// The content of a [`Registry`].
pub ghost struct RegistryView {
    pub plans: Map<Seq<char>, RegisteredPlan>,
    pub seq: u64,
}

impl View for Registry {
    type V = RegistryView;

    closed spec fn view(&self) -> RegistryView {
        RegistryView {
            plans: held_plans(self.plans).map_values(
                |held: (u64, Arc<SigPlan>)| RegisteredPlan { seq: held.0, entries: held.1@ },
            ),
            seq: self.seq,
        }
    }
}

impl RegistryView {
    /// A registry holds finitely many plans and never more than the maximum.
    pub open spec fn well_formed(self) -> bool {
        self.plans.dom().finite() && self.plans.dom().len() <= MAX_RETAINED_PLANS
    }
}

/// Whether `after` is `before` without its oldest plans: only as many are gone as
/// were above the maximum, and none that is gone is newer than one that stayed.
pub open spec fn plans_evicted(before: RegistryView, after: RegistryView) -> bool {
    &&& after.seq == before.seq
    &&& after.plans.submap_of(before.plans)
    &&& after.plans.dom().len() == (if before.plans.dom().len() > MAX_RETAINED_PLANS {
        MAX_RETAINED_PLANS as nat
    } else {
        before.plans.dom().len()
    })
    &&& forall|gone: Seq<char>, kept: Seq<char>|
        before.plans.contains_key(gone) && !after.plans.contains_key(gone)
            && after.plans.contains_key(kept) ==> (#[trigger] before.plans[gone]).seq <= (
        #[trigger] before.plans[kept]).seq
}

impl Registry {
    /// A registry without plans.
    pub fn new() -> (registry: Registry)
        ensures
            registry@.well_formed(),
            registry@.plans == Map::<Seq<char>, RegisteredPlan>::empty(),
            registry@.seq == 0,
    {
        let registry = Registry { plans: new_plans(), seq: 0 };
        assert(registry@.plans =~= Map::<Seq<char>, RegisteredPlan>::empty());
        registry
    }

    /// The number of registered plans.
    pub fn len(&self) -> (n: usize)
        ensures
            n == self@.plans.dom().len(),
    {
        assert(self@.plans.dom() =~= held_plans(self.plans).dom());
        plan_len(&self.plans)
    }
}

/// Oldest-first eviction until the maximum holds.
fn evict_oldest(registry: &mut Registry)
    requires
        old(registry)@.plans.dom().finite(),
    ensures
        plans_evicted(old(registry)@, final(registry)@),
        final(registry)@.well_formed(),
{
    let ghost before = registry@;
    while registry.len() > MAX_RETAINED_PLANS
        invariant
            before.plans.dom().finite(),
            registry@.plans.dom().finite(),
            registry@.seq == before.seq,
            registry@.plans.submap_of(before.plans),
            registry@.plans.dom().len() >= MAX_RETAINED_PLANS || registry@.plans == before.plans,
            registry@.plans.dom().len() <= before.plans.dom().len(),
            forall|gone: Seq<char>, kept: Seq<char>|
                before.plans.contains_key(gone) && !registry@.plans.contains_key(gone)
                    && registry@.plans.contains_key(kept) ==> (#[trigger] before.plans[gone]).seq
                    <= (#[trigger] before.plans[kept]).seq,
        decreases registry@.plans.dom().len(),
    {
        let ghost now = registry@.plans;
        let ghost held = held_plans(registry.plans);
        let ages = plan_ages(&registry.plans);
        assert(now.dom() =~= held.dom());
        match oldest(&ages) {
            Some(i) => {
                let ghost key = ages@[i as int].0@;
                assert(now.contains_key(key));
                assert forall|other: Seq<char>| now.contains_key(other) implies now[key].seq
                    <= #[trigger] now[other].seq by {
                    assert(held.contains_key(other));
                    let j = choose|j: int|
                        0 <= j < ages@.len() && (#[trigger] ages@[j]).0@ == other;
                    assert(ages@[i as int].1 <= ages@[j].1);
                }
                remove_plan(&mut registry.plans, ages[i].0.as_str());
                assert(registry@.plans =~= now.remove(key));
                assert forall|gone: Seq<char>, kept: Seq<char>|
                    before.plans.contains_key(gone) && !registry@.plans.contains_key(gone)
                        && registry@.plans.contains_key(
                        kept,
                    ) implies (#[trigger] before.plans[gone]).seq <= (
                #[trigger] before.plans[kept]).seq by {
                    assert(now.dom().contains(kept) && before.plans.dom().contains(kept));
                    assert(now[kept] == before.plans[kept]);
                    if gone == key {
                        assert(now.dom().contains(key) && before.plans.dom().contains(key));
                        assert(now[key] == before.plans[key]);
                    } else {
                        assert(!now.contains_key(gone));
                    }
                }
            },
            None => {
                proof {
                    let key = now.dom().choose();
                    assert(held.contains_key(key));
                }
                return;
            },
        }
    }
}

/// The usable top-level `requestId` of a body: a string that is not empty.
pub open spec fn request_id_of(body: JsonView) -> Option<Seq<char>> {
    match body.get("requestId"@) {
        Some(JsonView::Text(s)) => if s.len() > 0 {
            Some(s)
        } else {
            None
        },
        _ => None,
    }
}

/// The usable top-level `requestId` of a body.
fn request_id(body: &Json) -> (id: Option<&str>)
    ensures
        match id {
            Some(s) => request_id_of(body@) == Some(s@),
            None => request_id_of(body@) is None,
        },
{
    match body.get("requestId") {
        Some(value) => match value.as_str() {
            Some(s) => if s.is_empty() {
                None
            } else {
                Some(s)
            },
            None => None,
        },
        None => None,
    }
}

/// The sequence number after `seq`.
pub open spec fn next_seq(seq: u64) -> u64 {
    if seq == u64::MAX {
        0
    } else {
        (seq + 1) as u64
    }
}

/// A registry after a plan has been registered under a request id.
pub open spec fn registered(
    registry: RegistryView,
    key: Seq<char>,
    plan: Map<Seq<char>, EntryView>,
) -> RegistryView {
    RegistryView {
        plans: registry.plans.insert(key, RegisteredPlan { seq: registry.seq, entries: plan }),
        seq: next_seq(registry.seq),
    }
}

/// What there is to register when a request build ends: the request id and the
/// active plan. Nothing when diagnostics are disabled, no plan is active, it has
/// no entries, or the body has no usable request id.
pub open spec fn registration(enabled: bool, active: Option<SigPlan>, body: JsonView) -> Option<
    (Seq<char>, Map<Seq<char>, EntryView>),
> {
    match (slot_view(active), request_id_of(body)) {
        (Some(plan), Some(key)) => if enabled && plan != Map::<Seq<char>, EntryView>::empty() {
            Some((key, plan))
        } else {
            None
        },
        _ => None,
    }
}

/// Take the active plan and register it under the final body's top-level
/// `requestId`. No-op when disabled, when no plan was armed, when there are no
/// entries, or when the body carries no usable requestId.
pub fn finish_plan(
    enabled: bool,
    active: &mut Option<SigPlan>,
    registry: &mut Registry,
    body: &Json,
)
    requires
        old(registry)@.well_formed(),
    ensures
        final(registry)@.well_formed(),
        (match registration(enabled, *old(active), body@) {
            Some((key, plan)) => *final(active) is None && plans_evicted(
                registered(old(registry)@, key, plan),
                final(registry)@,
            ),
            None => *final(active) == *old(active) && final(registry)@ == old(registry)@,
        }),
{
    if !enabled {
        return;
    }
    let key = match request_id(body) {
        Some(key) => key,
        None => {
            return;
        },
    };
    let empty = match active.as_ref() {
        Some(plan) => {
            proof {
                if plan.entries@ == Map::<Seq<char>, SigSourceEntry>::empty() {
                    assert(plan@ =~= Map::<Seq<char>, EntryView>::empty());
                }
                if plan@ == Map::<Seq<char>, EntryView>::empty() {
                    assert(plan.entries@.dom() =~= plan@.dom());
                    assert(plan.entries@ =~= Map::<Seq<char>, SigSourceEntry>::empty());
                }
            }
            plan.entries.is_empty()
        },
        None => true,
    };
    if empty {
        return;
    }
    let plan = match active.take() {
        Some(plan) => plan,
        None => {
            return;
        },
    };
    let ghost before = registry@;
    let ghost content = plan@;
    let seq: u64 = registry.seq;
    registry.seq = seq.wrapping_add(1);
    insert_plan(&mut registry.plans, key.to_string(), (seq, Arc::new(plan)));
    proof {
        let now = registered(before, key@, content);
        assert(registry@.plans =~= now.plans);
        assert(registry@ == now);
    }
    evict_oldest(registry);
}

/// Whether a plan is registered for a body.
pub fn has_plan_for_body(registry: &Registry, body: &Json) -> (r: bool)
    ensures
        r == match request_id_of(body@) {
            Some(key) => registry@.plans.contains_key(key),
            None => false,
        },
{
    match request_id(body) {
        Some(key) => get_plan(&registry.plans, key).is_some(),
        None => false,
    }
}

/// One attributed functionCall in the final serialized layout.
pub struct SigSourceObservation {
    pub content_index: usize,
    pub part_index: usize,
    /// Salted hash of the raw tool id.
    pub tool_id_hash: String,
    pub entry: SigSourceEntry,
}

/// The content of a [`SigSourceObservation`].
pub ghost struct ObservationView {
    pub content_index: nat,
    pub part_index: nat,
    pub tool_id_hash: Seq<char>,
    pub entry: EntryView,
}

impl View for SigSourceObservation {
    type V = ObservationView;

    open spec fn view(&self) -> ObservationView {
        ObservationView {
            content_index: self.content_index as nat,
            part_index: self.part_index as nat,
            tool_id_hash: self.tool_id_hash@,
            entry: self.entry@,
        }
    }
}

/// The contents of the observations of a list.
pub open spec fn observation_views(observations: Seq<SigSourceObservation>) -> Seq<
    ObservationView,
> {
    Seq::new(observations.len(), |i: int| observations[i]@)
}

/// The id of a part's function call.
pub open spec fn tool_id_of(part: JsonView) -> Option<Seq<char>> {
    match get_opt(part.get("functionCall"@), "id"@) {
        Some(JsonView::Text(id)) => Some(id),
        _ => None,
    }
}

/// The observations of the first `n` parts of content `ci`.
pub open spec fn part_observations(
    salt: Seq<u8>,
    plan: Map<Seq<char>, EntryView>,
    parts: Seq<JsonView>,
    ci: nat,
    n: int,
) -> Seq<ObservationView>
    decreases n,
{
    if n <= 0 || n > parts.len() {
        Seq::empty()
    } else {
        let before = part_observations(salt, plan, parts, ci, n - 1);
        match tool_id_of(parts[n - 1]) {
            Some(id) => if plan.contains_key(id) {
                before.push(
                    ObservationView {
                        content_index: ci,
                        part_index: (n - 1) as nat,
                        tool_id_hash: short_hash_of(salt, "toolid|"@ + id),
                        entry: plan[id],
                    },
                )
            } else {
                before
            },
            None => before,
        }
    }
}

/// The observations of the first `n` contents.
pub open spec fn content_observations(
    salt: Seq<u8>,
    plan: Map<Seq<char>, EntryView>,
    contents: Seq<JsonView>,
    n: int,
) -> Seq<ObservationView>
    decreases n,
{
    if n <= 0 || n > contents.len() {
        Seq::empty()
    } else {
        let before = content_observations(salt, plan, contents, n - 1);
        match parts_of(contents[n - 1]) {
            Some(parts) => before + part_observations(
                salt,
                plan,
                parts,
                (n - 1) as nat,
                parts.len() as int,
            ),
            None => before,
        }
    }
}

/// The observations of a body under a plan.
pub open spec fn plan_observations(
    salt: Seq<u8>,
    plan: Map<Seq<char>, EntryView>,
    body: JsonView,
) -> Seq<ObservationView> {
    match inner_of(body).get("contents"@) {
        Some(JsonView::Array(contents)) => content_observations(
            salt,
            plan,
            contents,
            contents.len() as int,
        ),
        _ => Seq::empty(),
    }
}

/// The observations of a body under the plan that is registered for it.
pub open spec fn body_observations(
    salt: Seq<u8>,
    registry: RegistryView,
    body: JsonView,
) -> Seq<ObservationView> {
    match request_id_of(body) {
        Some(key) => if registry.plans.contains_key(key) {
            plan_observations(salt, registry.plans[key].entries, body)
        } else {
            Seq::empty()
        },
        None => Seq::empty(),
    }
}

/// Appends the observations of the parts of content `ci`.
fn push_observations(
    salt: &Salt,
    plan: &SigPlan,
    parts: &Vec<Json>,
    ci: usize,
    out: &mut Vec<SigSourceObservation>,
)
    ensures
        observation_views(final(out)@) == observation_views(old(out)@) + part_observations(
            salt@,
            plan@,
            views(parts@),
            ci as nat,
            parts@.len() as int,
        ),
{
    let ghost before = observation_views(out@);
    let ghost all = views(parts@);
    let mut pi: usize = 0;
    assert(before + part_observations(salt@, plan@, all, ci as nat, 0) =~= before);
    while pi < parts.len()
        invariant
            pi <= parts@.len(),
            all == views(parts@),
            observation_views(out@) == before + part_observations(
                salt@,
                plan@,
                all,
                ci as nat,
                pi as int,
            ),
        decreases parts@.len() - pi,
    {
        assert(all[pi as int] == parts@[pi as int]@);
        let ghost now = out@;
        let id = match get_from(parts[pi].get("functionCall"), "id") {
            Some(value) => value.as_str(),
            None => None,
        };
        if let Some(id) = id {
            if let Some(entry) = plan.entries.get(id) {
                let mut text = "toolid|".to_string();
                text.append(id);
                let observation = SigSourceObservation {
                    content_index: ci,
                    part_index: pi,
                    tool_id_hash: short_hash(salt, text.as_str()),
                    entry: entry.copied(),
                };
                out.push(observation);
                assert(observation_views(out@) =~= observation_views(now).push(observation@));
            }
        }
        pi += 1;
        assert(observation_views(out@) =~= before + part_observations(
            salt@,
            plan@,
            all,
            ci as nat,
            pi as int,
        ));
    }
}

/// Registry lookup by the body's `requestId` plus a scan of the final body
/// layout. Indices are the serialized final indices.
pub fn observations_for_body(salt: &Salt, registry: &Registry, body: &Json) -> (out: Vec<
    SigSourceObservation,
>)
    ensures
        observation_views(out@) == body_observations(salt@, registry@, body@),
{
    let mut out: Vec<SigSourceObservation> = Vec::new();
    assert(observation_views(out@) =~= Seq::<ObservationView>::empty());
    let key = match request_id(body) {
        Some(key) => key,
        None => {
            return out;
        },
    };
    let plan = match get_plan(&registry.plans, key) {
        Some(plan) => plan,
        None => {
            return out;
        },
    };
    assert(registry@.plans[key@].entries == plan@);
    if let Some(value) = inner_request(body).get("contents") {
        if let Some(contents) = value.as_array() {
            let ghost all = views(contents@);
            let mut ci: usize = 0;
            while ci < contents.len()
                invariant
                    ci <= contents@.len(),
                    all == views(contents@),
                    observation_views(out@) == content_observations(
                        salt@,
                        plan@,
                        all,
                        ci as int,
                    ),
                decreases contents@.len() - ci,
            {
                assert(all[ci as int] == contents@[ci as int]@);
                if let Some(parts) = contents[ci].get("parts") {
                    if let Some(parts) = parts.as_array() {
                        push_observations(salt, &plan, parts, ci, &mut out);
                    }
                }
                ci += 1;
            }
        }
    }
    out
}

/// The line that reports an observation.
pub open spec fn observation_line(
    observation: ObservationView,
    trajectory: Seq<char>,
    seq: u64,
) -> Seq<char> {
    "[CACHE-SIG-SOURCE] trajectory="@ + trajectory + " obs_seq="@ + decimal(seq as nat)
        + " content_index="@ + decimal(observation.content_index) + " part_index="@
        + decimal(observation.part_index) + " sig_source="@ + source_name(observation.entry.source)
        + " tool_id_hash="@ + observation.tool_id_hash + " store_record_hash="@
        + or_none(observation.entry.store_record_hash) + " restore_phase="@
        + phase_tag(observation.entry.restore_phase) + " session_lookup="@
        + observation.entry.session_lookup + " session_message_count="@
        + count_or_none(observation.entry.session_message_count) + " fallback_marked="@
        + bool_text(observation.entry.fallback_marked) + " v2b_action="@
        + action_name(observation.entry.v2b_action)
}

/// Exact emitted line format. Only salted hashes / enums / counts appear.
pub fn format_line(obs: &SigSourceObservation, trajectory: &str, seq: u64) -> (line: String)
    ensures
        line@ == observation_line(obs@, trajectory@, seq),
{
    let mut line = "[CACHE-SIG-SOURCE] trajectory=".to_string();
    line.append(trajectory);
    line.append(" obs_seq=");
    line.append(to_decimal(seq).as_str());
    line.append(" content_index=");
    line.append(to_decimal(obs.content_index as u64).as_str());
    line.append(" part_index=");
    line.append(to_decimal(obs.part_index as u64).as_str());
    line.append(" sig_source=");
    line.append(obs.entry.source.as_str());
    line.append(" tool_id_hash=");
    line.append(obs.tool_id_hash.as_str());
    line.append(" store_record_hash=");
    match &obs.entry.store_record_hash {
        Some(hash) => line.append(hash.as_str()),
        None => line.append("none"),
    }
    line.append(" restore_phase=");
    line.append(obs.entry.restore_phase.as_str());
    line.append(" session_lookup=");
    line.append(obs.entry.session_lookup);
    line.append(" session_message_count=");
    line.append(to_count_or_none(obs.entry.session_message_count).as_str());
    line.append(" fallback_marked=");
    line.append(to_bool_text(obs.entry.fallback_marked));
    line.append(" v2b_action=");
    line.append(obs.entry.v2b_action.as_str());
    line
}

/// The lines that report observations, one each.
pub open spec fn observation_lines(
    observations: Seq<ObservationView>,
    trajectory: Seq<char>,
    seq: u64,
) -> Seq<Seq<char>> {
    Seq::new(observations.len(), |i: int| observation_line(observations[i], trajectory, seq))
}

/// One line per attributed functionCall of a body, for the log. None when
/// diagnostics are disabled.
pub fn emit_for_body(
    enabled: bool,
    salt: &Salt,
    registry: &Registry,
    body: &Json,
    trajectory: &str,
    seq: u64,
) -> (lines: Vec<String>)
    ensures
        string_views(lines@) == (if enabled {
            observation_lines(body_observations(salt@, registry@, body@), trajectory@, seq)
        } else {
            Seq::empty()
        }),
{
    let mut lines: Vec<String> = Vec::new();
    if !enabled {
        assert(string_views(lines@) =~= Seq::<Seq<char>>::empty());
        return lines;
    }
    let observations = observations_for_body(salt, registry, body);
    let ghost all = observation_views(observations@);
    let mut i: usize = 0;
    while i < observations.len()
        invariant
            i <= observations@.len(),
            all == observation_views(observations@),
            lines@.len() == i,
            forall|k: int|
                0 <= k < i ==> (#[trigger] lines@[k])@ == observation_line(
                    all[k],
                    trajectory@,
                    seq,
                ),
        decreases observations@.len() - i,
    {
        assert(all[i as int] == observations@[i as int]@);
        lines.push(format_line(&observations[i], trajectory, seq));
        i += 1;
    }
    assert(string_views(lines@) =~= observation_lines(all, trajectory@, seq));
    lines
}

} // verus!
