//! Attribution of the final effective signature source of each `functionCall`
//! in a serialized upstream request.
//!
//! During the request build a [`SigPlan`] accumulates builder attributions keyed
//! by raw tool id (the raw id is never logged). Last writer wins: the builder
//! records first; a restore overwrites the entry to `PER_TURN_STORE` when it
//! stamps a real signature.

use vstd::prelude::*;
use vstd::hash_map::StringHashMap;
use crate::divergence::opt_chars;
use crate::hashing::{short_hash, short_hash_of, Salt};
use crate::outcome::{copy_opt_string, opt_nat};
use crate::text::str_eq;

verus! {

/// Where the signature that ended up on the wire came from.
#[derive(Clone, Copy, PartialEq, Eq, Structural, Debug)]
pub enum SigSource {
    PerTurnStore,
    ToolCache,
    SessionFallback,
    TrustedClient,
    Sentinel,
    NoSource,
}

/// The name of a source.
pub open spec fn source_name(source: SigSource) -> Seq<char> {
    match source {
        SigSource::PerTurnStore => "PER_TURN_STORE"@,
        SigSource::ToolCache => "TOOL_CACHE"@,
        SigSource::SessionFallback => "SESSION_FALLBACK"@,
        SigSource::TrustedClient => "TRUSTED_CLIENT"@,
        SigSource::Sentinel => "SENTINEL"@,
        SigSource::NoSource => "NONE"@,
    }
}

impl SigSource {
    /// The name of the source.
    pub fn as_str(self) -> (name: &'static str)
        ensures
            name@ == source_name(self),
    {
        match self {
            SigSource::PerTurnStore => "PER_TURN_STORE",
            SigSource::ToolCache => "TOOL_CACHE",
            SigSource::SessionFallback => "SESSION_FALLBACK",
            SigSource::TrustedClient => "TRUSTED_CLIENT",
            SigSource::Sentinel => "SENTINEL",
            SigSource::NoSource => "NONE",
        }
    }
}

/// Which restore phase matched the record, if any.
#[derive(Clone, Copy, PartialEq, Eq, Structural, Debug)]
pub enum RestorePhase {
    P1ToolId,
    P2Fingerprint,
    P3Text,
    P4Tail,
    NoPhase,
}

/// The tag of a restore phase.
pub open spec fn phase_tag(phase: RestorePhase) -> Seq<char> {
    match phase {
        RestorePhase::P1ToolId => "P1_TOOL_ID"@,
        RestorePhase::P2Fingerprint => "P2_FINGERPRINT"@,
        RestorePhase::P3Text => "P3_TEXT"@,
        RestorePhase::P4Tail => "P4_TAIL"@,
        RestorePhase::NoPhase => "NONE"@,
    }
}

/// The phase that a tag stands for; no phase where the tag is not known.
pub open spec fn phase_of(tag: Seq<char>) -> RestorePhase {
    if tag == phase_tag(RestorePhase::P1ToolId) {
        RestorePhase::P1ToolId
    } else if tag == phase_tag(RestorePhase::P2Fingerprint) {
        RestorePhase::P2Fingerprint
    } else if tag == phase_tag(RestorePhase::P3Text) {
        RestorePhase::P3Text
    } else if tag == phase_tag(RestorePhase::P4Tail) {
        RestorePhase::P4Tail
    } else {
        RestorePhase::NoPhase
    }
}

impl RestorePhase {
    /// The tag of the phase.
    pub fn as_str(self) -> (tag: &'static str)
        ensures
            tag@ == phase_tag(self),
    {
        match self {
            RestorePhase::P1ToolId => "P1_TOOL_ID",
            RestorePhase::P2Fingerprint => "P2_FINGERPRINT",
            RestorePhase::P3Text => "P3_TEXT",
            RestorePhase::P4Tail => "P4_TAIL",
            RestorePhase::NoPhase => "NONE",
        }
    }

    /// The phase that a tag stands for.
    pub fn from_tag(tag: &str) -> (phase: Self)
        ensures
            phase == phase_of(tag@),
    {
        if str_eq(tag, "P1_TOOL_ID") {
            RestorePhase::P1ToolId
        } else if str_eq(tag, "P2_FINGERPRINT") {
            RestorePhase::P2Fingerprint
        } else if str_eq(tag, "P3_TEXT") {
            RestorePhase::P3Text
        } else if str_eq(tag, "P4_TAIL") {
            RestorePhase::P4Tail
        } else {
            RestorePhase::NoPhase
        }
    }
}

/// The tag of every phase leads back to the phase.
pub proof fn law_phase_tags_round_trip(phase: RestorePhase)
    ensures
        phase_of(phase_tag(phase)) == phase,
{
    reveal_strlit("P1_TOOL_ID");
    reveal_strlit("P2_FINGERPRINT");
    reveal_strlit("P3_TEXT");
    reveal_strlit("P4_TAIL");
    reveal_strlit("NONE");
    assert("P1_TOOL_ID"@.len() == 10);
    assert("P2_FINGERPRINT"@.len() == 14);
    assert("P3_TEXT"@[1] == '3');
    assert("P4_TAIL"@[1] == '4');
    assert("NONE"@.len() == 4);
}

/// Action taken by the historical session-fallback stability policy.
#[derive(Clone, Copy, PartialEq, Eq, Structural, Debug)]
pub enum V2bAction {
    NoAction,
    StabilizedToSentinel,
}

/// The name of an action.
pub open spec fn action_name(action: V2bAction) -> Seq<char> {
    match action {
        V2bAction::NoAction => "none"@,
        V2bAction::StabilizedToSentinel => "STABILIZED_TO_SENTINEL"@,
    }
}

impl V2bAction {
    /// The name of the action.
    pub fn as_str(self) -> (name: &'static str)
        ensures
            name@ == action_name(self),
    {
        match self {
            V2bAction::NoAction => "none",
            V2bAction::StabilizedToSentinel => "STABILIZED_TO_SENTINEL",
        }
    }
}

/// Per-functionCall attribution. Contains no raw request content.
#[derive(Debug)]
pub struct SigSourceEntry {
    pub source: SigSource,
    pub restore_phase: RestorePhase,
    pub store_record_hash: Option<String>,
    pub fallback_marked: bool,
    /// "LATEST" for a session fallback else "none".
    pub session_lookup: &'static str,
    /// `None` prints as "none" (unknown).
    pub session_message_count: Option<usize>,
    /// Action applied by the historical session-fallback stability policy.
    pub v2b_action: V2bAction,
}

/// The content of a [`SigSourceEntry`].
pub ghost struct EntryView {
    pub source: SigSource,
    pub restore_phase: RestorePhase,
    pub store_record_hash: Option<Seq<char>>,
    pub fallback_marked: bool,
    pub session_lookup: Seq<char>,
    pub session_message_count: Option<nat>,
    pub v2b_action: V2bAction,
}

impl View for SigSourceEntry {
    type V = EntryView;

    open spec fn view(&self) -> EntryView {
        EntryView {
            source: self.source,
            restore_phase: self.restore_phase,
            store_record_hash: opt_chars(self.store_record_hash),
            fallback_marked: self.fallback_marked,
            session_lookup: self.session_lookup@,
            session_message_count: opt_nat(self.session_message_count),
            v2b_action: self.v2b_action,
        }
    }
}

/// The entry of a builder attribution.
pub open spec fn builder_entry(source: SigSource, fallback_marked: bool) -> EntryView {
    EntryView {
        source,
        restore_phase: RestorePhase::NoPhase,
        store_record_hash: None,
        fallback_marked,
        session_lookup: if source == SigSource::SessionFallback {
            "LATEST"@
        } else {
            "none"@
        },
        session_message_count: None,
        v2b_action: V2bAction::NoAction,
    }
}

/// The entry of a restore attribution.
pub open spec fn restore_entry(
    phase: RestorePhase,
    rec_hash: Seq<char>,
    fallback_marked: bool,
) -> EntryView {
    EntryView {
        source: SigSource::PerTurnStore,
        restore_phase: phase,
        store_record_hash: Some(rec_hash),
        fallback_marked,
        session_lookup: "none"@,
        session_message_count: None,
        v2b_action: V2bAction::NoAction,
    }
}

impl SigSourceEntry {
    /// The entry of a builder attribution.
    pub fn builder(source: SigSource, fallback_marked: bool) -> (entry: Self)
        ensures
            entry@ == builder_entry(source, fallback_marked),
    {
        SigSourceEntry {
            source,
            restore_phase: RestorePhase::NoPhase,
            store_record_hash: None,
            fallback_marked,
            session_lookup: if source == SigSource::SessionFallback {
                "LATEST"
            } else {
                "none"
            },
            session_message_count: None,
            v2b_action: V2bAction::NoAction,
        }
    }

    /// A copy of the entry.
    pub fn copied(&self) -> (copy: Self)
        ensures
            copy@ == self@,
    {
        SigSourceEntry {
            source: self.source,
            restore_phase: self.restore_phase,
            store_record_hash: copy_opt_string(&self.store_record_hash),
            fallback_marked: self.fallback_marked,
            session_lookup: self.session_lookup,
            session_message_count: self.session_message_count,
            v2b_action: self.v2b_action,
        }
    }
}

/// Accumulation of builder and restore attributions for one request build.
pub struct SigPlan {
    pub entries: StringHashMap<SigSourceEntry>,
}

impl View for SigPlan {
    type V = Map<Seq<char>, EntryView>;

    open spec fn view(&self) -> Map<Seq<char>, EntryView> {
        self.entries@.map_values(|entry: SigSourceEntry| entry@)
    }
}

impl Default for SigPlan {
    /// A plan without attributions.
    fn default() -> (plan: Self)
        ensures
            plan@ == Map::<Seq<char>, EntryView>::empty(),
    {
        let plan = SigPlan { entries: StringHashMap::new() };
        assert(plan@ =~= Map::<Seq<char>, EntryView>::empty());
        plan
    }
}

/// A plan after a builder attribution. It never clobbers an authoritative
/// per-turn store record.
pub open spec fn after_builder(
    plan: Map<Seq<char>, EntryView>,
    tool_id: Seq<char>,
    source: SigSource,
    fallback_marked: bool,
) -> Map<Seq<char>, EntryView> {
    if tool_id.len() == 0 || (plan.contains_key(tool_id) && plan[tool_id].source
        == SigSource::PerTurnStore) {
        plan
    } else {
        plan.insert(tool_id, builder_entry(source, fallback_marked))
    }
}

/// A plan after a restore attribution, which replaces what was recorded.
pub open spec fn after_restore(
    plan: Map<Seq<char>, EntryView>,
    tool_id: Seq<char>,
    phase: RestorePhase,
    rec_hash: Seq<char>,
    fallback_marked: bool,
) -> Map<Seq<char>, EntryView> {
    if tool_id.len() == 0 {
        plan
    } else {
        plan.insert(tool_id, restore_entry(phase, rec_hash, fallback_marked))
    }
}

/// Whether a plan holds a builder attribution for a tool id. A restore puts its
/// own entry in the place of the builder's, and only a restore entry carries the
/// hash of a record.
pub open spec fn has_builder(plan: Map<Seq<char>, EntryView>, tool_id: Seq<char>) -> bool {
    plan.contains_key(tool_id) && plan[tool_id].store_record_hash is None
}

/// A plan after a stability action, which is noted on a builder attribution only.
pub open spec fn after_action(
    plan: Map<Seq<char>, EntryView>,
    tool_id: Seq<char>,
    action: V2bAction,
) -> Map<Seq<char>, EntryView> {
    if tool_id.len() == 0 || !has_builder(plan, tool_id) {
        plan
    } else {
        plan.insert(tool_id, EntryView { v2b_action: action, ..plan[tool_id] })
    }
}

impl SigPlan {
    /// Puts an entry under a tool id.
    fn put(&mut self, tool_id: &str, entry: SigSourceEntry)
        ensures
            final(self)@ == old(self)@.insert(tool_id@, entry@),
    {
        self.entries.insert(tool_id.to_string(), entry);
        assert(self@ =~= old(self)@.insert(tool_id@, entry@));
    }

    /// Records the builder-selected source for one functionCall.
    pub fn record_builder(&mut self, tool_id: &str, source: SigSource, fallback_marked: bool)
        ensures
            final(self)@ == after_builder(old(self)@, tool_id@, source, fallback_marked),
    {
        if tool_id.is_empty() {
            return;
        }
        if let Some(existing) = self.entries.get(tool_id) {
            if existing.source == SigSource::PerTurnStore {
                return;
            }
        }
        self.put(tool_id, SigSourceEntry::builder(source, fallback_marked));
    }

    /// Records a restore attribution (last writer wins).
    pub fn record_restore(
        &mut self,
        tool_id: &str,
        phase: RestorePhase,
        rec_hash: &str,
        fallback_marked: bool,
    )
        ensures
            final(self)@ == after_restore(
                old(self)@,
                tool_id@,
                phase,
                rec_hash@,
                fallback_marked,
            ),
    {
        if tool_id.is_empty() {
            return;
        }
        let entry = SigSourceEntry {
            source: SigSource::PerTurnStore,
            restore_phase: phase,
            store_record_hash: Some(rec_hash.to_string()),
            fallback_marked,
            session_lookup: "none",
            session_message_count: None,
            v2b_action: V2bAction::NoAction,
        };
        self.put(tool_id, entry);
    }

    /// Notes a stability action on the builder attribution of a functionCall.
    pub fn record_v2b_action(&mut self, tool_id: &str, action: V2bAction)
        ensures
            final(self)@ == after_action(old(self)@, tool_id@, action),
    {
        if tool_id.is_empty() {
            return;
        }
        let noted = match self.entries.get(tool_id) {
            Some(existing) => if existing.store_record_hash.is_some() {
                None
            } else {
                let mut entry = existing.copied();
                entry.v2b_action = action;
                Some(entry)
            },
            None => None,
        };
        if let Some(entry) = noted {
            self.put(tool_id, entry);
        }
    }
}

/// Guard of the active plan for the duration of a request build. Releasing it
/// clears the slot so that no plan leaks to a later request.
pub struct SigPlanGuard {
    pub armed: bool,
}

impl SigPlanGuard {
    /// Clears the slot, where the guard was armed.
    pub fn release(self, active: &mut Option<SigPlan>)
        ensures
            *final(active) == (if self.armed {
                None
            } else {
                *old(active)
            }),
    {
        if self.armed {
            *active = None;
        }
    }
}

/// The content of a slot for an active plan.
pub open spec fn slot_view(active: Option<SigPlan>) -> Option<Map<Seq<char>, EntryView>> {
    match active {
        Some(plan) => Some(plan@),
        None => None,
    }
}

/// Arms a fresh plan when diagnostics are enabled. When disabled this does
/// nothing and the returned guard is inert.
pub fn begin_plan(enabled: bool, active: &mut Option<SigPlan>) -> (guard: SigPlanGuard)
    ensures
        guard.armed == enabled,
        enabled ==> slot_view(*final(active)) == Some(Map::<Seq<char>, EntryView>::empty()),
        !enabled ==> *final(active) == *old(active),
{
    if enabled {
        *active = Some(SigPlan::default());
        SigPlanGuard { armed: true }
    } else {
        SigPlanGuard { armed: false }
    }
}

/// Record the builder-selected source for one functionCall. No-op when
/// diagnostics are disabled or no plan is active.
pub fn record_builder_function_call(
    enabled: bool,
    active: &mut Option<SigPlan>,
    tool_id: &str,
    source: SigSource,
    fallback_marked: bool,
)
    ensures
        slot_view(*final(active)) == (match slot_view(*old(active)) {
            Some(plan) => if enabled {
                Some(after_builder(plan, tool_id@, source, fallback_marked))
            } else {
                Some(plan)
            },
            None => None,
        }),
        !enabled ==> *final(active) == *old(active),
{
    if !enabled {
        return;
    }
    if let Some(plan) = active.as_mut() {
        plan.record_builder(tool_id, source, fallback_marked);
    }
}

/// Record a restore attribution (last writer wins). No-op when diagnostics are
/// disabled or no plan is active.
pub fn record_restore_function_call(
    enabled: bool,
    active: &mut Option<SigPlan>,
    tool_id: &str,
    tag: &str,
    rec_hash: &str,
    fallback_marked: bool,
)
    ensures
        slot_view(*final(active)) == (match slot_view(*old(active)) {
            Some(plan) => if enabled {
                Some(after_restore(plan, tool_id@, phase_of(tag@), rec_hash@, fallback_marked))
            } else {
                Some(plan)
            },
            None => None,
        }),
        !enabled ==> *final(active) == *old(active),
{
    if !enabled {
        return;
    }
    let phase = RestorePhase::from_tag(tag);
    if let Some(plan) = active.as_mut() {
        plan.record_restore(tool_id, phase, rec_hash, fallback_marked);
    }
}

/// Attribute a historical session-fallback stability action to a functionCall.
/// No-op when diagnostics are disabled, no plan is active, or the tool id has no
/// builder attribution.
pub fn record_v2b_action(
    enabled: bool,
    active: &mut Option<SigPlan>,
    tool_id: &str,
    action: V2bAction,
)
    ensures
        slot_view(*final(active)) == (match slot_view(*old(active)) {
            Some(plan) => if enabled {
                Some(after_action(plan, tool_id@, action))
            } else {
                Some(plan)
            },
            None => None,
        }),
        !enabled ==> *final(active) == *old(active),
{
    if !enabled {
        return;
    }
    if let Some(plan) = active.as_mut() {
        plan.record_v2b_action(tool_id, action);
    }
}

/// Salted hash of a record fingerprint. Never log the raw fingerprint.
pub fn store_record_hash(salt: &Salt, fingerprint: &str) -> (hash: String)
    ensures
        hash@ == short_hash_of(salt@, "rec|"@ + fingerprint@),
{
    let mut text = "rec|".to_string();
    text.append(fingerprint);
    short_hash(salt, text.as_str())
}

} // verus!
