use cache_diagnostics::hashing::{short_hash, Salt};
use cache_diagnostics::identity::SessionFingerprint;
use cache_diagnostics::json::{Json, Member};
use cache_diagnostics::observe::{observe, Diagnostics};
use cache_diagnostics::parse::parse_json;
use cache_diagnostics::registry::{
    emit_for_body, finish_plan, format_line, has_plan_for_body, observations_for_body, Registry,
    SigSourceObservation, MAX_RETAINED_PLANS,
};
use cache_diagnostics::signature_source::{
    begin_plan, record_builder_function_call, record_restore_function_call, record_v2b_action,
    store_record_hash, RestorePhase, SigPlan, SigSource, SigSourceEntry, V2bAction,
};
use cache_diagnostics::store::Store;

fn salt() -> Salt {
    Salt { bytes: [7u8; 32] }
}

fn request(id: &str) -> Json {
    Json::Object(vec![Member {
        key: "requestId".to_string(),
        value: Json::Text(id.to_string()),
    }])
}

fn obs(entry: SigSourceEntry) -> SigSourceObservation {
    SigSourceObservation {
        content_index: 1,
        part_index: 2,
        tool_id_hash: short_hash(&salt(), "toolid|call_x"),
        entry,
    }
}

#[test]
fn d3_unit_format_line_fields_present() {
    let entry = SigSourceEntry::builder(SigSource::ToolCache, false);
    let line = format_line(&obs(entry), "traj123", 7);
    assert!(line.starts_with("[CACHE-SIG-SOURCE] "));
    assert!(line.contains("trajectory=traj123"));
    assert!(line.contains("obs_seq=7"));
    assert!(line.contains("content_index=1"));
    assert!(line.contains("part_index=2"));
    assert!(line.contains("sig_source=TOOL_CACHE"));
    assert!(line.contains("tool_id_hash="));
    assert!(line.contains("store_record_hash=none"));
    assert!(line.contains("restore_phase=NONE"));
    assert!(line.contains("session_lookup=none"));
    assert!(line.contains("session_message_count=none"));
    assert!(line.contains("fallback_marked=false"));
}

#[test]
fn d3_unit_last_writer_wins_builder_then_restore() {
    let mut plan = SigPlan::default();
    plan.record_builder("call_1", SigSource::SessionFallback, true);
    assert_eq!(plan.entries.get("call_1").unwrap().source, SigSource::SessionFallback);
    plan.record_restore("call_1", RestorePhase::P1ToolId, "hash123", true);
    let e = plan.entries.get("call_1").unwrap();
    assert_eq!(e.source, SigSource::PerTurnStore);
    assert_eq!(e.restore_phase, RestorePhase::P1ToolId);
    assert_eq!(e.store_record_hash.as_deref(), Some("hash123"));
    // A later builder record must not clobber the restore.
    plan.record_builder("call_1", SigSource::ToolCache, false);
    assert_eq!(plan.entries.get("call_1").unwrap().source, SigSource::PerTurnStore);
}

#[test]
fn d3_unit_disabled_begin_plan_inert() {
    let mut active: Option<SigPlan> = None;
    let mut registry = Registry::new();
    let _guard = begin_plan(false, &mut active);
    assert!(active.is_none());
    record_builder_function_call(false, &mut active, "call_1", SigSource::ToolCache, false);
    assert!(active.is_none());
    finish_plan(false, &mut active, &mut registry, &request("r1"));
    assert_eq!(registry.len(), 0);
}

fn registered(registry: &mut Registry, id: &str, tool: &str) {
    let mut active: Option<SigPlan> = None;
    let guard = begin_plan(true, &mut active);
    record_builder_function_call(true, &mut active, tool, SigSource::ToolCache, false);
    finish_plan(true, &mut active, registry, &request(id));
    guard.release(&mut active);
    assert!(active.is_none());
}

#[test]
fn last_builder_wins_without_a_restore() {
    let mut plan = SigPlan::default();
    plan.record_builder("a", SigSource::Sentinel, false);
    plan.record_builder("a", SigSource::TrustedClient, true);
    let entry = plan.entries.get("a").unwrap();
    assert_eq!(entry.source, SigSource::TrustedClient);
    assert!(entry.fallback_marked);
    plan.record_builder("", SigSource::ToolCache, false);
    plan.record_restore("", RestorePhase::P3Text, "h", false);
    assert!(plan.entries.get("").is_none());
    assert!(plan.entries.get("b").is_none());
}

#[test]
fn action_needs_a_builder_attribution() {
    let mut active: Option<SigPlan> = None;
    let _guard = begin_plan(true, &mut active);
    record_restore_function_call(true, &mut active, "c1", "P1_TOOL_ID", "h", false);
    record_v2b_action(true, &mut active, "c1", V2bAction::StabilizedToSentinel);
    let plan = active.as_ref().unwrap();
    assert_eq!(plan.entries.get("c1").unwrap().v2b_action, V2bAction::NoAction);

    // A restore puts its own entry in the place of the builder's.
    let mut plan = SigPlan::default();
    plan.record_builder("a", SigSource::SessionFallback, true);
    plan.record_restore("a", RestorePhase::P3Text, "h", true);
    plan.record_v2b_action("a", V2bAction::StabilizedToSentinel);
    assert_eq!(plan.entries.get("a").unwrap().v2b_action, V2bAction::NoAction);
}

#[test]
fn action_is_noted_on_existing_entries_only() {
    let mut plan = SigPlan::default();
    plan.record_v2b_action("a", V2bAction::StabilizedToSentinel);
    assert!(plan.entries.get("a").is_none());
    plan.record_builder("a", SigSource::SessionFallback, true);
    assert_eq!(plan.entries.get("a").unwrap().session_lookup, "LATEST");
    plan.record_v2b_action("a", V2bAction::StabilizedToSentinel);
    let entry = plan.entries.get("a").unwrap();
    assert_eq!(entry.v2b_action, V2bAction::StabilizedToSentinel);
    assert_eq!(entry.source, SigSource::SessionFallback);
    assert_eq!(entry.session_lookup, "LATEST");
}

#[test]
fn tags_round_trip() {
    for phase in [
        RestorePhase::P1ToolId,
        RestorePhase::P2Fingerprint,
        RestorePhase::P3Text,
        RestorePhase::P4Tail,
        RestorePhase::NoPhase,
    ] {
        assert_eq!(RestorePhase::from_tag(phase.as_str()), phase);
    }
    assert_eq!(RestorePhase::from_tag("p1_tool_id"), RestorePhase::NoPhase);
    assert_eq!(SigSource::PerTurnStore.as_str(), "PER_TURN_STORE");
    assert_eq!(SigSource::NoSource.as_str(), "NONE");
    assert_eq!(V2bAction::NoAction.as_str(), "none");
}

#[test]
fn nothing_is_recorded_without_an_active_plan() {
    let mut active: Option<SigPlan> = None;
    record_builder_function_call(true, &mut active, "a", SigSource::ToolCache, false);
    record_restore_function_call(true, &mut active, "a", "P4_TAIL", "h", false);
    record_v2b_action(true, &mut active, "a", V2bAction::StabilizedToSentinel);
    assert!(active.is_none());
}

#[test]
fn plan_needs_entries_and_a_request_id() {
    let mut registry = Registry::new();
    let mut active: Option<SigPlan> = None;
    finish_plan(true, &mut active, &mut registry, &request("r"));
    assert!(active.is_none());
    assert_eq!(registry.len(), 0);

    // Where nothing is registered the plan stays active.
    let empty = begin_plan(true, &mut active);
    finish_plan(true, &mut active, &mut registry, &request("r"));
    assert!(active.is_some());
    assert_eq!(registry.len(), 0);
    empty.release(&mut active);
    assert!(active.is_none());

    for body in [request(""), Json::Null] {
        let guard = begin_plan(true, &mut active);
        record_builder_function_call(true, &mut active, "a", SigSource::ToolCache, false);
        finish_plan(true, &mut active, &mut registry, &body);
        assert!(active.as_ref().unwrap().entries.get("a").is_some());
        assert_eq!(registry.len(), 0);
        assert!(!has_plan_for_body(&registry, &body));
        guard.release(&mut active);
        assert!(active.is_none());
    }

    // Disabled, an active plan is left alone.
    let guard = begin_plan(true, &mut active);
    record_builder_function_call(true, &mut active, "a", SigSource::ToolCache, false);
    finish_plan(false, &mut active, &mut registry, &request("r"));
    assert!(active.is_some());
    assert_eq!(registry.len(), 0);
    guard.release(&mut active);

    registered(&mut registry, "r", "a");
    assert_eq!(registry.len(), 1);
    assert!(has_plan_for_body(&registry, &request("r")));
    assert!(!has_plan_for_body(&registry, &request("other")));
}

#[test]
fn inert_guard_leaves_the_slot_alone() {
    let mut active: Option<SigPlan> = Some(SigPlan::default());
    begin_plan(false, &mut active).release(&mut active);
    assert!(active.is_some());
    begin_plan(true, &mut active).release(&mut active);
    assert!(active.is_none());
}

#[test]
fn registry_keeps_the_newest_plans() {
    let mut registry = Registry::new();
    for i in 0..(MAX_RETAINED_PLANS + 3) {
        registered(&mut registry, &format!("r{i}"), "a");
    }
    assert_eq!(registry.len(), MAX_RETAINED_PLANS);
    for i in 0..3 {
        assert!(!has_plan_for_body(&registry, &request(&format!("r{i}"))));
    }
    for i in 3..(MAX_RETAINED_PLANS + 3) {
        assert!(has_plan_for_body(&registry, &request(&format!("r{i}"))));
    }
}

#[test]
fn signature_lines_join_the_outcome() {
    let body = parse_json(
        br#"{
            "requestId": "r1",
            "request": {"contents": [
                {"role": "user", "parts": [{"text": "hi"}]},
                {"role": "model", "parts": [
                    {"text": "-"},
                    {"functionCall": {"id": "call_1"}},
                    {"functionCall": {"id": "unknown"}},
                    {"functionCall": {"id": "call_2"}}
                ]},
                {"role": "model"}
            ]}
        }"#,
    )
    .unwrap();
    let mut d = Diagnostics { salt: salt(), store: Store::new(), registry: Registry::new() };
    let mut active: Option<SigPlan> = None;
    let guard = begin_plan(true, &mut active);
    record_builder_function_call(true, &mut active, "call_1", SigSource::SessionFallback, true);
    record_builder_function_call(true, &mut active, "call_2", SigSource::Sentinel, false);
    let hash = store_record_hash(&salt(), "fp");
    assert_eq!(hash, short_hash(&salt(), "rec|fp"));
    record_restore_function_call(true, &mut active, "call_2", "P2_FINGERPRINT", &hash, true);
    record_v2b_action(true, &mut active, "call_1", V2bAction::StabilizedToSentinel);
    finish_plan(true, &mut active, &mut d.registry, &body);
    guard.release(&mut active);

    let found = observations_for_body(&salt(), &d.registry, &body);
    assert_eq!(found.len(), 2);
    assert_eq!((found[0].content_index, found[0].part_index), (1, 1));
    assert_eq!((found[1].content_index, found[1].part_index), (1, 3));
    assert_eq!(found[1].tool_id_hash, short_hash(&salt(), "toolid|call_2"));

    let fingerprint =
        SessionFingerprint { sanitized_texts: vec!["hi".to_string()], session_id: "s".to_string() };
    let seen = observe(&mut d, true, b"{}", &body, "m", None, &fingerprint).unwrap();
    let key = &seen.outcome.trajectory_key;
    assert_eq!(
        seen.signature_lines,
        vec![
            format!(
                "[CACHE-SIG-SOURCE] trajectory={key} obs_seq=0 content_index=1 part_index=1 sig_source=SESSION_FALLBACK tool_id_hash={} store_record_hash=none restore_phase=NONE session_lookup=LATEST session_message_count=none fallback_marked=true v2b_action=STABILIZED_TO_SENTINEL",
                short_hash(&salt(), "toolid|call_1")
            ),
            format!(
                "[CACHE-SIG-SOURCE] trajectory={key} obs_seq=0 content_index=1 part_index=3 sig_source=PER_TURN_STORE tool_id_hash={} store_record_hash={hash} restore_phase=P2_FINGERPRINT session_lookup=none session_message_count=none fallback_marked=true v2b_action=none",
                short_hash(&salt(), "toolid|call_2")
            ),
        ]
    );
    assert!(emit_for_body(false, &salt(), &d.registry, &body, key, 0).is_empty());
    assert!(emit_for_body(true, &salt(), &d.registry, &request("r2"), key, 0).is_empty());
}
