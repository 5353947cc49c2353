use cache_diagnostics::classify::classify_diff;
use cache_diagnostics::hashing::{full_sha256_hex, Salt};
use cache_diagnostics::history::{
    ARGS_TRUNCATION_TEXT, MIN_REAL_SIGNATURE_LEN, SENTINEL_SIGNATURE,
};
use cache_diagnostics::identity::{
    account_key, derive_trajectory, fingerprint_request, observed_session_key, SessionFingerprint,
};
use cache_diagnostics::json::{json_equal, Json, Member};
use cache_diagnostics::outcome::{observe_inner, DiagnosticOutcome};
use cache_diagnostics::prefix::longest_common_prefix;
use cache_diagnostics::snapshot::Snapshot;

fn salt() -> Salt {
    Salt { bytes: [7u8; 32] }
}

fn text(s: &str) -> Json {
    Json::Text(s.to_string())
}

fn number(n: &str) -> Json {
    Json::Number(n.to_string())
}

fn object(members: Vec<(&str, Json)>) -> Json {
    Json::Object(
        members
            .into_iter()
            .map(|(key, value)| Member { key: key.to_string(), value })
            .collect(),
    )
}

fn array(items: Vec<Json>) -> Json {
    Json::Array(items)
}

fn copy(value: &Json) -> Json {
    match value {
        Json::Null => Json::Null,
        Json::Bool(b) => Json::Bool(*b),
        Json::Number(n) => Json::Number(n.clone()),
        Json::Text(s) => Json::Text(s.clone()),
        Json::Array(items) => Json::Array(items.iter().map(copy).collect()),
        Json::Object(members) => Json::Object(
            members
                .iter()
                .map(|m| Member { key: m.key.clone(), value: copy(&m.value) })
                .collect(),
        ),
    }
}

/// The member under `key`, created where it is missing.
fn member<'a>(value: &'a mut Json, key: &str) -> &'a mut Json {
    match value {
        Json::Object(members) => {
            let at = match members.iter().position(|m| m.key == key) {
                Some(at) => at,
                None => {
                    members.push(Member { key: key.to_string(), value: Json::Null });
                    members.len() - 1
                }
            };
            &mut members[at].value
        }
        _ => panic!("no object"),
    }
}

fn item(value: &mut Json, index: usize) -> &mut Json {
    match value {
        Json::Array(items) => &mut items[index],
        _ => panic!("no array"),
    }
}

fn first_part(body: &mut Json) -> &mut Json {
    let contents = member(member(body, "request"), "contents");
    item(member(item(contents, 0), "parts"), 0)
}

fn to_value(value: &Json) -> serde_json::Value {
    match value {
        Json::Null => serde_json::Value::Null,
        Json::Bool(b) => serde_json::Value::Bool(*b),
        Json::Number(n) => serde_json::from_str(n).unwrap(),
        Json::Text(s) => serde_json::Value::String(s.clone()),
        Json::Array(items) => serde_json::Value::Array(items.iter().map(to_value).collect()),
        Json::Object(members) => serde_json::Value::Object(
            members.iter().map(|m| (m.key.clone(), to_value(&m.value))).collect(),
        ),
    }
}

fn ser(value: &Json) -> Vec<u8> {
    serde_json::to_vec(&to_value(value)).unwrap()
}

fn session_body(contents: Json) -> Json {
    object(vec![
        ("project", text("proj-1")),
        (
            "request",
            object(vec![
                (
                    "systemInstruction",
                    object(vec![("parts", array(vec![object(vec![("text", text("sys"))])]))]),
                ),
                ("tools", array(vec![])),
                ("generationConfig", object(vec![("temperature", number("1"))])),
                ("sessionId", number("12345")),
                ("contents", contents),
            ]),
        ),
        ("model", text("gemini-2.0-flash")),
        ("userAgent", text("antigravity")),
        ("requestId", text("req-1")),
    ])
}

fn text_content(role: &str, t: &str) -> Json {
    object(vec![("role", text(role)), ("parts", array(vec![object(vec![("text", text(t))])]))])
}

/// A session management that keeps every text and names the conversation after
/// its first one.
fn fingerprint(body: &Json) -> SessionFingerprint {
    let request = fingerprint_request(body);
    let session_id = match request.texts.first() {
        Some(first) => format!("sid-{first}"),
        None => String::new(),
    };
    SessionFingerprint { sanitized_texts: request.texts, session_id }
}

/// Snapshot that mirrors the account/session identity of `body`.
fn snap_for(body: &Json) -> Snapshot {
    let bytes = ser(body);
    Snapshot {
        sha256_hex: full_sha256_hex(&bytes),
        bytes,
        seq: 1,
        account_key: account_key(&salt(), Some("acct")),
        session_key: observed_session_key(&salt(), body),
    }
}

fn observe_inner_body(prev: Option<&Snapshot>, body: &Json) -> DiagnosticOutcome {
    let bytes = ser(body);
    let traj = derive_trajectory(&salt(), body, &fingerprint(body));
    observe_inner(&salt(), prev, &bytes, body, "generateContent", Some("acct"), &traj, 0)
}

/// The common prefix as a percentage of the shorter body, with 2 decimals.
fn lcp_percent(out: &DiagnosticOutcome) -> Option<f64> {
    out.lcp_percent_operands().map(|(lcp, current, previous)| {
        let denom = current.min(previous);
        if denom == 0 {
            return 0.0;
        }
        let pct = (lcp as f64) * 100.0 / (denom as f64);
        (pct * 100.0).round() / 100.0
    })
}

#[test]
fn a_identical_request() {
    let body = session_body(array(vec![text_content("user", "hello")]));
    let bytes = ser(&body);
    let s = snap_for(&body);
    let out = observe_inner_body(Some(&s), &body);
    assert_eq!(out.classification, "DEDUPED");
    assert_eq!(out.lcp_bytes, Some(bytes.len()));
    assert_eq!(lcp_percent(&out), Some(100.0));
    assert_eq!(out.first_diff_offset, Some(bytes.len()));
    assert!(!out.account_changed);
    assert!(!out.session_changed);
    assert_eq!(out.ordering, "arrival");
}

#[test]
fn b_append_only_contents() {
    let prev = session_body(array(vec![text_content("user", "hello")]));
    let curr = session_body(array(vec![
        text_content("user", "hello"),
        text_content("model", "world"),
    ]));

    let (path, class) = classify_diff(&prev, &curr);
    assert_eq!(class, "CONTENT_APPEND_ONLY");
    assert_eq!(path, "request.contents[1]");

    let pb = ser(&prev);
    let cb = ser(&curr);
    let lcp = longest_common_prefix(&pb, &cb);
    let contents_marker = b"\"contents\":[";
    let contents_start = pb
        .windows(contents_marker.len())
        .position(|w| w == contents_marker)
        .unwrap();
    assert!(lcp > contents_start);
    assert!(lcp < pb.len());
}

fn call_body(args: Json, content_text: &str) -> Json {
    session_body(array(vec![
        object(vec![
            ("role", text("model")),
            (
                "parts",
                array(vec![object(vec![(
                    "functionCall",
                    object(vec![
                        ("name", text("do_thing")),
                        ("args", args),
                        ("id", text("call-1")),
                    ]),
                )])]),
            ),
        ]),
        text_content("user", content_text),
    ]))
}

fn args_sentinel_body(content_text: &str) -> Json {
    call_body(object(vec![("_truncated", text(ARGS_TRUNCATION_TEXT))]), content_text)
}

fn real_args_body(content_text: &str) -> Json {
    call_body(object(vec![("big", text(&"a".repeat(500)))]), content_text)
}

#[test]
fn c1_exact_args_truncation_sentinel_positive() {
    let prev = real_args_body("next");
    let curr = args_sentinel_body("next");
    let (path, class) = classify_diff(&prev, &curr);
    assert_eq!(class, "HISTORICAL_TOOL_ARGS_TRUNCATION");
    assert_eq!(path, "request.contents[0].parts[0].functionCall.args");
}

#[test]
fn c2_arbitrary_function_call_args_edit_is_not_truncation() {
    let prev = real_args_body("next");
    let mut curr = copy(&prev);
    *member(member(member(first_part(&mut curr), "functionCall"), "args"), "big") = text("b");
    let (path, class) = classify_diff(&prev, &curr);
    assert_ne!(class, "HISTORICAL_TOOL_ARGS_TRUNCATION");
    assert_eq!(class, "HISTORICAL_TOOL_ARGS_CHANGE");
    assert!(path.contains("functionCall.args"));
}

#[test]
fn c3_argument_growth_is_not_truncation() {
    let mut prev = real_args_body("next");
    *member(member(first_part(&mut prev), "functionCall"), "args") =
        object(vec![("big", text("a"))]);
    let mut curr = copy(&prev);
    *member(member(first_part(&mut curr), "functionCall"), "args") =
        object(vec![("big", text("aaaaaaaaaa"))]);
    let (_path, class) = classify_diff(&prev, &curr);
    assert_eq!(class, "HISTORICAL_TOOL_ARGS_CHANGE");
}

#[test]
fn c4_text_merely_containing_truncated_is_not_truncation() {
    let prev = session_body(array(vec![
        text_content("user", "ordinary text"),
        text_content("user", "next"),
    ]));
    let curr = session_body(array(vec![
        text_content("user", "text with _truncated marker inside"),
        text_content("user", "next"),
    ]));
    let (_path, class) = classify_diff(&prev, &curr);
    assert_ne!(class, "HISTORICAL_TOOL_ARGS_TRUNCATION");
    assert_ne!(class, "HISTORICAL_TOOL_OUTPUT_TRUNCATION");
}

fn output_body(result: &str) -> Json {
    session_body(array(vec![
        object(vec![
            ("role", text("user")),
            (
                "parts",
                array(vec![object(vec![(
                    "functionResponse",
                    object(vec![
                        ("name", text("do_thing")),
                        ("response", object(vec![("result", text(result))])),
                        ("id", text("call-1")),
                    ]),
                )])]),
            ),
        ]),
        text_content("user", "next"),
    ]))
}

#[test]
fn c5_exact_tool_output_sentinel_positive() {
    let prev = output_body(&"x".repeat(400));
    let curr = output_body("[Tool output truncated to save context. Original length: 400]");
    let (path, class) = classify_diff(&prev, &curr);
    assert_eq!(class, "HISTORICAL_TOOL_OUTPUT_TRUNCATION");
    assert!(path.ends_with("functionResponse.response.result"));
}

#[test]
fn c6_tool_output_sentinel_decoys_are_not_truncation() {
    let prev = output_body("real output that is long enough to matter");
    for decoy in [
        "prefix [Tool output truncated to save context. Original length: 12]",
        "[Tool output truncated to save context. Original length: abc]",
        "[Tool output truncated to save context. Original length: 12",
        "[Tool output truncated to save context. Original length:]",
        "Tool output truncated to save context. Original length: 12]",
        "_truncated",
    ] {
        let curr = output_body(decoy);
        let (_p, class) = classify_diff(&prev, &curr);
        assert_ne!(
            class, "HISTORICAL_TOOL_OUTPUT_TRUNCATION",
            "decoy should not classify as truncation: {decoy}"
        );
    }
}

#[test]
fn c7_real_args_replacing_sentinel_is_change_not_truncation() {
    let prev = args_sentinel_body("next");
    let curr = real_args_body("next");
    let (_p, class) = classify_diff(&prev, &curr);
    assert_eq!(class, "HISTORICAL_TOOL_ARGS_CHANGE");
}

#[test]
fn i_request_id_only() {
    let prev = session_body(array(vec![text_content("user", "hi")]));
    let mut curr = copy(&prev);
    *member(&mut curr, "requestId") = text("req-2");
    let (path, class) = classify_diff(&prev, &curr);
    assert_eq!(class, "REQUEST_ID_ONLY");
    assert_eq!(path, "requestId");
}

#[test]
fn i2_request_id_plus_append_is_append_only() {
    let prev = session_body(array(vec![text_content("user", "hi")]));
    let mut curr =
        session_body(array(vec![text_content("user", "hi"), text_content("model", "yo")]));
    *member(&mut curr, "requestId") = text("req-2");
    let (path, class) = classify_diff(&prev, &curr);
    assert_eq!(class, "CONTENT_APPEND_ONLY");
    assert_eq!(path, "request.contents[1]");
}

fn user_meta_body(key: &str, value: &str) -> Json {
    session_body(array(vec![object(vec![
        ("role", text("user")),
        (
            "parts",
            array(vec![object(vec![
                ("text", text("hi")),
                ("userMeta", object(vec![(key, text(value))])),
            ])]),
        ),
    ])]))
}

#[test]
fn i3_nested_user_object_request_id_is_not_ignored() {
    let prev = user_meta_body("requestId", "user-owned-1");
    let curr = user_meta_body("requestId", "user-owned-2");
    let (path, class) = classify_diff(&prev, &curr);
    assert_ne!(class, "REQUEST_ID_ONLY");
    assert_eq!(class, "UNKNOWN");
    assert!(path.contains("userMeta"));
    assert!(path.contains("requestId"));
}

#[test]
fn i4_nested_user_object_contents_is_not_ignored() {
    let prev = user_meta_body("contents", "user-owned-1");
    let curr = user_meta_body("contents", "user-owned-2");
    let (path, class) = classify_diff(&prev, &curr);
    assert_ne!(class, "CONTENT_APPEND_ONLY");
    assert_eq!(class, "UNKNOWN");
    assert!(path.contains("contents"));
    assert!(path.contains("userMeta"));
}

fn appended(base: &Json, extra: Json) -> Json {
    let mut curr = copy(base);
    match member(member(&mut curr, "request"), "contents") {
        Json::Array(items) => items.push(extra),
        _ => panic!("no contents"),
    }
    curr
}

#[test]
fn p1_project_beats_contents_append() {
    let prev = session_body(array(vec![text_content("user", "hi")]));
    let mut curr = appended(&prev, text_content("model", "yo"));
    *member(&mut curr, "project") = text("proj-2");
    let (_p, class) = classify_diff(&prev, &curr);
    assert_eq!(class, "ACCOUNT_PROJECT_CHANGE");
}

#[test]
fn p2_model_beats_generation_config() {
    let prev = session_body(array(vec![text_content("user", "hi")]));
    let mut curr = copy(&prev);
    *member(&mut curr, "model") = text("gemini-2.5-pro");
    *member(member(member(&mut curr, "request"), "generationConfig"), "temperature") =
        number("0.1");
    let (_p, class) = classify_diff(&prev, &curr);
    assert_eq!(class, "MODEL_CHANGE");
}

fn signed_body(signature: &str) -> Json {
    session_body(array(vec![object(vec![
        ("role", text("model")),
        (
            "parts",
            array(vec![object(vec![
                ("thought", Json::Bool(true)),
                ("thoughtSignature", text(signature)),
            ])]),
        ),
    ])]))
}

#[test]
fn p3_session_beats_thought_signature() {
    let prev = signed_body("sig-a");
    let mut curr = copy(&prev);
    *member(member(&mut curr, "request"), "sessionId") = number("99999");
    *member(first_part(&mut curr), "thoughtSignature") = text("sig-b");
    let (_p, class) = classify_diff(&prev, &curr);
    assert_eq!(class, "SESSION_ID_CHANGE");
}

#[test]
fn p4_truncation_beats_request_id() {
    let prev = real_args_body("next");
    let mut curr = args_sentinel_body("next");
    *member(&mut curr, "requestId") = text("req-rotated");
    let (_p, class) = classify_diff(&prev, &curr);
    assert_eq!(class, "HISTORICAL_TOOL_ARGS_TRUNCATION");
}

#[test]
fn p5_tool_schema_beats_contents_append() {
    let tool = |ty: &str| {
        array(vec![object(vec![(
            "functionDeclarations",
            array(vec![object(vec![
                ("name", text("t")),
                ("parameters", object(vec![("type", text(ty))])),
            ])]),
        )])])
    };
    let mut prev = session_body(array(vec![text_content("user", "hi")]));
    *member(member(&mut prev, "request"), "tools") = tool("object");
    let mut curr = appended(&prev, text_content("model", "yo"));
    *member(member(&mut curr, "request"), "tools") = tool("string");
    let (path, class) = classify_diff(&prev, &curr);
    assert_eq!(class, "TOOL_DEFINITION_CHANGE");
    assert!(path.starts_with("request.tools"));
    assert_eq!(path, "request.tools[0].functionDeclarations[0].parameters.type");
}

#[test]
fn g_session_id_change() {
    let prev = session_body(array(vec![text_content("user", "hi")]));
    let mut curr = copy(&prev);
    *member(member(&mut curr, "request"), "sessionId") = number("99999");
    let (path, class) = classify_diff(&prev, &curr);
    assert_eq!(class, "SESSION_ID_CHANGE");
    assert_eq!(path, "request.sessionId");
}

#[test]
fn h_project_model_user_agent_changes() {
    let base = session_body(array(vec![text_content("user", "hi")]));

    let mut p = copy(&base);
    *member(&mut p, "project") = text("proj-2");
    assert_eq!(classify_diff(&base, &p).1, "ACCOUNT_PROJECT_CHANGE");

    let mut m = copy(&base);
    *member(&mut m, "model") = text("gemini-2.5-pro");
    assert_eq!(classify_diff(&base, &m).1, "MODEL_CHANGE");

    let mut u = copy(&base);
    *member(&mut u, "userAgent") = text("antigravity/2");
    assert_eq!(classify_diff(&base, &u).1, "USER_AGENT_CHANGE");
}

#[test]
fn e_thinking_signature_change() {
    let prev = signed_body("sig-aaa");
    let curr = signed_body("sig-bbb");
    let (path, class) = classify_diff(&prev, &curr);
    assert_eq!(class, "THINKING_SIGNATURE_CHANGE");
    assert!(path.contains("thoughtSignature"));
}

#[test]
fn f_historical_thought_change() {
    let make = |t: &str| {
        session_body(array(vec![
            object(vec![
                ("role", text("model")),
                (
                    "parts",
                    array(vec![object(vec![
                        ("thought", Json::Bool(true)),
                        ("text", text(t)),
                    ])]),
                ),
            ]),
            text_content("user", "next"),
        ]))
    };
    let prev = make("old thinking");
    let curr = make("new thinking");
    let (path, class) = classify_diff(&prev, &curr);
    assert_eq!(class, "HISTORICAL_THOUGHT_CHANGE");
    assert!(path.contains("contents[0]"));
}

/// Two distinct real signatures (>= MIN_REAL_SIGNATURE_LEN).
const REAL_SIG_A: &str = "real_signature_A_0123456789012345678901234567890123456789";
const REAL_SIG_B: &str = "real_signature_B_9876543210987654321098765432109876543210";

/// A model part carrying an optional `thoughtSignature` slot.
fn sig_body(sig: Option<&str>) -> Json {
    let mut part = vec![("thought", Json::Bool(true))];
    if let Some(s) = sig {
        part.push(("thoughtSignature", text(s)));
    }
    session_body(array(vec![object(vec![
        ("role", text("model")),
        ("parts", array(vec![object(part)])),
    ])]))
}

/// End-to-end transition observed for prev -> curr through `observe_inner`
/// (i.e. from the exact serialized snapshots).
fn sig_transition(prev: &Json, curr: &Json) -> &'static str {
    let s = snap_for(prev);
    observe_inner_body(Some(&s), curr).signature_transition
}

#[test]
fn st1_sentinel_to_real() {
    assert!(REAL_SIG_A.len() >= MIN_REAL_SIGNATURE_LEN);
    let prev = sig_body(Some(SENTINEL_SIGNATURE));
    let curr = sig_body(Some(REAL_SIG_A));
    assert_eq!(classify_diff(&prev, &curr).1, "THINKING_SIGNATURE_CHANGE");
    assert_eq!(sig_transition(&prev, &curr), "SENTINEL_TO_REAL");
}

#[test]
fn st2_real_a_to_real_b() {
    let prev = sig_body(Some(REAL_SIG_A));
    let curr = sig_body(Some(REAL_SIG_B));
    assert_eq!(classify_diff(&prev, &curr).1, "THINKING_SIGNATURE_CHANGE");
    assert_eq!(sig_transition(&prev, &curr), "REAL_TO_REAL_DIFFERENT");
}

#[test]
fn d3_13_existing_classifications_unchanged() {
    // Pure trailing append still classifies as CONTENT_APPEND_ONLY.
    let prev = session_body(array(vec![text_content("user", "hi")]));
    let mut curr =
        session_body(array(vec![text_content("user", "hi"), text_content("model", "yo")]));
    *member(&mut curr, "requestId") = text("req-d3-13");
    let (_p, class) = classify_diff(&prev, &curr);
    assert_eq!(class, "CONTENT_APPEND_ONLY");

    // Two distinct real signatures still classify as REAL_TO_REAL_DIFFERENT.
    let a = sig_body(Some(REAL_SIG_A));
    let b = sig_body(Some(REAL_SIG_B));
    assert_eq!(sig_transition(&a, &b), "REAL_TO_REAL_DIFFERENT");
}

#[test]
fn d3_14_real_to_real_detected() {
    let prev = sig_body(Some(REAL_SIG_A));
    let curr = sig_body(Some(REAL_SIG_B));
    let (path, class) = classify_diff(&prev, &curr);
    assert_eq!(class, "THINKING_SIGNATURE_CHANGE");
    assert!(path.contains("thoughtSignature"));
    let out = observe_inner_body(Some(&snap_for(&prev)), &curr);
    assert_eq!(out.classification, "THINKING_SIGNATURE_CHANGE");
    assert_eq!(out.signature_transition, "REAL_TO_REAL_DIFFERENT");
}

#[test]
fn st3_real_to_sentinel() {
    let prev = sig_body(Some(REAL_SIG_A));
    let curr = sig_body(Some(SENTINEL_SIGNATURE));
    assert_eq!(classify_diff(&prev, &curr).1, "THINKING_SIGNATURE_CHANGE");
    assert_eq!(sig_transition(&prev, &curr), "REAL_TO_SENTINEL");
}

#[test]
fn st4_missing_to_real() {
    let prev = sig_body(None);
    let curr = sig_body(Some(REAL_SIG_A));
    assert_eq!(classify_diff(&prev, &curr).1, "THINKING_SIGNATURE_CHANGE");
    assert_eq!(sig_transition(&prev, &curr), "MISSING_TO_REAL");
}

#[test]
fn st5_real_to_missing() {
    let prev = sig_body(Some(REAL_SIG_A));
    let curr = sig_body(None);
    assert_eq!(classify_diff(&prev, &curr).1, "THINKING_SIGNATURE_CHANGE");
    assert_eq!(sig_transition(&prev, &curr), "REAL_TO_MISSING");
}

#[test]
fn st6_sentinel_to_missing_and_missing_to_sentinel() {
    let sentinel = sig_body(Some(SENTINEL_SIGNATURE));
    let missing = sig_body(None);
    assert_eq!(classify_diff(&sentinel, &missing).1, "THINKING_SIGNATURE_CHANGE");
    assert_eq!(sig_transition(&sentinel, &missing), "SENTINEL_TO_MISSING");
    assert_eq!(classify_diff(&missing, &sentinel).1, "THINKING_SIGNATURE_CHANGE");
    assert_eq!(sig_transition(&missing, &sentinel), "MISSING_TO_SENTINEL");
}

#[test]
fn st6b_short_non_sentinel_string_is_unknown_transition() {
    // Present but not real: must not be called REAL or MISSING.
    let prev = sig_body(Some(REAL_SIG_A));
    let curr = sig_body(Some("short_non_sentinel"));
    assert_eq!(classify_diff(&prev, &curr).1, "THINKING_SIGNATURE_CHANGE");
    assert_eq!(sig_transition(&prev, &curr), "UNKNOWN_SIGNATURE_TRANSITION");
}

#[test]
fn st7_unchanged_real_signature_produces_no_transition() {
    let prev = sig_body(Some(REAL_SIG_A));
    // Byte-identical snapshot: DEDUPED, no transition.
    assert_eq!(sig_transition(&prev, &copy(&prev)), "none");

    // Signature unchanged, only the volatile requestId rotates.
    let mut rotated = copy(&prev);
    *member(&mut rotated, "requestId") = text("req-2");
    let out = observe_inner_body(Some(&snap_for(&prev)), &rotated);
    assert_eq!(out.classification, "REQUEST_ID_ONLY");
    assert_eq!(out.signature_transition, "none");
}

#[test]
fn st8_nested_unrelated_thought_signature_user_key_does_not_trigger() {
    let prev = user_meta_body("thoughtSignature", "nested-a");
    let curr = user_meta_body("thoughtSignature", "nested-b");
    let (path, class) = classify_diff(&prev, &curr);
    assert_ne!(class, "THINKING_SIGNATURE_CHANGE");
    assert_eq!(class, "UNKNOWN");
    assert!(path.contains("thoughtSignature"));
    assert_eq!(sig_transition(&prev, &curr), "none");
}

#[test]
fn st9_transition_detection_does_not_mutate_bodies() {
    let prev = sig_body(Some(SENTINEL_SIGNATURE));
    let curr = sig_body(Some(REAL_SIG_A));
    let prev_before = copy(&prev);
    let curr_before = copy(&curr);
    let prev_bytes = ser(&prev);
    let curr_bytes = ser(&curr);

    assert_eq!(sig_transition(&prev, &curr), "SENTINEL_TO_REAL");

    assert!(json_equal(&prev, &prev_before));
    assert!(json_equal(&curr, &curr_before));
    assert_eq!(ser(&prev), prev_bytes);
    assert_eq!(ser(&curr), curr_bytes);
}

#[test]
fn st10_transition_metadata_leaks_no_signature_value() {
    let prev = sig_body(Some(REAL_SIG_A));
    let curr = sig_body(Some(REAL_SIG_B));
    let out = observe_inner_body(Some(&snap_for(&prev)), &curr);
    assert_eq!(out.classification, "THINKING_SIGNATURE_CHANGE");
    assert_eq!(out.signature_transition, "REAL_TO_REAL_DIFFERENT");

    let line = out.format_line(&salt(), Some("50.00"));
    assert!(
        line.contains("signature_transition=REAL_TO_REAL_DIFFERENT"),
        "line must expose only the enum: {line}"
    );
    assert!(!line.contains(REAL_SIG_A), "line leaked previous signature");
    assert!(!line.contains(REAL_SIG_B), "line leaked current signature");
    assert!(!line.contains("real_signature_"), "line leaked signature fragment");
}

#[test]
fn st11_non_signature_classification_uses_none() {
    // The signature slot also differs, but a higher-precedence change (model)
    // wins; the line must not claim a signature transition.
    let prev = sig_body(Some(REAL_SIG_A));
    let mut curr = sig_body(Some(REAL_SIG_B));
    *member(&mut curr, "model") = text("gemini-2.5-pro");
    let out = observe_inner_body(Some(&snap_for(&prev)), &curr);
    assert_eq!(out.classification, "MODEL_CHANGE");
    assert_eq!(out.signature_transition, "none");
}

#[test]
fn pr1_format_line_contains_no_raw_sensitive_values() {
    let make = |arg_val: &str, out_val: &str| {
        object(vec![
            ("project", text("proj-secret")),
            (
                "request",
                object(vec![
                    (
                        "systemInstruction",
                        object(vec![(
                            "parts",
                            array(vec![object(vec![("text", text("SYSTEM_SECRET_TEXT"))])]),
                        )]),
                    ),
                    ("tools", array(vec![])),
                    ("generationConfig", object(vec![])),
                    ("sessionId", text("sess-secret-123")),
                    (
                        "contents",
                        array(vec![
                            object(vec![
                                ("role", text("model")),
                                (
                                    "parts",
                                    array(vec![object(vec![(
                                        "functionCall",
                                        object(vec![
                                            ("name", text("t")),
                                            (
                                                "args",
                                                object(vec![("SENSITIVE_KEY_abc", text(arg_val))]),
                                            ),
                                            ("id", text("1")),
                                        ]),
                                    )])]),
                                ),
                            ]),
                            object(vec![
                                ("role", text("user")),
                                (
                                    "parts",
                                    array(vec![object(vec![
                                        ("text", text("PROMPT_SECRET_TEXT")),
                                        (
                                            "functionResponse",
                                            object(vec![
                                                ("name", text("t")),
                                                (
                                                    "response",
                                                    object(vec![("result", text(out_val))]),
                                                ),
                                                ("id", text("1")),
                                            ]),
                                        ),
                                    ])]),
                                ),
                            ]),
                            text_content("user", "latest"),
                        ]),
                    ),
                ]),
            ),
            ("model", text("gemini-2.0-flash")),
            ("userAgent", text("antigravity")),
            ("requestId", text("req-1")),
        ])
    };
    let prev = make("SENSITIVE_ARG_VALUE_1", "SENSITIVE_OUTPUT_VALUE_1");
    let curr = make("SENSITIVE_ARG_VALUE_2", "SENSITIVE_OUTPUT_VALUE_2");
    let curr_bytes = ser(&curr);
    let traj = derive_trajectory(&salt(), &curr, &fingerprint(&curr));
    let out = observe_inner(
        &salt(),
        Some(&snap_for(&prev)),
        &curr_bytes,
        &curr,
        "generateContent",
        Some("acct-secret@example.com"),
        &traj,
        0,
    );
    let line = out.format_line(&salt(), Some("50.00"));

    for secret in [
        "sess-secret-123",
        "acct-secret@example.com",
        "SYSTEM_SECRET_TEXT",
        "PROMPT_SECRET_TEXT",
        "SENSITIVE_KEY_abc",
        "SENSITIVE_ARG_VALUE_1",
        "SENSITIVE_ARG_VALUE_2",
        "SENSITIVE_OUTPUT_VALUE_1",
        "SENSITIVE_OUTPUT_VALUE_2",
        "proj-secret",
    ] {
        assert!(!line.contains(secret), "line leaked: {secret}\n{line}");
    }
    assert!(line.contains("<key:"), "dynamic key should be hashed: {line}");
    assert!(line.contains("ordering=arrival"));
}
