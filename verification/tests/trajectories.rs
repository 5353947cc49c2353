use cache_diagnostics::hashing::{process_salt, short_hash, Salt};
use cache_diagnostics::identity::{fingerprint_request, SessionFingerprint};
use cache_diagnostics::json::{json_equal, Json, Member};
use cache_diagnostics::observe::{observe, observe_gated, Diagnostics};
use cache_diagnostics::outcome::DiagnosticOutcome;
use cache_diagnostics::prefix::{estimate_lcp_tokens, longest_common_prefix};
use cache_diagnostics::registry::Registry;
use cache_diagnostics::sanitize::sanitize_path;
use cache_diagnostics::store::{
    retained_bytes, retained_session_count, Store, MAX_RETAINED_BYTES, MAX_SESSIONS,
};

fn salt() -> Salt {
    Salt { bytes: [7u8; 32] }
}

fn text(s: &str) -> Json {
    Json::Text(s.to_string())
}

fn number(n: &str) -> Json {
    Json::Number(n.to_string())
}

fn object(members: Vec<(&str, Json)>) -> Json {
    Json::Object(
        members
            .into_iter()
            .map(|(key, value)| Member { key: key.to_string(), value })
            .collect(),
    )
}

fn array(items: Vec<Json>) -> Json {
    Json::Array(items)
}

fn copy(value: &Json) -> Json {
    match value {
        Json::Null => Json::Null,
        Json::Bool(b) => Json::Bool(*b),
        Json::Number(n) => Json::Number(n.clone()),
        Json::Text(s) => Json::Text(s.clone()),
        Json::Array(items) => Json::Array(items.iter().map(copy).collect()),
        Json::Object(members) => Json::Object(
            members
                .iter()
                .map(|m| Member { key: m.key.clone(), value: copy(&m.value) })
                .collect(),
        ),
    }
}

/// The member under `key`, created where it is missing.
fn member<'a>(value: &'a mut Json, key: &str) -> &'a mut Json {
    match value {
        Json::Object(members) => {
            let at = match members.iter().position(|m| m.key == key) {
                Some(at) => at,
                None => {
                    members.push(Member { key: key.to_string(), value: Json::Null });
                    members.len() - 1
                }
            };
            &mut members[at].value
        }
        _ => panic!("no object"),
    }
}

fn to_value(value: &Json) -> serde_json::Value {
    match value {
        Json::Null => serde_json::Value::Null,
        Json::Bool(b) => serde_json::Value::Bool(*b),
        Json::Number(n) => serde_json::from_str(n).unwrap(),
        Json::Text(s) => serde_json::Value::String(s.clone()),
        Json::Array(items) => serde_json::Value::Array(items.iter().map(to_value).collect()),
        Json::Object(members) => serde_json::Value::Object(
            members.iter().map(|m| (m.key.clone(), to_value(&m.value))).collect(),
        ),
    }
}

fn ser(value: &Json) -> Vec<u8> {
    serde_json::to_vec(&to_value(value)).unwrap()
}

fn session_body(contents: Json) -> Json {
    object(vec![
        ("project", text("proj-1")),
        (
            "request",
            object(vec![
                (
                    "systemInstruction",
                    object(vec![("parts", array(vec![object(vec![("text", text("sys"))])]))]),
                ),
                ("tools", array(vec![])),
                ("generationConfig", object(vec![("temperature", number("1"))])),
                ("sessionId", number("12345")),
                ("contents", contents),
            ]),
        ),
        ("model", text("gemini-2.0-flash")),
        ("userAgent", text("antigravity")),
        ("requestId", text("req-1")),
    ])
}

fn text_content(role: &str, t: &str) -> Json {
    object(vec![("role", text(role)), ("parts", array(vec![object(vec![("text", text(t))])]))])
}

/// A session management that keeps every text and names the conversation after
/// its first one.
fn fingerprint(body: &Json) -> SessionFingerprint {
    let request = fingerprint_request(body);
    let session_id = match request.texts.first() {
        Some(first) => format!("sid-{first}"),
        None => String::new(),
    };
    SessionFingerprint { sanitized_texts: request.texts, session_id }
}

fn without_session_id(mut body: Json) -> Json {
    match member(&mut body, "request") {
        Json::Object(members) => members.retain(|m| m.key != "sessionId"),
        _ => panic!("no request"),
    }
    body
}

fn diagnostics() -> Diagnostics {
    Diagnostics { salt: salt(), store: Store::new(), registry: Registry::new() }
}

fn observed(diagnostics: &mut Diagnostics, body: &Json, account: &str) -> DiagnosticOutcome {
    observe_gated(
        diagnostics,
        false,
        &ser(body),
        body,
        "generateContent",
        Some(account),
        &fingerprint(body),
    )
    .outcome
}

#[test]
fn t1_missing_session_id_does_not_collapse_traffic() {
    let mut d = diagnostics();
    let mut a =
        without_session_id(session_body(array(vec![text_content("user", "conversation alpha")])));
    let mut b =
        without_session_id(session_body(array(vec![text_content("user", "conversation beta")])));
    *member(&mut a, "requestId") = text("a");
    *member(&mut b, "requestId") = text("b");

    let out_a = observed(&mut d, &a, "acct");
    let out_b = observed(&mut d, &b, "acct");
    assert!(out_a.session_key.is_none());
    assert!(out_b.session_key.is_none());
    assert_ne!(out_a.trajectory_key, out_b.trajectory_key);
    assert_eq!(retained_session_count(&d.store), 2);
}

#[test]
fn t2_account_and_session_changes_are_events_not_new_streams() {
    let mut d = diagnostics();
    let mut a = session_body(array(vec![text_content("user", "stable conversation")]));
    *member(member(&mut a, "request"), "sessionId") = number("111");
    *member(&mut a, "requestId") = text("a");
    let out_a = observed(&mut d, &a, "acct-1");
    assert_eq!(out_a.classification, "NEW_SESSION");
    assert!(!out_a.account_changed);

    let mut b = session_body(array(vec![text_content("user", "stable conversation")]));
    *member(member(&mut b, "request"), "sessionId") = number("222");
    *member(&mut b, "requestId") = text("b");
    let out_b = observed(&mut d, &b, "acct-2");
    assert_eq!(out_b.trajectory_key, out_a.trajectory_key);
    assert_eq!(out_b.classification, "SESSION_ID_CHANGE");
    assert!(out_b.account_changed);
    assert!(out_b.session_changed);
    assert_eq!(retained_session_count(&d.store), 1);
}

#[test]
fn t3_fallback_dedupe_without_conversation_anchor() {
    let mut d = diagnostics();
    // No user text anchor: image-only-ish body -> environment fallback.
    let body = without_session_id(session_body(array(vec![])));
    let out1 = observed(&mut d, &body, "acct");
    assert_eq!(out1.classification, "NEW_SESSION");
    assert_eq!(out1.trajectory_source, "environment_fallback");
    let out2 = observed(&mut d, &body, "acct");
    assert_eq!(out2.classification, "DEDUPED");
    assert_eq!(retained_session_count(&d.store), 1);
}

#[test]
fn observation_sequence_is_unique_within_a_trajectory() {
    let mut d = diagnostics();
    let mut seqs = Vec::new();
    for i in 0..16usize {
        let mut contents = vec![text_content("user", "shared first turn")];
        for k in 0..=i {
            contents.push(text_content("model", &format!("turn-{i}-{k}")));
        }
        let mut body = session_body(array(contents));
        *member(member(&mut body, "request"), "sessionId") = number("12345");
        seqs.push(observed(&mut d, &body, "acct").observation_seq);
    }
    let total = seqs.len();
    seqs.sort_unstable();
    seqs.dedup();
    assert_eq!(total, 16);
    assert_eq!(seqs.len(), 16, "observation sequence must be unique");
    assert_eq!(retained_session_count(&d.store), 1);
}

#[test]
fn m_session_cap_evicts_oldest() {
    let mut d = diagnostics();
    for i in 0..(MAX_SESSIONS + 5) {
        let mut body = session_body(array(vec![text_content("user", &format!("conv {i}"))]));
        *member(member(&mut body, "request"), "sessionId") = number(&format!("{i}"));
        observed(&mut d, &body, "acct");
    }
    assert_eq!(retained_session_count(&d.store), MAX_SESSIONS);
}

#[test]
fn m_total_bytes_cap_evicts_oldest() {
    let mut d = diagnostics();
    d.store = Store::with_total_cap(4096);
    for i in 0..20 {
        let mut body = session_body(array(vec![
            text_content("user", &format!("conv {i}")),
            text_content("model", &"x".repeat(400)),
        ]));
        *member(member(&mut body, "request"), "sessionId") = number(&format!("{i}"));
        observed(&mut d, &body, "acct");
    }
    assert!(
        retained_bytes(&d.store) <= 4096,
        "retained bytes {} exceeded cap",
        retained_bytes(&d.store)
    );
    assert!(retained_session_count(&d.store) < 20);
}

#[test]
fn m_oversized_body_not_retained() {
    let mut d = diagnostics();
    let mut body = session_body(array(vec![text_content("user", "hi")]));
    *member(&mut body, "big") = text(&"z".repeat(MAX_RETAINED_BYTES + 1));
    let bytes = ser(&body);
    assert!(bytes.len() > MAX_RETAINED_BYTES);
    observed(&mut d, &body, "acct");
    assert_eq!(retained_session_count(&d.store), 0);
}

#[test]
fn pr2_salted_hashes_stable_within_process() {
    let salt = process_salt();
    let h1 = short_hash(&salt, "secret-identifier");
    let h2 = short_hash(&salt, "secret-identifier");
    assert_eq!(h1, h2);
    assert_eq!(h1.len(), 16);
    assert!(h1.chars().all(|c| c.is_ascii_hexdigit()));
    assert!(!h1.contains("secret"));
    assert_ne!(h1, short_hash(&salt, "secret-identifier-2"));
}

#[test]
fn j_disabled_no_retention_and_no_mutation() {
    let mut d = diagnostics();
    let body = session_body(array(vec![text_content("user", "hi")]));
    let before = copy(&body);
    let bytes = ser(&body);
    let f = fingerprint(&body);
    let first = observe(&mut d, false, &bytes, &body, "generateContent", Some("acct"), &f);
    let second = observe(&mut d, false, &bytes, &body, "generateContent", Some("acct"), &f);
    assert!(first.is_none());
    assert!(second.is_none());

    assert_eq!(retained_session_count(&d.store), 0);
    assert!(json_equal(&body, &before));
    assert_eq!(ser(&body), bytes);
}

#[test]
fn j2_enabled_zero_mutation_and_byte_identical() {
    let mut d = diagnostics();
    let mut body = session_body(array(vec![text_content("user", "hi")]));
    *member(member(&mut body, "request"), "sessionId") = text("j2-unique");
    let before = copy(&body);
    let bytes = ser(&body);

    let outcome = observed(&mut d, &body, "acct");
    assert_eq!(outcome.classification, "NEW_SESSION");
    observed(&mut d, &body, "acct");

    // The value must be deep-equal and re-serialization byte-identical.
    assert!(json_equal(&body, &before));
    assert_eq!(ser(&body), bytes);
    assert_eq!(retained_session_count(&d.store), 1);
}

#[test]
fn longest_common_prefix_basics() {
    assert_eq!(longest_common_prefix(b"", b""), 0);
    assert_eq!(longest_common_prefix(b"abc", b""), 0);
    assert_eq!(longest_common_prefix(b"abcdef", b"abcxyz"), 3);
    assert_eq!(longest_common_prefix(b"same", b"same"), 4);
    assert_eq!(longest_common_prefix(b"a", b"b"), 0);
}

#[test]
fn longest_common_prefix_utf8_edge() {
    // Both second characters begin with the same UTF-8 lead byte (E5), so the
    // shared byte prefix is 4 bytes, which ends in the middle of the second
    // character.
    let a = "你好".as_bytes();
    let b = "你号".as_bytes();
    assert_eq!(a[..3], b[..3]);
    assert_eq!(a[3], b[3]);
    assert_ne!(a[4], b[4]);
    assert_eq!(longest_common_prefix(a, b), 4);
    // A shared 2-byte encoding, then differing ASCII.
    assert_eq!(longest_common_prefix("é1".as_bytes(), "é2".as_bytes()), 2);
}

#[test]
fn estimate_tokens_basics() {
    assert_eq!(estimate_lcp_tokens(0), 0);
    assert_eq!(estimate_lcp_tokens(4), 1);
    assert_eq!(estimate_lcp_tokens(400), 100);
    assert_eq!(estimate_lcp_tokens(3), 0);
}

#[test]
fn sanitize_path_replaces_dynamic_segments() {
    let p = "request.contents[0].parts[0].functionCall.args.SENSITIVE";
    let s = sanitize_path(&salt(), p);
    assert!(!s.contains("SENSITIVE"));
    assert!(s.contains("functionCall"));
    assert!(s.contains("contents[0]"));
    assert!(s.contains("<key:"));
}
