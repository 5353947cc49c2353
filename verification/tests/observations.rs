use cache_diagnostics::hashing::{full_sha256_hex, process_salt, short_hash, Salt};
use cache_diagnostics::identity::{
    account_key, derive_trajectory, env_fingerprint, fingerprint_request, has_conversation_anchor,
    inner_request, observed_session_key, user_texts, value_to_key_fragment, SessionFingerprint,
};
use cache_diagnostics::json::{Json, Member};
use cache_diagnostics::observe::{is_enabled, observe, observe_gated, Diagnostics};
use cache_diagnostics::outcome::{observe_inner, observe_parsed, DiagnosticOutcome};
use cache_diagnostics::path::{DivergencePath, Step};
use cache_diagnostics::registry::Registry;
use cache_diagnostics::sanitize::{
    is_known_segment, log_path, render_path_segment, sanitize_path,
};
use cache_diagnostics::snapshot::Snapshot;
use cache_diagnostics::store::{
    effective_total_cap, retained_bytes, retained_session_count, Store, MAX_RETAINED_BYTES,
    MAX_SESSIONS, MAX_TOTAL_RETAINED_BYTES,
};
use sha2::{Digest, Sha256};

fn salt() -> Salt {
    Salt { bytes: [7u8; 32] }
}

fn text(s: &str) -> Json {
    Json::Text(s.to_string())
}

fn number(n: &str) -> Json {
    Json::Number(n.to_string())
}

fn object(members: Vec<(&str, Json)>) -> Json {
    Json::Object(
        members
            .into_iter()
            .map(|(key, value)| Member { key: key.to_string(), value })
            .collect(),
    )
}

fn array(items: Vec<Json>) -> Json {
    Json::Array(items)
}

/// The member under `key`, created where it is missing.
fn member<'a>(value: &'a mut Json, key: &str) -> &'a mut Json {
    match value {
        Json::Object(members) => {
            let at = match members.iter().position(|m| m.key == key) {
                Some(at) => at,
                None => {
                    members.push(Member { key: key.to_string(), value: Json::Null });
                    members.len() - 1
                }
            };
            &mut members[at].value
        }
        _ => panic!("no object"),
    }
}

fn to_value(value: &Json) -> serde_json::Value {
    match value {
        Json::Null => serde_json::Value::Null,
        Json::Bool(b) => serde_json::Value::Bool(*b),
        Json::Number(n) => serde_json::from_str(n).unwrap(),
        Json::Text(s) => serde_json::Value::String(s.clone()),
        Json::Array(items) => serde_json::Value::Array(items.iter().map(to_value).collect()),
        Json::Object(members) => serde_json::Value::Object(
            members.iter().map(|m| (m.key.clone(), to_value(&m.value))).collect(),
        ),
    }
}

fn ser(value: &Json) -> Vec<u8> {
    serde_json::to_vec(&to_value(value)).unwrap()
}

fn session_body(contents: Json) -> Json {
    object(vec![
        ("project", text("proj-1")),
        (
            "request",
            object(vec![
                (
                    "systemInstruction",
                    object(vec![("parts", array(vec![object(vec![("text", text("sys"))])]))]),
                ),
                ("tools", array(vec![])),
                ("generationConfig", object(vec![("temperature", number("1"))])),
                ("sessionId", number("12345")),
                ("contents", contents),
            ]),
        ),
        ("model", text("gemini-2.0-flash")),
        ("userAgent", text("antigravity")),
        ("requestId", text("req-1")),
    ])
}

fn text_content(role: &str, t: &str) -> Json {
    object(vec![("role", text(role)), ("parts", array(vec![object(vec![("text", text(t))])]))])
}

/// A session management that keeps every text and names the conversation after
/// its first one.
fn fingerprint(body: &Json) -> SessionFingerprint {
    let request = fingerprint_request(body);
    let session_id = match request.texts.first() {
        Some(first) => format!("sid-{first}"),
        None => String::new(),
    };
    SessionFingerprint { sanitized_texts: request.texts, session_id }
}

fn diagnostics() -> Diagnostics {
    Diagnostics { salt: salt(), store: Store::new(), registry: Registry::new() }
}

fn conversation(i: usize) -> Json {
    session_body(array(vec![text_content("user", &format!("conv {i}"))]))
}

fn observed(d: &mut Diagnostics, body: &Json) -> DiagnosticOutcome {
    observe_gated(
        d,
        false,
        &ser(body),
        body,
        "generateContent",
        Some("acct"),
        &fingerprint(body),
    )
    .outcome
}

fn hex_of(bytes: &[u8]) -> String {
    bytes.iter().map(|b| format!("{b:02x}")).collect()
}

#[test]
fn digests_are_sha256() {
    assert_eq!(
        full_sha256_hex(b"abc"),
        "ba7816bf8f01cfea414140de5dae2223b00361a396177a9cb410ff61f20015ad"
    );
    let mut input = salt().bytes.to_vec();
    input.extend_from_slice("käse".as_bytes());
    let expected: String = hex_of(&Sha256::digest(&input)).chars().take(16).collect();
    assert_eq!(short_hash(&salt(), "käse"), expected);
}

#[test]
fn salts_are_drawn_anew() {
    let a = process_salt();
    let b = process_salt();
    assert_ne!(a.bytes, b.bytes);
    assert_ne!(short_hash(&a, "x"), short_hash(&b, "x"));
}

#[test]
fn identities_are_salted_hashes() {
    assert_eq!(account_key(&salt(), Some("me")), short_hash(&salt(), "acct=me"));
    assert_eq!(account_key(&salt(), None), short_hash(&salt(), "acct=none"));
    let inside = object(vec![("request", object(vec![("sessionId", number("12"))]))]);
    assert_eq!(
        observed_session_key(&salt(), &inside),
        Some(short_hash(&salt(), "sess=12"))
    );
    let beside = object(vec![("request", object(vec![])), ("sessionId", text("s"))]);
    assert_eq!(observed_session_key(&salt(), &beside), Some(short_hash(&salt(), "sess=s")));
    assert_eq!(observed_session_key(&salt(), &object(vec![])), None);
    assert_eq!(value_to_key_fragment(&Json::Null), "null");
    assert_eq!(value_to_key_fragment(&array(vec![text("a")])), "[\"a\"]");
}

#[test]
fn user_texts_are_collected_in_order() {
    let body = session_body(array(vec![
        text_content("user", "one"),
        text_content("model", "not this"),
        object(vec![("role", text("user"))]),
        object(vec![
            ("role", text("user")),
            (
                "parts",
                array(vec![
                    object(vec![("inlineData", Json::Null)]),
                    object(vec![("text", text("two"))]),
                ]),
            ),
        ]),
    ]));
    assert_eq!(user_texts(inner_request(&body)), vec!["one".to_string(), "two".to_string()]);
    let request = fingerprint_request(&body);
    assert_eq!(request.texts, vec!["one".to_string(), "two".to_string()]);
    assert_eq!(request.model, "gemini-2.0-flash");
    assert_eq!(fingerprint_request(&Json::Null).model, "");
}

#[test]
fn anchor_needs_two_bytes_of_sanitized_text() {
    let body = session_body(array(vec![text_content("user", "a"), text_content("user", "b")]));
    let inner = inner_request(&body);
    let anchored = |texts: Vec<&str>| {
        has_conversation_anchor(inner, &texts.into_iter().map(|t| t.to_string()).collect())
    };
    assert!(!anchored(vec!["", "b"]));
    assert!(anchored(vec!["", "é"]));
    assert!(anchored(vec!["ab", ""]));
    assert!(!anchored(vec!["", "", "more than the request has"]));
}

#[test]
fn environment_fingerprint_covers_seven_fields() {
    let body = session_body(array(vec![]));
    let mut input = salt().bytes.to_vec();
    input.extend_from_slice(b"env");
    input.extend_from_slice(b"\"proj-1\"\0\"gemini-2.0-flash\"\0\"antigravity\"\0\0");
    input.extend_from_slice(b"{\"parts\":[{\"text\":\"sys\"}]}\0\0[]\0");
    let expected = hex_of(&Sha256::digest(&input));
    assert_eq!(env_fingerprint(&salt(), &body, inner_request(&body)), expected);
    let trajectory = derive_trajectory(&salt(), &body, &fingerprint(&body));
    assert_eq!(trajectory.source, "environment_fallback");
    assert_eq!(trajectory.id, short_hash(&salt(), &format!("traj|{expected}")));
}

#[test]
fn trajectory_follows_the_conversation() {
    let a = conversation(1);
    let mut b = conversation(1);
    *member(member(&mut b, "request"), "sessionId") = text("other");
    *member(&mut b, "requestId") = text("other");
    let first = derive_trajectory(&salt(), &a, &fingerprint(&a));
    let second = derive_trajectory(&salt(), &b, &fingerprint(&b));
    assert_eq!(first.id, second.id);
    assert_eq!(first.source, "content_seed");
    assert_eq!(first.id, short_hash(&salt(), "traj|sid-conv 1"));
    let c = conversation(2);
    assert_ne!(derive_trajectory(&salt(), &c, &fingerprint(&c)).id, first.id);
}

#[test]
fn eviction_takes_the_oldest_first() {
    let mut d = diagnostics();
    for i in 0..MAX_SESSIONS {
        observed(&mut d, &conversation(i));
    }
    // The first conversation goes on, so that the second is now the oldest.
    let mut longer = conversation(0);
    *member(&mut longer, "requestId") = text("next turn");
    assert_eq!(observed(&mut d, &longer).classification, "REQUEST_ID_ONLY");
    observed(&mut d, &conversation(MAX_SESSIONS));
    assert_eq!(retained_session_count(&d.store), MAX_SESSIONS);
    assert_eq!(observed(&mut d, &longer).classification, "DEDUPED");
    assert_eq!(observed(&mut d, &conversation(2)).classification, "DEDUPED");
    assert_eq!(observed(&mut d, &conversation(MAX_SESSIONS)).classification, "DEDUPED");
    assert_eq!(observed(&mut d, &conversation(1)).classification, "NEW_SESSION");
}

#[test]
fn bytes_are_accounted_for() {
    let mut d = diagnostics();
    let a = conversation(1);
    let b = conversation(2);
    observed(&mut d, &a);
    assert_eq!(retained_bytes(&d.store), ser(&a).len());
    observed(&mut d, &b);
    assert_eq!(retained_bytes(&d.store), ser(&a).len() + ser(&b).len());
    let mut longer = conversation(1);
    *member(&mut longer, "requestId") = text("a request id of another length");
    observed(&mut d, &longer);
    assert_eq!(retained_bytes(&d.store), ser(&longer).len() + ser(&b).len());
    assert_eq!(retained_session_count(&d.store), 2);
}

#[test]
fn byte_ceiling_keeps_the_newest() {
    let one = ser(&conversation(1)).len();
    let mut d = diagnostics();
    d.store = Store::with_total_cap(2 * one);
    for i in 1..=3 {
        observed(&mut d, &conversation(i));
    }
    assert_eq!(retained_session_count(&d.store), 2);
    assert_eq!(retained_bytes(&d.store), 2 * one);
    assert_eq!(observed(&mut d, &conversation(3)).classification, "DEDUPED");
    assert_eq!(observed(&mut d, &conversation(2)).classification, "DEDUPED");
    assert_eq!(observed(&mut d, &conversation(1)).classification, "NEW_SESSION");

    // A ceiling below one body leaves nothing.
    d.store = Store::with_total_cap(one - 1);
    observed(&mut d, &conversation(1));
    assert_eq!(retained_session_count(&d.store), 0);
    assert_eq!(retained_bytes(&d.store), 0);
    assert_eq!(effective_total_cap(0), MAX_TOTAL_RETAINED_BYTES);
    assert_eq!(effective_total_cap(7), 7);
}

#[test]
fn oversized_body_is_compared_but_takes_no_place() {
    let mut d = diagnostics();
    let small = conversation(1);
    observed(&mut d, &small);
    let mut big = conversation(1);
    *member(&mut big, "requestId") = text(&"z".repeat(MAX_RETAINED_BYTES));
    let out = observed(&mut d, &big);
    assert_eq!(out.classification, "REQUEST_ID_ONLY");
    assert_eq!(out.previous_bytes, Some(ser(&small).len()));
    assert_eq!(retained_bytes(&d.store), ser(&small).len());
    assert_eq!(observed(&mut d, &small).classification, "DEDUPED");
}

#[test]
fn changes_are_since_the_previous_call() {
    let mut d = diagnostics();
    let mut call = |bytes: &[u8], body: &Json, account: &str| {
        observe_gated(&mut d, false, bytes, body, "m", Some(account), &fingerprint(body)).outcome
    };
    let empty = object(vec![]);
    let first = call(b"{}", &empty, "a1");
    assert_eq!(first.classification, "NEW_SESSION");
    let repeat = call(b"{}", &empty, "a2");
    assert_eq!(repeat.classification, "DEDUPED");
    assert!(repeat.account_changed);
    let next = object(vec![("requestId", text("a"))]);
    let third = call(br#"{"requestId":"a"}"#, &next, "a2");
    assert_eq!(third.trajectory_key, first.trajectory_key);
    assert_eq!(third.classification, "REQUEST_ID_ONLY");
    assert!(!third.account_changed);
    let again = call(br#"{"requestId":"a"}"#, &next, "a2");
    assert_eq!(again.classification, "DEDUPED");
    assert!(!again.account_changed);
    let with_session = object(vec![("requestId", text("a")), ("sessionId", text("s"))]);
    assert!(call(br#"{"requestId":"a"}"#, &with_session, "a2").session_changed);
    assert!(!call(br#"{"requestId":"a"}"#, &with_session, "a2").session_changed);
    assert_eq!(retained_session_count(&d.store), 1);
    assert_eq!(retained_bytes(&d.store), br#"{"requestId":"a"}"#.len());
}

#[test]
fn repetition_makes_no_younger() {
    let mut d = diagnostics();
    for i in 0..MAX_SESSIONS {
        observed(&mut d, &conversation(i));
    }
    assert_eq!(observed(&mut d, &conversation(0)).classification, "DEDUPED");
    observed(&mut d, &conversation(MAX_SESSIONS));
    assert_eq!(observed(&mut d, &conversation(1)).classification, "DEDUPED");
    assert_eq!(observed(&mut d, &conversation(0)).classification, "NEW_SESSION");
}

#[test]
fn sequence_counts_every_observation() {
    let mut d = diagnostics();
    let body = conversation(1);
    assert_eq!(observed(&mut d, &body).observation_seq, 0);
    assert_eq!(observed(&mut d, &body).observation_seq, 1);
    assert_eq!(observed(&mut d, &conversation(2)).observation_seq, 2);
    // Disabled, nothing is counted.
    let none = observe(
        &mut d,
        false,
        &ser(&body),
        &body,
        "generateContent",
        None,
        &fingerprint(&body),
    );
    assert!(none.is_none());
    assert_eq!(observed(&mut d, &body).observation_seq, 3);
}

#[test]
fn previous_bytes_that_do_not_parse() {
    let body = conversation(1);
    let bytes = b"{\"project\":\"proj-1\",".to_vec();
    let prev = Snapshot {
        sha256_hex: full_sha256_hex(&bytes),
        bytes: bytes.clone(),
        seq: 1,
        account_key: account_key(&salt(), Some("acct")),
        session_key: None,
    };
    let trajectory = derive_trajectory(&salt(), &body, &fingerprint(&body));
    let out = observe_inner(
        &salt(),
        Some(&prev),
        &ser(&body),
        &body,
        "m",
        Some("acct"),
        &trajectory,
        5,
    );
    assert_eq!(out.classification, "PREVIOUS_PARSE_ERROR");
    assert_eq!(out.first_divergence.as_ref().map(|p| p.text()).as_deref(), Some(""));
    assert_eq!(out.lcp_bytes, Some(bytes.len()));
    assert_eq!(out.estimated_lcp_tokens, Some(bytes.len() / 4));
    assert!(out.session_changed);
    assert!(!out.account_changed);
    assert!(out.format_line(&salt(), None).contains(" first_divergence=none "));
}

#[test]
fn lines_are_exact() {
    let prev = conversation(1);
    let mut curr = conversation(1);
    *member(member(&mut curr, "request"), "custom") = text("x");
    let bytes = ser(&prev);
    let snapshot = Snapshot {
        sha256_hex: full_sha256_hex(&bytes),
        bytes: bytes.clone(),
        seq: 0,
        account_key: account_key(&salt(), None),
        session_key: observed_session_key(&salt(), &prev),
    };
    let trajectory = derive_trajectory(&salt(), &curr, &fingerprint(&curr));
    let now = ser(&curr);
    let out = observe_parsed(
        &salt(),
        Some(&snapshot),
        Some(&prev),
        &now,
        &curr,
        "streamGenerateContent",
        Some("a"),
        &trajectory,
        9,
    );
    let lcp = bytes.iter().zip(now.iter()).take_while(|(x, y)| x == y).count();
    assert_eq!(out.lcp_percent_operands(), Some((lcp, now.len(), bytes.len())));
    let expected = format!(
        "[CACHE-DIAG] trajectory={} trajectory_source=content_seed ordering=arrival account={} account_changed=true session={} session_changed=false method=streamGenerateContent obs_seq=9 current_bytes={} previous_bytes={} lcp_bytes={} lcp_percent=12.34 estimated_lcp_tokens={} first_diff_offset={} first_divergence=request.<key:{}> classification=UNKNOWN signature_transition=none",
        short_hash(&salt(), "traj|sid-conv 1"),
        short_hash(&salt(), "acct=a"),
        short_hash(&salt(), "sess=12345"),
        now.len(),
        bytes.len(),
        lcp,
        lcp / 4,
        lcp,
        short_hash(&salt(), "path|custom"),
    );
    assert_eq!(out.format_line(&salt(), Some("12.34")), expected);
}

#[test]
fn new_session_line_has_no_comparison() {
    let mut d = diagnostics();
    let body = object(vec![]);
    let out = observe_gated(&mut d, true, b"{}", &body, "m", None, &fingerprint(&body));
    assert!(out.signature_lines.is_empty());
    assert_eq!(out.outcome.lcp_percent_operands(), None);
    let line = out.outcome.format_line(&salt(), None);
    assert!(line.contains(" session=none session_changed=false method=m obs_seq=0 "));
    assert!(line.ends_with(
        " current_bytes=2 previous_bytes=none lcp_bytes=none lcp_percent=none estimated_lcp_tokens=none first_diff_offset=none first_divergence=none classification=NEW_SESSION signature_transition=none"
    ));
}

#[test]
fn paths_show_protocol_names_and_indices_only() {
    let hash = |segment: &str| format!("<key:{}>", short_hash(&salt(), &format!("path|{segment}")));
    assert_eq!(
        sanitize_path(&salt(), "request.contents[12].parts[0].functionCall.args"),
        "request.contents[12].parts[0].functionCall.args"
    );
    assert_eq!(sanitize_path(&salt(), ""), "");
    assert_eq!(sanitize_path(&salt(), "12"), hash("12"));
    assert_eq!(sanitize_path(&salt(), "a[b].tools"), format!("{}[{}].tools", hash("a"), hash("b")));
    assert_eq!(sanitize_path(&salt(), "..]["), "..][");
    assert_eq!(sanitize_path(&salt(), "[1.2]"), format!("[{}.2]", hash("1")));
    assert_eq!(sanitize_path(&salt(), "1]"), format!("{}]", hash("1")));
    assert_eq!(sanitize_path(&salt(), r"a\b.tools"), format!("{}.tools", hash(r"a\b")));
    assert_eq!(render_path_segment(&salt(), "7", true), "7");
    assert_eq!(render_path_segment(&salt(), "7", false), hash("7"));
    assert!(is_known_segment("cached_content"));
    assert!(!is_known_segment("custom"));
}

#[test]
fn user_keys_are_logged_as_a_whole() {
    let mut d = diagnostics();
    let body = |n: &str| {
        object(vec![(
            "a[42].project",
            object(vec![(r"b\c", array(vec![object(vec![("tools", number(n))])]))]),
        )])
    };
    observed(&mut d, &body("1"));
    let out = observed(&mut d, &body("2"));
    assert_eq!(out.classification, "UNKNOWN");
    assert_eq!(out.first_divergence.as_ref().unwrap().text(), r"a[42].project.b\c[0].tools");
    let hash = |key: &str| short_hash(&salt(), &format!("path|{key}"));
    let expected = format!(
        " first_divergence=<key:{}>.<key:{}>[0].tools ",
        hash("a[42].project"),
        hash(r"b\c")
    );
    let line = out.format_line(&salt(), None);
    assert!(line.contains(&expected), "{line}");
}

#[test]
fn plain_paths_are_logged_as_sanitized() {
    let path = DivergencePath {
        base: "request.contents[0]".to_string(),
        steps: vec![Step::Key("custom".to_string()), Step::Index(7), Step::Key("args".to_string())],
    };
    assert_eq!(path.text(), "request.contents[0].custom[7].args");
    assert_eq!(log_path(&salt(), &path), sanitize_path(&salt(), &path.text()));
    let known = DivergencePath::known("request.tools.SECRET".to_string());
    assert_eq!(log_path(&salt(), &known), sanitize_path(&salt(), "request.tools.SECRET"));
}

#[test]
fn flag_is_exact() {
    assert!(is_enabled(Some("1")));
    assert!(!is_enabled(Some("true")));
    assert!(!is_enabled(Some("")));
    assert!(!is_enabled(None));
}
