use cache_diagnostics::classify::{
    classify_diff, classify_difference, dotted_get, region_diff_path,
};
use cache_diagnostics::divergence::{first_divergence_path, first_divergence_path_inner};
use cache_diagnostics::history::{
    contents_array, is_args_truncation_sentinel, is_real_signature,
    is_tool_output_truncation_sentinel, signature_kind, signature_transition_enum, SignatureKind,
    ARGS_TRUNCATION_TEXT, SENTINEL_SIGNATURE,
};
use cache_diagnostics::json::{json_equal, opt_equal, Json, Member};
use cache_diagnostics::json_text::to_json_text;
use cache_diagnostics::masked::{equal_except, path_is_ignored, PathStep};
use cache_diagnostics::parse::{parse_json, to_json};
use cache_diagnostics::path::{join_index, join_path, DivergencePath};
use cache_diagnostics::prefix::longest_common_prefix;
use cache_diagnostics::scan::{
    scan_historical_content_diffs, signature_divergence, signature_transition,
};
use cache_diagnostics::text::{chars_of, str_eq, to_bool_text, to_decimal, to_hex};

fn text(s: &str) -> Json {
    Json::Text(s.to_string())
}

fn number(n: &str) -> Json {
    Json::Number(n.to_string())
}

fn object(members: Vec<(&str, Json)>) -> Json {
    Json::Object(
        members
            .into_iter()
            .map(|(key, value)| Member { key: key.to_string(), value })
            .collect(),
    )
}

fn array(items: Vec<Json>) -> Json {
    Json::Array(items)
}

fn copy(value: &Json) -> Json {
    match value {
        Json::Null => Json::Null,
        Json::Bool(b) => Json::Bool(*b),
        Json::Number(n) => Json::Number(n.clone()),
        Json::Text(s) => Json::Text(s.clone()),
        Json::Array(items) => Json::Array(items.iter().map(copy).collect()),
        Json::Object(members) => Json::Object(
            members
                .iter()
                .map(|m| Member { key: m.key.clone(), value: copy(&m.value) })
                .collect(),
        ),
    }
}

/// The member under `key`, created where it is missing.
fn member<'a>(value: &'a mut Json, key: &str) -> &'a mut Json {
    match value {
        Json::Object(members) => {
            let at = match members.iter().position(|m| m.key == key) {
                Some(at) => at,
                None => {
                    members.push(Member { key: key.to_string(), value: Json::Null });
                    members.len() - 1
                }
            };
            &mut members[at].value
        }
        _ => panic!("no object"),
    }
}

fn item(value: &mut Json, index: usize) -> &mut Json {
    match value {
        Json::Array(items) => &mut items[index],
        _ => panic!("no array"),
    }
}

fn first_part(body: &mut Json) -> &mut Json {
    let contents = member(member(body, "request"), "contents");
    item(member(item(contents, 0), "parts"), 0)
}

fn session_body(contents: Json) -> Json {
    object(vec![
        ("project", text("proj-1")),
        (
            "request",
            object(vec![
                (
                    "systemInstruction",
                    object(vec![("parts", array(vec![object(vec![("text", text("sys"))])]))]),
                ),
                ("tools", array(vec![])),
                ("generationConfig", object(vec![("temperature", number("1"))])),
                ("sessionId", number("12345")),
                ("contents", contents),
            ]),
        ),
        ("model", text("gemini-2.0-flash")),
        ("userAgent", text("antigravity")),
        ("requestId", text("req-1")),
    ])
}

fn text_content(role: &str, t: &str) -> Json {
    object(vec![("role", text(role)), ("parts", array(vec![object(vec![("text", text(t))])]))])
}


fn parsed(source: &str) -> Json {
    parse_json(source.as_bytes()).unwrap()
}

#[test]
fn equality_is_an_equivalence() {
    let a = parsed(r#"{"a": [1, {"b": null}], "c": -0.0}"#);
    let b = parsed(r#"{"c": 0.0, "a": [1, {"b": null}]}"#);
    let c = parsed(r#"{"c": -0.0, "a": [1, {"b": null}]}"#);
    assert!(json_equal(&a, &a));
    assert!(json_equal(&a, &b));
    assert!(json_equal(&b, &a));
    assert!(json_equal(&b, &c));
    assert!(json_equal(&a, &c));
    assert!(opt_equal(None, None));
    assert!(opt_equal(Some(&a), Some(&b)));
    assert!(!opt_equal(Some(&a), None));
}

#[test]
fn equality_tells_kinds_of_value_apart() {
    assert!(!json_equal(&number("1"), &number("1.0")));
    assert!(!json_equal(&number("1"), &text("1")));
    assert!(!json_equal(&Json::Null, &Json::Bool(false)));
    assert!(!json_equal(&array(vec![]), &object(vec![])));
    assert!(!json_equal(&array(vec![Json::Null]), &array(vec![])));
    assert!(!json_equal(&object(vec![("a", Json::Null)]), &object(vec![])));
    assert!(!json_equal(&object(vec![]), &object(vec![("a", Json::Null)])));
}

#[test]
fn no_divergence_iff_equal() {
    let a = parsed(r#"{"a": [1, 2], "b": {"c": true}}"#);
    let reordered = parsed(r#"{"b": {"c": true}, "a": [1, 2]}"#);
    assert_eq!(first_divergence_path(&a, &reordered), None);
    let changed = parsed(r#"{"b": {"c": false}, "a": [1, 2]}"#);
    assert_eq!(first_divergence_path(&a, &changed).as_deref(), Some("b.c"));
    let shorter = parsed(r#"{"b": {"c": true}, "a": [1]}"#);
    assert_eq!(first_divergence_path(&a, &shorter).as_deref(), Some("a[1]"));
    let extra = parsed(r#"{"b": {"c": true}, "a": [1, 2], "z": 0}"#);
    assert_eq!(first_divergence_path(&a, &extra).as_deref(), Some("z"));
    assert_eq!(first_divergence_path(&extra, &a).as_deref(), Some("z"));
    assert_eq!(first_divergence_path(&Json::Null, &Json::Null), None);
    assert_eq!(first_divergence_path(&Json::Null, &a).as_deref(), Some(""));
}

#[test]
fn divergence_lies_under_its_root() {
    let a = parsed(r#"{"x": [{"y": 1}]}"#);
    let b = parsed(r#"{"x": [{"y": 2}]}"#);
    assert_eq!(
        first_divergence_path_inner("request.tools", &a, &b).as_deref(),
        Some("request.tools.x[0].y")
    );
    assert_eq!(
        region_diff_path(
            &object(vec![("project", a)]),
            &object(vec![("project", b)]),
            "project"
        )
        .as_deref(),
        Some("project.x[0].y")
    );
}

#[test]
fn region_that_appears_or_goes_is_reported_at_its_root() {
    let with = parsed(r#"{"request": {"tools": []}}"#);
    let without = parsed(r#"{"request": {}}"#);
    assert_eq!(
        region_diff_path(&with, &without, "request.tools").as_deref(),
        Some("request.tools")
    );
    assert_eq!(
        region_diff_path(&without, &with, "request.tools").as_deref(),
        Some("request.tools")
    );
    assert_eq!(region_diff_path(&without, &without, "request.tools"), None);
    assert_eq!(region_diff_path(&with, &with, "request.tools"), None);
    assert!(dotted_get(&with, "request.tools").is_some());
    assert!(dotted_get(&with, "request.tools.x").is_none());
    assert!(dotted_get(&with, "tools").is_none());
}

#[test]
fn without_ignored_paths_equality_is_plain() {
    let a = parsed(r#"{"a": [1, {"b": 2}]}"#);
    let b = parsed(r#"{"a": [1, {"b": 3}]}"#);
    let root: Vec<PathStep> = vec![];
    let none: Vec<Vec<&str>> = vec![];
    assert!(equal_except(&a, &a, &root, &none));
    assert!(!equal_except(&a, &b, &root, &none));
    assert!(equal_except(&a, &b, &root, &vec![vec!["a"]]));
    assert!(!equal_except(&a, &b, &root, &vec![vec!["b"]]));
}

#[test]
fn ignored_paths_are_exact() {
    let ignored = vec![vec!["requestId"], vec!["request", "contents"]];
    assert!(path_is_ignored(&vec![PathStep::Key("requestId")], &ignored));
    assert!(path_is_ignored(
        &vec![PathStep::Key("request"), PathStep::Key("contents"), PathStep::Index(3)],
        &ignored
    ));
    assert!(!path_is_ignored(&vec![PathStep::Key("request")], &ignored));
    assert!(!path_is_ignored(&vec![PathStep::Key("request.contents")], &ignored));
    assert!(!path_is_ignored(&vec![PathStep::Key("requestId.x")], &ignored));
    assert!(!path_is_ignored(
        &vec![PathStep::Index(0), PathStep::Key("requestId")],
        &ignored
    ));
}

#[test]
fn request_id_only_hides_nothing_else() {
    let prev = parsed(r#"{"requestId": "a", "requestId.x": 1}"#);
    let curr = parsed(r#"{"requestId": "b", "requestId.x": 1}"#);
    assert_eq!(classify_diff(&prev, &curr), ("requestId".to_string(), "REQUEST_ID_ONLY"));
    let other = parsed(r#"{"requestId": "b", "requestId.x": 2}"#);
    assert_eq!(classify_diff(&prev, &other), ("requestId".to_string(), "UNKNOWN"));
    let appeared = parsed(r#"{"requestId.x": 1}"#);
    assert_eq!(classify_diff(&prev, &appeared), ("requestId".to_string(), "REQUEST_ID_ONLY"));
}

#[test]
fn append_only_hides_nothing_else() {
    let prev = session_body(array(vec![text_content("user", "hi")]));
    let longer =
        session_body(array(vec![text_content("user", "hi"), text_content("model", "yo")]));
    assert_eq!(classify_diff(&prev, &longer).1, "CONTENT_APPEND_ONLY");

    let mut edited = copy(&longer);
    *member(&mut edited, "other") = number("1");
    assert_eq!(classify_diff(&prev, &edited), ("request.contents[1]".to_string(), "UNKNOWN"));

    let mut rewritten = copy(&longer);
    *member(first_part(&mut rewritten), "text") = text("hey");
    assert_eq!(
        classify_diff(&prev, &rewritten),
        ("request.contents[0].parts[0].text".to_string(), "UNKNOWN")
    );

    // Contents that shrink are no append.
    assert_eq!(classify_diff(&longer, &prev), ("request.contents[1]".to_string(), "UNKNOWN"));
}

#[test]
fn identical_bodies_have_no_path() {
    let prev = parsed(r#"{"a": 1, "b": 2}"#);
    let curr = parsed(r#"{"b": 2, "a": 1}"#);
    assert_eq!(classify_diff(&prev, &curr), (String::new(), "IDENTICAL"));
}

#[test]
fn earlier_regions_take_precedence() {
    let order = [
        ("project", "ACCOUNT_PROJECT_CHANGE"),
        ("model", "MODEL_CHANGE"),
        ("userAgent", "USER_AGENT_CHANGE"),
        ("request.systemInstruction", "SYSTEM_INSTRUCTION_CHANGE"),
        ("request.tools", "TOOL_DEFINITION_CHANGE"),
        ("request.toolConfig", "TOOL_DEFINITION_CHANGE"),
        ("request.tool_config", "TOOL_DEFINITION_CHANGE"),
        ("request.generationConfig", "GENERATION_CONFIG_CHANGE"),
        ("request.generation_config", "GENERATION_CONFIG_CHANGE"),
        ("request.sessionId", "SESSION_ID_CHANGE"),
        ("request.session_id", "SESSION_ID_CHANGE"),
        ("sessionId", "SESSION_ID_CHANGE"),
        ("session_id", "SESSION_ID_CHANGE"),
    ];
    let prev = session_body(array(vec![text_content("user", "hi")]));
    let mut curr = copy(&prev);
    // From the last region to the first: each new change takes over.
    for (path, class) in order.iter().rev() {
        let mut at = &mut curr;
        for segment in path.split('.') {
            at = member(at, segment);
        }
        *at = text("changed");
        assert_eq!(classify_diff(&prev, &curr), (path.to_string(), *class));
    }
}

#[test]
fn findings_are_reported_at_their_first_place() {
    let call = |args: &str, result: &str| {
        object(vec![
            ("role", text("model")),
            (
                "parts",
                array(vec![
                    object(vec![("text", text("-"))]),
                    object(vec![
                        (
                            "function_call",
                            object(vec![("args", object(vec![("k", text(args))]))]),
                        ),
                        (
                            "function_response",
                            object(vec![(
                                "response",
                                object(vec![("result", object(vec![("r", text(result))]))]),
                            )]),
                        ),
                    ]),
                ]),
            ),
        ])
    };
    let prev = session_body(array(vec![
        text_content("user", "q"),
        call("a", "x"),
        call("a", "x"),
        text_content("user", "next"),
    ]));
    let curr = session_body(array(vec![
        text_content("user", "q"),
        call("b", "x"),
        call("b", "y"),
        text_content("user", "next"),
    ]));
    let diffs = scan_historical_content_diffs(&prev, &curr);
    let text_of = |path: &Option<DivergencePath>| path.as_ref().map(|p| p.text());
    assert_eq!(
        text_of(&diffs.args_change).as_deref(),
        Some("request.contents[1].parts[1].functionCall.args.k")
    );
    assert_eq!(
        text_of(&diffs.output_change).as_deref(),
        Some("request.contents[2].parts[1].functionResponse.response.result.r")
    );
    assert!(diffs.args_trunc.is_none());
    assert!(diffs.output_trunc.is_none());
    assert_eq!(classify_diff(&prev, &curr).1, "HISTORICAL_TOOL_ARGS_CHANGE");
}

#[test]
fn last_content_is_no_history() {
    let body = |args: &str| {
        session_body(array(vec![object(vec![(
            "parts",
            array(vec![object(vec![(
                "functionCall",
                object(vec![("args", object(vec![("k", text(args))]))]),
            )])]),
        )])]))
    };
    let diffs = scan_historical_content_diffs(&body("a"), &body("b"));
    assert!(diffs.args_change.is_none());
    assert_eq!(classify_diff(&body("a"), &body("b")).1, "UNKNOWN");
}

#[test]
fn tool_output_edit_is_classified() {
    let body = |result: &str| {
        session_body(array(vec![
            object(vec![(
                "parts",
                array(vec![object(vec![(
                    "functionResponse",
                    object(vec![("response", object(vec![("result", text(result))]))]),
                )])]),
            )]),
            text_content("user", "next"),
        ]))
    };
    assert_eq!(
        classify_diff(&body("one"), &body("two")),
        (
            "request.contents[0].parts[0].functionResponse.response.result".to_string(),
            "HISTORICAL_TOOL_OUTPUT_CHANGE"
        )
    );
    // The marker that gives way to output is an edit.
    let marker = "[Tool output truncated to save context. Original length: 3]";
    assert_eq!(classify_diff(&body(marker), &body("two")).1, "HISTORICAL_TOOL_OUTPUT_CHANGE");
    assert_eq!(classify_diff(&body("two"), &body(marker)).1, "HISTORICAL_TOOL_OUTPUT_TRUNCATION");
}

#[test]
fn markers_are_exact() {
    let marker = |n: u64| {
        let mut s = "[Tool output truncated to save context. Original length: ".to_string();
        s.push_str(&to_decimal(n));
        s.push(']');
        text(&s)
    };
    for n in [0, 7, 400, u64::MAX] {
        assert!(is_tool_output_truncation_sentinel(&marker(n)));
    }
    assert!(!is_tool_output_truncation_sentinel(&text(
        "[Tool output truncated to save context. Original length: ]"
    )));
    assert!(!is_tool_output_truncation_sentinel(&number("12")));
    assert!(!is_tool_output_truncation_sentinel(&text("")));
    assert!(is_args_truncation_sentinel(&object(vec![(
        "_truncated",
        text(ARGS_TRUNCATION_TEXT)
    )])));
    assert!(!is_args_truncation_sentinel(&object(vec![("_truncated", Json::Bool(true))])));
    assert!(!is_args_truncation_sentinel(&text(ARGS_TRUNCATION_TEXT)));
}

#[test]
fn signature_kinds() {
    let real = "s".repeat(50);
    assert!(is_real_signature(&real));
    assert!(!is_real_signature(&"s".repeat(49)));
    // Two bytes a character.
    assert!(is_real_signature(&"é".repeat(25)));
    assert!(!is_real_signature(SENTINEL_SIGNATURE));
    assert!(signature_kind(None) == SignatureKind::Missing);
    assert!(signature_kind(Some(&Json::Null)) == SignatureKind::Missing);
    assert!(signature_kind(Some(&text(SENTINEL_SIGNATURE))) == SignatureKind::Sentinel);
    assert!(signature_kind(Some(&text(&real))) == SignatureKind::Real);
    assert!(signature_kind(Some(&text("s"))) == SignatureKind::Unknown);
    assert!(signature_kind(Some(&number("1"))) == SignatureKind::Unknown);
    assert_eq!(
        signature_transition_enum(SignatureKind::Sentinel, SignatureKind::Sentinel),
        "UNKNOWN_SIGNATURE_TRANSITION"
    );
    assert_eq!(
        signature_transition_enum(SignatureKind::Missing, SignatureKind::Missing),
        "UNKNOWN_SIGNATURE_TRANSITION"
    );
}

#[test]
fn sentinels_never_differ() {
    let body = |signature: &str| {
        session_body(array(vec![object(vec![(
            "parts",
            array(vec![object(vec![(
                "function_call",
                object(vec![("thoughtSignature", text(signature))]),
            )])]),
        )])]))
    };
    let sentinel = body(SENTINEL_SIGNATURE);
    assert_eq!(signature_transition(&sentinel, &body(SENTINEL_SIGNATURE)), "none");
    assert_eq!(
        classify_diff(&sentinel, &body("x")),
        (
            "request.contents[0].parts[0].functionCall.thoughtSignature".to_string(),
            "THINKING_SIGNATURE_CHANGE"
        )
    );
    assert_eq!(signature_transition(&sentinel, &body("x")), "UNKNOWN_SIGNATURE_TRANSITION");
}

#[test]
fn nested_signatures_count_in_both_spellings() {
    let prev = parsed(r#"{"request":{"contents":[{"parts":[{"functionCall":{"name":"f"}}]}]}}"#);
    let curr = |key: &str, signature: &str| {
        object(vec![(
            "request",
            object(vec![(
                "contents",
                array(vec![object(vec![(
                    "parts",
                    array(vec![object(vec![(
                        "functionCall",
                        object(vec![("name", text("f")), (key, text(signature))]),
                    )])]),
                )])]),
            )]),
        )])
    };
    let found = signature_divergence(&prev, &curr("thought_signature", SENTINEL_SIGNATURE));
    assert_eq!(
        found,
        Some((
            "request.contents[0].parts[0].functionCall.thought_signature".to_string(),
            "MISSING_TO_SENTINEL"
        ))
    );
    let found = signature_divergence(&prev, &curr("thoughtSignature", SENTINEL_SIGNATURE));
    assert_eq!(
        found,
        Some((
            "request.contents[0].parts[0].functionCall.thoughtSignature".to_string(),
            "MISSING_TO_SENTINEL"
        ))
    );
}

#[test]
fn only_a_list_of_contents_is_appended_to() {
    let body = |contents: Json| {
        object(vec![("request", object(vec![("contents", contents)]))])
    };
    let curr = body(array(vec![text_content("user", "hi")]));
    for contents in [text("hi"), Json::Null, object(vec![])] {
        assert_eq!(
            classify_diff(&body(contents), &curr),
            ("request.contents".to_string(), "UNKNOWN")
        );
    }
    assert_eq!(classify_diff(&body(array(vec![])), &curr).1, "CONTENT_APPEND_ONLY");
    let none = object(vec![("request", object(vec![]))]);
    assert_eq!(
        classify_diff(&none, &curr),
        ("request.contents[0]".to_string(), "CONTENT_APPEND_ONLY")
    );
}

#[test]
fn keys_stand_in_paths_as_they_are() {
    assert_eq!(join_path("", "a.b"), "a.b");
    assert_eq!(join_path("x", r"a\b"), r"x.a\b");
    assert_eq!(join_index("x", 3), "x[3]");
    let a = parsed(r#"{"a[42].b": {"c\\d": [1]}}"#);
    let b = parsed(r#"{"a[42].b": {"c\\d": [2]}}"#);
    assert_eq!(first_divergence_path(&a, &b).as_deref(), Some(r"a[42].b.c\d[0]"));
    assert_eq!(first_divergence_path(&a, &parsed("{}")).as_deref(), Some("a[42].b"));
    assert_eq!(classify_diff(&a, &b), (r"a[42].b.c\d[0]".to_string(), "UNKNOWN"));
    let (path, class) = classify_difference(&a, &b);
    assert_eq!(class, "UNKNOWN");
    assert_eq!(path.base, "");
    assert_eq!(path.steps.len(), 3);
    assert_eq!(path.text(), r"a[42].b.c\d[0]");
    // A step under the empty key starts the path anew.
    let c = parsed(r#"{"": {"k": 1}}"#);
    let d = parsed(r#"{"": {"k": 2}}"#);
    assert_eq!(first_divergence_path(&c, &d).as_deref(), Some("k"));
}

#[test]
fn contents_are_empty_where_there_are_none() {
    assert_eq!(contents_array(&Json::Null).len(), 0);
    assert_eq!(contents_array(&parsed(r#"{"request": {"contents": 1}}"#)).len(), 0);
    assert_eq!(contents_array(&parsed(r#"{"contents": [1]}"#)).len(), 0);
    assert_eq!(contents_array(&parsed(r#"{"request": {"contents": [1, 2]}}"#)).len(), 2);
}

#[test]
fn prefix_laws() {
    assert_eq!(longest_common_prefix(b"abcd", b"abxd"), longest_common_prefix(b"abxd", b"abcd"));
    assert_eq!(longest_common_prefix(b"abc", b"abcdef"), 3);
    assert_eq!(longest_common_prefix(b"abc", b"abc"), 3);
}

#[test]
fn parsing_keeps_order_and_number_texts() {
    let value = parsed(r#" {"z": 1, "a": [1.50, -0.0, 1e2, true, null, "x"], "m": {"k": -7}} "#);
    assert_eq!(
        to_json_text(&value),
        r#"{"z":1,"a":[1.5,-0.0,100.0,true,null,"x"],"m":{"k":-7}}"#
    );
    let taken_over = to_json(serde_json::from_str(r#"{"z": [1.50], "a": null}"#).unwrap());
    assert_eq!(to_json_text(&taken_over), r#"{"z":[1.5],"a":null}"#);
    // The last of two members under one key is kept.
    assert_eq!(to_json_text(&parsed(r#"{"a": 1, "a": 2}"#)), r#"{"a":2}"#);
}

#[test]
fn text_is_no_json() {
    assert!(parse_json(b"").is_none());
    assert!(parse_json(b"{").is_none());
    assert!(parse_json(b"{} x").is_none());
    assert!(parse_json(&[0xff]).is_none());
}

#[test]
fn json_text_escapes_strings() {
    let value = object(vec![("q\"uote", text("line\nbreak\u{1}"))]);
    assert_eq!(to_json_text(&value), "{\"q\\\"uote\":\"line\\nbreak\\u0001\"}");
    let all: String = (0u8..0x80).map(|b| b as char).chain("é\u{2028}".chars()).collect();
    let expected = serde_json::to_string(&all).unwrap();
    assert_eq!(to_json_text(&text(&all)), expected);
    assert!(expected.starts_with(r#""\u0000\u0001"#));
    assert!(expected.contains(r"\u0007\b\t\n\u000b\f\r\u000e"));
    assert!(expected.contains(r"\u001f "));
    assert_eq!(to_json_text(&array(vec![])), "[]");
    assert_eq!(to_json_text(&object(vec![])), "{}");
    assert_eq!(to_json_text(&Json::Null), "null");
    assert_eq!(to_json_text(&Json::Bool(false)), "false");
}

#[test]
fn numerals() {
    assert_eq!(to_decimal(0), "0");
    assert_eq!(to_decimal(1907), "1907");
    assert_eq!(to_decimal(u64::MAX), "18446744073709551615");
    assert_eq!(to_hex(&[0x00, 0x1f, 0xab, 0xff]), "001fabff");
    assert_eq!(to_hex(&[]), "");
    assert_eq!(to_bool_text(true), "true");
    assert_eq!(to_bool_text(false), "false");
    assert!(str_eq("é", "é"));
    assert!(!str_eq("é", "e"));
    assert!(!str_eq("a", "ab"));
    assert_eq!(chars_of("aé你"), vec!['a', 'é', '你']);
}
