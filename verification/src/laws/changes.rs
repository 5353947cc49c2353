//! What is reported of two bodies, told by their keys.

use vstd::prelude::*;
use crate::classify::{
    append_only, class_name, classification, content_path, dotted, first_dot, region_divergence,
    region_report, regions, report, request_id_only, Class,
};
use crate::divergence::first_difference;
use crate::history::{contents_of, Finding};
use crate::json::{lookup, same_json, same_opt, well_formed, JsonView, MemberView};
use crate::laws::equality::{law_no_divergence_iff_equal, law_objects_are_equal_by_key};
use crate::laws::findings::{
    found_at, law_contents_are_those_listed, law_finding_is_at_the_first_place, lists_contents,
    under,
};
use crate::laws::masking::{
    law_append_only, law_only_objects_are_masked, law_request_id_only, same_but_for,
};
use crate::laws::precedence::{applies, law_precedence, lemma_first_region, rank, region_differs};
use crate::path::further;
use crate::scan::{finding_place, first_finding};
use crate::text::decimal;

verus! {

/// The classes are reported under these names.
pub proof fn law_class_names()
    ensures
        class_name(Class::Identical) == "IDENTICAL"@,
        class_name(Class::ContentAppendOnly) == "CONTENT_APPEND_ONLY"@,
        class_name(Class::AccountProjectChange) == "ACCOUNT_PROJECT_CHANGE"@,
        class_name(Class::ModelChange) == "MODEL_CHANGE"@,
        class_name(Class::UserAgentChange) == "USER_AGENT_CHANGE"@,
        class_name(Class::SystemInstructionChange) == "SYSTEM_INSTRUCTION_CHANGE"@,
        class_name(Class::ToolDefinitionChange) == "TOOL_DEFINITION_CHANGE"@,
        class_name(Class::GenerationConfigChange) == "GENERATION_CONFIG_CHANGE"@,
        class_name(Class::SessionIdChange) == "SESSION_ID_CHANGE"@,
        class_name(Class::ToolArgsTruncation) == "HISTORICAL_TOOL_ARGS_TRUNCATION"@,
        class_name(Class::ToolOutputTruncation) == "HISTORICAL_TOOL_OUTPUT_TRUNCATION"@,
        class_name(Class::ToolArgsChange) == "HISTORICAL_TOOL_ARGS_CHANGE"@,
        class_name(Class::ToolOutputChange) == "HISTORICAL_TOOL_OUTPUT_CHANGE"@,
        class_name(Class::SignatureChange) == "THINKING_SIGNATURE_CHANGE"@,
        class_name(Class::ThoughtChange) == "HISTORICAL_THOUGHT_CHANGE"@,
        class_name(Class::RequestIdOnly) == "REQUEST_ID_ONLY"@,
        class_name(Class::Unknown) == "UNKNOWN"@,
{
}

/// Whether the contents of two requests are a list, or none yet, and that list with
/// at least one more content behind it.
pub open spec fn grows(p: Option<JsonView>, c: Option<JsonView>) -> bool {
    &&& p is None || p->0 is Array
    &&& c is Some
    &&& c->0 is Array
    &&& match p {
        None => c->0->Array_0.len() > 0,
        Some(items) => {
            &&& items->Array_0.len() < c->0->Array_0.len()
            &&& forall|i: int|
                0 <= i < items->Array_0.len() ==> same_json(
                    #[trigger] items->Array_0[i],
                    c->0->Array_0[i],
                )
        },
    }
}

/// Whether two bodies agree under every top-level key but `requestId` and
/// `request`, their requests agree under every key but `contents`, and the
/// contents grow.
pub open spec fn appends(prev: JsonView, curr: JsonView) -> bool {
    &&& prev is Object
    &&& curr is Object
    &&& prev.get("request"@) is Some && prev.get("request"@)->0 is Object
    &&& curr.get("request"@) is Some && curr.get("request"@)->0 is Object
    &&& forall|key: Seq<char>|
        key != "requestId"@ && key != "request"@ ==> same_opt(
            #[trigger] prev.get(key),
            curr.get(key),
        )
    &&& forall|key: Seq<char>|
        key != "contents"@ ==> same_opt(
            #[trigger] prev.get("request"@)->0.get(key),
            curr.get("request"@)->0.get(key),
        )
    &&& grows(prev.get("request"@)->0.get("contents"@), curr.get("request"@)->0.get("contents"@))
}

/// Contents were appended, and nothing else but a `requestId` changed, exactly when
/// the current contents are the previous ones, a list or none yet, with more behind
/// them, and everything else agrees.
pub proof fn law_append_is_told_by_the_keys(prev: JsonView, curr: JsonView)
    requires
        well_formed(prev),
    ensures
        append_only(prev, curr) <==> appends(prev, curr),
{
    if prev is Object && curr is Object {
        let x = prev->Object_0;
        let y = curr->Object_0;
        law_append_only(x, y);
        if append_only(prev, curr) {
            assert forall|key: Seq<char>| key != "requestId"@ && key != "request"@ implies same_opt(
                #[trigger] prev.get(key),
                curr.get(key),
            ) by {
                assert(same_opt(lookup(x, key), lookup(y, key)));
            }
            let r = lookup(x, "request"@);
            let s = lookup(y, "request"@);
            if r is Some && r->0 is Object && s is Some && s->0 is Object {
                assert forall|key: Seq<char>| key != "contents"@ implies same_opt(
                    #[trigger] r->0.get(key),
                    s->0.get(key),
                ) by {
                    assert(same_opt(lookup(r->0->Object_0, key), lookup(s->0->Object_0, key)));
                }
            }
            assert(contents_of(curr).len() > 0);
            assert(s is Some && s->0.get("contents"@) is Some);
            assert(s->0 is Object);
            assert(same_opt(r, s) || r->0 is Object);
        }
        if appends(prev, curr) {
            let r = prev.get("request"@)->0->Object_0;
            let s = curr.get("request"@)->0->Object_0;
            assert forall|key: Seq<char>| key != "requestId"@ && key != "request"@ implies same_opt(
                #[trigger] lookup(x, key),
                lookup(y, key),
            ) by {
                assert(same_opt(prev.get(key), curr.get(key)));
            }
            assert forall|key: Seq<char>| key != "contents"@ implies same_opt(
                #[trigger] lookup(r, key),
                lookup(s, key),
            ) by {
                assert(same_opt(
                    prev.get("request"@)->0.get(key),
                    curr.get("request"@)->0.get(key),
                ));
            }
            assert(same_but_for(r, s, "contents"@));
        }
    } else {
        law_only_objects_are_masked(prev, curr);
    }
}

/// A conversation of any length that goes on is reported as an append, at the first
/// content that was appended, whatever the `requestId`.
pub proof fn law_append_is_reported(
    x: Seq<MemberView>,
    y: Seq<MemberView>,
    r: Seq<MemberView>,
    s: Seq<MemberView>,
    p: Seq<JsonView>,
)
    requires
        well_formed(JsonView::Object(x)),
        JsonView::Object(x).get("request"@) == Some(JsonView::Object(r)),
        JsonView::Object(y).get("request"@) == Some(JsonView::Object(s)),
        JsonView::Object(r).get("contents"@) == Some(JsonView::Array(p)) || (JsonView::Object(r).get(
            "contents"@,
        ) is None && p.len() == 0),
        JsonView::Object(s).get("contents"@) is Some,
        JsonView::Object(s).get("contents"@)->0 is Array,
        p.len() < JsonView::Object(s).get("contents"@)->0->Array_0.len(),
        forall|i: int|
            0 <= i < p.len() ==> same_json(
                #[trigger] p[i],
                JsonView::Object(s).get("contents"@)->0->Array_0[i],
            ),
        forall|key: Seq<char>|
            key != "requestId"@ && key != "request"@ ==> same_opt(
                #[trigger] JsonView::Object(x).get(key),
                JsonView::Object(y).get(key),
            ),
        forall|key: Seq<char>|
            key != "contents"@ ==> same_opt(
                #[trigger] JsonView::Object(r).get(key),
                JsonView::Object(s).get(key),
            ),
    ensures
        append_only(JsonView::Object(x), JsonView::Object(y)),
        content_path(contents_of(JsonView::Object(x)).len() as int) == "request.contents["@
            + decimal(p.len()) + "]"@,
        classification(JsonView::Object(x), JsonView::Object(y)).0 == "request.contents["@
            + decimal(p.len()) + "]"@,
        class_name(classification(JsonView::Object(x), JsonView::Object(y)).1)
            == "CONTENT_APPEND_ONLY"@,
{
    let prev = JsonView::Object(x);
    let curr = JsonView::Object(y);
    assert(appends(prev, curr));
    law_append_is_told_by_the_keys(prev, curr);
    law_contents_are_those_listed(prev, p);
    lemma_append_is_a_change(prev, curr);
}

/// Bodies of which one appends to the other are not equal.
proof fn lemma_append_is_a_change(prev: JsonView, curr: JsonView)
    requires
        appends(prev, curr),
        well_formed(prev),
    ensures
        !same_json(prev, curr),
{
    if same_json(prev, curr) {
        let x = prev->Object_0;
        let y = curr->Object_0;
        law_objects_are_equal_by_key(x, y);
        assert(same_opt(lookup(x, "request"@), lookup(y, "request"@)));
        let r = lookup(x, "request"@)->0->Object_0;
        let s = lookup(y, "request"@)->0->Object_0;
        lemma_found_is_well_formed(x, "request"@);
        law_objects_are_equal_by_key(r, s);
        assert(same_opt(lookup(r, "contents"@), lookup(s, "contents"@)));
    }
}

/// What is found in a well-formed object is well-formed.
proof fn lemma_found_is_well_formed(members: Seq<MemberView>, key: Seq<char>)
    requires
        well_formed(JsonView::Object(members)),
        lookup(members, key) is Some,
    ensures
        well_formed(lookup(members, key)->0),
{
    let i = choose|i: int| crate::json::first_at(members, key, i);
    assert(well_formed(members[i].value));
}

/// Whether two bodies are objects that agree under every top-level key but
/// `requestId`.
pub open spec fn agree_but_for_request_id(prev: JsonView, curr: JsonView) -> bool {
    &&& prev is Object
    &&& curr is Object
    &&& forall|key: Seq<char>|
        key != "requestId"@ ==> same_opt(#[trigger] prev.get(key), curr.get(key))
}

/// Only a `requestId` differs when two bodies agree under every other top-level key.
pub proof fn law_request_id_is_told_by_the_keys(prev: JsonView, curr: JsonView)
    requires
        well_formed(prev),
    ensures
        request_id_only(prev, curr) <==> agree_but_for_request_id(prev, curr) || same_json(
            prev,
            curr,
        ),
{
    if prev is Object && curr is Object {
        let x = prev->Object_0;
        let y = curr->Object_0;
        law_request_id_only(x, y);
        law_objects_are_equal_by_key(x, y);
        if same_but_for(x, y, "requestId"@) {
            assert forall|key: Seq<char>| key != "requestId"@ implies same_opt(
                #[trigger] prev.get(key),
                curr.get(key),
            ) by {
                assert(same_opt(lookup(x, key), lookup(y, key)));
            }
        }
        if agree_but_for_request_id(prev, curr) || same_json(prev, curr) {
            assert forall|key: Seq<char>| key != "requestId"@ implies same_opt(
                #[trigger] lookup(x, key),
                lookup(y, key),
            ) by {
                assert(same_opt(prev.get(key), curr.get(key)));
            }
        }
    } else {
        law_only_objects_are_masked(prev, curr);
    }
}

/// A path of keys without dots leads to the value under the key; a dot leads on
/// from there.
pub proof fn law_dotted_paths_follow_the_keys(value: JsonView, name: Seq<char>, rest: Seq<char>)
    requires
        forall|i: int| 0 <= i < name.len() ==> #[trigger] name[i] != '.',
    ensures
        dotted(value, name) == value.get(name),
        value.get(name) is None ==> dotted(value, name + seq!['.'] + rest) is None,
        value.get(name) is Some ==> dotted(value, name + seq!['.'] + rest) == dotted(
            value.get(name)->0,
            rest,
        ),
{
    assert(forall|i: int| !first_dot(name, i));
    let whole = name + seq!['.'] + rest;
    let n = name.len() as int;
    assert(whole[n] == '.');
    assert(forall|j: int| 0 <= j < n ==> #[trigger] whole[j] == name[j]);
    assert(first_dot(whole, n));
    let k = choose|k: int| first_dot(whole, k);
    if k < n {
        assert(whole[k] == name[k]);
    } else if n < k {
        assert(whole[n] == '.');
    }
    assert(whole.take(n) =~= name);
    assert(whole.skip(n + 1) =~= rest);
}

/// The regions that have a class of their own, in the order of precedence.
pub proof fn law_regions()
    ensures
        regions().len() == 13,
        regions()[0] == ("project"@, Class::AccountProjectChange),
        regions()[1] == ("model"@, Class::ModelChange),
        regions()[2] == ("userAgent"@, Class::UserAgentChange),
        regions()[3] == ("request.systemInstruction"@, Class::SystemInstructionChange),
        regions()[4] == ("request.tools"@, Class::ToolDefinitionChange),
        regions()[5] == ("request.toolConfig"@, Class::ToolDefinitionChange),
        regions()[6] == ("request.tool_config"@, Class::ToolDefinitionChange),
        regions()[7] == ("request.generationConfig"@, Class::GenerationConfigChange),
        regions()[8] == ("request.generation_config"@, Class::GenerationConfigChange),
        regions()[9] == ("request.sessionId"@, Class::SessionIdChange),
        regions()[10] == ("request.session_id"@, Class::SessionIdChange),
        regions()[11] == ("sessionId"@, Class::SessionIdChange),
        regions()[12] == ("session_id"@, Class::SessionIdChange),
{
}

/// What a body holds in each of the regions.
pub open spec fn at_region(body: JsonView, k: int) -> Option<JsonView> {
    let request = body.get("request"@);
    if k == 0 {
        body.get("project"@)
    } else if k == 1 {
        body.get("model"@)
    } else if k == 2 {
        body.get("userAgent"@)
    } else if k == 3 {
        under(request, "systemInstruction"@)
    } else if k == 4 {
        under(request, "tools"@)
    } else if k == 5 {
        under(request, "toolConfig"@)
    } else if k == 6 {
        under(request, "tool_config"@)
    } else if k == 7 {
        under(request, "generationConfig"@)
    } else if k == 8 {
        under(request, "generation_config"@)
    } else if k == 9 {
        under(request, "sessionId"@)
    } else if k == 10 {
        under(request, "session_id"@)
    } else if k == 11 {
        body.get("sessionId"@)
    } else {
        body.get("session_id"@)
    }
}

/// Whether two bodies differ in a region.
pub open spec fn region_changed(prev: JsonView, curr: JsonView, k: int) -> bool {
    !same_opt(at_region(prev, k), at_region(curr, k))
}

/// A top-level key is a path of its own.
proof fn lemma_top_level(body: JsonView, key: Seq<char>)
    requires
        forall|i: int| 0 <= i < key.len() ==> #[trigger] key[i] != '.',
    ensures
        dotted(body, key) == body.get(key),
{
    law_dotted_paths_follow_the_keys(body, key, Seq::empty());
}

/// A key of the request is a path of two keys.
proof fn lemma_in_request(body: JsonView, path: Seq<char>, key: Seq<char>)
    requires
        path == "request."@ + key,
        forall|i: int| 0 <= i < key.len() ==> #[trigger] key[i] != '.',
    ensures
        dotted(body, path) == under(body.get("request"@), key),
{
    reveal_strlit("request");
    reveal_strlit("request.");
    let name = "request"@;
    assert(path =~= name + seq!['.'] + key);
    law_dotted_paths_follow_the_keys(body, name, key);
    if body.get(name) is Some {
        lemma_top_level(body.get(name)->0, key);
    }
}

/// The path of a region leads to what a body holds in it.
proof fn lemma_region_path_leads_there(body: JsonView, k: int)
    requires
        0 <= k < 13,
    ensures
        dotted(body, regions()[k].0) == at_region(body, k),
{
    reveal_strlit("project");
    reveal_strlit("model");
    reveal_strlit("userAgent");
    reveal_strlit("sessionId");
    reveal_strlit("session_id");
    reveal_strlit("request.");
    reveal_strlit("systemInstruction");
    reveal_strlit("tools");
    reveal_strlit("toolConfig");
    reveal_strlit("tool_config");
    reveal_strlit("generationConfig");
    reveal_strlit("generation_config");
    reveal_strlit("request.systemInstruction");
    reveal_strlit("request.tools");
    reveal_strlit("request.toolConfig");
    reveal_strlit("request.tool_config");
    reveal_strlit("request.generationConfig");
    reveal_strlit("request.generation_config");
    reveal_strlit("request.sessionId");
    reveal_strlit("request.session_id");
    let path = regions()[k].0;
    if k == 3 {
        assert(path =~= "request."@ + "systemInstruction"@);
        lemma_in_request(body, path, "systemInstruction"@);
    } else if k == 4 {
        assert(path =~= "request."@ + "tools"@);
        lemma_in_request(body, path, "tools"@);
    } else if k == 5 {
        assert(path =~= "request."@ + "toolConfig"@);
        lemma_in_request(body, path, "toolConfig"@);
    } else if k == 6 {
        assert(path =~= "request."@ + "tool_config"@);
        lemma_in_request(body, path, "tool_config"@);
    } else if k == 7 {
        assert(path =~= "request."@ + "generationConfig"@);
        lemma_in_request(body, path, "generationConfig"@);
    } else if k == 8 {
        assert(path =~= "request."@ + "generation_config"@);
        lemma_in_request(body, path, "generation_config"@);
    } else if k == 9 {
        assert(path =~= "request."@ + "sessionId"@);
        lemma_in_request(body, path, "sessionId"@);
    } else if k == 10 {
        assert(path =~= "request."@ + "session_id"@);
        lemma_in_request(body, path, "session_id"@);
    } else {
        lemma_top_level(body, path);
    }
}

/// Whatever the path, the region at it is reported to differ exactly when the path
/// leads to different values, or to one in only one of the two bodies: at the first
/// difference of the two values, or at the path itself.
pub proof fn law_region_report_at_any_path(prev: JsonView, curr: JsonView, path: Seq<char>)
    ensures
        ({
            let a = dotted(prev, path);
            let b = dotted(curr, path);
            let found = region_report(prev, curr, path);
            &&& found is Some <==> !same_opt(a, b)
            &&& region_divergence(prev, curr, path) is Some <==> found is Some
            &&& found is Some ==> {
                &&& found->0.base == path
                &&& a is None || b is None ==> found->0.steps.len() == 0
                &&& a is Some && b is Some ==> first_difference(a->0, b->0) == Some(found->0.steps)
                &&& region_divergence(prev, curr, path) == Some(further(path, found->0.steps))
            }
        }),
{
    if dotted(prev, path) is Some && dotted(curr, path) is Some {
        law_no_divergence_iff_equal(Seq::empty(), dotted(prev, path)->0, dotted(curr, path)->0);
    }
}

/// A region is reported to differ exactly when the two bodies hold different values
/// in it, or only one of them holds any: at the first difference of the two values,
/// or at the region itself.
pub proof fn law_region_report(prev: JsonView, curr: JsonView, k: int)
    requires
        0 <= k < 13,
    ensures
        region_report(prev, curr, regions()[k].0) is Some <==> region_changed(prev, curr, k),
        region_divergence(prev, curr, regions()[k].0) is Some <==> region_changed(prev, curr, k),
        region_changed(prev, curr, k) ==> ({
            let found = region_report(prev, curr, regions()[k].0)->0;
            let a = at_region(prev, k);
            let b = at_region(curr, k);
            &&& found.base == regions()[k].0
            &&& a is None || b is None ==> found.steps.len() == 0
            &&& a is Some && b is Some ==> first_difference(a->0, b->0) == Some(found.steps)
            &&& region_divergence(prev, curr, regions()[k].0) == Some(
                further(found.base, found.steps),
            )
        }),
{
    lemma_region_path_leads_there(prev, k);
    lemma_region_path_leads_there(curr, k);
    law_region_report_at_any_path(prev, curr, regions()[k].0);
}

/// Whether a finding shows somewhere.
pub open spec fn found(finding: Finding, p: Seq<JsonView>, c: Seq<JsonView>) -> bool {
    exists|i: int, j: int| found_at(finding, p, c, i, j)
}

/// Whether two bodies, which hold the contents `p` and `c`, differ in the way that a
/// class stands for.
pub open spec fn described(
    class: Class,
    prev: JsonView,
    curr: JsonView,
    p: Seq<JsonView>,
    c: Seq<JsonView>,
) -> bool {
    match class {
        Class::Identical => same_json(prev, curr),
        Class::ContentAppendOnly => appends(prev, curr),
        Class::AccountProjectChange => region_changed(prev, curr, 0),
        Class::ModelChange => region_changed(prev, curr, 1),
        Class::UserAgentChange => region_changed(prev, curr, 2),
        Class::SystemInstructionChange => region_changed(prev, curr, 3),
        Class::ToolDefinitionChange => {
            ||| region_changed(prev, curr, 4)
            ||| region_changed(prev, curr, 5)
            ||| region_changed(prev, curr, 6)
        },
        Class::GenerationConfigChange => {
            ||| region_changed(prev, curr, 7)
            ||| region_changed(prev, curr, 8)
        },
        Class::SessionIdChange => {
            ||| region_changed(prev, curr, 9)
            ||| region_changed(prev, curr, 10)
            ||| region_changed(prev, curr, 11)
            ||| region_changed(prev, curr, 12)
        },
        Class::ToolArgsTruncation => found(Finding::ArgsTruncated, p, c),
        Class::ToolOutputTruncation => found(Finding::OutputTruncated, p, c),
        Class::ToolArgsChange => found(Finding::ArgsEdited, p, c),
        Class::ToolOutputChange => found(Finding::OutputEdited, p, c),
        Class::SignatureChange => found(Finding::Signature, p, c),
        Class::ThoughtChange => found(Finding::Thought, p, c),
        Class::RequestIdOnly => agree_but_for_request_id(prev, curr),
        Class::Unknown => true,
    }
}

/// A finding is reported exactly when it shows somewhere.
proof fn lemma_found_where_reported(
    finding: Finding,
    prev: JsonView,
    curr: JsonView,
    p: Seq<JsonView>,
    c: Seq<JsonView>,
)
    requires
        lists_contents(prev, p),
        lists_contents(curr, c),
    ensures
        first_finding(finding, prev, curr) is Some <==> found(finding, p, c),
{
    law_finding_is_at_the_first_place(finding, prev, curr, p, c);
    if let Some((i, j)) = finding_place(finding, prev, curr) {
        assert(found_at(finding, p, c, i, j));
    }
}

/// A class applies exactly when the two bodies differ in the way that it stands for.
proof fn lemma_applies_as_described(
    class: Class,
    prev: JsonView,
    curr: JsonView,
    p: Seq<JsonView>,
    c: Seq<JsonView>,
)
    requires
        well_formed(prev),
        !same_json(prev, curr),
        lists_contents(prev, p),
        lists_contents(curr, c),
    ensures
        applies(class, prev, curr) <==> described(class, prev, curr, p, c),
{
    match class {
        Class::Identical => {},
        Class::ContentAppendOnly => law_append_is_told_by_the_keys(prev, curr),
        Class::ToolArgsTruncation => lemma_found_where_reported(
            Finding::ArgsTruncated,
            prev,
            curr,
            p,
            c,
        ),
        Class::ToolOutputTruncation => lemma_found_where_reported(
            Finding::OutputTruncated,
            prev,
            curr,
            p,
            c,
        ),
        Class::ToolArgsChange => lemma_found_where_reported(Finding::ArgsEdited, prev, curr, p, c),
        Class::ToolOutputChange => lemma_found_where_reported(
            Finding::OutputEdited,
            prev,
            curr,
            p,
            c,
        ),
        Class::SignatureChange => lemma_found_where_reported(Finding::Signature, prev, curr, p, c),
        Class::ThoughtChange => lemma_found_where_reported(Finding::Thought, prev, curr, p, c),
        Class::RequestIdOnly => law_request_id_is_told_by_the_keys(prev, curr),
        Class::Unknown => {},
        _ => {
            law_regions();
            assert forall|k: int| 0 <= k < 13 implies (region_divergence(
                prev,
                curr,
                (#[trigger] regions()[k]).0,
            ) is Some <==> region_changed(prev, curr, k)) by {
                law_region_report(prev, curr, k);
            }
            if region_differs(class, prev, curr) {
                let k = choose|k: int|
                    0 <= k < regions().len() && (#[trigger] regions()[k]).1 == class
                        && region_divergence(prev, curr, regions()[k].0) is Some;
                assert(region_changed(prev, curr, k));
            }
            if described(class, prev, curr, p, c) {
                let k = choose|k: int|
                    0 <= k < 13 && (#[trigger] regions()[k]).1 == class && region_changed(
                        prev,
                        curr,
                        k,
                    );
                assert(regions()[0].1 is AccountProjectChange);
                assert(regions()[1].1 is ModelChange);
                assert(regions()[2].1 is UserAgentChange);
                assert(regions()[3].1 is SystemInstructionChange);
                assert(regions()[4].1 is ToolDefinitionChange);
                assert(regions()[5].1 is ToolDefinitionChange);
                assert(regions()[6].1 is ToolDefinitionChange);
                assert(regions()[7].1 is GenerationConfigChange);
                assert(regions()[8].1 is GenerationConfigChange);
                assert(regions()[9].1 is SessionIdChange);
                assert(regions()[10].1 is SessionIdChange);
                assert(regions()[11].1 is SessionIdChange);
                assert(regions()[12].1 is SessionIdChange);
                assert(region_divergence(prev, curr, regions()[k].0) is Some);
            }
        },
    }
}

/// The class that is reported is the first, in the order of precedence, whose way of
/// differing the two bodies show.
pub proof fn law_reported_class_is_told_by_the_keys(
    prev: JsonView,
    curr: JsonView,
    p: Seq<JsonView>,
    c: Seq<JsonView>,
    class: Class,
)
    requires
        well_formed(prev),
        lists_contents(prev, p),
        lists_contents(curr, c),
    ensures
        classification(prev, curr).1 == class <==> {
            &&& described(class, prev, curr, p, c)
            &&& forall|other: Class|
                rank(other) < rank(class) ==> !(#[trigger] described(other, prev, curr, p, c))
        },
{
    law_precedence(prev, curr, class);
    if same_json(prev, curr) {
        law_precedence(prev, curr, Class::Identical);
        assert(described(Class::Identical, prev, curr, p, c));
        assert(rank(Class::Identical) < rank(class) || class is Identical);
    } else {
        assert forall|other: Class| #[trigger]
            applies(other, prev, curr) == described(other, prev, curr, p, c) by {
            lemma_applies_as_described(other, prev, curr, p, c);
        }
        if forall|other: Class|
            rank(other) < rank(class) ==> !(#[trigger] described(other, prev, curr, p, c)) {
            assert forall|other: Class| rank(other) < rank(class) implies !(#[trigger] applies(
                other,
                prev,
                curr,
            )) by {
                assert(!described(other, prev, curr, p, c));
            }
        }
        if forall|other: Class|
            rank(other) < rank(class) ==> !(#[trigger] applies(other, prev, curr)) {
            assert forall|other: Class| rank(other) < rank(class) implies !(#[trigger] described(
                other,
                prev,
                curr,
                p,
                c,
            )) by {
                assert(!applies(other, prev, curr));
            }
        }
    }
}

/// Of the regions that differ, the first is the one that is reported.
pub proof fn law_first_differing_region_is_reported(prev: JsonView, curr: JsonView, k: int)
    requires
        well_formed(prev),
        !same_json(prev, curr),
        !appends(prev, curr),
        0 <= k < 13,
        region_changed(prev, curr, k),
        forall|m: int| 0 <= m < k ==> !(#[trigger] region_changed(prev, curr, m)),
    ensures
        report(prev, curr).1 == regions()[k].1,
        report(prev, curr).0.base == regions()[k].0,
        ({
            let a = at_region(prev, k);
            let b = at_region(curr, k);
            let steps = report(prev, curr).0.steps;
            &&& a is None || b is None ==> steps.len() == 0
            &&& a is Some && b is Some ==> first_difference(a->0, b->0) == Some(steps)
        }),
{
    law_regions();
    law_append_is_told_by_the_keys(prev, curr);
    law_region_report(prev, curr, k);
    lemma_first_region(prev, curr, 0);
    let first = crate::classify::first_region(prev, curr, 0);
    assert(regions()[k].0 == regions()[k].0);
    assert(first is Some && first->0 <= k);
    if first->0 < k {
        law_region_report(prev, curr, first->0);
        assert(!region_changed(prev, curr, first->0));
    }
}

/// The paths that are reported beside those of the regions: none for equal bodies,
/// that of the finding for a change of the history, the `requestId`, and else the
/// first difference of the bodies. The text of a path is what is reported of it.
pub proof fn law_reported_paths(prev: JsonView, curr: JsonView)
    ensures
        classification(prev, curr).0 == further(
            report(prev, curr).0.base,
            report(prev, curr).0.steps,
        ),
        classification(prev, curr).1 == report(prev, curr).1,
        match report(prev, curr).1 {
            Class::Identical => report(prev, curr).0.base.len() == 0 && report(
                prev,
                curr,
            ).0.steps.len() == 0,
            Class::ToolArgsTruncation => first_finding(Finding::ArgsTruncated, prev, curr) == Some(
                report(prev, curr).0,
            ),
            Class::ToolOutputTruncation => first_finding(Finding::OutputTruncated, prev, curr)
                == Some(report(prev, curr).0),
            Class::ToolArgsChange => first_finding(Finding::ArgsEdited, prev, curr) == Some(
                report(prev, curr).0,
            ),
            Class::ToolOutputChange => first_finding(Finding::OutputEdited, prev, curr) == Some(
                report(prev, curr).0,
            ),
            Class::SignatureChange => first_finding(Finding::Signature, prev, curr) == Some(
                report(prev, curr).0,
            ),
            Class::ThoughtChange => first_finding(Finding::Thought, prev, curr) == Some(
                report(prev, curr).0,
            ),
            Class::RequestIdOnly => report(prev, curr).0.base == "requestId"@ && report(
                prev,
                curr,
            ).0.steps.len() == 0,
            Class::Unknown => report(prev, curr).0.base.len() == 0 && first_difference(prev, curr)
                == Some(report(prev, curr).0.steps),
            _ => true,
        },
{
    law_no_divergence_iff_equal(Seq::empty(), prev, curr);
    lemma_first_region(prev, curr, 0);
    law_regions();
    if let Some(k) = crate::classify::first_region(prev, curr, 0) {
        assert(regions()[k].1 == regions()[k].1);
    }
}

} // verus!
