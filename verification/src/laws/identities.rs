//! What the identities of a request are made of.

use vstd::prelude::*;
use crate::hashing::{sha256, short_hash_of};
use crate::identity::{
    account_key_of, anchored, content_user_texts, contents_user_texts, env_bytes, key_fragment,
    model_of, part_texts, session_id_of, session_key_of, trajectory_of, user_texts_of,
    FingerprintView,
};
use crate::json::JsonView;
use crate::json_text::json_text;
use crate::laws::observations::holder_of;
use crate::text::hex;
use vstd::utf8::encode_utf8;

verus! {

/// The key of an account is the salted hash of its id; an absent id has a key too.
pub proof fn law_account_keys(salt: Seq<u8>, id: Seq<char>)
    ensures
        account_key_of(salt, Some(id)) == short_hash_of(salt, "acct="@ + id),
        account_key_of(salt, None) == short_hash_of(salt, "acct="@ + "none"@),
{
}

/// The session of a body is the `sessionId` inside its request, else the one beside
/// it. A string enters the key as it is, any other value by its JSON text.
pub proof fn law_session_keys(salt: Seq<u8>, body: JsonView)
    ensures
        ({
            let inside = holder_of(body).get("sessionId"@);
            let beside = body.get("sessionId"@);
            &&& inside is Some ==> session_id_of(body) == inside
            &&& inside is None ==> session_id_of(body) == beside
            &&& session_key_of(salt, body) is Some <==> inside is Some || beside is Some
        }),
        session_id_of(body) matches Some(JsonView::Text(s)) ==> session_key_of(salt, body) == Some(
            short_hash_of(salt, "sess="@ + s),
        ),
        session_id_of(body) matches Some(id) ==> !(id is Text) ==> session_key_of(salt, body)
            == Some(short_hash_of(salt, "sess="@ + json_text(id))),
        forall|s: Seq<char>| #[trigger] key_fragment(JsonView::Text(s)) == s,
        forall|value: JsonView| value !is Text ==> #[trigger] key_fragment(value) == json_text(value),
{
}

/// The text that a part contributes, if any: the string under `text`.
pub open spec fn text_in(part: JsonView) -> Seq<Seq<char>> {
    match part.get("text"@) {
        Some(JsonView::Text(s)) => seq![s],
        _ => Seq::empty(),
    }
}

/// The texts of some parts, one after the other.
pub open spec fn texts_in(parts: Seq<JsonView>) -> Seq<Seq<char>>
    decreases parts.len(),
{
    if parts.len() == 0 {
        Seq::empty()
    } else {
        texts_in(parts.drop_last()) + text_in(parts.last())
    }
}

/// The texts that some contents contribute, one after the other: those of the parts
/// of each content whose `role` is the user's.
pub open spec fn user_texts_in(contents: Seq<JsonView>) -> Seq<Seq<char>>
    decreases contents.len(),
{
    if contents.len() == 0 {
        Seq::empty()
    } else {
        user_texts_in(contents.drop_last()) + match contents.last().get("parts"@) {
            Some(JsonView::Array(parts)) => if contents.last().get("role"@) == Some(
                JsonView::Text("user"@),
            ) {
                texts_in(parts)
            } else {
                Seq::empty()
            },
            _ => Seq::empty(),
        }
    }
}

/// The texts of the first parts.
proof fn lemma_part_texts(parts: Seq<JsonView>, n: int)
    requires
        0 <= n <= parts.len(),
    ensures
        part_texts(parts, n) == texts_in(parts.take(n)),
    decreases n,
{
    if n > 0 {
        lemma_part_texts(parts, n - 1);
        let some = parts.take(n);
        assert(some.drop_last() =~= parts.take(n - 1));
        assert(some.last() == parts[n - 1]);
        let before = part_texts(parts, n - 1);
        if let Some(JsonView::Text(s)) = parts[n - 1].get("text"@) {
            assert(before.push(s) =~= before + seq![s]);
        } else {
            assert(before + Seq::<Seq<char>>::empty() =~= before);
        }
    } else {
        assert(parts.take(0) =~= Seq::<JsonView>::empty());
    }
}

/// The texts of the first contents.
proof fn lemma_contents_texts(contents: Seq<JsonView>, n: int)
    requires
        0 <= n <= contents.len(),
    ensures
        contents_user_texts(contents, n) == user_texts_in(contents.take(n)),
    decreases n,
{
    if n > 0 {
        lemma_contents_texts(contents, n - 1);
        let some = contents.take(n);
        assert(some.drop_last() =~= contents.take(n - 1));
        assert(some.last() == contents[n - 1]);
        if let Some(JsonView::Array(parts)) = contents[n - 1].get("parts"@) {
            lemma_part_texts(parts, parts.len() as int);
            assert(parts.take(parts.len() as int) =~= parts);
        }
    } else {
        assert(contents.take(0) =~= Seq::<JsonView>::empty());
    }
}

/// The user's texts of a request are the `text` strings of the parts of the contents
/// whose `role` is the user's, in their order.
pub proof fn law_user_texts(inner: JsonView)
    ensures
        match inner.get("contents"@) {
            Some(JsonView::Array(contents)) => user_texts_of(inner) == user_texts_in(contents),
            _ => user_texts_of(inner).len() == 0,
        },
{
    if let Some(JsonView::Array(contents)) = inner.get("contents"@) {
        lemma_contents_texts(contents, contents.len() as int);
        assert(contents.take(contents.len() as int) =~= contents);
    }
}

/// Every `text` string of a part of a user's content is one of the user's texts.
pub proof fn law_every_user_text_counts(
    inner: JsonView,
    contents: Seq<JsonView>,
    i: int,
    parts: Seq<JsonView>,
    j: int,
    s: Seq<char>,
)
    requires
        inner.get("contents"@) == Some(JsonView::Array(contents)),
        0 <= i < contents.len(),
        contents[i].get("role"@) == Some(JsonView::Text("user"@)),
        contents[i].get("parts"@) == Some(JsonView::Array(parts)),
        0 <= j < parts.len(),
        parts[j].get("text"@) == Some(JsonView::Text(s)),
    ensures
        user_texts_of(inner).contains(s),
{
    lemma_text_counts(parts, j, s, parts.len() as int);
    let mine = content_user_texts(contents[i]);
    assert(mine.contains(s));
    lemma_content_counts(contents, i, s, contents.len() as int);
}

/// The text of a part is among those of the first parts that include it.
proof fn lemma_text_counts(parts: Seq<JsonView>, j: int, s: Seq<char>, n: int)
    requires
        0 <= j < n <= parts.len(),
        parts[j].get("text"@) == Some(JsonView::Text(s)),
    ensures
        part_texts(parts, n).contains(s),
    decreases n,
{
    let before = part_texts(parts, n - 1);
    if j < n - 1 {
        lemma_text_counts(parts, j, s, n - 1);
        let k = choose|k: int| 0 <= k < before.len() && before[k] == s;
        assert(part_texts(parts, n)[k] == s);
    } else {
        assert(part_texts(parts, n)[before.len() as int] == s);
    }
}

/// The text of a content is among those of the first contents that include it.
proof fn lemma_content_counts(contents: Seq<JsonView>, i: int, s: Seq<char>, n: int)
    requires
        0 <= i < n <= contents.len(),
        content_user_texts(contents[i]).contains(s),
    ensures
        contents_user_texts(contents, n).contains(s),
    decreases n,
{
    let before = contents_user_texts(contents, n - 1);
    let mine = content_user_texts(contents[n - 1]);
    let all = contents_user_texts(contents, n);
    if i < n - 1 {
        lemma_content_counts(contents, i, s, n - 1);
        let k = choose|k: int| 0 <= k < before.len() && before[k] == s;
        assert(all[k] == s);
    } else {
        let k = choose|k: int| 0 <= k < mine.len() && mine[k] == s;
        assert(all[before.len() + k] == s);
    }
}

/// A request has an anchor when one of its user texts, sanitized, keeps at least two
/// bytes.
pub proof fn law_anchors(inner: JsonView, sanitized: Seq<Seq<char>>)
    ensures
        anchored(inner, sanitized) <==> exists|k: int|
            0 <= k < user_texts_of(inner).len() && k < sanitized.len() && encode_utf8(
                #[trigger] sanitized[k],
            ).len() >= 2,
{
    if anchored(inner, sanitized) {
        let k = choose|k: int|
            0 <= k < user_texts_of(inner).len() && k < sanitized.len()
                && crate::history::byte_len(#[trigger] sanitized[k]) >= 2;
        assert(encode_utf8(sanitized[k]).len() >= 2);
    }
    if exists|k: int|
        0 <= k < user_texts_of(inner).len() && k < sanitized.len() && encode_utf8(
            #[trigger] sanitized[k],
        ).len() >= 2 {
        let k = choose|k: int|
            0 <= k < user_texts_of(inner).len() && k < sanitized.len() && encode_utf8(
                #[trigger] sanitized[k],
            ).len() >= 2;
        assert(crate::history::byte_len(sanitized[k]) >= 2);
    }
}

/// The model that a body names is the string under `model`.
pub proof fn law_model(body: JsonView)
    ensures
        match body.get("model"@) {
            Some(JsonView::Text(s)) => model_of(body) == s,
            _ => model_of(body).len() == 0,
        },
{
}

/// The bytes of one field of the environment: its JSON text, if it is there, and a
/// zero byte behind it.
pub open spec fn closed_field(value: JsonView, key: Seq<char>) -> Seq<u8> {
    if value.get(key) is Some {
        encode_utf8(json_text(value.get(key)->0)) + seq![0u8]
    } else {
        seq![0u8]
    }
}

/// The environment of a request is its project, model, user agent and request type,
/// and the system instruction and the tools of the request inside it, each closed by
/// a zero byte, behind the salt and a fixed prefix.
pub proof fn law_environment(salt: Seq<u8>, body: JsonView, inner: JsonView)
    ensures
        env_bytes(salt, body, inner) == salt + encode_utf8("env"@) + closed_field(
            body,
            "project"@,
        ) + closed_field(body, "model"@) + closed_field(body, "userAgent"@) + closed_field(
            body,
            "requestType"@,
        ) + closed_field(inner, "systemInstruction"@) + closed_field(inner, "system_instruction"@)
            + closed_field(inner, "tools"@),
{
    assert forall|value: JsonView, key: Seq<char>| #[trigger]
        crate::identity::field_bytes(value, key) == closed_field(value, key) by {
        assert(crate::identity::field_bytes(value, key) =~= closed_field(value, key));
    }
}

/// The trajectory of a request is the salted hash of its conversation where it has an
/// anchor, else of the digest of its environment; its source tells which.
pub proof fn law_trajectories(salt: Seq<u8>, body: JsonView, fingerprint: FingerprintView)
    ensures
        anchored(holder_of(body), fingerprint.sanitized_texts) ==> {
            &&& trajectory_of(salt, body, fingerprint).id == short_hash_of(
                salt,
                "traj|"@ + fingerprint.session_id,
            )
            &&& trajectory_of(salt, body, fingerprint).source == "content_seed"@
        },
        !anchored(holder_of(body), fingerprint.sanitized_texts) ==> {
            &&& trajectory_of(salt, body, fingerprint).id == short_hash_of(
                salt,
                "traj|"@ + hex(sha256(env_bytes(salt, body, holder_of(body)))),
            )
            &&& trajectory_of(salt, body, fingerprint).source == "environment_fallback"@
        },
{
}

} // verus!
