//! Who a request belongs to: the account, the upstream session, the trajectory.
//!
//! There are two distinct identities:
//!
//!   * the trajectory, a stable, salted hash under which successive turns of the
//!     same conversation are compared with each other. It is derived from the
//!     conversation content that is already present in the request and does not
//!     include the observed account id or the upstream `sessionId`;
//!   * the observed account id and the upstream `sessionId`, each as a salted
//!     hash. Changes to these are events, they do not open a new stream.
//!
//! If no user text anchor exists the trajectory falls back to an environment
//! fingerprint. That is a grouping heuristic, labelled as such, and not a claimed
//! conversation id. A missing `sessionId` therefore never collapses traffic into
//! a single stream.

use vstd::prelude::*;
use vstd::utf8::encode_utf8;
use crate::divergence::opt_chars;
use crate::hashing::{
    bytes_copy, full_sha256_hex, push_bytes, sha256, short_hash, short_hash_of, Salt,
};
use crate::history::{byte_len, parts_of};
use crate::json::{views, Json, JsonView};
use crate::json_text::{json_text, to_json_text};
use crate::text::{hex, str_eq};

verus! {

/// The text of a value inside a hashed key: strings bare, other values as JSON.
pub open spec fn key_fragment(value: JsonView) -> Seq<char> {
    match value {
        JsonView::Text(s) => s,
        _ => json_text(value),
    }
}

/// The text of a value inside a hashed key.
pub fn value_to_key_fragment(value: &Json) -> (text: String)
    ensures
        text@ == key_fragment(value@),
{
    match value {
        Json::Text(s) => s.clone(),
        _ => to_json_text(value),
    }
}

/// The characters of a borrowed string that may be absent.
pub open spec fn opt_str(s: Option<&str>) -> Option<Seq<char>> {
    match s {
        Some(t) => Some(t@),
        None => None,
    }
}

/// Salted hash of an account id.
pub open spec fn account_key_of(salt: Seq<u8>, account_id: Option<Seq<char>>) -> Seq<char> {
    short_hash_of(
        salt,
        "acct="@ + match account_id {
            Some(id) => id,
            None => "none"@,
        },
    )
}

/// Salted hash of the observed account id.
pub fn account_key(salt: &Salt, account_id: Option<&str>) -> (key: String)
    ensures
        key@ == account_key_of(salt@, opt_str(account_id)),
{
    let mut text = "acct=".to_string();
    match account_id {
        Some(id) => text.append(id),
        None => text.append("none"),
    }
    short_hash(salt, text.as_str())
}

/// The request inside an envelope, or the body itself.
pub open spec fn inner_of(body: JsonView) -> JsonView {
    match body.get("request"@) {
        Some(inner) => inner,
        None => body,
    }
}

/// The request inside an envelope, or the body itself.
pub fn inner_request(body: &Json) -> (inner: &Json)
    ensures
        inner@ == inner_of(body@),
{
    match body.get("request") {
        Some(inner) => inner,
        None => body,
    }
}

/// The upstream session identity, inside the request or beside it.
pub open spec fn session_id_of(body: JsonView) -> Option<JsonView> {
    match inner_of(body).get("sessionId"@) {
        Some(id) => Some(id),
        None => body.get("sessionId"@),
    }
}

/// Salted hash of the upstream session identity, if present.
pub open spec fn session_key_of(salt: Seq<u8>, body: JsonView) -> Option<Seq<char>> {
    match session_id_of(body) {
        Some(id) => Some(short_hash_of(salt, "sess="@ + key_fragment(id))),
        None => None,
    }
}

/// Salted hash of the observed upstream session identity, if present.
///
/// `None` means "no sessionId in this request" and is reported explicitly; it is
/// never conflated with another request's missing identity.
pub fn observed_session_key(salt: &Salt, body: &Json) -> (key: Option<String>)
    ensures
        opt_chars(key) == session_key_of(salt@, body@),
{
    let id = match inner_request(body).get("sessionId") {
        Some(id) => Some(id),
        None => body.get("sessionId"),
    };
    match id {
        Some(value) => {
            let mut text = "sess=".to_string();
            text.append(value_to_key_fragment(value).as_str());
            Some(short_hash(salt, text.as_str()))
        },
        None => None,
    }
}

/// The diagnostic trajectory identity plus how it was derived.
pub struct Trajectory {
    pub id: String,
    pub source: &'static str,
}

/// The content of a [`Trajectory`].
pub ghost struct TrajectoryView {
    pub id: Seq<char>,
    pub source: Seq<char>,
}

impl View for Trajectory {
    type V = TrajectoryView;

    open spec fn view(&self) -> TrajectoryView {
        TrajectoryView { id: self.id@, source: self.source@ }
    }
}

/// The texts of the first `n` parts.
pub open spec fn part_texts(parts: Seq<JsonView>, n: int) -> Seq<Seq<char>>
    decreases n,
{
    if n <= 0 || n > parts.len() {
        Seq::empty()
    } else {
        let before = part_texts(parts, n - 1);
        match parts[n - 1].get("text"@) {
            Some(JsonView::Text(s)) => before.push(s),
            _ => before,
        }
    }
}

/// The texts that the user contributed in one content.
pub open spec fn content_user_texts(content: JsonView) -> Seq<Seq<char>> {
    match parts_of(content) {
        Some(parts) => if content.get("role"@) == Some(JsonView::Text("user"@)) {
            part_texts(parts, parts.len() as int)
        } else {
            Seq::empty()
        },
        None => Seq::empty(),
    }
}

/// The texts that the user contributed in the first `n` contents.
pub open spec fn contents_user_texts(contents: Seq<JsonView>, n: int) -> Seq<Seq<char>>
    decreases n,
{
    if n <= 0 || n > contents.len() {
        Seq::empty()
    } else {
        contents_user_texts(contents, n - 1) + content_user_texts(contents[n - 1])
    }
}

/// The texts that the user contributed to a request, in their order.
pub open spec fn user_texts_of(inner: JsonView) -> Seq<Seq<char>> {
    match inner.get("contents"@) {
        Some(JsonView::Array(contents)) => contents_user_texts(contents, contents.len() as int),
        _ => Seq::empty(),
    }
}

/// The characters of the strings of a list.
pub open spec fn string_views(strings: Seq<String>) -> Seq<Seq<char>> {
    Seq::new(strings.len(), |i: int| strings[i]@)
}

/// Appends the texts of the parts of a user's content.
fn push_user_texts(content: &Json, texts: &mut Vec<String>)
    ensures
        string_views(final(texts)@) == string_views(old(texts)@) + content_user_texts(content@),
{
    let ghost before = string_views(texts@);
    let from_user = match content.get("role") {
        Some(role) => match role.as_str() {
            Some(s) => str_eq(s, "user"),
            None => false,
        },
        None => false,
    };
    let parts = match content.get("parts") {
        Some(parts) => parts.as_array(),
        None => None,
    };
    if from_user {
        if let Some(parts) = parts {
            let ghost all = views(parts@);
            let mut i: usize = 0;
            assert(before + part_texts(all, 0) =~= before);
            while i < parts.len()
                invariant
                    i <= parts@.len(),
                    all == views(parts@),
                    string_views(texts@) == before + part_texts(all, i as int),
                decreases parts@.len() - i,
            {
                assert(all[i as int] == parts@[i as int]@);
                let ghost now = texts@;
                if let Some(text) = parts[i].get("text") {
                    if let Some(s) = text.as_str() {
                        texts.push(s.to_string());
                        assert(string_views(texts@) =~= string_views(now).push(s@));
                    }
                }
                i += 1;
                assert(string_views(texts@) =~= before + part_texts(all, i as int));
            }
            return;
        }
    }
    assert(string_views(texts@) =~= before + Seq::<Seq<char>>::empty());
}

/// The texts that the user contributed to a request, in their order. These are
/// what a conversation is recognised by.
pub fn user_texts(inner: &Json) -> (texts: Vec<String>)
    ensures
        string_views(texts@) == user_texts_of(inner@),
{
    let mut texts: Vec<String> = Vec::new();
    assert(string_views(texts@) =~= Seq::<Seq<char>>::empty());
    if let Some(value) = inner.get("contents") {
        if let Some(contents) = value.as_array() {
            let ghost all = views(contents@);
            let mut i: usize = 0;
            while i < contents.len()
                invariant
                    i <= contents@.len(),
                    all == views(contents@),
                    string_views(texts@) == contents_user_texts(all, i as int),
                decreases contents@.len() - i,
            {
                assert(all[i as int] == contents@[i as int]@);
                push_user_texts(&contents[i], &mut texts);
                i += 1;
            }
        }
    }
    texts
}

/// What session management is asked about a request.
pub struct FingerprintRequest {
    /// The user texts that are to be sanitized, in their order.
    pub texts: Vec<String>,
    /// The model that the request names; empty where it names none.
    pub model: String,
}

/// The model that a body names; empty where it names none.
pub open spec fn model_of(body: JsonView) -> Seq<char> {
    match body.get("model"@) {
        Some(JsonView::Text(s)) => s,
        _ => Seq::empty(),
    }
}

/// What session management is to be asked about a request, before its trajectory
/// can be derived: each text is to be sanitized, and the session id is to be
/// extracted from the inner request and the model.
pub fn fingerprint_request(body: &Json) -> (request: FingerprintRequest)
    ensures
        string_views(request.texts@) == user_texts_of(inner_of(body@)),
        request.model@ == model_of(body@),
{
    let model = match body.get("model") {
        Some(value) => match value.as_str() {
            Some(s) => s.to_string(),
            None => String::new(),
        },
        None => String::new(),
    };
    FingerprintRequest { texts: user_texts(inner_request(body)), model }
}

/// What session management reports of a request.
pub struct SessionFingerprint {
    /// The request's user texts, in their order, each sanitized for
    /// fingerprinting.
    pub sanitized_texts: Vec<String>,
    /// The content-derived session id. Only read where the request has a
    /// conversation anchor.
    pub session_id: String,
}

/// The content of a [`SessionFingerprint`].
pub ghost struct FingerprintView {
    pub sanitized_texts: Seq<Seq<char>>,
    pub session_id: Seq<char>,
}

impl View for SessionFingerprint {
    type V = FingerprintView;

    open spec fn view(&self) -> FingerprintView {
        FingerprintView {
            sanitized_texts: string_views(self.sanitized_texts@),
            session_id: self.session_id@,
        }
    }
}

/// Whether some user text of the request is usable as an anchor: it keeps at
/// least two bytes when sanitized.
pub open spec fn anchored(inner: JsonView, sanitized: Seq<Seq<char>>) -> bool {
    exists|k: int|
        0 <= k < user_texts_of(inner).len() && k < sanitized.len() && byte_len(
            #[trigger] sanitized[k],
        ) >= 2
}

/// True when the request has a usable user-text anchor for a stable
/// content-derived conversation fingerprint.
pub fn has_conversation_anchor(inner: &Json, sanitized: &Vec<String>) -> (r: bool)
    ensures
        r == anchored(inner@, string_views(sanitized@)),
{
    let texts = user_texts(inner);
    let ghost all = string_views(sanitized@);
    let mut k: usize = 0;
    while k < texts.len() && k < sanitized.len()
        invariant
            texts@.len() == user_texts_of(inner@).len(),
            all == string_views(sanitized@),
            k <= texts@.len(),
            k <= sanitized@.len(),
            forall|m: int| 0 <= m < k ==> byte_len(#[trigger] all[m]) < 2,
        decreases texts@.len() - k,
    {
        assert(all[k as int] == sanitized@[k as int]@);
        if sanitized[k].as_str().as_bytes().len() >= 2 {
            return true;
        }
        k += 1;
    }
    false
}

/// The bytes by which a field enters the environment fingerprint.
pub open spec fn field_bytes(value: JsonView, key: Seq<char>) -> Seq<u8> {
    (match value.get(key) {
        Some(field) => encode_utf8(json_text(field)),
        None => Seq::empty(),
    }) + seq![0u8]
}

/// The bytes of which the environment fingerprint is the digest.
pub open spec fn env_bytes(salt: Seq<u8>, body: JsonView, inner: JsonView) -> Seq<u8> {
    salt + encode_utf8("env"@) + field_bytes(body, "project"@) + field_bytes(body, "model"@)
        + field_bytes(body, "userAgent"@) + field_bytes(body, "requestType"@) + field_bytes(
        inner,
        "systemInstruction"@,
    ) + field_bytes(inner, "system_instruction"@) + field_bytes(inner, "tools"@)
}

/// Appends the bytes by which a field enters the environment fingerprint.
fn push_field(input: &mut Vec<u8>, value: &Json, key: &str)
    ensures
        final(input)@ == old(input)@ + field_bytes(value@, key@),
{
    let ghost before = input@;
    if let Some(field) = value.get(key) {
        let text = to_json_text(field);
        push_bytes(input, text.as_str().as_bytes());
    }
    input.push(0u8);
    assert(input@ =~= before + field_bytes(value@, key@));
}

/// Environment fallback fingerprint (no conversation anchor available).
/// Explicitly labelled; not a claimed conversation id.
pub fn env_fingerprint(salt: &Salt, body: &Json, inner: &Json) -> (fingerprint: String)
    ensures
        fingerprint@ == hex(sha256(env_bytes(salt@, body@, inner@))),
{
    let mut input: Vec<u8> = bytes_copy(&salt.bytes);
    push_bytes(&mut input, "env".as_bytes());
    push_field(&mut input, body, "project");
    push_field(&mut input, body, "model");
    push_field(&mut input, body, "userAgent");
    push_field(&mut input, body, "requestType");
    push_field(&mut input, inner, "systemInstruction");
    push_field(&mut input, inner, "system_instruction");
    push_field(&mut input, inner, "tools");
    full_sha256_hex(input.as_slice())
}

/// What the trajectory of a request is the hash of.
pub open spec fn trajectory_seed(
    salt: Seq<u8>,
    body: JsonView,
    fingerprint: FingerprintView,
) -> Seq<char> {
    if anchored(inner_of(body), fingerprint.sanitized_texts) {
        fingerprint.session_id
    } else {
        hex(sha256(env_bytes(salt, body, inner_of(body))))
    }
}

/// The trajectory of a request.
pub open spec fn trajectory_of(
    salt: Seq<u8>,
    body: JsonView,
    fingerprint: FingerprintView,
) -> TrajectoryView {
    TrajectoryView {
        id: short_hash_of(salt, "traj|"@ + trajectory_seed(salt, body, fingerprint)),
        source: if anchored(inner_of(body), fingerprint.sanitized_texts) {
            "content_seed"@
        } else {
            "environment_fallback"@
        },
    }
}

/// Derives the diagnostic trajectory from the most stable available
/// conversation identity already present in the request.
pub fn derive_trajectory(
    salt: &Salt,
    body: &Json,
    fingerprint: &SessionFingerprint,
) -> (trajectory: Trajectory)
    ensures
        trajectory@ == trajectory_of(salt@, body@, fingerprint@),
{
    let inner = inner_request(body);
    let anchor = has_conversation_anchor(inner, &fingerprint.sanitized_texts);
    let mut text = "traj|".to_string();
    if anchor {
        text.append(fingerprint.session_id.as_str());
    } else {
        text.append(env_fingerprint(salt, body, inner).as_str());
    }
    Trajectory {
        id: short_hash(salt, text.as_str()),
        source: if anchor {
            "content_seed"
        } else {
            "environment_fallback"
        },
    }
}

} // verus!
