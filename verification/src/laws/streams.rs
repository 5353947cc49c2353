//! What a trajectory depends on, and what is an event within one.

use vstd::prelude::*;
use crate::hashing::short_hash_of;
use crate::identity::{
    account_key_of, anchored, inner_of, key_fragment, session_id_of, session_key_of,
    trajectory_of, FingerprintView,
};
use crate::json::JsonView;
use crate::observe::observed;
use crate::outcome::RequestView;
use crate::store::StoreView;

verus! {

/// Whether two bodies hold the same conversation in the same environment. The
/// upstream session and the request id are not looked at.
pub open spec fn same_stream(a: JsonView, b: JsonView) -> bool {
    &&& a.get("project"@) == b.get("project"@)
    &&& a.get("model"@) == b.get("model"@)
    &&& a.get("userAgent"@) == b.get("userAgent"@)
    &&& a.get("requestType"@) == b.get("requestType"@)
    &&& inner_of(a).get("systemInstruction"@) == inner_of(b).get("systemInstruction"@)
    &&& inner_of(a).get("system_instruction"@) == inner_of(b).get("system_instruction"@)
    &&& inner_of(a).get("tools"@) == inner_of(b).get("tools"@)
    &&& inner_of(a).get("contents"@) == inner_of(b).get("contents"@)
}

/// The trajectory does not depend on the upstream session, nor on whether there
/// is one.
pub proof fn law_trajectory_ignores_the_session(
    salt: Seq<u8>,
    a: JsonView,
    b: JsonView,
    fingerprint: FingerprintView,
)
    requires
        same_stream(a, b),
    ensures
        trajectory_of(salt, a, fingerprint) == trajectory_of(salt, b, fingerprint),
{
    assert(anchored(inner_of(a), fingerprint.sanitized_texts) == anchored(
        inner_of(b),
        fingerprint.sanitized_texts,
    ));
}

/// With a conversation anchor the trajectory is that of the conversation alone.
pub proof fn law_anchored_trajectory_follows_the_conversation(
    salt: Seq<u8>,
    a: JsonView,
    b: JsonView,
    first: FingerprintView,
    second: FingerprintView,
)
    requires
        anchored(inner_of(a), first.sanitized_texts),
        anchored(inner_of(b), second.sanitized_texts),
        first.session_id == second.session_id,
    ensures
        trajectory_of(salt, a, first) == trajectory_of(salt, b, second),
        trajectory_of(salt, a, first).source == "content_seed"@,
{
}

/// A request under another account or another session stays in the stream of its
/// conversation: the observation has the same trajectory and is compared with the
/// same previous snapshot.
pub proof fn law_account_and_session_open_no_stream(
    salt: Seq<u8>,
    store: StoreView,
    a: RequestView,
    b: RequestView,
    fingerprint: FingerprintView,
)
    requires
        same_stream(a.body, b.body),
    ensures
        observed(salt, store, a, fingerprint).trajectory_key == observed(
            salt,
            store,
            b,
            fingerprint,
        ).trajectory_key,
        observed(salt, store, a, fingerprint).previous_bytes == observed(
            salt,
            store,
            b,
            fingerprint,
        ).previous_bytes,
{
    law_trajectory_ignores_the_session(salt, a.body, b.body, fingerprint);
}

/// A change of account or session is reported as an event exactly when the
/// hashed identity differs from that of the previous snapshot; without a
/// previous snapshot there is none.
pub proof fn law_changes_are_events(
    salt: Seq<u8>,
    store: StoreView,
    request: RequestView,
    fingerprint: FingerprintView,
)
    ensures
        ({
            let outcome = observed(salt, store, request, fingerprint);
            let key = trajectory_of(salt, request.body, fingerprint).id;
            let known = store.sessions.contains_key(key);
            &&& outcome.account_changed <==> known && store.sessions[key].account_key
                != account_key_of(salt, request.account_id)
            &&& outcome.session_changed <==> known && store.sessions[key].session_key
                != session_key_of(salt, request.body)
            &&& !known ==> outcome.classification == "NEW_SESSION"@
        }),
{
}

/// A request without a session id has no session key, and only such a request
/// has none.
pub proof fn law_missing_session_is_reported(salt: Seq<u8>, body: JsonView)
    ensures
        session_key_of(salt, body) is None <==> session_id_of(body) is None,
        session_id_of(body) matches Some(id) ==> session_key_of(salt, body) == Some(
            short_hash_of(salt, "sess="@ + key_fragment(id)),
        ),
{
}

} // verus!
