//! Observation of serialized requests: compare with the previous snapshot of the
//! trajectory, then take its place.

use vstd::prelude::*;
use crate::hashing::{bytes_copy, sha256, Salt};
use crate::identity::{
    account_key_of, derive_trajectory, opt_str, session_key_of, string_views, trajectory_of,
    FingerprintView, SessionFingerprint,
};
use crate::json::Json;
use crate::outcome::{
    copy_opt_string, observe_inner, outcome_of, parsed_previous, DiagnosticOutcome, OutcomeView,
    RequestView,
};
use crate::registry::{body_observations, emit_for_body, observation_lines, Registry};
use crate::snapshot::{Snapshot, SnapshotView};
use crate::store::{
    evicted, lemma_retained_total_exchange, lemma_retained_total_remove, passed_over, previous,
    recorded, repeated, Store, StoreView, MAX_RETAINED_BYTES,
};
use crate::text::{hex, str_eq};

verus! {

/// Returns true when the flag is set to "1".
pub fn is_enabled(flag: Option<&str>) -> (enabled: bool)
    ensures
        enabled == (opt_str(flag) == Some("1"@)),
{
    match flag {
        Some(value) => str_eq(value, "1"),
        None => false,
    }
}

/// The state of the diagnostics of one process.
pub struct Diagnostics {
    pub salt: Salt,
    pub store: Store,
    pub registry: Registry,
}

/// What one observation gives: the outcome, and the lines that attribute the
/// signatures of the observed body.
pub struct Observation {
    pub outcome: DiagnosticOutcome,
    pub signature_lines: Vec<String>,
}

/// The snapshot that an observed request leaves.
pub open spec fn snapshot_of(salt: Seq<u8>, request: RequestView, seq: u64) -> SnapshotView {
    SnapshotView {
        bytes: request.serialized,
        sha256_hex: hex(sha256(request.serialized)),
        seq,
        account_key: account_key_of(salt, request.account_id),
        session_key: session_key_of(salt, request.body),
    }
}

/// Whether an observed request has the digest of the previous snapshot.
pub open spec fn same_digest(store: StoreView, key: Seq<char>, request: RequestView) -> bool {
    store.sessions.contains_key(key) && store.sessions[key].sha256_hex == hex(
        sha256(request.serialized),
    )
}

/// Whether an observed request takes the place of the previous snapshot: it is
/// small enough and not the same bytes again.
pub open spec fn is_retained(store: StoreView, key: Seq<char>, request: RequestView) -> bool {
    request.serialized.len() <= MAX_RETAINED_BYTES && !same_digest(store, key, request)
}

/// Whether an observed request repeats the previous snapshot: it is small enough
/// to have been retained, and the same bytes again.
pub open spec fn is_repeat(store: StoreView, key: Seq<char>, request: RequestView) -> bool {
    request.serialized.len() <= MAX_RETAINED_BYTES && same_digest(store, key, request)
}

/// How a store changes when a request is observed under a trajectory: a new
/// request is recorded, of a repeated one the account and the session are, and of
/// one that is too large nothing.
pub open spec fn store_observes(
    salt: Seq<u8>,
    before: StoreView,
    key: Seq<char>,
    request: RequestView,
    after: StoreView,
) -> bool {
    if is_retained(before, key, request) {
        evicted(recorded(before, key, snapshot_of(salt, request, before.seq)), after)
    } else if is_repeat(before, key, request) {
        after == repeated(
            before,
            key,
            account_key_of(salt, request.account_id),
            session_key_of(salt, request.body),
        )
    } else {
        after == passed_over(before)
    }
}

/// The outcome of observing a request.
pub open spec fn observed(
    salt: Seq<u8>,
    store: StoreView,
    request: RequestView,
    fingerprint: FingerprintView,
) -> OutcomeView {
    let trajectory = trajectory_of(salt, request.body, fingerprint);
    let prev = previous(store, trajectory.id);
    outcome_of(salt, prev, parsed_previous(prev), request, trajectory, store.seq)
}

/// The observation itself, whatever the flag says. The sequence number is assigned
/// together with the compare-and-update, so that order means serialization
/// arrival order. `emit` asks for the signature lines.
pub fn observe_gated(
    diagnostics: &mut Diagnostics,
    emit: bool,
    serialized: &[u8],
    body: &Json,
    method: &str,
    account_id: Option<&str>,
    fingerprint: &SessionFingerprint,
) -> (observation: Observation)
    requires
        old(diagnostics).store@.well_formed(),
    ensures
        final(diagnostics).salt == old(diagnostics).salt,
        final(diagnostics).registry == old(diagnostics).registry,
        final(diagnostics).store@.well_formed(),
        ({
            let salt = old(diagnostics).salt@;
            let before = old(diagnostics).store@;
            let request = RequestView {
                serialized: serialized@,
                body: body@,
                method: method@,
                account_id: opt_str(account_id),
            };
            let key = trajectory_of(salt, body@, fingerprint@).id;
            &&& observation.outcome@ == observed(salt, before, request, fingerprint@)
            &&& store_observes(salt, before, key, request, final(diagnostics).store@)
            &&& string_views(observation.signature_lines@) == (if emit {
                observation_lines(
                    body_observations(salt, old(diagnostics).registry@, body@),
                    key,
                    before.seq,
                )
            } else {
                Seq::empty()
            })
        }),
{
    let ghost before = diagnostics.store@;
    let ghost request = RequestView {
        serialized: serialized@,
        body: body@,
        method: method@,
        account_id: opt_str(account_id),
    };
    let trajectory = derive_trajectory(&diagnostics.salt, body, fingerprint);
    let ghost key = trajectory.id@;
    let seq: u64 = diagnostics.store.take_seq();
    let prev = diagnostics.store.take_snapshot(trajectory.id.as_str());
    let outcome = observe_inner(
        &diagnostics.salt,
        match &prev {
            Some(snapshot) => Some(snapshot),
            None => None,
        },
        serialized,
        body,
        method,
        account_id,
        &trajectory,
        seq,
    );
    let deduped = match &prev {
        Some(snapshot) => str_eq(
            snapshot.sha256_hex.as_str(),
            outcome.current_sha256.as_str(),
        ),
        None => false,
    };
    proof {
        assert(before.sessions.remove(key).dom() =~= before.sessions.dom().remove(key));
        if before.sessions.contains_key(key) {
            lemma_retained_total_remove(before.sessions, key);
        } else {
            assert(before.sessions.remove(key) =~= before.sessions);
        }
    }
    if !deduped && serialized.len() <= MAX_RETAINED_BYTES {
        let prev_len: usize = match &prev {
            Some(snapshot) => snapshot.bytes.len(),
            None => 0,
        };
        let snapshot = Snapshot {
            bytes: bytes_copy(serialized),
            sha256_hex: outcome.current_sha256.clone(),
            seq,
            account_key: outcome.account_key.clone(),
            session_key: copy_opt_string(&outcome.session_key),
        };
        assert(snapshot@ == snapshot_of(diagnostics.salt@, request, before.seq));
        assert(before.sessions.remove(key).insert(key, snapshot@) =~= before.sessions.insert(
            key,
            snapshot@,
        ));
        diagnostics.store.replace(trajectory.id.as_str(), prev_len, snapshot);
    } else {
        if let Some(snapshot) = prev {
            let ghost was = snapshot@;
            let snapshot = if deduped && serialized.len() <= MAX_RETAINED_BYTES {
                // The bytes are the same; who sent them may not be.
                Snapshot {
                    bytes: snapshot.bytes,
                    sha256_hex: snapshot.sha256_hex,
                    seq: snapshot.seq,
                    account_key: outcome.account_key.clone(),
                    session_key: copy_opt_string(&outcome.session_key),
                }
            } else {
                snapshot
            };
            let ghost now = snapshot@;
            diagnostics.store.put_back(trajectory.id.as_str(), snapshot);
            proof {
                lemma_retained_total_exchange(before.sessions, key, now);
                assert(before.sessions.remove(key).insert(key, now) =~= before.sessions.insert(
                    key,
                    now,
                ));
                assert(now == was ==> before.sessions.insert(key, now) =~= before.sessions);
                assert forall|other: Seq<char>|
                    diagnostics.store@.sessions.contains_key(other) implies (
                #[trigger] diagnostics.store@.sessions[other]).bytes.len() <= MAX_RETAINED_BYTES by {
                    assert(before.sessions.contains_key(other));
                    assert(before.sessions[other].bytes.len() <= MAX_RETAINED_BYTES);
                }
            }
        } else {
            assert(diagnostics.store@.sessions =~= before.sessions);
        }
    }
    let signature_lines = emit_for_body(
        emit,
        &diagnostics.salt,
        &diagnostics.registry,
        body,
        trajectory.id.as_str(),
        seq,
    );
    Observation { outcome, signature_lines }
}

/// Read-only observation of the exact serialized request bytes.
///
/// When diagnostics are disabled this returns immediately and performs no work.
pub fn observe(
    diagnostics: &mut Diagnostics,
    enabled: bool,
    serialized: &[u8],
    body: &Json,
    method: &str,
    account_id: Option<&str>,
    fingerprint: &SessionFingerprint,
) -> (observation: Option<Observation>)
    requires
        old(diagnostics).store@.well_formed(),
    ensures
        final(diagnostics).store@.well_formed(),
        observation is Some <==> enabled,
        !enabled ==> *final(diagnostics) == *old(diagnostics),
        enabled ==> {
            let salt = old(diagnostics).salt@;
            let before = old(diagnostics).store@;
            let request = RequestView {
                serialized: serialized@,
                body: body@,
                method: method@,
                account_id: opt_str(account_id),
            };
            let key = trajectory_of(salt, body@, fingerprint@).id;
            &&& final(diagnostics).salt == old(diagnostics).salt
            &&& final(diagnostics).registry == old(diagnostics).registry
            &&& observation->0.outcome@ == observed(salt, before, request, fingerprint@)
            &&& store_observes(salt, before, key, request, final(diagnostics).store@)
            &&& string_views(observation->0.signature_lines@) == observation_lines(
                body_observations(salt, old(diagnostics).registry@, body@),
                key,
                before.seq,
            )
        },
{
    if !enabled {
        return None;
    }
    Some(observe_gated(diagnostics, true, serialized, body, method, account_id, fingerprint))
}

} // verus!
