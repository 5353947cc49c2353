//! What the store keeps, how much, and what a later observation finds.

use vstd::prelude::*;
use crate::hashing::sha256;
use crate::identity::{account_key_of, session_key_of, trajectory_of, FingerprintView};
use crate::observe::{is_repeat, is_retained, observed, snapshot_of, store_observes};
use crate::outcome::RequestView;
use crate::snapshot::SnapshotView;
use crate::store::{
    evicted, is_gone, last_gone, lemma_retained_total_bound, lemma_retained_total_remove, over_cap,
    passed_over, recorded, retained_total, StoreView, MAX_RETAINED_BYTES, MAX_SESSIONS,
};
use crate::text::hex;

verus! {

/// A store never holds more trajectories than the maximum, nor more bytes than
/// its ceiling, nor more than the maximum of both together.
pub proof fn law_memory_is_bounded(store: StoreView)
    requires
        store.well_formed(),
    ensures
        store.sessions.dom().len() <= MAX_SESSIONS,
        store.total_bytes <= store.total_cap,
        store.total_bytes <= MAX_SESSIONS * MAX_RETAINED_BYTES,
{
    lemma_retained_total_bound(store.sessions);
    let n = store.sessions.dom().len() as int;
    assert(n * MAX_RETAINED_BYTES <= MAX_SESSIONS * MAX_RETAINED_BYTES) by (nonlinear_arith)
        requires
            n <= MAX_SESSIONS,
    ;
}

/// Whether the sequence numbers of the snapshots tell the order of arrival: each
/// was assigned before the next one to come, and none was assigned twice.
pub open spec fn in_arrival_order(store: StoreView) -> bool {
    &&& forall|key: Seq<char>|
        store.sessions.contains_key(key) ==> (#[trigger] store.sessions[key]).seq < store.seq
    &&& distinct_seqs(store.sessions)
}

/// Whether no two snapshots have the same sequence number.
pub open spec fn distinct_seqs(sessions: Map<Seq<char>, SnapshotView>) -> bool {
    forall|a: Seq<char>, b: Seq<char>|
        sessions.contains_key(a) && sessions.contains_key(b) && a != b ==> (
        #[trigger] sessions[a]).seq != (#[trigger] sessions[b]).seq
}

/// The sequence moves on by one with every observation, and goes on telling the
/// order of arrival, until the last number has been assigned.
pub proof fn law_arrival_order_is_kept(
    salt: Seq<u8>,
    before: StoreView,
    key: Seq<char>,
    request: RequestView,
    after: StoreView,
)
    requires
        in_arrival_order(before),
        before.seq < u64::MAX,
        store_observes(salt, before, key, request, after),
    ensures
        after.seq == before.seq + 1,
        in_arrival_order(after),
{
    if is_retained(before, key, request) {
        let now = recorded(before, key, snapshot_of(salt, request, before.seq));
        assert forall|other: Seq<char>| after.sessions.contains_key(other) implies {
            &&& now.sessions.contains_key(other)
            &&& #[trigger] after.sessions[other] == now.sessions[other]
            &&& now.sessions[other].seq < after.seq
        } by {
            assert(after.sessions.dom().contains(other) && now.sessions.dom().contains(other));
            if other != key {
                assert(before.sessions.contains_key(other));
            }
        }
        assert forall|a: Seq<char>, b: Seq<char>|
            after.sessions.contains_key(a) && after.sessions.contains_key(b) && a != b implies (
        #[trigger] after.sessions[a]).seq != (#[trigger] after.sessions[b]).seq by {
            assert(a != key ==> before.sessions.contains_key(a) && before.sessions[a].seq
                < before.seq);
            assert(b != key ==> before.sessions.contains_key(b) && before.sessions[b].seq
                < before.seq);
        }
    } else {
        assert forall|other: Seq<char>| after.sessions.contains_key(other) implies {
            &&& before.sessions.contains_key(other)
            &&& (#[trigger] after.sessions[other]).seq == before.sessions[other].seq
        } by {}
        assert forall|a: Seq<char>, b: Seq<char>|
            after.sessions.contains_key(a) && after.sessions.contains_key(b) && a != b implies (
        #[trigger] after.sessions[a]).seq != (#[trigger] after.sessions[b]).seq by {
            assert(before.sessions[a].seq != before.sessions[b].seq);
        }
    }
}

/// An observation touches no other trajectory: what is still held under another
/// key is what was held there before.
pub proof fn law_other_trajectories_are_untouched(
    salt: Seq<u8>,
    before: StoreView,
    key: Seq<char>,
    request: RequestView,
    after: StoreView,
    other: Seq<char>,
)
    requires
        store_observes(salt, before, key, request, after),
        other != key,
        after.sessions.contains_key(other),
    ensures
        before.sessions.contains_key(other),
        after.sessions[other] == before.sessions[other],
{
    if is_retained(before, key, request) {
        let now = recorded(before, key, snapshot_of(salt, request, before.seq));
        assert(after.sessions.dom().contains(other) && now.sessions.dom().contains(other));
    }
}

/// A body that is too large is not retained, and takes nothing's place.
pub proof fn law_oversized_body_is_not_retained(
    salt: Seq<u8>,
    before: StoreView,
    key: Seq<char>,
    request: RequestView,
    after: StoreView,
)
    requires
        request.serialized.len() > MAX_RETAINED_BYTES,
        store_observes(salt, before, key, request, after),
    ensures
        after == passed_over(before),
        after.sessions == before.sessions,
{
}

/// The bytes of a single snapshot.
proof fn lemma_single_total(key: Seq<char>, value: SnapshotView)
    ensures
        retained_total(Map::<Seq<char>, SnapshotView>::empty().insert(key, value))
            == value.bytes.len(),
        Map::<Seq<char>, SnapshotView>::empty().insert(key, value).dom().len() == 1,
{
    let none = Map::<Seq<char>, SnapshotView>::empty();
    let one = none.insert(key, value);
    assert(one.dom() =~= Set::<Seq<char>>::empty().insert(key));
    lemma_retained_total_remove(one, key);
    assert(one.remove(key) =~= none);
    assert(none.dom().len() == 0);
}

/// The snapshot that an observation retains is there afterwards: eviction takes
/// the oldest first, and the newest fits on its own.
pub proof fn law_newest_snapshot_stays(
    salt: Seq<u8>,
    before: StoreView,
    key: Seq<char>,
    request: RequestView,
    after: StoreView,
)
    requires
        in_arrival_order(before),
        is_retained(before, key, request),
        request.serialized.len() <= before.total_cap,
        store_observes(salt, before, key, request, after),
    ensures
        after.sessions.contains_key(key),
        after.sessions[key] == snapshot_of(salt, request, before.seq),
{
    let snapshot = snapshot_of(salt, request, before.seq);
    let now = recorded(before, key, snapshot);
    if !after.sessions.contains_key(key) {
        assert(is_gone(now, after, key));
        assert forall|kept: Seq<char>| !after.sessions.contains_key(kept) by {
            if after.sessions.contains_key(kept) {
                assert(after.sessions.dom().contains(kept) && now.sessions.dom().contains(kept));
                assert(now.sessions[key].seq <= now.sessions[kept].seq);
                assert(before.sessions.contains_key(kept));
            }
        }
        assert(after.sessions =~= Map::<Seq<char>, SnapshotView>::empty());
        assert(now.sessions.contains_key(key));
        let last = choose|last: Seq<char>| last_gone(now, after, last);
        assert(last_gone(now, after, last));
        if last != key {
            assert(now.sessions[key].seq <= now.sessions[last].seq);
            assert(before.sessions.contains_key(last));
        }
        lemma_single_total(key, snapshot);
    }
    assert(after.sessions.dom().contains(key) && now.sessions.dom().contains(key));
}

/// Where the previous snapshot of a trajectory is that of the same request, the
/// request is recognised as a repetition: all its bytes are in common, neither
/// account nor session has changed, and nothing is retained anew.
pub proof fn law_same_request_is_deduped(
    salt: Seq<u8>,
    store: StoreView,
    request: RequestView,
    fingerprint: FingerprintView,
    seq: u64,
)
    requires
        ({
            let key = trajectory_of(salt, request.body, fingerprint).id;
            &&& store.sessions.contains_key(key)
            &&& store.sessions[key] == snapshot_of(salt, request, seq)
        }),
    ensures
        ({
            let key = trajectory_of(salt, request.body, fingerprint).id;
            let outcome = observed(salt, store, request, fingerprint);
            &&& outcome.classification == "DEDUPED"@
            &&& outcome.previous_bytes == Some(request.serialized.len())
            &&& outcome.lcp_bytes == Some(request.serialized.len())
            &&& outcome.first_diff_offset == Some(request.serialized.len())
            &&& !outcome.account_changed
            &&& !outcome.session_changed
            &&& is_repeat(store, key, request) || request.serialized.len() > MAX_RETAINED_BYTES
            &&& !is_retained(store, key, request)
        }),
{
}

/// What a snapshot tells of account and session is what was observed on the
/// previous call of the trajectory, whether that call brought new bytes or
/// repeated the old ones.
pub proof fn law_snapshot_is_of_the_previous_call(
    salt: Seq<u8>,
    before: StoreView,
    key: Seq<char>,
    request: RequestView,
    after: StoreView,
)
    requires
        request.serialized.len() <= MAX_RETAINED_BYTES,
        store_observes(salt, before, key, request, after),
        after.sessions.contains_key(key),
    ensures
        after.sessions[key].sha256_hex == hex(sha256(request.serialized)),
        after.sessions[key].account_key == account_key_of(salt, request.account_id),
        after.sessions[key].session_key == session_key_of(salt, request.body),
{
    if is_retained(before, key, request) {
        let now = recorded(before, key, snapshot_of(salt, request, before.seq));
        assert(after.sessions.dom().contains(key) && now.sessions.dom().contains(key));
    }
}

/// A change of account or session is reported exactly when it happened since the
/// previous call of the trajectory.
pub proof fn law_changes_are_since_the_previous_call(
    salt: Seq<u8>,
    before: StoreView,
    first: RequestView,
    first_fingerprint: FingerprintView,
    after: StoreView,
    second: RequestView,
    second_fingerprint: FingerprintView,
)
    requires
        first.serialized.len() <= MAX_RETAINED_BYTES,
        ({
            let key = trajectory_of(salt, first.body, first_fingerprint).id;
            &&& trajectory_of(salt, second.body, second_fingerprint).id == key
            &&& store_observes(salt, before, key, first, after)
            &&& after.sessions.contains_key(key)
        }),
    ensures
        observed(salt, after, second, second_fingerprint).account_changed <==> account_key_of(
            salt,
            first.account_id,
        ) != account_key_of(salt, second.account_id),
        observed(salt, after, second, second_fingerprint).session_changed <==> session_key_of(
            salt,
            first.body,
        ) != session_key_of(salt, second.body),
{
    let key = trajectory_of(salt, first.body, first_fingerprint).id;
    law_snapshot_is_of_the_previous_call(salt, before, key, first, after);
}

/// A repetition takes nothing's place: whatever was held is still held, with the
/// same bytes and the same age.
pub proof fn law_repetition_keeps_the_bytes(
    salt: Seq<u8>,
    before: StoreView,
    key: Seq<char>,
    request: RequestView,
    after: StoreView,
)
    requires
        is_repeat(before, key, request),
        store_observes(salt, before, key, request, after),
    ensures
        after.sessions.dom() == before.sessions.dom(),
        after.total_bytes == before.total_bytes,
        after.sessions[key].bytes == before.sessions[key].bytes,
        after.sessions[key].seq == before.sessions[key].seq,
{
    assert(after.sessions.dom() =~= before.sessions.dom());
}

/// An observation reads back what the one before it wrote: a request that was
/// retained and comes again is deduped.
pub proof fn law_repetition_is_deduped(
    salt: Seq<u8>,
    before: StoreView,
    request: RequestView,
    fingerprint: FingerprintView,
    after: StoreView,
)
    requires
        in_arrival_order(before),
        request.serialized.len() <= before.total_cap,
        ({
            let key = trajectory_of(salt, request.body, fingerprint).id;
            &&& is_retained(before, key, request)
            &&& store_observes(salt, before, key, request, after)
        }),
    ensures
        observed(salt, after, request, fingerprint).classification == "DEDUPED"@,
        observed(salt, after, request, fingerprint).lcp_bytes == Some(request.serialized.len()),
        !is_retained(after, trajectory_of(salt, request.body, fingerprint).id, request),
{
    let key = trajectory_of(salt, request.body, fingerprint).id;
    law_newest_snapshot_stays(salt, before, key, request, after);
    law_same_request_is_deduped(salt, after, request, fingerprint, before.seq);
}

/// Fewer snapshots hold no more bytes.
pub proof fn lemma_retained_total_monotone(
    few: Map<Seq<char>, SnapshotView>,
    many: Map<Seq<char>, SnapshotView>,
)
    requires
        many.dom().finite(),
        few.submap_of(many),
    ensures
        few.dom().finite(),
        retained_total(few) <= retained_total(many),
        few.dom().len() <= many.dom().len(),
    decreases many.dom().len(),
{
    assert(few.dom().subset_of(many.dom()));
    vstd::set_lib::lemma_len_subset(few.dom(), many.dom());
    if few.dom().len() > 0 {
        let key = few.dom().choose();
        assert(few.dom().contains(key) && many.dom().contains(key));
        lemma_retained_total_remove(few, key);
        lemma_retained_total_remove(many, key);
        assert forall|other: Seq<char>|
            few.remove(key).dom().contains(other) implies #[trigger] many.remove(
            key,
        ).dom().contains(other) && few.remove(key)[other] == many.remove(key)[other] by {
            assert(few.dom().contains(other) && many.dom().contains(other));
        }
        lemma_retained_total_monotone(few.remove(key), many.remove(key));
    }
}

/// Of two results of an eviction neither keeps less than the other.
proof fn lemma_eviction_keeps_as_much(before: StoreView, a: StoreView, b: StoreView)
    requires
        before.sessions.dom().finite(),
        distinct_seqs(before.sessions),
        evicted(before, a),
        evicted(before, b),
    ensures
        b.sessions.submap_of(a.sessions),
{
    assert forall|key: Seq<char>| #[trigger]
        b.sessions.dom().contains(key) implies a.sessions.dom().contains(key) && a.sessions[key]
        == b.sessions[key] by {
        assert(before.sessions.dom().contains(key) && b.sessions[key] == before.sessions[key]);
        if !a.sessions.contains_key(key) {
            assert(is_gone(before, a, key));
            let last = choose|last: Seq<char>| last_gone(before, a, last);
            assert(last_gone(before, a, last));
            assert(before.sessions[key].seq <= before.sessions[last].seq);
            if !b.sessions.contains_key(last) {
                assert(is_gone(before, b, last));
                assert(before.sessions[last].seq <= before.sessions[key].seq);
            }
            let more = a.sessions.insert(last, before.sessions[last]);
            assert forall|other: Seq<char>| #[trigger]
                more.dom().contains(other) implies b.sessions.dom().contains(other)
                && b.sessions[other] == more[other] by {
                assert(before.sessions.dom().contains(other));
                if !b.sessions.contains_key(other) {
                    // What stayed in one but left the other would be both older
                    // and newer than the last to go.
                    assert(is_gone(before, b, other));
                    assert(before.sessions[other].seq <= before.sessions[last].seq);
                    assert(a.sessions.dom().contains(other));
                    assert(before.sessions[last].seq <= before.sessions[other].seq);
                }
                assert(b.sessions.dom().contains(other));
            }
            vstd::set_lib::lemma_len_subset(b.sessions.dom(), before.sessions.dom());
            lemma_retained_total_monotone(more, b.sessions);
            assert(over_cap(b.sessions, b.total_cap));
        }
        assert(a.sessions.dom().contains(key));
    }
}

/// What an eviction leaves is determined: the newest snapshots, as many as both
/// ceilings allow.
pub proof fn law_eviction_is_determined(before: StoreView, a: StoreView, b: StoreView)
    requires
        before.sessions.dom().finite(),
        distinct_seqs(before.sessions),
        evicted(before, a),
        evicted(before, b),
    ensures
        a == b,
{
    lemma_eviction_keeps_as_much(before, a, b);
    lemma_eviction_keeps_as_much(before, b, a);
    assert(a.sessions =~= b.sessions);
}

} // verus!
