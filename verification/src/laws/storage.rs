//! How the store and the registry change, snapshot by snapshot and plan by plan.

use vstd::prelude::*;
use crate::hashing::sha256;
use crate::history::MIN_REAL_SIGNATURE_LEN;
use crate::identity::{account_key_of, session_key_of};
use crate::laws::retention::lemma_retained_total_monotone;
use crate::observe::{
    is_repeat, is_retained, same_digest, snapshot_of, store_observes,
};
use crate::outcome::RequestView;
use crate::registry::{plans_evicted, RegistryView, MAX_RETAINED_PLANS};
use crate::snapshot::SnapshotView;
use crate::store::{
    is_gone, last_gone, lemma_retained_total_insert, lemma_retained_total_remove, over_cap,
    previous, recorded, retained_total, StoreView, MAX_RETAINED_BYTES, MAX_SESSIONS,
    MAX_TOTAL_RETAINED_BYTES,
};
use crate::text::hex;

verus! {

/// The limits of the library.
pub proof fn law_limits()
    ensures
        MAX_SESSIONS == 64,
        MAX_RETAINED_BYTES == 4 * 1024 * 1024,
        MAX_TOTAL_RETAINED_BYTES == 128 * 1024 * 1024,
        MAX_RETAINED_PLANS == 256,
        MIN_REAL_SIGNATURE_LEN == 50,
{
}

/// The retained bytes are those of all snapshots together.
pub proof fn law_retained_bytes(
    sessions: Map<Seq<char>, SnapshotView>,
    key: Seq<char>,
    value: SnapshotView,
)
    requires
        sessions.dom().finite(),
    ensures
        retained_total(Map::empty()) == 0,
        !sessions.contains_key(key) ==> retained_total(sessions.insert(key, value))
            == retained_total(sessions) + value.bytes.len(),
        sessions.contains_key(key) ==> retained_total(sessions.remove(key)) == retained_total(
            sessions,
        ) - sessions[key].bytes.len(),
{
    if sessions.contains_key(key) {
        lemma_retained_total_remove(sessions, key);
    } else {
        lemma_retained_total_insert(sessions, key, value);
    }
}

/// A store is well-formed when its byte count is that of its snapshots, each of which
/// is small enough to be retained, and when neither their number nor their bytes
/// exceed a limit.
pub proof fn law_well_formed_store(store: StoreView)
    ensures
        store.well_formed() <==> {
            &&& store.sessions.dom().finite()
            &&& store.sessions.dom().len() <= 64
            &&& store.total_bytes == retained_total(store.sessions)
            &&& store.total_bytes <= store.total_cap
            &&& forall|key: Seq<char>|
                store.sessions.contains_key(key) ==> (#[trigger] store.sessions[key]).bytes.len()
                    <= 4 * 1024 * 1024
        },
{
}

/// What a store holds under a key.
pub proof fn law_previous_snapshot(store: StoreView, key: Seq<char>)
    ensures
        store.sessions.contains_key(key) ==> previous(store, key) == Some(store.sessions[key]),
        !store.sessions.contains_key(key) ==> previous(store, key) is None,
{
}

/// A snapshot holds the bytes of a request and their digest, the sequence number, and
/// the keys of the account and the session.
pub proof fn law_snapshot_of_a_request(salt: Seq<u8>, request: RequestView, seq: u64)
    ensures
        snapshot_of(salt, request, seq).bytes == request.serialized,
        snapshot_of(salt, request, seq).sha256_hex == hex(sha256(request.serialized)),
        snapshot_of(salt, request, seq).seq == seq,
        snapshot_of(salt, request, seq).account_key == account_key_of(salt, request.account_id),
        snapshot_of(salt, request, seq).session_key == session_key_of(salt, request.body),
{
}

/// A request that is small enough, and has not the digest of the previous one of its
/// trajectory, is retained; one that has is a repetition. A request that is too large
/// is neither.
pub proof fn law_what_is_retained(store: StoreView, key: Seq<char>, request: RequestView)
    ensures
        ({
            let small = request.serialized.len() <= 4 * 1024 * 1024;
            let same = store.sessions.contains_key(key) && store.sessions[key].sha256_hex == hex(
                sha256(request.serialized),
            );
            &&& same_digest(store, key, request) <==> same
            &&& is_retained(store, key, request) <==> small && !same
            &&& is_repeat(store, key, request) <==> small && same
        }),
{
}

/// After an observation that retains nothing only the sequence has moved on, by one;
/// behind the last number it starts again.
pub proof fn law_nothing_retained(
    salt: Seq<u8>,
    before: StoreView,
    key: Seq<char>,
    request: RequestView,
    after: StoreView,
)
    requires
        request.serialized.len() > 4 * 1024 * 1024,
        store_observes(salt, before, key, request, after),
    ensures
        after.sessions == before.sessions,
        after.total_bytes == before.total_bytes,
        after.total_cap == before.total_cap,
        before.seq < u64::MAX ==> after.seq == before.seq + 1,
        before.seq == u64::MAX ==> after.seq == 0,
{
}

/// After a repetition the snapshot has the account and the session of the repeated
/// call, and everything else is as it was.
pub proof fn law_repetition(
    salt: Seq<u8>,
    before: StoreView,
    key: Seq<char>,
    request: RequestView,
    after: StoreView,
)
    requires
        request.serialized.len() <= 4 * 1024 * 1024,
        before.sessions.contains_key(key),
        before.sessions[key].sha256_hex == hex(sha256(request.serialized)),
        store_observes(salt, before, key, request, after),
    ensures
        after.sessions.dom() == before.sessions.dom(),
        forall|other: Seq<char>|
            other != key && before.sessions.contains_key(other) ==> #[trigger] after.sessions[other]
                == before.sessions[other],
        after.sessions[key].bytes == before.sessions[key].bytes,
        after.sessions[key].sha256_hex == before.sessions[key].sha256_hex,
        after.sessions[key].seq == before.sessions[key].seq,
        after.sessions[key].account_key == account_key_of(salt, request.account_id),
        after.sessions[key].session_key == session_key_of(salt, request.body),
        after.total_bytes == before.total_bytes,
        after.total_cap == before.total_cap,
        before.seq < u64::MAX ==> after.seq == before.seq + 1,
        before.seq == u64::MAX ==> after.seq == 0,
{
    assert(after.sessions.dom() =~= before.sessions.dom());
}

/// The snapshots before anything had to go: those of before, with the new one in its
/// place.
pub open spec fn with_the_new_one(
    salt: Seq<u8>,
    before: StoreView,
    key: Seq<char>,
    request: RequestView,
) -> Map<Seq<char>, SnapshotView> {
    before.sessions.insert(
        key,
        SnapshotView {
            bytes: request.serialized,
            sha256_hex: hex(sha256(request.serialized)),
            seq: before.seq,
            account_key: account_key_of(salt, request.account_id),
            session_key: session_key_of(salt, request.body),
        },
    )
}

/// A new request takes the place of the previous one of its trajectory. What stays is
/// as it was, within both limits; where both hold already, all stays; no snapshot
/// that has to go is newer than one that stays; and with the last one that had to go
/// a limit would be exceeded.
pub proof fn law_new_request(
    salt: Seq<u8>,
    before: StoreView,
    key: Seq<char>,
    request: RequestView,
    after: StoreView,
)
    requires
        before.sessions.dom().finite(),
        request.serialized.len() <= 4 * 1024 * 1024,
        !(before.sessions.contains_key(key) && before.sessions[key].sha256_hex == hex(
            sha256(request.serialized),
        )),
        store_observes(salt, before, key, request, after),
    ensures
        ({
            let all = with_the_new_one(salt, before, key, request);
            &&& forall|other: Seq<char>|
                after.sessions.contains_key(other) ==> all.contains_key(other)
                    && #[trigger] after.sessions[other] == all[other]
            &&& after.sessions.dom().len() <= 64
            &&& retained_total(after.sessions) <= before.total_cap
            &&& after.total_bytes == retained_total(after.sessions)
            &&& after.total_cap == before.total_cap
            &&& all.dom().len() <= 64 && retained_total(all) <= before.total_cap ==> after.sessions
                == all
            &&& forall|gone: Seq<char>, kept: Seq<char>|
                all.contains_key(gone) && !after.sessions.contains_key(gone)
                    && after.sessions.contains_key(kept) ==> (#[trigger] all[gone]).seq <= (
                #[trigger] all[kept]).seq
            &&& after.sessions != all ==> exists|last: Seq<char>|
                all.contains_key(last) && !after.sessions.contains_key(last) && {
                    let more = #[trigger] after.sessions.insert(last, all[last]);
                    more.dom().len() > 64 || retained_total(more) > before.total_cap
                }
        }),
        before.seq < u64::MAX ==> after.seq == before.seq + 1,
        before.seq == u64::MAX ==> after.seq == 0,
{
    let now = recorded(before, key, snapshot_of(salt, request, before.seq));
    let all = with_the_new_one(salt, before, key, request);
    assert(now.sessions == all);
    assert(all.dom() =~= before.sessions.dom().insert(key));
    assert forall|other: Seq<char>| after.sessions.contains_key(other) implies all.contains_key(
        other,
    ) && #[trigger] after.sessions[other] == all[other] by {
        assert(after.sessions.dom().contains(other) && all.dom().contains(other));
    }
    assert forall|gone: Seq<char>, kept: Seq<char>|
        all.contains_key(gone) && !after.sessions.contains_key(gone)
            && after.sessions.contains_key(kept) implies (#[trigger] all[gone]).seq <= (
    #[trigger] all[kept]).seq by {
        assert(is_gone(now, after, gone));
    }
    if after.sessions != all {
        let last = choose|last: Seq<char>| last_gone(now, after, last);
        assert(last_gone(now, after, last));
        let more = after.sessions.insert(last, all[last]);
        assert(over_cap(more, after.total_cap));
        assert forall|other: Seq<char>| #[trigger] more.dom().contains(other) implies all.dom().contains(
            other,
        ) && more[other] == all[other] by {
            if other != last {
                assert(after.sessions.dom().contains(other) && all.dom().contains(other));
            }
        }
        lemma_retained_total_monotone(more, all);
    }
}

/// Of the plans of a registry at most the maximum stays: as many as there are up to
/// it, none that has to go is newer than one that stays, and what stays is as it was.
pub proof fn law_plans_that_stay(before: RegistryView, after: RegistryView)
    requires
        before.plans.dom().finite(),
        plans_evicted(before, after),
    ensures
        after.seq == before.seq,
        forall|key: Seq<char>|
            after.plans.contains_key(key) ==> before.plans.contains_key(key)
                && #[trigger] after.plans[key] == before.plans[key],
        before.plans.dom().len() <= 256 ==> after.plans == before.plans,
        before.plans.dom().len() > 256 ==> after.plans.dom().len() == 256,
        forall|gone: Seq<char>, kept: Seq<char>|
            before.plans.contains_key(gone) && !after.plans.contains_key(gone)
                && after.plans.contains_key(kept) ==> (#[trigger] before.plans[gone]).seq <= (
            #[trigger] before.plans[kept]).seq,
{
    assert forall|key: Seq<char>| after.plans.contains_key(key) implies before.plans.contains_key(
        key,
    ) && #[trigger] after.plans[key] == before.plans[key] by {
        assert(after.plans.dom().contains(key) && before.plans.dom().contains(key));
    }
    assert(after.plans.dom().subset_of(before.plans.dom()));
    vstd::set_lib::lemma_len_subset(after.plans.dom(), before.plans.dom());
    if before.plans.dom().len() <= 256 {
        if exists|key: Seq<char>|
            before.plans.contains_key(key) && !(#[trigger] after.plans.contains_key(key)) {
            let key = choose|key: Seq<char>|
                before.plans.contains_key(key) && !(#[trigger] after.plans.contains_key(key));
            assert(after.plans.dom().subset_of(before.plans.dom().remove(key)));
            vstd::set_lib::lemma_len_subset(after.plans.dom(), before.plans.dom().remove(key));
        }
        assert(after.plans =~= before.plans);
    }
}

} // verus!
