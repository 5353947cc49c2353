//! The bounded store of previous snapshots, one per trajectory.
//!
//! Only the exact serialized bytes are retained per trajectory. They are bounded
//! by `MAX_TOTAL_RETAINED_BYTES` and additionally by `MAX_SESSIONS *
//! MAX_RETAINED_BYTES`; eviction is oldest-first until both the session count and
//! the byte ceiling hold.

use vstd::prelude::*;
use crate::eviction::oldest;
use crate::registry::next_seq;
use crate::sessions::{
    held_snapshots, insert_session, new_sessions, remove_session, session_ages, session_len,
};
use crate::snapshot::{Snapshot, SnapshotView};
use dashmap::DashMap;

verus! {

/// Maximum number of trajectories retained in the previous-snapshot store.
/// On overflow the entry with the smallest sequence is evicted.
pub const MAX_SESSIONS: usize = 64;

/// Maximum serialized body size (bytes) that will be retained for diffing.
/// Requests larger than this are not stored (the current call is still
/// diagnosed against any existing previous snapshot).
pub const MAX_RETAINED_BYTES: usize = 4 * 1024 * 1024;

/// Global ceiling on retained serialized bytes across all trajectories.
/// Eviction is oldest-first until both this and `MAX_SESSIONS` hold.
pub const MAX_TOTAL_RETAINED_BYTES: usize = 128 * 1024 * 1024;

/// The previous snapshots.
pub struct Store {
    sessions: DashMap<String, Snapshot>,
    seq: u64,
    total_bytes: usize,
    total_cap: usize,
}

/// The content of a [`Store`].
pub ghost struct StoreView {
    pub sessions: Map<Seq<char>, SnapshotView>,
    pub seq: u64,
    pub total_bytes: nat,
    pub total_cap: nat,
}

impl View for Store {
    type V = StoreView;

    closed spec fn view(&self) -> StoreView {
        StoreView {
            sessions: held_snapshots(self.sessions).map_values(|s: Snapshot| s@),
            seq: self.seq,
            total_bytes: self.total_bytes as nat,
            total_cap: self.total_cap as nat,
        }
    }
}

/// The bytes that some snapshots hold together.
pub open spec fn retained_total(sessions: Map<Seq<char>, SnapshotView>) -> nat
    decreases sessions.dom().len(),
{
    if sessions.dom().finite() && sessions.dom().len() > 0 {
        let key = sessions.dom().choose();
        sessions[key].bytes.len() + retained_total(sessions.remove(key))
    } else {
        0
    }
}

/// Whether some snapshots are too many or too large together.
pub open spec fn over_cap(sessions: Map<Seq<char>, SnapshotView>, cap: nat) -> bool {
    sessions.dom().len() > MAX_SESSIONS || retained_total(sessions) > cap
}

impl StoreView {
    /// The byte count is right, and every snapshot is small enough to be retained.
    pub open spec fn accounted(self) -> bool {
        &&& self.sessions.dom().finite()
        &&& self.total_bytes == retained_total(self.sessions)
        &&& forall|key: Seq<char>|
            self.sessions.contains_key(key) ==> (#[trigger] self.sessions[key]).bytes.len()
                <= MAX_RETAINED_BYTES
    }

    /// The invariant of a store: accounted for, and within both ceilings.
    pub open spec fn well_formed(self) -> bool {
        self.accounted() && !over_cap(self.sessions, self.total_cap)
    }
}

/// Each snapshot counts with its length.
pub proof fn lemma_retained_total_remove(sessions: Map<Seq<char>, SnapshotView>, key: Seq<char>)
    requires
        sessions.dom().finite(),
        sessions.contains_key(key),
    ensures
        retained_total(sessions) == sessions[key].bytes.len() + retained_total(
            sessions.remove(key),
        ),
    decreases sessions.dom().len(),
{
    let first = sessions.dom().choose();
    assert(sessions.dom().contains(first));
    if first != key {
        let rest = sessions.remove(first);
        lemma_retained_total_remove(rest, key);
        lemma_retained_total_remove(sessions.remove(key), first);
        assert(rest.remove(key) =~= sessions.remove(key).remove(first));
    }
}

/// A snapshot that is put in counts with its length.
pub proof fn lemma_retained_total_insert(
    sessions: Map<Seq<char>, SnapshotView>,
    key: Seq<char>,
    value: SnapshotView,
)
    requires
        sessions.dom().finite(),
        !sessions.contains_key(key),
    ensures
        retained_total(sessions.insert(key, value)) == value.bytes.len() + retained_total(sessions),
{
    let more = sessions.insert(key, value);
    lemma_retained_total_remove(more, key);
    assert(more.remove(key) =~= sessions);
}

/// A snapshot that is exchanged for one of the same length changes nothing in
/// the count.
pub proof fn lemma_retained_total_exchange(
    sessions: Map<Seq<char>, SnapshotView>,
    key: Seq<char>,
    value: SnapshotView,
)
    requires
        sessions.dom().finite(),
        sessions.contains_key(key),
        value.bytes.len() == sessions[key].bytes.len(),
    ensures
        sessions.insert(key, value).dom() == sessions.dom(),
        retained_total(sessions.insert(key, value)) == retained_total(sessions),
{
    let other = sessions.insert(key, value);
    assert(other.dom() =~= sessions.dom());
    lemma_retained_total_remove(sessions, key);
    lemma_retained_total_remove(other, key);
    assert(other.remove(key) =~= sessions.remove(key));
}

/// Snapshots that are each small enough hold a bounded number of bytes together.
pub proof fn lemma_retained_total_bound(sessions: Map<Seq<char>, SnapshotView>)
    requires
        sessions.dom().finite(),
        forall|key: Seq<char>|
            sessions.contains_key(key) ==> (#[trigger] sessions[key]).bytes.len()
                <= MAX_RETAINED_BYTES,
    ensures
        retained_total(sessions) <= sessions.dom().len() * MAX_RETAINED_BYTES,
    decreases sessions.dom().len(),
{
    if sessions.dom().len() > 0 {
        let key = sessions.dom().choose();
        assert(sessions.contains_key(key));
        let rest = sessions.remove(key);
        assert forall|other: Seq<char>| rest.contains_key(other) implies (
        #[trigger] rest[other]).bytes.len() <= MAX_RETAINED_BYTES by {
            assert(rest[other] == sessions[other]);
        }
        lemma_retained_total_bound(rest);
        let n = sessions.dom().len() as int;
        assert((n - 1) * MAX_RETAINED_BYTES + MAX_RETAINED_BYTES == n * MAX_RETAINED_BYTES)
            by (nonlinear_arith);
    }
}

/// The byte ceiling: an override where one is set, else the default.
pub fn effective_total_cap(cap_override: usize) -> (cap: usize)
    ensures
        cap == (if cap_override > 0 {
            cap_override
        } else {
            MAX_TOTAL_RETAINED_BYTES
        }),
{
    if cap_override > 0 {
        cap_override
    } else {
        MAX_TOTAL_RETAINED_BYTES
    }
}

impl Store {
    /// An empty store with the default byte ceiling.
    pub fn new() -> (store: Store)
        ensures
            store@.well_formed(),
            store@.sessions == Map::<Seq<char>, SnapshotView>::empty(),
            store@.seq == 0,
            store@.total_cap == MAX_TOTAL_RETAINED_BYTES,
    {
        Store::with_total_cap(0)
    }

    /// An empty store with a byte ceiling of its own; 0 stands for the default.
    pub fn with_total_cap(cap_override: usize) -> (store: Store)
        ensures
            store@.well_formed(),
            store@.sessions == Map::<Seq<char>, SnapshotView>::empty(),
            store@.seq == 0,
            store@.total_cap == (if cap_override > 0 {
                cap_override
            } else {
                MAX_TOTAL_RETAINED_BYTES
            }),
    {
        let store = Store {
            sessions: new_sessions(),
            seq: 0,
            total_bytes: 0,
            total_cap: effective_total_cap(cap_override),
        };
        assert(store@.sessions =~= Map::<Seq<char>, SnapshotView>::empty());
        store
    }
}

/// Number of retained trajectories.
pub fn retained_session_count(store: &Store) -> (n: usize)
    ensures
        n == store@.sessions.dom().len(),
{
    assert(store@.sessions.dom() =~= held_snapshots(store.sessions).dom());
    session_len(&store.sessions)
}

/// Total retained serialized bytes.
pub fn retained_bytes(store: &Store) -> (n: usize)
    ensures
        n == store@.total_bytes,
        store@.accounted() ==> n == retained_total(store@.sessions),
{
    store.total_bytes
}

/// Whether a snapshot is in `before` but no longer in `after`.
pub open spec fn is_gone(before: StoreView, after: StoreView, key: Seq<char>) -> bool {
    before.sessions.contains_key(key) && !after.sessions.contains_key(key)
}

/// Whether `after` is `before` without its oldest snapshots: both ceilings hold,
/// no snapshot that is gone is newer than one that stayed, and not one more is
/// gone than the ceilings ask for.
pub open spec fn evicted(before: StoreView, after: StoreView) -> bool {
    &&& after.seq == before.seq
    &&& after.total_cap == before.total_cap
    &&& after.total_bytes == retained_total(after.sessions)
    &&& after.sessions.submap_of(before.sessions)
    &&& !over_cap(after.sessions, after.total_cap)
    &&& forall|gone: Seq<char>, kept: Seq<char>|
        is_gone(before, after, gone) && after.sessions.contains_key(kept) ==> (
        #[trigger] before.sessions[gone]).seq <= (#[trigger] before.sessions[kept]).seq
    &&& after.sessions == before.sessions || exists|last: Seq<char>|
        last_gone(before, after, last)
}

/// Whether `last` is the snapshot that had to go last: it is gone, none that is
/// gone is newer, and with it the ceilings would not hold.
pub open spec fn last_gone(before: StoreView, after: StoreView, last: Seq<char>) -> bool {
    &&& is_gone(before, after, last)
    &&& over_cap(after.sessions.insert(last, before.sessions[last]), after.total_cap)
    &&& forall|gone: Seq<char>|
        #[trigger] is_gone(before, after, gone) ==> before.sessions[gone].seq
            <= before.sessions[last].seq
}

/// Oldest-first eviction until both the session count and the retained-byte
/// ceiling hold.
fn evict_if_over_cap(store: &mut Store)
    requires
        old(store)@.accounted(),
    ensures
        evicted(old(store)@, final(store)@),
        final(store)@.well_formed(),
{
    let ghost before = store@;
    let ghost mut last: Seq<char> = Seq::empty();
    while retained_session_count(store) > MAX_SESSIONS || store.total_bytes > store.total_cap
        invariant
            before.accounted(),
            store@.accounted(),
            store@.seq == before.seq,
            store@.total_cap == before.total_cap,
            store@.sessions.submap_of(before.sessions),
            forall|gone: Seq<char>, kept: Seq<char>|
                is_gone(before, store@, gone) && store@.sessions.contains_key(kept) ==> (
                #[trigger] before.sessions[gone]).seq <= (#[trigger] before.sessions[kept]).seq,
            store@.sessions == before.sessions || last_gone(before, store@, last),
        decreases store@.sessions.dom().len(),
    {
        let ghost was = store@;
        let ghost held = held_snapshots(store.sessions);
        let ages = session_ages(&store.sessions);
        assert(was.sessions.dom() =~= held.dom());
        match oldest(&ages) {
            Some(i) => {
                let ghost key = ages@[i as int].0@;
                proof {
                    assert(was.sessions.contains_key(key));
                    assert forall|other: Seq<char>|
                        was.sessions.contains_key(other) implies was.sessions[key].seq
                        <= #[trigger] was.sessions[other].seq by {
                        assert(held.contains_key(other));
                        let j = choose|j: int|
                            0 <= j < ages@.len() && (#[trigger] ages@[j]).0@ == other;
                        assert(ages@[i as int].1 <= ages@[j].1);
                    }
                    lemma_retained_total_remove(was.sessions, key);
                }
                if let Some(snapshot) = remove_session(&mut store.sessions, ages[i].0.as_str()) {
                    assert(snapshot@ == was.sessions[key]);
                    store.total_bytes = store.total_bytes - snapshot.bytes.len();
                }
                proof {
                    assert(store@.sessions =~= was.sessions.remove(key));
                    assert(store@.accounted()) by {
                        assert forall|other: Seq<char>|
                            store@.sessions.contains_key(other) implies (
                        #[trigger] store@.sessions[other]).bytes.len() <= MAX_RETAINED_BYTES by {
                            assert(store@.sessions[other] == was.sessions[other]);
                        }
                    }
                    assert(was.sessions.dom().contains(key) && before.sessions.dom().contains(key));
                    assert(store@.sessions.insert(key, before.sessions[key]) =~= was.sessions);
                    assert forall|gone: Seq<char>, kept: Seq<char>|
                        is_gone(before, store@, gone) && store@.sessions.contains_key(
                            kept,
                        ) implies (#[trigger] before.sessions[gone]).seq <= (
                    #[trigger] before.sessions[kept]).seq by {
                        assert(was.sessions.dom().contains(kept) && before.sessions.dom().contains(
                            kept,
                        ));
                        if gone != key {
                            assert(is_gone(before, was, gone));
                        }
                    }
                    assert forall|gone: Seq<char>| #[trigger]
                        is_gone(before, store@, gone) implies before.sessions[gone].seq
                        <= before.sessions[key].seq by {
                        if gone != key {
                            assert(is_gone(before, was, gone));
                        }
                    }
                    last = key;
                }
            },
            None => {
                proof {
                    if was.sessions.dom().len() > 0 {
                        let key = was.sessions.dom().choose();
                        assert(was.sessions.dom().contains(key));
                        assert(held.contains_key(key));
                    }
                }
                return;
            },
        }
    }
}

/// A store after an observation that retained nothing: the sequence moved on.
pub open spec fn passed_over(store: StoreView) -> StoreView {
    StoreView { seq: next_seq(store.seq), ..store }
}

/// A store after an observation that repeated the bytes of the previous one of
/// its trajectory: of the snapshot only the account and the session are those of
/// the repeated call.
pub open spec fn repeated(
    store: StoreView,
    key: Seq<char>,
    account_key: Seq<char>,
    session_key: Option<Seq<char>>,
) -> StoreView {
    let snapshot = SnapshotView { account_key, session_key, ..store.sessions[key] };
    StoreView { sessions: store.sessions.insert(key, snapshot), ..passed_over(store) }
}

/// A store after an observation whose snapshot was put under a trajectory.
pub open spec fn recorded(
    store: StoreView,
    key: Seq<char>,
    snapshot: SnapshotView,
) -> StoreView {
    let sessions = store.sessions.insert(key, snapshot);
    StoreView {
        sessions,
        seq: next_seq(store.seq),
        total_bytes: retained_total(sessions),
        total_cap: store.total_cap,
    }
}

/// What a store holds under a trajectory.
pub open spec fn previous(store: StoreView, key: Seq<char>) -> Option<SnapshotView> {
    if store.sessions.contains_key(key) {
        Some(store.sessions[key])
    } else {
        None
    }
}

impl Store {
    /// Takes the next sequence number.
    pub(crate) fn take_seq(&mut self) -> (seq: u64)
        ensures
            seq == old(self)@.seq,
            final(self)@ == passed_over(old(self)@),
    {
        let seq: u64 = self.seq;
        self.seq = seq.wrapping_add(1);
        seq
    }

    /// Takes out what is held under a trajectory. The bytes stay accounted for
    /// until the snapshot is put back or replaced.
    pub(crate) fn take_snapshot(&mut self, key: &str) -> (taken: Option<Snapshot>)
        ensures
            match taken {
                Some(snapshot) => previous(old(self)@, key@) == Some(snapshot@),
                None => previous(old(self)@, key@) is None,
            },
            final(self)@ == (StoreView {
                sessions: old(self)@.sessions.remove(key@),
                ..old(self)@
            }),
    {
        let taken = remove_session(&mut self.sessions, key);
        assert(self@.sessions =~= old(self)@.sessions.remove(key@));
        taken
    }

    /// Puts back what was taken out.
    pub(crate) fn put_back(&mut self, key: &str, snapshot: Snapshot)
        ensures
            final(self)@ == (StoreView {
                sessions: old(self)@.sessions.insert(key@, snapshot@),
                ..old(self)@
            }),
    {
        insert_session(&mut self.sessions, key.to_string(), snapshot);
        assert(self@.sessions =~= old(self)@.sessions.insert(key@, snapshot@));
    }

    /// Puts a snapshot in the place of one of `prev_len` bytes, or of none, and
    /// evicts what is too much.
    pub(crate) fn replace(
        &mut self,
        key: &str,
        prev_len: usize,
        snapshot: Snapshot,
    )
        requires
            old(self)@.sessions.dom().finite(),
            old(self)@.sessions.dom().len() <= MAX_SESSIONS,
            !old(self)@.sessions.contains_key(key@),
            old(self)@.total_bytes == prev_len + retained_total(old(self)@.sessions),
            forall|other: Seq<char>|
                old(self)@.sessions.contains_key(other) ==> (
                #[trigger] old(self)@.sessions[other]).bytes.len() <= MAX_RETAINED_BYTES,
            snapshot.bytes@.len() <= MAX_RETAINED_BYTES,
        ensures
            final(self)@.well_formed(),
            evicted(
                (StoreView {
                    sessions: old(self)@.sessions.insert(key@, snapshot@),
                    total_bytes: retained_total(old(self)@.sessions.insert(key@, snapshot@)),
                    ..old(self)@
                }),
                final(self)@,
            ),
    {
        let ghost was = self@;
        proof {
            lemma_retained_total_bound(was.sessions);
            lemma_retained_total_insert(was.sessions, key@, snapshot@);
            let n = was.sessions.dom().len() as int;
            assert(n * MAX_RETAINED_BYTES <= 64 * MAX_RETAINED_BYTES) by (nonlinear_arith)
                requires
                    n <= 64,
            ;
        }
        let len: usize = snapshot.bytes.len();
        self.total_bytes = self.total_bytes - prev_len;
        self.total_bytes = self.total_bytes + len;
        self.put_back(key, snapshot);
        assert(self@.accounted()) by {
            assert forall|other: Seq<char>| self@.sessions.contains_key(other) implies (
            #[trigger] self@.sessions[other]).bytes.len() <= MAX_RETAINED_BYTES by {
                if other != key@ {
                    assert(was.sessions.contains_key(other));
                    assert(self@.sessions[other] == was.sessions[other]);
                }
            }
        }
        evict_if_over_cap(self);
    }
}

} // verus!
