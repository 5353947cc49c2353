//! The concurrent map that holds the retained snapshots, under exclusive access.

use vstd::prelude::*;
use crate::snapshot::Snapshot;
use dashmap::DashMap;

verus! {

/// `dashmap::DashMap`, the map of the retained snapshots and of the registered
/// plans. It can be changed through a shared reference, but is changed here only
/// through an exclusive one, and no reference into it is kept.
#[verifier::external_type_specification]
#[verifier::external_body]
#[verifier::reject_recursive_types(K)]
#[verifier::reject_recursive_types(V)]
#[verifier::reject_recursive_types(S)]
pub struct ExDashMap<K, V, S>(dashmap::DashMap<K, V, S>);

/// The snapshots that a map holds, by trajectory.
pub uninterp spec fn held_snapshots(map: DashMap<String, Snapshot>) -> Map<Seq<char>, Snapshot>;

/// `DashMap::new` gives a map that holds nothing.
#[verifier::external_body]
pub(crate) fn new_sessions() -> (sessions: DashMap<String, Snapshot>)
    ensures
        held_snapshots(sessions).dom() == Set::<Seq<char>>::empty(),
{
    DashMap::new()
}

/// `DashMap::insert` puts `value` under `key`, in place of what was there.
#[verifier::external_body]
pub(crate) fn insert_session(map: &mut DashMap<String, Snapshot>, key: String, value: Snapshot)
    ensures
        held_snapshots(*final(map)) == held_snapshots(*old(map)).insert(key@, value),
{
    map.insert(key, value);
}

/// `DashMap::remove` takes out what is held under `key` and returns it.
#[verifier::external_body]
pub(crate) fn remove_session(map: &mut DashMap<String, Snapshot>, key: &str) -> (taken: Option<
    Snapshot,
>)
    ensures
        held_snapshots(*final(map)) == held_snapshots(*old(map)).remove(key@),
        match taken {
            Some(value) => held_snapshots(*old(map)).contains_key(key@) && value
                == held_snapshots(*old(map))[key@],
            None => !held_snapshots(*old(map)).contains_key(key@),
        },
{
    map.remove(key).map(|entry| entry.1)
}

/// `DashMap::len` counts the entries.
#[verifier::external_body]
pub(crate) fn session_len(map: &DashMap<String, Snapshot>) -> (n: usize)
    ensures
        n == held_snapshots(*map).dom().len(),
{
    map.len()
}

/// `DashMap::iter` visits every entry once, in no stated order; of each the key
/// and the sequence number are handed out.
#[verifier::external_body]
pub(crate) fn session_ages(map: &DashMap<String, Snapshot>) -> (ages: Vec<(String, u64)>)
    ensures
        forall|i: int| 0 <= i < ages@.len() ==> {
            let key = (#[trigger] ages@[i]).0@;
            held_snapshots(*map).contains_key(key) && held_snapshots(*map)[key].seq == ages@[i].1
        },
        forall|key: Seq<char>| held_snapshots(*map).contains_key(key) ==> exists|i: int|
            0 <= i < ages@.len() && (#[trigger] ages@[i]).0@ == key,
{
    map.iter().map(|entry| (entry.key().clone(), entry.value().seq)).collect()
}

} // verus!
