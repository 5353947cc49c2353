//! The choice of the oldest entry.

use vstd::prelude::*;

verus! {

/// The index of an entry with the smallest sequence number.
pub(crate) fn oldest(ages: &Vec<(String, u64)>) -> (found: Option<usize>)
    ensures
        match found {
            Some(i) => i < ages@.len() && forall|j: int|
                0 <= j < ages@.len() ==> ages@[i as int].1 <= (#[trigger] ages@[j]).1,
            None => ages@.len() == 0,
        },
{
    if ages.len() == 0 {
        return None;
    }
    let mut best: usize = 0;
    let mut i: usize = 1;
    while i < ages.len()
        invariant
            best < i <= ages@.len(),
            forall|j: int| 0 <= j < i ==> ages@[best as int].1 <= (#[trigger] ages@[j]).1,
        decreases ages@.len() - i,
    {
        if ages[i].1 < ages[best].1 {
            best = i;
        }
        i += 1;
    }
    Some(best)
}

} // verus!
