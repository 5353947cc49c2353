//! The common prefix of two byte strings.

use vstd::prelude::*;
use crate::prefix::{common_prefix_len, is_common_prefix_len, lemma_common_prefix_len};

verus! {

/// From any length up to which two byte strings agree, their longest common
/// prefix can be reached.
proof fn lemma_prefix_exists(a: Seq<u8>, b: Seq<u8>, n: nat)
    requires
        n <= a.len(),
        n <= b.len(),
        forall|i: int| 0 <= i < n ==> #[trigger] a[i] == b[i],
    ensures
        is_common_prefix_len(a, b, common_prefix_len(a, b)),
        n <= common_prefix_len(a, b),
    decreases a.len() - n,
{
    if n < a.len() && n < b.len() && a[n as int] == b[n as int] {
        lemma_prefix_exists(a, b, n + 1);
    } else {
        lemma_common_prefix_len(a, b, n);
    }
}

/// Up to the offset of the first difference two byte strings agree; there they
/// differ, or one of them ends. No longer prefix is common to both.
pub proof fn law_prefix_is_longest(a: Seq<u8>, b: Seq<u8>)
    ensures
        is_common_prefix_len(a, b, common_prefix_len(a, b)),
        forall|n: nat|
            n <= a.len() && n <= b.len() && #[trigger] a.take(n as int) == b.take(n as int) ==> n
                <= common_prefix_len(a, b),
{
    lemma_prefix_exists(a, b, 0);
    assert forall|n: nat|
        n <= a.len() && n <= b.len() && #[trigger] a.take(n as int) == b.take(
            n as int,
        ) implies n <= common_prefix_len(a, b) by {
        assert forall|i: int| 0 <= i < n implies #[trigger] a[i] == b[i] by {
            assert(a.take(n as int)[i] == b.take(n as int)[i]);
        }
        lemma_prefix_exists(a, b, n);
    }
}

/// It does not matter which of the two is the previous one.
pub proof fn law_prefix_is_symmetric(a: Seq<u8>, b: Seq<u8>)
    ensures
        common_prefix_len(a, b) == common_prefix_len(b, a),
{
    law_prefix_is_longest(a, b);
    lemma_common_prefix_len(b, a, common_prefix_len(a, b));
}

/// A byte string has itself in common with itself, and no two byte strings of
/// one length have it all in common unless they are the same.
pub proof fn law_whole_prefix_iff_same(a: Seq<u8>, b: Seq<u8>)
    ensures
        a.len() == b.len() && common_prefix_len(a, b) == a.len() <==> a == b,
{
    law_prefix_is_longest(a, b);
    if a == b {
        lemma_common_prefix_len(a, b, a.len());
    }
    if a.len() == b.len() && common_prefix_len(a, b) == a.len() {
        assert(a =~= b);
    }
}

} // verus!
