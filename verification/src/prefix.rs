//! Common prefixes of byte strings.

use vstd::prelude::*;

verus! {

/// Approximate bytes-per-token divisor used to convert a common prefix into an
/// estimated token count. This is a coarse approximation only (English/code text
/// averages roughly 4 bytes/token); it is intentionally not a real tokenizer.
pub const BYTES_PER_TOKEN_APPROX: usize = 4;

/// Whether `n` is the length of the longest common prefix of `a` and `b`.
pub open spec fn is_common_prefix_len(a: Seq<u8>, b: Seq<u8>, n: nat) -> bool {
    &&& n <= a.len()
    &&& n <= b.len()
    &&& forall|i: int| 0 <= i < n ==> #[trigger] a[i] == b[i]
    &&& (n < a.len() && n < b.len()) ==> a[n as int] != b[n as int]
}

/// The length of the longest common prefix of `a` and `b`.
pub open spec fn common_prefix_len(a: Seq<u8>, b: Seq<u8>) -> nat {
    choose|n: nat| is_common_prefix_len(a, b, n)
}

/// A length with the property is the length.
pub proof fn lemma_common_prefix_len(a: Seq<u8>, b: Seq<u8>, n: nat)
    requires
        is_common_prefix_len(a, b, n),
    ensures
        common_prefix_len(a, b) == n,
{
    let m = common_prefix_len(a, b);
    assert(is_common_prefix_len(a, b, m));
    if m < n {
        assert(a[m as int] == b[m as int]);
    } else if n < m {
        assert(a[n as int] == b[n as int]);
    }
}

/// Longest common prefix length in bytes (exact byte comparison). Operates on
/// raw bytes, so it may stop in the middle of a UTF-8 sequence.
pub fn longest_common_prefix(a: &[u8], b: &[u8]) -> (n: usize)
    ensures
        n == common_prefix_len(a@, b@),
        is_common_prefix_len(a@, b@, n as nat),
{
    let max: usize = if a.len() <= b.len() {
        a.len()
    } else {
        b.len()
    };
    let mut i: usize = 0;
    while i < max && a[i] == b[i]
        invariant
            i <= max,
            max <= a@.len(),
            max <= b@.len(),
            max == a@.len() || max == b@.len(),
            forall|k: int| 0 <= k < i ==> #[trigger] a@[k] == b@[k],
        decreases max - i,
    {
        i += 1;
    }
    proof {
        lemma_common_prefix_len(a@, b@, i as nat);
    }
    i
}

/// Approximate token count for a common prefix of `lcp_bytes` bytes.
pub fn estimate_lcp_tokens(lcp_bytes: usize) -> (tokens: usize)
    ensures
        tokens == lcp_bytes as nat / BYTES_PER_TOKEN_APPROX as nat,
{
    lcp_bytes / BYTES_PER_TOKEN_APPROX
}

} // verus!
