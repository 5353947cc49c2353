//! Retained snapshots of previous requests.

use vstd::prelude::*;
use crate::divergence::opt_chars;

verus! {

/// A retained previous request snapshot for one diagnostic trajectory.
///
/// Bounds: at most `MAX_SESSIONS` snapshots and at most
/// `MAX_TOTAL_RETAINED_BYTES` serialized bytes are retained globally; each
/// snapshot holds at most `MAX_RETAINED_BYTES`.
pub struct Snapshot {
    /// The exact serialized bytes observed on the previous call.
    pub bytes: Vec<u8>,
    /// SHA-256 hex of `bytes` (full 64 hex chars), used for dedupe.
    pub sha256_hex: String,
    /// Monotonic write sequence, used for oldest-first eviction.
    pub seq: u64,
    /// Salted hash of the account id observed on the previous call.
    pub account_key: String,
    /// Salted hash of the upstream `sessionId` observed on the previous call.
    pub session_key: Option<String>,
}

/// The content of a [`Snapshot`].
pub ghost struct SnapshotView {
    pub bytes: Seq<u8>,
    pub sha256_hex: Seq<char>,
    pub seq: u64,
    pub account_key: Seq<char>,
    pub session_key: Option<Seq<char>>,
}

impl View for Snapshot {
    type V = SnapshotView;

    open spec fn view(&self) -> SnapshotView {
        SnapshotView {
            bytes: self.bytes@,
            sha256_hex: self.sha256_hex@,
            seq: self.seq,
            account_key: self.account_key@,
            session_key: opt_chars(self.session_key),
        }
    }
}

} // verus!
