//! Snapshot freshness: whether the stored snapshot is close enough to the
//! leader's last log entry to be served as-is.

use vstd::prelude::*;

verus! {

use crate::log_id::LogId;

/// What the leader core reads of a stored snapshot: the identifier of the
/// last log entry the snapshot covers. The snapshot bytes themselves never
/// enter this core; the runtime streams them to the peer.
#[derive(Clone, Copy, PartialEq, Eq, Structural, Debug)]
pub struct SnapshotMeta {
    pub last_log_id: LogId,
}

/// The leader's view of an in-progress snapshot build. The build task and
/// its completion broadcast live in the runtime; the core only records
/// that a build is under way. A leader never enters a streaming-receive
/// snapshot state.
#[derive(Clone, Copy, PartialEq, Eq, Structural, Debug)]
pub enum SnapshotState {
    Snapshotting,
}

/// `a - b`, saturating at zero.
pub open spec fn spec_saturating_sub(a: u64, b: u64) -> u64 {
    if a >= b {
        (a - b) as u64
    } else {
        0
    }
}

/// Whether the stored snapshot's distance from the leader's last log index
/// is within half of the configured snapshot threshold. The distance is
/// computed with saturating subtraction so that a snapshot ahead of the
/// local last-log window (as can happen during recovery) counts as
/// distance zero.
pub fn snapshot_is_within_half_of_threshold(
    snapshot_last_index: &u64,
    last_log_index: &u64,
    threshold: &u64,
) -> (r: bool)
    ensures
        r == (spec_saturating_sub(*last_log_index, *snapshot_last_index) <= *threshold / 2),
{
    let distance_from_line: u64 = if *last_log_index >= *snapshot_last_index {
        *last_log_index - *snapshot_last_index
    } else {
        0
    };
    distance_from_line <= *threshold / 2
}

} // verus!
