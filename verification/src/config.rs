//! Runtime tunables consulted by the leader core.

use vstd::prelude::*;

verus! {

/// Policy governing when a new snapshot is taken.
#[derive(Clone, Copy, PartialEq, Eq, Structural, Debug)]
pub enum SnapshotPolicy {
    /// Take a new snapshot once this many entries have been written since
    /// the last snapshot.
    LogsSinceLast(u64),
}

/// The tunables of the leader core. The wider runtime carries many more
/// settings; only the ones this core reads appear here.
#[derive(Clone, Copy, PartialEq, Eq, Structural, Debug)]
pub struct Config {
    pub snapshot_policy: SnapshotPolicy,
    /// A peer is at line rate when its matched index is within this many
    /// entries of the leader's last log index.
    pub line_rate_lag: u64,
    /// Grace period, in milliseconds, before a demoted peer's stream is
    /// dropped; the membership-change subsystem turns it into the
    /// per-peer removal deadline.
    pub remove_after: u64,
}

impl Config {
    /// The configured snapshot distance.
    pub open spec fn spec_snapshot_threshold(self) -> u64 {
        match self.snapshot_policy {
            SnapshotPolicy::LogsSinceLast(t) => t,
        }
    }

    pub fn snapshot_threshold(&self) -> (t: u64)
        ensures
            t == self.spec_snapshot_threshold(),
    {
        match self.snapshot_policy {
            SnapshotPolicy::LogsSinceLast(t) => t,
        }
    }
}

} // verus!
