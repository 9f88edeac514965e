//! Leader-side replication and commit core of a Raft consensus node.
//!
//! The crate models the state owned by the leader's single control task:
//! per-peer replication progress, the (possibly joint) membership, the
//! commit index, the queue of client requests awaiting commit, and the
//! snapshot hand-off decisions. Every transition is a plain function from
//! state and event to new state and actions; the surrounding runtime
//! performs the actions (channel sends, disk writes) and feeds events back.

use vstd::prelude::*;

pub mod assoc;
pub mod config;
pub mod leader;
pub mod log_id;
pub mod membership;
pub mod snapshot;

pub use crate::config::Config;
pub use crate::config::SnapshotPolicy;
pub use crate::leader::State;
pub use crate::log_id::LogId;

verus! {

/// A Raft node's ID.
pub type NodeId = u64;

/// A trait defining application specific data.
///
/// Applications implement this for the payload type carried by log
/// entries, so that entries can move through the leader core without the
/// core inspecting them.
pub trait AppData: Clone + core::fmt::Debug + Send + Sync + 'static {}

/// A trait defining application specific response data.
///
/// Applications implement this for the value returned to a client once
/// its entry has been applied to the state machine.
pub trait AppDataResponse: Clone + core::fmt::Debug + Send + Sync + 'static {}

} // verus!
