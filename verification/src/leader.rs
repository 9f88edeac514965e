//! The leader's control state and its event handlers: per-peer match
//! progress, commit advancement under (possibly joint) quorums, the
//! awaiting-committed queue, and snapshot hand-off decisions.
//!
//! Every handler is a plain transition from state and event to new state
//! and an outcome value; the surrounding runtime performs the outcome's
//! actions (channel sends, disk writes, task spawns) and feeds the next
//! event back in.

use vstd::prelude::*;

verus! {

use crate::AppData;
use crate::NodeId;
use crate::assoc::AssocMap;
use crate::config::Config;
use crate::log_id::LogId;
use crate::membership::MembershipConfig;
use crate::membership::count_ge;
use crate::membership::lemma_count_ge_bounds;
use crate::membership::lemma_count_ge_pos;
use crate::membership::lemma_push_contains;
use crate::membership::set_has_quorum_ge;
use crate::snapshot::SnapshotMeta;
use crate::snapshot::SnapshotState;
use crate::snapshot::snapshot_is_within_half_of_threshold;
use crate::snapshot::spec_saturating_sub;

/// Raft role states.
#[derive(Clone, Copy, PartialEq, Eq, Structural, Debug)]
pub enum State {
    NonVoter,
    Follower,
    Candidate,
    Leader,
    Shutdown,
}

/// Opaque token standing for a caller's one-shot reply channel. The
/// runtime owns the channels and maps tokens to them.
pub type ReplyToken = u64;

/// Response sent to the caller that added a non-voter, once that peer has
/// caught up to line rate.
#[derive(Clone, Copy, PartialEq, Eq, Structural, Debug)]
pub struct AddNonVoterResponse {
    pub matched: LogId,
}

/// Per-peer replication progress owned by the leader.
#[derive(Clone, Copy, Debug)]
pub struct ReplicationState {
    /// Highest log id known to be stored on the peer; never decreases.
    pub matched: LogId,
    /// Deadline (runtime milliseconds) after which a demoted peer's
    /// stream may be dropped.
    pub remove_since: Option<u64>,
    /// Pending reply slot of the caller that added this peer as a
    /// non-voter, resolved when the peer reaches line rate.
    pub tx: Option<ReplyToken>,
}

/// The per-peer entry of the reporting mirror.
#[derive(Clone, Copy, PartialEq, Eq, Structural, Debug)]
pub struct ReplicationMetrics {
    pub matched: LogId,
}

/// The persisted pair required for crash safety.
#[derive(Clone, Copy, Debug)]
pub struct HardState {
    pub current_term: u64,
    pub voted_for: Option<NodeId>,
}

/// A log entry as the leader core sees it.
#[derive(Clone, Debug)]
pub struct Entry<D: AppData> {
    pub log_id: LogId,
    pub payload: D,
}

/// A client or membership request whose local append succeeded and whose
/// caller blocks until the entry commits.
#[derive(Clone, Debug)]
pub struct ClientRequest<D: AppData> {
    pub entry: Entry<D>,
    pub tx: ReplyToken,
}

/// An event sent by a replication stream to the leader's control task.
#[derive(Clone, Copy, Debug)]
pub enum ReplicaEvent {
    UpdateMatched { target: NodeId, matched: LogId },
    RevertToFollower { target: NodeId, term: u64 },
    NeedsSnapshot { target: NodeId, tx: ReplyToken },
    Shutdown,
}

/// What the runtime must do after an `UpdateMatched` event.
pub struct UpdateMatchedOutcome<D: AppData> {
    /// Resolve this non-voter caller's reply slot with the response.
    pub non_voter_reply: Option<(ReplyToken, AddNonVoterResponse)>,
    /// The peer's stream was dropped after its removal deadline.
    pub stream_dropped: bool,
    /// A freshly advanced commit index, to be broadcast to every
    /// remaining replication stream.
    pub commit_update: Option<u64>,
    /// Requests now committed, drained in ascending log order; apply each
    /// to the state machine, then resolve its caller.
    pub to_apply: Vec<ClientRequest<D>>,
}

/// What the runtime must do after a `NeedsSnapshot` event.
#[derive(Clone, Copy, Debug)]
pub enum SnapshotDecision {
    /// The stored snapshot is fresh enough: stream it through the peer's
    /// reply channel.
    SendCurrent { tx: ReplyToken },
    /// A build is already under way: subscribe to its completion
    /// broadcast and drop the reply when it fires, so the peer
    /// re-requests and then receives the finished snapshot.
    AwaitExisting { tx: ReplyToken },
    /// No snapshot, or a stale one, and none building: force log
    /// compaction; the reply is dropped and the peer will re-request.
    Compact,
}

/// The outcome of one replica event.
pub enum ReplicaEventOutcome<D: AppData> {
    Matched(UpdateMatchedOutcome<D>),
    Reverted(Option<HardState>),
    Snapshot(SnapshotDecision),
    Stopped,
}

/// All state of the leader core that this crate's transitions read or
/// write. It is owned by the leader's single control task.
pub struct LeaderState<D: AppData> {
    /// Own node id.
    pub id: NodeId,
    pub current_term: u64,
    pub voted_for: Option<NodeId>,
    pub current_leader: Option<NodeId>,
    /// The leader's last locally appended entry.
    pub last_log_id: LogId,
    /// Only grows while this leader lives.
    pub commit_index: u64,
    /// Effective membership; joint during a configuration change.
    pub membership: MembershipConfig,
    /// Every non-self member currently replicated to, including
    /// non-voters.
    pub nodes: AssocMap<ReplicationState>,
    /// Requests blocked until their entry commits, ascending by index.
    pub awaiting_committed: Vec<ClientRequest<D>>,
    /// `Some` exactly while a snapshot build task is alive.
    pub snapshot_state: Option<SnapshotState>,
    /// Reporting mirror of per-peer progress.
    pub leader_metrics: AssocMap<ReplicationMetrics>,
    /// The role the node is headed for; `Leader` while the loop runs.
    pub target_state: State,
    pub config: Config,
}

impl<D: AppData> LeaderState<D> {
    /// The invariants that hold between event boundaries.
    pub open spec fn wf(self) -> bool {
        &&& self.membership.wf()
        &&& self.nodes.wf()
        &&& self.leader_metrics.wf()
        &&& self.commit_index <= self.last_log_id.index
        &&& forall|id: NodeId|
            self.nodes@.dom().contains(id)
                ==> (#[trigger] self.nodes@[id]).matched.index <= self.last_log_id.index
        &&& forall|i: int, j: int|
            0 <= i < j < self.awaiting_committed@.len()
                ==> self.awaiting_committed@[i].entry.log_id.index
                    < self.awaiting_committed@[j].entry.log_id.index
        &&& forall|i: int|
            0 <= i < self.awaiting_committed@.len()
                ==> (#[trigger] self.awaiting_committed@[i]).entry.log_id.index
                    > self.commit_index
        &&& (self.target_state == State::Leader ==> forall|i: int|
            0 <= i < self.awaiting_committed@.len()
                ==> (#[trigger] self.awaiting_committed@[i]).entry.log_id.term
                    == self.current_term)
    }

    /// The log id this leader counts for a node when computing quorums:
    /// its own last entry for itself, the peer's reported progress
    /// otherwise, the sentinel for unknown peers.
    pub open spec fn candidate_log_id(self, id: NodeId) -> LogId {
        if id == self.id {
            self.last_log_id
        } else if self.nodes@.dom().contains(id) {
            self.nodes@[id].matched
        } else {
            LogId { term: 0, index: 0 }
        }
    }

    /// The match-index map handed to the quorum computation: every
    /// member whose candidate entry carries the current term, mapped to
    /// that entry's index. Prior-term entries are excluded, not mapped to
    /// zero: the Raft rule that a leader commits previous-term entries
    /// only by counting a current-term entry on top.
    pub open spec fn match_index_spec(self) -> Map<NodeId, u64> {
        Map::new(
            |id: NodeId|
                self.membership.contains_node(id) && self.candidate_log_id(id).term
                    == self.current_term,
            |id: NodeId| self.candidate_log_id(id).index,
        )
    }

    /// A peer at `matched` is within the configured lag of the leader's
    /// last log entry.
    pub open spec fn is_line_rate_spec(self, matched: LogId) -> bool {
        spec_saturating_sub(self.last_log_id.index, matched.index) <= self.config.line_rate_lag
    }

    /// The stored snapshot's distance from the last log entry is within
    /// half the snapshot threshold.
    pub open spec fn snapshot_fresh(self, meta: SnapshotMeta) -> bool {
        spec_saturating_sub(self.last_log_id.index, meta.last_log_id.index)
            <= self.config.spec_snapshot_threshold() / 2
    }

    /// The peer's removal deadline has passed and it is no longer in the
    /// membership.
    pub open spec fn should_remove_spec(self, target: NodeId, now: u64) -> bool {
        &&& self.nodes@.dom().contains(target)
        &&& match self.nodes@[target].remove_since {
            Some(t) => now >= t,
            None => false,
        }
        &&& !self.membership.contains_node(target)
    }

    /// Create the progress record for a newly spawned replication
    /// stream. The runtime starts the stream task itself, seeded with the
    /// current term, last log id and commit index.
    pub fn spawn_replication_stream(
        &self,
        target: NodeId,
        caller_tx: Option<ReplyToken>,
    ) -> (r: ReplicationState)
        ensures
            r == (ReplicationState {
                matched: LogId { term: 0, index: 0 },
                remove_since: None,
                tx: caller_tx,
            }),
    {
        let _ = target;
        ReplicationState { matched: LogId::new(0, 0), remove_since: None, tx: caller_tx }
    }

    /// Refresh the reporting mirror for one peer.
    pub fn update_leader_metrics(&mut self, target: NodeId, matched: LogId)
        requires
            old(self).leader_metrics.wf(),
        ensures
            final(self).leader_metrics.wf(),
            final(self).leader_metrics@ == old(self).leader_metrics@.insert(
                target,
                ReplicationMetrics { matched },
            ),
            *final(self) == (LeaderState { leader_metrics: final(self).leader_metrics, ..*old(self) }),
    {
        self.leader_metrics.upsert(target, ReplicationMetrics { matched });
    }

    /// Set the role the node should transition to.
    pub fn set_target_state(&mut self, state: State)
        ensures
            *final(self) == (LeaderState { target_state: state, ..*old(self) }),
    {
        self.target_state = state;
    }

    /// The candidate log id, executably.
    fn candidate_for(&self, id: NodeId) -> (c: LogId)
        requires
            self.nodes.wf(),
        ensures
            c == self.candidate_log_id(id),
    {
        if id == self.id {
            self.last_log_id
        } else {
            match self.nodes.get(id) {
                Some(st) => st.matched,
                None => LogId::new(0, 0),
            }
        }
    }

    /// Build the match-index map over the membership; see
    /// `match_index_spec` for the prior-term exclusion rule it realises.
    pub fn get_match_log_indexes(&self) -> (r: AssocMap<u64>)
        requires
            self.wf(),
        ensures
            r.wf(),
            r@ == self.match_index_spec(),
    {
        let mut res = AssocMap::<u64>::new();
        let n = self.membership.members.len();
        let mut i: usize = 0;
        while i < n
            invariant
                self.wf(),
                n == self.membership.members@.len(),
                i <= n,
                res.wf(),
                forall|id: NodeId| #[trigger] res@.dom().contains(id)
                    <==> (self.membership.members@.take(i as int).contains(id)
                        && self.candidate_log_id(id).term == self.current_term),
                forall|id: NodeId| #[trigger] res@.dom().contains(id)
                    ==> res@[id] == self.candidate_log_id(id).index,
            decreases n - i,
        {
            let id = self.membership.members[i];
            let cand = self.candidate_for(id);
            let ghost prev = res@;
            if cand.term == self.current_term {
                res.upsert(id, cand.index);
            }
            proof {
                assert(self.membership.members@.take(i as int + 1)
                    =~= self.membership.members@.take(i as int).push(
                        self.membership.members@[i as int],
                    ));
                lemma_push_contains(
                    self.membership.members@.take(i as int),
                    self.membership.members@[i as int],
                );
            }
            i += 1;
        }
        proof {
            assert(self.membership.members@.take(n as int) =~= self.membership.members@);
        }
        match &self.membership.members_after_consensus {
            Some(ms) => {
                let k = ms.len();
                let mut j: usize = 0;
                while j < k
                    invariant
                        self.wf(),
                        k == ms@.len(),
                        j <= k,
                        res.wf(),
                        self.membership.members_after_consensus == Some(*ms),
                        forall|id: NodeId| #[trigger] res@.dom().contains(id)
                            <==> ((self.membership.members@.contains(id)
                                || ms@.take(j as int).contains(id))
                                && self.candidate_log_id(id).term == self.current_term),
                        forall|id: NodeId| #[trigger] res@.dom().contains(id)
                            ==> res@[id] == self.candidate_log_id(id).index,
                    decreases k - j,
                {
                    let id = ms[j];
                    let cand = self.candidate_for(id);
                    if cand.term == self.current_term {
                        res.upsert(id, cand.index);
                    }
                    proof {
                        assert(ms@.take(j as int + 1)
                            =~= ms@.take(j as int).push(ms@[j as int]));
                        lemma_push_contains(ms@.take(j as int), ms@[j as int]);
                    }
                    j += 1;
                }
                proof {
                    assert(ms@.take(k as int) =~= ms@);
                    assert(res@ =~= self.match_index_spec());
                }
                res
            },
            None => {
                proof {
                    assert(res@ =~= self.match_index_spec());
                }
                res
            },
        }
    }

    /// The largest index committable in the current term: the greatest
    /// value accepted by every constituent quorum, or the unchanged
    /// commit index when the quorums cannot be satisfied (never a
    /// regression).
    pub fn calc_commit_index(&self) -> (r: u64)
        requires
            self.wf(),
        ensures
            ({
                let m = self.match_index_spec();
                ||| (self.membership.quorum_accepts(m, r) && (forall|v2: u64|
                    v2 > r ==> !self.membership.quorum_accepts(m, v2)))
                ||| (r == self.commit_index && (forall|v: u64|
                    !self.membership.quorum_accepts(m, v)))
            }),
    {
        let repl_indexes = self.get_match_log_indexes();
        match self.membership.greatest_majority_value(&repl_indexes) {
            Some(v) => v,
            None => self.commit_index,
        }
    }

    /// Any value accepted by the quorums is an index some counted node
    /// reported, hence bounded by the leader's last log index.
    proof fn lemma_accepted_le_last_log(s: Self, v: u64)
        requires
            s.wf(),
            s.membership.quorum_accepts(s.match_index_spec(), v),
        ensures
            v <= s.last_log_id.index,
    {
        let m = s.match_index_spec();
        let members = s.membership.members@;
        lemma_count_ge_bounds(members, m, v);
        assert(count_ge(members, m, v) > 0);
        lemma_count_ge_pos(members, m, v);
        let i = choose|i: int|
            0 <= i < members.len() && m.dom().contains(#[trigger] members[i])
                && m[members[i]] >= v;
        let id = members[i];
        assert(m[id] == s.candidate_log_id(id).index);
    }
}

impl ReplicationState {
    /// Whether the peer is within the configured lag of the leader's
    /// last log entry. Evaluated fresh on every progress report; no
    /// hysteresis.
    pub fn is_line_rate(&self, last_log_id: &LogId, config: &Config) -> (r: bool)
        ensures
            r == (spec_saturating_sub(last_log_id.index, self.matched.index)
                <= config.line_rate_lag),
    {
        let distance: u64 = if last_log_id.index >= self.matched.index {
            last_log_id.index - self.matched.index
        } else {
            0
        };
        distance <= config.line_rate_lag
    }
}

impl<D: AppData> LeaderState<D> {
    /// Drop the peer's stream when its removal deadline has passed and it
    /// has left the membership; consulted on every progress report.
    pub fn try_remove_replication(&mut self, target: NodeId, now: u64) -> (removed: bool)
        requires
            old(self).wf(),
        ensures
            final(self).wf(),
            removed == old(self).should_remove_spec(target, now),
            final(self).nodes@ == if removed {
                old(self).nodes@.remove(target)
            } else {
                old(self).nodes@
            },
            *final(self) == (LeaderState { nodes: final(self).nodes, ..*old(self) }),
    {
        let should = match self.nodes.get(target) {
            Some(st) => match st.remove_since {
                Some(t) => now >= t && !self.membership.is_member(target),
                None => false,
            },
            None => false,
        };
        if should {
            self.nodes.remove(target);
            true
        } else {
            false
        }
    }

    /// How `handle_revert_to_follower` transforms the state: a strictly
    /// greater term bumps the current term, clears the vote and the known
    /// leader, heads for Follower, and asks the runtime to persist the
    /// new hard state; an equal or smaller term is ignored.
    pub open spec fn revert_post(pre: Self, post: Self, term: u64, r: Option<HardState>) -> bool {
        if term > pre.current_term {
            &&& post == (LeaderState {
                current_term: term,
                voted_for: None,
                current_leader: None,
                target_state: State::Follower,
                ..pre
            })
            &&& r == Some(HardState { current_term: term, voted_for: None })
        } else {
            &&& post == pre
            &&& r is None
        }
    }

    /// A peer observed a term greater than ours: step down. Never steps
    /// down on an equal term.
    pub fn handle_revert_to_follower(&mut self, target: NodeId, term: u64) -> (r: Option<
        HardState,
    >)
        requires
            old(self).wf(),
        ensures
            final(self).wf(),
            final(self).commit_index == old(self).commit_index,
            Self::revert_post(*old(self), *final(self), term, r),
    {
        let _ = target;
        if term > self.current_term {
            self.current_term = term;
            self.voted_for = None;
            self.current_leader = None;
            self.target_state = State::Follower;
            Some(HardState { current_term: term, voted_for: None })
        } else {
            None
        }
    }

    /// How `handle_needs_snapshot` decides: serve a fresh enough stored
    /// snapshot; otherwise attach the reply to an in-progress build's
    /// completion broadcast; otherwise force compaction. The state is
    /// never changed and the event loop never blocks on snapshot I/O.
    pub open spec fn needs_snapshot_post(
        s: Self,
        tx: ReplyToken,
        current_snapshot: Option<SnapshotMeta>,
        r: SnapshotDecision,
    ) -> bool {
        if current_snapshot matches Some(meta) && s.snapshot_fresh(meta) {
            r == (SnapshotDecision::SendCurrent { tx })
        } else if s.snapshot_state matches Some(SnapshotState::Snapshotting) {
            r == (SnapshotDecision::AwaitExisting { tx })
        } else {
            r == SnapshotDecision::Compact
        }
    }

    /// How `handle_update_matched` transforms the state and what it asks
    /// the runtime to do. With the peer unknown (removed concurrently)
    /// the event is dropped. Otherwise: the peer's progress is recorded;
    /// a pending non-voter caller is resolved exactly when the peer is
    /// now at line rate; a peer past its removal deadline and out of the
    /// membership loses its stream (and gets no metrics refresh); the
    /// commit index advances to the greatest quorum-accepted value when
    /// that exceeds it, and never regresses; the newly committed prefix
    /// of the awaiting queue is drained in order for the state-machine
    /// apply hand-off.
    pub open spec fn update_matched_post(
        pre: Self,
        post: Self,
        target: NodeId,
        matched: LogId,
        now: u64,
        outcome: UpdateMatchedOutcome<D>,
    ) -> bool {
        if !pre.nodes@.dom().contains(target) {
            &&& post == pre
            &&& outcome.non_voter_reply is None
            &&& !outcome.stream_dropped
            &&& outcome.commit_update is None
            &&& outcome.to_apply@.len() == 0
        } else {
            let st0 = pre.nodes@[target];
            let reply = match st0.tx {
                Some(t) => if pre.is_line_rate_spec(matched) {
                    Some((t, AddNonVoterResponse { matched }))
                } else {
                    None
                },
                None => None,
            };
            let st1 = ReplicationState {
                matched,
                tx: if reply is Some {
                    None
                } else {
                    st0.tx
                },
                ..st0
            };
            let removed = pre.should_remove_spec(target, now);
            let k = outcome.to_apply@.len() as int;
            &&& outcome.non_voter_reply == reply
            &&& outcome.stream_dropped == removed
            &&& post.nodes@ == if removed {
                pre.nodes@.insert(target, st1).remove(target)
            } else {
                pre.nodes@.insert(target, st1)
            }
            &&& post.leader_metrics@ == if removed {
                pre.leader_metrics@
            } else {
                pre.leader_metrics@.insert(target, ReplicationMetrics { matched })
            }
            &&& post.commit_index >= pre.commit_index
            &&& (matched.index <= pre.commit_index ==> post.commit_index == pre.commit_index)
            &&& (matched.index > pre.commit_index ==> (forall|v: u64|
                post.membership.quorum_accepts(post.match_index_spec(), v)
                    ==> v <= post.commit_index))
            &&& (post.commit_index != pre.commit_index ==> (matched.index > pre.commit_index
                && post.membership.quorum_accepts(
                    post.match_index_spec(),
                    post.commit_index,
                )))
            &&& outcome.commit_update == if post.commit_index > pre.commit_index {
                Some(post.commit_index)
            } else {
                None::<u64>
            }
            &&& outcome.to_apply@ == pre.awaiting_committed@.take(k)
            &&& post.awaiting_committed@ == pre.awaiting_committed@.skip(k)
            &&& (forall|i: int|
                0 <= i < k ==> (#[trigger] outcome.to_apply@[i]).entry.log_id.index
                    <= post.commit_index)
            &&& (forall|i: int|
                0 <= i < post.awaiting_committed@.len()
                    ==> (#[trigger] post.awaiting_committed@[i]).entry.log_id.index
                        > post.commit_index)
            &&& post == (LeaderState {
                nodes: post.nodes,
                commit_index: post.commit_index,
                awaiting_committed: post.awaiting_committed,
                leader_metrics: post.leader_metrics,
                ..pre
            })
        }
    }

    /// Whether the head of the awaiting queue is now committed.
    fn head_is_committed(&self) -> (r: bool)
        ensures
            r == (self.awaiting_committed@.len() > 0
                && self.awaiting_committed@[0].entry.log_id.index <= self.commit_index),
    {
        if self.awaiting_committed.len() > 0 {
            let first = &self.awaiting_committed[0];
            first.entry.log_id.index <= self.commit_index
        } else {
            false
        }
    }

    /// A peer reported a new high-water mark. A regression of `matched`
    /// is a protocol violation the caller must treat as fatal, so the
    /// contract excludes it; likewise a mark beyond the leader's own log.
    pub fn handle_update_matched(&mut self, target: NodeId, matched: LogId, now: u64) -> (outcome:
        UpdateMatchedOutcome<D>)
        requires
            old(self).wf(),
            old(self).target_state == State::Leader,
            matched.index <= old(self).last_log_id.index,
            old(self).nodes@.dom().contains(target) ==> old(self).nodes@[target].matched.spec_le(
                matched,
            ),
        ensures
            final(self).wf(),
            final(self).commit_index >= old(self).commit_index,
            Self::update_matched_post(*old(self), *final(self), target, matched, now, outcome),
            forall|id: NodeId|
                old(self).nodes@.dom().contains(id) && final(self).nodes@.dom().contains(id)
                    ==> (#[trigger] old(self).nodes@[id]).matched.spec_le(
                    final(self).nodes@[id].matched,
                ),
    {
        let ghost pre = *self;
        let st0 = match self.nodes.get(target) {
            Some(st) => *st,
            None => {
                return UpdateMatchedOutcome {
                    non_voter_reply: None,
                    stream_dropped: false,
                    commit_update: None,
                    to_apply: Vec::new(),
                };
            },
        };
        let mut st1 = st0;
        st1.matched = matched;
        let mut non_voter_reply: Option<(ReplyToken, AddNonVoterResponse)> = None;
        if st1.is_line_rate(&self.last_log_id, &self.config) {
            match st1.tx {
                Some(t) => {
                    non_voter_reply = Some((t, AddNonVoterResponse { matched }));
                    st1.tx = None;
                },
                None => {},
            }
        }
        self.nodes.upsert(target, st1);
        proof {
            assert forall|id: NodeId| self.nodes@.dom().contains(id)
                implies (#[trigger] self.nodes@[id]).matched.index <= self.last_log_id.index by {
                if id != target {
                    assert(self.nodes@[id] == pre.nodes@[id]);
                }
            }
            assert(self.wf());
        }
        let stream_dropped = self.try_remove_replication(target, now);
        proof {
            assert(stream_dropped == pre.should_remove_spec(target, now));
        }
        if !stream_dropped {
            self.update_leader_metrics(target, matched);
        }
        if matched.index <= self.commit_index {
            proof {
                assert(pre.awaiting_committed@.take(0) =~= Seq::<ClientRequest<D>>::empty());
                assert(pre.awaiting_committed@.skip(0) =~= pre.awaiting_committed@);
            }
            return UpdateMatchedOutcome {
                non_voter_reply,
                stream_dropped,
                commit_update: None,
                to_apply: Vec::new(),
            };
        }
        let ghost s2 = *self;
        let new_commit = self.calc_commit_index();
        let mut commit_update: Option<u64> = None;
        let mut to_apply: Vec<ClientRequest<D>> = Vec::new();
        if new_commit > self.commit_index {
            proof {
                Self::lemma_accepted_le_last_log(*self, new_commit);
            }
            self.commit_index = new_commit;
            commit_update = Some(new_commit);
            let ghost frozen = *self;
            let ghost aw0 = self.awaiting_committed@;
            while self.head_is_committed()
                invariant
                    to_apply@.len() <= aw0.len(),
                    to_apply@ == aw0.take(to_apply@.len() as int),
                    self.awaiting_committed@ == aw0.skip(to_apply@.len() as int),
                    forall|i: int, j: int|
                        0 <= i < j < aw0.len() ==> aw0[i].entry.log_id.index
                            < aw0[j].entry.log_id.index,
                    forall|i: int|
                        0 <= i < to_apply@.len() ==> (#[trigger] to_apply@[i]).entry.log_id.index
                            <= self.commit_index,
                    *self == (LeaderState { awaiting_committed: self.awaiting_committed, ..frozen }),
                decreases self.awaiting_committed@.len(),
            {
                let ghost k = to_apply@.len() as int;
                let req = self.awaiting_committed.remove(0);
                to_apply.push(req);
                proof {
                    assert(aw0.skip(k)[0] == aw0[k]);
                    assert(aw0.skip(k).remove(0) =~= aw0.skip(k + 1));
                    assert(aw0.take(k).push(aw0[k]) =~= aw0.take(k + 1));
                }
            }
            proof {
                let k = to_apply@.len() as int;
                assert forall|i: int| 0 <= i < self.awaiting_committed@.len()
                    implies (#[trigger] self.awaiting_committed@[i]).entry.log_id.index
                        > self.commit_index by {
                    assert(self.awaiting_committed@[i] == aw0[k + i]);
                    if i > 0 {
                        assert(aw0[k].entry.log_id.index < aw0[k + i].entry.log_id.index);
                    }
                }
            }
        } else {
            proof {
                assert(pre.awaiting_committed@.take(0) =~= Seq::<ClientRequest<D>>::empty());
                assert(pre.awaiting_committed@.skip(0) =~= pre.awaiting_committed@);
            }
        }
        proof {
            assert(self.match_index_spec() =~= s2.match_index_spec());
        }
        UpdateMatchedOutcome { non_voter_reply, stream_dropped, commit_update, to_apply }
    }

    /// A peer's requested entries were compacted away: decide how it gets
    /// a snapshot. The runtime fetches the stored snapshot's metadata
    /// from storage before calling (a storage failure is handled there
    /// and the event abandoned; the peer re-issues its request).
    pub fn handle_needs_snapshot(
        &self,
        target: NodeId,
        tx: ReplyToken,
        current_snapshot: Option<SnapshotMeta>,
    ) -> (r: SnapshotDecision)
        ensures
            Self::needs_snapshot_post(*self, tx, current_snapshot, r),
    {
        let _ = target;
        let threshold = self.config.snapshot_threshold();
        match current_snapshot {
            Some(snapshot) => {
                if snapshot_is_within_half_of_threshold(
                    &snapshot.last_log_id.index,
                    &self.last_log_id.index,
                    &threshold,
                ) {
                    return SnapshotDecision::SendCurrent { tx };
                }
            },
            None => {},
        }
        match self.snapshot_state {
            Some(SnapshotState::Snapshotting) => SnapshotDecision::AwaitExisting { tx },
            None => SnapshotDecision::Compact,
        }
    }

    /// Handle one event from a replication stream. For `NeedsSnapshot`
    /// the runtime passes the stored snapshot's metadata it fetched; the
    /// parameter is ignored for the other events. `now` is the runtime
    /// clock reading used for removal deadlines.
    pub fn handle_replica_event(
        &mut self,
        event: ReplicaEvent,
        now: u64,
        current_snapshot: Option<SnapshotMeta>,
    ) -> (outcome: ReplicaEventOutcome<D>)
        requires
            old(self).wf(),
            old(self).target_state == State::Leader,
            event matches ReplicaEvent::UpdateMatched { target, matched } ==> (matched.index
                <= old(self).last_log_id.index && (old(self).nodes@.dom().contains(target)
                ==> old(self).nodes@[target].matched.spec_le(matched))),
        ensures
            final(self).wf(),
            final(self).commit_index >= old(self).commit_index,
            match event {
                ReplicaEvent::UpdateMatched { target, matched } => outcome matches
                    ReplicaEventOutcome::Matched(o) && Self::update_matched_post(
                    *old(self),
                    *final(self),
                    target,
                    matched,
                    now,
                    o,
                ),
                ReplicaEvent::RevertToFollower { target: _, term } => outcome matches
                    ReplicaEventOutcome::Reverted(r) && Self::revert_post(
                    *old(self),
                    *final(self),
                    term,
                    r,
                ),
                ReplicaEvent::NeedsSnapshot { target: _, tx } => outcome matches
                    ReplicaEventOutcome::Snapshot(d) && *final(self) == *old(self)
                    && Self::needs_snapshot_post(*old(self), tx, current_snapshot, d),
                ReplicaEvent::Shutdown => outcome matches ReplicaEventOutcome::Stopped
                    && *final(self) == (LeaderState { target_state: State::Shutdown, ..*old(self) }),
            },
    {
        match event {
            ReplicaEvent::UpdateMatched { target, matched } => ReplicaEventOutcome::Matched(
                self.handle_update_matched(target, matched, now),
            ),
            ReplicaEvent::RevertToFollower { target, term } => ReplicaEventOutcome::Reverted(
                self.handle_revert_to_follower(target, term),
            ),
            ReplicaEvent::NeedsSnapshot { target, tx } => ReplicaEventOutcome::Snapshot(
                self.handle_needs_snapshot(target, tx, current_snapshot),
            ),
            ReplicaEvent::Shutdown => {
                self.set_target_state(State::Shutdown);
                ReplicaEventOutcome::Stopped
            },
        }
    }

    /// The prior-term commit rule, by construction: whenever the quorums
    /// accept a value `v`, every entry index `e <= v` (including entries
    /// appended under earlier terms) is covered by some node whose
    /// counted log id carries the **current** term and reaches at least
    /// `e`. A leader therefore never advances the commit index over
    /// prior-term entries by index counting alone.
    pub proof fn lemma_commit_advance_has_current_term_witness(s: Self, v: u64, e: u64)
        requires
            s.wf(),
            s.membership.quorum_accepts(s.match_index_spec(), v),
            e <= v,
        ensures
            exists|id: NodeId|
                {
                    &&& #[trigger] s.match_index_spec().dom().contains(id)
                    &&& s.match_index_spec()[id] >= e
                    &&& s.candidate_log_id(id).term == s.current_term
                },
    {
        let m = s.match_index_spec();
        let members = s.membership.members@;
        lemma_count_ge_bounds(members, m, v);
        assert(count_ge(members, m, v) > 0);
        lemma_count_ge_pos(members, m, v);
        let i = choose|i: int|
            0 <= i < members.len() && m.dom().contains(#[trigger] members[i])
                && m[members[i]] >= v;
        let id = members[i];
        assert(m.dom().contains(id) && m[id] >= e && s.candidate_log_id(id).term
            == s.current_term);
    }

    /// Under joint consensus, a value is accepted only when **both** the
    /// outgoing and the incoming set independently have current-term
    /// majorities at or above it.
    pub proof fn lemma_joint_commit_needs_both_majorities(s: Self, v: u64)
        requires
            s.wf(),
            s.membership.members_after_consensus is Some,
            s.membership.quorum_accepts(s.match_index_spec(), v),
        ensures
            set_has_quorum_ge(s.membership.members@, s.match_index_spec(), v),
            s.membership.members_after_consensus matches Some(ms) ==> set_has_quorum_ge(
                ms@,
                s.match_index_spec(),
                v,
            ),
    {
    }
}

} // verus!
