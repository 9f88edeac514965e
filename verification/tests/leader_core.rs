use raft_leader::AppData;
use raft_leader::Config;
use raft_leader::LogId;
use raft_leader::SnapshotPolicy;
use raft_leader::State;
use raft_leader::assoc::AssocMap;
use raft_leader::leader::AddNonVoterResponse;
use raft_leader::leader::ClientRequest;
use raft_leader::leader::Entry;
use raft_leader::leader::LeaderState;
use raft_leader::leader::ReplicaEvent;
use raft_leader::leader::ReplicaEventOutcome;
use raft_leader::leader::ReplicationState;
use raft_leader::leader::SnapshotDecision;
use raft_leader::membership::MembershipConfig;
use raft_leader::snapshot::SnapshotMeta;
use raft_leader::snapshot::SnapshotState;

#[derive(Clone, Debug)]
struct Payload(u64);

impl AppData for Payload {}

fn peer(term: u64, index: u64) -> ReplicationState {
    ReplicationState { matched: LogId { term, index }, remove_since: None, tx: None }
}

fn request(term: u64, index: u64, tx: u64) -> ClientRequest<Payload> {
    ClientRequest { entry: Entry { log_id: LogId { term, index }, payload: Payload(index) }, tx }
}

fn three_node_leader() -> LeaderState<Payload> {
    let mut nodes = AssocMap::new();
    nodes.upsert(2, peer(5, 7));
    nodes.upsert(3, peer(5, 8));
    LeaderState {
        id: 1,
        current_term: 5,
        voted_for: Some(1),
        current_leader: Some(1),
        last_log_id: LogId { term: 5, index: 10 },
        commit_index: 7,
        membership: MembershipConfig { members: vec![1, 2, 3], members_after_consensus: None },
        nodes,
        awaiting_committed: vec![request(5, 8, 108), request(5, 9, 109), request(5, 10, 110)],
        snapshot_state: None,
        leader_metrics: AssocMap::new(),
        target_state: State::Leader,
        config: Config {
            snapshot_policy: SnapshotPolicy::LogsSinceLast(500),
            line_rate_lag: 0,
            remove_after: 1000,
        },
    }
}

#[test]
fn three_node_commit_advances_to_majority() {
    let mut leader = three_node_leader();
    let outcome = leader.handle_update_matched(2, LogId { term: 5, index: 10 }, 0);
    assert_eq!(leader.commit_index, 10);
    assert_eq!(outcome.commit_update, Some(10));
    assert!(!outcome.stream_dropped);
    assert!(outcome.non_voter_reply.is_none());
    let drained: Vec<u64> = outcome.to_apply.iter().map(|r| r.entry.log_id.index).collect();
    assert_eq!(drained, vec![8, 9, 10]);
    assert!(leader.awaiting_committed.is_empty());
}

#[test]
fn previous_term_match_does_not_advance_commit() {
    let mut leader = three_node_leader();
    leader.nodes = AssocMap::new();
    leader.nodes.upsert(2, peer(0, 0));
    leader.nodes.upsert(3, peer(0, 0));
    let outcome = leader.handle_update_matched(2, LogId { term: 4, index: 9 }, 0);
    assert_eq!(leader.commit_index, 7);
    assert_eq!(outcome.commit_update, None);
    assert!(outcome.to_apply.is_empty());
    assert_eq!(leader.awaiting_committed.len(), 3);
}

#[test]
fn unknown_peer_event_is_dropped() {
    let mut leader = three_node_leader();
    let outcome = leader.handle_update_matched(9, LogId { term: 5, index: 10 }, 0);
    assert_eq!(leader.commit_index, 7);
    assert_eq!(outcome.commit_update, None);
    assert!(outcome.to_apply.is_empty());
    assert!(!outcome.stream_dropped);
}

#[test]
fn greater_term_reverts_to_follower() {
    let mut leader = three_node_leader();
    let hard = leader.handle_revert_to_follower(2, 7);
    let hard = hard.expect("a greater term must be persisted");
    assert_eq!(hard.current_term, 7);
    assert_eq!(hard.voted_for, None);
    assert_eq!(leader.current_term, 7);
    assert_eq!(leader.voted_for, None);
    assert_eq!(leader.current_leader, None);
    assert_eq!(leader.target_state, State::Follower);
}

#[test]
fn equal_term_does_not_step_down() {
    let mut leader = three_node_leader();
    let hard = leader.handle_revert_to_follower(2, 5);
    assert!(hard.is_none());
    assert_eq!(leader.current_term, 5);
    assert_eq!(leader.target_state, State::Leader);
}

#[test]
fn fresh_snapshot_is_served() {
    let mut leader = three_node_leader();
    leader.config.snapshot_policy = SnapshotPolicy::LogsSinceLast(100);
    leader.last_log_id = LogId { term: 5, index: 150 };
    let meta = SnapshotMeta { last_log_id: LogId { term: 5, index: 120 } };
    let decision = leader.handle_needs_snapshot(2, 42, Some(meta));
    assert!(matches!(decision, SnapshotDecision::SendCurrent { tx: 42 }));
    assert!(leader.snapshot_state.is_none());
}

#[test]
fn stale_snapshot_attaches_to_running_build() {
    let mut leader = three_node_leader();
    leader.config.snapshot_policy = SnapshotPolicy::LogsSinceLast(100);
    leader.last_log_id = LogId { term: 5, index: 500 };
    leader.snapshot_state = Some(SnapshotState::Snapshotting);
    let meta = SnapshotMeta { last_log_id: LogId { term: 5, index: 100 } };
    let decision = leader.handle_needs_snapshot(2, 42, Some(meta));
    assert!(matches!(decision, SnapshotDecision::AwaitExisting { tx: 42 }));
    assert!(matches!(leader.snapshot_state, Some(SnapshotState::Snapshotting)));
}

#[test]
fn stale_snapshot_without_build_forces_compaction() {
    let mut leader = three_node_leader();
    leader.config.snapshot_policy = SnapshotPolicy::LogsSinceLast(100);
    leader.last_log_id = LogId { term: 5, index: 500 };
    let meta = SnapshotMeta { last_log_id: LogId { term: 5, index: 100 } };
    let decision = leader.handle_needs_snapshot(2, 42, Some(meta));
    assert!(matches!(decision, SnapshotDecision::Compact));
}

#[test]
fn missing_snapshot_forces_compaction() {
    let leader = three_node_leader();
    let decision = leader.handle_needs_snapshot(2, 42, None);
    assert!(matches!(decision, SnapshotDecision::Compact));
}

#[test]
fn non_voter_reply_resolves_only_at_line_rate() {
    let mut leader = three_node_leader();
    leader.config.line_rate_lag = 2;
    leader.nodes.upsert(
        4,
        ReplicationState { matched: LogId { term: 0, index: 0 }, remove_since: None, tx: Some(99) },
    );
    // Too far behind: no reply yet, slot kept.
    let outcome = leader.handle_update_matched(4, LogId { term: 5, index: 5 }, 0);
    assert!(outcome.non_voter_reply.is_none());
    // Within the lag: the caller is resolved with the reached mark.
    let outcome = leader.handle_update_matched(4, LogId { term: 5, index: 9 }, 0);
    assert_eq!(
        outcome.non_voter_reply,
        Some((99, AddNonVoterResponse { matched: LogId { term: 5, index: 9 } }))
    );
    // The slot is cleared: a further report resolves nothing.
    let outcome = leader.handle_update_matched(4, LogId { term: 5, index: 10 }, 0);
    assert!(outcome.non_voter_reply.is_none());
}

#[test]
fn expired_peer_out_of_membership_is_dropped() {
    let mut leader = three_node_leader();
    leader.nodes.upsert(
        9,
        ReplicationState {
            matched: LogId { term: 5, index: 8 },
            remove_since: Some(10),
            tx: None,
        },
    );
    let outcome = leader.handle_update_matched(9, LogId { term: 5, index: 9 }, 20);
    assert!(outcome.stream_dropped);
    assert!(leader.nodes.get(9).is_none());
    assert!(leader.leader_metrics.get(9).is_none());
}

#[test]
fn peer_before_deadline_is_kept() {
    let mut leader = three_node_leader();
    leader.nodes.upsert(
        9,
        ReplicationState {
            matched: LogId { term: 5, index: 8 },
            remove_since: Some(100),
            tx: None,
        },
    );
    let outcome = leader.handle_update_matched(9, LogId { term: 5, index: 9 }, 20);
    assert!(!outcome.stream_dropped);
    assert_eq!(leader.nodes.get(9).unwrap().matched, LogId { term: 5, index: 9 });
    assert_eq!(leader.leader_metrics.get(9).unwrap().matched, LogId { term: 5, index: 9 });
}

#[test]
fn shutdown_event_stops_the_loop() {
    let mut leader = three_node_leader();
    let outcome = leader.handle_replica_event(ReplicaEvent::Shutdown, 0, None);
    assert!(matches!(outcome, ReplicaEventOutcome::<Payload>::Stopped));
    assert_eq!(leader.target_state, State::Shutdown);
}

#[test]
fn dispatcher_routes_update_matched() {
    let mut leader = three_node_leader();
    let event = ReplicaEvent::UpdateMatched { target: 2, matched: LogId { term: 5, index: 10 } };
    let outcome = leader.handle_replica_event(event, 0, None);
    match outcome {
        ReplicaEventOutcome::Matched(o) => assert_eq!(o.commit_update, Some(10)),
        _ => panic!("expected a matched outcome"),
    }
    assert_eq!(leader.commit_index, 10);
}

#[test]
fn spawn_replication_stream_starts_at_sentinel() {
    let leader = three_node_leader();
    let state = leader.spawn_replication_stream(7, Some(55));
    assert_eq!(state.matched, LogId { term: 0, index: 0 });
    assert_eq!(state.remove_since, None);
    assert_eq!(state.tx, Some(55));
}

#[test]
fn update_leader_metrics_refreshes_one_peer() {
    let mut leader = three_node_leader();
    leader.update_leader_metrics(2, LogId { term: 5, index: 9 });
    assert_eq!(leader.leader_metrics.get(2).unwrap().matched, LogId { term: 5, index: 9 });
    leader.update_leader_metrics(2, LogId { term: 5, index: 10 });
    assert_eq!(leader.leader_metrics.get(2).unwrap().matched, LogId { term: 5, index: 10 });
}

#[test]
fn calc_commit_index_without_quorum_keeps_current() {
    let mut leader = three_node_leader();
    leader.nodes = AssocMap::new();
    leader.nodes.upsert(2, peer(0, 0));
    leader.nodes.upsert(3, peer(0, 0));
    assert_eq!(leader.calc_commit_index(), 7);
}

#[test]
fn get_match_log_indexes_excludes_prior_terms() {
    let mut leader = three_node_leader();
    leader.nodes = AssocMap::new();
    leader.nodes.upsert(2, peer(4, 9));
    leader.nodes.upsert(3, peer(5, 8));
    let map = leader.get_match_log_indexes();
    assert_eq!(map.get(1).copied(), Some(10));
    assert_eq!(map.get(2).copied(), None);
    assert_eq!(map.get(3).copied(), Some(8));
}

#[test]
fn commit_index_never_decreases_across_a_burst() {
    let mut leader = three_node_leader();
    let mut last_commit = leader.commit_index;
    let bursts = [
        (3, LogId { term: 5, index: 9 }),
        (2, LogId { term: 5, index: 8 }),
        (3, LogId { term: 5, index: 9 }),
        (2, LogId { term: 5, index: 10 }),
        (3, LogId { term: 5, index: 10 }),
    ];
    for (target, matched) in bursts {
        let _ = leader.handle_update_matched(target, matched, 0);
        assert!(leader.commit_index >= last_commit);
        last_commit = leader.commit_index;
    }
    assert_eq!(leader.commit_index, 10);
}

#[test]
fn observed_matched_never_decreases() {
    let mut leader = three_node_leader();
    let mut last = leader.nodes.get(2).unwrap().matched;
    for matched in [LogId { term: 5, index: 8 }, LogId { term: 5, index: 8 }, LogId {
        term: 5,
        index: 10,
    }] {
        let _ = leader.handle_update_matched(2, matched, 0);
        let seen = leader.nodes.get(2).unwrap().matched;
        assert!(seen.ge(&last));
        last = seen;
    }
}

#[test]
fn line_rate_boundary_is_exact() {
    let config = Config {
        snapshot_policy: SnapshotPolicy::LogsSinceLast(500),
        line_rate_lag: 2,
        remove_after: 1000,
    };
    let last = LogId { term: 5, index: 10 };
    assert!(peer(5, 8).is_line_rate(&last, &config));
    assert!(!peer(5, 7).is_line_rate(&last, &config));
    // A mark ahead of the last log counts as distance zero.
    assert!(peer(5, 11).is_line_rate(&last, &config));
}

#[test]
fn joint_consensus_requires_both_sets() {
    let mut leader = three_node_leader();
    leader.membership = MembershipConfig {
        members: vec![1, 2, 3],
        members_after_consensus: Some(vec![4, 5, 6]),
    };
    let mut nodes = AssocMap::new();
    nodes.upsert(2, peer(5, 10));
    nodes.upsert(3, peer(5, 10));
    nodes.upsert(4, peer(0, 0));
    nodes.upsert(5, peer(0, 0));
    nodes.upsert(6, peer(0, 0));
    leader.nodes = nodes;
    // The outgoing set is unanimous, but the incoming set has no
    // current-term majority: the commit index must not move.
    let outcome = leader.handle_update_matched(2, LogId { term: 5, index: 10 }, 0);
    assert_eq!(leader.commit_index, 7);
    assert_eq!(outcome.commit_update, None);
    // Once the incoming set catches up, the commit advances.
    let _ = leader.handle_update_matched(4, LogId { term: 5, index: 9 }, 0);
    assert_eq!(leader.commit_index, 7);
    let outcome = leader.handle_update_matched(5, LogId { term: 5, index: 9 }, 0);
    assert_eq!(leader.commit_index, 9);
    assert_eq!(outcome.commit_update, Some(9));
    let drained: Vec<u64> = outcome.to_apply.iter().map(|r| r.entry.log_id.index).collect();
    assert_eq!(drained, vec![8, 9]);
    assert_eq!(leader.awaiting_committed.len(), 1);
}
