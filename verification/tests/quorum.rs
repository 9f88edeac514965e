use raft_leader::assoc::AssocMap;
use raft_leader::membership::MembershipConfig;
use raft_leader::snapshot::snapshot_is_within_half_of_threshold;

fn index_map(entries: &[(u64, u64)]) -> AssocMap<u64> {
    let mut m = AssocMap::new();
    for (k, v) in entries {
        m.upsert(*k, *v);
    }
    m
}

#[test]
fn happy_path_true_when_within_half_threshold() {
    let res = snapshot_is_within_half_of_threshold(&50, &100, &500);
    assert_eq!(res, true)
}

#[test]
fn happy_path_false_when_above_half_threshold() {
    let res = snapshot_is_within_half_of_threshold(&1, &500, &100);
    assert_eq!(res, false)
}

#[test]
fn guards_against_underflow() {
    let res = snapshot_is_within_half_of_threshold(&200, &100, &500);
    assert_eq!(res, true)
}

#[test]
fn single_set_majority_takes_second_highest_of_three() {
    let membership = MembershipConfig { members: vec![1, 2, 3], members_after_consensus: None };
    let map = index_map(&[(1, 10), (2, 10), (3, 8)]);
    assert_eq!(membership.greatest_majority_value(&map), Some(10));
}

#[test]
fn single_reporter_of_three_is_no_majority() {
    let membership = MembershipConfig { members: vec![1, 2, 3], members_after_consensus: None };
    let map = index_map(&[(1, 10)]);
    assert_eq!(membership.greatest_majority_value(&map), None);
}

#[test]
fn absent_ids_count_as_not_satisfying() {
    let membership = MembershipConfig { members: vec![1, 2, 3, 4, 5], members_after_consensus: None };
    let map = index_map(&[(1, 10), (2, 9)]);
    assert_eq!(membership.greatest_majority_value(&map), None);
    let map = index_map(&[(1, 10), (2, 9), (3, 3)]);
    assert_eq!(membership.greatest_majority_value(&map), Some(3));
}

#[test]
fn joint_quorum_is_the_minimum_of_both_sets() {
    let membership = MembershipConfig {
        members: vec![1, 2, 3],
        members_after_consensus: Some(vec![4, 5, 6]),
    };
    let map = index_map(&[(1, 10), (2, 10), (4, 7), (5, 7)]);
    assert_eq!(membership.greatest_majority_value(&map), Some(7));
    let map = index_map(&[(1, 10), (2, 10)]);
    assert_eq!(membership.greatest_majority_value(&map), None);
}

#[test]
fn empty_map_has_no_majority() {
    let membership = MembershipConfig { members: vec![1, 2, 3], members_after_consensus: None };
    let map = AssocMap::new();
    assert_eq!(membership.greatest_majority_value(&map), None);
}

#[test]
fn all_nodes_unions_both_sets_once() {
    let membership = MembershipConfig {
        members: vec![1, 2, 3],
        members_after_consensus: Some(vec![3, 4]),
    };
    let mut all = membership.all_nodes();
    all.sort();
    assert_eq!(all, vec![1, 2, 3, 4]);
}

#[test]
fn is_member_checks_both_sets() {
    let membership = MembershipConfig {
        members: vec![1, 2],
        members_after_consensus: Some(vec![3]),
    };
    assert!(membership.is_member(1));
    assert!(membership.is_member(3));
    assert!(!membership.is_member(4));
}

#[test]
fn assoc_map_insert_get_remove() {
    let mut m: AssocMap<u64> = AssocMap::new();
    assert_eq!(m.len(), 0);
    m.upsert(1, 10);
    m.upsert(2, 20);
    m.upsert(1, 11);
    assert_eq!(m.len(), 2);
    assert_eq!(m.get(1).copied(), Some(11));
    assert_eq!(m.get(2).copied(), Some(20));
    assert!(!m.contains_key(3));
    m.remove(1);
    assert_eq!(m.get(1).copied(), None);
    assert_eq!(m.len(), 1);
}
