use std::collections::HashSet;

use alliance_monitor::corporations_service::{
    corporation_alliance_delta, AllianceOp, CorporationsService, ServiceEvent,
};

fn op_set(ops: &[AllianceOp]) -> HashSet<AllianceOp> {
    ops.iter().copied().collect()
}

fn apply(old: &[u64], ops: &[AllianceOp]) -> HashSet<u64> {
    let mut members: HashSet<u64> = old.iter().copied().collect();
    for op in ops {
        match op {
            AllianceOp::Add(c) => {
                members.insert(*c);
            }
            AllianceOp::Del(c) => {
                members.remove(c);
            }
        }
    }
    members
}

#[test]
fn test_corporation_alliance_delta() {
    let old_corporations = vec![0, 1, 2];
    let new_corporations = vec![1, 3];

    let delta = corporation_alliance_delta(&old_corporations, &new_corporations);

    assert!(delta.len() == 3);
}

#[test]
fn test_corporation_alliance_delta_add() {
    let old_corporations = vec![0, 2];
    let new_corporations = vec![0, 1, 2];

    let delta = corporation_alliance_delta(&old_corporations, &new_corporations);

    assert!(delta[0] == AllianceOp::Add(1));
}

#[test]
fn test_corporation_alliance_delta_del() {
    let old_corporations = vec![0, 1, 2];
    let new_corporations = vec![0, 2];

    let delta = corporation_alliance_delta(&old_corporations, &new_corporations);

    assert!(delta[0] == AllianceOp::Del(1));
}

#[test]
fn delta_scenario_removes_two_adds_one() {
    let delta = corporation_alliance_delta(&vec![1, 2, 3], &vec![2, 4]);
    assert_eq!(delta.len(), 3);
    let expected: HashSet<AllianceOp> =
        [AllianceOp::Del(1), AllianceOp::Del(3), AllianceOp::Add(4)].into_iter().collect();
    assert_eq!(op_set(&delta), expected);
}

#[test]
fn delta_applied_to_old_gives_new() {
    let old = vec![5, 6, 7, 8];
    let new = vec![8, 9, 5, 10];
    let delta = corporation_alliance_delta(&old, &new);
    let expected: HashSet<u64> = new.iter().copied().collect();
    assert_eq!(apply(&old, &delta), expected);
    for op in &delta {
        let c = match op {
            AllianceOp::Add(c) | AllianceOp::Del(c) => *c,
        };
        assert!(!(old.contains(&c) && new.contains(&c)));
    }
}

#[test]
fn delta_swapped_is_inverse() {
    let a = vec![1, 2, 3, 7];
    let b = vec![3, 4, 7, 9];
    let ab = corporation_alliance_delta(&a, &b);
    let ba = corporation_alliance_delta(&b, &a);
    assert_eq!(ab.len(), ba.len());
    let inverted: HashSet<AllianceOp> = ab
        .iter()
        .map(|op| match op {
            AllianceOp::Add(c) => AllianceOp::Del(*c),
            AllianceOp::Del(c) => AllianceOp::Add(*c),
        })
        .collect();
    assert_eq!(inverted, op_set(&ba));
}

#[test]
fn delta_of_equal_rosters_is_empty() {
    assert!(corporation_alliance_delta(&vec![4, 2, 9], &vec![9, 4, 2]).is_empty());
    assert!(corporation_alliance_delta(&vec![], &vec![]).is_empty());
}

#[test]
fn delta_counts_duplicates() {
    assert_eq!(corporation_alliance_delta(&vec![1, 1], &vec![1]), vec![AllianceOp::Del(1)]);
    assert_eq!(corporation_alliance_delta(&vec![1], &vec![1, 1]), vec![AllianceOp::Add(1)]);
    assert!(corporation_alliance_delta(&vec![1, 1], &vec![1, 1]).is_empty());
}

#[test]
fn delta_from_empty_adds_everything() {
    let delta = corporation_alliance_delta(&vec![], &vec![10, 20]);
    let expected: HashSet<AllianceOp> = [AllianceOp::Add(10), AllianceOp::Add(20)].into_iter().collect();
    assert_eq!(op_set(&delta), expected);
}

#[test]
fn baseline_then_changes_are_reported() {
    let x = 77;
    let mut service = CorporationsService::new();
    assert!(!service.has_seen(x));

    let events = service.apply_roster(x, &vec![10, 20]);
    assert!(events.is_empty());
    assert!(service.has_seen(x));
    assert_eq!(service.alliance_of(10), Some(x));
    assert_eq!(service.alliance_of(20), Some(x));

    let events = service.apply_roster(x, &vec![20, 30]);
    assert_eq!(events.len(), 2);
    let got: HashSet<ServiceEvent> = events.into_iter().collect();
    let expected: HashSet<ServiceEvent> =
        [ServiceEvent::LeftAlliance(x, 10), ServiceEvent::JoinAlliance(x, 30)].into_iter().collect();
    assert_eq!(got, expected);
    assert_eq!(service.alliance_of(10), None);
    assert_eq!(service.alliance_of(20), Some(x));
    assert_eq!(service.alliance_of(30), Some(x));
    let mut members = service.corporations_of(x);
    members.sort();
    assert_eq!(members, vec![20, 30]);
}

#[test]
fn unchanged_roster_is_silent() {
    let mut service = CorporationsService::new();
    assert!(service.apply_roster(5, &vec![1, 2, 3]).is_empty());
    assert!(service.apply_roster(5, &vec![3, 2, 1]).is_empty());
}

#[test]
fn first_refresh_of_large_roster_is_silent() {
    let mut service = CorporationsService::new();
    let roster: Vec<u64> = (100..200).collect();
    assert!(service.apply_roster(9, &roster).is_empty());
    assert_eq!(service.corporations_of(9).len(), 100);
}

#[test]
fn corporation_moves_between_alliances() {
    let mut service = CorporationsService::new();
    service.apply_roster(1, &vec![50]);
    service.apply_roster(2, &vec![60]);
    let events = service.apply_roster(2, &vec![60, 50]);
    assert_eq!(events, vec![ServiceEvent::JoinAlliance(2, 50)]);
    assert_eq!(service.alliance_of(50), Some(2));
    assert!(service.corporations_of(1).is_empty());
}

#[test]
fn queue_is_replaced_and_drained_in_order() {
    let mut service = CorporationsService::new();
    assert_eq!(service.update_alliance_queue(Some(vec![3, 1, 2])), 0);
    assert_eq!(service.queue_len(), 3);
    assert_eq!(service.drain_count(Some(2)), 2);
    assert_eq!(service.drain_count(Some(20)), 3);
    assert_eq!(service.drain_count(None), 3);
    assert_eq!(service.next_alliance(), Some(3));
    assert_eq!(service.update_alliance_queue(Some(vec![8, 9])), 2);
    assert_eq!(service.next_alliance(), Some(8));
    assert_eq!(service.next_alliance(), Some(9));
    assert_eq!(service.next_alliance(), None);
    assert_eq!(service.drain_count(Some(5)), 0);
}

#[test]
fn failed_alliance_fetch_leaves_queue_empty() {
    let mut service = CorporationsService::new();
    service.update_alliance_queue(Some(vec![1, 2]));
    assert_eq!(service.update_alliance_queue(None), 2);
    assert_eq!(service.queue_len(), 0);
    assert_eq!(service.next_alliance(), None);
}
