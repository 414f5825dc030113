use pbft::dto::ID;
use pbft::sufficiency::{clean_noise_approvers, one, two_thirds};
use pbft::test_util::new_nodes;
use std::collections::HashSet;

fn set_of(ids: &[ID]) -> HashSet<ID> {
    ids.iter().copied().collect()
}

#[test]
fn should_clean_noise_approvers() {
    let nodes = new_nodes(20);
    let approvers: HashSet<ID> = [101, 102, 103, 105, 19, 1337, 1338, 20].iter().map(|i| *i).collect();
    assert_eq!(clean_noise_approvers(&nodes, &approvers), vec![19]);
}

#[test]
fn test_approval_of_two_thirds_61() {
    let node_count = 61;
    let node_approver_count = 41;
    let nodes = new_nodes(node_count);
    for progress_below in 0..node_approver_count {
        println!("two_thirds_threshold {:?}/{:?} should be invalid", progress_below, node_count);
        assert_eq!(two_thirds(&nodes, &new_nodes(progress_below)), false);
    }
    for progress_above in node_approver_count..node_count {
        println!("two_thirds_threshold {:?}/{:?} should be valid", progress_above, node_count);
        assert_eq!(two_thirds(&nodes, &new_nodes(progress_above)), true);
    }
}

#[test]
fn test_approval_of_two_thirds_61_should_avoid_noise() {
    // node 0 is left out of the node set, so its approval is noise
    let node_count = 61;
    let node_approver_count = 41;
    let mut nodes = new_nodes(node_count + 1);
    nodes.remove(&0);
    for progress_below in 0..node_approver_count + 1 {
        println!("two_thirds_threshold {:?}/{:?} should be invalid", progress_below, node_count);
        assert_eq!(two_thirds(&nodes, &new_nodes(progress_below)), false);
    }
    for progress_above in node_approver_count + 1..node_count + 1 {
        println!("two_thirds_threshold {:?}/{:?} should be valid", progress_above, node_count);
        assert_eq!(two_thirds(&nodes, &new_nodes(progress_above)), true);
    }
}

#[test]
fn approval_of_at_least_one_positive() {
    let nodes = new_nodes(20);
    let approvers = set_of(&[5]);
    assert_eq!(one(&nodes, &approvers), true);
}

#[test]
fn test_approval_of_at_least_one_negative() {
    let nodes = new_nodes(20);
    let approvers = set_of(&[100]);
    assert_eq!(one(&nodes, &approvers), false);
}

#[test]
fn test_approval_of_at_least_one_noise_no_approval() {
    let nodes = new_nodes(20);
    let approvers = set_of(&[101, 102, 103, 105]);
    assert_eq!(one(&nodes, &approvers), false);
}

#[test]
fn test_approval_of_at_least_one_noise() {
    let nodes = new_nodes(20);
    let approvers = set_of(&[101, 102, 103, 105, 19]);
    assert_eq!(one(&nodes, &approvers), true);
}

#[test]
fn two_thirds_boundary_for_3f_plus_1() {
    // f = 1: 4 nodes need 3; f = 2: 7 nodes need 5; f = 20: 61 nodes need 41
    for (n, quorum) in [(4usize, 3usize), (7, 5), (61, 41)] {
        let nodes = new_nodes(n);
        assert_eq!(two_thirds(&nodes, &new_nodes(quorum - 1)), false);
        assert_eq!(two_thirds(&nodes, &new_nodes(quorum)), true);
        assert_eq!(two_thirds(&nodes, &new_nodes(quorum + 1)), true);
    }
}

#[test]
fn policies_fail_on_empty_node_set() {
    let nodes = new_nodes(0);
    let approvers = set_of(&[0, 1, 2]);
    assert_eq!(two_thirds(&nodes, &approvers), false);
    assert_eq!(one(&nodes, &approvers), false);
}

#[test]
fn one_ignores_noise_until_a_member_endorses() {
    let nodes = new_nodes(20);
    let noise = set_of(&[101, 102, 103, 105, 1337, 1338]);
    assert_eq!(one(&nodes, &noise), false);
    let with_member = set_of(&[101, 102, 103, 105, 1337, 1338, 19]);
    assert_eq!(one(&nodes, &with_member), true);
}

#[test]
fn removing_a_node_recomputes_the_quorum() {
    // 5 nodes need 4 endorsers; without node 4 the remaining 4 need only 3
    let mut nodes = new_nodes(5);
    let endorsers = set_of(&[0, 1, 2]);
    assert_eq!(two_thirds(&nodes, &endorsers), false);
    nodes.remove(&4);
    assert_eq!(two_thirds(&nodes, &endorsers), true);
}

#[test]
fn removed_node_endorsement_no_longer_counts() {
    let mut nodes = new_nodes(5);
    let endorsers = set_of(&[0, 1, 2, 4]);
    assert_eq!(two_thirds(&nodes, &endorsers), true);
    nodes.remove(&4);
    let stale_only = set_of(&[0, 1, 4]);
    assert_eq!(two_thirds(&nodes, &stale_only), false);
    assert_eq!(clean_noise_approvers(&nodes, &stale_only).len(), 2);
}
