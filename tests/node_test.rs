use pbft::dto::{Commit, PrePrepare, Prepare, Shutdown, ID};
use pbft::node::{Message, Node, Request, State};
use pbft::test_util::{new_nodes, new_random_preprepare};
use std::collections::HashSet;

fn proposal(seq: ID) -> PrePrepare {
    PrePrepare::new(0, seq, "d".to_owned(), 0, "X".to_owned(), 0)
}

fn count_prepares(out: &[Message]) -> usize {
    out.iter().filter(|m| matches!(m.request, Request::Prepare(_))).count()
}

fn count_commits(out: &[Message]) -> usize {
    out.iter().filter(|m| matches!(m.request, Request::Commit(_))).count()
}

#[test]
fn multi_should_produce_copies_for_multiple_nodes() {
    let mut seed: u64 = 99;
    let pp = new_random_preprepare(&mut seed);
    let sender_id = 15 as ID;
    let node_ids = new_nodes(20);
    let multi: Vec<Message> = Message::multiply(&Request::PrePrepare(pp), sender_id, &node_ids);
    assert_eq!(multi.len(), 20)
}

#[test]
fn multiply_addresses_each_node_once() {
    let node_ids = new_nodes(5);
    let multi = Message::multiply(&Request::Shutdown(Shutdown {}), 7, &node_ids);
    let targets: HashSet<ID> = multi.iter().map(|m| m.get_target_id()).collect();
    assert_eq!(targets, node_ids);
    assert!(multi.iter().all(|m| m.sender_id == 7));
}

#[test]
fn genesis_knows_the_other_nodes() {
    let state = State::genesis(2, new_nodes(4));
    assert_eq!(state.get_tip(), &"genesis".to_owned());
    assert_eq!(state.get_seq_id(), 0);
    assert_eq!(state.get_preprepares().get_reqs().len(), 0);
}

#[test]
fn stale_preprepare_emits_no_prepare() {
    let mut state = State::genesis(1, new_nodes(4));
    let out = state.handle_protocol_message(1, Message::preprepare(0, 1, proposal(0))).unwrap();
    assert_eq!(out.len(), 0);
    assert_eq!(state.get_preprepares().get_reqs().len(), 1);
    assert_eq!(state.get_prepares().get_reqs().len(), 0);
}

#[test]
fn fresh_preprepare_is_endorsed_once() {
    let mut state = State::genesis(1, new_nodes(4));
    let out = state.handle_protocol_message(1, Message::preprepare(0, 1, proposal(1))).unwrap();
    assert_eq!(out.len(), 3);
    assert_eq!(count_prepares(&out), 3);
    assert!(out.iter().all(|m| m.sender_id == 1 && m.target_id != 1));
    assert_eq!(state.get_prepares().get_reqs().len(), 1);
    let again = state.handle_protocol_message(1, Message::preprepare(0, 1, proposal(1))).unwrap();
    assert_eq!(again.len(), 0);
}

#[test]
fn repeated_prepares_emit_one_commit() {
    let mut state = State::genesis(3, new_nodes(4));
    let mut commits = 0;
    for round in 0..3 {
        for sender in [0u64, 1, 2] {
            let p = Prepare::new(0, 1, "d".to_owned(), sender, sender);
            let out = state.handle_protocol_message(3, Message::prepare(sender, 3, p)).unwrap();
            commits += count_commits(&out);
            assert_eq!(count_prepares(&out), 0, "round {}", round);
        }
    }
    // one commit broadcast to the 3 peers, and no more
    assert_eq!(commits, 3);
}

#[test]
fn shutdown_is_no_protocol_message() {
    let mut state = State::genesis(0, new_nodes(4));
    let res = state.handle_protocol_message(0, Message::shutdown(0, 0, Shutdown {}));
    assert_eq!(res.err(), Some("Unknown message".to_owned()));
}

#[test]
fn node_recognises_shutdown() {
    let node = Node::new(1, new_nodes(4));
    assert!(node.handle_control_message(&Message::shutdown(0, 1, Shutdown {})));
    assert!(!node.handle_control_message(&Message::commit(0, 1, Commit::new(0, 1, "d".to_owned(), 0, 0))));
    assert_eq!(node.get_id(), 1);
}

#[test]
fn commit_without_prepare_quorum_leaves_tip() {
    let mut state = State::genesis(1, new_nodes(4));
    state.handle_protocol_message(1, Message::preprepare(0, 1, proposal(1))).unwrap();
    for sender in [0u64, 2, 3] {
        let c = Commit::new(0, 1, "d".to_owned(), sender, sender);
        let out = state.handle_protocol_message(1, Message::commit(sender, 1, c)).unwrap();
        assert_eq!(out.len(), 0);
    }
    assert_eq!(state.get_tip(), &"genesis".to_owned());
}

#[test]
fn four_nodes_agree_on_the_proposal() {
    let all = new_nodes(4);
    let mut nodes: Vec<Node> = (0..4).map(|i| Node::new(i, all.clone())).collect();
    let pp = proposal(1);

    let mut prepares: Vec<Message> = Vec::new();
    for i in 0..4u64 {
        let out = nodes[i as usize].handle_protocol_message(Message::preprepare(0, i, pp.clone())).unwrap();
        assert_eq!(count_prepares(&out), 3);
        prepares.extend(out);
    }
    assert_eq!(prepares.len(), 12);

    let mut commits: Vec<Message> = Vec::new();
    for m in prepares {
        let target = m.get_target_id();
        let out = nodes[target as usize].handle_protocol_message(m).unwrap();
        commits.extend(out);
    }
    for node in &nodes {
        assert!(node.get_state().get_prepares().is_sufficient(&pp, &all));
    }
    // each node commits exactly once, to its 3 peers
    assert_eq!(commits.len(), 12);
    assert_eq!(count_commits(&commits), 12);
    for i in 0..4u64 {
        assert_eq!(commits.iter().filter(|m| m.sender_id == i).count(), 3);
    }

    for m in commits {
        let target = m.get_target_id();
        let out = nodes[target as usize].handle_protocol_message(m).unwrap();
        assert_eq!(out.len(), 0);
    }
    for node in &nodes {
        assert!(node.get_state().get_commits().is_sufficient(&pp, &all));
        assert_eq!(node.get_state().get_tip(), &"X".to_owned());
        assert_eq!(node.get_state().get_seq_id(), 1);
    }
}

#[test]
fn removing_a_node_lowers_the_prepare_quorum() {
    // 5 nodes need 4 prepares; node 4 leaves, after which 3 of the remaining 4 suffice,
    // and the prepare node 4 had sent no longer counts
    let mut state = State::genesis(0, new_nodes(5));
    let out = state.handle_protocol_message(0, Message::preprepare(0, 0, proposal(1))).unwrap();
    assert_eq!(count_prepares(&out), 4);
    for sender in [1u64, 4] {
        let p = Prepare::new(0, 1, "d".to_owned(), sender, sender);
        let out = state.handle_protocol_message(0, Message::prepare(sender, 0, p)).unwrap();
        assert_eq!(count_commits(&out), 0);
    }
    state.remove_node(4);
    assert!(!state.get_prepares().is_sufficient(&proposal(1), &new_nodes(4)));
    let p = Prepare::new(0, 1, "d".to_owned(), 2, 2);
    let out = state.handle_protocol_message(0, Message::prepare(2, 0, p)).unwrap();
    // one commit, to the 3 remaining peers
    assert_eq!(count_commits(&out), 3);
    assert!(out.iter().all(|m| m.target_id != 4));
    assert_eq!(state.get_tip(), &"X".to_owned());
}
