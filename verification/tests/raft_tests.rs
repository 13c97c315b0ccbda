use kv::raft::log::Command;
use kv::raft::state::{Message, NodeId, NodeRole};
use kv::raft::RaftNode;

fn three_node_cluster() -> (RaftNode, RaftNode, RaftNode) {
    (
        RaftNode::new(1, vec![2, 3]),
        RaftNode::new(2, vec![1, 3]),
        RaftNode::new(3, vec![1, 2]),
    )
}

fn make_leader(id: NodeId, peers: Vec<NodeId>) -> RaftNode {
    let mut n = RaftNode::new(id, peers);
    n.persistent.current_term = 1;
    n.role = NodeRole::Leader;
    for &p in &n.peers.clone() {
        n.volatile.next_index.insert(p, 1);
        n.volatile.match_index.insert(p, 0);
    }
    n
}

#[test]
fn empty_log_returns_zero() {
    let node = RaftNode::new(1, vec![2, 3]);
    assert_eq!(node.last_log_index(), 0);
    assert_eq!(node.last_log_term(), 0);
}

#[test]
fn election_timeout_makes_candidate() {
    let (mut n1, _, _) = three_node_cluster();
    n1.on_election_timeout();
    assert_eq!(n1.role, NodeRole::Candidate);
    assert_eq!(n1.persistent.current_term, 1);
}

#[test]
fn majority_vote_makes_leader() {
    let (mut n1, mut n2, _) = three_node_cluster();
    let reqs = n1.on_election_timeout();
    let req = match &reqs[0] {
        Message::RequestVote { args, .. } => args.clone(),
        _ => panic!(),
    };
    let resp = n2.handle_request_vote(req);
    let msgs = n1.handle_vote_response(2, resp);
    assert_eq!(n1.role, NodeRole::Leader);
    assert!(!msgs.is_empty());
}

#[test]
fn propose_appends_to_log() {
    let mut leader = make_leader(1, vec![2, 3]);
    leader.propose(Command::Put {
        key: "x".into(),
        value: "42".into(),
    });
    assert_eq!(leader.last_log_index(), 1);
}

#[test]
fn commit_advances_after_majority_ack() {
    let mut leader = make_leader(1, vec![2, 3]);
    leader.propose(Command::Put {
        key: "k".into(),
        value: "v".into(),
    });
    leader.handle_append_response(2, true, 1);
    assert_eq!(leader.volatile.commit_index, 1);
}
