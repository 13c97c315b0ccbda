use kv::api::{
    get_outcome, next_put_stage, PutEvent, PutStage, STATUS_INTERNAL_SERVER_ERROR, STATUS_NOT_FOUND,
    STATUS_OK, STATUS_TEMPORARY_REDIRECT,
};
use kv::dashboard::{row_style, NodeStatus, RowStyle};
use kv::raft::log::{Command, LogEntry};
use kv::raft::state::{AppendRequest, NodeId, NodeRole};
use kv::raft::RaftNode;

fn finished(stage: &PutStage) -> Option<u16> {
    match stage {
        PutStage::Finished { status } => Some(*status),
        _ => None,
    }
}

#[test]
fn put_by_leader_waits_for_commit() {
    let s = next_put_stage(PutStage::AwaitingRole, PutEvent::RoleReply { role: NodeRole::Leader });
    assert!(matches!(s, PutStage::AwaitingIndex));
    let s = next_put_stage(s, PutEvent::IndexReply { index: 4 });
    assert!(matches!(s, PutStage::AwaitingCommit { target: 4 }));
    let s = next_put_stage(s, PutEvent::CommitIndex { commit: 3 });
    assert!(matches!(s, PutStage::AwaitingCommit { target: 4 }));
    let s = next_put_stage(s, PutEvent::CommitIndex { commit: 4 });
    assert_eq!(finished(&s), Some(STATUS_OK));
    assert_eq!(STATUS_OK, 200);
}

#[test]
fn put_to_follower_redirects() {
    let s = next_put_stage(PutStage::AwaitingRole, PutEvent::RoleReply { role: NodeRole::Follower });
    assert_eq!(finished(&s), Some(STATUS_TEMPORARY_REDIRECT));
    assert_eq!(STATUS_TEMPORARY_REDIRECT, 307);
    let s = next_put_stage(PutStage::AwaitingRole, PutEvent::RoleReply { role: NodeRole::Candidate });
    assert_eq!(finished(&s), Some(307));
    let s = next_put_stage(s, PutEvent::IndexReply { index: 1 });
    assert_eq!(finished(&s), Some(307));
}

#[test]
fn put_fails_when_node_unreachable() {
    for stage in [PutStage::AwaitingRole, PutStage::AwaitingIndex, PutStage::AwaitingCommit { target: 2 }] {
        let s = next_put_stage(stage, PutEvent::Failed);
        assert_eq!(finished(&s), Some(STATUS_INTERNAL_SERVER_ERROR));
    }
    assert_eq!(STATUS_INTERNAL_SERVER_ERROR, 500);
}

#[test]
fn get_outcomes() {
    let r = get_outcome("k".to_string(), Some(Some("v".to_string())));
    match r {
        Ok(g) => {
            assert_eq!(g.key, "k");
            assert_eq!(g.value, "v");
        }
        Err(_) => panic!("expected a value"),
    }
    assert!(matches!(get_outcome("k".to_string(), Some(None)), Err(404)));
    assert_eq!(STATUS_NOT_FOUND, 404);
    assert!(matches!(get_outcome("k".to_string(), None), Err(500)));
}

fn status(role: &str, alive: bool) -> NodeStatus {
    NodeStatus { id: 1, role: role.to_string(), term: 0, log_length: 0, commit_index: 0, last_applied: 0, alive }
}

#[test]
fn dashboard_row_styles() {
    assert_eq!(row_style(&status("Leader", true)), RowStyle::Leader);
    assert_eq!(row_style(&status("Leader", false)), RowStyle::Leader);
    assert_eq!(row_style(&status("Candidate", false)), RowStyle::Candidate);
    assert_eq!(row_style(&status("Follower", false)), RowStyle::Dead);
    assert_eq!(row_style(&status("Follower", true)), RowStyle::Normal);
}

fn make_leader(id: NodeId, peers: Vec<NodeId>) -> RaftNode {
    let mut n = RaftNode::new(id, peers);
    n.persistent.current_term = 1;
    n.role = NodeRole::Leader;
    for &p in &n.peers.clone() {
        n.volatile.next_index.insert(p, 1);
        n.volatile.match_index.insert(p, 0);
    }
    n
}

#[test]
fn quorum_index_is_middle_of_sorted_matches() {
    let mut n = make_leader(1, vec![2, 3, 4, 5]);
    for _ in 0..4 {
        n.propose(Command::NoOp);
    }
    n.volatile.match_index.insert(3, 1);
    n.volatile.match_index.insert(4, 2);
    n.volatile.match_index.insert(5, 0);
    n.handle_append_response(2, true, 3);
    // sorted [0, 1, 2, 3, 4]: two places before the end is 2
    assert_eq!(n.volatile.commit_index, 2);
    assert_eq!(n.volatile.last_applied, 2);
    n.handle_append_response(5, true, 4);
    // sorted [1, 2, 3, 4, 4]
    assert_eq!(n.volatile.commit_index, 3);
}

#[test]
fn entries_well_indexed_only_where_written() {
    let n = RaftNode::new(1, vec![2]);
    let zero = AppendRequest {
        term: 1,
        leader_id: 2,
        prev_log_index: 0,
        prev_log_term: 0,
        entries: vec![LogEntry { term: 1, index: 0, command: Command::NoOp }],
        leader_commit: 0,
    };
    assert!(!n.entries_well_indexed(&zero));
    let mismatched = AppendRequest { prev_log_index: 3, ..zero };
    assert!(n.entries_well_indexed(&mismatched));
    let good = AppendRequest {
        term: 1,
        leader_id: 2,
        prev_log_index: 0,
        prev_log_term: 0,
        entries: vec![LogEntry { term: 1, index: 1, command: Command::NoOp }],
        leader_commit: 0,
    };
    assert!(n.entries_well_indexed(&good));
}

fn e(i: u64) -> LogEntry {
    LogEntry { term: 1, index: i, command: Command::NoOp }
}

#[test]
fn delayed_append_keeps_committed_entries() {
    let mut f = RaftNode::new(2, vec![1, 3]);
    let r = f.handle_append_entries(AppendRequest {
        term: 1,
        leader_id: 1,
        prev_log_index: 0,
        prev_log_term: 0,
        entries: vec![e(1), e(2)],
        leader_commit: 2,
    });
    assert!(r.success);
    assert_eq!(f.volatile.commit_index, 2);
    let late = f.handle_append_entries(AppendRequest {
        term: 1,
        leader_id: 1,
        prev_log_index: 0,
        prev_log_term: 0,
        entries: vec![e(1)],
        leader_commit: 1,
    });
    assert!(late.success);
    assert_eq!(f.last_log_index(), 2);
    assert_eq!(f.volatile.commit_index, 2);
    let later = f.handle_append_entries(AppendRequest {
        term: 1,
        leader_id: 1,
        prev_log_index: 0,
        prev_log_term: 0,
        entries: vec![e(1)],
        leader_commit: 3,
    });
    assert!(later.success);
    assert_eq!(f.last_log_index(), 2);
    assert_eq!(f.volatile.commit_index, 2);
    assert_eq!(f.volatile.last_applied, 2);
}

#[test]
fn unchecked_entry_not_committed() {
    let mut f = RaftNode::new(2, vec![1, 3]);
    f.handle_append_entries(AppendRequest {
        term: 1,
        leader_id: 3,
        prev_log_index: 0,
        prev_log_term: 0,
        entries: vec![e(1), e(2)],
        leader_commit: 0,
    });
    let r = f.handle_append_entries(AppendRequest {
        term: 2,
        leader_id: 1,
        prev_log_index: 1,
        prev_log_term: 1,
        entries: vec![],
        leader_commit: 2,
    });
    assert!(r.success);
    assert_eq!(r.term, 2);
    assert_eq!(f.volatile.commit_index, 1);
    assert_eq!(f.volatile.last_applied, 1);
}

#[test]
fn vote_kept_across_append_in_same_term() {
    let mut n = RaftNode::new(3, vec![1, 2]);
    let a = n.handle_request_vote(kv::raft::state::VoteRequest { term: 1, candidate_id: 1, last_log_index: 0, last_log_term: 0 });
    assert!(a.vote_granted);
    n.handle_append_entries(AppendRequest { term: 1, leader_id: 1, prev_log_index: 0, prev_log_term: 0, entries: vec![], leader_commit: 0 });
    assert_eq!(n.persistent.voted_for, Some(1));
    let b = n.handle_request_vote(kv::raft::state::VoteRequest { term: 1, candidate_id: 2, last_log_index: 0, last_log_term: 0 });
    assert!(!b.vote_granted);
    assert_eq!(b.term, 1);
}

#[test]
fn dashboard_rows_ordered_by_id() {
    let mk = |id: u64| NodeStatus { id, role: "Follower".to_string(), term: id, log_length: 0, commit_index: 0, last_applied: 0, alive: true };
    let rows = kv::dashboard::order_by_id(vec![mk(3), mk(1), mk(5), mk(2), mk(1)]);
    let ids: Vec<u64> = rows.iter().map(|s| s.id).collect();
    assert_eq!(ids, vec![1, 1, 2, 3, 5]);
    assert!(kv::dashboard::order_by_id(vec![]).is_empty());
}
