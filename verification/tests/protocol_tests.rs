use kv::api::{GetResponse, PutBody};
use kv::dashboard::NodeStatus;
use kv::raft::actor::{
    new_election_timeout_ms, RaftInput, RaftReply, ELECTION_TIMEOUT_MAX_MS, ELECTION_TIMEOUT_MIN_MS,
};
use kv::raft::log::{Command, LogEntry};
use kv::raft::state::{
    AppendRequest, Message, NodeId, NodeRole, PersistentState, VolatileState, VoteRequest,
    VoteResponse,
};
use kv::raft::RaftNode;
use kv::storage::KvStore;

fn make_leader(id: NodeId, peers: Vec<NodeId>) -> RaftNode {
    let mut n = RaftNode::new(id, peers);
    n.persistent.current_term = 1;
    n.role = NodeRole::Leader;
    for &p in &n.peers.clone() {
        n.volatile.next_index.insert(p, 1);
        n.volatile.match_index.insert(p, 0);
    }
    n
}

fn put(key: &str, value: &str) -> Command {
    Command::Put { key: key.to_string(), value: value.to_string() }
}

fn entry(term: u64, index: u64, command: Command) -> LogEntry {
    LogEntry { term, index, command }
}

fn append(term: u64, prev_log_index: u64, prev_log_term: u64, entries: Vec<LogEntry>, leader_commit: u64) -> AppendRequest {
    AppendRequest { term, leader_id: 9, prev_log_index, prev_log_term, entries, leader_commit }
}

fn terms(n: &RaftNode) -> Vec<u64> {
    n.persistent.log.iter().map(|e| e.term).collect()
}

#[test]
fn kv_store_read_after_write() {
    let mut s = KvStore::default();
    assert_eq!(s.get("a"), None);
    s.apply(1, &put("a", "1"));
    assert_eq!(s.get("a"), Some(&"1".to_string()));
    assert_eq!(s.last_applied, 1);
    s.apply(2, &put("a", "2"));
    assert_eq!(s.get("a"), Some(&"2".to_string()));
    s.apply(3, &put("b", "x"));
    s.apply(4, &Command::Delete { key: "a".to_string() });
    assert_eq!(s.get("a"), None);
    assert_eq!(s.get("b"), Some(&"x".to_string()));
    s.apply(5, &Command::NoOp);
    assert_eq!(s.get("b"), Some(&"x".to_string()));
    assert_eq!(s.last_applied, 5);
}

#[test]
fn fresh_states_are_empty() {
    let p = PersistentState::new();
    assert_eq!(p.current_term, 0);
    assert_eq!(p.voted_for, None);
    assert!(p.log.is_empty());
    let v = VolatileState::new();
    assert_eq!(v.commit_index, 0);
    assert_eq!(v.last_applied, 0);
    assert!(v.next_index.is_empty());
    assert!(v.match_index.is_empty());
}

#[test]
fn plain_records_hold_their_fields() {
    let b = PutBody { value: "v".to_string() };
    assert_eq!(b.value, "v");
    let g = GetResponse { key: "k".to_string(), value: "v".to_string() };
    assert_eq!(g.key, "k");
    let st = NodeStatus {
        id: 1,
        role: "Leader".to_string(),
        term: 2,
        log_length: 3,
        commit_index: 2,
        last_applied: 1,
        alive: true,
    };
    assert_eq!(st.log_length, 3);
    assert!(st.alive);
}

#[test]
fn get_entry_counts_from_one() {
    let mut n = RaftNode::new(1, vec![2]);
    n.persistent.log.push(entry(1, 1, Command::NoOp));
    n.persistent.log.push(entry(3, 2, put("k", "v")));
    assert!(n.get_entry(0).is_none());
    assert_eq!(n.get_entry(1).unwrap().term, 1);
    assert_eq!(n.get_entry(2).unwrap().term, 3);
    assert!(n.get_entry(3).is_none());
    assert_eq!(n.last_log_index(), 2);
    assert_eq!(n.last_log_term(), 3);
}

#[test]
fn start_election_matches_timeout() {
    let mut a = RaftNode::new(4, vec![1, 2, 3]);
    let mut b = RaftNode::new(4, vec![1, 2, 3]);
    a.persistent.current_term = 6;
    b.persistent.current_term = 6;
    let ma = a.on_election_timeout();
    let mb = b.start_election();
    assert_eq!(a.persistent.current_term, 7);
    assert_eq!(b.persistent.current_term, 7);
    assert_eq!(a.persistent.voted_for, Some(4));
    assert_eq!(b.role, NodeRole::Candidate);
    assert_eq!(ma.len(), 3);
    assert_eq!(mb.len(), 3);
    assert_eq!(a.votes_received.len(), 1);
    assert!(a.votes_received.contains(&4));
    for (i, m) in mb.iter().enumerate() {
        match m {
            Message::RequestVote { to, args } => {
                assert_eq!(*to, [1, 2, 3][i]);
                assert_eq!(args.term, 7);
                assert_eq!(args.candidate_id, 4);
                assert_eq!(args.last_log_index, 0);
            }
            _ => panic!("expected a vote request"),
        }
    }
}

#[test]
fn vote_refused_for_stale_term() {
    let mut n = RaftNode::new(2, vec![1, 3]);
    n.persistent.current_term = 5;
    let resp = n.handle_request_vote(VoteRequest { term: 4, candidate_id: 1, last_log_index: 9, last_log_term: 9 });
    assert!(!resp.vote_granted);
    assert_eq!(resp.term, 5);
    assert_eq!(n.persistent.voted_for, None);
}

#[test]
fn one_vote_per_term() {
    let mut n = RaftNode::new(3, vec![1, 2]);
    let first = n.handle_request_vote(VoteRequest { term: 1, candidate_id: 1, last_log_index: 0, last_log_term: 0 });
    assert!(first.vote_granted);
    let second = n.handle_request_vote(VoteRequest { term: 1, candidate_id: 2, last_log_index: 0, last_log_term: 0 });
    assert!(!second.vote_granted);
    assert_eq!(n.persistent.voted_for, Some(1));
    let again = n.handle_request_vote(VoteRequest { term: 1, candidate_id: 1, last_log_index: 0, last_log_term: 0 });
    assert!(again.vote_granted);
    let newer = n.handle_request_vote(VoteRequest { term: 2, candidate_id: 2, last_log_index: 0, last_log_term: 0 });
    assert!(newer.vote_granted);
    assert_eq!(n.persistent.current_term, 2);
}

#[test]
fn vote_refused_to_stale_log() {
    let mut n = RaftNode::new(3, vec![1, 2]);
    n.persistent.current_term = 2;
    n.persistent.log.push(entry(2, 1, Command::NoOp));
    let older_term = n.handle_request_vote(VoteRequest { term: 3, candidate_id: 1, last_log_index: 5, last_log_term: 1 });
    assert!(!older_term.vote_granted);
    assert_eq!(n.persistent.current_term, 3);
    assert_eq!(n.role, NodeRole::Follower);
    let shorter = n.handle_request_vote(VoteRequest { term: 3, candidate_id: 1, last_log_index: 0, last_log_term: 2 });
    assert!(!shorter.vote_granted);
    let equal = n.handle_request_vote(VoteRequest { term: 3, candidate_id: 1, last_log_index: 1, last_log_term: 2 });
    assert!(equal.vote_granted);
}

#[test]
fn vote_response_ignored_unless_candidate() {
    let mut n = RaftNode::new(1, vec![2, 3]);
    let msgs = n.handle_vote_response(2, VoteResponse { term: 0, vote_granted: true });
    assert!(msgs.is_empty());
    assert!(n.votes_received.is_empty());
    assert_eq!(n.role, NodeRole::Follower);
}

#[test]
fn vote_response_with_newer_term_steps_down() {
    let mut n = RaftNode::new(1, vec![2, 3]);
    n.on_election_timeout();
    let msgs = n.handle_vote_response(2, VoteResponse { term: 4, vote_granted: false });
    assert!(msgs.is_empty());
    assert_eq!(n.role, NodeRole::Follower);
    assert_eq!(n.persistent.current_term, 4);
    assert_eq!(n.persistent.voted_for, None);
    assert!(n.votes_received.is_empty());
}

#[test]
fn five_nodes_need_three_votes() {
    let mut n = RaftNode::new(1, vec![2, 3, 4, 5]);
    n.on_election_timeout();
    let m1 = n.handle_vote_response(2, VoteResponse { term: 1, vote_granted: true });
    assert!(m1.is_empty());
    assert_eq!(n.role, NodeRole::Candidate);
    let m2 = n.handle_vote_response(3, VoteResponse { term: 1, vote_granted: false });
    assert!(m2.is_empty());
    assert_eq!(n.role, NodeRole::Candidate);
    let m3 = n.handle_vote_response(4, VoteResponse { term: 1, vote_granted: true });
    assert_eq!(n.role, NodeRole::Leader);
    assert_eq!(m3.len(), 4);
    for m in &m3 {
        match m {
            Message::AppendEntries { args, .. } => {
                assert!(args.entries.is_empty());
                assert_eq!(args.term, 1);
                assert_eq!(args.prev_log_index, 0);
            }
            _ => panic!("expected a heartbeat"),
        }
    }
    assert_eq!(n.volatile.next_index.get(&5), Some(&1));
    assert_eq!(n.volatile.match_index.get(&5), Some(&0));
}

#[test]
fn heartbeats_follow_next_index() {
    let mut n = make_leader(1, vec![2, 3]);
    n.persistent.log.push(entry(1, 1, Command::NoOp));
    n.persistent.log.push(entry(1, 2, Command::NoOp));
    n.volatile.next_index.insert(2, 3);
    n.volatile.commit_index = 1;
    let hb = n.send_heartbeats();
    assert_eq!(hb.len(), 2);
    match &hb[0] {
        Message::AppendEntries { to, args } => {
            assert_eq!(*to, 2);
            assert_eq!(args.prev_log_index, 2);
            assert_eq!(args.prev_log_term, 1);
            assert_eq!(args.leader_commit, 1);
            assert!(args.entries.is_empty());
        }
        _ => panic!(),
    }
    match &hb[1] {
        Message::AppendEntries { to, args } => {
            assert_eq!(*to, 3);
            assert_eq!(args.prev_log_index, 0);
            assert_eq!(args.prev_log_term, 0);
        }
        _ => panic!(),
    }
}

#[test]
fn propose_sends_missing_entries() {
    let mut n = make_leader(1, vec![2, 3]);
    n.propose(put("a", "1"));
    n.volatile.next_index.insert(3, 2);
    let msgs = n.propose(put("b", "2"));
    assert_eq!(n.last_log_index(), 2);
    assert_eq!(n.get_entry(2).unwrap().index, 2);
    assert_eq!(n.get_entry(2).unwrap().term, 1);
    match &msgs[0] {
        Message::AppendEntries { to, args } => {
            assert_eq!(*to, 2);
            assert_eq!(args.entries.len(), 2);
            assert_eq!(args.prev_log_index, 0);
        }
        _ => panic!(),
    }
    match &msgs[1] {
        Message::AppendEntries { to, args } => {
            assert_eq!(*to, 3);
            assert_eq!(args.entries.len(), 1);
            assert_eq!(args.entries[0].index, 2);
            assert_eq!(args.prev_log_index, 1);
            assert_eq!(args.prev_log_term, 1);
        }
        _ => panic!(),
    }
}

#[test]
fn append_refused_from_stale_term() {
    let mut n = RaftNode::new(2, vec![1]);
    n.persistent.current_term = 3;
    n.persistent.voted_for = Some(2);
    let r = n.handle_append_entries(append(2, 0, 0, vec![entry(2, 1, Command::NoOp)], 1));
    assert!(!r.success);
    assert_eq!(r.term, 3);
    assert!(n.persistent.log.is_empty());
    assert_eq!(n.persistent.voted_for, Some(2));
}

#[test]
fn append_refused_on_missing_prev_entry() {
    let mut n = RaftNode::new(2, vec![1]);
    n.role = NodeRole::Candidate;
    let r = n.handle_append_entries(append(1, 3, 1, vec![], 0));
    assert!(!r.success);
    assert_eq!(r.term, 1);
    assert_eq!(n.role, NodeRole::Follower);
}

#[test]
fn append_conflict_cuts_log() {
    let mut n = RaftNode::new(2, vec![1]);
    n.persistent.log.push(entry(1, 1, Command::NoOp));
    n.persistent.log.push(entry(1, 2, Command::NoOp));
    n.persistent.log.push(entry(1, 3, Command::NoOp));
    let r = n.handle_append_entries(append(2, 2, 2, vec![entry(2, 3, Command::NoOp)], 0));
    assert!(!r.success);
    assert_eq!(terms(&n), vec![1]);
}

#[test]
fn append_writes_entries_and_commits() {
    let mut n = RaftNode::new(2, vec![1]);
    n.persistent.log.push(entry(1, 1, put("a", "old")));
    n.persistent.log.push(entry(1, 2, Command::NoOp));
    n.persistent.log.push(entry(1, 3, Command::NoOp));
    let r = n.handle_append_entries(append(2, 1, 1, vec![entry(2, 2, put("a", "new")), entry(2, 3, put("b", "x"))], 5));
    assert!(r.success);
    assert_eq!(r.term, 2);
    assert_eq!(terms(&n), vec![1, 2, 2]);
    assert_eq!(n.volatile.commit_index, 3);
    assert_eq!(n.volatile.last_applied, 3);
    assert_eq!(n.store.last_applied, 3);
    assert_eq!(n.store.get("a"), Some(&"new".to_string()));
    assert_eq!(n.store.get("b"), Some(&"x".to_string()));
}

#[test]
fn matching_entry_keeps_log() {
    let mut n = RaftNode::new(2, vec![1]);
    n.persistent.log.push(entry(1, 1, Command::NoOp));
    n.persistent.log.push(entry(1, 2, Command::NoOp));
    n.persistent.log.push(entry(1, 3, Command::NoOp));
    let r = n.handle_append_entries(append(1, 0, 0, vec![entry(1, 1, Command::NoOp)], 0));
    assert!(r.success);
    assert_eq!(n.last_log_index(), 3);
}

#[test]
fn conflicting_entry_cuts_after_it() {
    let mut n = RaftNode::new(2, vec![1]);
    n.persistent.log.push(entry(1, 1, Command::NoOp));
    n.persistent.log.push(entry(1, 2, Command::NoOp));
    n.persistent.log.push(entry(1, 3, Command::NoOp));
    let r = n.handle_append_entries(append(2, 1, 1, vec![entry(2, 2, Command::NoOp)], 0));
    assert!(r.success);
    assert_eq!(terms(&n), vec![1, 2]);
}

#[test]
fn heartbeat_keeps_log_and_vote() {
    let mut n = RaftNode::new(2, vec![1]);
    n.persistent.current_term = 1;
    n.persistent.voted_for = Some(1);
    n.role = NodeRole::Candidate;
    n.votes_received.insert(2);
    n.persistent.log.push(entry(1, 1, Command::NoOp));
    let r = n.handle_append_entries(append(1, 1, 1, vec![], 0));
    assert!(r.success);
    assert_eq!(n.last_log_index(), 1);
    assert_eq!(n.persistent.voted_for, Some(1));
    assert_eq!(n.role, NodeRole::Follower);
    assert!(n.votes_received.is_empty());
}

#[test]
fn newer_term_append_forgets_vote() {
    let mut n = RaftNode::new(2, vec![1]);
    n.persistent.current_term = 1;
    n.persistent.voted_for = Some(1);
    let r = n.handle_append_entries(append(2, 0, 0, vec![], 0));
    assert!(r.success);
    assert_eq!(n.persistent.current_term, 2);
    assert_eq!(n.persistent.voted_for, None);
}

#[test]
fn apply_stops_at_end_of_log() {
    let mut n = RaftNode::new(1, vec![]);
    n.persistent.log.push(entry(1, 1, put("a", "1")));
    n.persistent.log.push(entry(1, 2, put("b", "2")));
    n.volatile.commit_index = 5;
    n.apply_committed_entries();
    assert_eq!(n.volatile.last_applied, 2);
    assert_eq!(n.store.get("b"), Some(&"2".to_string()));
    n.apply_committed_entries();
    assert_eq!(n.volatile.last_applied, 2);
    assert_eq!(n.store.last_applied, 2);
}

#[test]
fn failed_append_steps_next_index_back() {
    let mut n = make_leader(1, vec![2, 3]);
    n.propose(Command::NoOp);
    n.propose(Command::NoOp);
    n.volatile.next_index.insert(2, 3);
    let msgs = n.handle_append_response(2, false, 0);
    assert_eq!(n.volatile.next_index.get(&2), Some(&2));
    assert_eq!(msgs.len(), 2);
    match &msgs[0] {
        Message::AppendEntries { args, .. } => {
            assert_eq!(args.prev_log_index, 1);
            assert_eq!(args.entries.len(), 1);
        }
        _ => panic!(),
    }
    n.handle_append_response(3, false, 0);
    assert_eq!(n.volatile.next_index.get(&3), Some(&1));
}

#[test]
fn commit_needs_a_majority_of_five() {
    let mut n = make_leader(1, vec![2, 3, 4, 5]);
    n.propose(put("k", "v"));
    n.handle_append_response(2, true, 1);
    assert_eq!(n.volatile.commit_index, 0);
    assert_eq!(n.volatile.next_index.get(&2), Some(&2));
    n.handle_append_response(3, true, 1);
    assert_eq!(n.volatile.commit_index, 1);
    assert_eq!(n.volatile.last_applied, 1);
    assert_eq!(n.store.get("k"), Some(&"v".to_string()));
}

#[test]
fn commit_only_for_current_term() {
    let mut n = make_leader(1, vec![2, 3]);
    n.persistent.log.push(entry(0, 1, Command::NoOp));
    n.handle_append_response(2, true, 1);
    assert_eq!(n.volatile.commit_index, 0);
    n.propose(Command::NoOp);
    n.handle_append_response(2, true, 2);
    assert_eq!(n.volatile.commit_index, 2);
}

#[test]
fn append_response_ignored_unless_leader() {
    let mut n = RaftNode::new(1, vec![2]);
    let msgs = n.handle_append_response(2, true, 4);
    assert!(msgs.is_empty());
    assert!(n.volatile.match_index.is_empty());
}

#[test]
fn replicated_match_index_counts_entries() {
    let a = append(1, 4, 1, vec![entry(1, 5, Command::NoOp), entry(1, 6, Command::NoOp)], 0);
    assert_eq!(a.replicated_match_index(), 6);
    let h = append(1, 7, 1, vec![], 0);
    assert_eq!(h.replicated_match_index(), 7);
}

#[test]
fn election_timeout_in_bounds() {
    for _ in 0..200 {
        let ms = new_election_timeout_ms();
        assert!(ELECTION_TIMEOUT_MIN_MS <= ms && ms < ELECTION_TIMEOUT_MAX_MS);
    }
    assert_eq!(ELECTION_TIMEOUT_MIN_MS, 300);
    assert_eq!(ELECTION_TIMEOUT_MAX_MS, 600);
}

#[test]
fn step_handles_queries_and_timers() {
    let mut n = RaftNode::new(1, vec![2, 3]);
    let out = n.step(RaftInput::GetRole);
    assert!(matches!(out.reply, Some(RaftReply::Role(NodeRole::Follower))));
    let out = n.step(RaftInput::HeartbeatTick);
    assert!(out.messages.is_empty());
    let out = n.step(RaftInput::ElectionTimeout);
    assert_eq!(out.messages.len(), 2);
    assert_eq!(n.role, NodeRole::Candidate);
    let ms = out.election_timeout_ms.unwrap();
    assert!((300..600).contains(&ms));
    let out = n.step(RaftInput::HandleVoteResponse { from: 2, resp: VoteResponse { term: 1, vote_granted: true } });
    assert_eq!(n.role, NodeRole::Leader);
    assert_eq!(out.messages.len(), 2);
    let out = n.step(RaftInput::ElectionTimeout);
    assert!(out.messages.is_empty());
    assert!(out.election_timeout_ms.is_none());
    assert_eq!(n.persistent.current_term, 1);
    let out = n.step(RaftInput::HeartbeatTick);
    assert_eq!(out.messages.len(), 2);
    let out = n.step(RaftInput::Propose { command: put("x", "1") });
    assert!(matches!(out.reply, Some(RaftReply::Index(1))));
    assert_eq!(out.commit_index, 0);
    let out = n.step(RaftInput::HandleAppendResponse { from: 2, success: true, match_index: 1 });
    assert!(out.messages.is_empty());
    assert_eq!(out.commit_index, 1);
    let out = n.step(RaftInput::GetValue { key: "x".to_string() });
    match out.reply {
        Some(RaftReply::Value(Some(v))) => assert_eq!(v, "1"),
        _ => panic!("expected the value"),
    }
    let out = n.step(RaftInput::GetValue { key: "y".to_string() });
    assert!(matches!(out.reply, Some(RaftReply::Value(None))));
}

#[test]
fn step_handles_peer_calls() {
    let mut n = RaftNode::new(2, vec![1, 3]);
    let out = n.step(RaftInput::HandleVoteRequest {
        args: VoteRequest { term: 1, candidate_id: 1, last_log_index: 0, last_log_term: 0 },
    });
    assert!(out.persist);
    assert!(matches!(out.reply, Some(RaftReply::Vote(r)) if r.vote_granted));
    let out = n.step(RaftInput::HandleVoteRequest {
        args: VoteRequest { term: 0, candidate_id: 3, last_log_index: 0, last_log_term: 0 },
    });
    assert!(!out.persist);
    let out = n.step(RaftInput::HandleAppendRequest { args: append(1, 0, 0, vec![entry(1, 1, Command::NoOp)], 1) });
    assert!(matches!(out.reply, Some(RaftReply::Append(r)) if r.success));
    let ms = out.election_timeout_ms.unwrap();
    assert!((300..600).contains(&ms));
    assert_eq!(n.volatile.commit_index, 1);
    assert_eq!(out.commit_index, 1);
}

#[test]
fn same_term_entry_replaces_without_cut() {
    let mut n = RaftNode::new(2, vec![1]);
    n.persistent.current_term = 1;
    n.persistent.log.push(entry(1, 1, Command::NoOp));
    n.persistent.log.push(entry(1, 2, put("a", "1")));
    let r = n.handle_append_entries(append(1, 0, 0, vec![entry(1, 1, Command::Delete { key: "x".to_string() })], 0));
    assert!(r.success);
    assert_eq!(n.last_log_index(), 2);
    assert!(matches!(&n.persistent.log[0].command, Command::Delete { key } if key == "x"));
    assert!(matches!(&n.persistent.log[1].command, Command::Put { key, .. } if key == "a"));
}

#[test]
fn log_stays_densely_indexed() {
    let mut n = RaftNode::new(2, vec![1]);
    n.handle_append_entries(append(1, 0, 0, vec![entry(1, 1, Command::NoOp), entry(1, 2, Command::NoOp), entry(1, 3, Command::NoOp)], 0));
    n.handle_append_entries(append(2, 1, 1, vec![entry(2, 2, Command::NoOp)], 0));
    n.handle_append_entries(append(2, 2, 2, vec![entry(2, 3, Command::NoOp), entry(2, 4, Command::NoOp)], 0));
    for (i, e) in n.persistent.log.iter().enumerate() {
        assert_eq!(e.index, i as u64 + 1);
    }
    assert_eq!(terms(&n), vec![1, 2, 2, 2]);
}

#[test]
fn step_asks_to_save_after_state_changes() {
    let mut n = RaftNode::new(1, vec![2, 3]);
    let out = n.step(RaftInput::HeartbeatTick);
    assert!(!out.persist);
    let out = n.step(RaftInput::ElectionTimeout);
    assert!(out.persist);
    let out = n.step(RaftInput::HandleVoteResponse { from: 2, resp: VoteResponse { term: 1, vote_granted: true } });
    assert!(!out.persist);
    assert_eq!(n.role, NodeRole::Leader);
    let out = n.step(RaftInput::Propose { command: Command::NoOp });
    assert!(out.persist);
    let out = n.step(RaftInput::HandleAppendResponse { from: 2, success: true, match_index: 1 });
    assert!(!out.persist);
    let out = n.step(RaftInput::HandleAppendRequest { args: append(0, 0, 0, vec![], 0) });
    assert!(!out.persist);
    let out = n.step(RaftInput::HandleAppendRequest { args: append(1, 1, 1, vec![], 0) });
    assert!(out.persist);
    let mut c = RaftNode::new(1, vec![2, 3]);
    c.step(RaftInput::ElectionTimeout);
    let out = c.step(RaftInput::HandleVoteResponse { from: 2, resp: VoteResponse { term: 5, vote_granted: false } });
    assert!(out.persist);
    assert_eq!(c.persistent.current_term, 5);
}
