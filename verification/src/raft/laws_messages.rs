use vstd::prelude::*;
use crate::raft::log::LogEntry;
use crate::raft::model::RaftState;
use crate::raft::state::{AppendRequestView, MessageView, NodeId, NodeRole, VoteRequest, VoteResponse};
use crate::api::{put_transition, PutEvent, PutStage};
use crate::dashboard::{row_style_of, NodeStatus, RowStyle};

verus! {

/// The term of the last entry of `log`, 0 when it is empty.
pub open spec fn last_term_of(log: Seq<LogEntry>) -> u64 {
    if log.len() == 0 { 0 } else { log[log.len() - 1].term }
}

/// A refused AppendEntries call only ever shortens the log from its prev index on: the
/// log afterwards is a prefix of the log before that still holds every entry before
/// `prev_log_index`. When the log has no entry at `prev_log_index` the call is refused and
/// the log is left exactly as it was; so a call whose prev index lies past the commit
/// index deletes no committed entry.
pub proof fn lemma_refused_append_keeps_prefix(s: RaftState, args: AppendRequestView)
    ensures
        ({
            let (t, r) = s.handle_append_entries(args);
            &&& args.prev_log_index > s.log.len() ==> !r.success && t.log == s.log
            &&& (args.term >= s.current_term && 1 <= args.prev_log_index <= s.log.len()
                && s.log[args.prev_log_index - 1].term != args.prev_log_term) ==> !r.success
                && t.log == s.log.take(args.prev_log_index - 1)
            &&& !r.success ==> {
                &&& t.log.len() <= s.log.len()
                &&& forall|i: int| 0 <= i < t.log.len() ==> #[trigger] t.log[i] == s.log[i]
                &&& args.prev_log_index >= 1 ==> t.log.len() >= args.prev_log_index - 1
                    || t.log.len() == s.log.len()
                &&& args.prev_log_index > s.commit_index ==> t.log.len() >= s.commit_index
                    || t.log.len() == s.log.len()
            }
        }),
{
}

/// A vote is granted exactly when the request's term is not older than the node's, the
/// node has not given its vote in that term to another candidate (a newer term frees the
/// vote), and the candidate's log is at least as up to date as the node's: its last term
/// is higher, or equal with a last index at least the length of the node's log. A granted
/// vote is recorded for the candidate in the request's term.
pub proof fn lemma_vote_granted_exactly_when(s: RaftState, args: VoteRequest)
    requires
        s.log.len() <= u64::MAX,
    ensures
        ({
            let (t, r) = s.handle_request_vote(args);
            let free = args.term > s.current_term || s.voted_for is None || s.voted_for
                == Some(args.candidate_id);
            let my_term = last_term_of(s.log);
            let up_to_date = args.last_log_term > my_term || (args.last_log_term == my_term
                && args.last_log_index >= s.log.len());
            &&& r.vote_granted <==> (args.term >= s.current_term && free && up_to_date)
            &&& r.vote_granted ==> t.voted_for == Some(args.candidate_id) && t.current_term == args.term
            &&& r.term == if args.term > s.current_term { args.term } else { s.current_term }
        }),
{
}

/// In a log whose entries sit at the positions their indices name, the entries whose
/// index is at least `next` are the entries from position `max(next, 1) - 1` to the end.
proof fn lemma_dense_filter_is_suffix(log: Seq<LogEntry>, next: u64)
    requires
        forall|i: int| 0 <= i < log.len() ==> #[trigger] log[i].index == i + 1,
    ensures
        ({
            let k: int = if next == 0 { 0 } else { next - 1 };
            let from: int = if k <= log.len() { k } else { log.len() as int };
            log.filter(|e: LogEntry| e.index >= next) == log.subrange(from, log.len() as int)
        }),
    decreases log.len(),
{
    let k: int = if next == 0 { 0 } else { next - 1 };
    let p = |e: LogEntry| e.index >= next;
    if log.len() == 0 {
        assert(log.filter(p) =~= Seq::<LogEntry>::empty());
        assert(log.subrange(0, 0) =~= Seq::<LogEntry>::empty());
    } else {
        let init = log.drop_last();
        let x = log.last();
        assert forall|i: int| 0 <= i < init.len() implies #[trigger] init[i].index == i + 1 by {
            assert(init[i] == log[i]);
        }
        lemma_dense_filter_is_suffix(init, next);
        assert(log =~= init.push(x));
        init.lemma_filter_push(x, p);
        let from0: int = if k <= init.len() { k } else { init.len() as int };
        let from: int = if k <= log.len() { k } else { log.len() as int };
        if p(x) {
            assert(k <= init.len());
            assert(init.subrange(from0, init.len() as int).push(x) =~= log.subrange(from, log.len() as int));
        } else {
            assert(k >= log.len());
            assert(init.subrange(from0, init.len() as int) =~= Seq::<LogEntry>::empty());
            assert(log.subrange(from, log.len() as int) =~= Seq::<LogEntry>::empty());
        }
    }
}

/// The fields every AppendEntries message from `s` to `peer` carries: the leader's term,
/// id and commit index, the index before the peer's next index (0 for a next index of 0),
/// and the term of the leader's log entry at that index (0 where the log has none).
pub open spec fn append_header_ok(s: RaftState, peer: NodeId, m: MessageView) -> bool {
    let next: u64 = if s.next_index.contains_key(peer) { s.next_index[peer] } else { 1 };
    let prev: u64 = if next == 0 { 0 } else { (next - 1) as u64 };
    m matches MessageView::AppendEntries { to, args } && {
        &&& to == peer
        &&& args.term == s.current_term
        &&& args.leader_id == s.id
        &&& args.leader_commit == s.commit_index
        &&& args.prev_log_index == prev
        &&& args.prev_log_term == if 1 <= prev <= s.log.len() { s.log[prev - 1].term } else { 0 }
    }
}

/// Heartbeats: one per peer, in the order of the peers, each carrying no entries, the
/// index before the peer's next index, and as its term exactly the term of the leader's
/// own log entry at that index (0 where the log has none).
pub proof fn lemma_heartbeat_fields(s: RaftState)
    ensures
        s.heartbeats().len() == s.peers.len(),
        forall|i: int| 0 <= i < s.peers.len() ==> {
            &&& append_header_ok(s, s.peers[i], #[trigger] s.heartbeats()[i])
            &&& s.heartbeats()[i] matches MessageView::AppendEntries { args, .. } && args.entries.len() == 0
        },
{
}

/// The entries a leader sends each peer: in a log whose entries sit at the positions
/// their indices name, the message to a peer carries exactly the leader's log entries
/// from the peer's next index to the end of the log, numbered consecutively from its
/// prev index, with the prev term taken from the leader's own log.
pub proof fn lemma_replication_fields(s: RaftState)
    requires
        forall|i: int| 0 <= i < s.log.len() ==> #[trigger] s.log[i].index == i + 1,
    ensures
        s.replications().len() == s.peers.len(),
        forall|i: int| 0 <= i < s.peers.len() ==> {
            let peer = s.peers[i];
            let next: u64 = if s.next_index.contains_key(peer) { s.next_index[peer] } else { 1 };
            let prev: int = if next == 0 { 0 } else { next - 1 };
            &&& append_header_ok(s, peer, #[trigger] s.replications()[i])
            &&& s.replications()[i] matches MessageView::AppendEntries { args, .. } && {
                &&& prev <= s.log.len() ==> args.entries == s.log.subrange(prev, s.log.len() as int)
                &&& prev > s.log.len() ==> args.entries.len() == 0
                &&& forall|j: int| 0 <= j < args.entries.len() ==> #[trigger] args.entries[j].index
                    == args.prev_log_index + 1 + j
            }
        },
{
    assert forall|i: int| 0 <= i < s.peers.len() implies {
        let peer = s.peers[i];
        let next: u64 = if s.next_index.contains_key(peer) { s.next_index[peer] } else { 1 };
        let prev: int = if next == 0 { 0 } else { next - 1 };
        &&& append_header_ok(s, peer, #[trigger] s.replications()[i])
        &&& s.replications()[i] matches MessageView::AppendEntries { args, .. } && {
            &&& prev <= s.log.len() ==> args.entries == s.log.subrange(prev, s.log.len() as int)
            &&& prev > s.log.len() ==> args.entries.len() == 0
            &&& forall|j: int| 0 <= j < args.entries.len() ==> #[trigger] args.entries[j].index
                == args.prev_log_index + 1 + j
        }
    } by {
        let peer = s.peers[i];
        let next = s.next_index_for(peer);
        lemma_dense_filter_is_suffix(s.log, next);
        let prev: int = if next == 0 { 0 } else { next - 1 };
        let es = s.entries_for(peer);
        assert(es == s.log.filter(|e: LogEntry| e.index >= next));
        if prev <= s.log.len() {
            assert forall|j: int| 0 <= j < es.len() implies #[trigger] es[j].index == prev + 1 + j by {
                assert(es[j] == s.log[prev + j]);
            }
        } else {
            assert(es.len() == 0);
        }
    }
}

/// Starting an election sends every peer, in the order of the peers, a RequestVote for
/// the new term (one past the old) naming this node and describing its own log: its
/// length as the last index and the term of its last entry (0 for an empty log).
pub proof fn lemma_vote_request_fields(s: RaftState)
    requires
        s.current_term < u64::MAX,
    ensures
        s.start_election().vote_requests().len() == s.peers.len(),
        forall|i: int| 0 <= i < s.peers.len() ==> #[trigger] s.start_election().vote_requests()[i]
            == (MessageView::RequestVote {
            to: s.peers[i],
            args: VoteRequest {
                term: (s.current_term + 1) as u64,
                candidate_id: s.id,
                last_log_index: s.log.len() as u64,
                last_log_term: last_term_of(s.log),
            },
        }),
{
}

/// The entry at index `i` (counted from 1) is the log's entry at position `i - 1`, and
/// there is none for 0 or past the end.
pub proof fn lemma_entry_positions(s: RaftState, i: u64)
    ensures
        (1 <= i <= s.log.len()) ==> s.entry(i) == Some(s.log[i - 1]),
        !(1 <= i <= s.log.len()) ==> s.entry(i) is None,
        s.log.len() > 0 ==> s.last_log_term() == s.log[s.log.len() - 1].term,
        s.log.len() == 0 ==> s.last_log_term() == 0,
{
}

/// A candidate's answers: a newer term makes it a follower in that term; otherwise it
/// counts a granted vote, and it leads exactly when the votes it holds then (its own
/// included) number more than half of the cluster of its peers and itself; a leader
/// sets every peer's next index past the end of its log and its match index to 0.
pub proof fn lemma_vote_response_fields(s: RaftState, from: NodeId, resp: VoteResponse)
    requires
        s.role == NodeRole::Candidate,
        s.log.len() < u64::MAX,
    ensures
        ({
            let t = s.handle_vote_response(from, resp).0;
            let votes = if resp.vote_granted { s.votes.insert(from) } else { s.votes };
            &&& resp.term > s.current_term ==> t.role == NodeRole::Follower && t.current_term == resp.term
                && t.voted_for is None
            &&& resp.term <= s.current_term ==> {
                &&& t.votes == votes
                &&& t.current_term == s.current_term
                &&& (t.role == NodeRole::Leader <==> votes.len() >= (s.peers.len() + 1) / 2 + 1)
                &&& t.role != NodeRole::Leader ==> t.role == NodeRole::Candidate
                &&& t.role == NodeRole::Leader ==> forall|k: int| 0 <= k < s.peers.len() ==> {
                    &&& t.next_index.contains_key(#[trigger] s.peers[k])
                    &&& t.next_index[s.peers[k]] == s.log.len() + 1
                    &&& t.match_index.contains_key(s.peers[k])
                    &&& t.match_index[s.peers[k]] == 0
                }
            }
        }),
{
    let t = s.handle_vote_response(from, resp).0;
    if resp.term <= s.current_term && t.role == NodeRole::Leader {
        assert forall|k: int| 0 <= k < s.peers.len() implies {
            &&& t.next_index.contains_key(#[trigger] s.peers[k])
            &&& t.next_index[s.peers[k]] == s.log.len() + 1
            &&& t.match_index.contains_key(s.peers[k])
            &&& t.match_index[s.peers[k]] == 0
        } by {
            assert(s.peers.contains(s.peers[k]));
            assert(s.last_log_index() == s.log.len());
        }
    }
}

/// A leader's answers from `from`: a success records `match_idx` as the peer's match
/// index and the index after it as its next index, and the commit index moves only to an
/// index whose entry belongs to the current term and that the leader's log and the match
/// indices of more than half of the cluster reach; a failure lowers the peer's next index
/// by one, but not below 1.
pub proof fn lemma_append_response_fields(s: RaftState, from: NodeId, success: bool, match_idx: u64)
    requires
        s.role == NodeRole::Leader,
        match_idx < u64::MAX,
        s.match_index.insert(from, match_idx).dom().finite(),
        s.match_index.insert(from, match_idx).dom().len() >= (s.peers.len() + 1) / 2,
    ensures
        ({
            let t = s.handle_append_response(from, success, match_idx).0;
            let old_next: u64 = if s.next_index.contains_key(from) { s.next_index[from] } else { 1 };
            &&& success ==> {
                &&& t.match_index == s.match_index.insert(from, match_idx)
                &&& t.next_index == s.next_index.insert(from, (match_idx + 1) as u64)
                &&& t.commit_index != s.commit_index ==> {
                    let n = t.commit_index;
                    &&& n > s.commit_index
                    &&& 1 <= n <= s.log.len()
                    &&& s.log[n - 1].term == s.current_term
                    &&& t.match_index.dom().filter(|k: NodeId| t.match_index[k] >= n).len() + 1
                        >= (s.peers.len() + 1) / 2 + 1
                }
            }
            &&& !success ==> {
                &&& t.next_index == s.next_index.insert(from, if old_next <= 2 { 1 } else { (old_next - 1) as u64 })
                &&& t.match_index == s.match_index
                &&& t.commit_index == s.commit_index
            }
        }),
{
    if success {
        let s1 = RaftState {
            match_index: s.match_index.insert(from, match_idx),
            next_index: s.next_index.insert(from, (match_idx + 1) as u64),
            ..s
        };
        crate::raft::quorum::lemma_quorum_index_exists(s1);
        let n = s1.quorum_index();
        assert(s1.is_quorum_index(n));
    }
}

/// The steps of a `PUT`: a leader takes the write, any other node redirects (307); once
/// the write has its log index the handler waits until the commit index reaches it and
/// then answers 200; losing the node answers 500; a finished request stays finished.
pub proof fn lemma_put_stages(role: NodeRole, index: u64, target: u64, commit: u64, status: u16, ev: PutEvent)
    ensures
        put_transition(PutStage::AwaitingRole, PutEvent::RoleReply { role })
            == if role == NodeRole::Leader { PutStage::AwaitingIndex } else { PutStage::Finished { status: 307 } },
        put_transition(PutStage::AwaitingIndex, PutEvent::IndexReply { index })
            == (PutStage::AwaitingCommit { target: index }),
        put_transition(PutStage::AwaitingCommit { target }, PutEvent::CommitIndex { commit })
            == if commit >= target { PutStage::Finished { status: 200 } } else { PutStage::AwaitingCommit { target } },
        put_transition(PutStage::AwaitingRole, PutEvent::Failed) == (PutStage::Finished { status: 500 }),
        put_transition(PutStage::AwaitingIndex, PutEvent::Failed) == (PutStage::Finished { status: 500 }),
        put_transition(PutStage::AwaitingCommit { target }, PutEvent::Failed) == (PutStage::Finished { status: 500 }),
        put_transition(PutStage::Finished { status }, ev) == (PutStage::Finished { status }),
{
}

/// A leader's row is highlighted whatever else holds; a candidate's is marked; any other
/// node's row shows whether it is alive.
pub proof fn lemma_row_styles(st: NodeStatus)
    ensures
        st.role@ == "Leader"@ ==> row_style_of(st) == RowStyle::Leader,
        st.role@ == "Candidate"@ && st.role@ != "Leader"@ ==> row_style_of(st) == RowStyle::Candidate,
        st.role@ != "Leader"@ && st.role@ != "Candidate"@ ==> row_style_of(st) == if st.alive {
            RowStyle::Normal
        } else {
            RowStyle::Dead
        },
{
}

} // verus!
