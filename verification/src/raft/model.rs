use vstd::prelude::*;
use crate::raft::log::{Command, LogEntry};
use crate::raft::state::{AppendRequestView, AppendResponse, MessageView, NodeId, NodeRole, VoteRequest, VoteResponse};
use crate::storage::apply_command;

verus! {

/// A node as a mathematical value: what each of its operations is stated over.
pub struct RaftState {
    pub id: NodeId,
    pub peers: Seq<NodeId>,
    pub role: NodeRole,
    pub current_term: u64,
    pub voted_for: Option<NodeId>,
    pub log: Seq<LogEntry>,
    pub commit_index: u64,
    pub last_applied: u64,
    pub next_index: Map<NodeId, u64>,
    pub match_index: Map<NodeId, u64>,
    pub votes: Set<NodeId>,
    pub kv: Map<Seq<char>, String>,
    pub kv_last_applied: u64,
}

/// The log after one entry of an AppendEntries call: an entry whose index falls inside
/// the log replaces the entry there; if that entry had another term, the log is also cut
/// after the new entry (a conflict), while an entry of the same term keeps what follows.
/// An entry past the end of the log is appended.
pub open spec fn apply_entry(log: Seq<LogEntry>, e: LogEntry) -> Seq<LogEntry> {
    if e.index <= log.len() {
        if log[e.index - 1].term != e.term {
            log.update(e.index - 1, e).subrange(0, e.index as int)
        } else {
            log.update(e.index - 1, e)
        }
    } else {
        log.push(e)
    }
}

/// The log after all entries of an AppendEntries call, taken in order.
pub open spec fn apply_entries(log: Seq<LogEntry>, es: Seq<LogEntry>) -> Seq<LogEntry>
    decreases es.len(),
{
    if es.len() == 0 {
        log
    } else {
        apply_entry(apply_entries(log, es.drop_last()), es.last())
    }
}

/// The store after applying the commands of the log entries at indices `from + 1`
/// through `to`, in order.
pub open spec fn apply_range(kv: Map<Seq<char>, String>, log: Seq<LogEntry>, from: int, to: int) -> Map<
    Seq<char>,
    String,
>
    decreases to - from,
{
    if to <= from {
        kv
    } else {
        apply_command(apply_range(kv, log, from, to - 1), log[to - 1].command)
    }
}

/// The peers whose match index in `m` is at least `v`.
pub open spec fn holders_at_least(m: Map<NodeId, u64>, v: u64) -> Set<NodeId> {
    m.dom().filter(|k: NodeId| m[k] >= v)
}

/// `a` if it is the larger, else `b`.
pub open spec fn max_u64(a: u64, b: u64) -> u64 {
    if a >= b { a } else { b }
}

/// `a` if it is the smaller, else `b`.
pub open spec fn min_u64(a: u64, b: u64) -> u64 {
    if a <= b { a } else { b }
}

impl RaftState {
    /// The limits of the machine that the operations need: a log index past the last one
    /// and a cluster size must fit their integer types.
    pub open spec fn within_limits(self) -> bool {
        &&& self.log.len() < u64::MAX
        &&& self.peers.len() < usize::MAX
    }

    /// Index of the last log entry; 0 for an empty log.
    pub open spec fn last_log_index(self) -> u64 {
        self.log.len() as u64
    }

    /// Term of the last log entry; 0 for an empty log.
    pub open spec fn last_log_term(self) -> u64 {
        if self.log.len() == 0 {
            0
        } else {
            self.log.last().term
        }
    }

    /// The entry at `index`, counted from 1.
    pub open spec fn entry(self, index: u64) -> Option<LogEntry> {
        if 1 <= index <= self.log.len() {
            Some(self.log[index - 1])
        } else {
            None
        }
    }

    /// The term of the entry at `index`; 0 where there is none.
    pub open spec fn term_at(self, index: u64) -> u64 {
        match self.entry(index) {
            Some(e) => e.term,
            None => 0,
        }
    }

    /// Seeing a newer `term`: adopt it, forget any vote, follow.
    pub open spec fn become_follower(self, term: u64) -> RaftState {
        RaftState {
            current_term: term,
            voted_for: None,
            role: NodeRole::Follower,
            votes: Set::empty(),
            ..self
        }
    }

    /// Hearing from a leader of `term`, not older than ours: follow it and drop any votes
    /// collected. A newer term is adopted with the vote forgotten; in the current term the
    /// vote already cast is kept.
    pub open spec fn follow(self, term: u64) -> RaftState {
        if term > self.current_term {
            self.become_follower(term)
        } else {
            RaftState { role: NodeRole::Follower, votes: Set::empty(), ..self }
        }
    }

    /// The highest index an AppendEntries call with `args` vouches for, once its entries
    /// are written into `log`: the leader's commit index, bounded by the last entry the
    /// call checked or carried and by the end of the log.
    pub open spec fn checked_commit(args: AppendRequestView, log_end: u64) -> u64 {
        let checked: int = args.prev_log_index + args.entries.len();
        let bound: int = if checked < log_end { checked } else { log_end as int };
        if args.leader_commit < bound { args.leader_commit } else { bound as u64 }
    }

    /// Starting an election: a new term, a vote for oneself, the only vote counted so far.
    pub open spec fn start_election(self) -> RaftState {
        RaftState {
            role: NodeRole::Candidate,
            current_term: (self.current_term + 1) as u64,
            voted_for: Some(self.id),
            votes: Set::empty().insert(self.id),
            ..self
        }
    }

    /// The RequestVote call this node sends to each peer.
    pub open spec fn vote_request(self) -> VoteRequest {
        VoteRequest {
            term: self.current_term,
            candidate_id: self.id,
            last_log_index: self.last_log_index(),
            last_log_term: self.last_log_term(),
        }
    }

    /// One RequestVote message per peer, in the order of the peers.
    pub open spec fn vote_requests(self) -> Seq<MessageView> {
        self.peers.map_values(|p: NodeId| MessageView::RequestVote { to: p, args: self.vote_request() })
    }

    /// The candidate's log is at least as up to date as ours.
    pub open spec fn log_up_to_date(self, args: VoteRequest) -> bool {
        ||| args.last_log_term > self.last_log_term()
        ||| (args.last_log_term == self.last_log_term() && args.last_log_index >= self.last_log_index())
    }

    /// Receiving a RequestVote call: the new state and the answer.
    pub open spec fn handle_request_vote(self, args: VoteRequest) -> (RaftState, VoteResponse) {
        if args.term < self.current_term {
            (self, VoteResponse { term: self.current_term, vote_granted: false })
        } else {
            let s1 = if args.term > self.current_term {
                self.become_follower(args.term)
            } else {
                self
            };
            let can_vote = s1.voted_for is None || s1.voted_for == Some(args.candidate_id);
            if can_vote && s1.log_up_to_date(args) {
                (
                    RaftState { voted_for: Some(args.candidate_id), ..s1 },
                    VoteResponse { term: s1.current_term, vote_granted: true },
                )
            } else {
                (s1, VoteResponse { term: s1.current_term, vote_granted: false })
            }
        }
    }

    /// The next log index to send to `peer`; 1 where none is known.
    pub open spec fn next_index_for(self, peer: NodeId) -> u64 {
        if self.next_index.contains_key(peer) {
            self.next_index[peer]
        } else {
            1
        }
    }

    /// The index of the entry just before the ones to send to `peer`.
    pub open spec fn prev_index_for(self, peer: NodeId) -> u64 {
        let n = self.next_index_for(peer);
        if n == 0 { 0 } else { (n - 1) as u64 }
    }

    /// The AppendEntries call to `peer` that carries `entries`.
    pub open spec fn append_request_to(self, peer: NodeId, entries: Seq<LogEntry>) -> MessageView {
        MessageView::AppendEntries {
            to: peer,
            args: AppendRequestView {
                term: self.current_term,
                leader_id: self.id,
                prev_log_index: self.prev_index_for(peer),
                prev_log_term: self.term_at(self.prev_index_for(peer)),
                entries: entries,
                leader_commit: self.commit_index,
            },
        }
    }

    /// One heartbeat (an AppendEntries call with no entries) per peer.
    pub open spec fn heartbeats(self) -> Seq<MessageView> {
        self.peers.map_values(|p: NodeId| self.append_request_to(p, Seq::empty()))
    }

    /// The entries to send to `peer`: those of the log whose index is at least the next
    /// index known for it.
    pub open spec fn entries_for(self, peer: NodeId) -> Seq<LogEntry> {
        self.log.filter(|e: LogEntry| e.index >= self.next_index_for(peer))
    }

    /// One AppendEntries call per peer carrying the entries it is missing.
    pub open spec fn replications(self) -> Seq<MessageView> {
        self.peers.map_values(|p: NodeId| self.append_request_to(p, self.entries_for(p)))
    }

    /// Taking leadership: every peer's next index is set past the end of the log and its
    /// match index to 0.
    pub open spec fn become_leader(self) -> RaftState {
        RaftState {
            role: NodeRole::Leader,
            next_index: self.next_index.union_prefer_right(
                Map::new(|k: NodeId| self.peers.contains(k), |k: NodeId| (self.last_log_index() + 1) as u64),
            ),
            match_index: self.match_index.union_prefer_right(
                Map::new(|k: NodeId| self.peers.contains(k), |k: NodeId| 0u64),
            ),
            ..self
        }
    }

    /// Votes needed to win: more than half of the cluster, this node included.
    pub open spec fn votes_needed(self) -> nat {
        ((self.peers.len() + 1) / 2 + 1) as nat
    }

    /// Receiving the answer of `from` to a RequestVote call: the new state and the
    /// messages to send.
    pub open spec fn handle_vote_response(self, from: NodeId, resp: VoteResponse) -> (RaftState, Seq<MessageView>) {
        if self.role != NodeRole::Candidate {
            (self, Seq::empty())
        } else if resp.term > self.current_term {
            (self.become_follower(resp.term), Seq::empty())
        } else {
            let s1 = if resp.vote_granted {
                RaftState { votes: self.votes.insert(from), ..self }
            } else {
                self
            };
            if s1.votes.len() >= s1.votes_needed() {
                (s1.become_leader(), s1.become_leader().heartbeats())
            } else {
                (s1, Seq::empty())
            }
        }
    }

    /// The entry a leader appends for `command`.
    pub open spec fn proposed_entry(self, command: Command) -> LogEntry {
        LogEntry { term: self.current_term, index: (self.last_log_index() + 1) as u64, command: command }
    }

    /// A leader appending `command` to its log.
    pub open spec fn propose(self, command: Command) -> RaftState {
        RaftState { log: self.log.push(self.proposed_entry(command)), ..self }
    }

    /// The index up to which committed entries get applied: the commit index, or the end
    /// of the log if that comes first, unless entries past it are applied already.
    pub open spec fn apply_target(self) -> u64 {
        let bound = min_u64(self.commit_index, self.last_log_index());
        if self.last_applied < bound { bound } else { self.last_applied }
    }

    /// Applying to the store every committed entry not applied yet that the log holds.
    pub open spec fn apply_committed(self) -> RaftState {
        let t = self.apply_target();
        RaftState {
            last_applied: t,
            kv: apply_range(self.kv, self.log, self.last_applied as int, t as int),
            kv_last_applied: if t > self.last_applied { t } else { self.kv_last_applied },
            ..self
        }
    }

    /// The entries of an AppendEntries call that passes the consistency check are taken.
    pub open spec fn append_consistent(self, args: AppendRequestView) -> bool {
        args.prev_log_index == 0 || (self.entry(args.prev_log_index) matches Some(e)
            && e.term == args.prev_log_term)
    }

    /// Every entry that an AppendEntries call would write into the log has an index of at
    /// least 1 (an entry with index 0 would address the position before the log).
    pub open spec fn append_entries_indexed(self, args: AppendRequestView) -> bool {
        (args.term >= self.current_term && self.append_consistent(args)) ==> forall|i: int|
            0 <= i < args.entries.len() ==> #[trigger] args.entries[i].index >= 1
    }

    /// Receiving an AppendEntries call: the new state and the answer. A call that is not
    /// older follows the caller; if the log does not hold the entry before the new ones
    /// with the caller's term the call fails (an entry of another term there is cut off
    /// with all after it); otherwise the entries are written, the commit index rises to
    /// what the call vouches for (never falls), and committed entries are applied.
    pub open spec fn handle_append_entries(self, args: AppendRequestView) -> (RaftState, AppendResponse) {
        if args.term < self.current_term {
            (self, AppendResponse { term: self.current_term, success: false })
        } else {
            let s1 = self.follow(args.term);
            if !s1.append_consistent(args) {
                if s1.entry(args.prev_log_index) is None {
                    (s1, AppendResponse { term: s1.current_term, success: false })
                } else {
                    (
                        RaftState { log: s1.log.subrange(0, args.prev_log_index - 1), ..s1 },
                        AppendResponse { term: s1.current_term, success: false },
                    )
                }
            } else {
                let s2 = RaftState { log: apply_entries(s1.log, args.entries), ..s1 };
                let c = RaftState::checked_commit(args, s2.last_log_index());
                let s3 = if c > s2.commit_index {
                    RaftState { commit_index: c, ..s2 }
                } else {
                    s2
                };
                (s3.apply_committed(), AppendResponse { term: s3.current_term, success: true })
            }
        }
    }

    /// Number of replicas known to hold the log at least up to `v`: the peers whose
    /// match index is at least `v`, and this node if its log reaches `v`.
    pub open spec fn replicas_at_least(self, v: u64) -> nat {
        holders_at_least(self.match_index, v).len() + if self.last_log_index() >= v {
            1nat
        } else {
            0nat
        }
    }

    /// Replicas beyond this node that must hold an entry for it to be committed.
    pub open spec fn quorum_rest(self) -> nat {
        ((self.peers.len() + 1) / 2) as nat
    }

    /// `v` is a match index of a peer or the leader's own last index, and enough replicas
    /// hold the log up to it.
    pub open spec fn quorum_candidate(self, v: u64) -> bool {
        &&& (v == self.last_log_index() || exists|k: NodeId|
            self.match_index.dom().contains(k) && #[trigger] self.match_index[k] == v)
        &&& self.replicas_at_least(v) >= self.quorum_rest() + 1
    }

    /// `n` is the largest index that a quorum holds (with the replication counts taken
    /// over the match indices and the leader's own log).
    pub open spec fn is_quorum_index(self, n: u64) -> bool {
        &&& self.quorum_candidate(n)
        &&& forall|v: u64| #[trigger] self.quorum_candidate(v) ==> v <= n
    }

    /// The largest index that a quorum holds.
    pub open spec fn quorum_index(self) -> u64 {
        choose|n: u64| self.is_quorum_index(n)
    }

    /// A leader committing up to the quorum index, if it lies past the commit index and
    /// holds an entry of the current term.
    pub open spec fn advance_commit(self) -> RaftState {
        let n = self.quorum_index();
        if n > self.commit_index && (self.entry(n) matches Some(e) && e.term == self.current_term) {
            RaftState { commit_index: n, ..self }
        } else {
            self
        }
    }

    /// Receiving the outcome of an AppendEntries call sent to `from`: the new state and
    /// the messages to send.
    pub open spec fn handle_append_response(self, from: NodeId, success: bool, match_idx: u64) -> (
        RaftState,
        Seq<MessageView>,
    ) {
        if self.role != NodeRole::Leader {
            (self, Seq::empty())
        } else if success {
            let s1 = RaftState {
                match_index: self.match_index.insert(from, match_idx),
                next_index: self.next_index.insert(from, (match_idx + 1) as u64),
                ..self
            };
            (s1.advance_commit().apply_committed(), Seq::empty())
        } else {
            let next = self.next_index_for(from);
            let lowered = max_u64(if next == 0 { 0 } else { (next - 1) as u64 }, 1);
            let s1 = RaftState { next_index: self.next_index.insert(from, lowered), ..self };
            (s1, s1.replications())
        }
    }
}

} // verus!
