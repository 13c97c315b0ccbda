use vstd::prelude::*;
use crate::raft::log::LogEntry;
use crate::raft::model::RaftState;
use crate::raft::state::{messages_view, AppendRequest, Message, MessageView, NodeId, NodeRole, VoteRequest, VoteResponse};
use crate::raft::RaftNode;

verus! {

broadcast use vstd::std_specs::hash::group_hash_axioms;

impl RaftNode {
    /// Adopts `term`, forgets any vote and follows: called on seeing a newer term.
    pub fn become_follower(&mut self, term: u64)
        ensures
            final(self)@ == old(self)@.become_follower(term),
    {
        self.persistent.current_term = term;
        self.persistent.voted_for = None;
        self.role = NodeRole::Follower;
        self.votes_received.clear();
    }

    /// One RequestVote message per peer, asking for a vote in the current term.
    fn vote_requests(&self) -> (r: Vec<Message>)
        ensures
            messages_view(r@) == self@.vote_requests(),
    {
        let args = VoteRequest {
            term: self.persistent.current_term,
            candidate_id: self.id,
            last_log_index: self.last_log_index(),
            last_log_term: self.last_log_term(),
        };
        let mut out: Vec<Message> = Vec::new();
        let mut i: usize = 0;
        while i < self.peers.len()
            invariant
                i <= self.peers.len(),
                args == self@.vote_request(),
                out@.len() == i,
                forall|j: int| 0 <= j < i ==> (#[trigger] out@[j])@ == (MessageView::RequestVote { to: self.peers@[j], args: args }),
            decreases self.peers.len() - i,
        {
            out.push(Message::RequestVote { to: self.peers[i], args: args });
            i = i + 1;
        }
        assert(messages_view(out@) =~= self@.vote_requests());
        out
    }

    /// The election timer fired: become a candidate in a new term, vote for oneself, and
    /// ask every peer for its vote.
    pub fn on_election_timeout(&mut self) -> (r: Vec<Message>)
        requires
            old(self).persistent.current_term < u64::MAX,
        ensures
            final(self)@ == old(self)@.start_election(),
            messages_view(r@) == final(self)@.vote_requests(),
    {
        self.role = NodeRole::Candidate;
        self.persistent.current_term = self.persistent.current_term + 1;
        self.persistent.voted_for = Some(self.id);
        self.votes_received.clear();
        self.votes_received.insert(self.id);
        self.vote_requests()
    }

    /// Starts an election: does what an election timeout does.
    pub fn start_election(&mut self) -> (r: Vec<Message>)
        requires
            old(self).persistent.current_term < u64::MAX,
        ensures
            final(self)@ == old(self)@.start_election(),
            messages_view(r@) == final(self)@.vote_requests(),
    {
        self.role = NodeRole::Candidate;
        self.persistent.current_term = self.persistent.current_term + 1;
        self.persistent.voted_for = Some(self.id);
        self.votes_received.clear();
        self.votes_received.insert(self.id);
        self.vote_requests()
    }

    /// Handles a RequestVote call. A vote is granted only to a candidate whose term is
    /// not older than ours, when we have not voted for another candidate in that term,
    /// and when the candidate's log is at least as up to date as ours. A newer term makes
    /// this node a follower first.
    pub fn handle_request_vote(&mut self, args: VoteRequest) -> (r: VoteResponse)
        ensures
            (final(self)@, r) == old(self)@.handle_request_vote(args),
    {
        if args.term < self.persistent.current_term {
            return VoteResponse { term: self.persistent.current_term, vote_granted: false };
        }
        if args.term > self.persistent.current_term {
            self.become_follower(args.term);
        }
        let can_vote = match self.persistent.voted_for {
            None => true,
            Some(v) => v == args.candidate_id,
        };
        let my_last_term = self.last_log_term();
        let my_last_index = self.last_log_index();
        let log_ok = args.last_log_term > my_last_term || (args.last_log_term == my_last_term
            && args.last_log_index >= my_last_index);
        if can_vote && log_ok {
            self.persistent.voted_for = Some(args.candidate_id);
            VoteResponse { term: self.persistent.current_term, vote_granted: true }
        } else {
            VoteResponse { term: self.persistent.current_term, vote_granted: false }
        }
    }

    /// Handles the answer of `from` to our RequestVote call. It is ignored unless this
    /// node is a candidate; a newer term makes it a follower; a granted vote is counted,
    /// and with votes from a majority of the cluster the node becomes leader and sends
    /// heartbeats.
    pub fn handle_vote_response(&mut self, from: NodeId, resp: VoteResponse) -> (r: Vec<Message>)
        requires
            old(self)@.within_limits(),
        ensures
            (final(self)@, messages_view(r@)) == old(self)@.handle_vote_response(from, resp),
    {
        if self.role != NodeRole::Candidate {
            let out: Vec<Message> = Vec::new();
            assert(messages_view(out@) =~= Seq::<MessageView>::empty());
            return out;
        }
        if resp.term > self.persistent.current_term {
            self.become_follower(resp.term);
            let out: Vec<Message> = Vec::new();
            assert(messages_view(out@) =~= Seq::<MessageView>::empty());
            return out;
        }
        if resp.vote_granted {
            self.votes_received.insert(from);
        }
        let majority: usize = (self.peers.len() + 1) / 2 + 1;
        if self.votes_received.len() >= majority {
            return self.become_leader();
        }
        let out: Vec<Message> = Vec::new();
        assert(messages_view(out@) =~= Seq::<MessageView>::empty());
        out
    }

    /// Takes leadership: sets every peer's next index past the end of the log and its
    /// match index to 0, then sends heartbeats.
    fn become_leader(&mut self) -> (r: Vec<Message>)
        requires
            old(self)@.within_limits(),
        ensures
            final(self)@ == old(self)@.become_leader(),
            messages_view(r@) == final(self)@.heartbeats(),
    {
        self.role = NodeRole::Leader;
        let last_index = self.last_log_index();
        let ghost pre = self@;
        let ghost next0 = self.volatile.next_index@;
        let ghost match0 = self.volatile.match_index@;
        let mut i: usize = 0;
        while i < self.peers.len()
            invariant
                i <= self.peers.len(),
                last_index == pre.last_log_index(),
                last_index < u64::MAX,
                pre == (RaftState { role: NodeRole::Leader, ..old(self)@ }),
                next0 == pre.next_index,
                match0 == pre.match_index,
                self@ == (RaftState {
                    next_index: self.volatile.next_index@,
                    match_index: self.volatile.match_index@,
                    ..pre
                }),
                self.volatile.next_index@ == next0.union_prefer_right(
                    Map::new(|k: NodeId| self.peers@.take(i as int).contains(k), |k: NodeId| (last_index + 1) as u64),
                ),
                self.volatile.match_index@ == match0.union_prefer_right(
                    Map::new(|k: NodeId| self.peers@.take(i as int).contains(k), |k: NodeId| 0u64),
                ),
            decreases self.peers.len() - i,
        {
            let peer = self.peers[i];
            self.volatile.next_index.insert(peer, last_index + 1);
            self.volatile.match_index.insert(peer, 0);
            proof {
                let t0 = self.peers@.take(i as int);
                let t1 = self.peers@.take(i + 1);
                assert(t1 =~= t0.push(peer));
                assert forall|k: NodeId| t1.contains(k) <==> (t0.contains(k) || k == peer) by {
                    if t1.contains(k) {
                        let j = choose|j: int| 0 <= j < t1.len() && t1[j] == k;
                        if j < i {
                            assert(t0[j] == k);
                        }
                    }
                    if t0.contains(k) {
                        let j = choose|j: int| 0 <= j < t0.len() && t0[j] == k;
                        assert(t1[j] == k);
                    }
                    if k == peer {
                        assert(t1[i as int] == k);
                    }
                }
            }
            i = i + 1;
            assert(self.volatile.next_index@ =~= next0.union_prefer_right(
                Map::new(|k: NodeId| self.peers@.take(i as int).contains(k), |k: NodeId| (last_index + 1) as u64),
            ));
            assert(self.volatile.match_index@ =~= match0.union_prefer_right(
                Map::new(|k: NodeId| self.peers@.take(i as int).contains(k), |k: NodeId| 0u64),
            ));
        }
        assert(self.peers@.take(self.peers@.len() as int) =~= self.peers@);
        assert(self.volatile.next_index@ =~= old(self)@.become_leader().next_index);
        assert(self.volatile.match_index@ =~= old(self)@.become_leader().match_index);
        assert(self@ == old(self)@.become_leader());
        self.send_heartbeats()
    }

    /// The AppendEntries message to `peer` carrying `entries`, built from the peer's next
    /// index.
    pub(crate) fn append_request_for(&self, peer: NodeId, entries: Vec<LogEntry>) -> (m: Message)
        ensures
            m@ == self@.append_request_to(peer, entries@),
    {
        let next: u64 = match self.volatile.next_index.get(&peer) {
            Some(n) => *n,
            None => 1,
        };
        let prev_idx: u64 = if next == 0 { 0 } else { next - 1 };
        let prev_term: u64 = match self.get_entry(prev_idx) {
            Some(e) => e.term,
            None => 0,
        };
        Message::AppendEntries {
            to: peer,
            args: AppendRequest {
                term: self.persistent.current_term,
                leader_id: self.id,
                prev_log_index: prev_idx,
                prev_log_term: prev_term,
                entries: entries,
                leader_commit: self.volatile.commit_index,
            },
        }
    }

    /// One heartbeat per peer: an AppendEntries call with no entries that keeps the
    /// leadership and carries the leader's commit index.
    pub fn send_heartbeats(&self) -> (r: Vec<Message>)
        ensures
            messages_view(r@) == self@.heartbeats(),
    {
        let mut out: Vec<Message> = Vec::new();
        let mut i: usize = 0;
        while i < self.peers.len()
            invariant
                i <= self.peers.len(),
                out@.len() == i,
                forall|j: int| 0 <= j < i ==> (#[trigger] out@[j])@ == self@.append_request_to(self.peers@[j], Seq::empty()),
            decreases self.peers.len() - i,
        {
            let empty: Vec<LogEntry> = Vec::new();
            let m = self.append_request_for(self.peers[i], empty);
            out.push(m);
            i = i + 1;
        }
        assert(messages_view(out@) =~= self@.heartbeats());
        out
    }
}

} // verus!
