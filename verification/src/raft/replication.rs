use vstd::prelude::*;
use crate::raft::log::{Command, LogEntry};
use crate::raft::model::{apply_entries, apply_entry, apply_range, min_u64, RaftState};
use crate::raft::state::{messages_view, AppendRequest, AppendResponse, Message, MessageView, NodeId, NodeRole};
use crate::raft::RaftNode;

verus! {

broadcast use vstd::std_specs::hash::group_hash_axioms;

impl RaftNode {
    /// The next log index to send to `peer`; 1 where none is known.
    pub(crate) fn next_index_of(&self, peer: NodeId) -> (n: u64)
        ensures
            n == self@.next_index_for(peer),
    {
        match self.volatile.next_index.get(&peer) {
            Some(n) => *n,
            None => 1,
        }
    }

    /// Copies of the log entries that `peer` is missing: those whose index is at least
    /// the peer's next index, in log order.
    fn entries_for(&self, peer: NodeId) -> (r: Vec<LogEntry>)
        ensures
            r@ == self@.entries_for(peer),
    {
        let next = self.next_index_of(peer);
        let ghost pred = |e: LogEntry| e.index >= self@.next_index_for(peer);
        let mut out: Vec<LogEntry> = Vec::new();
        let mut i: usize = 0;
        while i < self.persistent.log.len()
            invariant
                i <= self.persistent.log.len(),
                next == self@.next_index_for(peer),
                pred == (|e: LogEntry| e.index >= self@.next_index_for(peer)),
                out@ == self.persistent.log@.take(i as int).filter(pred),
            decreases self.persistent.log.len() - i,
        {
            let e = &self.persistent.log[i];
            proof {
                let s = self.persistent.log@;
                assert(s.take(i + 1) =~= s.take(i as int).push(s[i as int]));
                s.take(i as int).lemma_filter_push(s[i as int], pred);
            }
            if e.index >= next {
                out.push(e.clone());
            }
            i = i + 1;
        }
        assert(self.persistent.log@.take(self.persistent.log@.len() as int) =~= self.persistent.log@);
        out
    }

    /// One AppendEntries call per peer carrying the entries that peer is missing.
    fn replicate_to_peers(&self) -> (r: Vec<Message>)
        ensures
            messages_view(r@) == self@.replications(),
    {
        let mut out: Vec<Message> = Vec::new();
        let mut i: usize = 0;
        while i < self.peers.len()
            invariant
                i <= self.peers.len(),
                out@.len() == i,
                forall|j: int| 0 <= j < i ==> (#[trigger] out@[j])@ == self@.append_request_to(
                    self.peers@[j],
                    self@.entries_for(self.peers@[j]),
                ),
            decreases self.peers.len() - i,
        {
            let peer = self.peers[i];
            let entries = self.entries_for(peer);
            let m = self.append_request_for(peer, entries);
            out.push(m);
            i = i + 1;
        }
        assert(messages_view(out@) =~= self@.replications());
        out
    }

    /// A leader appends `command` to its log as a new entry of its current term, then
    /// sends every peer the entries it is missing.
    pub fn propose(&mut self, command: Command) -> (r: Vec<Message>)
        requires
            old(self).role == NodeRole::Leader,
            old(self)@.within_limits(),
        ensures
            final(self)@ == old(self)@.propose(command),
            messages_view(r@) == final(self)@.replications(),
    {
        let entry = LogEntry {
            term: self.persistent.current_term,
            index: self.last_log_index() + 1,
            command,
        };
        self.persistent.log.push(entry);
        self.replicate_to_peers()
    }

    /// Whether every entry that `args` would write into the log has an index of at least 1
    /// (the condition `handle_append_entries` needs).
    pub fn entries_well_indexed(&self, args: &AppendRequest) -> (b: bool)
        ensures
            b == self@.append_entries_indexed(args@),
    {
        if args.term < self.persistent.current_term {
            return true;
        }
        let consistent = if args.prev_log_index == 0 {
            true
        } else {
            match self.get_entry(args.prev_log_index) {
                Some(e) => e.term == args.prev_log_term,
                None => false,
            }
        };
        if !consistent {
            return true;
        }
        let mut i: usize = 0;
        while i < args.entries.len()
            invariant
                i <= args.entries.len(),
                args.term >= self.persistent.current_term,
                self@.append_consistent(args@),
                forall|j: int| 0 <= j < i ==> #[trigger] args.entries@[j].index >= 1,
            decreases args.entries.len() - i,
        {
            if args.entries[i].index == 0 {
                assert(args@.entries[i as int].index == 0);
                return false;
            }
            i = i + 1;
        }
        true
    }

    /// Handles an AppendEntries call. A call from an older term is refused. Otherwise this
    /// node follows the caller (adopting a newer term and forgetting its vote, or keeping
    /// its vote in the current term); if its log has no entry at the index before the new
    /// entries, or one of another term, the call is refused (cutting the log before that
    /// conflicting entry); else the entries are written in order (an entry that conflicts
    /// with the log replaces it and cuts what follows, one of the same term replaces it and
    /// keeps what follows), the commit index rises to the leader's commit index bounded by
    /// the last entry the call checked or carried and by the end of the log (it never falls), and newly
    /// committed entries are applied.
    pub fn handle_append_entries(&mut self, args: AppendRequest) -> (r: AppendResponse)
        requires
            old(self)@.append_entries_indexed(args@),
        ensures
            (final(self)@, r) == old(self)@.handle_append_entries(args@),
    {
        if args.term < self.persistent.current_term {
            return AppendResponse { term: self.persistent.current_term, success: false };
        }
        if args.term > self.persistent.current_term {
            self.become_follower(args.term);
        } else {
            self.role = NodeRole::Follower;
            self.votes_received.clear();
        }
        if args.prev_log_index > 0 {
            match self.get_entry(args.prev_log_index) {
                None => {
                    return AppendResponse { term: self.persistent.current_term, success: false };
                },
                Some(e) => {
                    if e.term != args.prev_log_term {
                        self.persistent.log.truncate((args.prev_log_index - 1) as usize);
                        return AppendResponse { term: self.persistent.current_term, success: false };
                    }
                },
            }
        }
        let ghost s1 = self@;
        let mut i: usize = 0;
        while i < args.entries.len()
            invariant
                i <= args.entries.len(),
                s1 == old(self)@.follow(args.term),
                s1.append_consistent(args@),
                forall|j: int| 0 <= j < args.entries@.len() ==> #[trigger] args.entries@[j].index >= 1,
                self@ == (RaftState { log: apply_entries(s1.log, args.entries@.take(i as int)), ..s1 }),
            decreases args.entries.len() - i,
        {
            let entry = args.entries[i].clone();
            proof {
                let es = args.entries@;
                assert(es.take(i + 1).drop_last() =~= es.take(i as int));
                assert(es.take(i + 1).last() == es[i as int]);
            }
            if entry.index <= self.persistent.log.len() as u64 {
                let idx = entry.index as usize;
                let conflict = self.persistent.log[idx - 1].term != entry.term;
                self.persistent.log.set(idx - 1, entry);
                if conflict {
                    self.persistent.log.truncate(idx);
                }
            } else {
                self.persistent.log.push(entry);
            }
            i = i + 1;
        }
        assert(args.entries@.take(args.entries@.len() as int) =~= args.entries@);
        let n = args.entries.len() as u64;
        let checked: u64 = if n > u64::MAX - args.prev_log_index { u64::MAX } else { args.prev_log_index + n };
        let last = self.last_log_index();
        let bound: u64 = if checked < last { checked } else { last };
        let vouched: u64 = if args.leader_commit < bound { args.leader_commit } else { bound };
        if vouched > self.volatile.commit_index {
            self.volatile.commit_index = vouched;
        }
        self.apply_committed_entries();
        AppendResponse { term: self.persistent.current_term, success: true }
    }

    /// Handles the outcome of an AppendEntries call sent to `from`, as a leader (anything
    /// else ignores it). On success the peer's match index becomes `match_idx` and its
    /// next index the one after, the commit index advances to what a quorum holds, and
    /// newly committed entries are applied. On failure the peer's next index steps back
    /// by one (not below 1) and every peer is sent the entries it is missing.
    pub fn handle_append_response(&mut self, from: NodeId, success: bool, match_idx: u64) -> (r: Vec<Message>)
        requires
            old(self)@.within_limits(),
            old(self).role == NodeRole::Leader && success ==> {
                &&& match_idx < u64::MAX
                &&& old(self)@.match_index.dom().insert(from).len() >= old(self)@.quorum_rest()
            },
        ensures
            (final(self)@, messages_view(r@)) == old(self)@.handle_append_response(from, success, match_idx),
    {
        if self.role != NodeRole::Leader {
            let out: Vec<Message> = Vec::new();
            assert(messages_view(out@) =~= Seq::<MessageView>::empty());
            return out;
        }
        if success {
            self.volatile.match_index.insert(from, match_idx);
            self.volatile.next_index.insert(from, match_idx + 1);
            self.try_advance_commit_index();
            self.apply_committed_entries();
            let out: Vec<Message> = Vec::new();
            assert(messages_view(out@) =~= Seq::<MessageView>::empty());
            out
        } else {
            let next = self.next_index_of(from);
            let stepped: u64 = if next == 0 { 0 } else { next - 1 };
            let lowered: u64 = if stepped >= 1 { stepped } else { 1 };
            self.volatile.next_index.insert(from, lowered);
            self.replicate_to_peers()
        }
    }

    /// Applies to the store, in log order, every committed entry that is not applied yet
    /// and that the log holds.
    pub fn apply_committed_entries(&mut self)
        ensures
            final(self)@ == old(self)@.apply_committed(),
    {
        let ghost pre = self@;
        let ghost target = pre.apply_target();
        loop
            invariant
                pre == old(self)@,
                target == pre.apply_target(),
                pre.last_applied <= self.volatile.last_applied <= target,
                self@ == (RaftState {
                    last_applied: self.volatile.last_applied,
                    kv: apply_range(pre.kv, pre.log, pre.last_applied as int, self.volatile.last_applied as int),
                    kv_last_applied: if self.volatile.last_applied > pre.last_applied {
                        self.volatile.last_applied
                    } else {
                        pre.kv_last_applied
                    },
                    ..pre
                }),
            ensures
                self.volatile.last_applied == target,
                self@ == (RaftState {
                    last_applied: self.volatile.last_applied,
                    kv: apply_range(pre.kv, pre.log, pre.last_applied as int, self.volatile.last_applied as int),
                    kv_last_applied: if self.volatile.last_applied > pre.last_applied {
                        self.volatile.last_applied
                    } else {
                        pre.kv_last_applied
                    },
                    ..pre
                }),
            decreases self.volatile.commit_index - self.volatile.last_applied,
        {
            if self.volatile.last_applied >= self.volatile.commit_index {
                break;
            }
            let next = self.volatile.last_applied + 1;
            match self.get_entry(next) {
                Some(entry) => {
                    assert(next <= pre.log.len());
                    assert(pre.log.len() == self.persistent.log.len());
                    assert(pre.last_log_index() == pre.log.len());
                    assert(next <= min_u64(pre.commit_index, pre.last_log_index()));
                    let cmd = entry.command.clone();
                    self.store.apply(next, &cmd);
                    self.volatile.last_applied = next;
                },
                None => {
                    break;
                },
            }
        }
    }
}

} // verus!
