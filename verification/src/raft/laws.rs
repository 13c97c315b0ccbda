use vstd::prelude::*;
use crate::raft::log::{Command, LogEntry};
use crate::raft::model::{apply_entries, apply_entry, apply_range, RaftState};
use crate::raft::state::{AppendRequestView, MessageView, NodeId, NodeRole, VoteRequest, VoteResponse};
use crate::raft::quorum::lemma_quorum_index_exists;
use crate::storage::apply_command;

verus! {

/// The entries of an AppendEntries call are numbered consecutively from the index after
/// `prev_log_index`.
pub open spec fn entries_consecutive(args: AppendRequestView) -> bool {
    forall|i: int| 0 <= i < args.entries.len() ==> #[trigger] args.entries[i].index == args.prev_log_index + 1 + i
}

/// No operation lowers a node's term.
pub proof fn lemma_terms_never_decrease(
    s: RaftState,
    vote: VoteRequest,
    append: AppendRequestView,
    from: NodeId,
    resp: VoteResponse,
    success: bool,
    match_idx: u64,
    command: Command,
)
    requires
        s.current_term < u64::MAX,
    ensures
        s.handle_request_vote(vote).0.current_term >= s.current_term,
        s.handle_append_entries(append).0.current_term >= s.current_term,
        s.handle_vote_response(from, resp).0.current_term >= s.current_term,
        s.handle_append_response(from, success, match_idx).0.current_term >= s.current_term,
        s.start_election().current_term == s.current_term + 1,
        s.propose(command).current_term == s.current_term,
        s.apply_committed().current_term == s.current_term,
{
}

/// A node grants at most one vote per term: once it has granted its vote to a candidate,
/// a request from any other candidate for the same term is refused.
pub proof fn lemma_one_vote_per_term(s: RaftState, first: VoteRequest, second: VoteRequest)
    requires
        s.handle_request_vote(first).1.vote_granted,
        second.term == first.term,
        second.candidate_id != first.candidate_id,
    ensures
        !s.handle_request_vote(first).0.handle_request_vote(second).1.vote_granted,
        s.handle_request_vote(first).0.handle_request_vote(second).0.voted_for == Some(first.candidate_id),
{
}

/// An input that changes a node, taken as a mathematical value.
pub enum NodeOp {
    RequestVote { args: VoteRequest },
    AppendEntries { args: AppendRequestView },
    VoteResponse { from: NodeId, resp: VoteResponse },
    AppendResponse { from: NodeId, success: bool, match_idx: u64 },
    Propose { command: Command },
    ElectionTimeout,
}

/// The node after `op`, as the node's operations change it (a proposal is taken only by a
/// leader, an election starts only when the node does not lead and its term can grow).
pub open spec fn apply_op(s: RaftState, op: NodeOp) -> RaftState {
    match op {
        NodeOp::RequestVote { args } => s.handle_request_vote(args).0,
        NodeOp::AppendEntries { args } => s.handle_append_entries(args).0,
        NodeOp::VoteResponse { from, resp } => s.handle_vote_response(from, resp).0,
        NodeOp::AppendResponse { from, success, match_idx } => s.handle_append_response(from, success, match_idx).0,
        NodeOp::Propose { command } => if s.role == NodeRole::Leader { s.propose(command) } else { s },
        NodeOp::ElectionTimeout => if s.role != NodeRole::Leader && s.current_term < u64::MAX {
            s.start_election()
        } else {
            s
        },
    }
}

/// The node after the inputs `ops`, in order.
pub open spec fn run_ops(s: RaftState, ops: Seq<NodeOp>) -> RaftState
    decreases ops.len(),
{
    if ops.len() == 0 {
        s
    } else {
        apply_op(run_ops(s, ops.drop_last()), ops.last())
    }
}

/// No input lowers the term, and an input that leaves the term as it is keeps the vote
/// cast in it.
pub proof fn lemma_op_keeps_term_vote(s: RaftState, op: NodeOp)
    ensures
        apply_op(s, op).current_term >= s.current_term,
        apply_op(s, op).current_term == s.current_term && s.voted_for is Some ==> apply_op(s, op).voted_for
            == s.voted_for,
{
}

/// Over any sequence of inputs, the term never goes down, and while it stays the same the
/// vote cast in it stays too.
pub proof fn lemma_ops_keep_term_vote(s: RaftState, ops: Seq<NodeOp>)
    ensures
        run_ops(s, ops).current_term >= s.current_term,
        run_ops(s, ops).current_term == s.current_term && s.voted_for is Some ==> run_ops(s, ops).voted_for
            == s.voted_for,
    decreases ops.len(),
{
    if ops.len() > 0 {
        lemma_ops_keep_term_vote(s, ops.drop_last());
        lemma_op_keeps_term_vote(run_ops(s, ops.drop_last()), ops.last());
    }
}

/// One vote per term, whatever happens in between: once a node has granted its vote for a
/// term to a candidate, after any sequence of inputs that leaves it in that term it grants
/// no vote in that term to another candidate.
pub proof fn lemma_one_vote_per_term_any_inputs(
    s: RaftState,
    first: VoteRequest,
    ops: Seq<NodeOp>,
    second: VoteRequest,
)
    requires
        s.handle_request_vote(first).1.vote_granted,
        run_ops(s.handle_request_vote(first).0, ops).current_term == first.term,
        second.term == first.term,
        second.candidate_id != first.candidate_id,
    ensures
        !run_ops(s.handle_request_vote(first).0, ops).handle_request_vote(second).1.vote_granted,
{
    let s1 = s.handle_request_vote(first).0;
    lemma_ops_keep_term_vote(s1, ops);
}

/// A granted vote goes to a candidate whose term is this node's term afterwards and whose
/// log is at least as up to date as this node's; the node remembers the vote.
pub proof fn lemma_vote_granted_only_to_up_to_date(s: RaftState, args: VoteRequest)
    requires
        s.handle_request_vote(args).1.vote_granted,
    ensures
        args.term >= s.current_term,
        s.handle_request_vote(args).1.term == args.term,
        s.handle_request_vote(args).0.current_term == args.term,
        s.handle_request_vote(args).0.voted_for == Some(args.candidate_id),
        s.log_up_to_date(args),
{
}

/// A call from an older term is refused and leaves the node unchanged, and the answer
/// carries the node's newer term.
pub proof fn lemma_stale_calls_refused(s: RaftState, vote: VoteRequest, append: AppendRequestView)
    ensures
        vote.term < s.current_term ==> {
            &&& s.handle_request_vote(vote).0 == s
            &&& !s.handle_request_vote(vote).1.vote_granted
            &&& s.handle_request_vote(vote).1.term == s.current_term
        },
        append.term < s.current_term ==> {
            &&& s.handle_append_entries(append).0 == s
            &&& !s.handle_append_entries(append).1.success
            &&& s.handle_append_entries(append).1.term == s.current_term
        },
{
}

/// Each entry of the log sits at the position its index names (indices count from 1).
pub open spec fn log_dense(log: Seq<LogEntry>) -> bool {
    forall|i: int| 0 <= i < log.len() ==> #[trigger] log[i].index == i + 1
}

/// Each of `es`, taken as the entries at indices `p + 1`, `p + 2`, ..., has the same term
/// as the entry the log holds at its index, wherever that index lies before `b + 1`.
pub open spec fn entries_agree_before(log: Seq<LogEntry>, p: u64, es: Seq<LogEntry>, b: int) -> bool {
    forall|j: int| 0 <= j < es.len() && p + j < b ==> #[trigger] log[p + j].term == es[j].term
}

/// Each of `es`, taken as the entries at indices `p + 1`, `p + 2`, ..., equals the entry
/// the log holds at its index, wherever that index lies before `b + 1`.
pub open spec fn entries_match_before(log: Seq<LogEntry>, p: u64, es: Seq<LogEntry>, b: int) -> bool {
    forall|j: int| 0 <= j < es.len() && p + j < b ==> #[trigger] log[p + j] == es[j]
}

/// Writing consecutive entries after index `p`, where the log reaches `p`: the first `p`
/// entries stay, each new entry stands at its index, and whatever follows the new entries
/// is what the log held there; the log ends at the old end or at the last new entry.
/// Where no new entry before position `b` has another term than the log's, the log keeps
/// at least `b` entries, and where none before `b` differs at all, its first `b` entries
/// stay. With no entries the log stays as it is.
pub proof fn lemma_apply_consecutive_entries(log: Seq<LogEntry>, p: u64, es: Seq<LogEntry>, b: int)
    requires
        p <= log.len(),
        0 <= b <= log.len(),
        forall|i: int| 0 <= i < es.len() ==> #[trigger] es[i].index == p + 1 + i,
    ensures
        ({
            let r = apply_entries(log, es);
            &&& r.len() >= p + es.len()
            &&& r.len() <= log.len() || r.len() <= p + es.len()
            &&& forall|i: int| 0 <= i < p ==> #[trigger] r[i] == log[i]
            &&& forall|j: int| 0 <= j < es.len() ==> #[trigger] r[p + j] == es[j]
            &&& forall|i: int| p + es.len() <= i < r.len() ==> i < log.len() && #[trigger] r[i] == log[i]
            &&& entries_agree_before(log, p, es, b) ==> r.len() >= b
            &&& entries_match_before(log, p, es, b) ==> forall|i: int| 0 <= i < b ==> #[trigger] r[i] == log[i]
            &&& es.len() == 0 ==> r == log
        }),
    decreases es.len(),
{
    if es.len() > 0 {
        let init = es.drop_last();
        let e = es.last();
        let n = es.len() as int;
        let q = p + n - 1;
        assert forall|i: int| 0 <= i < init.len() implies #[trigger] init[i].index == p + 1 + i by {
            assert(init[i] == es[i]);
        }
        lemma_apply_consecutive_entries(log, p, init, b);
        let r0 = apply_entries(log, init);
        let r = apply_entries(log, es);
        assert(r == apply_entry(r0, e));
        assert(e.index == p + n);
        assert forall|j: int| 0 <= j < init.len() implies #[trigger] r0[p + j] == es[j] by {
            assert(init[j] == es[j]);
        }
        if entries_agree_before(log, p, es, b) {
            assert(entries_agree_before(log, p, init, b)) by {
                assert forall|j: int| 0 <= j < init.len() && p + j < b implies #[trigger] log[p + j].term == init[j].term by {
                    assert(init[j] == es[j]);
                    assert(log[p + j].term == es[j].term);
                }
            }
            if e.index <= r0.len() && q < b {
                assert(r0[q] == log[q]);
                assert(log[p + (n - 1)].term == es[n - 1].term);
            }
        }
        if entries_match_before(log, p, es, b) {
            assert(entries_match_before(log, p, init, b)) by {
                assert forall|j: int| 0 <= j < init.len() && p + j < b implies #[trigger] log[p + j] == init[j] by {
                    assert(init[j] == es[j]);
                    assert(log[p + j] == es[j]);
                }
            }
            if q < b {
                assert(log[p + (n - 1)] == es[n - 1]);
            }
        }
        assert forall|j: int| 0 <= j < es.len() implies #[trigger] r[p + j] == es[j] by {
            if j < n - 1 {
                assert(r0[p + j] == es[j]);
            }
        }
    }
}

/// An AppendEntries call succeeds exactly when it is not from an older term and the log
/// holds the entry before the new ones with the term the leader gave. With entries
/// numbered consecutively, a successful call keeps the log up to `prev_log_index`, holds
/// each new entry at its index, keeps what the log held after them, leaves the log as it
/// is when it carries no entries, and keeps the whole log when every new entry equals the
/// one the log holds at its index (a late or repeated call deletes nothing). The commit
/// index never rises past what the call checked or carried.
pub proof fn lemma_successful_append(s: RaftState, args: AppendRequestView)
    ensures
        s.handle_append_entries(args).1.success <==> (args.term >= s.current_term
            && s.append_consistent(args)),
        args.term >= s.current_term ==> s.handle_append_entries(args).1.term == args.term,
        s.handle_append_entries(args).0.commit_index == s.commit_index
            || s.handle_append_entries(args).0.commit_index <= args.prev_log_index + args.entries.len(),
        s.handle_append_entries(args).0.commit_index == s.commit_index
            || s.handle_append_entries(args).0.commit_index <= args.leader_commit,
        (args.term >= s.current_term && s.append_consistent(args) && entries_consecutive(args)) ==> {
            let r = s.handle_append_entries(args).0.log;
            &&& r.len() >= args.prev_log_index + args.entries.len()
            &&& forall|i: int| 0 <= i < args.prev_log_index ==> #[trigger] r[i] == s.log[i]
            &&& forall|j: int| 0 <= j < args.entries.len() ==> #[trigger] r[args.prev_log_index + j]
                == args.entries[j]
            &&& forall|i: int| args.prev_log_index + args.entries.len() <= i < r.len() ==> i < s.log.len()
                && #[trigger] r[i] == s.log[i]
            &&& args.entries.len() == 0 ==> r == s.log
            &&& entries_match_before(s.log, args.prev_log_index, args.entries, s.log.len() as int)
                ==> forall|i: int| 0 <= i < s.log.len() ==> #[trigger] r[i] == s.log[i]
        },
{
    if args.term >= s.current_term && s.append_consistent(args) && entries_consecutive(args) {
        let s1 = s.follow(args.term);
        assert(args.prev_log_index <= s1.log.len());
        lemma_apply_consecutive_entries(s1.log, args.prev_log_index, args.entries, s1.log.len() as int);
    }
}

/// The log stays densely indexed: when each entry of the log sits at the position its
/// index names and the entries of an AppendEntries call are numbered consecutively, the
/// same holds after the call, and after a proposal.
pub proof fn lemma_log_stays_dense(s: RaftState, args: AppendRequestView, command: Command)
    requires
        log_dense(s.log),
    ensures
        entries_consecutive(args) ==> log_dense(s.handle_append_entries(args).0.log),
        s.within_limits() ==> log_dense(s.propose(command).log),
{
    let t = s.handle_append_entries(args).0;
    if entries_consecutive(args) && args.term >= s.current_term {
        let s1 = s.follow(args.term);
        if s1.append_consistent(args) {
            assert(args.prev_log_index <= s1.log.len());
            lemma_apply_consecutive_entries(s1.log, args.prev_log_index, args.entries, 0);
            let r = t.log;
            assert forall|i: int| 0 <= i < r.len() implies #[trigger] r[i].index == i + 1 by {
                if i < args.prev_log_index {
                } else if i < args.prev_log_index + args.entries.len() {
                    let j = i - args.prev_log_index;
                    assert(r[args.prev_log_index + j] == args.entries[j]);
                } else {
                    assert(r[i] == s.log[i]);
                }
            }
        } else if s1.entry(args.prev_log_index) is Some {
            assert forall|i: int| 0 <= i < t.log.len() implies #[trigger] t.log[i].index == i + 1 by {
                assert(t.log[i] == s.log[i]);
            }
        }
    }
    if s.within_limits() {
        assert forall|i: int| 0 <= i < s.propose(command).log.len() implies #[trigger] s.propose(command).log[i].index
            == i + 1 by {
            if i < s.log.len() {
                assert(s.propose(command).log[i] == s.log[i]);
            }
        }
    }
}

/// No committed entry is lost: an AppendEntries call with consecutively numbered entries
/// that passes the check and whose entries equal the log's up to the commit index (as a
/// late or repeated call from the current leader does) keeps every committed entry, never
/// lowers the commit index or the applied index, and keeps applied within committed within
/// the log.
pub proof fn lemma_append_keeps_committed(s: RaftState, args: AppendRequestView)
    requires
        args.term >= s.current_term,
        s.append_consistent(args),
        entries_consecutive(args),
        args.prev_log_index + args.entries.len() < u64::MAX,
        s.within_limits(),
        s.last_applied <= s.commit_index <= s.last_log_index(),
        entries_match_before(s.log, args.prev_log_index, args.entries, s.commit_index as int),
    ensures
        ({
            let t = s.handle_append_entries(args).0;
            &&& t.commit_index >= s.commit_index
            &&& t.last_applied >= s.last_applied
            &&& t.last_applied <= t.commit_index <= t.last_log_index()
            &&& forall|i: int| 0 <= i < s.commit_index ==> #[trigger] t.log[i] == s.log[i]
        }),
{
    let s1 = s.follow(args.term);
    assert(args.prev_log_index <= s1.log.len());
    assert(entries_agree_before(s.log, args.prev_log_index, args.entries, s.commit_index as int)) by {
        assert forall|j: int| 0 <= j < args.entries.len() && args.prev_log_index + j < s.commit_index implies
            #[trigger] s.log[args.prev_log_index + j].term == args.entries[j].term by {
            assert(s.log[args.prev_log_index + j] == args.entries[j]);
        }
    }
    lemma_apply_consecutive_entries(s1.log, args.prev_log_index, args.entries, s.commit_index as int);
}

/// Applying committed entries changes only the applied index and the store; afterwards
/// every entry up to the commit index that the log holds is applied, nothing past the
/// commit index is applied that was not before, and applying again changes nothing.
pub proof fn lemma_apply_committed(s: RaftState)
    ensures
        s.apply_committed().log == s.log,
        s.apply_committed().commit_index == s.commit_index,
        s.apply_committed().current_term == s.current_term,
        s.apply_committed().last_applied >= s.last_applied,
        s.last_applied <= s.commit_index ==> s.apply_committed().last_applied <= s.commit_index,
        s.last_applied <= s.commit_index && s.commit_index <= s.last_log_index()
            ==> s.apply_committed().last_applied == s.commit_index,
        s.apply_committed().apply_committed() == s.apply_committed(),
{
    let t = s.apply_target();
    let s1 = s.apply_committed();
    assert(s1.apply_target() == t);
    assert(apply_range(s1.kv, s1.log, t as int, t as int) == s1.kv);
    assert(s1.apply_committed() == s1);
}

/// The commit index never goes down, neither when a leader hears back from a peer nor on
/// an AppendEntries call.
pub proof fn lemma_commit_index_monotone(
    s: RaftState,
    args: AppendRequestView,
    from: NodeId,
    success: bool,
    match_idx: u64,
)
    ensures
        s.handle_append_response(from, success, match_idx).0.commit_index >= s.commit_index,
        s.handle_append_entries(args).0.commit_index >= s.commit_index,
{
}

/// A leader moves its commit index only to an index that a quorum holds and whose entry
/// belongs to the leader's current term (stated where the leader knows the match index
/// of at least as many peers as a quorum needs besides itself, as it must to advance).
pub proof fn lemma_commit_needs_quorum_and_current_term(s: RaftState)
    requires
        s.match_index.dom().finite(),
        s.match_index.dom().len() >= s.quorum_rest(),
    ensures
        s.advance_commit().commit_index != s.commit_index ==> {
            &&& s.advance_commit().commit_index > s.commit_index
            &&& s.entry(s.advance_commit().commit_index) matches Some(e)
            &&& e.term == s.current_term
            &&& s.replicas_at_least(s.advance_commit().commit_index) >= s.quorum_rest() + 1
        },
{
    lemma_quorum_index_exists(s);
    let n = s.quorum_index();
    assert(s.is_quorum_index(n));
}

/// A node becomes leader only as a candidate that has the votes of a majority of the
/// cluster, itself included; then it sends one heartbeat per peer.
pub proof fn lemma_leader_needs_majority(s: RaftState, from: NodeId, resp: VoteResponse)
    ensures
        s.role != NodeRole::Leader && s.handle_vote_response(from, resp).0.role == NodeRole::Leader ==> {
            &&& s.role == NodeRole::Candidate
            &&& s.handle_vote_response(from, resp).0.votes.len() >= s.votes_needed()
            &&& s.handle_vote_response(from, resp).0.current_term == s.current_term
            &&& s.handle_vote_response(from, resp).1.len() == s.peers.len()
        },
{
}

/// Heartbeats go one to each peer, in the order of the peers, and carry no entries.
pub proof fn lemma_heartbeats_are_empty(s: RaftState)
    ensures
        s.heartbeats().len() == s.peers.len(),
        forall|i: int| 0 <= i < s.peers.len() ==> (#[trigger] s.heartbeats()[i] matches MessageView::AppendEntries { to, args }
            && to == s.peers[i] && args.entries.len() == 0 && args.term == s.current_term),
{
}

/// A proposal appends exactly one entry, of the current term and numbered after the
/// last one, and keeps every earlier entry.
pub proof fn lemma_propose_appends_one(s: RaftState, command: Command)
    requires
        s.within_limits(),
    ensures
        s.propose(command).log.len() == s.log.len() + 1,
        s.propose(command).log.take(s.log.len() as int) == s.log,
        s.propose(command).entry((s.last_log_index() + 1) as u64) == Some(
            LogEntry { term: s.current_term, index: (s.last_log_index() + 1) as u64, command: command },
        ),
        s.propose(command).last_log_term() == s.current_term,
{
    assert(s.propose(command).log.take(s.log.len() as int) =~= s.log);
}

/// A read after a write gives back what was written: after a `Put` the key holds the
/// value, after a `Delete` the key is absent, and other keys keep their values.
pub proof fn lemma_read_after_write(m: Map<Seq<char>, String>, key: String, value: String, other: Seq<char>)
    requires
        other != key@,
    ensures
        apply_command(m, Command::Put { key: key, value: value }).contains_key(key@),
        apply_command(m, Command::Put { key: key, value: value })[key@] == value,
        !apply_command(m, Command::Delete { key: key }).contains_key(key@),
        apply_command(m, Command::NoOp) == m,
        apply_command(m, Command::Put { key: key, value: value }).contains_key(other) == m.contains_key(other),
        apply_command(m, Command::Delete { key: key }).contains_key(other) == m.contains_key(other),
        m.contains_key(other) ==> apply_command(m, Command::Put { key: key, value: value })[other] == m[other],
        m.contains_key(other) ==> apply_command(m, Command::Delete { key: key })[other] == m[other],
{
}

/// The store after applying `cmds` in order to `m`.
pub open spec fn apply_commands(m: Map<Seq<char>, String>, cmds: Seq<Command>) -> Map<Seq<char>, String>
    decreases cmds.len(),
{
    if cmds.len() == 0 {
        m
    } else {
        apply_command(apply_commands(m, cmds.drop_last()), cmds.last())
    }
}

/// What `key` holds after `cmds` are applied to `m`: the value of the last `Put` of the key
/// if no `Delete` of it comes later, nothing if a `Delete` is the last command on it, and
/// what `m` held if no command names it.
pub open spec fn last_write(m: Map<Seq<char>, String>, cmds: Seq<Command>, key: Seq<char>) -> Option<String>
    decreases cmds.len(),
{
    if cmds.len() == 0 {
        if m.contains_key(key) { Some(m[key]) } else { None }
    } else {
        match cmds.last() {
            Command::Put { key: k, value } => if k@ == key { Some(value) } else { last_write(m, cmds.drop_last(), key) },
            Command::Delete { key: k } => if k@ == key { None } else { last_write(m, cmds.drop_last(), key) },
            Command::NoOp => last_write(m, cmds.drop_last(), key),
        }
    }
}

/// A read after any sequence of writes gives back the last value written to the key,
/// unless a later delete removed it; from an empty store, a key never written holds
/// nothing.
pub proof fn lemma_store_after_commands(m: Map<Seq<char>, String>, cmds: Seq<Command>, key: Seq<char>)
    ensures
        apply_commands(m, cmds).contains_key(key) <==> last_write(m, cmds, key) is Some,
        last_write(m, cmds, key) matches Some(v) ==> apply_commands(m, cmds)[key] == v,
    decreases cmds.len(),
{
    if cmds.len() > 0 {
        lemma_store_after_commands(m, cmds.drop_last(), key);
    }
}

/// Applying the entries at indices `from + 1` through `to` applies their commands in log
/// order.
pub proof fn lemma_apply_range_is_commands(kv: Map<Seq<char>, String>, log: Seq<LogEntry>, from: int, to: int)
    requires
        0 <= from <= to <= log.len(),
    ensures
        apply_range(kv, log, from, to) == apply_commands(
            kv,
            log.subrange(from, to).map_values(|e: LogEntry| e.command),
        ),
    decreases to - from,
{
    let cmds = log.subrange(from, to).map_values(|e: LogEntry| e.command);
    if to > from {
        lemma_apply_range_is_commands(kv, log, from, to - 1);
        assert(cmds.drop_last() =~= log.subrange(from, to - 1).map_values(|e: LogEntry| e.command));
        assert(cmds.last() == log[to - 1].command);
    } else {
        assert(cmds =~= Seq::<Command>::empty());
    }
}

/// Once a committed `Put` is the last entry applied, the store holds its value under its
/// key.
pub proof fn lemma_applied_put_is_readable(s: RaftState, key: String, value: String)
    requires
        s.apply_target() > s.last_applied,
        s.log[s.apply_target() - 1].command == (Command::Put { key: key, value: value }),
    ensures
        s.apply_committed().kv.contains_key(key@),
        s.apply_committed().kv[key@] == value,
{
}

/// A leader's log only grows by its own proposals: answers from peers, heartbeats and
/// applying entries leave it as it is.
pub proof fn lemma_leader_log_append_only(
    s: RaftState,
    from: NodeId,
    success: bool,
    match_idx: u64,
    resp: VoteResponse,
    command: Command,
)
    requires
        s.role == NodeRole::Leader,
    ensures
        s.handle_append_response(from, success, match_idx).0.log == s.log,
        s.handle_vote_response(from, resp).0.log == s.log,
        s.apply_committed().log == s.log,
        s.propose(command).log == s.log.push(s.proposed_entry(command)),
{
}

/// Applied entries stay within the commit index while a leader hears back from its peers:
/// if nothing past the commit index was applied before, nothing is afterwards.
pub proof fn lemma_applied_within_commit(s: RaftState, from: NodeId, success: bool, match_idx: u64)
    requires
        s.last_applied <= s.commit_index,
    ensures
        s.apply_committed().last_applied <= s.apply_committed().commit_index,
        s.handle_append_response(from, success, match_idx).0.last_applied
            <= s.handle_append_response(from, success, match_idx).0.commit_index,
{
}

/// Two majorities of a cluster have a member in common.
pub proof fn lemma_majorities_intersect(cluster: Set<NodeId>, a: Set<NodeId>, b: Set<NodeId>)
    requires
        cluster.finite(),
        a.subset_of(cluster),
        b.subset_of(cluster),
        a.len() >= cluster.len() / 2 + 1,
        b.len() >= cluster.len() / 2 + 1,
    ensures
        exists|x: NodeId| a.contains(x) && b.contains(x),
{
    vstd::set_lib::lemma_len_subset(a, cluster);
    vstd::set_lib::lemma_len_subset(b, cluster);
    if !(exists|x: NodeId| a.contains(x) && b.contains(x)) {
        assert(a.disjoint(b));
        vstd::set_lib::lemma_set_disjoint_lens(a, b);
        assert((a + b).subset_of(cluster));
        vstd::set_lib::lemma_len_subset(a + b, cluster);
        assert(false);
    }
}

/// One leader per term: two candidates that each hold the votes of a majority of the
/// cluster for a term, where every voter gave its vote for that term to one candidate
/// (`vote_of`), are the same candidate.
pub proof fn lemma_one_leader_per_term(
    cluster: Set<NodeId>,
    votes_a: Set<NodeId>,
    votes_b: Set<NodeId>,
    vote_of: Map<NodeId, NodeId>,
    a: NodeId,
    b: NodeId,
)
    requires
        cluster.finite(),
        votes_a.subset_of(cluster),
        votes_b.subset_of(cluster),
        votes_a.len() >= cluster.len() / 2 + 1,
        votes_b.len() >= cluster.len() / 2 + 1,
        forall|v: NodeId| #[trigger] votes_a.contains(v) ==> vote_of.contains_key(v) && vote_of[v] == a,
        forall|v: NodeId| #[trigger] votes_b.contains(v) ==> vote_of.contains_key(v) && vote_of[v] == b,
    ensures
        a == b,
{
    lemma_majorities_intersect(cluster, votes_a, votes_b);
    let x = choose|x: NodeId| votes_a.contains(x) && votes_b.contains(x);
    assert(vote_of[x] == a && vote_of[x] == b);
}

/// One leader per term over the nodes' states: in a snapshot of the cluster, two nodes
/// that lead in term `t` with the votes of a majority each, where every node that voted
/// for them is still in term `t` with its vote recorded, are the same node.
pub proof fn lemma_one_leader_per_term_in_cluster(
    cluster: Set<NodeId>,
    nodes: Map<NodeId, RaftState>,
    a: NodeId,
    b: NodeId,
    t: u64,
)
    requires
        cluster.finite(),
        nodes.contains_key(a),
        nodes.contains_key(b),
        nodes[a].role == NodeRole::Leader && nodes[a].current_term == t,
        nodes[b].role == NodeRole::Leader && nodes[b].current_term == t,
        nodes[a].votes.subset_of(cluster),
        nodes[b].votes.subset_of(cluster),
        nodes[a].votes.len() >= cluster.len() / 2 + 1,
        nodes[b].votes.len() >= cluster.len() / 2 + 1,
        forall|v: NodeId| #[trigger] nodes[a].votes.contains(v) ==> nodes.contains_key(v)
            && nodes[v].current_term == t && nodes[v].voted_for == Some(a),
        forall|v: NodeId| #[trigger] nodes[b].votes.contains(v) ==> nodes.contains_key(v)
            && nodes[v].current_term == t && nodes[v].voted_for == Some(b),
    ensures
        a == b,
{
    lemma_majorities_intersect(cluster, nodes[a].votes, nodes[b].votes);
    let x = choose|x: NodeId| nodes[a].votes.contains(x) && nodes[b].votes.contains(x);
    assert(nodes[x].voted_for == Some(a) && nodes[x].voted_for == Some(b));
}

/// The votes a node needs to lead are a majority of its cluster: the node and its peers,
/// each counted once.
pub proof fn lemma_votes_needed_is_majority(s: RaftState)
    requires
        s.peers.no_duplicates(),
        !s.peers.contains(s.id),
    ensures
        s.peers.to_set().insert(s.id).finite(),
        s.votes_needed() == s.peers.to_set().insert(s.id).len() / 2 + 1,
{
    broadcast use vstd::seq_lib::seq_to_set_is_finite;
    s.peers.unique_seq_to_set();
    assert(!s.peers.to_set().contains(s.id));
}

} // verus!
