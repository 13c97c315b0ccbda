use vstd::prelude::*;
use rand::Rng;
use crate::raft::log::Command;
use crate::raft::state::{messages_view, AppendRequest, AppendResponse, Message, MessageView, NodeId, NodeRole, VoteRequest, VoteResponse};
use crate::raft::RaftNode;

verus! {

/// Shortest election timeout, in milliseconds.
pub const ELECTION_TIMEOUT_MIN_MS: u64 = 300;

/// Bound (exclusive) of the election timeout, in milliseconds.
pub const ELECTION_TIMEOUT_MAX_MS: u64 = 600;

/// A number drawn from `low..high` by `rand::Rng::gen_range` on the thread-local
/// generator of `rand::thread_rng`. The draw is chance: only that it lies in the range is
/// stated (`gen_range` panics on an empty range, which `requires` rules out).
#[verifier::external_body]
fn random_in_range(low: u64, high: u64) -> (r: u64)
    requires
        low < high,
    ensures
        low <= r < high,
{
    rand::thread_rng().gen_range(low..high)
}

/// A fresh election timeout in milliseconds, drawn at random from
/// `ELECTION_TIMEOUT_MIN_MS..ELECTION_TIMEOUT_MAX_MS`.
pub fn new_election_timeout_ms() -> (ms: u64)
    ensures
        ELECTION_TIMEOUT_MIN_MS <= ms < ELECTION_TIMEOUT_MAX_MS,
{
    random_in_range(ELECTION_TIMEOUT_MIN_MS, ELECTION_TIMEOUT_MAX_MS)
}

/// What a node's event loop hands to the node: a request from a client or a peer, the
/// outcome of a call it sent, or a timer.
#[allow(inconsistent_fields)]
pub enum RaftInput {
    Propose { command: Command },
    HandleAppendRequest { args: AppendRequest },
    HandleVoteRequest { args: VoteRequest },
    HandleAppendResponse { from: NodeId, success: bool, match_index: u64 },
    HandleVoteResponse { from: NodeId, resp: VoteResponse },
    GetRole,
    GetValue { key: String },
    ElectionTimeout,
    HeartbeatTick,
}

/// The answer owed to whoever made a request.
pub enum RaftReply {
    /// Log index of a proposed command.
    Index(u64),
    Append(AppendResponse),
    Vote(VoteResponse),
    Role(NodeRole),
    Value(Option<String>),
}

/// What the event loop must do after an input: answer, send messages, reset the
/// election deadline to that many milliseconds from now, save the persistent state, and
/// publish the commit index (to whoever waits for a write to commit).
pub struct RaftOutput {
    pub reply: Option<RaftReply>,
    pub messages: Vec<Message>,
    pub election_timeout_ms: Option<u64>,
    pub persist: bool,
    pub commit_index: u64,
}

/// The deadline is reset, to a time within the election timeout bounds.
pub open spec fn timer_reset(t: Option<u64>) -> bool {
    t matches Some(ms) && ELECTION_TIMEOUT_MIN_MS <= ms < ELECTION_TIMEOUT_MAX_MS
}

impl RaftNode {
    /// Handles one input of the event loop and says what to do next.
    /// - A proposal is appended (this node must lead) and answered with its log index.
    /// - An AppendEntries call is handled and answered, and the election deadline reset.
    /// - A RequestVote call is handled and answered.
    /// - The persistent state (term, vote, log) is to be saved after every input that can
    ///   change it: a proposal, an election start, a call that is not from an older term,
    ///   a vote answer that brings a newer term; no other input changes it.
    /// - The outcomes of calls this node sent are handled.
    /// - Role and value queries are answered from the node and its store.
    /// - An election timeout starts an election (with a new deadline) unless this node
    ///   leads; a heartbeat tick sends heartbeats if it leads.
    pub fn step(&mut self, input: RaftInput) -> (out: RaftOutput)
        requires
            old(self)@.within_limits(),
            match input {
                RaftInput::Propose { .. } => old(self).role == NodeRole::Leader,
                RaftInput::HandleAppendRequest { args } => old(self)@.append_entries_indexed(args@),
                RaftInput::HandleAppendResponse { from, success, match_index } =>
                    old(self).role == NodeRole::Leader && success ==> {
                        &&& match_index < u64::MAX
                        &&& old(self)@.match_index.dom().insert(from).len() >= old(self)@.quorum_rest()
                    },
                RaftInput::ElectionTimeout => old(self).role != NodeRole::Leader
                    ==> old(self).persistent.current_term < u64::MAX,
                _ => true,
            },
        ensures
            out.commit_index == final(self).volatile.commit_index,
            !out.persist ==> {
                &&& final(self).persistent.current_term == old(self).persistent.current_term
                &&& final(self).persistent.voted_for == old(self).persistent.voted_for
                &&& final(self).persistent.log@ == old(self).persistent.log@
            },
            match input {
                RaftInput::Propose { command } => {
                    &&& final(self)@ == old(self)@.propose(command)
                    &&& messages_view(out.messages@) == final(self)@.replications()
                    &&& out.reply == Some(RaftReply::Index(final(self)@.last_log_index()))
                    &&& out.election_timeout_ms is None
                    &&& out.persist
                },
                RaftInput::HandleAppendRequest { args } => {
                    &&& (final(self)@, out.reply->Some_0->Append_0) == old(self)@.handle_append_entries(args@)
                    &&& out.reply matches Some(RaftReply::Append(_))
                    &&& out.messages@.len() == 0
                    &&& timer_reset(out.election_timeout_ms)
                    &&& out.persist == (args.term >= old(self).persistent.current_term)
                },
                RaftInput::HandleVoteRequest { args } => {
                    &&& (final(self)@, out.reply->Some_0->Vote_0) == old(self)@.handle_request_vote(args)
                    &&& out.reply matches Some(RaftReply::Vote(_))
                    &&& out.messages@.len() == 0
                    &&& out.election_timeout_ms is None
                    &&& out.persist == (args.term >= old(self).persistent.current_term)
                },
                RaftInput::HandleAppendResponse { from, success, match_index } => {
                    &&& (final(self)@, messages_view(out.messages@)) == old(self)@.handle_append_response(
                        from,
                        success,
                        match_index,
                    )
                    &&& out.reply is None
                    &&& out.election_timeout_ms is None
                    &&& !out.persist
                },
                RaftInput::HandleVoteResponse { from, resp } => {
                    &&& (final(self)@, messages_view(out.messages@)) == old(self)@.handle_vote_response(from, resp)
                    &&& out.reply is None
                    &&& out.election_timeout_ms is None
                    &&& out.persist == (final(self).persistent.current_term != old(self).persistent.current_term)
                },
                RaftInput::GetRole => {
                    &&& final(self)@ == old(self)@
                    &&& out.reply == Some(RaftReply::Role(old(self).role))
                    &&& out.messages@.len() == 0
                    &&& out.election_timeout_ms is None
                    &&& !out.persist
                },
                RaftInput::GetValue { key } => {
                    &&& final(self)@ == old(self)@
                    &&& out.reply == Some(RaftReply::Value(
                        if old(self)@.kv.contains_key(key@) { Some(old(self)@.kv[key@]) } else { None },
                    ))
                    &&& out.messages@.len() == 0
                    &&& out.election_timeout_ms is None
                    &&& !out.persist
                },
                RaftInput::ElectionTimeout => if old(self).role != NodeRole::Leader {
                    &&& final(self)@ == old(self)@.start_election()
                    &&& messages_view(out.messages@) == final(self)@.vote_requests()
                    &&& out.reply is None
                    &&& timer_reset(out.election_timeout_ms)
                    &&& out.persist
                } else {
                    &&& final(self)@ == old(self)@
                    &&& out.messages@.len() == 0
                    &&& out.reply is None
                    &&& out.election_timeout_ms is None
                    &&& !out.persist
                },
                RaftInput::HeartbeatTick => {
                    &&& final(self)@ == old(self)@
                    &&& messages_view(out.messages@) == if old(self).role == NodeRole::Leader {
                        old(self)@.heartbeats()
                    } else {
                        Seq::<MessageView>::empty()
                    }
                    &&& out.reply is None
                    &&& out.election_timeout_ms is None
                    &&& !out.persist
                },
            },
    {
        let nothing = RaftOutput { reply: None, messages: Vec::new(), election_timeout_ms: None, persist: false, commit_index: 0 };
        let mut out = match input {
            RaftInput::Propose { command } => {
                let msgs = self.propose(command);
                let index = self.last_log_index();
                RaftOutput { reply: Some(RaftReply::Index(index)), messages: msgs, election_timeout_ms: None, persist: true, commit_index: 0 }
            },
            RaftInput::HandleAppendRequest { args } => {
                let persist = args.term >= self.persistent.current_term;
                let resp = self.handle_append_entries(args);
                let ms = new_election_timeout_ms();
                RaftOutput { reply: Some(RaftReply::Append(resp)), messages: Vec::new(), election_timeout_ms: Some(ms), persist, commit_index: 0 }
            },
            RaftInput::HandleVoteRequest { args } => {
                let persist = args.term >= self.persistent.current_term;
                let resp = self.handle_request_vote(args);
                RaftOutput { reply: Some(RaftReply::Vote(resp)), messages: Vec::new(), election_timeout_ms: None, persist, commit_index: 0 }
            },
            RaftInput::HandleAppendResponse { from, success, match_index } => {
                let msgs = self.handle_append_response(from, success, match_index);
                RaftOutput { reply: None, messages: msgs, election_timeout_ms: None, persist: false, commit_index: 0 }
            },
            RaftInput::HandleVoteResponse { from, resp } => {
                let term_before = self.persistent.current_term;
                let msgs = self.handle_vote_response(from, resp);
                let persist = self.persistent.current_term != term_before;
                RaftOutput { reply: None, messages: msgs, election_timeout_ms: None, persist, commit_index: 0 }
            },
            RaftInput::GetRole => {
                RaftOutput { reply: Some(RaftReply::Role(self.role)), messages: Vec::new(), election_timeout_ms: None, persist: false, commit_index: 0 }
            },
            RaftInput::GetValue { key } => {
                let value = match self.store.get(key.as_str()) {
                    Some(v) => Some(v.clone()),
                    None => None,
                };
                RaftOutput { reply: Some(RaftReply::Value(value)), messages: Vec::new(), election_timeout_ms: None, persist: false, commit_index: 0 }
            },
            RaftInput::ElectionTimeout => {
                if self.role != NodeRole::Leader {
                    let msgs = self.start_election();
                    let ms = new_election_timeout_ms();
                    RaftOutput { reply: None, messages: msgs, election_timeout_ms: Some(ms), persist: true, commit_index: 0 }
                } else {
                    nothing
                }
            },
            RaftInput::HeartbeatTick => {
                if self.role == NodeRole::Leader {
                    let msgs = self.send_heartbeats();
                    RaftOutput { reply: None, messages: msgs, election_timeout_ms: None, persist: false, commit_index: 0 }
                } else {
                    assert(messages_view(nothing.messages@) =~= Seq::<MessageView>::empty());
                    nothing
                }
            },
        };
        out.commit_index = self.volatile.commit_index;
        out
    }
}

} // verus!
