use vstd::prelude::*;
use crate::raft::log::LogEntry;

verus! {

/// Identifier of a node in the cluster.
pub type NodeId = u64;

/// A node is either the leader, a candidate for leadership, or a follower.
#[derive(Clone, Copy, Debug, PartialEq, Eq, Structural)]
pub enum NodeRole {
    Follower,
    Candidate,
    Leader,
}

/// The state a node keeps across restarts.
#[derive(Debug)]
pub struct PersistentState {
    pub current_term: u64,
    pub voted_for: Option<NodeId>,
    pub log: Vec<LogEntry>,
}

impl PersistentState {
    /// The state of a node that has never run: term 0, no vote, empty log.
    pub fn new() -> (s: Self)
        ensures
            s.current_term == 0,
            s.voted_for is None,
            s.log@ == Seq::<LogEntry>::empty(),
    {
        PersistentState { current_term: 0, voted_for: None, log: Vec::new() }
    }
}

/// The state a node rebuilds after each start.
#[derive(Debug)]
pub struct VolatileState {
    pub commit_index: u64,
    pub last_applied: u64,
    pub next_index: std::collections::HashMap<NodeId, u64>,
    pub match_index: std::collections::HashMap<NodeId, u64>,
}

impl VolatileState {
    /// Nothing committed, nothing applied, no replication progress known.
    pub fn new() -> (s: Self)
        ensures
            s.commit_index == 0,
            s.last_applied == 0,
            s.next_index@ == Map::<NodeId, u64>::empty(),
            s.match_index@ == Map::<NodeId, u64>::empty(),
    {
        VolatileState {
            commit_index: 0,
            last_applied: 0,
            next_index: std::collections::HashMap::new(),
            match_index: std::collections::HashMap::new(),
        }
    }
}

/// Arguments of a RequestVote call.
#[derive(Clone, Copy, Debug)]
pub struct VoteRequest {
    pub term: u64,
    pub candidate_id: NodeId,
    pub last_log_index: u64,
    pub last_log_term: u64,
}

/// Answer to a RequestVote call.
#[derive(Clone, Copy, Debug)]
pub struct VoteResponse {
    pub term: u64,
    pub vote_granted: bool,
}

/// Arguments of an AppendEntries call; with no entries it is a heartbeat.
#[derive(Clone, Debug)]
pub struct AppendRequest {
    pub term: u64,
    pub leader_id: NodeId,
    pub prev_log_index: u64,
    pub prev_log_term: u64,
    pub entries: Vec<LogEntry>,
    pub leader_commit: u64,
}

/// Answer to an AppendEntries call.
#[derive(Clone, Copy, Debug)]
pub struct AppendResponse {
    pub term: u64,
    pub success: bool,
}

/// A call that a node asks to be sent to a peer.
#[allow(inconsistent_fields)]
#[derive(Clone, Debug)]
pub enum Message {
    RequestVote { to: NodeId, args: VoteRequest },
    AppendEntries { to: NodeId, args: AppendRequest },
}

/// An AppendEntries call as a mathematical value.
pub struct AppendRequestView {
    pub term: u64,
    pub leader_id: NodeId,
    pub prev_log_index: u64,
    pub prev_log_term: u64,
    pub entries: Seq<LogEntry>,
    pub leader_commit: u64,
}

/// A message as a mathematical value.
#[allow(inconsistent_fields)]
pub enum MessageView {
    RequestVote { to: NodeId, args: VoteRequest },
    AppendEntries { to: NodeId, args: AppendRequestView },
}

impl View for AppendRequest {
    type V = AppendRequestView;

    open spec fn view(&self) -> AppendRequestView {
        AppendRequestView {
            term: self.term,
            leader_id: self.leader_id,
            prev_log_index: self.prev_log_index,
            prev_log_term: self.prev_log_term,
            entries: self.entries@,
            leader_commit: self.leader_commit,
        }
    }
}

impl View for Message {
    type V = MessageView;

    open spec fn view(&self) -> MessageView {
        match self {
            Message::RequestVote { to, args } => MessageView::RequestVote { to: *to, args: *args },
            Message::AppendEntries { to, args } => MessageView::AppendEntries { to: *to, args: args@ },
        }
    }
}

/// The mathematical values of a sequence of messages.
pub open spec fn messages_view(msgs: Seq<Message>) -> Seq<MessageView> {
    msgs.map_values(|m: Message| m@)
}

impl AppendRequest {
    /// The log index the receiver holds up to once it has accepted this call: the index
    /// before the entries plus the number of entries.
    pub fn replicated_match_index(&self) -> (r: u64)
        requires
            self.prev_log_index + self.entries.len() <= u64::MAX,
        ensures
            r == self.prev_log_index + self.entries@.len(),
    {
        self.prev_log_index + self.entries.len() as u64
    }
}

} // verus!
