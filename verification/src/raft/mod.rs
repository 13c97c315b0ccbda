pub mod actor;
pub mod election;
pub mod laws;
pub mod laws_messages;
pub mod log;
pub mod model;
pub mod quorum;
pub mod quorum_order;
pub mod replication;
pub mod state;

use vstd::prelude::*;
use crate::raft::model::RaftState;
use crate::raft::state::{NodeId, NodeRole, PersistentState, VolatileState};
use crate::storage::KvStore;

verus! {

/// One member of a Raft cluster: its role, its persistent and volatile state, the votes
/// it has collected as a candidate, and the key-value store its committed entries feed.
pub struct RaftNode {
    pub id: NodeId,
    pub peers: Vec<NodeId>,
    pub role: NodeRole,
    pub persistent: PersistentState,
    pub volatile: VolatileState,
    pub votes_received: std::collections::HashSet<NodeId>,
    pub store: KvStore,
}

impl View for RaftNode {
    type V = RaftState;

    open spec fn view(&self) -> RaftState {
        RaftState {
            id: self.id,
            peers: self.peers@,
            role: self.role,
            current_term: self.persistent.current_term,
            voted_for: self.persistent.voted_for,
            log: self.persistent.log@,
            commit_index: self.volatile.commit_index,
            last_applied: self.volatile.last_applied,
            next_index: self.volatile.next_index@,
            match_index: self.volatile.match_index@,
            votes: self.votes_received@,
            kv: self.store.contents(),
            kv_last_applied: self.store.last_applied,
        }
    }
}

impl RaftNode {
    /// A follower at term 0 with an empty log, no replication progress, no votes and an
    /// empty store.
    pub fn new(id: NodeId, peers: Vec<NodeId>) -> (node: Self)
        ensures
            node@ == (RaftState {
                id: id,
                peers: peers@,
                role: NodeRole::Follower,
                current_term: 0,
                voted_for: None,
                log: Seq::empty(),
                commit_index: 0,
                last_applied: 0,
                next_index: Map::empty(),
                match_index: Map::empty(),
                votes: Set::empty(),
                kv: Map::empty(),
                kv_last_applied: 0,
            }),
    {
        RaftNode {
            id,
            peers,
            role: NodeRole::Follower,
            persistent: PersistentState::new(),
            volatile: VolatileState::new(),
            votes_received: std::collections::HashSet::new(),
            store: KvStore::default(),
        }
    }
}

} // verus!
