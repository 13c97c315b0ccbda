use vstd::prelude::*;
use crate::raft::state::NodeRole;

verus! {

/// HTTP status: the request succeeded.
pub const STATUS_OK: u16 = 200;

/// HTTP status: ask another node (this one does not lead).
pub const STATUS_TEMPORARY_REDIRECT: u16 = 307;

/// HTTP status: no value under the key.
pub const STATUS_NOT_FOUND: u16 = 404;

/// HTTP status: the node could not serve the request.
pub const STATUS_INTERNAL_SERVER_ERROR: u16 = 500;

/// Body of a `PUT /v1/keys/:key` request: the value to store under the key.
pub struct PutBody {
    pub value: String,
}

/// Body of a successful `GET /v1/keys/:key` answer.
pub struct GetResponse {
    pub key: String,
    pub value: String,
}

/// Where the handling of a `PUT` stands: asking the node for its role, proposing the
/// write and waiting for its log index, waiting for the commit index to reach it, or done
/// with an HTTP status.
pub enum PutStage {
    AwaitingRole,
    AwaitingIndex,
    AwaitingCommit { target: u64 },
    Finished { status: u16 },
}

/// What the handler of a `PUT` learned: the node's role, the log index of the proposed
/// write, the current commit index, or that the node could not be reached.
pub enum PutEvent {
    RoleReply { role: NodeRole },
    IndexReply { index: u64 },
    CommitIndex { commit: u64 },
    Failed,
}

/// The next stage of a `PUT`: only a leader takes the write (others redirect); once the
/// write has a log index the handler waits until the commit index reaches it; a failure
/// to reach the node ends with an internal error. Events that do not fit the stage leave
/// it as it is.
pub open spec fn put_transition(stage: PutStage, event: PutEvent) -> PutStage {
    match (stage, event) {
        (PutStage::Finished { status }, _) => PutStage::Finished { status },
        (_, PutEvent::Failed) => PutStage::Finished { status: STATUS_INTERNAL_SERVER_ERROR },
        (PutStage::AwaitingRole, PutEvent::RoleReply { role }) => if role == NodeRole::Leader {
            PutStage::AwaitingIndex
        } else {
            PutStage::Finished { status: STATUS_TEMPORARY_REDIRECT }
        },
        (PutStage::AwaitingIndex, PutEvent::IndexReply { index }) => PutStage::AwaitingCommit { target: index },
        (PutStage::AwaitingCommit { target }, PutEvent::CommitIndex { commit }) => if commit >= target {
            PutStage::Finished { status: STATUS_OK }
        } else {
            PutStage::AwaitingCommit { target }
        },
        (s, _) => s,
    }
}

/// Advances the handling of a `PUT` by one event.
pub fn next_put_stage(stage: PutStage, event: PutEvent) -> (r: PutStage)
    ensures
        r == put_transition(stage, event),
{
    match stage {
        PutStage::Finished { status } => PutStage::Finished { status },
        PutStage::AwaitingRole => match event {
            PutEvent::Failed => PutStage::Finished { status: STATUS_INTERNAL_SERVER_ERROR },
            PutEvent::RoleReply { role } => if role == NodeRole::Leader {
                PutStage::AwaitingIndex
            } else {
                PutStage::Finished { status: STATUS_TEMPORARY_REDIRECT }
            },
            _ => PutStage::AwaitingRole,
        },
        PutStage::AwaitingIndex => match event {
            PutEvent::Failed => PutStage::Finished { status: STATUS_INTERNAL_SERVER_ERROR },
            PutEvent::IndexReply { index } => PutStage::AwaitingCommit { target: index },
            _ => PutStage::AwaitingIndex,
        },
        PutStage::AwaitingCommit { target } => match event {
            PutEvent::Failed => PutStage::Finished { status: STATUS_INTERNAL_SERVER_ERROR },
            PutEvent::CommitIndex { commit } => if commit >= target {
                PutStage::Finished { status: STATUS_OK }
            } else {
                PutStage::AwaitingCommit { target }
            },
            _ => PutStage::AwaitingCommit { target },
        },
    }
}

/// The answer to a `GET` of `key`, from the node's reply (`None` when the node could not
/// be reached): the value, or not found, or an internal error.
pub fn get_outcome(key: String, reply: Option<Option<String>>) -> (r: Result<GetResponse, u16>)
    ensures
        match reply {
            None => r == Err::<GetResponse, u16>(STATUS_INTERNAL_SERVER_ERROR),
            Some(None) => r == Err::<GetResponse, u16>(STATUS_NOT_FOUND),
            Some(Some(v)) => r == Ok::<GetResponse, u16>(GetResponse { key: key, value: v }),
        },
{
    match reply {
        None => Err(STATUS_INTERNAL_SERVER_ERROR),
        Some(None) => Err(STATUS_NOT_FOUND),
        Some(Some(value)) => Ok(GetResponse { key, value }),
    }
}

} // verus!
