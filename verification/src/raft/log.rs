use vstd::prelude::*;
use crate::raft::RaftNode;

verus! {

/// A command of the key-value state machine.
#[derive(Debug)]
pub enum Command {
    /// Store `value` under `key` (written `Set` in the JSON form of a command).
    Put { key: String, value: String },
    /// Remove `key` and its value.
    Delete { key: String },
    /// Change nothing.
    NoOp,
}

impl Clone for Command {
    fn clone(&self) -> (r: Self)
        ensures
            r == *self,
    {
        match self {
            Command::Put { key, value } => Command::Put { key: key.clone(), value: value.clone() },
            Command::Delete { key } => Command::Delete { key: key.clone() },
            Command::NoOp => Command::NoOp,
        }
    }
}

/// One entry of the replicated log.
#[derive(Debug)]
pub struct LogEntry {
    /// Term of the leader that created the entry.
    pub term: u64,
    /// Position of the entry in the log, counted from 1.
    pub index: u64,
    /// The command the entry carries.
    pub command: Command,
}

impl Clone for LogEntry {
    fn clone(&self) -> (r: Self)
        ensures
            r == *self,
    {
        LogEntry { term: self.term, index: self.index, command: self.command.clone() }
    }
}

impl RaftNode {
    /// Index of the last log entry; 0 for an empty log.
    pub fn last_log_index(&self) -> (r: u64)
        ensures
            r == self@.last_log_index(),
    {
        self.persistent.log.len() as u64
    }

    /// Term of the last log entry; 0 for an empty log.
    pub fn last_log_term(&self) -> (r: u64)
        ensures
            r == self@.last_log_term(),
    {
        let n = self.persistent.log.len();
        if n == 0 {
            0
        } else {
            self.persistent.log[n - 1].term
        }
    }

    /// The entry at `index`, counted from 1; `None` for 0 and past the end of the log.
    pub fn get_entry(&self, index: u64) -> (r: Option<&LogEntry>)
        ensures
            match r {
                Some(e) => self@.entry(index) == Some(*e),
                None => self@.entry(index) is None,
            },
    {
        if index == 0 {
            return None;
        }
        if index - 1 < self.persistent.log.len() as u64 {
            Some(&self.persistent.log[(index - 1) as usize])
        } else {
            None
        }
    }
}

} // verus!
