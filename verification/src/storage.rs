use vstd::prelude::*;
use vstd::hash_map::StringHashMap;
use crate::raft::log::Command;

verus! {

/// What applying `command` does to the contents `m` of the store.
pub open spec fn apply_command(m: Map<Seq<char>, String>, command: Command) -> Map<Seq<char>, String> {
    match command {
        Command::Put { key, value } => m.insert(key@, value),
        Command::Delete { key } => m.remove(key@),
        Command::NoOp => m,
    }
}

/// The replicated key-value state machine.
pub struct KvStore {
    pub data: StringHashMap<String>,
    pub last_applied: u64,
}

impl KvStore {
    /// The contents of the store, keyed by the characters of each key.
    pub open spec fn contents(&self) -> Map<Seq<char>, String> {
        self.data@
    }

    /// Applies the command of the log entry at `index` and records `index` as the last
    /// applied one.
    pub fn apply(&mut self, index: u64, command: &Command)
        ensures
            final(self).contents() == apply_command(old(self).contents(), *command),
            final(self).last_applied == index,
    {
        match command {
            Command::Put { key, value } => {
                self.data.insert(key.clone(), value.clone());
            },
            Command::Delete { key } => {
                self.data.remove(key.as_str());
            },
            Command::NoOp => {},
        }
        self.last_applied = index;
    }

    /// The value stored under `key`, if any.
    pub fn get(&self, key: &str) -> (r: Option<&String>)
        ensures
            match r {
                Some(v) => self.contents().contains_key(key@) && *v == self.contents()[key@],
                None => !self.contents().contains_key(key@),
            },
    {
        self.data.get(key)
    }
}

impl Default for KvStore {
    fn default() -> (s: Self)
        ensures
            s.contents() == Map::<Seq<char>, String>::empty(),
            s.last_applied == 0,
    {
        KvStore { data: StringHashMap::new(), last_applied: 0 }
    }
}

} // verus!
