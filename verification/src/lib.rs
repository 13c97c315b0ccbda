pub mod api;
pub mod dashboard;
pub mod raft;
pub mod storage;
