//! A small Raft replication core: the per-node state machine, its messages,
//! the wire conversions and the key-value front end, with their contracts.

pub mod cli;
pub mod raft;
