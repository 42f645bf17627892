//! The messages of the node-to-node RPC service, as they travel on the wire.

use vstd::prelude::*;

verus! {

/// A node id in text form.
#[derive(Debug, Clone)]
pub struct Uuid {
    pub data: String,
}

/// One log entry on the wire.
#[derive(Debug, Clone)]
pub struct CommitEntry {
    pub data: Vec<u8>,
    pub term: u64,
}

/// A log request on the wire.
#[derive(Debug, Clone)]
pub struct LogRequest {
    pub leader_id: Option<Uuid>,
    pub term: u64,
    pub log_length: u64,
    pub log_term: u64,
    pub log_commit: u64,
    pub entries: Vec<CommitEntry>,
}

/// A log response on the wire.
#[derive(Debug, Clone)]
pub struct LogResponse {
    pub node_id: Option<Uuid>,
    pub current_term: u64,
    pub ack: u64,
    pub success: bool,
}

/// A vote request on the wire.
#[derive(Debug, Clone)]
pub struct VoteRequest {
    pub candidate_id: Option<Uuid>,
    pub candidate_term: u64,
    pub candidate_log_length: u64,
    pub candidate_log_term: u64,
}

/// A vote response on the wire.
#[derive(Debug, Clone)]
pub struct VoteResponse {
    pub voter_id: Option<Uuid>,
    pub term: u64,
    pub granted: bool,
}

/// A command passed to the leader, on the wire.
#[derive(Debug, Clone)]
pub struct BroadCastMsgData {
    pub data: Vec<u8>,
}

/// The addresses a node knows, on the wire.
#[derive(Debug, Clone)]
pub struct Addrs {
    pub addrs: Vec<String>,
}

} // verus!
