//! The messages that nodes, the local runtime and the application exchange.

use std::sync::Arc;
use vstd::prelude::*;

verus! {

/// A node's identity: the 128-bit value of its UUID.
pub type NodeId = u128;

/// The bytes of one replicated command, shared rather than copied.
pub type Payload = Arc<Vec<u8>>;

/// One log entry: the command and the term in which the leader received it.
pub type LogEntry = (Payload, u64);

/// The election timer of a follower or candidate ran out.
#[derive(Debug, Clone, Copy, PartialEq, Eq, Structural)]
pub struct Timeout;

/// The node drops its volatile leadership state (role, leader, votes and
/// replication progress), as after a restart.
#[derive(Debug, Clone, Copy, PartialEq, Eq, Structural)]
pub struct Crash;

/// Ask the leader to send the follower the part of the log it still lacks.
#[derive(Debug, Clone, Copy, PartialEq, Eq, Structural)]
pub struct ReplicateLog {
    pub leader_id: NodeId,
    pub follower_id: NodeId,
}

/// A command to append to the replicated log.
#[derive(Debug, Clone)]
pub struct BroadcastMsg {
    pub data: Payload,
}

/// A candidate asks for a vote: candidate, its term, its log length and the
/// term of its last log entry.
#[derive(Debug, Clone, Copy, PartialEq, Eq, Structural)]
pub struct VoteRequest(pub NodeId, pub u64, pub u64, pub u64);

/// The answer to a vote request: voter, its term, and whether it granted the vote.
#[derive(Debug, Clone, Copy, PartialEq, Eq, Structural)]
pub struct VoteResponse(pub NodeId, pub u64, pub bool);

/// Ask a leader to replicate its log to every other node.
#[derive(Debug, Clone, Copy, PartialEq, Eq, Structural)]
pub struct ReplicateLogAllExcept;

/// A leader's request to append `entries` after the first `log_length`
/// entries of the follower's log.
#[derive(Debug, Clone)]
pub struct LogRequest {
    pub leader_id: NodeId,
    pub term: u64,
    pub log_length: u64,
    pub log_term: u64,
    pub leader_commit: u64,
    pub entries: Vec<LogEntry>,
}

/// The content of a log request, with its entries as a sequence.
pub struct LogRequestView {
    pub leader_id: NodeId,
    pub term: u64,
    pub log_length: u64,
    pub log_term: u64,
    pub leader_commit: u64,
    pub entries: Seq<LogEntry>,
}

impl View for LogRequest {
    type V = LogRequestView;

    open spec fn view(&self) -> LogRequestView {
        LogRequestView {
            leader_id: self.leader_id,
            term: self.term,
            log_length: self.log_length,
            log_term: self.log_term,
            leader_commit: self.leader_commit,
            entries: self.entries@,
        }
    }
}

impl LogRequest {
    pub fn new(
        leader_id: NodeId,
        term: u64,
        log_length: u64,
        log_term: u64,
        leader_commit: u64,
        entries: Vec<LogEntry>,
    ) -> (r: LogRequest)
        ensures
            r@ == (LogRequestView { leader_id, term, log_length, log_term, leader_commit, entries: entries@ }),
    {
        LogRequest { leader_id, term, log_length, log_term, leader_commit, entries }
    }
}

/// A follower's answer to a log request: the follower, its term, how much of
/// the log it acknowledges, and whether it accepted the request.
#[derive(Debug, Clone, Copy, PartialEq, Eq, Structural)]
pub struct LogResponse {
    pub node_id: NodeId,
    pub current_term: u64,
    pub ack: u64,
    pub success: bool,
}

impl LogResponse {
    pub fn new(node_id: NodeId, current_term: u64, ack: u64, success: bool) -> (r: LogResponse)
        ensures
            r == (LogResponse { node_id, current_term, ack, success }),
    {
        LogResponse { node_id, current_term, ack, success }
    }
}

/// What one node sends another.
#[derive(Debug, Clone)]
pub enum NodeMsgs {
    VoteRequest(VoteRequest),
    LogRequest(LogRequest),
    BroadcastMsg(BroadcastMsg),
}

/// A committed command, handed to the application.
#[derive(Debug, Clone)]
pub struct AppMsg {
    pub data: Payload,
}

/// Ask a node for a digest of the nodes it knows.
#[derive(Debug, Clone, Copy, PartialEq, Eq, Structural)]
pub struct GetNodesHash;

/// A digest of the nodes a node knows.
#[derive(Debug, Clone, Copy, PartialEq, Eq, Structural)]
pub struct NodesHash {
    pub id: u64,
}

/// A node has become reachable under this id.
#[derive(Debug, Clone, Copy, PartialEq, Eq, Structural)]
pub struct NotifyUUID {
    pub node_id: NodeId,
}

} // verus!
