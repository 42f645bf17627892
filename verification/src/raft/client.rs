//! When a node tries again to reach a peer it could not register.

use vstd::prelude::*;

verus! {

/// How an attempt to reach a peer and learn its id ended.
#[derive(Debug, Clone, Copy, PartialEq, Eq, Structural)]
pub enum ConnectOutcome {
    /// No connection could be made.
    ConnectFailed,
    /// A connection was made, but the peer did not tell its id.
    IdFailed,
    /// The peer is connected and its id known.
    Connected,
}

/// What to do after an attempt.
#[derive(Debug, Clone, Copy, PartialEq, Eq, Structural)]
pub enum ConnectDecision {
    /// Wait this many seconds, then try again.
    RetryAfter(u64),
    /// Try again at once.
    RetryNow,
    /// Register the peer and stop trying.
    Register,
}

/// How long a node waits after it could not connect to a peer, in seconds.
pub const CONNECT_RETRY_SECS: u64 = 10;

/// After a failed connection the node waits `CONNECT_RETRY_SECS` and tries
/// again; when the peer did not tell its id it tries again at once; once
/// connected it registers the peer.
pub fn after_connect_attempt(outcome: ConnectOutcome) -> (d: ConnectDecision)
    ensures
        d == match outcome {
            ConnectOutcome::ConnectFailed => ConnectDecision::RetryAfter(CONNECT_RETRY_SECS),
            ConnectOutcome::IdFailed => ConnectDecision::RetryNow,
            ConnectOutcome::Connected => ConnectDecision::Register,
        },
{
    match outcome {
        ConnectOutcome::ConnectFailed => ConnectDecision::RetryAfter(CONNECT_RETRY_SECS),
        ConnectOutcome::IdFailed => ConnectDecision::RetryNow,
        ConnectOutcome::Connected => ConnectDecision::Register,
    }
}

} // verus!
