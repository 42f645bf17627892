use sraft::raft::client::{after_connect_attempt, ConnectDecision, ConnectOutcome, CONNECT_RETRY_SECS};

#[test]
fn retry_policy() {
    assert_eq!(after_connect_attempt(ConnectOutcome::ConnectFailed), ConnectDecision::RetryAfter(10));
    assert_eq!(CONNECT_RETRY_SECS, 10);
    assert_eq!(after_connect_attempt(ConnectOutcome::IdFailed), ConnectDecision::RetryNow);
    assert_eq!(after_connect_attempt(ConnectOutcome::Connected), ConnectDecision::Register);
}
