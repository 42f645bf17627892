use sraft::raft::actions::Action;
use sraft::raft::messages::{
    BroadcastMsg, Crash, LogRequest, LogResponse, NotifyUUID, Payload, ReplicateLog, ReplicateLogAllExcept, Timeout,
    VoteRequest, VoteResponse,
};
use sraft::raft::state::{Raft, Role, StateData, ELECTION_TIMEOUT_MAX_MS, ELECTION_TIMEOUT_MIN_MS};
use std::sync::Arc;

fn payload(b: &[u8]) -> Payload {
    Arc::new(b.to_vec())
}

fn node_knowing(id: u128, others: &[u128]) -> Raft {
    let mut r = Raft::new(id);
    for o in others {
        r.handle_notify(NotifyUUID { node_id: *o });
    }
    r
}

/// Node 1 knowing 2 and 3, elected leader in term 1 with the vote of 2.
fn leader() -> Raft {
    let mut r = node_knowing(1, &[2, 3]);
    r.handle_timeout(Timeout);
    r.handle_vote_response(VoteResponse(2, 1, true));
    assert_eq!(r.current_role(), Role::Leader);
    r
}

fn replicate_targets(actions: &[Action]) -> Vec<u128> {
    actions
        .iter()
        .map(|a| match a {
            Action::ReplicateLog(ReplicateLog { leader_id, follower_id }) => {
                assert_eq!(*leader_id, 1);
                *follower_id
            }
            _ => panic!("expected ReplicateLog"),
        })
        .collect()
}

fn delivered(actions: &[Action]) -> Vec<Vec<u8>> {
    actions
        .iter()
        .map(|a| match a {
            Action::Deliver(m) => (*m.data).clone(),
            _ => panic!("expected Deliver"),
        })
        .collect()
}

#[test]
fn new_node_is_an_idle_follower() {
    let r = Raft::new(5);
    assert_eq!(r.node_id(), 5);
    assert_eq!(r.current_term(), 0);
    assert_eq!(r.voted_for(), None);
    assert_eq!(r.current_role(), Role::Follower);
    assert_eq!(r.current_leader(), None);
    assert_eq!(r.commit_length(), 0);
    assert!(r.log().is_empty());
    assert!(r.nodes().is_empty());
    assert_eq!(r.votes_count(), 0);
    let d = StateData::default();
    assert_eq!(d.current_term, 0);
    assert_eq!(d.current_role, Role::Follower);
    assert!(d.votes_received.is_empty() && d.sent_length.is_empty() && d.acked_length.is_empty());
}

#[test]
fn known_nodes_stay_sorted_and_distinct() {
    let mut r = node_knowing(1, &[30, 10, 20, 10, 30]);
    assert_eq!(r.nodes(), vec![10, 20, 30]);
    r.handle_notify(NotifyUUID { node_id: 5 });
    r.handle_notify(NotifyUUID { node_id: 25 });
    assert_eq!(r.nodes(), vec![5, 10, 20, 25, 30]);
    assert_eq!(r.current_term(), 0);
}

#[test]
fn timeout_starts_an_election() {
    let mut r = node_knowing(1, &[3, 2]);
    let actions = r.handle_timeout(Timeout);
    assert_eq!(r.current_term(), 1);
    assert_eq!(r.current_role(), Role::Candidate);
    assert_eq!(r.voted_for(), Some(1));
    assert_eq!(r.votes_count(), 1);
    assert!(r.has_vote_from(1));
    assert_eq!(actions.len(), 2);
    for (a, to_expected) in actions.iter().zip([2u128, 3]) {
        match a {
            Action::SendVoteRequest { to, vote } => {
                assert_eq!(*to, to_expected);
                assert_eq!(*vote, VoteRequest(1, 1, 0, 0));
            }
            _ => panic!("expected a vote request"),
        }
    }
}

#[test]
fn vote_request_from_newer_term_is_granted() {
    let mut r = Raft::new(2);
    let reply = r.handle_vote_request(VoteRequest(1, 1, 0, 0));
    assert_eq!(reply, VoteResponse(2, 1, true));
    assert_eq!(r.current_term(), 1);
    assert_eq!(r.voted_for(), Some(1));
    assert_eq!(r.current_role(), Role::Follower);
    // the same candidate again: still granted
    assert_eq!(r.handle_vote_request(VoteRequest(1, 1, 0, 0)), VoteResponse(2, 1, true));
    // another candidate in the same term: refused, vote kept
    assert_eq!(r.handle_vote_request(VoteRequest(3, 1, 5, 0)), VoteResponse(2, 1, false));
    assert_eq!(r.voted_for(), Some(1));
    // an older term: refused
    let mut r2 = Raft::new(2);
    r2.handle_vote_request(VoteRequest(1, 5, 0, 0));
    assert_eq!(r2.handle_vote_request(VoteRequest(3, 4, 0, 0)), VoteResponse(2, 5, false));
}

#[test]
fn vote_request_with_stale_log_is_refused_without_adopting_the_term() {
    let mut r = leader();
    r.handle_broadcast(BroadcastMsg { data: payload(b"x") });
    // candidate's last log term 0 is older than ours (1)
    let reply = r.handle_vote_request(VoteRequest(9, 7, 5, 0));
    assert_eq!(reply, VoteResponse(1, 1, false));
    assert_eq!(r.current_term(), 1);
    // same last term but a shorter log
    assert_eq!(r.handle_vote_request(VoteRequest(9, 7, 0, 1)), VoteResponse(1, 1, false));
    // same last term and as long a log: granted
    assert_eq!(r.handle_vote_request(VoteRequest(9, 7, 1, 1)), VoteResponse(1, 7, true));
    assert_eq!(r.current_role(), Role::Follower);
}

#[test]
fn majority_of_votes_makes_a_leader() {
    let mut r = node_knowing(1, &[2, 3, 4, 5]);
    r.handle_timeout(Timeout);
    // a cluster of 5 needs 3 votes: our own and two more
    assert!(r.handle_vote_response(VoteResponse(2, 1, true)).is_empty());
    assert_eq!(r.current_role(), Role::Candidate);
    let actions = r.handle_vote_response(VoteResponse(3, 1, true));
    assert_eq!(r.current_role(), Role::Leader);
    assert_eq!(r.current_leader(), Some(1));
    assert_eq!(replicate_targets(&actions), vec![2, 3, 4, 5]);
    for id in [2u128, 3, 4, 5] {
        assert_eq!(r.sent_length(id), Some(0));
        assert_eq!(r.acked_length(id), Some(0));
    }
    assert_eq!(r.sent_length(1), None);
}

#[test]
fn leader_skips_itself_when_it_knows_its_own_id() {
    let mut r = node_knowing(1, &[1, 2]);
    r.handle_timeout(Timeout);
    let actions = r.handle_vote_response(VoteResponse(2, 1, true));
    assert_eq!(replicate_targets(&actions), vec![2]);
}

#[test]
fn vote_responses_that_do_not_count() {
    let mut r = node_knowing(1, &[2, 3, 4, 5, 6, 7]);
    r.handle_timeout(Timeout);
    // refused vote
    assert!(r.handle_vote_response(VoteResponse(2, 1, false)).is_empty());
    // granted but for another term
    assert!(r.handle_vote_response(VoteResponse(3, 0, true)).is_empty());
    assert_eq!(r.votes_count(), 1);
    // granted in our term, but 2 of a cluster of 7 are no majority
    assert!(r.handle_vote_response(VoteResponse(2, 1, true)).is_empty());
    assert_eq!(r.votes_count(), 2);
    assert_eq!(r.current_role(), Role::Candidate);
    // a newer term turns the node into a follower of it
    assert!(r.handle_vote_response(VoteResponse(4, 3, false)).is_empty());
    assert_eq!(r.current_term(), 3);
    assert_eq!(r.current_role(), Role::Follower);
    assert_eq!(r.voted_for(), None);
}

#[test]
fn leader_appends_broadcasts_and_replicates() {
    let mut r = leader();
    let actions = r.handle_broadcast(BroadcastMsg { data: payload(b"cmd") });
    assert_eq!(r.log().len(), 1);
    assert_eq!(*r.log()[0].0, b"cmd".to_vec());
    assert_eq!(r.log()[0].1, 1);
    assert_eq!(r.acked_length(1), Some(1));
    assert_eq!(replicate_targets(&actions), vec![2, 3]);
}

#[test]
fn follower_forwards_broadcasts_or_crashes() {
    // no known leader
    let mut r = node_knowing(2, &[1]);
    let actions = r.handle_broadcast(BroadcastMsg { data: payload(b"a") });
    assert!(matches!(actions.as_slice(), [Action::Crash(Crash)]));
    // a known leader
    let (resp, _) = r.handle_log_request(LogRequest::new(1, 1, 0, 0, 0, vec![]));
    assert!(resp.success);
    assert_eq!(r.current_leader(), Some(1));
    let actions = r.handle_broadcast(BroadcastMsg { data: payload(b"a") });
    match actions.as_slice() {
        [Action::ForwardBroadcast { to, msg }] => {
            assert_eq!(*to, 1);
            assert_eq!(*msg.data, b"a".to_vec());
        }
        _ => panic!("expected a forward"),
    }
    // a leader that is not among the known nodes
    let mut r = Raft::new(2);
    r.handle_log_request(LogRequest::new(9, 1, 0, 0, 0, vec![]));
    let actions = r.handle_broadcast(BroadcastMsg { data: payload(b"a") });
    assert!(matches!(actions.as_slice(), [Action::Crash(Crash)]));
    assert!(r.log().is_empty());
}

#[test]
fn replicate_log_sends_what_the_follower_lacks() {
    let mut r = leader();
    r.handle_broadcast(BroadcastMsg { data: payload(b"a") });
    r.handle_broadcast(BroadcastMsg { data: payload(b"b") });
    let msg = ReplicateLog { leader_id: 1, follower_id: 2 };
    assert!(r.can_replicate_log(msg));
    let actions = r.handle_replicate_log(msg);
    match actions.as_slice() {
        [Action::SendLogRequest { to, request }] => {
            assert_eq!(*to, 2);
            assert_eq!(request.leader_id, 1);
            assert_eq!(request.term, 1);
            assert_eq!(request.log_length, 0);
            assert_eq!(request.log_term, 0);
            assert_eq!(request.leader_commit, 0);
            assert_eq!(request.entries.len(), 2);
            assert_eq!(*request.entries[1].0, b"b".to_vec());
        }
        _ => panic!("expected a log request"),
    }
    // after a success at 1, a refusal steps back to 0 ... and then to nothing
    r.handle_log_response(LogResponse::new(2, 1, 1, true));
    assert_eq!(r.sent_length(2), Some(1));
    let actions = r.handle_replicate_log(msg);
    match actions.as_slice() {
        [Action::SendLogRequest { request, .. }] => {
            assert_eq!(request.log_length, 1);
            assert_eq!(request.log_term, 1);
            assert_eq!(request.entries.len(), 1);
            assert_eq!(*request.entries[0].0, b"b".to_vec());
        }
        _ => panic!("expected a log request"),
    }
    // an unknown follower: crash
    let unknown = ReplicateLog { leader_id: 1, follower_id: 77 };
    assert!(matches!(r.handle_replicate_log(unknown).as_slice(), [Action::Crash(Crash)]));
}

#[test]
fn replicate_log_refuses_a_prefix_beyond_the_log() {
    let mut r = leader();
    // follower 2 claims 5 entries that the leader does not have
    r.handle_log_response(LogResponse::new(2, 1, 5, true));
    assert!(!r.can_replicate_log(ReplicateLog { leader_id: 1, follower_id: 2 }));
    assert!(r.can_replicate_log(ReplicateLog { leader_id: 1, follower_id: 3 }));
}

#[test]
fn replicate_all_only_from_a_leader() {
    let mut r = leader();
    assert!(r.replicator_tick());
    assert_eq!(replicate_targets(&r.handle_replicate_all(ReplicateLogAllExcept)), vec![2, 3]);
    r.handle_crash(Crash);
    assert!(!r.replicator_tick());
    assert!(r.handle_replicate_all(ReplicateLogAllExcept).is_empty());
}

#[test]
fn first_entry_is_appended_by_an_empty_follower() {
    let mut f = Raft::new(2);
    let req = LogRequest::new(1, 1, 0, 0, 0, vec![(payload(&[7]), 1)]);
    assert!(f.can_handle_log_request(&req));
    let (resp, actions) = f.handle_log_request(req);
    assert_eq!(resp, LogResponse::new(2, 1, 1, true));
    assert!(actions.is_empty());
    assert_eq!(f.current_term(), 1);
    assert_eq!(f.voted_for(), None);
    assert_eq!(f.current_role(), Role::Follower);
    assert_eq!(f.current_leader(), Some(1));
    assert_eq!(f.log().len(), 1);
    assert_eq!(*f.log()[0].0, vec![7u8]);
    assert_eq!(f.log()[0].1, 1);
}

#[test]
fn request_beyond_the_log_is_refused_but_the_sender_followed() {
    let mut f = Raft::new(2);
    let (resp, actions) = f.handle_log_request(LogRequest::new(1, 1, 2, 1, 0, vec![(payload(&[7]), 1)]));
    assert_eq!(resp, LogResponse::new(2, 1, 0, false));
    assert!(actions.is_empty());
    assert!(f.log().is_empty());
    assert_eq!(f.current_leader(), Some(1));
    assert_eq!(f.current_role(), Role::Follower);
}

#[test]
fn heartbeat_is_acknowledged() {
    let mut f = Raft::new(2);
    let (resp, actions) = f.handle_log_request(LogRequest::new(1, 3, 0, 0, 0, vec![]));
    assert_eq!(resp, LogResponse::new(2, 3, 0, true));
    assert!(actions.is_empty());
    assert_eq!(f.current_leader(), Some(1));
    // an older term is refused and answered with ours
    let (resp, _) = f.handle_log_request(LogRequest::new(4, 2, 0, 0, 0, vec![]));
    assert_eq!(resp, LogResponse::new(2, 3, 0, false));
    assert_eq!(f.current_leader(), Some(1));
}

/// A node that led in term 1 with entries a, b, c, then hears from a leader of term 2.
fn former_leader() -> Raft {
    let mut r = leader();
    for d in [b"a", b"b", b"c"] {
        r.handle_broadcast(BroadcastMsg { data: payload(d) });
    }
    r
}

#[test]
fn matching_request_appends_and_commits() {
    let mut r = former_leader();
    // the log holds entry 1 of term 1: the new entry goes after the whole log
    let req = LogRequest::new(9, 2, 3, 1, 2, vec![(payload(b"d"), 2)]);
    assert!(r.can_handle_log_request(&req));
    let (resp, actions) = r.handle_log_request(req);
    assert_eq!(r.log().len(), 4);
    assert_eq!(*r.log()[3].0, b"d".to_vec());
    assert_eq!(r.log()[3].1, 2);
    assert_eq!(resp, LogResponse::new(1, 2, 4, true));
    assert_eq!(r.current_role(), Role::Follower);
    assert_eq!(r.current_leader(), Some(9));
    assert_eq!(r.current_term(), 2);
    // commit 0 -> 2 hands over the log's entries 0 and 1
    assert_eq!(delivered(&actions), vec![b"a".to_vec(), b"b".to_vec()]);
    assert_eq!(r.commit_length(), 2);
}

#[test]
fn conflicting_entry_cuts_the_log() {
    let mut r = former_leader();
    // entry 1 has term 1, the first new entry term 2: keep [a], then append
    let req = LogRequest::new(9, 2, 1, 1, 2, vec![(payload(b"x"), 2), (payload(b"y"), 2)]);
    assert!(r.can_handle_log_request(&req));
    let (resp, actions) = r.handle_log_request(req);
    assert_eq!(resp, LogResponse::new(1, 2, 3, true));
    let log: Vec<(Vec<u8>, u64)> = r.log().iter().map(|e| ((*e.0).clone(), e.1)).collect();
    assert_eq!(log, vec![(b"a".to_vec(), 1), (b"x".to_vec(), 2), (b"y".to_vec(), 2)]);
    assert_eq!(delivered(&actions), vec![b"a".to_vec(), b"x".to_vec()]);
    assert_eq!(r.commit_length(), 2);
}

#[test]
fn request_that_would_fail_is_detected() {
    let mut r = former_leader();
    // accepted, but the leader's commit length lies beyond the new log
    let req = LogRequest::new(9, 2, 3, 1, 9, vec![(payload(b"p"), 1)]);
    assert!(!r.can_handle_log_request(&req));
    let req = LogRequest::new(9, 2, 1, 1, 4, vec![(payload(b"p"), 2)]);
    assert!(!r.can_handle_log_request(&req));
    // within the new log it is fine
    let req = LogRequest::new(9, 2, 1, 1, 2, vec![(payload(b"p"), 2)]);
    assert!(r.can_handle_log_request(&req));
    // a refused request never fails
    let req = LogRequest::new(9, 0, 0, 1, 9, vec![(payload(b"p"), 2)]);
    assert!(r.can_handle_log_request(&req));
    let (resp, _) = r.handle_log_request(req);
    assert!(!resp.success);
    assert_eq!(r.log().len(), 3);
}

#[test]
fn acknowledgements_commit_a_majority_prefix() {
    let mut r = former_leader();
    // the leader holds all three entries; with follower 2 that is 2 of 3 nodes
    let actions = r.handle_log_response(LogResponse::new(2, 1, 3, true));
    assert_eq!(r.sent_length(2), Some(3));
    assert_eq!(r.acked_length(2), Some(3));
    assert_eq!(r.commit_length(), 3);
    assert_eq!(delivered(&actions), vec![b"a".to_vec(), b"b".to_vec(), b"c".to_vec()]);
    // a later acknowledgement commits nothing new
    let actions = r.handle_log_response(LogResponse::new(3, 1, 3, true));
    assert!(actions.is_empty());
    assert_eq!(r.commit_length(), 3);
}

#[test]
fn one_entry_log_commits_with_a_majority() {
    let mut r = node_knowing(0, &[1, 2]);
    r.handle_timeout(Timeout);
    r.handle_vote_response(VoteResponse(1, 1, true));
    assert_eq!(r.current_role(), Role::Leader);
    r.handle_broadcast(BroadcastMsg { data: payload(&[9]) });
    let actions = r.handle_log_response(LogResponse::new(1, 1, 1, true));
    assert_eq!(r.commit_length(), 1);
    assert_eq!(delivered(&actions), vec![vec![9u8]]);
}

#[test]
fn one_acknowledgement_of_five_commits_nothing() {
    let mut r = node_knowing(1, &[2, 3, 4, 5]);
    r.handle_timeout(Timeout);
    r.handle_vote_response(VoteResponse(2, 1, true));
    r.handle_vote_response(VoteResponse(3, 1, true));
    r.handle_broadcast(BroadcastMsg { data: payload(b"a") });
    assert!(r.handle_log_response(LogResponse::new(2, 1, 1, true)).is_empty());
    assert_eq!(r.commit_length(), 0);
    assert_eq!(delivered(&r.handle_log_response(LogResponse::new(3, 1, 1, true))), vec![b"a".to_vec()]);
    assert_eq!(r.commit_length(), 1);
}

#[test]
fn refusal_steps_back_and_resends() {
    let mut r = former_leader();
    assert_eq!(delivered(&r.handle_log_response(LogResponse::new(2, 1, 2, true))), vec![b"a".to_vec(), b"b".to_vec()]);
    // a refusal (or an acknowledgement going back) steps back by one
    let actions = r.handle_log_response(LogResponse::new(2, 1, 0, false));
    assert_eq!(r.sent_length(2), Some(1));
    assert_eq!(replicate_targets(&actions), vec![2]);
    // an acknowledgement below what was acknowledged before also steps back
    let actions = r.handle_log_response(LogResponse::new(2, 1, 1, true));
    assert_eq!(r.sent_length(2), Some(0));
    assert_eq!(r.acked_length(2), Some(2));
    assert_eq!(replicate_targets(&actions), vec![2]);
    // at 0 nothing more happens
    let mut r = leader();
    assert!(r.handle_log_response(LogResponse::new(2, 1, 0, false)).is_empty());
    assert_eq!(r.sent_length(2), Some(0));
}

#[test]
fn log_responses_of_other_terms() {
    let mut r = leader();
    assert!(r.handle_log_response(LogResponse::new(2, 0, 4, true)).is_empty());
    assert_eq!(r.acked_length(2), Some(0));
    assert!(r.handle_log_response(LogResponse::new(2, 6, 0, false)).is_empty());
    assert_eq!(r.current_term(), 6);
    assert_eq!(r.current_role(), Role::Follower);
    assert_eq!(r.voted_for(), None);
}

#[test]
fn crash_forgets_volatile_state_and_is_idempotent() {
    let mut r = leader();
    r.handle_broadcast(BroadcastMsg { data: payload(b"a") });
    r.handle_crash(Crash);
    assert_eq!(r.current_role(), Role::Follower);
    assert_eq!(r.current_leader(), None);
    assert_eq!(r.votes_count(), 0);
    assert_eq!(r.sent_length(2), None);
    assert_eq!(r.acked_length(1), None);
    assert_eq!(r.current_term(), 1);
    assert_eq!(r.voted_for(), Some(1));
    assert_eq!(r.log().len(), 1);
    r.handle_crash(Crash);
    assert_eq!(r.current_role(), Role::Follower);
    assert_eq!(r.log().len(), 1);
    assert_eq!(r.current_term(), 1);
}

#[test]
fn election_timer() {
    let r = Raft::new(1);
    assert!(r.election_due(150_000_001, 150));
    assert!(!r.election_due(150_000_000, 150));
    assert!(r.election_tick(ELECTION_TIMEOUT_MAX_MS as u128 * 1_000_000 + 1));
    assert!(!r.election_tick(ELECTION_TIMEOUT_MIN_MS as u128 * 1_000_000));
    assert!(!r.election_tick(0));
    let l = leader();
    assert!(!l.election_due(u128::MAX, 0));
    assert!(!l.election_tick(u128::MAX));
}

#[test]
fn terms_never_go_back_over_a_run() {
    let mut r = node_knowing(1, &[2, 3]);
    let mut last = r.current_term();
    r.handle_timeout(Timeout);
    assert!(r.current_term() >= last);
    last = r.current_term();
    r.handle_vote_request(VoteRequest(2, 0, 0, 0));
    assert!(r.current_term() >= last);
    last = r.current_term();
    r.handle_log_response(LogResponse::new(2, 0, 0, false));
    assert!(r.current_term() >= last);
    last = r.current_term();
    r.handle_log_request(LogRequest::new(3, 0, 0, 0, 0, vec![]));
    assert!(r.current_term() >= last);
    r.handle_crash(Crash);
    assert_eq!(r.current_term(), 1);
}

#[test]
fn commit_never_goes_back() {
    let mut r = former_leader();
    r.handle_log_response(LogResponse::new(2, 1, 3, true));
    assert_eq!(r.commit_length(), 3);
    // a newer leader reports a smaller commit: ours stays
    let req = LogRequest::new(9, 2, 3, 1, 1, vec![]);
    assert!(r.can_handle_log_request(&req));
    let (resp, actions) = r.handle_log_request(req);
    assert_eq!(resp, LogResponse::new(1, 2, 3, true));
    assert!(actions.is_empty());
    assert_eq!(r.commit_length(), 3);
    assert_eq!(r.log().len(), 3);
}

#[test]
fn leader_log_only_grows() {
    let mut r = leader();
    r.handle_broadcast(BroadcastMsg { data: payload(b"a") });
    let before: Vec<(Vec<u8>, u64)> = r.log().iter().map(|e| ((*e.0).clone(), e.1)).collect();
    r.handle_log_response(LogResponse::new(2, 1, 1, true));
    r.handle_vote_request(VoteRequest(3, 1, 0, 0));
    r.handle_replicate_all(ReplicateLogAllExcept);
    r.handle_vote_response(VoteResponse(3, 1, true));
    r.handle_broadcast(BroadcastMsg { data: payload(b"b") });
    let after: Vec<(Vec<u8>, u64)> = r.log().iter().map(|e| ((*e.0).clone(), e.1)).collect();
    assert_eq!(after.len(), 2);
    assert_eq!(&after[..1], &before[..]);
    assert_eq!(after[1], (b"b".to_vec(), 1));
}

#[test]
fn two_candidates_of_one_term_do_not_both_lead() {
    // five nodes; 1 and 2 time out into term 1; 3 votes for 1, 4 for 2
    let ids = [1u128, 2, 3, 4, 5];
    let mut n: Vec<Raft> = ids.iter().map(|&i| node_knowing(i, &ids)).collect();
    n[0].handle_timeout(Timeout);
    n[1].handle_timeout(Timeout);
    let v3 = n[2].handle_vote_request(VoteRequest(1, 1, 0, 0));
    let v4 = n[3].handle_vote_request(VoteRequest(2, 1, 0, 0));
    assert_eq!(v3, VoteResponse(3, 1, true));
    assert_eq!(v4, VoteResponse(4, 1, true));
    // each asks the other voter too, and is refused
    assert_eq!(n[2].handle_vote_request(VoteRequest(2, 1, 0, 0)), VoteResponse(3, 1, false));
    assert_eq!(n[3].handle_vote_request(VoteRequest(1, 1, 0, 0)), VoteResponse(4, 1, false));
    n[0].handle_vote_response(v3);
    n[1].handle_vote_response(v4);
    // two votes of five are no majority
    assert_eq!(n[0].current_role(), Role::Candidate);
    assert_eq!(n[1].current_role(), Role::Candidate);
    // node 5 decides the term
    let v5 = n[4].handle_vote_request(VoteRequest(1, 1, 0, 0));
    n[0].handle_vote_response(v5);
    assert_eq!(n[0].current_role(), Role::Leader);
    assert_eq!(n[4].handle_vote_request(VoteRequest(2, 1, 0, 0)), VoteResponse(5, 1, false));
    assert_eq!(n[1].current_role(), Role::Candidate);
}

#[test]
fn leader_heard_resets_and_follows() {
    let mut f = Raft::new(2);
    let req = LogRequest::new(1, 1, 0, 0, 0, vec![]);
    assert!(f.heard_from_leader(&req));
    f.handle_log_request(req);
    assert!(!f.heard_from_leader(&LogRequest::new(3, 0, 0, 0, 0, vec![])));
}
