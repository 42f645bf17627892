use sraft::raft::messages::{LogRequest, LogResponse, VoteRequest, VoteResponse};
use sraft::raft::raftservice;
use sraft::raft::transformers::{
    log_resp__to_log_resp, log_resp_to_log_resp_, lreq__to_lreq, lreq_to_lreq_, opt_uuid__to_uuid, uuid__to_uuid, uuid_to_uuid_,
    vote_req__to_vote_req, vote_req_to_vote_req_, vote_resp__to_vote_resp, vote_resp_to_vote_resp_, ConversionError,
};
use std::sync::Arc;

const ID: u128 = 0x936DA01F_9ABD_4D9D_80C7_02AF85C822A8;

#[test]
fn node_id_travels_as_lower_case_simple_form() {
    assert_eq!(uuid_to_uuid_(ID).data, "936da01f9abd4d9d80c702af85c822a8");
    assert_eq!(uuid_to_uuid_(1).data, "00000000000000000000000000000001");
    assert_eq!(uuid_to_uuid_(0).data, "00000000000000000000000000000000");
    assert_eq!(uuid_to_uuid_(u128::MAX).data, "ffffffffffffffffffffffffffffffff");
}

#[test]
fn wire_id_is_read_back() {
    assert_eq!(opt_uuid__to_uuid(Some(uuid_to_uuid_(ID))), Ok(ID));
    assert_eq!(opt_uuid__to_uuid(Some(uuid_to_uuid_(42))), Ok(42));
    let upper = raftservice::Uuid { data: "936DA01F9ABD4D9D80C702AF85C822A8".to_string() };
    assert_eq!(opt_uuid__to_uuid(Some(upper)), Ok(ID));
    let hyphenated = raftservice::Uuid { data: "936DA01F-9ABD-4D9D-80C7-02AF85C822A8".to_string() };
    assert_eq!(opt_uuid__to_uuid(Some(hyphenated)), Ok(ID));
    assert_eq!(uuid__to_uuid(uuid_to_uuid_(ID)), Ok(ID));
    let urn = raftservice::Uuid { data: "urn:uuid:936da01f-9abd-4d9d-80c7-02af85c822a8".to_string() };
    assert_eq!(uuid__to_uuid(urn), Ok(ID));
    let bad = raftservice::Uuid { data: String::new() };
    assert_eq!(uuid__to_uuid(bad), Err(ConversionError::InvalidArgument));
}

#[test]
fn missing_or_bad_wire_id_is_an_invalid_argument() {
    assert_eq!(opt_uuid__to_uuid(None), Err(ConversionError::InvalidArgument));
    let bad = raftservice::Uuid { data: "not a uuid".to_string() };
    assert_eq!(opt_uuid__to_uuid(Some(bad)), Err(ConversionError::InvalidArgument));
    let short = raftservice::Uuid { data: "936da01f9abd4d9d80c702af85c822a".to_string() };
    assert_eq!(opt_uuid__to_uuid(Some(short)), Err(ConversionError::InvalidArgument));
    for text in [
        "936da01f9-abd-4d9d-80c7-02af85c822a8",
        "936da01f-9abd-4d9d-80c7-02af85c822a8-",
        "URN:uuid:936da01f-9abd-4d9d-80c7-02af85c822a8",
        "urn:uuid:936da01f9abd4d9d80c702af85c822a8",
        "936da01f9abd4d9d80c702af85c822ag",
        "936da01f-9abd-4d9d-80c7-02af85c822a8 ",
    ] {
        let u = raftservice::Uuid { data: text.to_string() };
        assert_eq!(opt_uuid__to_uuid(Some(u)), Err(ConversionError::InvalidArgument), "{}", text);
    }
}

#[test]
fn log_response_roundtrip() {
    let r = LogResponse::new(ID, 4, 9, true);
    let w = log_resp_to_log_resp_(r);
    assert_eq!(w.current_term, 4);
    assert_eq!(w.ack, 9);
    assert!(w.success);
    assert_eq!(w.node_id.as_ref().unwrap().data, "936da01f9abd4d9d80c702af85c822a8");
    assert_eq!(log_resp__to_log_resp(w), Ok(r));
    let missing = raftservice::LogResponse { node_id: None, current_term: 1, ack: 0, success: false };
    assert_eq!(log_resp__to_log_resp(missing), Err(()));
}

#[test]
fn vote_messages_roundtrip() {
    let req = VoteRequest(ID, 3, 5, 2);
    let w = vote_req_to_vote_req_(req);
    assert_eq!((w.candidate_term, w.candidate_log_length, w.candidate_log_term), (3, 5, 2));
    assert_eq!(vote_req__to_vote_req(w), Ok(req));
    let resp = VoteResponse(7, 3, true);
    let w = vote_resp_to_vote_resp_(resp);
    assert_eq!(w.voter_id.as_ref().unwrap().data, "00000000000000000000000000000007");
    assert_eq!(vote_resp__to_vote_resp(w), Ok(resp));
    let bad = raftservice::VoteResponse { voter_id: None, term: 1, granted: true };
    assert_eq!(vote_resp__to_vote_resp(bad), Err(()));
    let bad = raftservice::VoteRequest { candidate_id: None, candidate_term: 1, candidate_log_length: 0, candidate_log_term: 0 };
    assert_eq!(vote_req__to_vote_req(bad), Err(ConversionError::InvalidArgument));
}

#[test]
fn log_request_roundtrip() {
    let entries = vec![(Arc::new(vec![1u8, 2, 3]), 1u64), (Arc::new(vec![]), 2u64)];
    let req = LogRequest::new(ID, 2, 1, 1, 1, entries);
    let w = lreq_to_lreq_(req.clone());
    assert_eq!(w.log_commit, 1);
    assert_eq!(w.entries.len(), 2);
    assert_eq!(w.entries[0].data, vec![1u8, 2, 3]);
    assert_eq!(w.entries[1].term, 2);
    let back = lreq__to_lreq(w).unwrap();
    assert_eq!(back.leader_id, ID);
    assert_eq!((back.term, back.log_length, back.log_term, back.leader_commit), (2, 1, 1, 1));
    assert_eq!(back.entries.len(), 2);
    assert_eq!(*back.entries[0].0, vec![1u8, 2, 3]);
    assert_eq!(back.entries[0].1, 1);
    assert!(back.entries[1].0.is_empty());
    let bad = raftservice::LogRequest { leader_id: None, term: 1, log_length: 0, log_term: 0, log_commit: 0, entries: vec![] };
    assert!(matches!(lreq__to_lreq(bad), Err(ConversionError::InvalidArgument)));
}
