use sraft::raft::application::{committed_effect, read_reply, request_effect, ApplicationActions, RequestEffect, ReturnVal};

#[test]
fn insert_is_stored_and_replicated() {
    let e = request_effect(&ApplicationActions::Insert("k".to_string(), "v".to_string()));
    match e {
        RequestEffect::WriteAndReplicate { key, value, reply } => {
            assert_eq!(key, "k");
            assert_eq!(value, "v");
            assert!(matches!(reply, ReturnVal::Inserted));
        }
        _ => panic!("an insert writes"),
    }
}

#[test]
fn get_reads_the_store() {
    match request_effect(&ApplicationActions::Get("k".to_string())) {
        RequestEffect::Read { key } => assert_eq!(key, "k"),
        _ => panic!("a get reads"),
    }
    match read_reply(Some(b"v".to_vec())) {
        ReturnVal::GetValue(Some(v)) => assert_eq!(v, b"v".to_vec()),
        _ => panic!("the value read is returned"),
    }
    assert!(matches!(read_reply(None), ReturnVal::GetValue(None)));
}

#[test]
fn delete_and_update_are_only_answered() {
    assert!(matches!(request_effect(&ApplicationActions::Delete("k".to_string())), RequestEffect::Reply(ReturnVal::Deleted)));
    assert!(matches!(
        request_effect(&ApplicationActions::Update("k".to_string(), "v".to_string())),
        RequestEffect::Reply(ReturnVal::Updated)
    ));
}

#[test]
fn committed_insert_is_stored_and_nothing_else() {
    assert_eq!(
        committed_effect(&ApplicationActions::Insert("a".to_string(), "b".to_string())),
        Some(("a".to_string(), "b".to_string()))
    );
    assert_eq!(committed_effect(&ApplicationActions::Get("a".to_string())), None);
    assert_eq!(committed_effect(&ApplicationActions::Delete("a".to_string())), None);
    assert_eq!(committed_effect(&ApplicationActions::Update("a".to_string(), "c".to_string())), None);
}
