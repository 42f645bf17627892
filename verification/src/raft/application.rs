//! The key-value front end: what a client request and a committed command
//! do to the local store and to the replicated log.

use vstd::prelude::*;

verus! {

/// A client request to the key-value store.
#[derive(Debug, Clone)]
pub enum ApplicationActions {
    Insert(String, String),
    Get(String),
    Delete(String),
    Update(String, String),
}

/// The answer to a client request.
#[derive(Debug, Clone)]
pub enum ReturnVal {
    GetValue(Option<Vec<u8>>),
    Deleted,
    Updated,
    Inserted,
}

/// What serving a client request takes.
#[derive(Debug, Clone)]
pub enum RequestEffect {
    /// Store the pair, replicate the request, and answer with `reply`.
    WriteAndReplicate { key: String, value: String, reply: ReturnVal },
    /// Read the key and answer with what the store holds.
    Read { key: String },
    /// Answer at once.
    Reply(ReturnVal),
}

/// What serving a client request takes: an insert is stored and replicated,
/// a get reads the store, and a delete or an update is only answered.
pub fn request_effect(msg: &ApplicationActions) -> (r: RequestEffect)
    ensures
        match *msg {
            ApplicationActions::Insert(k, v) => r matches RequestEffect::WriteAndReplicate { key, value, reply } && key@ == k@
                && value@ == v@ && reply is Inserted,
            ApplicationActions::Get(k) => r matches RequestEffect::Read { key } && key@ == k@,
            ApplicationActions::Delete(_) => r matches RequestEffect::Reply(ReturnVal::Deleted),
            ApplicationActions::Update(_, _) => r matches RequestEffect::Reply(ReturnVal::Updated),
        },
{
    match msg {
        ApplicationActions::Insert(k, v) => RequestEffect::WriteAndReplicate {
            key: k.clone(),
            value: v.clone(),
            reply: ReturnVal::Inserted,
        },
        ApplicationActions::Get(k) => RequestEffect::Read { key: k.clone() },
        ApplicationActions::Delete(_) => RequestEffect::Reply(ReturnVal::Deleted),
        ApplicationActions::Update(_, _) => RequestEffect::Reply(ReturnVal::Updated),
    }
}

/// The answer to a request that read `value` from the store.
pub fn read_reply(value: Option<Vec<u8>>) -> (r: ReturnVal)
    ensures
        r matches ReturnVal::GetValue(v) && v == value,
{
    ReturnVal::GetValue(value)
}

/// What a committed command does to the local store: an insert stores its
/// pair; the other requests change nothing.
pub fn committed_effect(msg: &ApplicationActions) -> (r: Option<(String, String)>)
    ensures
        match *msg {
            ApplicationActions::Insert(k, v) => r matches Some(p) && p.0@ == k@ && p.1@ == v@,
            _ => r is None,
        },
{
    match msg {
        ApplicationActions::Insert(k, v) => Some((k.clone(), v.clone())),
        _ => None,
    }
}

} // verus!
