//! Conversions between the node's messages and their wire form; node ids
//! travel as the 32 lower-case hexadecimal digits of their UUID.

use crate::raft::messages::{LogEntry, LogRequest, LogResponse, NodeId, VoteRequest, VoteResponse};
use crate::raft::raftservice;
use std::sync::Arc;
use vstd::prelude::*;

verus! {

/// A message on the wire that cannot be read.
#[derive(Debug, Clone, Copy, PartialEq, Eq, Structural)]
pub enum ConversionError {
    /// The node id is missing or is not a UUID.
    InvalidArgument,
}

/// `16` to the power `n`.
pub open spec fn pow16(n: nat) -> nat
    decreases n,
{
    if n == 0 { 1 } else { 16 * pow16((n - 1) as nat) }
}

/// The lower-case hexadecimal digit of a value below 16.
pub open spec fn hex_digit(d: int) -> char {
    if d < 10 { ('0' as int + d) as char } else { ('a' as int + d - 10) as char }
}

/// The `n` lowest hexadecimal digits of `v`, most significant first.
pub open spec fn hex_lower(v: nat, n: nat) -> Seq<char>
    decreases n,
{
    if n == 0 {
        Seq::empty()
    } else {
        hex_lower(v / 16, (n - 1) as nat).push(hex_digit((v % 16) as int))
    }
}

/// A UUID's simple form: its 32 hexadecimal digits, in lower case.
pub open spec fn simple_form(id: NodeId) -> Seq<char> {
    hex_lower(id as nat, 32)
}

/// Whether a character is a hexadecimal digit, in either case.
pub open spec fn is_hex_char(c: char) -> bool {
    ('0' <= c && c <= '9') || ('a' <= c && c <= 'f') || ('A' <= c && c <= 'F')
}

/// The value of a hexadecimal digit.
pub open spec fn hex_char_value(c: char) -> int {
    if '0' <= c && c <= '9' {
        c as int - '0' as int
    } else if 'a' <= c && c <= 'f' {
        c as int - 'a' as int + 10
    } else {
        c as int - 'A' as int + 10
    }
}

/// The value of a string of hexadecimal digits, most significant first.
pub open spec fn hex_value(s: Seq<char>) -> nat
    decreases s.len(),
{
    if s.len() == 0 {
        0
    } else {
        (hex_value(s.drop_last()) * 16 + hex_char_value(s.last())) as nat
    }
}

/// 32 hexadecimal digits, in any case: a UUID in simple form.
pub open spec fn is_simple_form(s: Seq<char>) -> bool {
    s.len() == 32 && forall|i: int| 0 <= i < 32 ==> is_hex_char(#[trigger] s[i])
}

/// 36 characters: hexadecimal digits in groups of 8, 4, 4, 4 and 12,
/// joined by hyphens.
pub open spec fn is_hyphenated_form(s: Seq<char>) -> bool {
    &&& s.len() == 36
    &&& forall|i: int|
        0 <= i < 36 ==> if i == 8 || i == 13 || i == 18 || i == 23 {
            s[i] == '-'
        } else {
            is_hex_char(#[trigger] s[i])
        }
}

/// The 32 digits of a hyphenated form.
pub open spec fn hyphenated_digits(s: Seq<char>) -> Seq<char> {
    s.subrange(0, 8) + s.subrange(9, 13) + s.subrange(14, 18) + s.subrange(19, 23) + s.subrange(24, 36)
}

/// The prefix of a UUID's URN form.
pub open spec fn urn_prefix() -> Seq<char> {
    seq!['u', 'r', 'n', ':', 'u', 'u', 'i', 'd', ':']
}

/// The UUID a text spells, as a 128-bit value: the simple form (32
/// hexadecimal digits), the hyphenated form, or `urn:uuid:` followed by
/// the hyphenated form, digits in either case; any other text is none.
pub open spec fn uuid_text_value(s: Seq<char>) -> Option<u128> {
    if is_simple_form(s) {
        Some(hex_value(s) as u128)
    } else if is_hyphenated_form(s) {
        Some(hex_value(hyphenated_digits(s)) as u128)
    } else if s.len() == 45 && s.subrange(0, 9) == urn_prefix() && is_hyphenated_form(s.subrange(9, 45)) {
        Some(hex_value(hyphenated_digits(s.subrange(9, 45))) as u128)
    } else {
        None
    }
}

/// `uuid::Uuid::from_str` on `s`, taken as its 128-bit value: the parser
/// reads exactly the simple, hyphenated and URN forms, digits in either
/// case, most significant first.
#[verifier::external_body]
fn parse_uuid(s: &str) -> (r: Option<u128>)
    ensures
        r == uuid_text_value(s@),
{
    match <uuid::Uuid as std::str::FromStr>::from_str(s) {
        Ok(u) => Some(u.as_u128()),
        Err(_) => None,
    }
}

/// `uuid::Uuid::to_simple().encode_lower`: the 32 lower-case hexadecimal
/// digits of the id, most significant first.
#[verifier::external_body]
fn format_uuid(id: NodeId) -> (r: String)
    ensures
        r@ == simple_form(id),
{
    uuid::Uuid::from_u128(id).to_simple().encode_lower(&mut uuid::Uuid::encode_buffer()).to_string()
}

/// The node id that a wire id holds: the UUID its text spells, and an
/// invalid argument where the id is missing or its text spells none.
pub open spec fn spec_wire_id(uuid: Option<raftservice::Uuid>) -> Result<NodeId, ConversionError> {
    match uuid {
        Some(u) => match uuid_text_value(u.data@) {
            Some(v) => Ok(v),
            None => Err(ConversionError::InvalidArgument),
        },
        None => Err(ConversionError::InvalidArgument),
    }
}

/// Reads an optional wire id: missing or unreadable ids are an invalid argument.
pub fn opt_uuid__to_uuid(uuid: Option<raftservice::Uuid>) -> (r: Result<NodeId, ConversionError>)
    ensures
        r == spec_wire_id(uuid),
{
    match uuid {
        Some(u) => match parse_uuid(u.data.as_str()) {
            Some(v) => Ok(v),
            None => Err(ConversionError::InvalidArgument),
        },
        None => Err(ConversionError::InvalidArgument),
    }
}

/// Reads a wire id that is present.
pub fn uuid__to_uuid(uuid: raftservice::Uuid) -> (r: Result<NodeId, ConversionError>)
    ensures
        r == spec_wire_id(Some(uuid)),
{
    opt_uuid__to_uuid(Some(uuid))
}

/// A node id in wire form: its simple form.
pub fn uuid_to_uuid_(uuid: NodeId) -> (r: raftservice::Uuid)
    ensures
        r.data@ == simple_form(uuid),
{
    raftservice::Uuid { data: format_uuid(uuid) }
}

/// Whether a wire id is the simple form of `id`.
pub open spec fn is_wire_id_of(w: Option<raftservice::Uuid>, id: NodeId) -> bool {
    w matches Some(u) && u.data@ == simple_form(id)
}

/// Whether `w` is the wire form of the log response `resp`.
pub open spec fn is_wire_log_response(w: raftservice::LogResponse, resp: LogResponse) -> bool {
    &&& is_wire_id_of(w.node_id, resp.node_id)
    &&& w.current_term == resp.current_term
    &&& w.ack == resp.ack
    &&& w.success == resp.success
}

/// The log response that a wire response holds.
pub open spec fn log_response_from_wire(w: raftservice::LogResponse) -> Result<LogResponse, ()> {
    match spec_wire_id(w.node_id) {
        Ok(id) => Ok(LogResponse { node_id: id, current_term: w.current_term, ack: w.ack, success: w.success }),
        Err(_) => Err(()),
    }
}

/// A log response in wire form.
pub fn log_resp_to_log_resp_(resp: LogResponse) -> (r: raftservice::LogResponse)
    ensures
        is_wire_log_response(r, resp),
{
    raftservice::LogResponse {
        node_id: Some(uuid_to_uuid_(resp.node_id)),
        current_term: resp.current_term,
        ack: resp.ack,
        success: resp.success,
    }
}

/// Reads a log response from the wire; fails where its node id does.
pub fn log_resp__to_log_resp(resp: raftservice::LogResponse) -> (r: Result<LogResponse, ()>)
    ensures
        r == log_response_from_wire(resp),
{
    let uuid = match opt_uuid__to_uuid(resp.node_id) {
        Ok(uuid) => uuid,
        Err(_) => return Err(()),
    };
    Ok(LogResponse::new(uuid, resp.current_term, resp.ack, resp.success))
}

/// Whether wire entries carry the bytes and terms of `entries`, in order.
pub open spec fn same_entries(wire: Seq<raftservice::CommitEntry>, entries: Seq<LogEntry>) -> bool {
    &&& wire.len() == entries.len()
    &&& forall|i: int| 0 <= i < wire.len() ==> (#[trigger] wire[i]).data@ == entries[i].0@ && wire[i].term == entries[i].1
}

/// Whether `w` is the wire form of the log request `req`.
pub open spec fn is_wire_log_request(w: raftservice::LogRequest, req: LogRequest) -> bool {
    &&& is_wire_id_of(w.leader_id, req.leader_id)
    &&& w.term == req.term
    &&& w.log_length == req.log_length
    &&& w.log_term == req.log_term
    &&& w.log_commit == req.leader_commit
    &&& same_entries(w.entries@, req.entries@)
}

/// Whether `req`, read from the wire request `w` whose leader id reads as
/// `leader_id`, carries its fields and the bytes and terms of its entries.
pub open spec fn is_read_log_request(w: raftservice::LogRequest, leader_id: NodeId, req: LogRequest) -> bool {
    &&& req.leader_id == leader_id
    &&& req.term == w.term
    &&& req.log_length == w.log_length
    &&& req.log_term == w.log_term
    &&& req.leader_commit == w.log_commit
    &&& same_entries(w.entries@, req.entries@)
}

/// A log request in wire form.
pub fn lreq_to_lreq_(req: LogRequest) -> (r: raftservice::LogRequest)
    ensures
        is_wire_log_request(r, req),
{
    let uuid_ = uuid_to_uuid_(req.leader_id);
    let mut entries: Vec<raftservice::CommitEntry> = Vec::new();
    let mut i: usize = 0;
    while i < req.entries.len()
        invariant
            i <= req.entries@.len(),
            same_entries(entries@, req.entries@.take(i as int)),
        decreases req.entries@.len() - i,
    {
        let e = &req.entries[i];
        let data: Vec<u8> = (*e.0).clone();
        proof {
            assert(data@ =~= e.0@);
        }
        entries.push(raftservice::CommitEntry { data, term: e.1 });
        i = i + 1;
    }
    proof {
        assert(req.entries@.take(i as int) =~= req.entries@);
    }
    raftservice::LogRequest {
        leader_id: Some(uuid_),
        term: req.term,
        log_length: req.log_length,
        log_term: req.log_term,
        log_commit: req.leader_commit,
        entries,
    }
}

/// Reads a log request from the wire: the leader id must be a UUID; each
/// entry's bytes become a shared command.
pub fn lreq__to_lreq(req: raftservice::LogRequest) -> (r: Result<LogRequest, ConversionError>)
    ensures
        match spec_wire_id(req.leader_id) {
            Ok(id) => r matches Ok(x) && is_read_log_request(req, id, x),
            Err(e) => r == Err::<LogRequest, ConversionError>(e),
        },
{
    let leader_id = match opt_uuid__to_uuid(req.leader_id) {
        Ok(uuid) => uuid,
        Err(e) => return Err(e),
    };
    let mut entries: Vec<LogEntry> = Vec::new();
    let mut i: usize = 0;
    while i < req.entries.len()
        invariant
            i <= req.entries@.len(),
            same_entries(req.entries@.take(i as int), entries@),
        decreases req.entries@.len() - i,
    {
        let e = &req.entries[i];
        let data: Vec<u8> = e.data.clone();
        proof {
            assert(data@ =~= e.data@);
        }
        entries.push((Arc::new(data), e.term));
        proof {
            assert(req.entries@.take(i + 1) =~= req.entries@.take(i as int).push(req.entries@[i as int]));
        }
        i = i + 1;
    }
    proof {
        assert(req.entries@.take(i as int) =~= req.entries@);
    }
    Ok(LogRequest::new(leader_id, req.term, req.log_length, req.log_term, req.log_commit, entries))
}

/// Whether `w` is the wire form of the vote request `vr`.
pub open spec fn is_wire_vote_request(w: raftservice::VoteRequest, vr: VoteRequest) -> bool {
    &&& is_wire_id_of(w.candidate_id, vr.0)
    &&& w.candidate_term == vr.1
    &&& w.candidate_log_length == vr.2
    &&& w.candidate_log_term == vr.3
}

/// The vote request that a wire request holds.
pub open spec fn vote_request_from_wire(w: raftservice::VoteRequest) -> Result<VoteRequest, ConversionError> {
    match spec_wire_id(w.candidate_id) {
        Ok(id) => Ok(VoteRequest(id, w.candidate_term, w.candidate_log_length, w.candidate_log_term)),
        Err(e) => Err(e),
    }
}

/// A vote request in wire form.
pub fn vote_req_to_vote_req_(vr: VoteRequest) -> (r: raftservice::VoteRequest)
    ensures
        is_wire_vote_request(r, vr),
{
    let uuid = uuid_to_uuid_(vr.0);
    raftservice::VoteRequest {
        candidate_id: Some(uuid),
        candidate_term: vr.1,
        candidate_log_length: vr.2,
        candidate_log_term: vr.3,
    }
}

/// Reads a vote request from the wire; fails where the candidate id does.
pub fn vote_req__to_vote_req(vr: raftservice::VoteRequest) -> (r: Result<VoteRequest, ConversionError>)
    ensures
        r == vote_request_from_wire(vr),
{
    let uuid = match opt_uuid__to_uuid(vr.candidate_id) {
        Ok(uuid) => uuid,
        Err(e) => return Err(e),
    };
    Ok(VoteRequest(uuid, vr.candidate_term, vr.candidate_log_length, vr.candidate_log_term))
}

/// Whether `w` is the wire form of the vote response `vr`.
pub open spec fn is_wire_vote_response(w: raftservice::VoteResponse, vr: VoteResponse) -> bool {
    &&& is_wire_id_of(w.voter_id, vr.0)
    &&& w.term == vr.1
    &&& w.granted == vr.2
}

/// The vote response that a wire response holds.
pub open spec fn vote_response_from_wire(w: raftservice::VoteResponse) -> Result<VoteResponse, ()> {
    match spec_wire_id(w.voter_id) {
        Ok(id) => Ok(VoteResponse(id, w.term, w.granted)),
        Err(_) => Err(()),
    }
}

/// A vote response in wire form.
pub fn vote_resp_to_vote_resp_(vr: VoteResponse) -> (r: raftservice::VoteResponse)
    ensures
        is_wire_vote_response(r, vr),
{
    raftservice::VoteResponse { voter_id: Some(uuid_to_uuid_(vr.0)), term: vr.1, granted: vr.2 }
}

/// Reads a vote response from the wire; fails where the voter id does.
pub fn vote_resp__to_vote_resp(vr: raftservice::VoteResponse) -> (r: Result<VoteResponse, ()>)
    ensures
        r == vote_response_from_wire(vr),
{
    let uuid = match opt_uuid__to_uuid(vr.voter_id) {
        Ok(uuid) => uuid,
        Err(_) => return Err(()),
    };
    Ok(VoteResponse(uuid, vr.term, vr.granted))
}

// ----- Laws ----------------------------------------------------------------

/// The simple form of a value has `n` hexadecimal digits and reads back as
/// the value modulo `16^n`.
pub proof fn lemma_hex_lower_reads_back(v: nat, n: nat)
    ensures
        hex_lower(v, n).len() == n,
        forall|i: int| 0 <= i < n ==> is_hex_char(#[trigger] hex_lower(v, n)[i]),
        hex_value(hex_lower(v, n)) == v % pow16(n),
    decreases n,
{
    if n == 0 {
        assert(v % 1 == 0);
    } else {
        let m = (n - 1) as nat;
        lemma_hex_lower_reads_back(v / 16, m);
        let s = hex_lower(v, n);
        assert(s.drop_last() =~= hex_lower(v / 16, m));
        assert(s.last() == hex_digit((v % 16) as int));
        assert(hex_char_value(hex_digit((v % 16) as int)) == v % 16);
        assert forall|i: int| 0 <= i < n implies is_hex_char(#[trigger] hex_lower(v, n)[i]) by {
            if i < m {
                assert(hex_lower(v, n)[i] == hex_lower(v / 16, m)[i]);
            }
        }
        assert(pow16(n) == 16 * pow16(m));
        assert(pow16(m) > 0) by {
            lemma_pow16_positive(m);
        }
        vstd::arithmetic::div_mod::lemma_mod_breakdown(v as int, 16, pow16(m) as int);
    }
}

/// Powers of 16 are positive.
pub proof fn lemma_pow16_positive(n: nat)
    ensures
        pow16(n) > 0,
    decreases n,
{
    if n > 0 {
        lemma_pow16_positive((n - 1) as nat);
    }
}

/// A node id's simple form is a simple form, and reads back as the id.
pub proof fn lemma_simple_form_reads_back(id: NodeId)
    ensures
        is_simple_form(simple_form(id)),
        hex_value(simple_form(id)) == id,
{
    lemma_hex_lower_reads_back(id as nat, 32);
    assert(pow16(32) == 0x1_0000_0000_0000_0000_0000_0000_0000_0000) by {
        reveal_with_fuel(pow16, 33);
    }
}

/// Reading a node id's wire form gives back the id.
pub proof fn lemma_wire_id_roundtrip(w: Option<raftservice::Uuid>, id: NodeId)
    requires
        is_wire_id_of(w, id),
    ensures
        spec_wire_id(w) == Ok::<NodeId, ConversionError>(id),
{
    lemma_simple_form_reads_back(id);
}

/// Reading a log response's wire form gives back the response.
pub proof fn lemma_log_response_roundtrip(w: raftservice::LogResponse, resp: LogResponse)
    requires
        is_wire_log_response(w, resp),
    ensures
        log_response_from_wire(w) == Ok::<LogResponse, ()>(resp),
{
    lemma_wire_id_roundtrip(w.node_id, resp.node_id);
}

/// Reading a vote request's wire form gives back the request.
pub proof fn lemma_vote_request_roundtrip(w: raftservice::VoteRequest, vr: VoteRequest)
    requires
        is_wire_vote_request(w, vr),
    ensures
        vote_request_from_wire(w) == Ok::<VoteRequest, ConversionError>(vr),
{
    lemma_wire_id_roundtrip(w.candidate_id, vr.0);
}

/// Reading a vote response's wire form gives back the response.
pub proof fn lemma_vote_response_roundtrip(w: raftservice::VoteResponse, vr: VoteResponse)
    requires
        is_wire_vote_response(w, vr),
    ensures
        vote_response_from_wire(w) == Ok::<VoteResponse, ()>(vr),
{
    lemma_wire_id_roundtrip(w.voter_id, vr.0);
}

/// Reading a log request's wire form gives back its leader and fields, and
/// entries with the same bytes and terms.
pub proof fn lemma_log_request_roundtrip(w: raftservice::LogRequest, req: LogRequest, back: LogRequest)
    requires
        is_wire_log_request(w, req),
        is_read_log_request(w, req.leader_id, back),
    ensures
        spec_wire_id(w.leader_id) == Ok::<NodeId, ConversionError>(req.leader_id),
        back.leader_id == req.leader_id,
        back.term == req.term,
        back.log_length == req.log_length,
        back.log_term == req.log_term,
        back.leader_commit == req.leader_commit,
        back.entries@.len() == req.entries@.len(),
        forall|i: int| 0 <= i < req.entries@.len() ==> (#[trigger] back.entries@[i]).0@ == req.entries@[i].0@
            && back.entries@[i].1 == req.entries@[i].1,
{
    lemma_wire_id_roundtrip(w.leader_id, req.leader_id);
    assert forall|i: int| 0 <= i < req.entries@.len() implies (#[trigger] back.entries@[i]).0@ == req.entries@[i].0@
        && back.entries@[i].1 == req.entries@[i].1 by {
        assert(w.entries@[i].data@ == req.entries@[i].0@);
        assert(w.entries@[i].data@ == back.entries@[i].0@);
    }
}

} // verus!
