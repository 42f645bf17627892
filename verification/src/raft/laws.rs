//! What holds of every event a node handles: terms and commits never go
//! back, a node votes once per term, only a candidate holding votes from a
//! strict majority of the cluster takes the lead, a leader only appends to
//! its log, and every handled event keeps the node's invariant. Besides,
//! what each handler decides, stated over its inputs: when a vote is
//! granted, what a timeout asks, when a log request is accepted and what it
//! leaves in the log, what a leader sends a follower, and when and what a
//! leader commits.

use crate::raft::actions::ActionView;
use crate::raft::messages::{BroadcastMsg, LogRequestView, LogResponse, NodeId, ReplicateLog, VoteRequest, VoteResponse};
use crate::raft::model::{
    accepts_log_request, appended_log, broadcast_state, commit_state, crash_step, follower_of, log_request_ok,
    lemma_push_contains, log_request_reply, strictly_increasing, log_request_state, log_response_state, lemma_max_ready_bound, others, is_majority,
    replicate_log_ok, set_all, timeout_state, vote_log_ok, vote_request_reply,
    vote_request_state, vote_response_state, wf, acknowledged, RaftView, log_request_actions, log_response_actions,
    replicate_log_actions, timeout_actions, ready_prefix, acks, commit_actions, log_request_for, replicate_actions,
    vote_response_actions, broadcast_actions, replicate_all_actions,
};
use crate::raft::state::Role;
use vstd::prelude::*;

verus! {

/// An event that changes what a node holds, as its content.
pub enum Event {
    Crash,
    Timeout,
    VoteRequest(VoteRequest),
    VoteResponse(VoteResponse),
    Broadcast(BroadcastMsg),
    ReplicateLog(ReplicateLog),
    ReplicateAll,
    LogRequest(LogRequestView),
    LogResponse(LogResponse),
}

/// The events that a node handles to completion in state `s`.
pub open spec fn can_handle(s: RaftView, e: Event) -> bool {
    match e {
        Event::Timeout => s.current_term < u64::MAX,
        Event::Broadcast(_) => s.log.len() < usize::MAX,
        Event::ReplicateLog(m) => replicate_log_ok(s, m),
        Event::LogRequest(m) => log_request_ok(s, m) && m.log_length + m.entries.len() <= usize::MAX,
        _ => true,
    }
}

/// The state after a node handled an event.
pub open spec fn next_state(s: RaftView, e: Event) -> RaftView {
    match e {
        Event::Crash => crash_step(s),
        Event::Timeout => timeout_state(s),
        Event::VoteRequest(m) => vote_request_state(s, m),
        Event::VoteResponse(m) => vote_response_state(s, m),
        Event::Broadcast(m) => broadcast_state(s, m),
        Event::ReplicateLog(_) => s,
        Event::ReplicateAll => s,
        Event::LogRequest(m) => log_request_state(s, m),
        Event::LogResponse(m) => log_response_state(s, m),
    }
}

/// A node's term never goes back.
pub proof fn lemma_term_never_decreases(s: RaftView, e: Event)
    requires
        wf(s),
        can_handle(s, e),
    ensures
        next_state(s, e).current_term >= s.current_term,
{
    if let Event::LogResponse(m) = e {
        if m.current_term == s.current_term && s.current_role == Role::Leader && m.success && m.ack >= crate::raft::model::get_or_zero(s.acked_length, m.node_id) {
            assert(commit_state(acknowledged(s, m)).current_term == s.current_term);
        }
    }
}

/// A node's commit length never goes back.
pub proof fn lemma_commit_never_decreases(s: RaftView, e: Event)
    requires
        wf(s),
        can_handle(s, e),
    ensures
        next_state(s, e).commit_length >= s.commit_length,
{
    lemma_max_ready_bound(s, s.log.len() as int);
    if let Event::LogResponse(m) = e {
        let a = acknowledged(s, m);
        lemma_max_ready_bound(a, a.log.len() as int);
    }
}

/// Within one term a node votes for one candidate at most: a vote once cast
/// stays as long as the term does.
pub proof fn lemma_one_vote_per_term(s: RaftView, e: Event, candidate: NodeId)
    requires
        wf(s),
        can_handle(s, e),
        s.voted_for == Some(candidate),
        next_state(s, e).current_term == s.current_term,
    ensures
        next_state(s, e).voted_for == Some(candidate),
{
}

/// A granted vote goes to a candidate of a term no older than the node's,
/// whose log is at least as up to date; the node records the vote and
/// adopts the candidate's term, and answers with that term.
pub proof fn lemma_granted_vote(s: RaftView, m: VoteRequest)
    requires
        wf(s),
        vote_request_reply(s, m).2,
    ensures
        m.1 >= s.current_term,
        vote_log_ok(s, m),
        vote_request_state(s, m).voted_for == Some(m.0),
        vote_request_state(s, m).current_term == m.1,
        vote_request_reply(s, m).1 == m.1,
{
}

/// A refused vote request changes nothing, and is answered with the
/// node's term.
pub proof fn lemma_refused_vote(s: RaftView, m: VoteRequest)
    requires
        wf(s),
        !vote_request_reply(s, m).2,
    ensures
        vote_request_state(s, m) == s,
        vote_request_reply(s, m) == VoteResponse(s.node_id, s.current_term, false),
{
}

/// A reply to a vote request or a log request carries the term the node
/// holds once it handled the request.
pub proof fn lemma_replies_carry_new_term(s: RaftView, v: VoteRequest, l: LogRequestView)
    requires
        wf(s),
    ensures
        vote_request_reply(s, v).1 == vote_request_state(s, v).current_term,
        log_request_reply(s, l).current_term == log_request_state(s, l).current_term,
{
}

/// A refused log request changes neither the log nor the commit length, and
/// is answered with failure and no acknowledgement.
pub proof fn lemma_refused_log_request(s: RaftView, l: LogRequestView)
    requires
        wf(s),
        !accepts_log_request(s, l),
    ensures
        log_request_state(s, l).log == s.log,
        log_request_state(s, l).commit_length == s.commit_length,
        !log_request_reply(s, l).success,
        log_request_reply(s, l).ack == 0,
{
}

/// An accepted log request makes the node a follower of the sender in the
/// request's term, keeps the prefix it builds on, leaves the log at least as
/// long as that prefix and the entries, and is acknowledged up to there.
pub proof fn lemma_accepted_log_request(s: RaftView, l: LogRequestView)
    requires
        wf(s),
        log_request_ok(s, l),
        l.log_length + l.entries.len() <= usize::MAX,
        accepts_log_request(s, l),
    ensures
        log_request_state(s, l).current_role == Role::Follower,
        log_request_state(s, l).current_leader == Some(l.leader_id),
        log_request_state(s, l).current_term == l.term,
        log_request_reply(s, l).success,
        log_request_reply(s, l).ack == l.log_length + l.entries.len(),
        log_request_state(s, l).log.subrange(0, l.log_length as int) == s.log.subrange(0, l.log_length as int),
        log_request_state(s, l).log.len() >= l.log_length + l.entries.len(),
{
}

/// A node takes the lead only as a candidate that, with the vote just
/// counted, holds votes from a strict majority of the cluster; it then
/// names itself the leader.
pub proof fn lemma_leadership_needs_majority(s: RaftView, e: Event)
    requires
        wf(s),
        can_handle(s, e),
        s.current_role != Role::Leader,
        next_state(s, e).current_role == Role::Leader,
    ensures
        e is VoteResponse,
        s.current_role == Role::Candidate,
        is_majority(s, next_state(s, e).votes_received.len() as int),
        next_state(s, e).current_leader == Some(s.node_id),
        next_state(s, e).current_term == s.current_term,
{
}

/// A leader only appends to its log: whatever it handles but a log request,
/// its old log stays a prefix of its new one.
pub proof fn lemma_leader_appends_only(s: RaftView, e: Event)
    requires
        wf(s),
        can_handle(s, e),
        s.current_role == Role::Leader,
        !(e is LogRequest),
    ensures
        s.log.is_prefix_of(next_state(s, e).log),
{
    if let Event::Broadcast(m) = e {
        assert(next_state(s, e).log == s.log.push((m.data, s.current_term)));
        assert(next_state(s, e).log.subrange(0, s.log.len() as int) =~= s.log);
    } else {
        assert(next_state(s, e).log.subrange(0, s.log.len() as int) =~= s.log);
    }
}

/// A leader sends its log to exactly the other nodes it knows, each once,
/// and never to itself.
pub proof fn lemma_followers_are_the_others(nodes: Seq<NodeId>, me: NodeId, x: NodeId)
    ensures
        others(nodes, me).contains(x) <==> (nodes.contains(x) && x != me),
        strictly_increasing(nodes) ==> strictly_increasing(others(nodes, me)),
    decreases nodes.len(),
{
    if nodes.len() > 0 {
        let init = nodes.drop_last();
        lemma_followers_are_the_others(init, me, x);
        lemma_push_contains(init, nodes.last(), x);
        lemma_push_contains(others(init, me), nodes.last(), x);
        assert(init.push(nodes.last()) =~= nodes);
        if strictly_increasing(nodes) {
            assert(strictly_increasing(init));
            let o = others(init, me);
            assert forall|k: int| 0 <= k < o.len() implies #[trigger] o[k] < nodes.last() by {
                lemma_followers_are_the_others(init, me, o[k]);
                assert(o.contains(o[k]));
                let j = choose|j: int| 0 <= j < init.len() && init[j] == o[k];
                assert(nodes[j] == init[j]);
            }
        }
    }
}

/// A crash twice is a crash once.
pub proof fn lemma_crash_idempotent(s: RaftView)
    ensures
        crash_step(crash_step(s)) == crash_step(s),
{
}

/// The keys set by `set_all` are a finite set.
proof fn lemma_set_all_finite(m: Map<NodeId, u64>, keys: Seq<NodeId>, v: u64)
    requires
        m.dom().finite(),
    ensures
        set_all(m, keys, v).dom().finite(),
{
    let added = Map::new(|k: NodeId| keys.contains(k), |k: NodeId| v);
    assert(added.dom() =~= keys.to_set());
    vstd::seq_lib::seq_to_set_is_finite(keys);
    assert(set_all(m, keys, v).dom() =~= m.dom().union(added.dom()));
}

/// Every event a node handles keeps its invariant.
pub proof fn lemma_invariant_kept(s: RaftView, e: Event)
    requires
        wf(s),
        can_handle(s, e),
    ensures
        wf(next_state(s, e)),
{
    match e {
        Event::Timeout => {
            assert(Set::<NodeId>::empty().insert(s.node_id).finite());
        },
        Event::VoteResponse(m) => {
            let followers = others(s.nodes, s.node_id);
            lemma_set_all_finite(s.sent_length, followers, s.log.len() as u64);
            lemma_set_all_finite(s.acked_length, followers, 0);
        },
        _ => {},
    }
}

/// The term of the last entry of a log, or 0 for an empty log.
pub open spec fn term_of_last(log: Seq<crate::raft::messages::LogEntry>) -> u64 {
    if log.len() > 0 { log[log.len() - 1].1 } else { 0 }
}

/// On a timeout a node stands in the next term: it becomes a candidate,
/// votes for itself, and asks every node it knows, in order, for a vote
/// with its new term, the full length of its log and the term of its last
/// entry.
pub proof fn lemma_timeout_asks_with_whole_log(s: RaftView)
    requires
        wf(s),
        s.current_term < u64::MAX,
    ensures
        timeout_state(s).current_term == s.current_term + 1,
        timeout_state(s).current_role == Role::Candidate,
        timeout_state(s).voted_for == Some(s.node_id),
        timeout_state(s).log == s.log,
        timeout_actions(s).len() == s.nodes.len(),
        forall|i: int| 0 <= i < s.nodes.len() ==> #[trigger] timeout_actions(s)[i] == (ActionView::SendVoteRequest {
            to: s.nodes[i],
            vote: VoteRequest(s.node_id, (s.current_term + 1) as u64, s.log.len() as u64, term_of_last(s.log)),
        }),
{
}

/// A vote is granted exactly when the candidate's term is newer, or equal
/// with the vote still free or already the candidate's, and the candidate's
/// log is at least as up to date: its last term is newer, or equal with a
/// log at least as long. The reply names the voter and the term it holds.
pub proof fn lemma_vote_granted_iff_up_to_date(s: RaftView, m: VoteRequest)
    requires
        wf(s),
    ensures
        vote_request_reply(s, m).2 <==> ((m.1 > s.current_term || (m.1 == s.current_term && (s.voted_for == None::<NodeId>
            || s.voted_for == Some(m.0)))) && (m.3 > term_of_last(s.log) || (m.3 == term_of_last(s.log) && m.2
            >= s.log.len()))),
        vote_request_reply(s, m).0 == s.node_id,
        vote_request_reply(s, m).1 == vote_request_state(s, m).current_term,
        vote_request_state(s, m).log == s.log,
{
}

/// A candidate whose last log term is newer than the voter's last entry,
/// asking in a newer term, gets the vote, whatever the length of its log.
pub proof fn lemma_newer_last_term_wins_vote(s: RaftView, m: VoteRequest)
    requires
        wf(s),
        m.1 > s.current_term,
        m.3 > term_of_last(s.log),
    ensures
        vote_request_reply(s, m) == VoteResponse(s.node_id, m.1, true),
        vote_request_state(s, m).voted_for == Some(m.0),
        vote_request_state(s, m).current_term == m.1,
{
}

/// A log request is accepted exactly when it comes in a term no older than
/// the node's and the node's log holds the prefix it builds on: at least
/// `log_length` entries, the last of them of term `log_term`. A refused
/// request leaves the log and the commit length as they were, is not
/// acknowledged, and delivers nothing.
pub proof fn lemma_log_request_needs_matching_prefix(s: RaftView, l: LogRequestView)
    requires
        wf(s),
    ensures
        log_request_reply(s, l).success <==> (l.term >= s.current_term && l.log_length <= s.log.len() && (
        l.log_length == 0 || l.log_term == s.log[l.log_length - 1].1)),
        log_request_reply(s, l).node_id == s.node_id,
        !log_request_reply(s, l).success ==> (log_request_state(s, l).log == s.log && log_request_state(s, l).commit_length
            == s.commit_length && log_request_reply(s, l).ack == 0 && log_request_actions(s, l) == Seq::<ActionView>::empty()),
{
}

/// What an accepted log request leaves in the log: the prefix it builds on
/// is kept; every entry after it is one the node held there or the
/// request's entry for that place; the request's entries reach past the old
/// end of the log; a first entry whose term conflicts with the one held at
/// its place replaces the rest of the log by the request's entries. The
/// commit length rises to the leader's, and the commands newly committed
/// are delivered in order, taken from the new log.
pub proof fn lemma_accepted_log_request_contents(s: RaftView, l: LogRequestView)
    requires
        wf(s),
        log_request_ok(s, l),
        l.log_length + l.entries.len() <= usize::MAX,
        log_request_reply(s, l).success,
    ensures
        log_request_state(s, l).log.take(l.log_length as int) == s.log.take(l.log_length as int),
        log_request_state(s, l).log.len() >= l.log_length + l.entries.len(),
        forall|k: int|
            l.log_length <= k < log_request_state(s, l).log.len() ==> (k < s.log.len() && #[trigger] log_request_state(s, l).log[k]
                == s.log[k]) || (k - l.log_length < l.entries.len() && log_request_state(s, l).log[k] == l.entries[k - l.log_length]),
        forall|j: int|
            0 <= j < l.entries.len() && l.log_length + j >= s.log.len() ==> #[trigger] log_request_state(s, l).log[l.log_length + j]
                == l.entries[j],
        (l.entries.len() > 0 && s.log.len() > l.log_length && s.log[l.log_length as int].1 != l.entries[0].1)
            ==> log_request_state(s, l).log == s.log.take(l.log_length as int) + l.entries,
        log_request_reply(s, l).ack == l.log_length + l.entries.len(),
        log_request_state(s, l).commit_length == (if l.leader_commit > s.commit_length { l.leader_commit } else { s.commit_length }),
        l.leader_commit > s.commit_length ==> log_request_actions(s, l).len() == l.leader_commit - s.commit_length,
        forall|j: int|
            0 <= j < log_request_actions(s, l).len() ==> #[trigger] log_request_actions(s, l)[j] == ActionView::Deliver(
                log_request_state(s, l).log[s.commit_length + j].0,
            ),
        l.leader_commit <= s.commit_length ==> log_request_actions(s, l).len() == 0,
{
    let n = log_request_state(s, l).log;
    let ll = l.log_length as int;
    if l.entries.len() > 0 && s.log.len() > ll && s.log[ll].1 != l.entries[0].1 {
        assert(n =~= s.log.take(ll) + l.entries);
    }
    assert(n.take(ll) =~= s.log.take(ll));
}

/// Whether a strict majority of the cluster, the nodes `s` knows and `s`
/// itself, acknowledged at least `len` entries in `acked`.
pub open spec fn majority_holds(s: RaftView, acked: Map<NodeId, u64>, len: int) -> bool {
    2 * acked.dom().filter(|k: NodeId| acked[k] >= len).len() > s.nodes.to_set().insert(s.node_id).len()
}

/// The prefix a leader commits is the longest one a strict majority holds:
/// it holds a majority, and no longer prefix does.
proof fn lemma_ready_prefix_longest(s: RaftView, n: int)
    requires
        n >= 0,
    ensures
        0 <= ready_prefix(s, n) <= n,
        ready_prefix(s, n) > 0 ==> majority_holds(s, s.acked_length, ready_prefix(s, n)),
        forall|len: int| ready_prefix(s, n) < len <= n ==> !majority_holds(s, s.acked_length, len),
    decreases n,
{
    if n > 0 {
        lemma_ready_prefix_longest(s, n - 1);
    }
}

/// A leader commits only on an acknowledgement of its term, and only the
/// longest prefix that a strict majority of the cluster holds, where the
/// last entry of that prefix is of the leader's current term; it then
/// delivers exactly the newly committed commands, in order. Where the
/// commit length stays, nothing is delivered. Where that longest prefix
/// reaches beyond the commit length and ends in an entry of the current
/// term, it is committed.
pub proof fn lemma_commit_needs_current_term_majority(s: RaftView, m: LogResponse)
    requires
        wf(s),
    ensures
        log_response_state(s, m).commit_length != s.commit_length ==> {
            let c = log_response_state(s, m).commit_length;
            &&& s.current_role == Role::Leader
            &&& m.current_term == s.current_term
            &&& m.success
            &&& log_response_state(s, m).current_term == s.current_term
            &&& log_response_state(s, m).log == s.log
            &&& s.commit_length < c <= s.log.len()
            &&& s.log[c - 1].1 == s.current_term
            &&& majority_holds(s, log_response_state(s, m).acked_length, c as int)
            &&& (forall|len: int| c < len <= s.log.len() ==> !majority_holds(s, log_response_state(s, m).acked_length, len))
            &&& log_response_actions(s, m).len() == c - s.commit_length
            &&& (forall|j: int| 0 <= j < log_response_actions(s, m).len() ==> #[trigger] log_response_actions(s, m)[j]
                == ActionView::Deliver(s.log[s.commit_length + j].0))
        },
        log_response_state(s, m).commit_length == s.commit_length ==> (forall|j: int|
            0 <= j < log_response_actions(s, m).len() ==> !(#[trigger] log_response_actions(s, m)[j] is Deliver)),
        (s.current_role == Role::Leader && m.current_term == s.current_term && m.success && m.ack >= (if s.acked_length.contains_key(m.node_id) {
            s.acked_length[m.node_id]
        } else {
            0
        })) ==> (forall|len: int|
            s.commit_length < len <= s.log.len() && s.log[len - 1].1 == s.current_term && #[trigger] majority_holds(
                s,
                s.acked_length.insert(m.node_id, m.ack),
                len,
            ) && (forall|l2: int| len < l2 <= s.log.len() ==> !majority_holds(s, s.acked_length.insert(m.node_id, m.ack), l2))
                ==> log_response_state(s, m).commit_length == len),
{
    let a = acknowledged(s, m);
    lemma_ready_prefix_longest(a, a.log.len() as int);
    assert forall|len: int|
        #![trigger majority_holds(a, a.acked_length, len)]
        #![trigger majority_holds(s, a.acked_length, len)]
        majority_holds(a, a.acked_length, len) == majority_holds(s, a.acked_length, len) by {}
    if crate::raft::model::log_response_counts(s, m) && crate::raft::model::log_response_advances(s, m) {
        let r = ready_prefix(a, a.log.len() as int);
        assert forall|len: int|
            s.commit_length < len <= s.log.len() && s.log[len - 1].1 == s.current_term && #[trigger] majority_holds(
                s,
                s.acked_length.insert(m.node_id, m.ack),
                len,
            ) && (forall|l2: int| len < l2 <= s.log.len() ==> !majority_holds(s, s.acked_length.insert(m.node_id, m.ack), l2))
            implies log_response_state(s, m).commit_length == len by {
            assert(a.acked_length == s.acked_length.insert(m.node_id, m.ack));
            assert(majority_holds(a, a.acked_length, len));
            if r < len {
                assert(!majority_holds(a, a.acked_length, len));
            }
            if r > len {
                assert(majority_holds(a, a.acked_length, r));
                assert(!majority_holds(s, s.acked_length.insert(m.node_id, m.ack), r));
            }
        }
    }
}

/// The log request a leader sends a follower carries the leader's term and
/// commit length and the prefix length it believes the follower holds; that
/// prefix of the leader's log followed by the request's entries is the
/// leader's whole log, and the request names the term of the prefix's last
/// entry (0 for an empty prefix).
pub proof fn lemma_log_request_carries_leader_log(s: RaftView, r: ReplicateLog)
    requires
        wf(s),
        replicate_log_ok(s, r),
        s.nodes.contains(r.follower_id),
    ensures
        replicate_log_actions(s, r) == seq![ActionView::SendLogRequest { to: r.follower_id, request: log_request_for(s, r) }],
        log_request_for(s, r).leader_id == r.leader_id,
        log_request_for(s, r).term == s.current_term,
        log_request_for(s, r).leader_commit == s.commit_length,
        log_request_for(s, r).log_length == (if s.sent_length.contains_key(r.follower_id) {
            s.sent_length[r.follower_id]
        } else {
            0
        }),
        s.log.take(log_request_for(s, r).log_length as int) + log_request_for(s, r).entries == s.log,
        log_request_for(s, r).log_length > 0 ==> log_request_for(s, r).log_term == s.log[log_request_for(s, r).log_length - 1].1,
        log_request_for(s, r).log_length == 0 ==> log_request_for(s, r).log_term == 0,
{
    let q = log_request_for(s, r);
    assert(s.log.take(q.log_length as int) + q.entries =~= s.log);
}

/// A follower of a term no newer than the leader's that holds the leader's
/// log up to the prefix the leader believes it has accepts the leader's
/// request; one that holds exactly that prefix then holds the leader's log.
pub proof fn lemma_follower_holding_prefix_accepts(leader: RaftView, r: ReplicateLog, f: RaftView)
    requires
        wf(leader),
        wf(f),
        replicate_log_ok(leader, r),
        f.current_term <= leader.current_term,
        f.log.len() >= log_request_for(leader, r).log_length,
        f.log.take(log_request_for(leader, r).log_length as int) == leader.log.take(
            log_request_for(leader, r).log_length as int,
        ),
    ensures
        log_request_reply(f, log_request_for(leader, r)).success,
        f.log.len() == log_request_for(leader, r).log_length && log_request_ok(f, log_request_for(leader, r))
            ==> log_request_state(f, log_request_for(leader, r)).log == leader.log,
{
    let q = log_request_for(leader, r);
    let i = q.log_length as int;
    if i > 0 {
        assert(f.log[i - 1] == f.log.take(i)[i - 1]);
        assert(leader.log[i - 1] == leader.log.take(i)[i - 1]);
    }
    if f.log.len() == i {
        assert(f.log =~= f.log.take(i));
        assert(f.log + q.entries =~= leader.log);
    }
}

/// Whether `acts` sends the log, from `s`, to each node `s` knows other than
/// itself: one `ReplicateLog` per such node, in increasing order of id, and
/// nothing else.
pub open spec fn sends_log_to_each_other_node(acts: Seq<ActionView>, s: RaftView) -> bool {
    &&& forall|i: int|
        0 <= i < acts.len() ==> (#[trigger] acts[i] matches ActionView::ReplicateLog(r) && r.leader_id == s.node_id
            && r.follower_id != s.node_id && s.nodes.contains(r.follower_id))
    &&& forall|i: int, j: int|
        0 <= i < j < acts.len() ==> (#[trigger] acts[i] matches ActionView::ReplicateLog(a) && (#[trigger] acts[j] matches ActionView::ReplicateLog(
            b,
        ) && a.follower_id < b.follower_id))
    &&& forall|x: NodeId|
        s.nodes.contains(x) && x != s.node_id ==> exists|i: int|
            0 <= i < acts.len() && (#[trigger] acts[i] matches ActionView::ReplicateLog(r) && r.follower_id == x)
}

/// The actions that replicate to the other known nodes do so, each once,
/// in order.
proof fn lemma_replicate_actions_reach_others(s: RaftView)
    requires
        wf(s),
    ensures
        sends_log_to_each_other_node(replicate_actions(others(s.nodes, s.node_id), s.node_id), s),
{
    let o = others(s.nodes, s.node_id);
    let acts = replicate_actions(o, s.node_id);
    lemma_followers_are_the_others(s.nodes, s.node_id, s.node_id);
    assert forall|i: int| 0 <= i < acts.len() implies (#[trigger] acts[i] matches ActionView::ReplicateLog(r) && r.leader_id
        == s.node_id && r.follower_id != s.node_id && s.nodes.contains(r.follower_id)) by {
        assert(o.contains(o[i]));
        lemma_followers_are_the_others(s.nodes, s.node_id, o[i]);
    }
    assert forall|x: NodeId| s.nodes.contains(x) && x != s.node_id implies exists|i: int|
        0 <= i < acts.len() && (#[trigger] acts[i] matches ActionView::ReplicateLog(r) && r.follower_id == x) by {
        lemma_followers_are_the_others(s.nodes, s.node_id, x);
        let i = choose|i: int| 0 <= i < o.len() && o[i] == x;
        assert(acts[i] matches ActionView::ReplicateLog(r) && r.follower_id == x);
    }
}

/// A candidate that is granted a vote of its term, and with it holds votes
/// from a strict majority of the cluster, takes the lead: it believes every
/// other known node holds its whole log and has acknowledged nothing, and
/// sends its log to each of them. Short of a majority it only counts the
/// vote. A reply of a newer term makes the node a follower of that term with
/// no vote cast; any other reply changes nothing.
pub proof fn lemma_vote_response_outcomes(s: RaftView, m: VoteResponse)
    requires
        wf(s),
    ensures
        (s.current_role == Role::Candidate && m.1 == s.current_term && m.2) ==> {
            let n = vote_response_state(s, m);
            let votes = s.votes_received.insert(m.0);
            &&& n.votes_received == votes
            &&& n.current_term == s.current_term
            &&& n.log == s.log
            &&& (2 * votes.len() > s.nodes.to_set().insert(s.node_id).len() ==> {
                &&& n.current_role == Role::Leader
                &&& n.current_leader == Some(s.node_id)
                &&& (forall|x: NodeId| s.nodes.contains(x) && x != s.node_id ==> n.sent_length.contains_key(x)
                    && #[trigger] n.sent_length[x] == s.log.len() && n.acked_length.contains_key(x) && n.acked_length[x]
                    == 0)
                &&& (forall|x: NodeId| !(s.nodes.contains(x) && x != s.node_id) ==> (#[trigger] n.sent_length.contains_key(x)
                    == s.sent_length.contains_key(x) && n.acked_length.contains_key(x) == s.acked_length.contains_key(x)
                    && (s.sent_length.contains_key(x) ==> n.sent_length[x] == s.sent_length[x]) && (s.acked_length.contains_key(x)
                    ==> n.acked_length[x] == s.acked_length[x])))
                &&& sends_log_to_each_other_node(vote_response_actions(s, m), s)
            })
            &&& (2 * votes.len() <= s.nodes.to_set().insert(s.node_id).len() ==> {
                &&& n.current_role == Role::Candidate
                &&& vote_response_actions(s, m).len() == 0
            })
        },
        !(s.current_role == Role::Candidate && m.1 == s.current_term && m.2) ==> vote_response_actions(s, m).len() == 0,
        !(s.current_role == Role::Candidate && m.1 == s.current_term && m.2) && m.1 > s.current_term ==> vote_response_state(
            s,
            m,
        ) == (RaftView { current_term: m.1, current_role: Role::Follower, voted_for: None, ..s }),
        !(s.current_role == Role::Candidate && m.1 == s.current_term && m.2) && m.1 <= s.current_term ==> vote_response_state(
            s,
            m,
        ) == s,
{
    if s.current_role == Role::Candidate && m.1 == s.current_term && m.2 {
        let n = vote_response_state(s, m);
        let o = others(s.nodes, s.node_id);
        if 2 * s.votes_received.insert(m.0).len() > s.nodes.to_set().insert(s.node_id).len() {
            lemma_replicate_actions_reach_others(s);
            assert forall|x: NodeId| s.nodes.contains(x) && x != s.node_id implies n.sent_length.contains_key(x)
                && #[trigger] n.sent_length[x] == s.log.len() && n.acked_length.contains_key(x) && n.acked_length[x] == 0 by {
                lemma_followers_are_the_others(s.nodes, s.node_id, x);
            }
            assert forall|x: NodeId| !(s.nodes.contains(x) && x != s.node_id) implies (#[trigger] n.sent_length.contains_key(x)
                == s.sent_length.contains_key(x) && n.acked_length.contains_key(x) == s.acked_length.contains_key(x)
                && (s.sent_length.contains_key(x) ==> n.sent_length[x] == s.sent_length[x]) && (s.acked_length.contains_key(x)
                ==> n.acked_length[x] == s.acked_length[x])) by {
                lemma_followers_are_the_others(s.nodes, s.node_id, x);
            }
        }
    }
}

/// A leader appends a client's command, in its current term, as the one new
/// last entry of its log, counts itself as holding the whole log, and sends
/// its log to each other known node. Another node keeps its state; it
/// passes the command to the leader it knows, or asks to crash where it
/// knows none among its nodes.
pub proof fn lemma_broadcast_outcomes(s: RaftView, m: BroadcastMsg)
    requires
        wf(s),
        s.log.len() < usize::MAX,
    ensures
        s.current_role == Role::Leader ==> {
            let n = broadcast_state(s, m);
            &&& n.log.len() == s.log.len() + 1
            &&& n.log.take(s.log.len() as int) == s.log
            &&& n.log[s.log.len() as int] == (m.data, s.current_term)
            &&& n.acked_length.contains_key(s.node_id) && n.acked_length[s.node_id] == s.log.len() + 1
            &&& n.commit_length == s.commit_length
            &&& n.current_term == s.current_term
            &&& sends_log_to_each_other_node(broadcast_actions(s, m), s)
        },
        s.current_role != Role::Leader ==> {
            &&& broadcast_state(s, m) == s
            &&& (s.current_leader matches Some(id) ==> (s.nodes.contains(id) ==> broadcast_actions(s, m) == seq![
                ActionView::ForwardBroadcast { to: id, msg: m },
            ]) && (!s.nodes.contains(id) ==> broadcast_actions(s, m) == seq![ActionView::Crash]))
            &&& (s.current_leader is None ==> broadcast_actions(s, m) == seq![ActionView::Crash])
        },
{
    if s.current_role == Role::Leader {
        lemma_replicate_actions_reach_others(s);
        assert(broadcast_state(s, m).log.take(s.log.len() as int) =~= s.log);
    }
}

/// A leader that is refused by a follower in its term, or told of an
/// acknowledgement that goes back, steps back one entry for that follower
/// where it can and sends again; its acknowledgements and commit stay. A
/// reply of a newer term makes the node a follower of that term with no
/// vote cast.
pub proof fn lemma_log_response_refusal(s: RaftView, m: LogResponse)
    requires
        wf(s),
    ensures
        (s.current_role == Role::Leader && m.current_term == s.current_term && !(m.success && m.ack >= (if s.acked_length.contains_key(m.node_id) {
            s.acked_length[m.node_id]
        } else {
            0
        }))) ==> {
            let n = log_response_state(s, m);
            &&& n.acked_length == s.acked_length
            &&& n.commit_length == s.commit_length
            &&& n.log == s.log
            &&& (s.sent_length.contains_key(m.node_id) && s.sent_length[m.node_id] > 0) ==> {
                &&& n.sent_length == s.sent_length.insert(m.node_id, (s.sent_length[m.node_id] - 1) as u64)
                &&& log_response_actions(s, m) == seq![ActionView::ReplicateLog(ReplicateLog { leader_id: s.node_id, follower_id: m.node_id })]
            }
            &&& !(s.sent_length.contains_key(m.node_id) && s.sent_length[m.node_id] > 0) ==> {
                &&& n == s
                &&& log_response_actions(s, m).len() == 0
            }
        },
        !(s.current_role == Role::Leader && m.current_term == s.current_term) && m.current_term > s.current_term ==> {
            &&& log_response_state(s, m) == (RaftView { current_term: m.current_term, current_role: Role::Follower, voted_for: None, ..s })
            &&& log_response_actions(s, m).len() == 0
        },
        !(s.current_role == Role::Leader && m.current_term == s.current_term) && m.current_term <= s.current_term ==> {
            &&& log_response_state(s, m) == s
            &&& log_response_actions(s, m).len() == 0
        },
{
}

/// A leader asked to replicate to all sends its log to each other known
/// node; another node does nothing.
pub proof fn lemma_replicate_all_outcomes(s: RaftView)
    requires
        wf(s),
    ensures
        s.current_role == Role::Leader ==> sends_log_to_each_other_node(replicate_all_actions(s), s),
        s.current_role != Role::Leader ==> replicate_all_actions(s).len() == 0,
{
    if s.current_role == Role::Leader {
        lemma_replicate_actions_reach_others(s);
    }
}

/// A leader asked to send its log to a node it does not know asks to
/// crash instead.
pub proof fn lemma_replicate_to_unknown_node(s: RaftView, r: ReplicateLog)
    requires
        wf(s),
        !s.nodes.contains(r.follower_id),
    ensures
        replicate_log_actions(s, r) == seq![ActionView::Crash],
{
}

/// After a crash a node keeps its term, its vote, its log, its commit
/// length and the nodes it knows, and is a follower that knows no leader,
/// holds no votes and keeps no replication progress.
pub proof fn lemma_crash_keeps_durable_state(s: RaftView)
    ensures
        crash_step(s).current_term == s.current_term,
        crash_step(s).voted_for == s.voted_for,
        crash_step(s).log == s.log,
        crash_step(s).commit_length == s.commit_length,
        crash_step(s).nodes == s.nodes,
        crash_step(s).node_id == s.node_id,
        crash_step(s).current_role == Role::Follower,
        crash_step(s).current_leader == None::<NodeId>,
        crash_step(s).votes_received == Set::<NodeId>::empty(),
        crash_step(s).sent_length == Map::<NodeId, u64>::empty(),
        crash_step(s).acked_length == Map::<NodeId, u64>::empty(),
{
}

/// A log request of an older term is refused and changes nothing. One of a
/// newer term makes the node adopt that term with no vote cast. One of a
/// term no older than the node's makes it a follower of the sender,
/// whether or not its log holds the prefix.
pub proof fn lemma_log_request_terms(s: RaftView, l: LogRequestView)
    requires
        wf(s),
    ensures
        l.term < s.current_term ==> log_request_state(s, l) == s && !log_request_reply(s, l).success
            && log_request_reply(s, l).current_term == s.current_term,
        l.term > s.current_term ==> log_request_state(s, l).current_term == l.term && log_request_state(s, l).voted_for
            == None::<NodeId>,
        l.term == s.current_term ==> log_request_state(s, l).current_term == s.current_term && log_request_state(
            s,
            l,
        ).voted_for == s.voted_for,
        l.term >= s.current_term ==> log_request_state(s, l).current_role == Role::Follower && log_request_state(
            s,
            l,
        ).current_leader == Some(l.leader_id) && log_request_reply(s, l).current_term == l.term,
{
}

} // verus!
