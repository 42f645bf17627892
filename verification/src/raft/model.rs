//! The abstract node: what each event does to a node's state, stated over
//! sequences, sets and maps.

use crate::raft::actions::ActionView;
use crate::raft::messages::{
    BroadcastMsg, LogEntry, LogRequestView, LogResponse, NodeId, ReplicateLog, VoteRequest, VoteResponse,
};
use crate::raft::state::Role;
use vstd::prelude::*;

verus! {

/// The abstract state of one node.
pub struct RaftView {
    pub current_term: u64,
    pub voted_for: Option<NodeId>,
    pub log: Seq<LogEntry>,
    pub commit_length: u64,
    pub current_role: Role,
    pub current_leader: Option<NodeId>,
    pub votes_received: Set<NodeId>,
    pub sent_length: Map<NodeId, u64>,
    pub acked_length: Map<NodeId, u64>,
    pub node_id: NodeId,
    /// The other nodes this node knows, in increasing order of id.
    pub nodes: Seq<NodeId>,
}

/// Strictly increasing: sorted, and no id twice.
pub open spec fn strictly_increasing(s: Seq<NodeId>) -> bool {
    forall|i: int, j: int| 0 <= i < j < s.len() ==> s[i] < s[j]
}

/// The ids of a set in increasing order, each once.
pub open spec fn sorted_ids(s: Set<NodeId>) -> Seq<NodeId> {
    choose|q: Seq<NodeId>| strictly_increasing(q) && q.to_set() == s
}

/// Two strictly increasing sequences that hold the same ids are equal.
pub proof fn lemma_increasing_unique(a: Seq<NodeId>, b: Seq<NodeId>)
    requires
        strictly_increasing(a),
        strictly_increasing(b),
        a.to_set() == b.to_set(),
    ensures
        a == b,
    decreases a.len(),
{
    if a.len() == 0 {
        if b.len() > 0 {
            assert(b.to_set().contains(b[0]));
        }
        assert(b =~= a);
    } else if b.len() == 0 {
        assert(a.to_set().contains(a[0]));
    } else {
        let x = a.last();
        let y = b.last();
        assert(a.to_set().contains(x));
        assert(b.to_set().contains(y));
        let i = choose|i: int| 0 <= i < b.len() && b[i] == x;
        let j = choose|j: int| 0 <= j < a.len() && a[j] == y;
        assert(x <= y);
        assert(y <= x);
        let a2 = a.drop_last();
        let b2 = b.drop_last();
        assert forall|z: NodeId| a2.to_set().contains(z) <==> b2.to_set().contains(z) by {
            if a2.to_set().contains(z) {
                let k = choose|k: int| 0 <= k < a2.len() && a2[k] == z;
                assert(a.to_set().contains(z));
                assert(z < x);
                let l = choose|l: int| 0 <= l < b.len() && b[l] == z;
                assert(l != b.len() - 1);
                assert(b2[l] == z);
            }
            if b2.to_set().contains(z) {
                let k = choose|k: int| 0 <= k < b2.len() && b2[k] == z;
                assert(b.to_set().contains(z));
                assert(z < y);
                let l = choose|l: int| 0 <= l < a.len() && a[l] == z;
                assert(l != a.len() - 1);
                assert(a2[l] == z);
            }
        }
        assert(a2.to_set() =~= b2.to_set());
        lemma_increasing_unique(a2, b2);
        assert(a =~= a2.push(x));
        assert(b =~= b2.push(y));
    }
}

/// A strictly increasing sequence is the ordered form of the set it holds.
pub proof fn lemma_sorted_ids(s: Set<NodeId>, q: Seq<NodeId>)
    requires
        strictly_increasing(q),
        q.to_set() == s,
    ensures
        sorted_ids(s) == q,
        s.finite(),
        s.len() == q.len(),
{
    let r = sorted_ids(s);
    assert(strictly_increasing(r) && r.to_set() == s);
    lemma_increasing_unique(r, q);
    assert(q.no_duplicates()) by {
        assert forall|i: int, j: int| 0 <= i < q.len() && 0 <= j < q.len() && i != j implies q[i] != q[j] by {
            if i < j {
                assert(q[i] < q[j]);
            } else {
                assert(q[j] < q[i]);
            }
        }
    }
    q.unique_seq_to_set();
    vstd::seq_lib::seq_to_set_is_finite(q);
}

/// What every reachable state satisfies.
pub open spec fn wf(s: RaftView) -> bool {
    &&& strictly_increasing(s.nodes)
    &&& s.log.len() <= usize::MAX
    &&& s.votes_received.finite()
    &&& s.sent_length.dom().finite()
    &&& s.acked_length.dom().finite()
    &&& (s.current_role == Role::Leader ==> s.current_leader == Some(s.node_id))
    &&& (s.current_role == Role::Candidate ==> s.votes_received.contains(s.node_id))
}

/// The state a node starts in.
pub open spec fn initial(node_id: NodeId) -> RaftView {
    RaftView {
        current_term: 0,
        voted_for: None,
        log: Seq::empty(),
        commit_length: 0,
        current_role: Role::Follower,
        current_leader: None,
        votes_received: Set::empty(),
        sent_length: Map::empty(),
        acked_length: Map::empty(),
        node_id,
        nodes: Seq::empty(),
    }
}

/// The term of the last log entry, or 0 for an empty log.
pub open spec fn last_log_term(log: Seq<LogEntry>) -> u64 {
    if log.len() > 0 { log.last().1 } else { 0 }
}

/// The value a map holds for a key, or 0 where it holds none.
pub open spec fn get_or_zero(m: Map<NodeId, u64>, k: NodeId) -> u64 {
    if m.contains_key(k) { m[k] } else { 0 }
}

/// The nodes of `nodes` other than `me`, in their order.
pub open spec fn others(nodes: Seq<NodeId>, me: NodeId) -> Seq<NodeId>
    decreases nodes.len(),
{
    if nodes.len() == 0 {
        Seq::empty()
    } else {
        let rest = others(nodes.drop_last(), me);
        if nodes.last() != me { rest.push(nodes.last()) } else { rest }
    }
}

/// `m` with every key of `keys` mapped to `v`.
pub open spec fn set_all(m: Map<NodeId, u64>, keys: Seq<NodeId>, v: u64) -> Map<NodeId, u64> {
    m.union_prefer_right(Map::new(|k: NodeId| keys.contains(k), |k: NodeId| v))
}

/// A `ReplicateLog` for this node, one per follower, in order.
pub open spec fn replicate_actions(followers: Seq<NodeId>, me: NodeId) -> Seq<ActionView> {
    followers.map_values(|u: NodeId| ActionView::ReplicateLog(ReplicateLog { leader_id: me, follower_id: u }))
}

/// The same vote request, sent to every node in order.
pub open spec fn vote_request_actions(nodes: Seq<NodeId>, req: VoteRequest) -> Seq<ActionView> {
    nodes.map_values(|u: NodeId| ActionView::SendVoteRequest { to: u, vote: req })
}

/// The commands of `entries[from..to]` handed to the application, in order
/// (nothing where `from >= to`).
pub open spec fn deliveries(entries: Seq<LogEntry>, from: int, to: int) -> Seq<ActionView> {
    if from < to {
        Seq::new((to - from) as nat, |j: int| ActionView::Deliver(entries[from + j].0))
    } else {
        Seq::empty()
    }
}

/// Taking one more node of `nodes` extends `others` by that node, unless it is `me`.
pub proof fn lemma_others_take(nodes: Seq<NodeId>, me: NodeId, i: int)
    requires
        0 <= i < nodes.len(),
    ensures
        others(nodes.take(i + 1), me) == (if nodes[i] != me {
            others(nodes.take(i), me).push(nodes[i])
        } else {
            others(nodes.take(i), me)
        }),
{
    assert(nodes.take(i + 1).drop_last() =~= nodes.take(i));
}

/// What a sequence with one more element contains.
pub proof fn lemma_push_contains(keys: Seq<NodeId>, k: NodeId, x: NodeId)
    ensures
        keys.push(k).contains(x) <==> (keys.contains(x) || x == k),
{
    if keys.push(k).contains(x) {
        let j = choose|j: int| 0 <= j < keys.push(k).len() && keys.push(k)[j] == x;
        if j < keys.len() {
            assert(keys[j] == x);
        }
    }
    if keys.contains(x) {
        let j = choose|j: int| 0 <= j < keys.len() && keys[j] == x;
        assert(keys.push(k)[j] == x);
    }
    if x == k {
        assert(keys.push(k)[keys.len() as int] == x);
    }
}

/// Setting one more key is inserting it.
pub proof fn lemma_set_all_push(m: Map<NodeId, u64>, keys: Seq<NodeId>, k: NodeId, v: u64)
    ensures
        set_all(m, keys.push(k), v) == set_all(m, keys, v).insert(k, v),
{
    let lhs = set_all(m, keys.push(k), v);
    let rhs = set_all(m, keys, v).insert(k, v);
    assert forall|x: NodeId| #[trigger] lhs.contains_key(x) <==> rhs.contains_key(x) by {
        lemma_push_contains(keys, k, x);
    }
    assert forall|x: NodeId| #[trigger] lhs.contains_key(x) implies lhs[x] == rhs[x] by {
        lemma_push_contains(keys, k, x);
    }
    assert(lhs =~= rhs);
}

/// Setting no key leaves the map as it is.
pub proof fn lemma_set_all_empty(m: Map<NodeId, u64>, v: u64)
    ensures
        set_all(m, Seq::empty(), v) == m,
{
    assert(set_all(m, Seq::empty(), v) =~= m);
}

// ----- Crash ---------------------------------------------------------------

pub open spec fn crash_step(s: RaftView) -> RaftView {
    RaftView {
        current_role: Role::Follower,
        current_leader: None,
        votes_received: Set::empty(),
        sent_length: Map::empty(),
        acked_length: Map::empty(),
        ..s
    }
}

// ----- Timeout -------------------------------------------------------------

/// The vote request that a timeout sends, in the state after the timeout.
pub open spec fn candidacy_request(s: RaftView) -> VoteRequest {
    VoteRequest(s.node_id, s.current_term, s.log.len() as u64, last_log_term(s.log))
}

pub open spec fn timeout_state(s: RaftView) -> RaftView {
    RaftView {
        current_term: (s.current_term + 1) as u64,
        current_role: Role::Candidate,
        voted_for: Some(s.node_id),
        votes_received: Set::empty().insert(s.node_id),
        ..s
    }
}

pub open spec fn timeout_actions(s: RaftView) -> Seq<ActionView> {
    vote_request_actions(s.nodes, candidacy_request(timeout_state(s)))
}

// ----- VoteRequest ---------------------------------------------------------

pub open spec fn vote_log_ok(s: RaftView, msg: VoteRequest) -> bool {
    let my_log_term = last_log_term(s.log);
    msg.3 > my_log_term || (msg.3 == my_log_term && msg.2 >= s.log.len())
}

pub open spec fn vote_term_ok(s: RaftView, msg: VoteRequest) -> bool {
    msg.1 > s.current_term || (msg.1 == s.current_term && (s.voted_for == Some(msg.0)
        || s.voted_for is None))
}

pub open spec fn grants_vote(s: RaftView, msg: VoteRequest) -> bool {
    vote_term_ok(s, msg) && vote_log_ok(s, msg)
}

pub open spec fn vote_request_state(s: RaftView, msg: VoteRequest) -> RaftView {
    if grants_vote(s, msg) {
        RaftView { current_term: msg.1, current_role: Role::Follower, voted_for: Some(msg.0), ..s }
    } else {
        s
    }
}

pub open spec fn vote_request_reply(s: RaftView, msg: VoteRequest) -> VoteResponse {
    if grants_vote(s, msg) {
        VoteResponse(s.node_id, msg.1, true)
    } else {
        VoteResponse(s.node_id, s.current_term, false)
    }
}

// ----- VoteResponse --------------------------------------------------------

/// The cluster as a node sees it: the nodes it knows and itself.
pub open spec fn members(s: RaftView) -> Set<NodeId> {
    s.nodes.to_set().insert(s.node_id)
}

/// How many nodes the cluster has, as a node sees it.
pub open spec fn cluster_size(s: RaftView) -> int {
    members(s).len() as int
}

/// With no id twice among the known nodes, the cluster has one node more
/// than it knows, unless it knows itself.
pub proof fn lemma_cluster_size(s: RaftView)
    requires
        strictly_increasing(s.nodes),
    ensures
        cluster_size(s) == if s.nodes.contains(s.node_id) { s.nodes.len() as int } else { s.nodes.len() + 1 as int },
{
    assert(s.nodes.no_duplicates()) by {
        assert forall|i: int, j: int| 0 <= i < s.nodes.len() && 0 <= j < s.nodes.len() && i != j implies s.nodes[i] != s.nodes[j] by {
            if i < j {
                assert(s.nodes[i] < s.nodes[j]);
            } else {
                assert(s.nodes[j] < s.nodes[i]);
            }
        }
    }
    s.nodes.unique_seq_to_set();
    vstd::seq_lib::seq_to_set_is_finite(s.nodes);
}

/// Whether `count` nodes are a strict majority of the cluster.
pub open spec fn is_majority(s: RaftView, count: int) -> bool {
    2 * count > cluster_size(s)
}

pub open spec fn counts_vote(s: RaftView, msg: VoteResponse) -> bool {
    s.current_role == Role::Candidate && s.current_term == msg.1 && msg.2
}

pub open spec fn wins_election(s: RaftView, msg: VoteResponse) -> bool {
    counts_vote(s, msg) && is_majority(s, s.votes_received.insert(msg.0).len() as int)
}

pub open spec fn vote_response_state(s: RaftView, msg: VoteResponse) -> RaftView {
    if counts_vote(s, msg) {
        let votes = s.votes_received.insert(msg.0);
        if is_majority(s, votes.len() as int) {
            let followers = others(s.nodes, s.node_id);
            RaftView {
                votes_received: votes,
                current_role: Role::Leader,
                current_leader: Some(s.node_id),
                sent_length: set_all(s.sent_length, followers, s.log.len() as u64),
                acked_length: set_all(s.acked_length, followers, 0),
                ..s
            }
        } else {
            RaftView { votes_received: votes, ..s }
        }
    } else if msg.1 > s.current_term {
        RaftView { current_term: msg.1, current_role: Role::Follower, voted_for: None, ..s }
    } else {
        s
    }
}

pub open spec fn vote_response_actions(s: RaftView, msg: VoteResponse) -> Seq<ActionView> {
    if wins_election(s, msg) {
        replicate_actions(others(s.nodes, s.node_id), s.node_id)
    } else {
        Seq::empty()
    }
}

// ----- BroadcastMsg --------------------------------------------------------

pub open spec fn broadcast_state(s: RaftView, msg: BroadcastMsg) -> RaftView {
    if s.current_role == Role::Leader {
        let log = s.log.push((msg.data, s.current_term));
        RaftView { log, acked_length: s.acked_length.insert(s.node_id, log.len() as u64), ..s }
    } else {
        s
    }
}

pub open spec fn broadcast_actions(s: RaftView, msg: BroadcastMsg) -> Seq<ActionView> {
    if s.current_role == Role::Leader {
        replicate_actions(others(s.nodes, s.node_id), s.node_id)
    } else {
        match s.current_leader {
            Some(id) => if s.nodes.contains(id) {
                seq![ActionView::ForwardBroadcast { to: id, msg }]
            } else {
                seq![ActionView::Crash]
            },
            None => seq![ActionView::Crash],
        }
    }
}

// ----- ReplicateLog --------------------------------------------------------

/// Whether the leader's log holds the prefix it believes the follower has;
/// otherwise reading the term before it would fail.
pub open spec fn replicate_log_ok(s: RaftView, msg: ReplicateLog) -> bool {
    get_or_zero(s.sent_length, msg.follower_id) <= s.log.len()
}

/// The log request a leader sends a follower: what follows the prefix that
/// it believes the follower has.
pub open spec fn log_request_for(s: RaftView, msg: ReplicateLog) -> LogRequestView {
    let i = get_or_zero(s.sent_length, msg.follower_id);
    LogRequestView {
        leader_id: msg.leader_id,
        term: s.current_term,
        log_length: i,
        log_term: if i > 0 { s.log[i - 1].1 } else { 0 },
        leader_commit: s.commit_length,
        entries: s.log.subrange(i as int, s.log.len() as int),
    }
}

pub open spec fn replicate_log_actions(s: RaftView, msg: ReplicateLog) -> Seq<ActionView> {
    if s.nodes.contains(msg.follower_id) {
        seq![ActionView::SendLogRequest { to: msg.follower_id, request: log_request_for(s, msg) }]
    } else {
        seq![ActionView::Crash]
    }
}

// ----- ReplicateLogAllExcept -----------------------------------------------

pub open spec fn replicate_all_actions(s: RaftView) -> Seq<ActionView> {
    if s.current_role == Role::Leader {
        replicate_actions(others(s.nodes, s.node_id), s.node_id)
    } else {
        Seq::empty()
    }
}

// ----- Appending entries ---------------------------------------------------

/// The log after the conflict check: cut back to the prefix where the
/// first new entry's term differs from the entry at its place.
pub open spec fn truncated_log(log: Seq<LogEntry>, log_length: u64, entries: Seq<LogEntry>) -> Seq<LogEntry> {
    if entries.len() > 0 && log.len() > log_length && log[log_length as int].1 != entries[0].1 {
        log.take(log_length as int)
    } else {
        log
    }
}

/// The log after the new entries were appended: those of them beyond the
/// end of the (cut) log.
pub open spec fn appended_log(log: Seq<LogEntry>, log_length: u64, entries: Seq<LogEntry>) -> Seq<LogEntry> {
    let log1 = truncated_log(log, log_length, entries);
    if log_length + entries.len() > log1.len() {
        log1 + entries.subrange(log1.len() - log_length, entries.len() as int)
    } else {
        log1
    }
}

/// The inputs on which appending completes: the log reaches the prefix,
/// and the committed range lies within the new log.
pub open spec fn append_ok(log: Seq<LogEntry>, commit_length: u64, log_length: u64, leader_commit: u64, entries: Seq<LogEntry>) -> bool {
    &&& log.len() >= log_length
    &&& (leader_commit > commit_length ==> leader_commit <= appended_log(log, log_length, entries).len())
}

pub open spec fn append_state(s: RaftView, log_length: u64, leader_commit: u64, entries: Seq<LogEntry>) -> RaftView {
    RaftView {
        log: appended_log(s.log, log_length, entries),
        commit_length: if leader_commit > s.commit_length { leader_commit } else { s.commit_length },
        ..s
    }
}

/// The newly committed commands of the new log, in order.
pub open spec fn append_actions(s: RaftView, log_length: u64, leader_commit: u64, entries: Seq<LogEntry>) -> Seq<ActionView> {
    if leader_commit > s.commit_length {
        deliveries(appended_log(s.log, log_length, entries), s.commit_length as int, leader_commit as int)
    } else {
        Seq::empty()
    }
}

// ----- LogRequest ----------------------------------------------------------

/// The state once a newer term in a log request was adopted.
pub open spec fn log_request_term_state(s: RaftView, msg: LogRequestView) -> RaftView {
    if msg.term > s.current_term {
        RaftView { current_term: msg.term, voted_for: None, ..s }
    } else {
        s
    }
}

/// Whether a request of the node's term comes from the leader of that
/// term, whom the node then follows.
pub open spec fn from_current_leader(s: RaftView, msg: LogRequestView) -> bool {
    msg.term >= s.current_term
}

/// The follower's state once it heard from the leader of its term.
pub open spec fn follower_of(s: RaftView, msg: LogRequestView) -> RaftView {
    if from_current_leader(s, msg) {
        RaftView {
            current_role: Role::Follower,
            current_leader: Some(msg.leader_id),
            ..log_request_term_state(s, msg)
        }
    } else {
        s
    }
}

/// Whether the log holds the prefix the request builds on: at least
/// `log_length` entries, the last of them of term `log_term`.
pub open spec fn log_request_log_ok(s: RaftView, msg: LogRequestView) -> bool {
    s.log.len() >= msg.log_length && (msg.log_length == 0 || msg.log_term == s.log[msg.log_length - 1].1)
}

pub open spec fn accepts_log_request(s: RaftView, msg: LogRequestView) -> bool {
    from_current_leader(s, msg) && log_request_log_ok(s, msg)
}

/// The inputs of a log request that a node handles to completion: where it
/// is accepted, the committed range lies within the new log.
pub open spec fn log_request_ok(s: RaftView, msg: LogRequestView) -> bool {
    accepts_log_request(s, msg) ==> append_ok(s.log, s.commit_length, msg.log_length, msg.leader_commit, msg.entries)
}

pub open spec fn log_request_state(s: RaftView, msg: LogRequestView) -> RaftView {
    if accepts_log_request(s, msg) {
        append_state(follower_of(s, msg), msg.log_length, msg.leader_commit, msg.entries)
    } else {
        follower_of(s, msg)
    }
}

pub open spec fn log_request_reply(s: RaftView, msg: LogRequestView) -> LogResponse {
    let s1 = log_request_state(s, msg);
    if accepts_log_request(s, msg) {
        LogResponse {
            node_id: s.node_id,
            current_term: s1.current_term,
            ack: (msg.log_length + msg.entries.len()) as u64,
            success: true,
        }
    } else {
        LogResponse { node_id: s.node_id, current_term: s1.current_term, ack: 0, success: false }
    }
}

pub open spec fn log_request_actions(s: RaftView, msg: LogRequestView) -> Seq<ActionView> {
    if accepts_log_request(s, msg) {
        append_actions(follower_of(s, msg), msg.log_length, msg.leader_commit, msg.entries)
    } else {
        Seq::empty()
    }
}

// ----- Committing ----------------------------------------------------------

/// How many nodes have acknowledged at least `length` entries.
pub open spec fn acks(acked: Map<NodeId, u64>, length: int) -> nat {
    acked.dom().filter(|k: NodeId| acked[k] >= length).len()
}

/// The longest prefix length in `1..=n` that a strict majority of the
/// cluster acknowledged, or 0.
pub open spec fn ready_prefix(s: RaftView, n: int) -> int
    decreases n,
{
    if n <= 0 {
        0
    } else if is_majority(s, acks(s.acked_length, n) as int) {
        n
    } else {
        ready_prefix(s, n - 1)
    }
}

/// The prefix found is no longer than `n`.
pub proof fn lemma_max_ready_bound(s: RaftView, n: int)
    ensures
        0 <= ready_prefix(s, n),
        n >= 0 ==> ready_prefix(s, n) <= n,
    decreases n,
{
    if n > 0 {
        lemma_max_ready_bound(s, n - 1);
    }
}

pub open spec fn ready_length(s: RaftView) -> int {
    ready_prefix(s, s.log.len() as int)
}

pub open spec fn commits(s: RaftView) -> bool {
    let m = ready_length(s);
    m > 0 && m > s.commit_length && s.log[m - 1].1 == s.current_term
}

pub open spec fn commit_state(s: RaftView) -> RaftView {
    if commits(s) {
        RaftView { commit_length: ready_length(s) as u64, ..s }
    } else {
        s
    }
}

pub open spec fn commit_actions(s: RaftView) -> Seq<ActionView> {
    if commits(s) {
        deliveries(s.log, s.commit_length as int, ready_length(s))
    } else {
        Seq::empty()
    }
}

// ----- LogResponse ---------------------------------------------------------

pub open spec fn log_response_counts(s: RaftView, msg: LogResponse) -> bool {
    msg.current_term == s.current_term && s.current_role == Role::Leader
}

pub open spec fn log_response_advances(s: RaftView, msg: LogResponse) -> bool {
    msg.success && msg.ack >= get_or_zero(s.acked_length, msg.node_id)
}

/// The leader's state once it recorded a follower's acknowledgement.
pub open spec fn acknowledged(s: RaftView, msg: LogResponse) -> RaftView {
    RaftView {
        sent_length: s.sent_length.insert(msg.node_id, msg.ack),
        acked_length: s.acked_length.insert(msg.node_id, msg.ack),
        ..s
    }
}

pub open spec fn log_response_state(s: RaftView, msg: LogResponse) -> RaftView {
    if log_response_counts(s, msg) {
        if log_response_advances(s, msg) {
            commit_state(acknowledged(s, msg))
        } else if get_or_zero(s.sent_length, msg.node_id) > 0 {
            RaftView {
                sent_length: s.sent_length.insert(msg.node_id, (s.sent_length[msg.node_id] - 1) as u64),
                ..s
            }
        } else {
            s
        }
    } else if msg.current_term > s.current_term {
        RaftView { current_term: msg.current_term, current_role: Role::Follower, voted_for: None, ..s }
    } else {
        s
    }
}

pub open spec fn log_response_actions(s: RaftView, msg: LogResponse) -> Seq<ActionView> {
    if log_response_counts(s, msg) {
        if log_response_advances(s, msg) {
            commit_actions(acknowledged(s, msg))
        } else if get_or_zero(s.sent_length, msg.node_id) > 0 {
            seq![ActionView::ReplicateLog(ReplicateLog { leader_id: s.node_id, follower_id: msg.node_id })]
        } else {
            Seq::empty()
        }
    } else {
        Seq::empty()
    }
}

// ----- NotifyUUID ----------------------------------------------------------

/// The state after a node became known: its id joins the known nodes,
/// which stay in increasing order.
pub open spec fn notify_state(s: RaftView, new_nodes: Seq<NodeId>, id: NodeId) -> bool {
    strictly_increasing(new_nodes) && new_nodes.to_set() == s.nodes.to_set().insert(id)
}

// ----- Timers --------------------------------------------------------------

/// Whether the election timer fires: a node that does not lead waited
/// longer than the timeout.
pub open spec fn election_due(s: RaftView, elapsed_nanos: u128, timeout_ms: u64) -> bool {
    s.current_role != Role::Leader && elapsed_nanos > timeout_ms * 1_000_000
}

} // verus!
