//! One node of the protocol: its state and how it handles each event.

use crate::raft::actions::{actions_view, lemma_actions_view_push, Action, ActionView};
use crate::raft::known::{add_id, count_ids, holds_id, ids_in_order, no_ids};
use crate::raft::messages::{
    AppMsg, BroadcastMsg, Crash, LogEntry, LogRequest, LogResponse, NodeId, NotifyUUID, Payload,
    ReplicateLog, ReplicateLogAllExcept, Timeout, VoteRequest, VoteResponse,
};
use crate::raft::model::{RaftView, sorted_ids, from_current_leader, commit_actions, commit_state, election_due, log_response_actions, log_response_state, ready_prefix, notify_state, is_majority, lemma_cluster_size, strictly_increasing, appended_log, acks, append_actions, append_ok, append_state, deliveries, get_or_zero, log_request_actions, log_request_ok, log_request_reply, log_request_state, replicate_log_actions, replicate_log_ok, broadcast_actions, broadcast_state, lemma_others_take, lemma_set_all_empty, lemma_set_all_push, others, replicate_actions, replicate_all_actions, set_all, vote_request_reply, vote_request_state, vote_response_actions, vote_response_state, candidacy_request, crash_step, initial, last_log_term, timeout_actions, timeout_state, vote_request_actions, wf};
use std::collections::BTreeSet;
use std::collections::HashMap;
use std::collections::HashSet;
use std::sync::Arc;
use vstd::prelude::*;

verus! {

broadcast use vstd::std_specs::hash::group_hash_axioms;

/// The part a node plays in the current term.
#[derive(Debug, Clone, Copy, PartialEq, Eq, Structural)]
pub enum Role {
    Follower,
    Candidate,
    Leader,
}

/// The protocol state of a node.
pub struct StateData {
    pub current_term: u64,
    pub voted_for: Option<NodeId>,
    pub log: Vec<LogEntry>,
    pub commit_length: u64,
    pub current_role: Role,
    pub current_leader: Option<NodeId>,
    pub votes_received: HashSet<NodeId>,
    pub sent_length: HashMap<NodeId, u64>,
    pub acked_length: HashMap<NodeId, u64>,
}

impl Default for StateData {
    /// A follower in term 0 with an empty log, no vote, no known leader and
    /// no replication progress.
    fn default() -> (r: StateData)
        ensures
            r.current_term == 0,
            r.voted_for is None,
            r.log@ == Seq::<LogEntry>::empty(),
            r.commit_length == 0,
            r.current_role == Role::Follower,
            r.current_leader is None,
            r.votes_received@ == Set::<NodeId>::empty(),
            r.sent_length@ == Map::<NodeId, u64>::empty(),
            r.acked_length@ == Map::<NodeId, u64>::empty(),
    {
        StateData {
            current_term: 0,
            voted_for: None,
            log: Vec::new(),
            commit_length: 0,
            current_role: Role::Follower,
            current_leader: None,
            votes_received: HashSet::new(),
            sent_length: HashMap::new(),
            acked_length: HashMap::new(),
        }
    }
}

/// A node: its protocol state, its own id, and the ids of the nodes it
/// knows.
pub struct Raft {
    state_data: StateData,
    node_id: NodeId,
    nodes: BTreeSet<NodeId>,
}

impl View for Raft {
    type V = RaftView;

    closed spec fn view(&self) -> RaftView {
        RaftView {
            current_term: self.state_data.current_term,
            voted_for: self.state_data.voted_for,
            log: self.state_data.log@,
            commit_length: self.state_data.commit_length,
            current_role: self.state_data.current_role,
            current_leader: self.state_data.current_leader,
            votes_received: self.state_data.votes_received@,
            sent_length: self.state_data.sent_length@,
            acked_length: self.state_data.acked_length@,
            node_id: self.node_id,
            nodes: sorted_ids(self.nodes@),
        }
    }
}

/// Shares a command's bytes: `Arc::clone` gives a handle to the same value.
#[verifier::external_body]
fn share(p: &Payload) -> (r: Payload)
    ensures
        r == *p,
{
    Arc::clone(p)
}

impl Raft {
    /// A node that knows no other node yet, in its initial state.
    pub fn new(node_id: NodeId) -> (r: Raft)
        ensures
            r@ == initial(node_id),
            wf(r@),
    {
        Raft { state_data: StateData::default(), node_id, nodes: no_ids() }
    }

    /// Handles `Crash`: the node becomes a follower and forgets the leader,
    /// the votes it received and all replication progress.
    pub fn handle_crash(&mut self, _msg: Crash)
        requires
            wf(old(self)@),
        ensures
            final(self)@ == crash_step(old(self)@),
            wf(final(self)@),
    {
        self.state_data.current_role = Role::Follower;
        self.state_data.current_leader = None;
        self.state_data.votes_received = HashSet::new();
        self.state_data.sent_length = HashMap::new();
        self.state_data.acked_length = HashMap::new();
    }

    fn last_term(&self) -> (t: u64)
        ensures
            t == last_log_term(self@.log),
    {
        let n = self.state_data.log.len();
        if n > 0 {
            self.state_data.log[n - 1].1
        } else {
            0
        }
    }

    /// Handles `Timeout`: the node starts an election in the next term,
    /// votes for itself, and asks every node it knows for a vote.
    pub fn handle_timeout(&mut self, _msg: Timeout) -> (actions: Vec<Action>)
        requires
            wf(old(self)@),
            old(self)@.current_term < u64::MAX,
        ensures
            final(self)@ == timeout_state(old(self)@),
            actions_view(actions@) == timeout_actions(old(self)@),
            wf(final(self)@),
    {
        self.state_data.current_term = self.state_data.current_term + 1;
        self.state_data.current_role = Role::Candidate;
        self.state_data.voted_for = Some(self.node_id);
        let mut votes: HashSet<NodeId> = HashSet::new();
        votes.insert(self.node_id);
        self.state_data.votes_received = votes;
        let last_term = self.last_term();
        let req = VoteRequest(self.node_id, self.state_data.current_term, self.state_data.log.len() as u64, last_term);
        proof {
            assert(req == candidacy_request(timeout_state(old(self)@)));
        }
        let nodes = ids_in_order(&self.nodes);
        let mut actions: Vec<Action> = Vec::new();
        let mut i: usize = 0;
        while i < nodes.len()
            invariant
                i <= nodes@.len(),
                actions_view(actions@) == vote_request_actions(nodes@.take(i as int), req),
            decreases nodes@.len() - i,
        {
            let to = nodes[i];
            let ghost before = actions@;
            actions.push(Action::SendVoteRequest { to, vote: req });
            proof {
                lemma_actions_view_push(before, Action::SendVoteRequest { to, vote: req });
                assert(nodes@.take(i + 1) =~= nodes@.take(i as int).push(to));
                assert(actions_view(actions@) =~= vote_request_actions(nodes@.take(i + 1), req));
            }
            i = i + 1;
        }
        proof {
            assert(nodes@.take(i as int) =~= nodes@);
            assert(self@.votes_received =~= Set::empty().insert(self.node_id));
        }
        actions
    }

    /// Handles `VoteRequest`: grants the vote where the candidate's term is
    /// newer, or equal and the vote is still free or already the
    /// candidate's, and the candidate's log is at least as up to date.
    pub fn handle_vote_request(&mut self, msg: VoteRequest) -> (reply: VoteResponse)
        requires
            wf(old(self)@),
        ensures
            final(self)@ == vote_request_state(old(self)@, msg),
            reply == vote_request_reply(old(self)@, msg),
            wf(final(self)@),
    {
        let my_log_term = self.last_term();
        let log_len = self.state_data.log.len() as u64;
        let log_ok = msg.3 > my_log_term || (msg.3 == my_log_term && msg.2 >= log_len);
        let vote_free = match self.state_data.voted_for {
            Some(v) => v == msg.0,
            None => true,
        };
        let term_ok = msg.1 > self.state_data.current_term || (msg.1 == self.state_data.current_term
            && vote_free);
        if term_ok && log_ok {
            self.state_data.current_term = msg.1;
            self.state_data.current_role = Role::Follower;
            self.state_data.voted_for = Some(msg.0);
            return VoteResponse(self.node_id, self.state_data.current_term, true);
        }
        VoteResponse(self.node_id, self.state_data.current_term, false)
    }

    /// A `ReplicateLog` for every known node but this one, in order.
    fn replicate_to_followers(&self) -> (actions: Vec<Action>)
        ensures
            actions_view(actions@) == replicate_actions(others(self@.nodes, self@.node_id), self@.node_id),
    {
        let nodes = ids_in_order(&self.nodes);
        let mut actions: Vec<Action> = Vec::new();
        let mut i: usize = 0;
        while i < nodes.len()
            invariant
                i <= nodes@.len(),
                actions_view(actions@) == replicate_actions(others(nodes@.take(i as int), self.node_id), self.node_id),
            decreases nodes@.len() - i,
        {
            let uuid = nodes[i];
            proof {
                lemma_others_take(nodes@, self.node_id, i as int);
            }
            if uuid != self.node_id {
                let a = Action::ReplicateLog(ReplicateLog { leader_id: self.node_id, follower_id: uuid });
                let ghost before = actions@;
                actions.push(a);
                proof {
                    lemma_actions_view_push(before, a);
                    assert(actions_view(actions@) =~= replicate_actions(others(nodes@.take(i + 1), self.node_id), self.node_id));
                }
            }
            i = i + 1;
        }
        proof {
            assert(nodes@.take(i as int) =~= nodes@);
        }
        actions
    }

    /// Takes the lead: every other known node is believed to have the whole
    /// log and to have acknowledged nothing, and is sent the log.
    fn start_leading(&mut self) -> (actions: Vec<Action>)
        ensures
            final(self)@ == (RaftView {
                sent_length: set_all(old(self)@.sent_length, others(old(self)@.nodes, old(self)@.node_id), old(self)@.log.len() as u64),
                acked_length: set_all(old(self)@.acked_length, others(old(self)@.nodes, old(self)@.node_id), 0),
                ..old(self)@
            }),
            actions_view(actions@) == replicate_actions(others(old(self)@.nodes, old(self)@.node_id), old(self)@.node_id),
    {
        let ghost pre = self@;
        let len = self.state_data.log.len() as u64;
        let nodes = ids_in_order(&self.nodes);
        let mut actions: Vec<Action> = Vec::new();
        proof {
            assert(pre.nodes.take(0) =~= Seq::<NodeId>::empty());
            lemma_set_all_empty(pre.sent_length, len);
            lemma_set_all_empty(pre.acked_length, 0);
            assert(actions_view(actions@) =~= Seq::<ActionView>::empty());
        }
        let mut i: usize = 0;
        while i < nodes.len()
            invariant
                i <= nodes@.len(),
                pre.nodes == nodes@,
                pre.node_id == self.node_id,
                len == pre.log.len() as u64,
                self@ == (RaftView {
                    sent_length: set_all(pre.sent_length, others(pre.nodes.take(i as int), pre.node_id), len),
                    acked_length: set_all(pre.acked_length, others(pre.nodes.take(i as int), pre.node_id), 0),
                    ..pre
                }),
                actions_view(actions@) == replicate_actions(others(pre.nodes.take(i as int), pre.node_id), pre.node_id),
            decreases nodes@.len() - i,
        {
            let uuid = nodes[i];
            proof {
                lemma_others_take(pre.nodes, pre.node_id, i as int);
            }
            if uuid != self.node_id {
                let ghost prior = others(pre.nodes.take(i as int), pre.node_id);
                self.state_data.sent_length.insert(uuid, len);
                self.state_data.acked_length.insert(uuid, 0);
                let a = Action::ReplicateLog(ReplicateLog { leader_id: self.node_id, follower_id: uuid });
                let ghost before = actions@;
                actions.push(a);
                proof {
                    lemma_set_all_push(pre.sent_length, prior, uuid, len);
                    lemma_set_all_push(pre.acked_length, prior, uuid, 0);
                    lemma_actions_view_push(before, a);
                    assert(actions_view(actions@) =~= replicate_actions(others(pre.nodes.take(i + 1), pre.node_id), pre.node_id));
                }
            }
            i = i + 1;
        }
        proof {
            assert(pre.nodes.take(i as int) =~= pre.nodes);
        }
        actions
    }

    /// Handles `VoteResponse`: a candidate counts a vote granted in its
    /// term and takes the lead once it holds votes from a strict majority
    /// of the cluster; a reply from a newer term turns the node into a
    /// follower of that term.
    pub fn handle_vote_response(&mut self, msg: VoteResponse) -> (actions: Vec<Action>)
        requires
            wf(old(self)@),
        ensures
            final(self)@ == vote_response_state(old(self)@, msg),
            actions_view(actions@) == vote_response_actions(old(self)@, msg),
            wf(final(self)@),
    {
        let ghost s = self@;
        if self.state_data.current_role == Role::Candidate && self.state_data.current_term == msg.1 && msg.2 {
            self.state_data.votes_received.insert(msg.0);
            if self.majority_reached(self.state_data.votes_received.len()) {
                self.state_data.current_role = Role::Leader;
                self.state_data.current_leader = Some(self.node_id);
                let actions = self.start_leading();
                return actions;
            }
            return Vec::new();
        } else if msg.1 > self.state_data.current_term {
            self.state_data.current_term = msg.1;
            self.state_data.current_role = Role::Follower;
            self.state_data.voted_for = None;
        }
        Vec::new()
    }

    /// Handles `BroadcastMsg`: a leader appends the command to its log and
    /// sends the log on; another node passes the command to the leader it
    /// knows, or queues a `Crash` where it knows none.
    pub fn handle_broadcast(&mut self, msg: BroadcastMsg) -> (actions: Vec<Action>)
        requires
            wf(old(self)@),
        ensures
            final(self)@ == broadcast_state(old(self)@, msg),
            actions_view(actions@) == broadcast_actions(old(self)@, msg),
            wf(final(self)@),
    {
        if self.state_data.current_role == Role::Leader {
            let data = share(&msg.data);
            self.state_data.log.push((data, self.state_data.current_term));
            let len = self.state_data.log.len() as u64;
            self.state_data.acked_length.insert(self.node_id, len);
            return self.replicate_to_followers();
        }
        let mut actions: Vec<Action> = Vec::new();
        match self.state_data.current_leader {
            Some(node_id) => {
                if self.knows(node_id) {
                    actions.push(Action::ForwardBroadcast { to: node_id, msg });
                } else {
                    actions.push(Action::Crash(Crash));
                }
            },
            None => {
                actions.push(Action::Crash(Crash));
            },
        }
        proof {
            assert(actions_view(actions@) =~= broadcast_actions(self@, msg));
        }
        actions
    }

    /// Whether the node knows `id`.
    fn knows(&self, id: NodeId) -> (r: bool)
        ensures
            r == self@.nodes.contains(id),
    {
        holds_id(&self.nodes, id)
    }

    /// Handles `ReplicateLogAllExcept`: a leader sends its log to every other
    /// node it knows; any other node does nothing.
    pub fn handle_replicate_all(&self, _msg: ReplicateLogAllExcept) -> (actions: Vec<Action>)
        ensures
            actions_view(actions@) == replicate_all_actions(self@),
    {
        if self.state_data.current_role == Role::Leader {
            return self.replicate_to_followers();
        }
        let actions: Vec<Action> = Vec::new();
        proof {
            assert(actions_view(actions@) =~= Seq::<ActionView>::empty());
        }
        actions
    }

    /// The length of the prefix a leader believes `id` has, 0 where it has
    /// no belief.
    fn sent_to(&self, id: NodeId) -> (r: u64)
        ensures
            r == get_or_zero(self@.sent_length, id),
    {
        match self.state_data.sent_length.get(&id) {
            Some(v) => *v,
            None => 0,
        }
    }

    /// Handles `ReplicateLog`: sends the follower the log after the prefix
    /// it is believed to have, with the term of the entry before it; queues a
    /// `Crash` where the follower is unknown.
    pub fn handle_replicate_log(&self, msg: ReplicateLog) -> (actions: Vec<Action>)
        requires
            replicate_log_ok(self@, msg),
        ensures
            actions_view(actions@) == replicate_log_actions(self@, msg),
    {
        let i = self.sent_to(msg.follower_id);
        let n = self.state_data.log.len();
        let start = i as usize;
        let mut entries: Vec<LogEntry> = Vec::new();
        let mut j: usize = start;
        while j < n
            invariant
                start <= j <= n,
                n == self@.log.len(),
                start == i,
                entries@ == self@.log.subrange(start as int, j as int),
            decreases n - j,
        {
            let entry = &self.state_data.log[j];
            entries.push((share(&entry.0), entry.1));
            proof {
                assert(entries@ =~= self@.log.subrange(start as int, j + 1));
            }
            j = j + 1;
        }
        let prev_log_term: u64 = if i > 0 {
            self.state_data.log[start - 1].1
        } else {
            0
        };
        let mut actions: Vec<Action> = Vec::new();
        if self.knows(msg.follower_id) {
            let request = LogRequest::new(
                msg.leader_id,
                self.state_data.current_term,
                i,
                prev_log_term,
                self.state_data.commit_length,
                entries,
            );
            actions.push(Action::SendLogRequest { to: msg.follower_id, request });
        } else {
            actions.push(Action::Crash(Crash));
        }
        proof {
            assert(actions_view(actions@) =~= replicate_log_actions(self@, msg));
        }
        actions
    }

    /// Whether `handle_replicate_log` can serve `msg`: the prefix that the
    /// follower is believed to have lies within the log.
    pub fn can_replicate_log(&self, msg: ReplicateLog) -> (r: bool)
        ensures
            r == replicate_log_ok(self@, msg),
    {
        self.sent_to(msg.follower_id) <= self.state_data.log.len() as u64
    }

    /// Appends a leader's entries after the first `log_length` entries, cut
    /// back to that prefix first where the first of them conflicts, and
    /// hands the newly committed commands of the log to the application.
    fn append_entries(&mut self, log_length: u64, leader_commit: u64, entries: Vec<LogEntry>) -> (actions: Vec<Action>)
        requires
            append_ok(old(self)@.log, old(self)@.commit_length, log_length, leader_commit, entries@),
        ensures
            final(self)@ == append_state(old(self)@, log_length, leader_commit, entries@),
            actions_view(actions@) == append_actions(old(self)@, log_length, leader_commit, entries@),
    {
        let ghost pre = self@;
        let elen = entries.len();
        let ll = log_length as usize;
        if elen > 0 && self.state_data.log.len() > ll {
            if self.state_data.log[ll].1 != entries[0].1 {
                self.state_data.log.truncate(ll);
            }
        }
        let ghost log1 = self@.log;
        let len1 = self.state_data.log.len();
        if elen > len1 - ll {
            let start = len1 - ll;
            let mut k: usize = start;
            while k < elen
                invariant
                    start <= k <= elen,
                    elen == entries@.len(),
                    self@ == (RaftView { log: log1 + entries@.subrange(start as int, k as int), ..pre }),
                decreases elen - k,
            {
                let entry = &entries[k];
                self.state_data.log.push((share(&entry.0), entry.1));
                proof {
                    assert(log1 + entries@.subrange(start as int, k + 1) =~= (log1 + entries@.subrange(start as int, k as int)).push(entries@[k as int]));
                }
                k = k + 1;
            }
        }
        let ghost mid = self@;
        proof {
            assert(mid.log =~= appended_log(pre.log, log_length, entries@));
        }
        let mut actions: Vec<Action> = Vec::new();
        let len2 = self.state_data.log.len();
        if leader_commit > self.state_data.commit_length {
            let from = self.state_data.commit_length;
            let mut i: u64 = from;
            while i < leader_commit
                invariant
                    from <= i <= leader_commit,
                    len2 == mid.log.len(),
                    leader_commit <= mid.log.len(),
                    self@ == mid,
                    actions_view(actions@) == deliveries(mid.log, from as int, i as int),
                decreases leader_commit - i,
            {
                let idx = i as usize;
                assert(idx as int == i as int);
                let a = Action::Deliver(AppMsg { data: share(&self.state_data.log[idx].0) });
                let ghost before = actions@;
                actions.push(a);
                proof {
                    lemma_actions_view_push(before, a);
                    assert(a@ == ActionView::Deliver(mid.log[i as int].0));
                    assert(actions_view(actions@) =~= deliveries(mid.log, from as int, i + 1));
                }
                i = i + 1;
            }
            self.state_data.commit_length = leader_commit;
        } else {
            proof {
                assert(actions_view(actions@) =~= Seq::<ActionView>::empty());
            }
        }
        actions
    }

    /// Handles `LogRequest`: adopts a newer term; a request of the node's
    /// term makes it a follower of the sender, and where the log holds the
    /// prefix the request builds on, the entries are appended and
    /// acknowledged up to `log_length` plus their number; otherwise refused.
    pub fn handle_log_request(&mut self, msg: LogRequest) -> (res: (LogResponse, Vec<Action>))
        requires
            wf(old(self)@),
            log_request_ok(old(self)@, msg@),
        ensures
            final(self)@ == log_request_state(old(self)@, msg@),
            res.0 == log_request_reply(old(self)@, msg@),
            actions_view(res.1@) == log_request_actions(old(self)@, msg@),
            wf(final(self)@),
    {
        if msg.term > self.state_data.current_term {
            self.state_data.current_term = msg.term;
            self.state_data.voted_for = None;
        }
        if msg.term == self.state_data.current_term {
            self.state_data.current_role = Role::Follower;
            self.state_data.current_leader = Some(msg.leader_id);
        }
        let ll = msg.log_length;
        let len = self.state_data.log.len();
        let log_ok = len as u64 >= ll && (ll == 0 || msg.log_term == self.state_data.log[(ll - 1) as usize].1);
        if msg.term == self.state_data.current_term && log_ok {
            let elen = msg.entries.len();
            let actions = self.append_entries(msg.log_length, msg.leader_commit, msg.entries);
            let new_len = self.state_data.log.len();
            assert(new_len >= ll + elen);
            let ack = msg.log_length + elen as u64;
            return (LogResponse::new(self.node_id, self.state_data.current_term, ack, true), actions);
        }
        let actions: Vec<Action> = Vec::new();
        proof {
            assert(actions_view(actions@) =~= Seq::<ActionView>::empty());
        }
        (LogResponse::new(self.node_id, self.state_data.current_term, 0, false), actions)
    }

    /// Whether `msg` comes from the leader of the node's term or of a newer
    /// one: the node then follows the sender, and its election timer starts
    /// again.
    pub fn heard_from_leader(&self, msg: &LogRequest) -> (r: bool)
        ensures
            r == from_current_leader(self@, msg@),
    {
        msg.term >= self.state_data.current_term
    }

    /// Whether `handle_log_request` can serve `msg` to completion: where the
    /// request is accepted, the leader's commit length lies within the log
    /// as it will be after appending.
    pub fn can_handle_log_request(&self, msg: &LogRequest) -> (r: bool)
        ensures
            r == log_request_ok(self@, msg@),
    {
        let ll = msg.log_length;
        let len = self.state_data.log.len();
        let accepted = msg.term >= self.state_data.current_term && len as u64 >= ll && (ll == 0
            || msg.log_term == self.state_data.log[(ll - 1) as usize].1);
        if !accepted || msg.leader_commit <= self.state_data.commit_length {
            return true;
        }
        let elen = msg.entries.len();
        let cut = elen > 0 && len as u64 > ll && self.state_data.log[ll as usize].1 != msg.entries[0].1;
        let len1: u128 = if cut { ll as u128 } else { len as u128 };
        let appended: u128 = if (ll as u128) + (elen as u128) > len1 { (ll as u128) + (elen as u128) } else { len1 };
        (msg.leader_commit as u128) <= appended
    }

    /// How many nodes acknowledged at least `length` entries.
    fn acks(&self, length: usize) -> (num: usize)
        ensures
            num == acks(self@.acked_length, length as int),
    {
        let ghost m = self@.acked_length;
        let ghost p = |k: NodeId| m[k] >= length;
        let total = self.state_data.acked_length.len();
        let mut num: usize = 0;
        let ghost mut seen: Set<NodeId> = Set::empty();
        let ghost mut counted: Set<NodeId> = Set::empty();
        for k in it: self.state_data.acked_length.keys()
            invariant
                m == self@.acked_length,
                p == (|k: NodeId| m[k] >= length),
                it.seq().unref().to_set() == m.dom(),
                it.seq().no_duplicates(),
                seen == it.seq().take(it.index()).unref().to_set(),
                counted == seen.filter(p),
                seen.finite(),
                counted.finite(),
                num == counted.len(),
                seen.subset_of(m.dom()),
                seen.len() == it.index(),
                it.seq().len() == m.dom().len(),
                total == m.dom().len(),
        {
            let ghost idx = it.index();
            proof {
                assert(it.seq()[idx] == k);
                assert(it.seq().unref()[idx] == *k);
                assert(it.seq().unref().to_set().contains(*k));
                assert(!seen.contains(*k)) by {
                    if seen.contains(*k) {
                        let j = choose|j: int| 0 <= j < idx && it.seq().take(idx).unref()[j] == *k;
                        assert(it.seq()[j] == it.seq()[idx]);
                    }
                }
                assert(it.seq().take(idx + 1).unref() =~= it.seq().take(idx).unref().push(*k));
                it.seq().take(idx).unref().lemma_push_to_set_commute(*k);
                assert(it.seq().take(idx + 1).unref().to_set() =~= seen.insert(*k));
                vstd::set_lib::lemma_len_subset(counted, seen);
            }
            let v = match self.state_data.acked_length.get(k) {
                Some(v) => *v,
                None => 0,
            };
            proof {
                assert(m.dom().contains(*k));
                assert(v == m[*k]);
                assert(p(*k) == (v >= length));
            }
            if v >= length as u64 {
                num = num + 1;
                proof {
                    assert(seen.insert(*k).filter(p) =~= counted.insert(*k));
                    counted = counted.insert(*k);
                }
            } else {
                proof {
                    assert(seen.insert(*k).filter(p) =~= counted);
                }
            }
            proof {
                seen = seen.insert(*k);
            }
        }
        proof {
            vstd::set_lib::lemma_subset_equality(seen, m.dom());
            assert(seen =~= m.dom());
            assert(counted =~= m.dom().filter(p));
        }
        num
    }

    /// Whether `count` nodes are a strict majority of the cluster: the known
    /// nodes and this one.
    fn majority_reached(&self, count: usize) -> (r: bool)
        requires
            strictly_increasing(self@.nodes),
        ensures
            r == is_majority(self@, count as int),
    {
        let n = count_ids(&self.nodes);
        let knows_self = self.knows(self.node_id);
        proof {
            lemma_cluster_size(self@);
        }
        let half = if knows_self { n / 2 } else { n / 2 + n % 2 };
        count > half
    }

    /// Commits the longest prefix that a strict majority of the cluster
    /// acknowledged, where its last entry is of the current term, and hands
    /// the newly committed commands to the application.
    fn commit_log_entries(&mut self) -> (actions: Vec<Action>)
        requires
            strictly_increasing(old(self)@.nodes),
        ensures
            final(self)@ == commit_state(old(self)@),
            actions_view(actions@) == commit_actions(old(self)@),
    {
        let ghost pre = self@;
        let len = self.state_data.log.len();
        let mut max_ready: usize = 0;
        let mut l: usize = 0;
        while l < len
            invariant
                l <= len,
                max_ready <= l,
                len == pre.log.len(),
                strictly_increasing(pre.nodes),
                self@ == pre,
                max_ready == ready_prefix(pre, l as int),
            decreases len - l,
        {
            l = l + 1;
            let a = self.acks(l);
            if self.majority_reached(a) {
                max_ready = l;
            }
        }
        let mut actions: Vec<Action> = Vec::new();
        if max_ready > 0 && max_ready as u64 > self.state_data.commit_length
            && self.state_data.log[max_ready - 1].1 == self.state_data.current_term {
            let from = self.state_data.commit_length as usize;
            let mut i: usize = from;
            while i < max_ready
                invariant
                    from <= i <= max_ready,
                    max_ready <= len,
                    len == pre.log.len(),
                    from == pre.commit_length,
                    self@ == pre,
                    actions_view(actions@) == deliveries(pre.log, from as int, i as int),
                decreases max_ready - i,
            {
                let a = Action::Deliver(AppMsg { data: share(&self.state_data.log[i].0) });
                let ghost before = actions@;
                actions.push(a);
                proof {
                    lemma_actions_view_push(before, a);
                    assert(actions_view(actions@) =~= deliveries(pre.log, from as int, i + 1));
                }
                i = i + 1;
            }
            self.state_data.commit_length = max_ready as u64;
        } else {
            proof {
                assert(actions_view(actions@) =~= Seq::<ActionView>::empty());
            }
        }
        actions
    }

    /// Handles `LogResponse`: a leader records an acknowledgement of its
    /// term that does not go back and commits what a strict majority of the
    /// cluster holds, or, on a refusal, steps back one entry for that
    /// follower and sends again; a reply from a newer term turns the node
    /// into a follower of that term.
    pub fn handle_log_response(&mut self, msg: LogResponse) -> (actions: Vec<Action>)
        requires
            wf(old(self)@),
        ensures
            final(self)@ == log_response_state(old(self)@, msg),
            actions_view(actions@) == log_response_actions(old(self)@, msg),
            wf(final(self)@),
    {
        let ghost pre = self@;
        if msg.current_term == self.state_data.current_term && self.state_data.current_role == Role::Leader {
            let acked = match self.state_data.acked_length.get(&msg.node_id) {
                Some(v) => *v,
                None => 0,
            };
            if msg.success && msg.ack >= acked {
                self.state_data.sent_length.insert(msg.node_id, msg.ack);
                self.state_data.acked_length.insert(msg.node_id, msg.ack);
                return self.commit_log_entries();
            }
            let sent = self.sent_to(msg.node_id);
            if sent > 0 {
                self.state_data.sent_length.insert(msg.node_id, sent - 1);
                let mut actions: Vec<Action> = Vec::new();
                actions.push(Action::ReplicateLog(ReplicateLog { leader_id: self.node_id, follower_id: msg.node_id }));
                proof {
                    assert(actions_view(actions@) =~= log_response_actions(pre, msg));
                }
                return actions;
            }
        } else if msg.current_term > self.state_data.current_term {
            self.state_data.current_term = msg.current_term;
            self.state_data.current_role = Role::Follower;
            self.state_data.voted_for = None;
        }
        let actions: Vec<Action> = Vec::new();
        proof {
            assert(actions_view(actions@) =~= Seq::<ActionView>::empty());
        }
        actions
    }

    /// Handles `NotifyUUID`: the node learns of another node; the known ids
    /// stay in increasing order, each once.
    pub fn handle_notify(&mut self, msg: NotifyUUID)
        requires
            wf(old(self)@),
        ensures
            notify_state(old(self)@, final(self)@.nodes, msg.node_id),
            final(self)@ == (RaftView { nodes: final(self)@.nodes, ..old(self)@ }),
            wf(final(self)@),
    {
        add_id(&mut self.nodes, msg.node_id);
    }

    /// This node's id.
    pub fn node_id(&self) -> (r: NodeId)
        ensures
            r == self@.node_id,
    {
        self.node_id
    }

    /// The node's current term.
    pub fn current_term(&self) -> (r: u64)
        ensures
            r == self@.current_term,
    {
        self.state_data.current_term
    }

    /// The candidate the node voted for in its current term, if any.
    pub fn voted_for(&self) -> (r: Option<NodeId>)
        ensures
            r == self@.voted_for,
    {
        self.state_data.voted_for
    }

    /// The part the node plays.
    pub fn current_role(&self) -> (r: Role)
        ensures
            r == self@.current_role,
    {
        self.state_data.current_role
    }

    /// The node the node believes leads, if any.
    pub fn current_leader(&self) -> (r: Option<NodeId>)
        ensures
            r == self@.current_leader,
    {
        self.state_data.current_leader
    }

    /// How many log entries are committed.
    pub fn commit_length(&self) -> (r: u64)
        ensures
            r == self@.commit_length,
    {
        self.state_data.commit_length
    }

    /// The node's log.
    pub fn log(&self) -> (r: &Vec<LogEntry>)
        ensures
            r@ == self@.log,
    {
        &self.state_data.log
    }

    /// The other nodes the node knows, in increasing order of id.
    pub fn nodes(&self) -> (r: Vec<NodeId>)
        ensures
            r@ == self@.nodes,
    {
        ids_in_order(&self.nodes)
    }

    /// How many votes the node holds in its current election.
    pub fn votes_count(&self) -> (r: usize)
        ensures
            r == self@.votes_received.len(),
    {
        self.state_data.votes_received.len()
    }

    /// Whether `id` voted for the node in its current election.
    pub fn has_vote_from(&self, id: NodeId) -> (r: bool)
        ensures
            r == self@.votes_received.contains(id),
    {
        self.state_data.votes_received.contains(&id)
    }

    /// The prefix of the log that a leader believes `id` has, if it holds a
    /// belief.
    pub fn sent_length(&self, id: NodeId) -> (r: Option<u64>)
        ensures
            r == (if self@.sent_length.contains_key(id) { Some(self@.sent_length[id]) } else { None::<u64> }),
    {
        match self.state_data.sent_length.get(&id) {
            Some(v) => Some(*v),
            None => None,
        }
    }

    /// The prefix of the log that a leader knows `id` to hold, if it knows.
    pub fn acked_length(&self, id: NodeId) -> (r: Option<u64>)
        ensures
            r == (if self@.acked_length.contains_key(id) { Some(self@.acked_length[id]) } else { None::<u64> }),
    {
        match self.state_data.acked_length.get(&id) {
            Some(v) => Some(*v),
            None => None,
        }
    }

    /// Whether the election timer fires when `elapsed_nanos` passed since
    /// the last tick and the timeout is `timeout_ms`: the node does not lead
    /// and waited longer than the timeout.
    pub fn election_due(&self, elapsed_nanos: u128, timeout_ms: u64) -> (r: bool)
        ensures
            r == election_due(self@, elapsed_nanos, timeout_ms),
    {
        self.state_data.current_role != Role::Leader && elapsed_nanos > (timeout_ms as u128) * 1_000_000
    }

    /// One tick of the election timer: draws a timeout from
    /// `ELECTION_TIMEOUT_MIN_MS` (inclusive) to `ELECTION_TIMEOUT_MAX_MS`
    /// (exclusive) and reports whether the node should time out.
    pub fn election_tick(&self, elapsed_nanos: u128) -> (r: bool)
        ensures
            exists|t: u64|
                ELECTION_TIMEOUT_MIN_MS <= t < ELECTION_TIMEOUT_MAX_MS && r == election_due(self@, elapsed_nanos, t),
    {
        let t = random_in_range(ELECTION_TIMEOUT_MIN_MS, ELECTION_TIMEOUT_MAX_MS);
        self.election_due(elapsed_nanos, t)
    }

    /// One tick of the replication timer: a leader asks itself to send its
    /// log to every follower.
    pub fn replicator_tick(&self) -> (r: bool)
        ensures
            r == (self@.current_role == Role::Leader),
    {
        self.state_data.current_role == Role::Leader
    }
}

/// The shortest election timeout, in milliseconds.
pub const ELECTION_TIMEOUT_MIN_MS: u64 = 150;

/// The bound that every election timeout stays below, in milliseconds.
pub const ELECTION_TIMEOUT_MAX_MS: u64 = 350;

/// A number drawn by `rand::Rng::gen_range` from `low` (inclusive) to `high`
/// (exclusive) with the thread's random generator. Only the range of the
/// result is claimed; which number comes is chance.
#[verifier::external_body]
fn random_in_range(low: u64, high: u64) -> (r: u64)
    requires
        low < high,
    ensures
        low <= r < high,
{
    rand::Rng::gen_range(&mut rand::thread_rng(), low..high)
}

} // verus!
