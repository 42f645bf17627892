//! Many nodes together: a cluster whose nodes step by the handlers'
//! specifications and exchange vote responses over a network that may lose,
//! repeat and reorder them. In every run, two leaders of one term are the
//! same node.

use crate::raft::laws::{can_handle, next_state, Event};
use crate::raft::messages::{NodeId, VoteResponse};
use crate::raft::model::{grants_vote, initial, is_majority, members, strictly_increasing, vote_request_reply, wf, RaftView};
use crate::raft::state::Role;
use vstd::prelude::*;

verus! {

/// A cluster: the state of each node, every vote ever cast (voter, term,
/// candidate), and every vote response ever sent (destination, response).
/// A response once sent may be delivered any number of times, or never.
pub struct Cluster {
    pub nodes: Map<NodeId, RaftView>,
    pub votes: Set<(NodeId, u64, NodeId)>,
    pub network: Set<(NodeId, VoteResponse)>,
}

/// A cluster as it starts: every node in its initial state, knowing the
/// other members, no vote cast and nothing sent.
pub open spec fn cluster_init(c: Cluster) -> bool {
    &&& c.nodes.dom().finite()
    &&& c.votes == Set::<(NodeId, u64, NodeId)>::empty()
    &&& c.network == Set::<(NodeId, VoteResponse)>::empty()
    &&& forall|id: NodeId| #[trigger] c.nodes.contains_key(id) ==> {
        &&& c.nodes[id] == (RaftView { nodes: c.nodes[id].nodes, ..initial(id) })
        &&& strictly_increasing(c.nodes[id].nodes)
        &&& members(c.nodes[id]) == c.nodes.dom()
    }
}

/// Whether node `id` can handle event `e`: it is a member, the event is
/// one it handles to completion, and a vote response it receives was sent
/// to it.
pub open spec fn step_enabled(c: Cluster, id: NodeId, e: Event) -> bool {
    &&& c.nodes.contains_key(id)
    &&& can_handle(c.nodes[id], e)
    &&& (e matches Event::VoteResponse(m) ==> c.network.contains((id, m)))
}

/// The cluster after node `id` handled event `e`. A vote request may come
/// from anywhere; its reply goes to the candidate it names.
pub open spec fn cluster_step(c: Cluster, id: NodeId, e: Event) -> Cluster {
    let s = c.nodes[id];
    Cluster {
        nodes: c.nodes.insert(id, next_state(s, e)),
        votes: match e {
            Event::Timeout => c.votes.insert((id, (s.current_term + 1) as u64, id)),
            Event::VoteRequest(m) => if grants_vote(s, m) { c.votes.insert((id, m.1, m.0)) } else { c.votes },
            _ => c.votes,
        },
        network: match e {
            Event::VoteRequest(m) => c.network.insert((m.0, vote_request_reply(s, m))),
            _ => c.network,
        },
    }
}

/// Whether every step of a run is enabled where it is taken.
pub open spec fn run_ok(c: Cluster, steps: Seq<(NodeId, Event)>) -> bool
    decreases steps.len(),
{
    if steps.len() == 0 {
        true
    } else {
        step_enabled(c, steps[0].0, steps[0].1) && run_ok(cluster_step(c, steps[0].0, steps[0].1), steps.drop_first())
    }
}

/// The cluster at the end of a run.
pub open spec fn run_end(c: Cluster, steps: Seq<(NodeId, Event)>) -> Cluster
    decreases steps.len(),
{
    if steps.len() == 0 {
        c
    } else {
        run_end(cluster_step(c, steps[0].0, steps[0].1), steps.drop_first())
    }
}

/// At most one leader per term.
pub open spec fn election_safe(c: Cluster) -> bool {
    forall|a: NodeId, b: NodeId|
        #![trigger c.nodes[a], c.nodes[b]]
        c.nodes.contains_key(a) && c.nodes.contains_key(b) && c.nodes[a].current_role == Role::Leader
            && c.nodes[b].current_role == Role::Leader && c.nodes[a].current_term == c.nodes[b].current_term
            ==> a == b
}

/// Each node is well formed under its own id and knows exactly the members.
pub open spec fn inv_nodes(c: Cluster) -> bool {
    &&& c.nodes.dom().finite()
    &&& forall|id: NodeId| #[trigger] c.nodes.contains_key(id) ==> {
        &&& c.nodes[id].node_id == id
        &&& wf(c.nodes[id])
        &&& members(c.nodes[id]) == c.nodes.dom()
    }
}

/// A vote is cast by a member, in a term it reached, and it is the vote the
/// voter holds while it stays in that term.
pub open spec fn inv_ballots(c: Cluster) -> bool {
    forall|b: (NodeId, u64, NodeId)| #[trigger] c.votes.contains(b) ==> {
        &&& c.nodes.contains_key(b.0)
        &&& b.1 <= c.nodes[b.0].current_term
        &&& (b.1 == c.nodes[b.0].current_term ==> c.nodes[b.0].voted_for == Some(b.2))
    }
}

/// A voter votes for one candidate per term.
pub open spec fn inv_one_ballot(c: Cluster) -> bool {
    forall|b1: (NodeId, u64, NodeId), b2: (NodeId, u64, NodeId)|
        #![trigger c.votes.contains(b1), c.votes.contains(b2)]
        c.votes.contains(b1) && c.votes.contains(b2) && b1.0 == b2.0 && b1.1 == b2.1 ==> b1.2 == b2.2
}

/// A granted vote response records a vote for its destination.
pub open spec fn inv_network(c: Cluster) -> bool {
    forall|p: (NodeId, VoteResponse)| #[trigger] c.network.contains(p) && p.1.2 ==> c.votes.contains((p.1.0, p.1.1, p.0))
}

/// A candidate's or leader's votes are votes cast for it in its term.
pub open spec fn inv_tally(c: Cluster) -> bool {
    forall|id: NodeId, x: NodeId|
        #![trigger c.nodes[id].votes_received.contains(x)]
        c.nodes.contains_key(id) && (c.nodes[id].current_role == Role::Candidate || c.nodes[id].current_role
            == Role::Leader) && c.nodes[id].votes_received.contains(x) ==> c.votes.contains(
            (x, c.nodes[id].current_term, id),
        )
}

/// A leader holds votes from a strict majority of the cluster.
pub open spec fn inv_leaders(c: Cluster) -> bool {
    forall|id: NodeId| #[trigger] c.nodes.contains_key(id) && c.nodes[id].current_role == Role::Leader
        ==> is_majority(c.nodes[id], c.nodes[id].votes_received.len() as int)
}

pub open spec fn cluster_inv(c: Cluster) -> bool {
    &&& inv_nodes(c)
    &&& inv_ballots(c)
    &&& inv_one_ballot(c)
    &&& inv_network(c)
    &&& inv_tally(c)
    &&& inv_leaders(c)
}

/// A starting cluster satisfies the invariant.
pub proof fn lemma_init_inv(c: Cluster)
    requires
        cluster_init(c),
    ensures
        cluster_inv(c),
{
    assert forall|id: NodeId| #[trigger] c.nodes.contains_key(id) implies {
        &&& c.nodes[id].node_id == id
        &&& wf(c.nodes[id])
        &&& members(c.nodes[id]) == c.nodes.dom()
    } by {
        assert(c.nodes[id] == (RaftView { nodes: c.nodes[id].nodes, ..initial(id) }));
    }
}

/// Handling an event leaves a node's id and known nodes as they were.
pub proof fn lemma_step_keeps_identity(s: RaftView, e: Event)
    ensures
        next_state(s, e).node_id == s.node_id,
        next_state(s, e).nodes == s.nodes,
{
}

/// Every step keeps the invariant.
pub proof fn lemma_step_inv(c: Cluster, id: NodeId, e: Event)
    requires
        cluster_inv(c),
        step_enabled(c, id, e),
    ensures
        cluster_inv(cluster_step(c, id, e)),
{
    let s = c.nodes[id];
    let s2 = next_state(s, e);
    let c2 = cluster_step(c, id, e);
    crate::raft::laws::lemma_invariant_kept(s, e);
    crate::raft::laws::lemma_term_never_decreases(s, e);
    lemma_step_keeps_identity(s, e);
    assert(c2.nodes.dom() =~= c.nodes.dom());
    assert(members(s2) == members(s));
    // the nodes
    assert forall|n: NodeId| #[trigger] c2.nodes.contains_key(n) implies {
        &&& c2.nodes[n].node_id == n
        &&& wf(c2.nodes[n])
        &&& members(c2.nodes[n]) == c2.nodes.dom()
    } by {
        if n != id {
            assert(c2.nodes[n] == c.nodes[n]);
        }
    }
    // the votes cast
    assert forall|b: (NodeId, u64, NodeId)| #[trigger] c2.votes.contains(b) implies {
        &&& c2.nodes.contains_key(b.0)
        &&& b.1 <= c2.nodes[b.0].current_term
        &&& (b.1 == c2.nodes[b.0].current_term ==> c2.nodes[b.0].voted_for == Some(b.2))
    } by {
        if b.0 != id {
            if !c.votes.contains(b) {
                assert(false);
            }
        } else {
            lemma_ballot_of_stepping_node(c, id, e, b);
        }
    }
    assert forall|b1: (NodeId, u64, NodeId), b2: (NodeId, u64, NodeId)|
        #![trigger c2.votes.contains(b1), c2.votes.contains(b2)]
        c2.votes.contains(b1) && c2.votes.contains(b2) && b1.0 == b2.0 && b1.1 == b2.1 implies b1.2 == b2.2 by {
        if !c.votes.contains(b1) || !c.votes.contains(b2) {
            lemma_new_ballot_unique(c, id, e, b1, b2);
        }
    }
    assert forall|p: (NodeId, VoteResponse)| #[trigger] c2.network.contains(p) && p.1.2 implies c2.votes.contains(
        (p.1.0, p.1.1, p.0),
    ) by {
        if !c.network.contains(p) {
            if let Event::VoteRequest(m) = e {
                assert(p == (m.0, vote_request_reply(s, m)));
                assert(grants_vote(s, m));
            }
        }
    }
    assert forall|n: NodeId, x: NodeId|
        #![trigger c2.nodes[n].votes_received.contains(x)]
        c2.nodes.contains_key(n) && (c2.nodes[n].current_role == Role::Candidate || c2.nodes[n].current_role
            == Role::Leader) && c2.nodes[n].votes_received.contains(x) implies c2.votes.contains(
        (x, c2.nodes[n].current_term, n),
    ) by {
        if n != id {
            assert(c2.nodes[n] == c.nodes[n]);
            assert(c.votes.contains((x, c.nodes[n].current_term, n)));
        } else {
            lemma_tally_of_stepping_node(c, id, e, x);
        }
    }
    assert forall|n: NodeId| #[trigger] c2.nodes.contains_key(n) && c2.nodes[n].current_role == Role::Leader
        implies is_majority(c2.nodes[n], c2.nodes[n].votes_received.len() as int) by {
        if n != id {
            assert(c2.nodes[n] == c.nodes[n]);
        } else {
            lemma_leader_of_stepping_node(c, id, e);
        }
    }
}

/// A vote of the stepping node in the new cluster is as the invariant says.
proof fn lemma_ballot_of_stepping_node(c: Cluster, id: NodeId, e: Event, b: (NodeId, u64, NodeId))
    requires
        cluster_inv(c),
        step_enabled(c, id, e),
        b.0 == id,
        cluster_step(c, id, e).votes.contains(b),
    ensures
        b.1 <= cluster_step(c, id, e).nodes[id].current_term,
        b.1 == cluster_step(c, id, e).nodes[id].current_term ==> cluster_step(c, id, e).nodes[id].voted_for
            == Some(b.2),
{
    let s = c.nodes[id];
    let s2 = next_state(s, e);
    crate::raft::laws::lemma_term_never_decreases(s, e);
    if c.votes.contains(b) {
        if b.1 == s2.current_term {
            assert(b.1 == s.current_term);
            assert(s.voted_for == Some(b.2));
            crate::raft::laws::lemma_one_vote_per_term(s, e, b.2);
        }
    }
}

/// A vote added by a step agrees with every vote of the same voter and term.
proof fn lemma_new_ballot_unique(c: Cluster, id: NodeId, e: Event, b1: (NodeId, u64, NodeId), b2: (NodeId, u64, NodeId))
    requires
        cluster_inv(c),
        step_enabled(c, id, e),
        cluster_step(c, id, e).votes.contains(b1),
        cluster_step(c, id, e).votes.contains(b2),
        b1.0 == b2.0,
        b1.1 == b2.1,
    ensures
        b1.2 == b2.2,
{
    let s = c.nodes[id];
    if c.votes.contains(b1) && c.votes.contains(b2) {
    } else {
        // a new vote is cast by `id` in a term beyond every vote it cast
        // before, or in its term where it had not voted or had voted the same
        if c.votes.contains(b1) {
            assert(b1.1 <= s.current_term);
        }
        if c.votes.contains(b2) {
            assert(b2.1 <= s.current_term);
        }
    }
}

/// The stepping node's tally, if it is a candidate or a leader, holds votes
/// cast for it in its term.
proof fn lemma_tally_of_stepping_node(c: Cluster, id: NodeId, e: Event, x: NodeId)
    requires
        cluster_inv(c),
        step_enabled(c, id, e),
        cluster_step(c, id, e).nodes[id].current_role == Role::Candidate || cluster_step(c, id, e).nodes[id].current_role
            == Role::Leader,
        cluster_step(c, id, e).nodes[id].votes_received.contains(x),
    ensures
        cluster_step(c, id, e).votes.contains((x, cluster_step(c, id, e).nodes[id].current_term, id)),
{
    let s = c.nodes[id];
    if let Event::VoteResponse(m) = e {
        if x == m.0 && !s.votes_received.contains(x) {
            assert(c.network.contains((id, m)));
        }
    }
}

/// The stepping node, if it leads afterwards, holds a strict majority.
proof fn lemma_leader_of_stepping_node(c: Cluster, id: NodeId, e: Event)
    requires
        cluster_inv(c),
        step_enabled(c, id, e),
        cluster_step(c, id, e).nodes[id].current_role == Role::Leader,
    ensures
        is_majority(cluster_step(c, id, e).nodes[id], cluster_step(c, id, e).nodes[id].votes_received.len() as int),
{
    let s = c.nodes[id];
    lemma_step_keeps_identity(s, e);
}

/// Two strict majorities of one finite cluster share a member.
proof fn lemma_majorities_meet(all: Set<NodeId>, a: Set<NodeId>, b: Set<NodeId>)
    requires
        all.finite(),
        a.subset_of(all),
        b.subset_of(all),
        2 * a.len() > all.len(),
        2 * b.len() > all.len(),
    ensures
        exists|x: NodeId| a.contains(x) && b.contains(x),
{
    vstd::set_lib::lemma_len_subset(a, all);
    vstd::set_lib::lemma_len_subset(b, all);
    vstd::set_lib::lemma_set_intersect_union_lens(a, b);
    vstd::set_lib::lemma_len_subset(a.union(b), all);
    assert(a.intersect(b).len() > 0);
    let x = a.intersect(b).choose();
    assert(a.intersect(b).contains(x));
}

/// The invariant gives at most one leader per term.
pub proof fn lemma_inv_safe(c: Cluster)
    requires
        cluster_inv(c),
    ensures
        election_safe(c),
{
    assert forall|a: NodeId, b: NodeId|
        #![trigger c.nodes[a], c.nodes[b]]
        c.nodes.contains_key(a) && c.nodes.contains_key(b) && c.nodes[a].current_role == Role::Leader
            && c.nodes[b].current_role == Role::Leader && c.nodes[a].current_term == c.nodes[b].current_term
            implies a == b by {
        let sa = c.nodes[a];
        let sb = c.nodes[b];
        let t = sa.current_term;
        assert(c.nodes.contains_key(a) && sa.current_role == Role::Leader);
        assert(c.nodes.contains_key(b) && sb.current_role == Role::Leader);
        assert(sa.votes_received.subset_of(c.nodes.dom())) by {
            assert forall|x: NodeId| sa.votes_received.contains(x) implies c.nodes.dom().contains(x) by {
                assert(c.votes.contains((x, t, a)));
            }
        }
        assert(sb.votes_received.subset_of(c.nodes.dom())) by {
            assert forall|x: NodeId| sb.votes_received.contains(x) implies c.nodes.dom().contains(x) by {
                assert(c.votes.contains((x, t, b)));
            }
        }
        lemma_majorities_meet(c.nodes.dom(), sa.votes_received, sb.votes_received);
        let x = choose|x: NodeId| sa.votes_received.contains(x) && sb.votes_received.contains(x);
        assert(c.votes.contains((x, t, a)));
        assert(c.votes.contains((x, t, b)));
    }
}

/// Every step of a run keeps the invariant.
pub proof fn lemma_run_inv(c: Cluster, steps: Seq<(NodeId, Event)>)
    requires
        cluster_inv(c),
        run_ok(c, steps),
    ensures
        cluster_inv(run_end(c, steps)),
    decreases steps.len(),
{
    if steps.len() > 0 {
        lemma_step_inv(c, steps[0].0, steps[0].1);
        lemma_run_inv(cluster_step(c, steps[0].0, steps[0].1), steps.drop_first());
    }
}

/// Election safety: in every run from a starting cluster whose nodes all
/// know the whole membership, two leaders of the same term are the same node.
pub proof fn lemma_election_safety(c: Cluster, steps: Seq<(NodeId, Event)>)
    requires
        cluster_init(c),
        run_ok(c, steps),
    ensures
        election_safe(run_end(c, steps)),
{
    lemma_init_inv(c);
    lemma_run_inv(c, steps);
    lemma_inv_safe(run_end(c, steps));
}

/// Terms never go back: in every run from a starting cluster whose nodes all
/// know the whole membership, each node ends in a term at least the one it
/// started in.
pub proof fn lemma_terms_never_decrease_in_runs(c: Cluster, steps: Seq<(NodeId, Event)>, id: NodeId)
    requires
        cluster_init(c),
        run_ok(c, steps),
        c.nodes.contains_key(id),
    ensures
        run_end(c, steps).nodes.contains_key(id),
        run_end(c, steps).nodes[id].current_term >= c.nodes[id].current_term,
{
    lemma_init_inv(c);
    lemma_terms_kept(c, steps, id);
}

/// Terms never go back along a run from a cluster that satisfies the invariant.
proof fn lemma_terms_kept(c: Cluster, steps: Seq<(NodeId, Event)>, id: NodeId)
    requires
        cluster_inv(c),
        run_ok(c, steps),
        c.nodes.contains_key(id),
    ensures
        run_end(c, steps).nodes.contains_key(id),
        run_end(c, steps).nodes[id].current_term >= c.nodes[id].current_term,
    decreases steps.len(),
{
    if steps.len() > 0 {
        let (n, e) = steps[0];
        let c2 = cluster_step(c, n, e);
        lemma_step_inv(c, n, e);
        if n == id {
            crate::raft::laws::lemma_term_never_decreases(c.nodes[id], e);
        }
        assert(c2.nodes.contains_key(id));
        lemma_terms_kept(c2, steps.drop_first(), id);
    }
}

/// One vote per term: in every run from a starting cluster whose nodes all
/// know the whole membership, the votes that one node grants in one term all
/// go to the same candidate.
pub proof fn lemma_one_vote_per_term_in_runs(
    c: Cluster,
    steps: Seq<(NodeId, Event)>,
    p1: (NodeId, VoteResponse),
    p2: (NodeId, VoteResponse),
)
    requires
        cluster_init(c),
        run_ok(c, steps),
        run_end(c, steps).network.contains(p1),
        run_end(c, steps).network.contains(p2),
        p1.1.2,
        p2.1.2,
        p1.1.0 == p2.1.0,
        p1.1.1 == p2.1.1,
    ensures
        p1.0 == p2.0,
{
    lemma_init_inv(c);
    lemma_run_inv(c, steps);
    let c2 = run_end(c, steps);
    assert(c2.votes.contains((p1.1.0, p1.1.1, p1.0)));
    assert(c2.votes.contains((p2.1.0, p2.1.1, p2.0)));
}

} // verus!
