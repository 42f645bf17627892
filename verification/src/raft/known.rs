//! The ids a node knows, kept in a `BTreeSet` and read in increasing order.

use crate::raft::messages::NodeId;
use crate::raft::model::{lemma_sorted_ids, sorted_ids, strictly_increasing};
use std::collections::BTreeSet;
use vstd::prelude::*;
use vstd::std_specs::btree::spec_btree_keys_iter;

verus! {

broadcast use {vstd::std_specs::btree::group_btree_axioms, vstd::laws_cmp::group_laws_cmp};

/// A set of ids is finite, and its ordered form holds exactly its ids.
pub proof fn lemma_known_ids(set: &BTreeSet<NodeId>)
    ensures
        set@.finite(),
        strictly_increasing(sorted_ids(set@)),
        sorted_ids(set@).to_set() == set@,
        sorted_ids(set@).len() == set@.len(),
        vstd::std_specs::btree::key_obeys_cmp_spec::<NodeId>(),
        sorted_ids(set@) == vstd::std_specs::iter::IteratorSpec::remaining(&spec_btree_keys_iter(set)).unref(),
{
    let q = vstd::std_specs::iter::IteratorSpec::remaining(&spec_btree_keys_iter(set));
    let u = q.unref();
    assert(vstd::laws_cmp::obeys_cmp::<NodeId>());
    assert(vstd::laws_cmp::obeys_cmp::<&NodeId>());
    vstd::std_specs::btree::axiom_increasing_seq_meaning(q);
    vstd::std_specs::btree::axiom_spec_btree_keys_iter(set);
    assert forall|i: int, j: int| 0 <= i < j < u.len() implies u[i] < u[j] by {
        assert(vstd::std_specs::cmp::OrdSpec::cmp_spec(&q[i], &q[j]) is Less);
    }
    lemma_sorted_ids(set@, u);
}

/// The ids of `set` in increasing order.
pub fn ids_in_order(set: &BTreeSet<NodeId>) -> (r: Vec<NodeId>)
    ensures
        r@ == sorted_ids(set@),
{
    proof {
        lemma_known_ids(set);
    }
    let mut r: Vec<NodeId> = Vec::new();
    for id in it: set.iter()
        invariant
            it.seq().unref() == sorted_ids(set@),
            r@ == sorted_ids(set@).take(it.index()),
    {
        proof {
            assert(sorted_ids(set@).take(it.index() + 1) =~= r@.push(*id));
        }
        r.push(*id);
    }
    proof {
        assert(r@ =~= sorted_ids(set@));
    }
    r
}

/// Whether `set` holds `id`.
pub fn holds_id(set: &BTreeSet<NodeId>, id: NodeId) -> (r: bool)
    ensures
        r == sorted_ids(set@).contains(id),
{
    proof {
        lemma_known_ids(set);
        assert(vstd::laws_cmp::obeys_cmp::<NodeId>());
    }
    set.contains(&id)
}

/// How many ids `set` holds.
pub fn count_ids(set: &BTreeSet<NodeId>) -> (n: usize)
    ensures
        n == sorted_ids(set@).len(),
{
    proof {
        lemma_known_ids(set);
    }
    set.len()
}

/// Adds `id` to `set`; the ordered ids stay strictly increasing and gain `id`.
pub fn add_id(set: &mut BTreeSet<NodeId>, id: NodeId)
    ensures
        strictly_increasing(sorted_ids(final(set)@)),
        sorted_ids(final(set)@).to_set() == sorted_ids(old(set)@).to_set().insert(id),
{
    proof {
        lemma_known_ids(set);
        assert(vstd::laws_cmp::obeys_cmp::<NodeId>());
    }
    set.insert(id);
    proof {
        lemma_known_ids(set);
    }
}

/// No ids: the ordered form of an empty set is empty.
pub fn no_ids() -> (set: BTreeSet<NodeId>)
    ensures
        sorted_ids(set@) == Seq::<NodeId>::empty(),
{
    let set: BTreeSet<NodeId> = BTreeSet::new();
    proof {
        lemma_known_ids(&set);
        assert(sorted_ids(set@) =~= Seq::<NodeId>::empty());
    }
    set
}

} // verus!
