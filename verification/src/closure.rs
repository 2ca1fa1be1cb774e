use vstd::prelude::*;

use crate::ids::ModelUuid;
use crate::model::{DiagramTree, ElementTree};
use crate::tree::{
    all_nodes,
    closed_under_links, dangles, flatten_seq, is_link_kind, lemma_flatten_leaf, lemma_select_single,
    tree_uuids,
};

verus! {

broadcast use vstd::std_specs::hash::group_hash_axioms;

// ---------------------------------------------------------------------------
// Specification
// ---------------------------------------------------------------------------

/// Extends `s` by walking the tree: the whole subtree of every node that is
/// in the set when the walk reaches it is added, and the walk does not
/// descend below such a node.
pub open spec fn mark(t: ElementTree, s: Set<ModelUuid>) -> Set<ModelUuid>
    decreases t,
{
    if s.contains(t.uuid) {
        s.union(tree_uuids(t))
    } else {
        mark_buckets(t.buckets, s)
    }
}

pub open spec fn mark_buckets(bs: Seq<Seq<ElementTree>>, s: Set<ModelUuid>) -> Set<ModelUuid>
    decreases bs,
{
    if bs.len() == 0 {
        s
    } else {
        mark_seq(bs.last(), mark_buckets(bs.drop_last(), s))
    }
}

/// `mark` applied to each tree of a forest in order.
pub open spec fn mark_seq(es: Seq<ElementTree>, s: Set<ModelUuid>) -> Set<ModelUuid>
    decreases es,
{
    if es.len() == 0 {
        s
    } else {
        mark(es.last(), mark_seq(es.drop_last(), s))
    }
}

pub open spec fn dangling_in(w: Set<ModelUuid>) -> spec_fn(ElementTree) -> bool {
    |t: ElementTree| dangles(t, w)
}

/// A relationship not yet in `w`.
pub open spec fn is_pending(t: ElementTree, w: Set<ModelUuid>) -> bool {
    is_link_kind(t.kind) && t.links.len() == 2 && !w.contains(t.uuid)
}

/// The number of relationships among `s` that are not in `w`.
pub open spec fn pending(s: Seq<ElementTree>, w: Set<ModelUuid>) -> nat
    decreases s.len(),
{
    if s.len() == 0 {
        0
    } else {
        pending(s.drop_last(), w) + if is_pending(s.last(), w) { 1nat } else { 0nat }
    }
}

/// The set that the first walk of the deletion closure builds from `start`.
pub open spec fn closure_base(d: DiagramTree, start: Set<ModelUuid>) -> Set<ModelUuid> {
    mark_seq(d.elements, start)
}

/// `r` is the smallest superset of `base` that holds every relationship of
/// the diagram with an endpoint in it.
pub open spec fn is_link_closure(d: DiagramTree, base: Set<ModelUuid>, r: Set<ModelUuid>) -> bool {
    let nodes = flatten_seq(d.elements);
    &&& base.subset_of(r)
    &&& closed_under_links(r, nodes)
    &&& forall|t: Set<ModelUuid>| #[trigger] closed_under_links(t, nodes) && base.subset_of(t) ==> r.subset_of(t)
}

// ---------------------------------------------------------------------------
// Lemmas
// ---------------------------------------------------------------------------

pub proof fn lemma_mark_seq_step(es: Seq<ElementTree>, i: int, s: Set<ModelUuid>)
    requires
        0 <= i < es.len(),
    ensures
        mark_seq(es.take(i + 1), s) == mark(es[i], mark_seq(es.take(i), s)),
{
    assert(es.take(i + 1).drop_last() =~= es.take(i));
}

pub proof fn lemma_mark_one_bucket(t: ElementTree, s: Set<ModelUuid>)
    requires
        t.buckets.len() == 1,
        !s.contains(t.uuid),
    ensures
        mark(t, s) == mark_seq(t.buckets[0], s),
{
    assert(t.buckets.drop_last().len() == 0);
}

pub proof fn lemma_mark_two_buckets(t: ElementTree, s: Set<ModelUuid>)
    requires
        t.buckets.len() == 2,
        t.buckets[0].len() == 0,
        !s.contains(t.uuid),
    ensures
        mark(t, s) == mark_seq(t.buckets[1], s),
{
    let b1 = t.buckets.drop_last();
    assert(b1.drop_last().len() == 0);
    assert(b1.last().len() == 0);
    assert(mark_buckets(b1.drop_last(), s) == s);
    assert(mark_seq(b1.last(), s) == s);
    assert(mark_buckets(b1, s) == s);
}

pub proof fn lemma_mark_three_buckets(t: ElementTree, s: Set<ModelUuid>)
    requires
        t.buckets.len() == 3,
        t.buckets[0].len() == 0,
        !s.contains(t.uuid),
    ensures
        mark(t, s) == mark_seq(t.buckets[2], mark_seq(t.buckets[1], s)),
{
    let b2 = t.buckets.drop_last();
    let b1 = b2.drop_last();
    assert(b1.drop_last().len() == 0);
    assert(b1.last().len() == 0);
    assert(mark_buckets(b1.drop_last(), s) == s);
    assert(mark_seq(b1.last(), s) == s);
    assert(mark_buckets(b1, s) == s);
    assert(mark_buckets(b2, s) == mark_seq(t.buckets[1], s));
}

pub proof fn lemma_tree_uuids_leaf(t: ElementTree)
    requires
        t.buckets.len() == 0,
    ensures
        tree_uuids(t) == set![t.uuid],
{
    lemma_flatten_leaf(t);
    lemma_select_single(t, all_nodes());
}

pub proof fn lemma_mark_leaf(t: ElementTree, s: Set<ModelUuid>)
    requires
        t.buckets.len() == 0,
    ensures
        mark(t, s) == s,
{
    lemma_tree_uuids_leaf(t);
    if s.contains(t.uuid) {
        assert(s.union(set![t.uuid]) =~= s);
    }
}

pub proof fn lemma_mark_leaves(es: Seq<ElementTree>, s: Set<ModelUuid>)
    requires
        forall|i: int| 0 <= i < es.len() ==> (#[trigger] es[i]).buckets.len() == 0,
    ensures
        mark_seq(es, s) == s,
    decreases es.len(),
{
    if es.len() > 0 {
        lemma_mark_leaves(es.drop_last(), s);
        lemma_mark_leaf(es.last(), s);
    }
}

pub proof fn lemma_pending_mono(s: Seq<ElementTree>, w: Set<ModelUuid>, w2: Set<ModelUuid>)
    requires
        w.subset_of(w2),
    ensures
        pending(s, w2) <= pending(s, w),
    decreases s.len(),
{
    if s.len() > 0 {
        lemma_pending_mono(s.drop_last(), w, w2);
    }
}

pub proof fn lemma_pending_strict(s: Seq<ElementTree>, w: Set<ModelUuid>, w2: Set<ModelUuid>, i: int)
    requires
        w.subset_of(w2),
        0 <= i < s.len(),
        is_pending(s[i], w),
        w2.contains(s[i].uuid),
    ensures
        pending(s, w2) < pending(s, w),
    decreases s.len(),
{
    if i == s.len() - 1 {
        lemma_pending_mono(s.drop_last(), w, w2);
    } else {
        assert(s.drop_last()[i] == s[i]);
        lemma_pending_strict(s.drop_last(), w, w2, i);
    }
}

pub proof fn lemma_push_to_set(s: Seq<ModelUuid>, x: ModelUuid)
    ensures
        s.push(x).to_set() == s.to_set().insert(x),
{
    assert forall|u: ModelUuid| s.push(x).to_set().contains(u) implies s.to_set().insert(x).contains(u) by {
        let i = choose|i: int| 0 <= i < s.push(x).len() && s.push(x)[i] == u;
        if i < s.len() {
            assert(s[i] == u);
        }
    }
    assert forall|u: ModelUuid| s.to_set().insert(x).contains(u) implies s.push(x).to_set().contains(u) by {
        if u == x {
            assert(s.push(x)[s.len() as int] == x);
        } else {
            let i = choose|i: int| 0 <= i < s.len() && s[i] == u;
            assert(s.push(x)[i] == u);
        }
    }
    assert(s.push(x).to_set() =~= s.to_set().insert(x));
}


} // verus!

verus! {

pub proof fn lemma_mark_extends(t: ElementTree, s: Set<ModelUuid>)
    ensures
        s.subset_of(mark(t, s)),
    decreases t, 0nat,
{
    if !s.contains(t.uuid) {
        lemma_mark_buckets_extends(t.buckets, s);
    }
}

pub proof fn lemma_mark_buckets_extends(bs: Seq<Seq<ElementTree>>, s: Set<ModelUuid>)
    ensures
        s.subset_of(mark_buckets(bs, s)),
    decreases bs, 0nat,
{
    if bs.len() > 0 {
        lemma_mark_buckets_extends(bs.drop_last(), s);
        lemma_mark_seq_extends(bs.last(), mark_buckets(bs.drop_last(), s));
    }
}

pub proof fn lemma_mark_seq_extends(es: Seq<ElementTree>, s: Set<ModelUuid>)
    ensures
        s.subset_of(mark_seq(es, s)),
    decreases es, 0nat,
{
    if es.len() > 0 {
        lemma_mark_seq_extends(es.drop_last(), s);
        lemma_mark_extends(es.last(), mark_seq(es.drop_last(), s));
    }
}

} // verus!
