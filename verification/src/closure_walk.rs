use std::collections::HashSet;

use vstd::prelude::*;

use crate::ids::ModelUuid;
use crate::model::{
    composite_tree, machine_tree, region_tree, region_trees, simple_tree, standalone_tree,
    standalone_trees, transition_trees, ElementTree, UmlStateMachine, UmlStateMachineCompositeState,
    UmlStateMachineCompositeStateRegion, UmlStateMachineInternalTransition, UmlStateMachineSimpleState,
    UmlStateMachineStandaloneElement,
};
use crate::tree::{
    all_nodes, flatten, flatten_seq, lemma_flatten_leaf_forest, lemma_select_forest_step, lemma_select_leaf_tree,
    lemma_select_one_bucket, lemma_select_seq_step, lemma_select_single, lemma_select_three_buckets,
    lemma_select_two_buckets, lemma_take_all, select,
};

verus! {

broadcast use vstd::std_specs::hash::group_hash_axioms;

/// The uuids of the nodes of the tree of a standalone element.
pub open spec fn standalone_uuids(e: UmlStateMachineStandaloneElement) -> Set<ModelUuid> {
    select(flatten(standalone_tree(e)), all_nodes())
}

pub open spec fn forest_select(ts: Seq<ElementTree>) -> Set<ModelUuid> {
    select(flatten_seq(ts), all_nodes())
}

proof fn lemma_transitions_leaves(v: Seq<UmlStateMachineInternalTransition>)
    ensures
        flatten_seq(transition_trees(v)) == transition_trees(v),
{
    let ts = transition_trees(v);
    assert forall|i: int| 0 <= i < ts.len() implies (#[trigger] ts[i]).buckets.len() == 0 by {}
    lemma_flatten_leaf_forest(ts);
}

pub(crate) fn collect_transitions(v: &Vec<UmlStateMachineInternalTransition>, w: &mut HashSet<ModelUuid>)
    ensures
        final(w)@ == old(w)@.union(forest_select(transition_trees(v@))),
{
    let ghost ts = transition_trees(v@);
    proof {
        lemma_transitions_leaves(v@);
    }
    let mut i: usize = 0;
    while i < v.len()
        invariant
            0 <= i <= v.len(),
            ts == transition_trees(v@),
            flatten_seq(ts) == ts,
            w@ == old(w)@.union(select(ts.take(i as int), all_nodes())),
        decreases v.len() - i,
    {
        w.insert(v[i].uuid);
        proof {
            lemma_select_seq_step(ts, i as int, all_nodes());
            lemma_select_single(ts[i as int], all_nodes());
            assert(w@ =~= old(w)@.union(select(ts.take(i + 1), all_nodes())));
        }
        i = i + 1;
    }
    proof {
        lemma_take_all(ts);
    }
}

pub(crate) fn collect_standalone(e: &UmlStateMachineStandaloneElement, w: &mut HashSet<ModelUuid>)
    ensures
        final(w)@ == old(w)@.union(standalone_uuids(*e)),
    decreases e,
{
    let ghost t = standalone_tree(*e);
    match e {
        UmlStateMachineStandaloneElement::StateMachine(m) => collect_machine(m, w),
        UmlStateMachineStandaloneElement::CompositeState(c) => collect_composite(c, w),
        UmlStateMachineStandaloneElement::SimpleState(s) => collect_simple(s, w),
        _ => {
            proof {
                lemma_select_leaf_tree(t, all_nodes());
                lemma_select_single(t, all_nodes());
            }
            w.insert(e.uuid());
            proof {
                assert(w@ =~= old(w)@.union(standalone_uuids(*e)));
            }
        },
    }
}

pub(crate) fn collect_standalones(v: &Vec<UmlStateMachineStandaloneElement>, w: &mut HashSet<ModelUuid>)
    ensures
        final(w)@ == old(w)@.union(forest_select(standalone_trees(v@))),
    decreases v,
{
    let ghost ts = standalone_trees(v@);
    let mut i: usize = 0;
    while i < v.len()
        invariant
            0 <= i <= v.len(),
            ts == standalone_trees(v@),
            w@ == old(w)@.union(forest_select(ts.take(i as int))),
        decreases v.len() - i,
    {
        collect_standalone(&v[i], w);
        proof {
            lemma_select_forest_step(ts, i as int, all_nodes());
            assert(w@ =~= old(w)@.union(forest_select(ts.take(i + 1))));
        }
        i = i + 1;
    }
    proof {
        lemma_take_all(ts);
    }
}

pub(crate) fn collect_machine(m: &UmlStateMachine, w: &mut HashSet<ModelUuid>)
    ensures
        final(w)@ == old(w)@.union(select(flatten(machine_tree(*m)), all_nodes())),
    decreases m,
{
    let ghost t = machine_tree(*m);
    proof {
        lemma_select_one_bucket(t, all_nodes());
        lemma_select_single(t, all_nodes());
    }
    w.insert(m.uuid);
    collect_standalones(&m.contained_elements, w);
    proof {
        assert(w@ =~= old(w)@.union(select(flatten(t), all_nodes())));
    }
}

pub(crate) fn collect_region(r: &UmlStateMachineCompositeStateRegion, w: &mut HashSet<ModelUuid>)
    ensures
        final(w)@ == old(w)@.union(select(flatten(region_tree(*r)), all_nodes())),
    decreases r,
{
    let ghost t = region_tree(*r);
    proof {
        lemma_select_one_bucket(t, all_nodes());
        lemma_select_single(t, all_nodes());
    }
    w.insert(r.uuid);
    collect_standalones(&r.contained_elements, w);
    proof {
        assert(w@ =~= old(w)@.union(select(flatten(t), all_nodes())));
    }
}

pub(crate) fn collect_regions(v: &Vec<UmlStateMachineCompositeStateRegion>, w: &mut HashSet<ModelUuid>)
    ensures
        final(w)@ == old(w)@.union(forest_select(region_trees(v@))),
    decreases v,
{
    let ghost ts = region_trees(v@);
    let mut i: usize = 0;
    while i < v.len()
        invariant
            0 <= i <= v.len(),
            ts == region_trees(v@),
            w@ == old(w)@.union(forest_select(ts.take(i as int))),
        decreases v.len() - i,
    {
        collect_region(&v[i], w);
        proof {
            lemma_select_forest_step(ts, i as int, all_nodes());
            assert(w@ =~= old(w)@.union(forest_select(ts.take(i + 1))));
        }
        i = i + 1;
    }
    proof {
        lemma_take_all(ts);
    }
}

pub(crate) fn collect_composite(c: &UmlStateMachineCompositeState, w: &mut HashSet<ModelUuid>)
    ensures
        final(w)@ == old(w)@.union(select(flatten(composite_tree(*c)), all_nodes())),
    decreases c,
{
    let ghost t = composite_tree(*c);
    proof {
        lemma_select_three_buckets(t, all_nodes());
        lemma_select_single(t, all_nodes());
    }
    w.insert(c.uuid);
    collect_transitions(&c.internal_transitions, w);
    collect_regions(&c.regions, w);
    proof {
        assert(w@ =~= old(w)@.union(select(flatten(t), all_nodes())));
    }
}

pub(crate) fn collect_simple(s: &UmlStateMachineSimpleState, w: &mut HashSet<ModelUuid>)
    ensures
        final(w)@ == old(w)@.union(select(flatten(simple_tree(*s)), all_nodes())),
{
    let ghost t = simple_tree(*s);
    proof {
        lemma_select_two_buckets(t, all_nodes());
        lemma_select_single(t, all_nodes());
    }
    w.insert(s.uuid);
    collect_transitions(&s.internal_transitions, w);
    proof {
        assert(w@ =~= old(w)@.union(select(flatten(t), all_nodes())));
    }
}

} // verus!

verus! {

use crate::closure::{
    dangling_in, lemma_mark_leaf, lemma_mark_leaves, lemma_mark_one_bucket, lemma_mark_seq_step,
    lemma_mark_three_buckets, lemma_mark_two_buckets, lemma_push_to_set, mark, mark_seq,
};
use crate::tree::{dangles, lemma_select_none};

proof fn lemma_transition_forest_leaves(v: Seq<UmlStateMachineInternalTransition>)
    ensures
        forall|i: int| 0 <= i < transition_trees(v).len() ==> (#[trigger] transition_trees(v)[i]).buckets.len() == 0,
{
}

pub(crate) fn mark_standalone(e: &UmlStateMachineStandaloneElement, w: &mut HashSet<ModelUuid>)
    ensures
        final(w)@ == mark(standalone_tree(*e), old(w)@),
    decreases e,
{
    match e {
        UmlStateMachineStandaloneElement::StateMachine(m) => mark_machine(m, w),
        UmlStateMachineStandaloneElement::CompositeState(c) => mark_composite(c, w),
        UmlStateMachineStandaloneElement::SimpleState(s) => mark_simple(s, w),
        _ => {
            proof {
                lemma_mark_leaf(standalone_tree(*e), w@);
            }
        },
    }
}

pub(crate) fn mark_standalones(v: &Vec<UmlStateMachineStandaloneElement>, w: &mut HashSet<ModelUuid>)
    ensures
        final(w)@ == mark_seq(standalone_trees(v@), old(w)@),
    decreases v,
{
    let ghost ts = standalone_trees(v@);
    let mut i: usize = 0;
    while i < v.len()
        invariant
            0 <= i <= v.len(),
            ts == standalone_trees(v@),
            w@ == mark_seq(ts.take(i as int), old(w)@),
        decreases v.len() - i,
    {
        mark_standalone(&v[i], w);
        proof {
            lemma_mark_seq_step(ts, i as int, old(w)@);
        }
        i = i + 1;
    }
    proof {
        lemma_take_all(ts);
    }
}

pub(crate) fn mark_machine(m: &UmlStateMachine, w: &mut HashSet<ModelUuid>)
    ensures
        final(w)@ == mark(machine_tree(*m), old(w)@),
    decreases m,
{
    if w.contains(&m.uuid) {
        collect_machine(m, w);
    } else {
        proof {
            lemma_mark_one_bucket(machine_tree(*m), w@);
        }
        mark_standalones(&m.contained_elements, w);
    }
}

pub(crate) fn mark_region(r: &UmlStateMachineCompositeStateRegion, w: &mut HashSet<ModelUuid>)
    ensures
        final(w)@ == mark(region_tree(*r), old(w)@),
    decreases r,
{
    if w.contains(&r.uuid) {
        collect_region(r, w);
    } else {
        proof {
            lemma_mark_one_bucket(region_tree(*r), w@);
        }
        mark_standalones(&r.contained_elements, w);
    }
}

pub(crate) fn mark_regions(v: &Vec<UmlStateMachineCompositeStateRegion>, w: &mut HashSet<ModelUuid>)
    ensures
        final(w)@ == mark_seq(region_trees(v@), old(w)@),
    decreases v,
{
    let ghost ts = region_trees(v@);
    let mut i: usize = 0;
    while i < v.len()
        invariant
            0 <= i <= v.len(),
            ts == region_trees(v@),
            w@ == mark_seq(ts.take(i as int), old(w)@),
        decreases v.len() - i,
    {
        mark_region(&v[i], w);
        proof {
            lemma_mark_seq_step(ts, i as int, old(w)@);
        }
        i = i + 1;
    }
    proof {
        lemma_take_all(ts);
    }
}

pub(crate) fn mark_composite(c: &UmlStateMachineCompositeState, w: &mut HashSet<ModelUuid>)
    ensures
        final(w)@ == mark(composite_tree(*c), old(w)@),
    decreases c,
{
    if w.contains(&c.uuid) {
        collect_composite(c, w);
    } else {
        proof {
            lemma_mark_three_buckets(composite_tree(*c), w@);
            lemma_transition_forest_leaves(c.internal_transitions@);
            lemma_mark_leaves(transition_trees(c.internal_transitions@), w@);
        }
        mark_regions(&c.regions, w);
    }
}

pub(crate) fn mark_simple(s: &UmlStateMachineSimpleState, w: &mut HashSet<ModelUuid>)
    ensures
        final(w)@ == mark(simple_tree(*s), old(w)@),
{
    if w.contains(&s.uuid) {
        collect_simple(s, w);
    } else {
        proof {
            lemma_mark_two_buckets(simple_tree(*s), w@);
            lemma_transition_forest_leaves(s.internal_transitions@);
            lemma_mark_leaves(transition_trees(s.internal_transitions@), w@);
        }
    }
}

// ---------------------------------------------------------------------------
// Relationships left dangling by a set of deleted uuids
// ---------------------------------------------------------------------------

pub open spec fn dangling_below(t: ElementTree, w: Set<ModelUuid>) -> Set<ModelUuid> {
    select(flatten(t), dangling_in(w))
}

pub open spec fn dangling_in_forest(ts: Seq<ElementTree>, w: Set<ModelUuid>) -> Set<ModelUuid> {
    select(flatten_seq(ts), dangling_in(w))
}

proof fn lemma_no_dangling_transitions(v: Seq<UmlStateMachineInternalTransition>, w: Set<ModelUuid>)
    ensures
        dangling_in_forest(transition_trees(v), w) == Set::<ModelUuid>::empty(),
{
    lemma_transitions_leaves(v);
    let ts = transition_trees(v);
    assert forall|i: int| 0 <= i < ts.len() implies !dangling_in(w)(#[trigger] ts[i]) by {}
    lemma_select_none(ts, dangling_in(w));
}

pub(crate) fn find_dangling_standalone(
    e: &UmlStateMachineStandaloneElement,
    w: &HashSet<ModelUuid>,
    acc: &mut Vec<ModelUuid>,
)
    ensures
        final(acc)@.to_set() == old(acc)@.to_set().union(dangling_below(standalone_tree(*e), w@)),
    decreases e,
{
    let ghost t = standalone_tree(*e);
    match e {
        UmlStateMachineStandaloneElement::StateMachine(m) => find_dangling_machine(m, w, acc),
        UmlStateMachineStandaloneElement::CompositeState(c) => find_dangling_composite(c, w, acc),
        UmlStateMachineStandaloneElement::SimpleState(s) => find_dangling_simple(s, w, acc),
        UmlStateMachineStandaloneElement::Edge(x) => {
            proof {
                lemma_select_leaf_tree(t, dangling_in(w@));
                lemma_select_single(t, dangling_in(w@));
            }
            if !w.contains(&x.uuid) && (w.contains(&x.source.uuid()) || w.contains(&x.target.uuid())) {
                proof {
                    lemma_push_to_set(acc@, x.uuid);
                }
                acc.push(x.uuid);
            }
            proof {
                assert(acc@.to_set() =~= old(acc)@.to_set().union(dangling_below(t, w@)));
            }
        },
        UmlStateMachineStandaloneElement::NoteLink(x) => {
            proof {
                lemma_select_leaf_tree(t, dangling_in(w@));
                lemma_select_single(t, dangling_in(w@));
            }
            if !w.contains(&x.uuid) && (w.contains(&x.source) || w.contains(&x.target.uuid)) {
                proof {
                    lemma_push_to_set(acc@, x.uuid);
                }
                acc.push(x.uuid);
            }
            proof {
                assert(acc@.to_set() =~= old(acc)@.to_set().union(dangling_below(t, w@)));
            }
        },
        _ => {
            proof {
                lemma_select_leaf_tree(t, dangling_in(w@));
                lemma_select_single(t, dangling_in(w@));
                assert(acc@.to_set() =~= old(acc)@.to_set().union(dangling_below(t, w@)));
            }
        },
    }
}

pub(crate) fn find_dangling_standalones(
    v: &Vec<UmlStateMachineStandaloneElement>,
    w: &HashSet<ModelUuid>,
    acc: &mut Vec<ModelUuid>,
)
    ensures
        final(acc)@.to_set() == old(acc)@.to_set().union(dangling_in_forest(standalone_trees(v@), w@)),
    decreases v,
{
    let ghost ts = standalone_trees(v@);
    let mut i: usize = 0;
    while i < v.len()
        invariant
            0 <= i <= v.len(),
            ts == standalone_trees(v@),
            acc@.to_set() == old(acc)@.to_set().union(dangling_in_forest(ts.take(i as int), w@)),
        decreases v.len() - i,
    {
        find_dangling_standalone(&v[i], w, acc);
        proof {
            lemma_select_forest_step(ts, i as int, dangling_in(w@));
            assert(acc@.to_set() =~= old(acc)@.to_set().union(dangling_in_forest(ts.take(i + 1), w@)));
        }
        i = i + 1;
    }
    proof {
        lemma_take_all(ts);
    }
}

pub(crate) fn find_dangling_machine(m: &UmlStateMachine, w: &HashSet<ModelUuid>, acc: &mut Vec<ModelUuid>)
    ensures
        final(acc)@.to_set() == old(acc)@.to_set().union(dangling_below(machine_tree(*m), w@)),
    decreases m,
{
    let ghost t = machine_tree(*m);
    proof {
        lemma_select_one_bucket(t, dangling_in(w@));
        lemma_select_single(t, dangling_in(w@));
    }
    find_dangling_standalones(&m.contained_elements, w, acc);
    proof {
        assert(acc@.to_set() =~= old(acc)@.to_set().union(dangling_below(t, w@)));
    }
}

pub(crate) fn find_dangling_region(
    r: &UmlStateMachineCompositeStateRegion,
    w: &HashSet<ModelUuid>,
    acc: &mut Vec<ModelUuid>,
)
    ensures
        final(acc)@.to_set() == old(acc)@.to_set().union(dangling_below(region_tree(*r), w@)),
    decreases r,
{
    let ghost t = region_tree(*r);
    proof {
        lemma_select_one_bucket(t, dangling_in(w@));
        lemma_select_single(t, dangling_in(w@));
    }
    find_dangling_standalones(&r.contained_elements, w, acc);
    proof {
        assert(acc@.to_set() =~= old(acc)@.to_set().union(dangling_below(t, w@)));
    }
}

pub(crate) fn find_dangling_regions(
    v: &Vec<UmlStateMachineCompositeStateRegion>,
    w: &HashSet<ModelUuid>,
    acc: &mut Vec<ModelUuid>,
)
    ensures
        final(acc)@.to_set() == old(acc)@.to_set().union(dangling_in_forest(region_trees(v@), w@)),
    decreases v,
{
    let ghost ts = region_trees(v@);
    let mut i: usize = 0;
    while i < v.len()
        invariant
            0 <= i <= v.len(),
            ts == region_trees(v@),
            acc@.to_set() == old(acc)@.to_set().union(dangling_in_forest(ts.take(i as int), w@)),
        decreases v.len() - i,
    {
        find_dangling_region(&v[i], w, acc);
        proof {
            lemma_select_forest_step(ts, i as int, dangling_in(w@));
            assert(acc@.to_set() =~= old(acc)@.to_set().union(dangling_in_forest(ts.take(i + 1), w@)));
        }
        i = i + 1;
    }
    proof {
        lemma_take_all(ts);
    }
}

pub(crate) fn find_dangling_composite(
    c: &UmlStateMachineCompositeState,
    w: &HashSet<ModelUuid>,
    acc: &mut Vec<ModelUuid>,
)
    ensures
        final(acc)@.to_set() == old(acc)@.to_set().union(dangling_below(composite_tree(*c), w@)),
    decreases c,
{
    let ghost t = composite_tree(*c);
    proof {
        lemma_select_three_buckets(t, dangling_in(w@));
        lemma_select_single(t, dangling_in(w@));
        lemma_no_dangling_transitions(c.internal_transitions@, w@);
    }
    find_dangling_regions(&c.regions, w, acc);
    proof {
        assert(acc@.to_set() =~= old(acc)@.to_set().union(dangling_below(t, w@)));
    }
}

pub(crate) fn find_dangling_simple(s: &UmlStateMachineSimpleState, w: &HashSet<ModelUuid>, acc: &mut Vec<ModelUuid>)
    ensures
        final(acc)@.to_set() == old(acc)@.to_set().union(dangling_below(simple_tree(*s), w@)),
{
    let ghost t = simple_tree(*s);
    proof {
        lemma_select_two_buckets(t, dangling_in(w@));
        lemma_select_single(t, dangling_in(w@));
        lemma_no_dangling_transitions(s.internal_transitions@, w@);
        assert(acc@.to_set() =~= old(acc)@.to_set().union(dangling_below(t, w@)));
    }
}

} // verus!

verus! {

use crate::closure::{closure_base, is_link_closure, lemma_pending_strict, pending};
use crate::model::UmlStateMachineDiagram;
use crate::tree::closed_under_links;

/// Computes the uuids to delete when deleting `when_deleting` from `d`: the
/// subtrees of the containers being deleted, then every relationship that is
/// left with a deleted endpoint, until no relationship is left so.
pub fn transitive_closure(d: &UmlStateMachineDiagram, when_deleting: HashSet<ModelUuid>) -> (r: HashSet<
    ModelUuid,
>)
    ensures
        when_deleting@.subset_of(r@),
        is_link_closure(d@, closure_base(d@, when_deleting@), r@),
{
    let mut w = when_deleting;
    mark_standalones(&d.contained_elements, &mut w);
    let ghost base = w@;
    proof {
        crate::closure::lemma_mark_seq_extends(d@.elements, when_deleting@);
    }
    let ghost nodes = flatten_seq(d@.elements);
    assert(base == closure_base(d@, when_deleting@));
    loop
        invariant
            base == closure_base(d@, when_deleting@),
            when_deleting@.subset_of(base),
            nodes == flatten_seq(d@.elements),
            d@.elements == standalone_trees(d.contained_elements@),
            base.subset_of(w@),
            forall|t: Set<ModelUuid>| #[trigger]
                closed_under_links(t, nodes) && base.subset_of(t) ==> w@.subset_of(t),
        ensures
            is_link_closure(d@, base, w@),
            when_deleting@.subset_of(base),
        decreases pending(nodes, w@),
    {
        let mut also_delete: Vec<ModelUuid> = Vec::new();
        find_dangling_standalones(&d.contained_elements, &w, &mut also_delete);
        let ghost found = select(nodes, dangling_in(w@));
        assert(also_delete@.to_set() =~= found);
        if also_delete.len() == 0 {
            assert forall|i: int| 0 <= i < nodes.len() implies !dangles(#[trigger] nodes[i], w@) by {
                if dangles(nodes[i], w@) {
                    assert(found.contains(nodes[i].uuid));
                    assert(also_delete@.contains(nodes[i].uuid));
                }
            }
            break;
        }
        let ghost w_old = w@;
        let mut j: usize = 0;
        while j < also_delete.len()
            invariant
                0 <= j <= also_delete.len(),
                w@ == w_old.union(also_delete@.take(j as int).to_set()),
            decreases also_delete.len() - j,
        {
            proof {
                assert(also_delete@.take(j + 1) =~= also_delete@.take(j as int).push(also_delete@[j as int]));
                lemma_push_to_set(also_delete@.take(j as int), also_delete@[j as int]);
            }
            w.insert(also_delete[j]);
            proof {
                assert(w@ =~= w_old.union(also_delete@.take(j + 1).to_set()));
            }
            j = j + 1;
        }
        proof {
            lemma_take_all(also_delete@);
            assert(w@ == w_old.union(found));
            assert forall|t: Set<ModelUuid>| #[trigger]
                closed_under_links(t, nodes) && base.subset_of(t) implies w@.subset_of(t) by {
                assert forall|u: ModelUuid| found.contains(u) implies t.contains(u) by {
                    let i = choose|i: int| 0 <= i < nodes.len() && dangling_in(w_old)(nodes[i]) && #[trigger] nodes[i].uuid == u;
                    assert(!dangles(nodes[i], t));
                }
            }
            assert(also_delete@.contains(also_delete@[0]));
            assert(found.contains(also_delete@[0]));
            let i = choose|i: int| 0 <= i < nodes.len() && dangling_in(w_old)(nodes[i]) && #[trigger] nodes[i].uuid == also_delete@[0];
            lemma_pending_strict(nodes, w_old, w@, i);
        }
    }
    w
}

} // verus!
