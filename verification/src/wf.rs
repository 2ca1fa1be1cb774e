use vstd::prelude::*;

use crate::find_spec::{find_below, find_in, find_in_buckets, is_searchable};
use crate::ids::ModelUuid;
use crate::model::{
    composite_tree, is_standalone_kind, machine_tree, region_tree, region_trees, simple_tree, standalone_tree,
    standalone_trees, DiagramTree, ElementKind, ElementTree, UmlStateMachine, UmlStateMachineCompositeState,
    UmlStateMachineCompositeStateRegion, UmlStateMachineDiagram, UmlStateMachineStandaloneElement,
};

verus! {

broadcast use vstd::std_specs::vec::axiom_spec_len;

/// The shape that every element has: state machines and regions hold one
/// list of standalone elements; composite states an empty bucket, internal
/// transitions and regions; simple states an empty bucket and internal
/// transitions; the other elements hold nothing.
pub open spec fn tree_wf(t: ElementTree) -> bool
    decreases t,
{
    &&& forall|b: int| 0 <= b < t.buckets.len() ==> (#[trigger] t.buckets[b]).len() <= usize::MAX
    &&& if t.kind == ElementKind::StateMachine || t.kind == ElementKind::CompositeStateRegion {
        &&& t.buckets.len() == 1
        &&& forall|i: int|
            0 <= i < t.buckets[0].len() ==> is_standalone_kind(#[trigger] t.buckets[0][i].kind) && tree_wf(t.buckets[0][i])
    } else if t.kind == ElementKind::CompositeState {
        &&& t.buckets.len() == 3
        &&& t.buckets[0].len() == 0
        &&& forall|i: int|
            0 <= i < t.buckets[1].len() ==> (#[trigger] t.buckets[1][i]).kind == ElementKind::InternalTransition
                && t.buckets[1][i].buckets.len() == 0
        &&& forall|i: int|
            0 <= i < t.buckets[2].len() ==> (#[trigger] t.buckets[2][i]).kind == ElementKind::CompositeStateRegion
                && tree_wf(t.buckets[2][i])
    } else if t.kind == ElementKind::SimpleState {
        &&& t.buckets.len() == 2
        &&& t.buckets[0].len() == 0
        &&& forall|i: int|
            0 <= i < t.buckets[1].len() ==> (#[trigger] t.buckets[1][i]).kind == ElementKind::InternalTransition
                && t.buckets[1][i].buckets.len() == 0
    } else {
        t.buckets.len() == 0
    }
}

/// A list of standalone elements of the right shape.
pub open spec fn forest_wf(es: Seq<ElementTree>) -> bool {
    &&& es.len() <= usize::MAX
    &&& forall|i: int| 0 <= i < es.len() ==> is_standalone_kind(#[trigger] es[i].kind) && tree_wf(es[i])
}

/// A diagram of the right shape.
pub open spec fn diagram_wf(d: DiagramTree) -> bool {
    forest_wf(d.elements)
}

// ---------------------------------------------------------------------------
// Every value of the library's types has the right shape.
// ---------------------------------------------------------------------------

pub proof fn lemma_standalone_wf(e: UmlStateMachineStandaloneElement)
    ensures
        tree_wf(standalone_tree(e)),
        is_standalone_kind(standalone_tree(e).kind),
    decreases e,
{
    match e {
        UmlStateMachineStandaloneElement::StateMachine(m) => lemma_machine_wf(m),
        UmlStateMachineStandaloneElement::CompositeState(c) => lemma_composite_wf(c),
        UmlStateMachineStandaloneElement::SimpleState(s) => {
            assert(s.internal_transitions@.len() == s.internal_transitions.len());
            assert(tree_wf(simple_tree(s)));
        },
        _ => {},
    }
}

pub proof fn lemma_standalones_wf(v: Vec<UmlStateMachineStandaloneElement>)
    ensures
        forest_wf(standalone_trees(v@)),
    decreases v,
{
    assert(v@.len() == v.len());
    assert forall|i: int| 0 <= i < standalone_trees(v@).len() implies is_standalone_kind(
        #[trigger] standalone_trees(v@)[i].kind,
    ) && tree_wf(standalone_trees(v@)[i]) by {
        lemma_standalone_wf(v@[i]);
    }
}

pub proof fn lemma_machine_wf(m: UmlStateMachine)
    ensures
        tree_wf(machine_tree(m)),
    decreases m,
{
    lemma_standalones_wf(m.contained_elements);
}

pub proof fn lemma_region_wf(g: UmlStateMachineCompositeStateRegion)
    ensures
        tree_wf(region_tree(g)),
    decreases g,
{
    lemma_standalones_wf(g.contained_elements);
}

pub proof fn lemma_composite_wf(c: UmlStateMachineCompositeState)
    ensures
        tree_wf(composite_tree(c)),
    decreases c,
{
    assert(c.regions@.len() == c.regions.len());
    assert(c.internal_transitions@.len() == c.internal_transitions.len());
    assert forall|i: int| 0 <= i < region_trees(c.regions@).len() implies (#[trigger] region_trees(c.regions@)[i]).kind
        == ElementKind::CompositeStateRegion && tree_wf(region_trees(c.regions@)[i]) by {
        lemma_region_wf(c.regions@[i]);
    }
}

pub proof fn lemma_diagram_wf(d: UmlStateMachineDiagram)
    ensures
        diagram_wf(d@),
{
    lemma_standalones_wf(d.contained_elements);
}

// ---------------------------------------------------------------------------
// What a lookup finds has the right shape.
// ---------------------------------------------------------------------------

pub proof fn lemma_found_wf(parent: ModelUuid, es: Seq<ElementTree>, u: ModelUuid)
    requires
        forall|i: int| 0 <= i < es.len() ==> tree_wf(#[trigger] es[i]),
    ensures
        find_in(parent, es, u) matches Some((t, _)) ==> tree_wf(t),
    decreases es,
{
    if es.len() > 0 {
        assert(forall|i: int| 0 <= i < es.len() - 1 ==> es.drop_last()[i] == es[i]);
        lemma_found_wf(parent, es.drop_last(), u);
        lemma_found_below_wf(es.last(), u);
    }
}

pub proof fn lemma_found_below_wf(t: ElementTree, u: ModelUuid)
    requires
        tree_wf(t),
    ensures
        find_below(t, u) matches Some((x, _)) ==> tree_wf(x),
    decreases t,
{
    if is_searchable(t.kind) {
        lemma_found_buckets_wf(t, t.buckets.len() as int, u);
        assert(t.buckets.take(t.buckets.len() as int) =~= t.buckets);
    }
}

proof fn lemma_found_buckets_wf(t: ElementTree, k: int, u: ModelUuid)
    requires
        tree_wf(t),
        is_searchable(t.kind),
        0 <= k <= t.buckets.len(),
    ensures
        find_in_buckets(t.uuid, t.buckets.take(k), u) matches Some((x, _)) ==> tree_wf(x),
    decreases t, k,
{
    if k > 0 {
        let bs = t.buckets.take(k);
        assert(bs.drop_last() =~= t.buckets.take(k - 1));
        lemma_found_buckets_wf(t, k - 1, u);
        let b = t.buckets[k - 1];
        assert(bs.last() == b);
        if t.kind == ElementKind::CompositeState && k - 1 == 1 {
            assert(forall|i: int| 0 <= i < b.len() ==> tree_wf(#[trigger] b[i]));
        } else {
            assert(forall|i: int| 0 <= i < b.len() ==> tree_wf(#[trigger] b[i]));
        }
        lemma_found_wf(t.uuid, b, u);
    }
}

} // verus!
