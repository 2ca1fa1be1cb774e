use std::collections::HashMap;

use vstd::prelude::*;

use crate::ids::ModelUuid;
use crate::model::{
    element_tree, region_tree, region_trees, standalone_tree, standalone_trees, transition_trees, DiagramTree,
    ElementTree, UmlStateMachineCompositeStateRegion, UmlStateMachineDiagram, UmlStateMachineElement,
    UmlStateMachineInternalTransition, UmlStateMachineStandaloneElement,
};
use crate::tree::{
    flatten, flatten_seq, lemma_flatten_leaf, lemma_flatten_leaf_forest, lemma_flatten_one_bucket,
    lemma_flatten_seq_step, lemma_flatten_three_buckets, lemma_flatten_two_buckets, lemma_take_all,
};

verus! {

broadcast use vstd::std_specs::hash::group_hash_axioms;

/// `m` extended with each node of `s`, in order, keyed by its uuid (a later
/// node replaces an earlier one with the same uuid).
pub open spec fn index_from(m: Map<ModelUuid, ElementTree>, s: Seq<ElementTree>) -> Map<ModelUuid, ElementTree>
    decreases s.len(),
{
    if s.len() == 0 {
        m
    } else {
        index_from(m, s.drop_last()).insert(s.last().uuid, s.last())
    }
}

/// Every element of the diagram, at any depth, keyed by its uuid.
pub open spec fn enumerated(d: DiagramTree) -> Map<ModelUuid, ElementTree> {
    index_from(Map::empty(), flatten_seq(d.elements))
}

/// The model of a map from uuids to elements.
pub open spec fn element_map(m: Map<ModelUuid, UmlStateMachineElement>) -> Map<ModelUuid, ElementTree> {
    m.map_values(|e: UmlStateMachineElement| element_tree(e))
}

pub proof fn lemma_index_from_concat(m: Map<ModelUuid, ElementTree>, a: Seq<ElementTree>, b: Seq<ElementTree>)
    ensures
        index_from(m, a + b) == index_from(index_from(m, a), b),
    decreases b.len(),
{
    if b.len() == 0 {
        assert(a + b =~= a);
    } else {
        lemma_index_from_concat(m, a, b.drop_last());
        assert((a + b).drop_last() =~= a + b.drop_last());
        assert((a + b).last() == b.last());
    }
}

pub proof fn lemma_index_from_single(m: Map<ModelUuid, ElementTree>, t: ElementTree)
    ensures
        index_from(m, seq![t]) == m.insert(t.uuid, t),
{
    assert(seq![t].drop_last() =~= Seq::<ElementTree>::empty());
    assert(index_from(m, seq![t].drop_last()) == m);
    assert(seq![t].last() == t);
}

proof fn lemma_element_map_insert(m: Map<ModelUuid, UmlStateMachineElement>, k: ModelUuid, e: UmlStateMachineElement)
    ensures
        element_map(m.insert(k, e)) == element_map(m).insert(k, element_tree(e)),
{
    assert(element_map(m.insert(k, e)) =~= element_map(m).insert(k, element_tree(e)));
}

fn record(into: &mut HashMap<ModelUuid, UmlStateMachineElement>, e: UmlStateMachineElement)
    ensures
        element_map(final(into)@) == element_map(old(into)@).insert(element_tree(e).uuid, element_tree(e)),
{
    let k = e.uuid();
    proof {
        lemma_element_map_insert(into@, k, e);
    }
    into.insert(k, e);
}

fn enumerate_transitions(v: &Vec<UmlStateMachineInternalTransition>, into: &mut HashMap<ModelUuid, UmlStateMachineElement>)
    ensures
        element_map(final(into)@) == index_from(element_map(old(into)@), flatten_seq(transition_trees(v@))),
{
    let ghost ts = transition_trees(v@);
    proof {
        assert forall|i: int| 0 <= i < ts.len() implies (#[trigger] ts[i]).buckets.len() == 0 by {}
        lemma_flatten_leaf_forest(ts);
    }
    let mut i: usize = 0;
    while i < v.len()
        invariant
            0 <= i <= v.len(),
            ts == transition_trees(v@),
            element_map(into@) == index_from(element_map(old(into)@), ts.take(i as int)),
        decreases v.len() - i,
    {
        record(into, UmlStateMachineElement::InternalTransition(v[i].deep_clone()));
        proof {
            assert(ts.take(i + 1).drop_last() =~= ts.take(i as int));
        }
        i = i + 1;
    }
    proof {
        lemma_take_all(ts);
    }
}

fn enumerate_standalones(v: &Vec<UmlStateMachineStandaloneElement>, into: &mut HashMap<ModelUuid, UmlStateMachineElement>)
    ensures
        element_map(final(into)@) == index_from(element_map(old(into)@), flatten_seq(standalone_trees(v@))),
    decreases v,
{
    let ghost ts = standalone_trees(v@);
    let mut i: usize = 0;
    while i < v.len()
        invariant
            0 <= i <= v.len(),
            ts == standalone_trees(v@),
            element_map(into@) == index_from(element_map(old(into)@), flatten_seq(ts.take(i as int))),
        decreases v.len() - i,
    {
        enumerate_standalone(&v[i], into);
        proof {
            lemma_flatten_seq_step(ts, i as int);
            lemma_index_from_concat(element_map(old(into)@), flatten_seq(ts.take(i as int)), flatten(ts[i as int]));
        }
        i = i + 1;
    }
    proof {
        lemma_take_all(ts);
    }
}

fn enumerate_regions(v: &Vec<UmlStateMachineCompositeStateRegion>, into: &mut HashMap<ModelUuid, UmlStateMachineElement>)
    ensures
        element_map(final(into)@) == index_from(element_map(old(into)@), flatten_seq(region_trees(v@))),
    decreases v,
{
    let ghost ts = region_trees(v@);
    let mut i: usize = 0;
    while i < v.len()
        invariant
            0 <= i <= v.len(),
            ts == region_trees(v@),
            element_map(into@) == index_from(element_map(old(into)@), flatten_seq(ts.take(i as int))),
        decreases v.len() - i,
    {
        enumerate_region(&v[i], into);
        proof {
            lemma_flatten_seq_step(ts, i as int);
            lemma_index_from_concat(element_map(old(into)@), flatten_seq(ts.take(i as int)), flatten(ts[i as int]));
        }
        i = i + 1;
    }
    proof {
        lemma_take_all(ts);
    }
}

fn enumerate_region(r: &UmlStateMachineCompositeStateRegion, into: &mut HashMap<ModelUuid, UmlStateMachineElement>)
    ensures
        element_map(final(into)@) == index_from(element_map(old(into)@), flatten(region_tree(*r))),
    decreases r,
{
    let ghost t = region_tree(*r);
    proof {
        lemma_flatten_one_bucket(t);
        lemma_index_from_concat(element_map(into@), seq![t], flatten_seq(t.buckets[0]));
        lemma_index_from_single(element_map(into@), t);
    }
    record(into, UmlStateMachineElement::CompositeStateRegion(r.deep_clone()));
    enumerate_standalones(&r.contained_elements, into);
}

fn enumerate_standalone(e: &UmlStateMachineStandaloneElement, into: &mut HashMap<ModelUuid, UmlStateMachineElement>)
    ensures
        element_map(final(into)@) == index_from(element_map(old(into)@), flatten(standalone_tree(*e))),
    decreases e,
{
    let ghost t = standalone_tree(*e);
    proof {
        lemma_index_from_single(element_map(into@), t);
    }
    match e {
        UmlStateMachineStandaloneElement::StateMachine(m) => {
            proof {
                lemma_flatten_one_bucket(t);
                lemma_index_from_concat(element_map(into@), seq![t], flatten_seq(t.buckets[0]));
            }
            record(into, UmlStateMachineElement::StateMachine(m.deep_clone()));
            enumerate_standalones(&m.contained_elements, into);
        },
        UmlStateMachineStandaloneElement::CompositeState(c) => {
            proof {
                lemma_flatten_three_buckets(t);
                lemma_index_from_concat(element_map(into@), seq![t] + flatten_seq(t.buckets[1]), flatten_seq(t.buckets[2]));
                lemma_index_from_concat(element_map(into@), seq![t], flatten_seq(t.buckets[1]));
            }
            record(into, UmlStateMachineElement::CompositeState(c.deep_clone()));
            enumerate_transitions(&c.internal_transitions, into);
            enumerate_regions(&c.regions, into);
        },
        UmlStateMachineStandaloneElement::SimpleState(s) => {
            proof {
                lemma_flatten_two_buckets(t);
                lemma_index_from_concat(element_map(into@), seq![t], flatten_seq(t.buckets[1]));
            }
            record(into, UmlStateMachineElement::SimpleState(s.deep_clone()));
            enumerate_transitions(&s.internal_transitions, into);
        },
        _ => {
            proof {
                lemma_flatten_leaf(t);
            }
            record(into, e.deep_clone().to_element());
        },
    }
}

/// Every element of the diagram, at any depth, keyed by its uuid; each value
/// is a copy of the element with everything it contains.
pub fn enumerate_diagram(d: &UmlStateMachineDiagram) -> (r: HashMap<ModelUuid, UmlStateMachineElement>)
    ensures
        element_map(r@) == enumerated(d@),
{
    let mut all_models: HashMap<ModelUuid, UmlStateMachineElement> = HashMap::new();
    proof {
        assert(element_map(all_models@) =~= Map::<ModelUuid, ElementTree>::empty());
    }
    enumerate_standalones(&d.contained_elements, &mut all_models);
    all_models
}

} // verus!
