use vstd::prelude::*;

use crate::find_spec::{
    element_position, find_below, find_in, first_index, first_position, lemma_find_in_prefix, lemma_find_in_step,
    lemma_find_one_bucket, lemma_find_three_buckets, lemma_first_index_prefix, lemma_first_index_step,
    lemma_position_two_buckets,
};
use crate::ids::{BucketNoT, ModelUuid, PositionNoT};
use crate::model::{
    composite_tree, element_tree, machine_tree, region_tree, region_trees, simple_tree, standalone_tree,
    standalone_trees, transition_trees, ElementTree, UmlStateMachine, UmlStateMachineCompositeState,
    UmlStateMachineCompositeStateRegion, UmlStateMachineDiagram, UmlStateMachineElement,
    UmlStateMachineInternalTransition, UmlStateMachineSimpleState, UmlStateMachineStandaloneElement,
};
use crate::tree::lemma_take_all;

verus! {

/// The model of a lookup result.
pub open spec fn found_view(r: Option<(UmlStateMachineElement, ModelUuid)>) -> Option<(ElementTree, ModelUuid)> {
    match r {
        Some((e, p)) => Some((element_tree(e), p)),
        None => None,
    }
}

/// The model of a reported position.
pub open spec fn position_view(r: Option<(BucketNoT, PositionNoT)>) -> Option<(int, int)> {
    match r {
        Some((b, p)) => Some((b as int, p as int)),
        None => None,
    }
}

pub open spec fn index_view(r: Option<usize>) -> Option<int> {
    match r {
        Some(i) => Some(i as int),
        None => None,
    }
}

fn find_in_standalones(parent: ModelUuid, v: &Vec<UmlStateMachineStandaloneElement>, u: ModelUuid) -> (r: Option<
    (UmlStateMachineElement, ModelUuid),
>)
    ensures
        found_view(r) == find_in(parent, standalone_trees(v@), u),
    decreases v,
{
    let ghost ts = standalone_trees(v@);
    let mut i: usize = 0;
    while i < v.len()
        invariant
            0 <= i <= v.len(),
            ts == standalone_trees(v@),
            find_in(parent, ts.take(i as int), u) == None::<(ElementTree, ModelUuid)>,
        decreases v.len() - i,
    {
        proof {
            lemma_find_in_step(parent, ts, i as int, u);
        }
        if v[i].uuid() == u {
            let e = v[i].deep_clone().to_element();
            proof {
                lemma_find_in_prefix(parent, ts, i + 1, u);
            }
            return Some((e, parent));
        }
        match find_below_standalone(&v[i], u) {
            Some(r) => {
                proof {
                    lemma_find_in_prefix(parent, ts, i + 1, u);
                }
                return Some(r);
            },
            None => {},
        }
        i = i + 1;
    }
    proof {
        lemma_take_all(ts);
    }
    None
}

fn find_in_regions(parent: ModelUuid, v: &Vec<UmlStateMachineCompositeStateRegion>, u: ModelUuid) -> (r: Option<
    (UmlStateMachineElement, ModelUuid),
>)
    ensures
        found_view(r) == find_in(parent, region_trees(v@), u),
    decreases v,
{
    let ghost ts = region_trees(v@);
    let mut i: usize = 0;
    while i < v.len()
        invariant
            0 <= i <= v.len(),
            ts == region_trees(v@),
            find_in(parent, ts.take(i as int), u) == None::<(ElementTree, ModelUuid)>,
        decreases v.len() - i,
    {
        proof {
            lemma_find_in_step(parent, ts, i as int, u);
        }
        if v[i].uuid == u {
            let e = UmlStateMachineElement::CompositeStateRegion(v[i].deep_clone());
            proof {
                lemma_find_in_prefix(parent, ts, i + 1, u);
            }
            return Some((e, parent));
        }
        match v[i].find_element(u) {
            Some(r) => {
                proof {
                    lemma_find_in_prefix(parent, ts, i + 1, u);
                }
                return Some(r);
            },
            None => {},
        }
        i = i + 1;
    }
    proof {
        lemma_take_all(ts);
    }
    None
}

fn find_in_transitions(parent: ModelUuid, v: &Vec<UmlStateMachineInternalTransition>, u: ModelUuid) -> (r: Option<
    (UmlStateMachineElement, ModelUuid),
>)
    ensures
        found_view(r) == find_in(parent, transition_trees(v@), u),
{
    let ghost ts = transition_trees(v@);
    let mut i: usize = 0;
    while i < v.len()
        invariant
            0 <= i <= v.len(),
            ts == transition_trees(v@),
            find_in(parent, ts.take(i as int), u) == None::<(ElementTree, ModelUuid)>,
        decreases v.len() - i,
    {
        proof {
            lemma_find_in_step(parent, ts, i as int, u);
        }
        if v[i].uuid == u {
            let e = UmlStateMachineElement::InternalTransition(v[i].deep_clone());
            proof {
                lemma_find_in_prefix(parent, ts, i + 1, u);
            }
            return Some((e, parent));
        }
        i = i + 1;
    }
    proof {
        lemma_take_all(ts);
    }
    None
}

pub(crate) fn find_below_standalone(e: &UmlStateMachineStandaloneElement, u: ModelUuid) -> (r: Option<(UmlStateMachineElement, ModelUuid)>)
    ensures
        found_view(r) == find_below(standalone_tree(*e), u),
    decreases e,
{
    match e {
        UmlStateMachineStandaloneElement::StateMachine(m) => m.find_element(u),
        UmlStateMachineStandaloneElement::CompositeState(c) => c.find_element(u),
        _ => None,
    }
}

fn first_index_standalones(v: &Vec<UmlStateMachineStandaloneElement>, u: ModelUuid) -> (r: Option<usize>)
    ensures
        index_view(r) == first_index(standalone_trees(v@), u),
{
    let ghost ts = standalone_trees(v@);
    let mut i: usize = 0;
    while i < v.len()
        invariant
            0 <= i <= v.len(),
            ts == standalone_trees(v@),
            first_index(ts.take(i as int), u) == None::<int>,
        decreases v.len() - i,
    {
        proof {
            lemma_first_index_step(ts, i as int, u);
        }
        if v[i].uuid() == u {
            proof {
                lemma_first_index_prefix(ts, i + 1, u);
            }
            return Some(i);
        }
        i = i + 1;
    }
    proof {
        lemma_take_all(ts);
    }
    None
}

pub(crate) fn first_index_regions(v: &Vec<UmlStateMachineCompositeStateRegion>, u: ModelUuid) -> (r: Option<usize>)
    ensures
        index_view(r) == first_index(region_trees(v@), u),
{
    let ghost ts = region_trees(v@);
    let mut i: usize = 0;
    while i < v.len()
        invariant
            0 <= i <= v.len(),
            ts == region_trees(v@),
            first_index(ts.take(i as int), u) == None::<int>,
        decreases v.len() - i,
    {
        proof {
            lemma_first_index_step(ts, i as int, u);
        }
        if v[i].uuid == u {
            proof {
                lemma_first_index_prefix(ts, i + 1, u);
            }
            return Some(i);
        }
        i = i + 1;
    }
    proof {
        lemma_take_all(ts);
    }
    None
}

pub(crate) fn first_index_transitions(v: &Vec<UmlStateMachineInternalTransition>, u: ModelUuid) -> (r: Option<usize>)
    ensures
        index_view(r) == first_index(transition_trees(v@), u),
{
    let ghost ts = transition_trees(v@);
    let mut i: usize = 0;
    while i < v.len()
        invariant
            0 <= i <= v.len(),
            ts == transition_trees(v@),
            first_index(ts.take(i as int), u) == None::<int>,
        decreases v.len() - i,
    {
        proof {
            lemma_first_index_step(ts, i as int, u);
        }
        if v[i].uuid == u {
            proof {
                lemma_first_index_prefix(ts, i + 1, u);
            }
            return Some(i);
        }
        i = i + 1;
    }
    proof {
        lemma_take_all(ts);
    }
    None
}

impl UmlStateMachine {
    /// The first element with uuid `uuid` below the state machine, with the
    /// uuid of its parent.
    pub fn find_element(&self, uuid: ModelUuid) -> (r: Option<(UmlStateMachineElement, ModelUuid)>)
        ensures
            found_view(r) == find_below(machine_tree(*self), uuid),
        decreases self,
    {
        proof {
            lemma_find_one_bucket(machine_tree(*self), uuid);
        }
        find_in_standalones(self.uuid, &self.contained_elements, uuid)
    }

    /// The bucket and position of the child with uuid `uuid`.
    pub fn get_element_pos(&self, uuid: ModelUuid) -> (r: Option<(BucketNoT, PositionNoT)>)
        ensures
            position_view(r) == element_position(machine_tree(*self), uuid),
    {
        proof {
            lemma_find_one_bucket(machine_tree(*self), uuid);
        }
        match first_index_standalones(&self.contained_elements, uuid) {
            Some(i) => Some((0, i)),
            None => None,
        }
    }
}

impl UmlStateMachineCompositeStateRegion {
    /// The first element with uuid `uuid` below the region, with the uuid of
    /// its parent.
    pub fn find_element(&self, uuid: ModelUuid) -> (r: Option<(UmlStateMachineElement, ModelUuid)>)
        ensures
            found_view(r) == find_below(region_tree(*self), uuid),
        decreases self,
    {
        proof {
            lemma_find_one_bucket(region_tree(*self), uuid);
        }
        find_in_standalones(self.uuid, &self.contained_elements, uuid)
    }

    /// The bucket and position of the child with uuid `uuid`.
    pub fn get_element_pos(&self, uuid: ModelUuid) -> (r: Option<(BucketNoT, PositionNoT)>)
        ensures
            position_view(r) == element_position(region_tree(*self), uuid),
    {
        proof {
            lemma_find_one_bucket(region_tree(*self), uuid);
        }
        match first_index_standalones(&self.contained_elements, uuid) {
            Some(i) => Some((0, i)),
            None => None,
        }
    }
}

impl UmlStateMachineCompositeState {
    /// The first element with uuid `uuid` below the state (among its internal
    /// transitions, then in its regions), with the uuid of its parent.
    pub fn find_element(&self, uuid: ModelUuid) -> (r: Option<(UmlStateMachineElement, ModelUuid)>)
        ensures
            found_view(r) == find_below(composite_tree(*self), uuid),
        decreases self,
    {
        proof {
            lemma_find_three_buckets(composite_tree(*self), uuid);
        }
        match find_in_transitions(self.uuid, &self.internal_transitions, uuid) {
            Some(r) => Some(r),
            None => find_in_regions(self.uuid, &self.regions, uuid),
        }
    }

    /// The bucket and position of the internal transition or region with uuid
    /// `uuid`.
    pub fn get_element_pos(&self, uuid: ModelUuid) -> (r: Option<(BucketNoT, PositionNoT)>)
        ensures
            position_view(r) == element_position(composite_tree(*self), uuid),
    {
        proof {
            lemma_find_three_buckets(composite_tree(*self), uuid);
        }
        match first_index_transitions(&self.internal_transitions, uuid) {
            Some(i) => Some((1, i)),
            None => match first_index_regions(&self.regions, uuid) {
                Some(i) => Some((2, i)),
                None => None,
            },
        }
    }
}

impl UmlStateMachineSimpleState {
    /// The internal transition with uuid `uuid`, with the uuid of the state.
    pub fn find_element(&self, uuid: ModelUuid) -> (r: Option<(UmlStateMachineElement, ModelUuid)>)
        ensures
            found_view(r) == find_in(self.uuid, transition_trees(self.internal_transitions@), uuid),
    {
        find_in_transitions(self.uuid, &self.internal_transitions, uuid)
    }

    /// The bucket and position of the internal transition with uuid `uuid`.
    pub fn get_element_pos(&self, uuid: ModelUuid) -> (r: Option<(BucketNoT, PositionNoT)>)
        ensures
            position_view(r) == first_position(simple_tree(*self).buckets, uuid),
    {
        proof {
            lemma_position_two_buckets(simple_tree(*self), uuid);
        }
        match first_index_transitions(&self.internal_transitions, uuid) {
            Some(i) => Some((1, i)),
            None => None,
        }
    }
}

impl UmlStateMachineElement {
    /// The bucket and position of the child `uuid` of a state machine,
    /// composite state or region; `None` for any other element.
    pub fn get_element_pos(&self, uuid: ModelUuid) -> (r: Option<(BucketNoT, PositionNoT)>)
        ensures
            position_view(r) == element_position(element_tree(*self), uuid),
    {
        match self {
            UmlStateMachineElement::StateMachine(x) => x.get_element_pos(uuid),
            UmlStateMachineElement::CompositeState(x) => x.get_element_pos(uuid),
            UmlStateMachineElement::CompositeStateRegion(x) => x.get_element_pos(uuid),
            _ => None,
        }
    }
}

/// The position in the diagram of the element `u` as its parent `parent`
/// reports it.
pub open spec fn position_in(d: crate::model::DiagramTree, parent: ModelUuid, u: ModelUuid) -> Option<(int, int)> {
    if parent == d.uuid {
        match first_index(d.elements, u) {
            Some(i) => Some((0int, i)),
            None => None,
        }
    } else {
        match find_in(d.uuid, d.elements, parent) {
            Some((t, _)) => element_position(t, u),
            None => None,
        }
    }
}

impl UmlStateMachineDiagram {
    /// The first element with uuid `uuid` in the diagram, with the uuid of its
    /// parent.
    pub fn find_element(&self, uuid: ModelUuid) -> (r: Option<(UmlStateMachineElement, ModelUuid)>)
        ensures
            found_view(r) == find_in(self@.uuid, self@.elements, uuid),
    {
        find_in_standalones(self.uuid, &self.contained_elements, uuid)
    }

    /// The bucket and position of the top-level element `uuid`.
    pub fn get_element_pos(&self, uuid: ModelUuid) -> (r: Option<(BucketNoT, PositionNoT)>)
        ensures
            position_view(r) == (match first_index(self@.elements, uuid) {
                Some(i) => Some((0int, i)),
                None => None,
            }),
    {
        match first_index_standalones(&self.contained_elements, uuid) {
            Some(i) => Some((0, i)),
            None => None,
        }
    }

    /// The bucket and position of `uuid` inside `parent`, which is the
    /// diagram itself or an element of it.
    pub fn get_element_pos_in(&self, parent: ModelUuid, uuid: ModelUuid) -> (r: Option<(BucketNoT, PositionNoT)>)
        ensures
            position_view(r) == position_in(self@, parent, uuid),
    {
        if parent == self.uuid {
            self.get_element_pos(uuid)
        } else {
            match self.find_element(parent) {
                Some((e, _)) => e.get_element_pos(uuid),
                None => None,
            }
        }
    }
}

} // verus!
