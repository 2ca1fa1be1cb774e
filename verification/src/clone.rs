use vstd::prelude::*;

use crate::model::{
    composite_tree, edge_tree, element_tree, machine_tree, note_tree, notelink_tree, region_tree,
    region_trees, simple_tree, standalone_tree, standalone_trees, transition_tree, transition_trees,
    UmlStateMachine, UmlStateMachineCompositeState, UmlStateMachineCompositeStateRegion, UmlStateMachineEdge,
    UmlStateMachineElement, UmlStateMachineFinalState, UmlStateMachineInitialPseudostate,
    UmlStateMachineInternalTransition, UmlStateMachineNote, UmlStateMachineNoteLink, UmlStateMachineSimpleState,
    UmlStateMachineStandaloneElement, UmlStateMachineTerminatePseudostate,
};

verus! {

impl UmlStateMachineInternalTransition {
    /// An equal copy.
    pub fn deep_clone(&self) -> (r: Self)
        ensures
            transition_tree(r) == transition_tree(*self),
    {
        UmlStateMachineInternalTransition {
            uuid: self.uuid,
            trigger: self.trigger.clone(),
            guard: self.guard.clone(),
            behavior: self.behavior.clone(),
        }
    }
}

impl UmlStateMachineEdge {
    /// An equal copy.
    pub fn deep_clone(&self) -> (r: Self)
        ensures
            edge_tree(r) == edge_tree(*self),
    {
        UmlStateMachineEdge { uuid: self.uuid, name: self.name.clone(), source: self.source, target: self.target }
    }
}

impl UmlStateMachineNote {
    /// An equal copy.
    pub fn deep_clone(&self) -> (r: Self)
        ensures
            note_tree(r) == note_tree(*self),
    {
        UmlStateMachineNote { uuid: self.uuid, stereotype: self.stereotype.clone(), text: self.text.clone() }
    }
}

impl UmlStateMachineNoteLink {
    /// An equal copy.
    pub fn deep_clone(&self) -> (r: Self)
        ensures
            notelink_tree(r) == notelink_tree(*self),
    {
        UmlStateMachineNoteLink { uuid: self.uuid, source: self.source, target: self.target }
    }
}

pub(crate) fn clone_transitions(v: &Vec<UmlStateMachineInternalTransition>) -> (r: Vec<UmlStateMachineInternalTransition>)
    ensures
        transition_trees(r@) == transition_trees(v@),
{
    let mut out: Vec<UmlStateMachineInternalTransition> = Vec::new();
    let mut i: usize = 0;
    while i < v.len()
        invariant
            0 <= i <= v.len(),
            out@.len() == i,
            forall|j: int| 0 <= j < i ==> transition_tree(#[trigger] out@[j]) == transition_tree(v@[j]),
        decreases v.len() - i,
    {
        out.push(v[i].deep_clone());
        i = i + 1;
    }
    assert(transition_trees(out@) =~= transition_trees(v@));
    out
}

pub(crate) fn clone_standalones(v: &Vec<UmlStateMachineStandaloneElement>) -> (r: Vec<UmlStateMachineStandaloneElement>)
    ensures
        standalone_trees(r@) == standalone_trees(v@),
    decreases v,
{
    let mut out: Vec<UmlStateMachineStandaloneElement> = Vec::new();
    let mut i: usize = 0;
    while i < v.len()
        invariant
            0 <= i <= v.len(),
            out@.len() == i,
            forall|j: int| 0 <= j < i ==> standalone_tree(#[trigger] out@[j]) == standalone_tree(v@[j]),
        decreases v.len() - i,
    {
        let c = v[i].deep_clone();
        out.push(c);
        i = i + 1;
    }
    assert(standalone_trees(out@) =~= standalone_trees(v@));
    out
}

pub(crate) fn clone_regions(v: &Vec<UmlStateMachineCompositeStateRegion>) -> (r: Vec<UmlStateMachineCompositeStateRegion>)
    ensures
        region_trees(r@) == region_trees(v@),
    decreases v,
{
    let mut out: Vec<UmlStateMachineCompositeStateRegion> = Vec::new();
    let mut i: usize = 0;
    while i < v.len()
        invariant
            0 <= i <= v.len(),
            out@.len() == i,
            forall|j: int| 0 <= j < i ==> region_tree(#[trigger] out@[j]) == region_tree(v@[j]),
        decreases v.len() - i,
    {
        let c = v[i].deep_clone();
        out.push(c);
        i = i + 1;
    }
    assert(region_trees(out@) =~= region_trees(v@));
    out
}

impl UmlStateMachine {
    /// An equal copy of the state machine and everything it contains.
    pub fn deep_clone(&self) -> (r: Self)
        ensures
            machine_tree(r) == machine_tree(*self),
        decreases self,
    {
        let r = UmlStateMachine {
            uuid: self.uuid,
            stereotype: self.stereotype.clone(),
            name: self.name.clone(),
            is_protocol: self.is_protocol,
            contained_elements: clone_standalones(&self.contained_elements),
            comment: self.comment.clone(),
        };
        assert(machine_tree(r) =~= machine_tree(*self));
        r
    }
}

impl UmlStateMachineCompositeStateRegion {
    /// An equal copy of the region and everything it contains.
    pub fn deep_clone(&self) -> (r: Self)
        ensures
            region_tree(r) == region_tree(*self),
        decreases self,
    {
        let r = UmlStateMachineCompositeStateRegion {
            uuid: self.uuid,
            contained_elements: clone_standalones(&self.contained_elements),
        };
        assert(region_tree(r) =~= region_tree(*self));
        r
    }
}

impl UmlStateMachineCompositeState {
    /// An equal copy of the state and everything it contains.
    pub fn deep_clone(&self) -> (r: Self)
        ensures
            composite_tree(r) == composite_tree(*self),
        decreases self,
    {
        let r = UmlStateMachineCompositeState {
            uuid: self.uuid,
            stereotype: self.stereotype.clone(),
            name: self.name.clone(),
            internal_transitions: clone_transitions(&self.internal_transitions),
            regions: clone_regions(&self.regions),
        };
        assert(composite_tree(r) =~= composite_tree(*self));
        r
    }
}

impl UmlStateMachineSimpleState {
    /// An equal copy of the state and its internal transitions.
    pub fn deep_clone(&self) -> (r: Self)
        ensures
            simple_tree(r) == simple_tree(*self),
    {
        let r = UmlStateMachineSimpleState {
            uuid: self.uuid,
            stereotype: self.stereotype.clone(),
            name: self.name.clone(),
            internal_transitions: clone_transitions(&self.internal_transitions),
        };
        assert(simple_tree(r) =~= simple_tree(*self));
        r
    }
}

impl UmlStateMachineStandaloneElement {
    /// An equal copy of the element and everything it contains.
    pub fn deep_clone(&self) -> (r: Self)
        ensures
            standalone_tree(r) == standalone_tree(*self),
        decreases self,
    {
        match self {
            UmlStateMachineStandaloneElement::StateMachine(x) => UmlStateMachineStandaloneElement::StateMachine(x.deep_clone()),
            UmlStateMachineStandaloneElement::CompositeState(x) => UmlStateMachineStandaloneElement::CompositeState(x.deep_clone()),
            UmlStateMachineStandaloneElement::SimpleState(x) => UmlStateMachineStandaloneElement::SimpleState(x.deep_clone()),
            UmlStateMachineStandaloneElement::InitialPseudostate(x) => UmlStateMachineStandaloneElement::InitialPseudostate(
                UmlStateMachineInitialPseudostate { uuid: x.uuid },
            ),
            UmlStateMachineStandaloneElement::TerminatePseudostate(x) => UmlStateMachineStandaloneElement::TerminatePseudostate(
                UmlStateMachineTerminatePseudostate { uuid: x.uuid },
            ),
            UmlStateMachineStandaloneElement::FinalState(x) => UmlStateMachineStandaloneElement::FinalState(
                UmlStateMachineFinalState { uuid: x.uuid },
            ),
            UmlStateMachineStandaloneElement::Edge(x) => UmlStateMachineStandaloneElement::Edge(x.deep_clone()),
            UmlStateMachineStandaloneElement::Note(x) => UmlStateMachineStandaloneElement::Note(x.deep_clone()),
            UmlStateMachineStandaloneElement::NoteLink(x) => UmlStateMachineStandaloneElement::NoteLink(x.deep_clone()),
        }
    }
}

impl UmlStateMachineElement {
    /// An equal copy of the element and everything it contains.
    pub fn deep_clone(&self) -> (r: Self)
        ensures
            element_tree(r) == element_tree(*self),
    {
        match self {
            UmlStateMachineElement::StateMachine(x) => UmlStateMachineElement::StateMachine(x.deep_clone()),
            UmlStateMachineElement::CompositeState(x) => UmlStateMachineElement::CompositeState(x.deep_clone()),
            UmlStateMachineElement::CompositeStateRegion(x) => UmlStateMachineElement::CompositeStateRegion(x.deep_clone()),
            UmlStateMachineElement::SimpleState(x) => UmlStateMachineElement::SimpleState(x.deep_clone()),
            UmlStateMachineElement::InternalTransition(x) => UmlStateMachineElement::InternalTransition(x.deep_clone()),
            UmlStateMachineElement::InitialPseudostate(x) => UmlStateMachineElement::InitialPseudostate(
                UmlStateMachineInitialPseudostate { uuid: x.uuid },
            ),
            UmlStateMachineElement::TerminatePseudostate(x) => UmlStateMachineElement::TerminatePseudostate(
                UmlStateMachineTerminatePseudostate { uuid: x.uuid },
            ),
            UmlStateMachineElement::FinalState(x) => UmlStateMachineElement::FinalState(UmlStateMachineFinalState { uuid: x.uuid }),
            UmlStateMachineElement::Edge(x) => UmlStateMachineElement::Edge(x.deep_clone()),
            UmlStateMachineElement::Note(x) => UmlStateMachineElement::Note(x.deep_clone()),
            UmlStateMachineElement::NoteLink(x) => UmlStateMachineElement::NoteLink(x.deep_clone()),
        }
    }
}

} // verus!

verus! {

use crate::model::is_standalone_kind;

impl UmlStateMachineElement {
    /// A copy of the element as one that may stand directly inside a diagram,
    /// a state machine or a region, when it may.
    pub fn as_standalone(&self) -> (r: Option<UmlStateMachineStandaloneElement>)
        ensures
            match r {
                Some(s) => is_standalone_kind(element_tree(*self).kind) && standalone_tree(s) == element_tree(*self),
                None => !is_standalone_kind(element_tree(*self).kind),
            },
    {
        match self.deep_clone().into_standalone() {
            Ok(s) => Some(s),
            Err(_) => None,
        }
    }
}

} // verus!
