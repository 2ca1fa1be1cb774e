use vstd::prelude::*;

use crate::ids::ModelUuid;
use crate::model::{
    UmlStateMachine, UmlStateMachineCompositeState, UmlStateMachineCompositeStateRegion, UmlStateMachineDiagram,
    UmlStateMachineEdge, UmlStateMachineElementRef, UmlStateMachineFinalState, UmlStateMachineInitialPseudostate,
    UmlStateMachineInternalTransition, UmlStateMachineNonFinalNode, UmlStateMachineNonInitialNode,
    UmlStateMachineNote, UmlStateMachineNoteLink, UmlStateMachineSimpleState, UmlStateMachineStandaloneElement, UmlStateMachineTerminatePseudostate,
};

verus! {

impl UmlStateMachineDiagram {
    /// A diagram with the given uuid, name and elements and an empty comment.
    pub fn new(uuid: ModelUuid, name: String, contained_elements: Vec<UmlStateMachineStandaloneElement>) -> (r: Self)
        ensures
            r.uuid == uuid,
            r.name@ == name@,
            r.contained_elements@ == contained_elements@,
            r.comment@ == Seq::<char>::empty(),
    {
        UmlStateMachineDiagram { uuid, name, contained_elements, comment: String::new() }
    }
}

impl UmlStateMachine {
    /// A state machine with the given attributes and an empty comment.
    pub fn new(
        uuid: ModelUuid,
        stereotype: String,
        name: String,
        is_protocol: bool,
        contained_elements: Vec<UmlStateMachineStandaloneElement>,
    ) -> (r: Self)
        ensures
            r.uuid == uuid,
            r.stereotype@ == stereotype@,
            r.name@ == name@,
            r.is_protocol == is_protocol,
            r.contained_elements@ == contained_elements@,
            r.comment@ == Seq::<char>::empty(),
    {
        UmlStateMachine { uuid, stereotype, name, is_protocol, contained_elements, comment: String::new() }
    }
}

impl UmlStateMachineCompositeState {
    /// A composite state with the given attributes.
    pub fn new(
        uuid: ModelUuid,
        stereotype: String,
        name: String,
        internal_transitions: Vec<UmlStateMachineInternalTransition>,
        regions: Vec<UmlStateMachineCompositeStateRegion>,
    ) -> (r: Self)
        ensures
            r.uuid == uuid,
            r.stereotype@ == stereotype@,
            r.name@ == name@,
            r.internal_transitions@ == internal_transitions@,
            r.regions@ == regions@,
    {
        UmlStateMachineCompositeState { uuid, stereotype, name, internal_transitions, regions }
    }
}

impl UmlStateMachineCompositeStateRegion {
    /// A region with the given elements.
    pub fn new(uuid: ModelUuid, contained_elements: Vec<UmlStateMachineStandaloneElement>) -> (r: Self)
        ensures
            r.uuid == uuid,
            r.contained_elements@ == contained_elements@,
    {
        UmlStateMachineCompositeStateRegion { uuid, contained_elements }
    }
}

impl UmlStateMachineSimpleState {
    /// A simple state with the given attributes.
    pub fn new(
        uuid: ModelUuid,
        stereotype: String,
        name: String,
        internal_transitions: Vec<UmlStateMachineInternalTransition>,
    ) -> (r: Self)
        ensures
            r.uuid == uuid,
            r.stereotype@ == stereotype@,
            r.name@ == name@,
            r.internal_transitions@ == internal_transitions@,
    {
        UmlStateMachineSimpleState { uuid, stereotype, name, internal_transitions }
    }
}

impl UmlStateMachineInternalTransition {
    /// An internal transition with the given trigger, guard and behavior.
    pub fn new(uuid: ModelUuid, trigger: String, guard: String, behavior: String) -> (r: Self)
        ensures
            r.uuid == uuid,
            r.trigger@ == trigger@,
            r.guard@ == guard@,
            r.behavior@ == behavior@,
    {
        UmlStateMachineInternalTransition { uuid, trigger, guard, behavior }
    }
}

impl UmlStateMachineInitialPseudostate {
    /// An initial pseudostate.
    pub fn new(uuid: ModelUuid) -> (r: Self)
        ensures
            r.uuid == uuid,
    {
        UmlStateMachineInitialPseudostate { uuid }
    }
}

impl UmlStateMachineTerminatePseudostate {
    /// A terminate pseudostate.
    pub fn new(uuid: ModelUuid) -> (r: Self)
        ensures
            r.uuid == uuid,
    {
        UmlStateMachineTerminatePseudostate { uuid }
    }
}

impl UmlStateMachineFinalState {
    /// A final state.
    pub fn new(uuid: ModelUuid) -> (r: Self)
        ensures
            r.uuid == uuid,
    {
        UmlStateMachineFinalState { uuid }
    }
}

impl UmlStateMachineEdge {
    /// A transition from `source` to `target`.
    pub fn new(uuid: ModelUuid, name: String, source: UmlStateMachineNonFinalNode, target: UmlStateMachineNonInitialNode) -> (r: Self)
        ensures
            r.uuid == uuid,
            r.name@ == name@,
            r.source == source,
            r.target == target,
    {
        UmlStateMachineEdge { uuid, name, source, target }
    }
}

impl UmlStateMachineNote {
    /// A note with the given stereotype and text.
    pub fn new(uuid: ModelUuid, stereotype: String, text: String) -> (r: Self)
        ensures
            r.uuid == uuid,
            r.stereotype@ == stereotype@,
            r.text@ == text@,
    {
        UmlStateMachineNote { uuid, stereotype, text }
    }
}

impl UmlStateMachineNoteLink {
    /// A link from the note `source` to `target`.
    pub fn new(uuid: ModelUuid, source: ModelUuid, target: UmlStateMachineElementRef) -> (r: Self)
        ensures
            r.uuid == uuid,
            r.source == source,
            r.target == target,
    {
        UmlStateMachineNoteLink { uuid, source, target }
    }
}

} // verus!
