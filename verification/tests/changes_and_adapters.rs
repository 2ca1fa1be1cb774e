// Tests of property changes, their merging and undoing, and of the view
// adapters' buffers and labels.

use nihonium::adapters::{UmlStateMachineAdapter, UmlStateMachineControllerAdapter, UmlStateMachineDiagramAdapter};
use nihonium::adapter_ops::{UmlStateMachineEdgeAdapter, UmlStateMachineNoteLinkAdapter};
use nihonium::changes::{
    Align, ColorChangeData, CustomModalResult, ErrorModal, FlipMulticonnection, LinkType, MGlobalColor,
    UmlStateMachineOrdinalMovement, UmlStateMachinePropChange, UseCaseProfile,
};
use nihonium::model::{
    ElementKind, UmlStateMachine, UmlStateMachineCompositeState, UmlStateMachineCompositeStateRegion,
    UmlStateMachineDiagram, UmlStateMachineEdge, UmlStateMachineElement, UmlStateMachineElementRef,
    UmlStateMachineFinalState, UmlStateMachineInitialPseudostate, UmlStateMachineInternalTransition,
    UmlStateMachineNonFinalNode, UmlStateMachineNonInitialNode, UmlStateMachineNote, UmlStateMachineNoteLink,
    UmlStateMachineSimpleState, UmlStateMachineStandaloneElement, UmlStateMachineTerminatePseudostate,
};

fn name_of(c: &UmlStateMachinePropChange) -> Option<String> {
    match c {
        UmlStateMachinePropChange::NameChange(s) => Some(s.clone()),
        _ => None,
    }
}

#[test]
fn inverse_of_moves() {
    assert!(matches!(UmlStateMachineOrdinalMovement::Up.inverse(), UmlStateMachineOrdinalMovement::Down));
    assert!(matches!(UmlStateMachineOrdinalMovement::Down.inverse(), UmlStateMachineOrdinalMovement::Up));
    assert_eq!(UmlStateMachineOrdinalMovement::Up.inverse().inverse(), UmlStateMachineOrdinalMovement::Up);
}

#[test]
fn merging_text_changes_keeps_the_newer() {
    let a = UmlStateMachinePropChange::NameChange("a".to_string());
    let b = UmlStateMachinePropChange::NameChange("b".to_string());
    assert_eq!(name_of(&a.try_merge(&b).unwrap()), Some("b".to_string()));
    let c = UmlStateMachinePropChange::CommentChange("c".to_string());
    assert!(a.try_merge(&c).is_none());
    let g1 = UmlStateMachinePropChange::TransitionGuardChange("x".to_string());
    let g2 = UmlStateMachinePropChange::TransitionGuardChange("y".to_string());
    assert!(g1.try_merge(&g2).is_some());
    let p1 = UmlStateMachinePropChange::StateMachineIsProtocolChange(true);
    let p2 = UmlStateMachinePropChange::StateMachineIsProtocolChange(false);
    assert!(p1.try_merge(&p2).is_none());
    let f = UmlStateMachinePropChange::FlipMulticonnection(FlipMulticonnection {});
    assert!(f.try_merge(&f.copy()).is_none());
    let n = UmlStateMachinePropChange::NoteAlignChange(Some(Align::Min), None);
    assert!(n.try_merge(&n.copy()).is_none());
}

fn machine() -> UmlStateMachine {
    UmlStateMachine::new(10, "sync".to_string(), "m".to_string(), true, vec![])
}

#[test]
fn machine_header_text() {
    let a = UmlStateMachineAdapter::new(machine(), MGlobalColor::NoColor);
    assert_eq!(a.display_text, "stm: «sync» m {protocol}");
    assert_eq!(a.name_buffer, "m");
    assert!(a.is_protocol_buffer);
    let b = UmlStateMachineAdapter::new(UmlStateMachine::new(11, String::new(), "plain".to_string(), false, vec![]), MGlobalColor::Id(3));
    assert_eq!(b.display_text, "stm: plain");
    assert_eq!(b.background_color, MGlobalColor::Id(3));
}

#[test]
fn machine_changes_are_undone_by_their_records() {
    let mut a = UmlStateMachineAdapter::new(machine(), MGlobalColor::NoColor);
    let mut undo = Vec::new();
    a.apply_change(&UmlStateMachinePropChange::NameChange("renamed".to_string()), &mut undo);
    a.apply_change(&UmlStateMachinePropChange::StateMachineIsProtocolChange(false), &mut undo);
    a.apply_change(&UmlStateMachinePropChange::ColorChange(ColorChangeData { slot: 0, color: MGlobalColor::Id(7) }), &mut undo);
    a.apply_change(&UmlStateMachinePropChange::ColorChange(ColorChangeData { slot: 1, color: MGlobalColor::Id(8) }), &mut undo);
    a.apply_change(&UmlStateMachinePropChange::TransitionGuardChange("ignored".to_string()), &mut undo);
    assert_eq!(undo.len(), 3);
    assert_eq!(a.model.name, "renamed");
    assert!(!a.model.is_protocol);
    assert_eq!(a.background_color, MGlobalColor::Id(7));
    a.refresh_buffers();
    assert_eq!(a.display_text, "stm: «sync» renamed");
    let mut redo = Vec::new();
    while let Some(u) = undo.pop() {
        a.apply_change(&u, &mut redo);
    }
    assert_eq!(a.model.name, "m");
    assert!(a.model.is_protocol);
    assert_eq!(a.background_color, MGlobalColor::NoColor);
    assert_eq!(redo.len(), 3);
}

fn diagram() -> UmlStateMachineDiagram {
    UmlStateMachineDiagram::new(1, "d".to_string(), vec![])
}

#[test]
fn diagram_changes_and_buffers() {
    let mut a = UmlStateMachineDiagramAdapter::new(diagram());
    assert_eq!(a.name_buffer, "d");
    assert_eq!(a.comment_buffer, "");
    let mut undo = Vec::new();
    a.apply_property_change(&UmlStateMachinePropChange::CommentChange("note".to_string()), &mut undo);
    a.apply_property_change(&UmlStateMachinePropChange::StereotypeChange("ignored".to_string()), &mut undo);
    assert_eq!(undo.len(), 1);
    assert_eq!(a.model.comment, "note");
    assert_eq!(a.comment_buffer, "");
    a.refresh_buffers();
    assert_eq!(a.comment_buffer, "note");
    let u = undo.pop().unwrap();
    a.apply_property_change(&u, &mut undo);
    assert_eq!(a.model.comment, "");
}

#[test]
fn labels_of_elements() {
    let a = UmlStateMachineDiagramAdapter::new(diagram());
    let sm = UmlStateMachineElement::StateMachine(machine());
    assert_eq!(a.label_for(&sm, ""), "State Machine (m«sync»)");
    let cs = UmlStateMachineElement::CompositeState(UmlStateMachineCompositeState::new(
        2,
        String::new(),
        "c".to_string(),
        vec![],
        vec![UmlStateMachineCompositeStateRegion::new(3, vec![])],
    ));
    assert_eq!(a.label_for(&cs, ""), "Composite State (c)");
    let empty = UmlStateMachineElement::CompositeState(UmlStateMachineCompositeState::new(4, "st".to_string(), "e".to_string(), vec![], vec![]));
    assert_eq!(a.label_for(&empty, ""), "Simple State (e«st»)");
    let ss = UmlStateMachineElement::SimpleState(UmlStateMachineSimpleState::new(5, String::new(), "s".to_string(), vec![]));
    assert_eq!(a.label_for(&ss, ""), "Simple State (s)");
    let t = UmlStateMachineElement::InternalTransition(UmlStateMachineInternalTransition::new(6, "go".to_string(), String::new(), String::new()));
    assert_eq!(a.label_for(&t, ""), "Internal Transition (go)");
    let region = UmlStateMachineElement::CompositeStateRegion(UmlStateMachineCompositeStateRegion::new(7, vec![]));
    assert_eq!(a.label_for(&region, ""), "Composite State Region");
    assert_eq!(a.label_for(&UmlStateMachineElement::InitialPseudostate(UmlStateMachineInitialPseudostate::new(8)), ""), "Initial Pseudostate");
    assert_eq!(a.label_for(&UmlStateMachineElement::TerminatePseudostate(UmlStateMachineTerminatePseudostate::new(9)), ""), "Terminate Pseudostate");
    assert_eq!(a.label_for(&UmlStateMachineElement::FinalState(UmlStateMachineFinalState::new(10)), ""), "Final State");
    let e = UmlStateMachineEdge::new(11, String::new(), UmlStateMachineNonFinalNode::SimpleState(5), UmlStateMachineNonInitialNode::FinalState(10));
    assert_eq!(a.label_for(&UmlStateMachineElement::Edge(e), ""), "Edge");
    let e = UmlStateMachineEdge::new(12, "to end".to_string(), UmlStateMachineNonFinalNode::SimpleState(5), UmlStateMachineNonInitialNode::FinalState(10));
    assert_eq!(a.label_for(&UmlStateMachineElement::Edge(e), ""), "Edge (to end)");
    let n = UmlStateMachineElement::Note(UmlStateMachineNote::new(13, String::new(), String::new()));
    assert_eq!(a.label_for(&n, "unused"), "Note");
    let n = UmlStateMachineElement::Note(UmlStateMachineNote::new(14, String::new(), "a long text".to_string()));
    assert_eq!(a.label_for(&n, "a long..."), "Note (a long...)");
    let l = UmlStateMachineNoteLink::new(15, 14, UmlStateMachineElementRef { kind: ElementKind::FinalState, uuid: 10 });
    assert_eq!(a.label_for(&UmlStateMachineElement::NoteLink(l), ""), "Note Link");
}

fn edge() -> UmlStateMachineEdge {
    UmlStateMachineEdge::new(
        30,
        "e".to_string(),
        UmlStateMachineNonFinalNode::SimpleState(31),
        UmlStateMachineNonInitialNode::CompositeState(32),
    )
}

#[test]
fn edge_adapter_buffers_and_flip() {
    let mut a = UmlStateMachineEdgeAdapter::new(edge());
    assert_eq!(a.source_uuids, vec![31]);
    assert_eq!(a.target_uuids, vec![32]);
    assert_eq!(a.midpoint_label, Some("e".to_string()));
    assert!(a.flip_multiconnection().is_ok());
    assert_eq!(a.model.source, UmlStateMachineNonFinalNode::CompositeState(32));
    assert_eq!(a.model.target, UmlStateMachineNonInitialNode::SimpleState(31));
    a.refresh_buffers();
    assert_eq!(a.source_uuids, vec![32]);
    assert!(a.flip_multiconnection().is_ok());
    assert_eq!(a.model.source, UmlStateMachineNonFinalNode::SimpleState(31));

    let mut from_initial = UmlStateMachineEdgeAdapter::new(UmlStateMachineEdge::new(
        33,
        String::new(),
        UmlStateMachineNonFinalNode::InitialPseudostate(34),
        UmlStateMachineNonInitialNode::SimpleState(31),
    ));
    assert_eq!(from_initial.midpoint_label, None);
    assert!(from_initial.flip_multiconnection().is_err());
    assert_eq!(from_initial.model.source, UmlStateMachineNonFinalNode::InitialPseudostate(34));
}

#[test]
fn edge_name_change_is_undone() {
    let mut a = UmlStateMachineEdgeAdapter::new(edge());
    let mut undo = Vec::new();
    a.apply_change(&UmlStateMachinePropChange::NameChange("f".to_string()), &mut undo);
    a.apply_change(&UmlStateMachinePropChange::CommentChange("ignored".to_string()), &mut undo);
    assert_eq!(a.model.name, "f");
    assert_eq!(undo.len(), 1);
    assert_eq!(name_of(&undo[0]), Some("e".to_string()));
}

#[test]
fn note_link_adapter_endings() {
    let l = UmlStateMachineNoteLink::new(40, 41, UmlStateMachineElementRef { kind: ElementKind::SimpleState, uuid: 42 });
    let a = UmlStateMachineNoteLinkAdapter::new(l);
    assert_eq!(a.source_uuids, vec![41]);
    assert_eq!(a.target_uuids, vec![42]);
}

#[test]
fn controller_adapter_closure_and_deletion() {
    let d = UmlStateMachineDiagram::new(
        1,
        "d".to_string(),
        vec![
            UmlStateMachineStandaloneElement::Note(UmlStateMachineNote::new(2, String::new(), String::new())),
            UmlStateMachineStandaloneElement::NoteLink(UmlStateMachineNoteLink::new(
                3,
                2,
                UmlStateMachineElementRef { kind: ElementKind::Note, uuid: 2 },
            )),
        ],
    );
    let mut c = UmlStateMachineControllerAdapter::new(d);
    assert_eq!(c.controller_type(), "umlstatemachine");
    let when: std::collections::HashSet<u128> = [2u128].into_iter().collect();
    let all = c.model_transitive_closure(when);
    assert_eq!(all.len(), 2);
    let mut undo = Vec::new();
    c.delete_elements(&all, &mut undo);
    assert_eq!(undo.len(), 2);
    assert!(c.model.contained_elements.is_empty());
}

#[test]
fn small_values() {
    assert!(UseCaseProfile::allows_class_rendering_as_stick_figure());
    let m = ErrorModal::new("failed".to_string());
    assert_eq!(m.message, "failed");
    assert_eq!(m.respond(false), CustomModalResult::KeepOpen);
    assert_eq!(m.respond(true), CustomModalResult::CloseUnmodified);
    let l = LinkType::Edge { name: "x".to_string() };
    match l.clone() {
        LinkType::Edge { name } => assert_eq!(name, "x"),
    }
}

#[test]
fn model_property_changes_record_their_undo() {
    let mut c = UmlStateMachineCompositeState::new(1, "s".to_string(), "c".to_string(), vec![], vec![]);
    let mut undo = Vec::new();
    c.apply_property_change(&UmlStateMachinePropChange::NameChange("d".to_string()), &mut undo);
    c.apply_property_change(&UmlStateMachinePropChange::CommentChange("ignored".to_string()), &mut undo);
    assert_eq!(c.name, "d");
    assert_eq!(undo.len(), 1);
    let u = undo.pop().unwrap();
    c.apply_property_change(&u, &mut undo);
    assert_eq!(c.name, "c");

    let mut t = UmlStateMachineInternalTransition::new(2, "go".to_string(), "g".to_string(), "b".to_string());
    let mut undo = Vec::new();
    t.apply_property_change(&UmlStateMachinePropChange::NameChange("stop".to_string()), &mut undo);
    t.apply_property_change(&UmlStateMachinePropChange::TransitionGuardChange("h".to_string()), &mut undo);
    t.apply_property_change(&UmlStateMachinePropChange::TransitionBehaviorChange("c".to_string()), &mut undo);
    assert_eq!((t.trigger.as_str(), t.guard.as_str(), t.behavior.as_str()), ("stop", "h", "c"));
    while let Some(u) = undo.pop() {
        let mut redo = Vec::new();
        t.apply_property_change(&u, &mut redo);
    }
    assert_eq!((t.trigger.as_str(), t.guard.as_str(), t.behavior.as_str()), ("go", "g", "b"));

    let mut n = UmlStateMachineNote::new(3, String::new(), "text".to_string());
    let mut undo = Vec::new();
    n.apply_property_change(&UmlStateMachinePropChange::NameChange("new".to_string()), &mut undo);
    n.apply_property_change(&UmlStateMachinePropChange::StereotypeChange("st".to_string()), &mut undo);
    assert_eq!((n.text.as_str(), n.stereotype.as_str()), ("new", "st"));
    assert_eq!(undo.len(), 2);
}
