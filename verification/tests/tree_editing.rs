// Tests of lookups, positions, insertion and removal on a sample diagram.

use nihonium::model::{
    ElementKind, UmlStateMachine, UmlStateMachineCompositeState, UmlStateMachineCompositeStateRegion,
    UmlStateMachineDiagram, UmlStateMachineEdge, UmlStateMachineElement, UmlStateMachineElementRef,
    UmlStateMachineFinalState, UmlStateMachineInitialPseudostate, UmlStateMachineInternalTransition,
    UmlStateMachineNonFinalNode, UmlStateMachineNonInitialNode, UmlStateMachineNote, UmlStateMachineNoteLink,
    UmlStateMachineSimpleState, UmlStateMachineStandaloneElement,
};

fn transition(uuid: u128, trigger: &str) -> UmlStateMachineInternalTransition {
    UmlStateMachineInternalTransition::new(uuid, trigger.to_string(), String::new(), String::new())
}

/// Diagram 1 holds state machine 10, note 20 and a link 21 from the note to
/// the machine. The machine holds initial 11, composite 12 (transition 13,
/// region 14 with simple state 15 holding transition 16), final 17 and edge
/// 18 from 11 to 12.
fn sample() -> UmlStateMachineDiagram {
    let simple = UmlStateMachineSimpleState::new(15, String::new(), "inner".to_string(), vec![transition(16, "tick")]);
    let region = UmlStateMachineCompositeStateRegion::new(14, vec![UmlStateMachineStandaloneElement::SimpleState(simple)]);
    let composite = UmlStateMachineCompositeState::new(
        12,
        String::new(),
        "outer".to_string(),
        vec![transition(13, "go")],
        vec![region],
    );
    let edge = UmlStateMachineEdge::new(
        18,
        String::new(),
        UmlStateMachineNonFinalNode::InitialPseudostate(11),
        UmlStateMachineNonInitialNode::CompositeState(12),
    );
    let machine = UmlStateMachine::new(
        10,
        String::new(),
        "machine".to_string(),
        false,
        vec![
            UmlStateMachineStandaloneElement::InitialPseudostate(UmlStateMachineInitialPseudostate::new(11)),
            UmlStateMachineStandaloneElement::CompositeState(composite),
            UmlStateMachineStandaloneElement::FinalState(UmlStateMachineFinalState::new(17)),
            UmlStateMachineStandaloneElement::Edge(edge),
        ],
    );
    let note = UmlStateMachineNote::new(20, String::new(), "remember".to_string());
    let link = UmlStateMachineNoteLink::new(21, 20, UmlStateMachineElementRef { kind: ElementKind::StateMachine, uuid: 10 });
    UmlStateMachineDiagram::new(
        1,
        "sample".to_string(),
        vec![
            UmlStateMachineStandaloneElement::StateMachine(machine),
            UmlStateMachineStandaloneElement::Note(note),
            UmlStateMachineStandaloneElement::NoteLink(link),
        ],
    )
}

#[test]
fn find_element_reports_parent() {
    let d = sample();
    let (e, parent) = d.find_element(15).unwrap();
    assert_eq!(parent, 14);
    assert_eq!(e.kind(), ElementKind::SimpleState);
    let (e, parent) = d.find_element(13).unwrap();
    assert_eq!(parent, 12);
    assert_eq!(e.kind(), ElementKind::InternalTransition);
    let (_, parent) = d.find_element(10).unwrap();
    assert_eq!(parent, 1);
}

#[test]
fn find_element_does_not_search_simple_states() {
    let d = sample();
    assert!(d.find_element(16).is_none());
    assert!(d.find_element(99).is_none());
}

#[test]
fn positions_inside_parents() {
    let d = sample();
    assert_eq!(d.get_element_pos_in(12, 14), Some((2, 0)));
    assert_eq!(d.get_element_pos_in(12, 13), Some((1, 0)));
    assert_eq!(d.get_element_pos_in(1, 20), Some((0, 1)));
    assert_eq!(d.get_element_pos_in(10, 18), Some((0, 3)));
    assert_eq!(d.get_element_pos_in(10, 99), None);
    // a simple state reports no positions through the element
    assert_eq!(d.get_element_pos_in(15, 16), None);
}

#[test]
fn insert_into_region_then_remove() {
    let mut d = sample();
    let final_state = UmlStateMachineElement::FinalState(UmlStateMachineFinalState::new(30));
    assert_eq!(d.insert_element_into(14, 0, None, final_state).ok(), Some(1));
    assert_eq!(d.get_element_pos_in(14, 30), Some((0, 1)));
    assert_eq!(d.remove_element_from(14, 30), Some((0, 1)));
    assert_eq!(d.get_element_pos_in(14, 30), None);
    assert_eq!(d.remove_element_from(14, 30), None);
}

#[test]
fn insert_transition_into_composite_at_position() {
    let mut d = sample();
    let t = UmlStateMachineElement::InternalTransition(transition(31, "first"));
    assert_eq!(d.insert_element_into(12, 1, Some(0), t).ok(), Some(0));
    assert_eq!(d.get_element_pos_in(12, 31), Some((1, 0)));
    assert_eq!(d.get_element_pos_in(12, 13), Some((1, 1)));
    // bucket 0 of a composite state takes transitions into bucket 1 as well
    let t2 = UmlStateMachineElement::InternalTransition(transition(32, "second"));
    assert_eq!(d.insert_element_into(12, 0, None, t2).ok(), Some(2));
}

#[test]
fn insert_refuses_what_does_not_fit() {
    let mut d = sample();
    let t = UmlStateMachineElement::InternalTransition(transition(33, "x"));
    let back = d.insert_element_into(10, 0, None, t).err().unwrap();
    assert_eq!(back.uuid(), 33);
    let r = UmlStateMachineElement::CompositeStateRegion(UmlStateMachineCompositeStateRegion::new(34, vec![]));
    assert!(d.insert_element_into(1, 0, None, r).is_err());
    let f = UmlStateMachineElement::FinalState(UmlStateMachineFinalState::new(35));
    assert!(d.insert_element_into(99, 0, None, f).is_err());
    let f = UmlStateMachineElement::FinalState(UmlStateMachineFinalState::new(36));
    assert!(d.insert_element_into(17, 0, None, f).is_err());
    let f = UmlStateMachineElement::FinalState(UmlStateMachineFinalState::new(37));
    assert!(d.insert_element_into(10, 1, None, f).is_err());
}

#[test]
fn insert_at_top_level() {
    let mut d = sample();
    let f = UmlStateMachineElement::FinalState(UmlStateMachineFinalState::new(38));
    assert_eq!(d.insert_element_into(1, 0, Some(0), f).ok(), Some(0));
    assert_eq!(d.get_element_pos_in(1, 38), Some((0, 0)));
    assert_eq!(d.get_element_pos_in(1, 10), Some((0, 1)));
    assert_eq!(d.remove_element_from(1, 38), Some((0, 0)));
}

#[test]
fn edges_stay_within_one_state_machine() {
    let mut d = sample();
    let other = UmlStateMachine::new(
        40,
        String::new(),
        "other".to_string(),
        false,
        vec![UmlStateMachineStandaloneElement::SimpleState(UmlStateMachineSimpleState::new(
            41,
            String::new(),
            "s".to_string(),
            vec![],
        ))],
    );
    let other = UmlStateMachineElement::StateMachine(other);
    assert_eq!(d.insert_element_into(1, 0, None, other).ok(), Some(3));

    let crossing = UmlStateMachineEdge::new(
        42,
        String::new(),
        UmlStateMachineNonFinalNode::SimpleState(15),
        UmlStateMachineNonInitialNode::SimpleState(41),
    );
    assert!(d.insert_element_into(10, 0, None, UmlStateMachineElement::Edge(crossing)).is_err());

    let missing = UmlStateMachineEdge::new(
        43,
        String::new(),
        UmlStateMachineNonFinalNode::SimpleState(15),
        UmlStateMachineNonInitialNode::SimpleState(99),
    );
    assert!(d.insert_element_into(10, 0, None, UmlStateMachineElement::Edge(missing)).is_err());

    let inside = UmlStateMachineEdge::new(
        44,
        String::new(),
        UmlStateMachineNonFinalNode::SimpleState(15),
        UmlStateMachineNonInitialNode::FinalState(17),
    );
    assert_eq!(d.insert_element_into(10, 0, None, UmlStateMachineElement::Edge(inside)).ok(), Some(4));
}

#[test]
fn remove_then_insert_back_restores_position() {
    let mut d = sample();
    let (e, _) = d.find_element(17).unwrap();
    let (b, p) = d.remove_element_from(10, 17).unwrap();
    assert_eq!((b, p), (0, 2));
    assert_eq!(d.get_element_pos_in(10, 18), Some((0, 2)));
    assert_eq!(d.insert_element_into(10, b, Some(p), e).ok(), Some(2));
    assert_eq!(d.get_element_pos_in(10, 17), Some((0, 2)));
    assert_eq!(d.get_element_pos_in(10, 18), Some((0, 3)));
}
