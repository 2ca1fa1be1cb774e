// Tests of deletion with its records, the closure of a deletion, enumeration
// and deep copies.

use std::collections::HashSet;

use nihonium::model::{
    ElementKind, UmlStateMachine, UmlStateMachineCompositeState, UmlStateMachineCompositeStateRegion,
    UmlStateMachineDiagram, UmlStateMachineEdge, UmlStateMachineElementRef, UmlStateMachineFinalState,
    UmlStateMachineInitialPseudostate, UmlStateMachineInternalTransition, UmlStateMachineNonFinalNode,
    UmlStateMachineNonInitialNode, UmlStateMachineNote, UmlStateMachineNoteLink, UmlStateMachineSimpleState,
    UmlStateMachineStandaloneElement,
};
use nihonium::closure_walk::transitive_closure;
use nihonium::enumerate::enumerate_diagram;
use nihonium::relink::deep_copy_diagram;

fn transition(uuid: u128, trigger: &str) -> UmlStateMachineInternalTransition {
    UmlStateMachineInternalTransition::new(uuid, trigger.to_string(), String::new(), String::new())
}

/// Diagram 1 holds state machine 10, note 20 and a link 21 from the note to
/// the machine. The machine holds initial 11, composite 12 (transition 13,
/// region 14 with simple state 15 holding transition 16), final 17 and edge
/// 18 from 11 to 12.
fn sample() -> UmlStateMachineDiagram {
    let simple = UmlStateMachineSimpleState::new(15, String::new(), "inner".to_string(), vec![transition(16, "tick")]);
    let region = UmlStateMachineCompositeStateRegion::new(14, vec![UmlStateMachineStandaloneElement::SimpleState(simple)]);
    let composite = UmlStateMachineCompositeState::new(
        12,
        String::new(),
        "outer".to_string(),
        vec![transition(13, "go")],
        vec![region],
    );
    let edge = UmlStateMachineEdge::new(
        18,
        String::new(),
        UmlStateMachineNonFinalNode::InitialPseudostate(11),
        UmlStateMachineNonInitialNode::CompositeState(12),
    );
    let machine = UmlStateMachine::new(
        10,
        String::new(),
        "machine".to_string(),
        false,
        vec![
            UmlStateMachineStandaloneElement::InitialPseudostate(UmlStateMachineInitialPseudostate::new(11)),
            UmlStateMachineStandaloneElement::CompositeState(composite),
            UmlStateMachineStandaloneElement::FinalState(UmlStateMachineFinalState::new(17)),
            UmlStateMachineStandaloneElement::Edge(edge),
        ],
    );
    let note = UmlStateMachineNote::new(20, String::new(), "remember".to_string());
    let link = UmlStateMachineNoteLink::new(21, 20, UmlStateMachineElementRef { kind: ElementKind::StateMachine, uuid: 10 });
    UmlStateMachineDiagram::new(
        1,
        "sample".to_string(),
        vec![
            UmlStateMachineStandaloneElement::StateMachine(machine),
            UmlStateMachineStandaloneElement::Note(note),
            UmlStateMachineStandaloneElement::NoteLink(link),
        ],
    )
}

fn set(items: &[u128]) -> HashSet<u128> {
    items.iter().copied().collect()
}

#[test]
fn closure_of_a_composite_takes_its_content_and_edges() {
    let d = sample();
    let r = transitive_closure(&d, set(&[12]));
    assert_eq!(r, set(&[12, 13, 14, 15, 16, 18]));
}

#[test]
fn closure_of_a_note_takes_its_links() {
    let d = sample();
    let r = transitive_closure(&d, set(&[20]));
    assert_eq!(r, set(&[20, 21]));
}

#[test]
fn closure_of_the_machine_takes_everything_linked_to_it() {
    let d = sample();
    let r = transitive_closure(&d, set(&[10]));
    assert_eq!(r, set(&[10, 11, 12, 13, 14, 15, 16, 17, 18, 21]));
}

#[test]
fn closure_of_nothing_is_nothing() {
    let d = sample();
    assert!(transitive_closure(&d, HashSet::new()).is_empty());
}

#[test]
fn delete_records_each_removal_in_order() {
    let mut d = sample();
    let mut undo = Vec::new();
    d.delete_elements(&set(&[15, 18]), &mut undo);
    assert_eq!(undo.len(), 2);
    assert_eq!((undo[0].0, undo[0].1.uuid(), undo[0].2, undo[0].3), (14, 15, 0, 0));
    assert_eq!((undo[1].0, undo[1].1.uuid(), undo[1].2, undo[1].3), (10, 18, 0, 3));
    assert!(d.find_element(15).is_none());
    assert!(d.find_element(18).is_none());
    assert_eq!(d.get_element_pos_in(10, 17), Some((0, 2)));
    // reinserting the records in order gives the elements back in place
    for (parent, element, bucket, position) in undo {
        assert_eq!(d.insert_element_into(parent, bucket, Some(position), element).ok(), Some(position));
    }
    assert_eq!(d.get_element_pos_in(14, 15), Some((0, 0)));
    assert_eq!(d.get_element_pos_in(10, 18), Some((0, 3)));
}

#[test]
fn delete_keeps_regions_when_all_would_go() {
    let mut d = sample();
    let mut undo = Vec::new();
    d.delete_elements(&set(&[14]), &mut undo);
    assert!(undo.is_empty());
    assert_eq!(d.get_element_pos_in(12, 14), Some((2, 0)));
}

#[test]
fn delete_at_top_level() {
    let mut d = sample();
    let mut undo = Vec::new();
    d.delete_elements(&set(&[20, 21]), &mut undo);
    assert_eq!(undo.len(), 2);
    assert_eq!((undo[0].0, undo[0].2, undo[0].3), (1, 0, 1));
    assert_eq!((undo[1].0, undo[1].2, undo[1].3), (1, 0, 2));
    assert_eq!(d.contained_elements.len(), 1);
}

#[test]
fn enumerate_lists_every_element() {
    let d = sample();
    let m = enumerate_diagram(&d);
    let mut keys: Vec<u128> = m.keys().copied().collect();
    keys.sort();
    assert_eq!(keys, vec![10, 11, 12, 13, 14, 15, 16, 17, 18, 20, 21]);
    assert_eq!(m.get(&14).unwrap().kind(), ElementKind::CompositeStateRegion);
}

fn is_v7(u: u128) -> bool {
    (u >> 76) & 0xf == 7 && (u >> 62) & 0x3 == 2
}

#[test]
fn deep_copy_gives_fresh_uuids_and_relinks() {
    let d = sample();
    let (copy, map) = deep_copy_diagram(&d);
    assert!(is_v7(copy.uuid));
    assert_ne!(copy.uuid, d.uuid);
    assert_eq!(copy.name, d.name);
    assert_eq!(copy.contained_elements.len(), 3);
    assert_eq!(map.len(), 11);
    for (old, r) in map.iter() {
        assert!(is_v7(r.uuid));
        assert_ne!(*old, r.uuid);
    }
    // the copied edge runs between the copies of its endpoints
    let edge_copy = map.get(&18).unwrap().uuid;
    let (edge, _) = copy.find_element(edge_copy).unwrap();
    match edge {
        nihonium::model::UmlStateMachineElement::Edge(e) => {
            assert_eq!(e.source.uuid(), map.get(&11).unwrap().uuid);
            assert_eq!(e.target.uuid(), map.get(&12).unwrap().uuid);
        }
        _ => panic!("not an edge"),
    }
    // the copied note link points at the copy of the machine
    let link_copy = map.get(&21).unwrap().uuid;
    let (link, _) = copy.find_element(link_copy).unwrap();
    match link {
        nihonium::model::UmlStateMachineElement::NoteLink(l) => {
            assert_eq!(l.source, map.get(&20).unwrap().uuid);
            assert_eq!(l.target.uuid, map.get(&10).unwrap().uuid);
            assert_eq!(l.target.kind, ElementKind::StateMachine);
        }
        _ => panic!("not a note link"),
    }
    // the diagram that was copied is untouched
    assert_eq!(d.get_element_pos_in(10, 18), Some((0, 3)));
}

/// Every element of the diagram with its parent and its place in it, where
/// the lookup reaches it.
fn layout(d: &UmlStateMachineDiagram) -> Vec<(u128, u128, Option<(u8, usize)>)> {
    let m = enumerate_diagram(d);
    let mut keys: Vec<u128> = m.keys().copied().collect();
    keys.sort();
    let mut out = Vec::new();
    for k in keys {
        match d.find_element(k) {
            Some((_, parent)) => out.push((k, parent, d.get_element_pos_in(parent, k))),
            None => out.push((k, 0, None)),
        }
    }
    out
}

#[test]
fn deleting_a_closure_and_reinserting_the_records_gives_the_diagram_back() {
    let before = sample();
    let mut d = sample();
    let closure = transitive_closure(&d, set(&[12, 20]));
    let mut undo = Vec::new();
    d.delete_elements(&closure, &mut undo);
    assert_eq!(layout(&d).len(), 3);
    for (parent, element, bucket, position) in undo {
        assert_eq!(d.insert_element_into(parent, bucket, Some(position), element).ok(), Some(position));
    }
    assert_eq!(layout(&d), layout(&before));
}

/// Every relationship of the diagram runs between elements that are there.
fn no_dangling_link(d: &UmlStateMachineDiagram) -> bool {
    let m = enumerate_diagram(d);
    m.values().all(|e| match e {
        nihonium::model::UmlStateMachineElement::Edge(x) => {
            d.find_element(x.source.uuid()).is_some() && d.find_element(x.target.uuid()).is_some()
        }
        nihonium::model::UmlStateMachineElement::NoteLink(x) => {
            (d.find_element(x.source).is_some() || x.source == d.uuid)
                && (d.find_element(x.target.uuid).is_some() || x.target.uuid == d.uuid)
        }
        _ => true,
    })
}

#[test]
fn deleting_a_closure_leaves_no_dangling_link() {
    for start in [vec![11u128], vec![12], vec![20], vec![10], vec![15, 17]] {
        let mut d = sample();
        assert!(no_dangling_link(&d));
        let closure = transitive_closure(&d, set(&start));
        let mut undo = Vec::new();
        d.delete_elements(&closure, &mut undo);
        assert!(no_dangling_link(&d));
    }
    // deleting only the source of the edge leaves the edge dangling
    let mut d = sample();
    let mut undo = Vec::new();
    d.delete_elements(&set(&[11]), &mut undo);
    assert!(!no_dangling_link(&d));
}

#[test]
fn closing_a_closure_again_adds_nothing() {
    let d = sample();
    for start in [vec![11u128], vec![12], vec![20], vec![10], vec![15, 17], vec![]] {
        let once = transitive_closure(&d, set(&start));
        let twice = transitive_closure(&d, once.clone());
        assert_eq!(twice, once);
    }
}

#[test]
fn deleting_a_closure_removes_exactly_its_elements() {
    for start in [vec![11u128], vec![12], vec![20], vec![10], vec![15, 17]] {
        let mut d = sample();
        let before: HashSet<u128> = enumerate_diagram(&d).keys().copied().collect();
        let closure = transitive_closure(&d, set(&start));
        let mut undo = Vec::new();
        d.delete_elements(&closure, &mut undo);
        let after: HashSet<u128> = enumerate_diagram(&d).keys().copied().collect();
        let expected: HashSet<u128> = before.difference(&closure).copied().collect();
        assert_eq!(after, expected);
    }
}
