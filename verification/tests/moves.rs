// Tests of moving regions inside a composite state.

use nihonium::model::{UmlStateMachineCompositeState, UmlStateMachineCompositeStateRegion, UmlStateMachineInternalTransition};

fn state() -> UmlStateMachineCompositeState {
    UmlStateMachineCompositeState::new(
        1,
        String::new(),
        "c".to_string(),
        vec![UmlStateMachineInternalTransition::new(2, "t".to_string(), String::new(), String::new())],
        vec![
            UmlStateMachineCompositeStateRegion::new(3, vec![]),
            UmlStateMachineCompositeStateRegion::new(4, vec![]),
            UmlStateMachineCompositeStateRegion::new(5, vec![]),
        ],
    )
}

fn region_order(c: &UmlStateMachineCompositeState) -> Vec<u128> {
    c.regions.iter().map(|r| r.uuid).collect()
}

#[test]
fn move_region_and_back() {
    let mut c = state();
    c.move_element(5, 2, 0);
    assert_eq!(region_order(&c), vec![5, 3, 4]);
    c.move_element(5, 2, 2);
    assert_eq!(region_order(&c), vec![3, 4, 5]);
}

#[test]
fn move_in_other_buckets() {
    let mut c = state();
    c.move_element(3, 0, 2);
    assert_eq!(region_order(&c), vec![3, 4, 5]);
    c.move_element(99, 2, 0);
    assert_eq!(region_order(&c), vec![3, 4, 5]);
    // bucket 1 looks the element up among the internal transitions and
    // moves the region at that position
    c.move_element(2, 1, 2);
    assert_eq!(region_order(&c), vec![4, 5, 3]);
    assert_eq!(c.internal_transitions.len(), 1);
}

use nihonium::changes::UmlStateMachineOrdinalMovement;
use std::collections::HashSet;

fn set(items: &[u128]) -> HashSet<u128> {
    items.iter().copied().collect()
}

#[test]
fn ordinal_move_up_and_back_down() {
    let mut order = vec![1u128, 10, 2, 20];
    let moved = UmlStateMachineOrdinalMovement::Up.apply_to(&mut order, &set(&[10, 20]));
    assert_eq!(order, vec![10, 1, 20, 2]);
    assert_eq!(moved, set(&[10, 20]));
    let back = UmlStateMachineOrdinalMovement::Up.inverse().apply_to(&mut order, &moved);
    assert_eq!(order, vec![1, 10, 2, 20]);
    assert_eq!(back, set(&[10, 20]));
}

#[test]
fn ordinal_move_runs_pass_one_element() {
    let mut order = vec![1u128, 10, 20];
    let moved = UmlStateMachineOrdinalMovement::Up.apply_to(&mut order, &set(&[10, 20]));
    assert_eq!(order, vec![10, 20, 1]);
    assert_eq!(moved, set(&[10, 20]));

    let mut top = vec![10u128, 20, 1];
    let moved = UmlStateMachineOrdinalMovement::Up.apply_to(&mut top, &set(&[10, 20]));
    assert_eq!(top, vec![10, 20, 1]);
    assert!(moved.is_empty());

    let mut down = vec![10u128, 1, 20, 2];
    let moved = UmlStateMachineOrdinalMovement::Down.apply_to(&mut down, &set(&[10, 20]));
    assert_eq!(down, vec![1, 10, 2, 20]);
    assert_eq!(moved, set(&[10, 20]));

    let mut empty: Vec<u128> = Vec::new();
    assert!(UmlStateMachineOrdinalMovement::Down.apply_to(&mut empty, &set(&[1])).is_empty());
}
