use vstd::prelude::*;

use crate::containers::position_view;
use crate::descend::{edit_in_standalones, insert_fits, ContainerEdit, EditOutcome};
use crate::edit_spec::{insertion_point, receiving_bucket};
use crate::find_spec::{find_in, first_index, first_position};
use crate::ids::{BucketNoT, ModelUuid, PositionNoT};
use crate::model::{element_tree, DiagramTree, ElementKind, ElementTree, UmlStateMachineDiagram, UmlStateMachineElement};
use crate::update_spec::{is_container_kind, lemma_update_found_fixed, lemma_update_found_none, placement, placing, taking, update_found};

verus! {

/// Climbing from `iter` towards the nearest state machine, one parent per
/// step, `fuel` steps at most: `None` when the steps run out, else the uuid
/// of the state machine reached, or `Some(None)` when the climb leaves the
/// diagram.
pub open spec fn climb(d: DiagramTree, iter: ModelUuid, fuel: nat) -> Option<Option<ModelUuid>>
    decreases fuel,
{
    if fuel == 0 {
        None
    } else {
        match find_in(d.uuid, d.elements, iter) {
            None => Some(None),
            Some((e, p)) => if e.kind == ElementKind::StateMachine {
                Some(Some(iter))
            } else {
                climb(d, p, (fuel - 1) as nat)
            },
        }
    }
}

/// The climb from `iter` comes to an end.
pub open spec fn climb_ends(d: DiagramTree, iter: ModelUuid) -> bool {
    exists|k: nat| #[trigger] climb(d, iter, k) is Some
}

pub open spec fn climb_steps(d: DiagramTree, iter: ModelUuid) -> nat {
    choose|k: nat| #[trigger] climb(d, iter, k) is Some
}

/// The state machine the climb from `iter` ends at.
pub open spec fn nearest_machine(d: DiagramTree, iter: ModelUuid) -> Option<ModelUuid> {
    match climb(d, iter, climb_steps(d, iter)) {
        Some(m) => m,
        None => None,
    }
}

/// The nearest state machine that holds the element `u`.
pub open spec fn parent_machine(d: DiagramTree, u: ModelUuid) -> Option<ModelUuid> {
    match find_in(d.uuid, d.elements, u) {
        Some((_, p)) => nearest_machine(d, p),
        None => None,
    }
}

/// Looking for the nearest state machine that holds `u` comes to an end.
pub open spec fn parent_machine_defined(d: DiagramTree, u: ModelUuid) -> bool {
    match find_in(d.uuid, d.elements, u) {
        Some((_, p)) => climb_ends(d, p),
        None => true,
    }
}

pub open spec fn endpoints_found(d: DiagramTree, c: ElementTree) -> bool {
    find_in(d.uuid, d.elements, c.links[0].uuid) is Some && find_in(d.uuid, d.elements, c.links[1].uuid) is Some
}

/// `c` is a transition whose source or target is missing, or whose source
/// and target lie under different state machines.
pub open spec fn crosses_boundary(d: DiagramTree, c: ElementTree) -> bool {
    c.kind == ElementKind::Edge && (!endpoints_found(d, c) || parent_machine(d, c.links[0].uuid) != parent_machine(
        d,
        c.links[1].uuid,
    ))
}

/// The check of a transition's endpoints comes to an end.
pub open spec fn boundary_check_ends(d: DiagramTree, c: ElementTree) -> bool {
    c.kind == ElementKind::Edge && endpoints_found(d, c) ==> parent_machine_defined(d, c.links[0].uuid)
        && parent_machine_defined(d, c.links[1].uuid)
}

/// The position at which `target` (the diagram or one of its elements)
/// receives `c` asked to go to `bucket` at `position`, when it accepts it.
pub open spec fn accepted_at(d: DiagramTree, target: ModelUuid, bucket: int, position: Option<PositionNoT>, c: ElementTree) -> Option<
    int,
> {
    if target == d.uuid {
        match receiving_bucket(ElementKind::StateMachine, bucket, c.kind) {
            Some(_) => Some(insertion_point(position, d.elements.len() as int)),
            None => None,
        }
    } else {
        match find_in(d.uuid, d.elements, target) {
            Some((t, _)) => match placement(t, bucket, position, c.kind) {
                Some((_, p)) => Some(p),
                None => None,
            },
            None => None,
        }
    }
}

/// The asked position lies within the receiving list.
pub open spec fn insertion_fits(d: DiagramTree, target: ModelUuid, bucket: int, position: Option<PositionNoT>, c: ElementTree) -> bool {
    if target == d.uuid {
        receiving_bucket(ElementKind::StateMachine, bucket, c.kind) is Some ==> insertion_point(
            position,
            d.elements.len() as int,
        ) <= d.elements.len()
    } else {
        find_in(d.uuid, d.elements, target) matches Some((t, _)) ==> insert_fits(t, bucket, position, c)
    }
}

/// The diagram after `target` received `c`.
pub open spec fn inserted_into(d: DiagramTree, target: ModelUuid, bucket: int, position: Option<PositionNoT>, c: ElementTree) -> DiagramTree {
    if target == d.uuid {
        DiagramTree { elements: d.elements.insert(insertion_point(position, d.elements.len() as int), c), ..d }
    } else {
        DiagramTree { elements: update_found(d.uuid, d.elements, target, placing(bucket, position, c)), ..d }
    }
}

/// Where the child `u` stood in `target` (the diagram or one of its
/// elements) before its removal.
pub open spec fn removal_position(d: DiagramTree, target: ModelUuid, u: ModelUuid) -> Option<(int, int)> {
    if target == d.uuid {
        match first_index(d.elements, u) {
            Some(i) => Some((0int, i)),
            None => None,
        }
    } else {
        match find_in(d.uuid, d.elements, target) {
            Some((t, _)) => if is_container_kind(t.kind) {
                first_position(t.buckets, u)
            } else {
                None
            },
            None => None,
        }
    }
}

/// The diagram after `target` lost its first child `u`.
pub open spec fn removed_from(d: DiagramTree, target: ModelUuid, u: ModelUuid) -> DiagramTree {
    if target == d.uuid {
        match first_index(d.elements, u) {
            Some(i) => DiagramTree { elements: d.elements.remove(i), ..d },
            None => d,
        }
    } else {
        DiagramTree { elements: update_found(d.uuid, d.elements, target, taking(u)), ..d }
    }
}

proof fn lemma_climb_more_fuel(d: DiagramTree, iter: ModelUuid, k: nat, k2: nat)
    requires
        climb(d, iter, k) is Some,
        k <= k2,
    ensures
        climb(d, iter, k2) == climb(d, iter, k),
    decreases k,
{
    match find_in(d.uuid, d.elements, iter) {
        None => {},
        Some((e, p)) => {
            if e.kind != ElementKind::StateMachine {
                lemma_climb_more_fuel(d, p, (k - 1) as nat, (k2 - 1) as nat);
            }
        },
    }
}

impl UmlStateMachineDiagram {
    /// The nearest state machine that holds the element `uuid`, climbing
    /// from its parent.
    fn nearest_parent_machine(&self, uuid: ModelUuid) -> (r: Option<ModelUuid>)
        requires
            parent_machine_defined(self@, uuid),
        ensures
            r == parent_machine(self@, uuid),
    {
        let p0 = match self.find_element(uuid) {
            Some((_, p)) => p,
            None => {
                return None;
            },
        };
        let ghost k0 = climb_steps(self@, p0);
        let mut iter = p0;
        let ghost mut fuel: nat = k0;
        loop
            invariant
                climb(self@, p0, k0) is Some,
                climb(self@, iter, fuel) == climb(self@, p0, k0),
                k0 == climb_steps(self@, p0),
                parent_machine(self@, uuid) == nearest_machine(self@, p0),
            decreases fuel,
        {
            match self.find_element(iter) {
                None => {
                    return None;
                },
                Some((e, p)) => {
                    if e.kind() == ElementKind::StateMachine {
                        return Some(iter);
                    }
                    iter = p;
                    proof {
                        fuel = (fuel - 1) as nat;
                    }
                },
            }
        }
    }

    /// Inserts `element` into `target`, the diagram itself or one of its
    /// elements, at `bucket` and `position` (the end when none is given).
    /// A transition whose source or target is missing, or lies under
    /// another state machine than the other, is refused, as is anything that
    /// `target` does not accept; a refused element is handed back.
    pub fn insert_element_into(
        &mut self,
        target: ModelUuid,
        bucket: BucketNoT,
        position: Option<PositionNoT>,
        element: UmlStateMachineElement,
    ) -> (r: Result<PositionNoT, UmlStateMachineElement>)
        requires
            boundary_check_ends(old(self)@, element_tree(element)),
            !crosses_boundary(old(self)@, element_tree(element)) ==> insertion_fits(
                old(self)@,
                target,
                bucket as int,
                position,
                element_tree(element),
            ),
        ensures
            match r {
                Ok(p) => !crosses_boundary(old(self)@, element_tree(element)) && accepted_at(
                    old(self)@,
                    target,
                    bucket as int,
                    position,
                    element_tree(element),
                ) == Some(p as int) && final(self)@ == inserted_into(
                    old(self)@,
                    target,
                    bucket as int,
                    position,
                    element_tree(element),
                ),
                Err(e) => e == element && final(self)@ == old(self)@ && (crosses_boundary(old(self)@, element_tree(element))
                    || accepted_at(old(self)@, target, bucket as int, position, element_tree(element)) is None),
            },
    {
        if let UmlStateMachineElement::Edge(edge) = &element {
            let source = edge.source.uuid();
            let dest = edge.target.uuid();
            if self.find_element(source).is_none() || self.find_element(dest).is_none() {
                return Err(element);
            }
            let a = self.nearest_parent_machine(source);
            let b = self.nearest_parent_machine(dest);
            let same = match (a, b) {
                (Some(x), Some(y)) => x == y,
                (None, None) => true,
                _ => false,
            };
            if !same {
                return Err(element);
            }
        }
        if self.uuid == target {
            let r = self.insert_element_unsafe(bucket, position, element);
            return r;
        }
        if self.find_element(target).is_none() {
            return Err(element);
        }
        let ghost c = element_tree(element);
        let mut v: Vec<crate::model::UmlStateMachineStandaloneElement> = Vec::new();
        std::mem::swap(&mut v, &mut self.contained_elements);
        let (w, o) = edit_in_standalones(
            self.uuid,
            v,
            target,
            ContainerEdit::Insert { bucket, position, element },
        );
        self.contained_elements = w;
        match o {
            EditOutcome::Inserted(r) => {
                proof {
                    if r is Err {
                        lemma_update_found_fixed(old(self)@.uuid, old(self)@.elements, target, placing(bucket as int, position, c));
                    }
                    assert(self@ =~= inserted_into(old(self)@, target, bucket as int, position, c));
                }
                r
            },
            EditOutcome::Removed(_) => {
                proof {
                    assert(false);
                }
                Ok(0)
            },
        }
    }

    /// Removes the first child with uuid `uuid` from `target`, the diagram
    /// itself or one of its elements, reporting where it stood.
    pub fn remove_element_from(&mut self, target: ModelUuid, uuid: ModelUuid) -> (r: Option<(BucketNoT, PositionNoT)>)
        ensures
            position_view(r) == removal_position(old(self)@, target, uuid),
            final(self)@ == removed_from(old(self)@, target, uuid),
    {
        if self.uuid == target {
            return self.remove_element_unsafe(uuid);
        }
        if self.find_element(target).is_none() {
            proof {
                lemma_update_found_none(self@.uuid, self@.elements, target, taking(uuid));
                assert(self@ =~= removed_from(old(self)@, target, uuid));
            }
            return None;
        }
        let mut v: Vec<crate::model::UmlStateMachineStandaloneElement> = Vec::new();
        std::mem::swap(&mut v, &mut self.contained_elements);
        let (w, o) = edit_in_standalones(self.uuid, v, target, ContainerEdit::Remove { uuid });
        self.contained_elements = w;
        proof {
            assert(self@ =~= removed_from(old(self)@, target, uuid));
        }
        match o {
            EditOutcome::Removed(r) => r,
            EditOutcome::Inserted(_) => {
                proof {
                    assert(false);
                }
                None
            },
        }
    }
}

} // verus!
