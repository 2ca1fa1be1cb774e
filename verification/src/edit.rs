use vstd::prelude::*;

use crate::containers::{index_view, position_view};
use crate::edit_spec::{insertion_point, receiving_bucket, with_inserted, with_removed};
use crate::find_spec::{
    first_index, first_position, lemma_find_one_bucket, lemma_find_three_buckets, lemma_first_index_found,
    lemma_position_two_buckets,
};
use crate::ids::{BucketNoT, ModelUuid, PositionNoT};
use crate::model::{
    composite_tree, element_tree, machine_tree, region_tree, region_trees, simple_tree, standalone_trees,
    transition_trees, DiagramTree, ElementKind, ElementTree, UmlStateMachine, UmlStateMachineCompositeState,
    UmlStateMachineCompositeStateRegion, UmlStateMachineDiagram, UmlStateMachineElement,
    UmlStateMachineInternalTransition, UmlStateMachineSimpleState, UmlStateMachineStandaloneElement,
};

verus! {

pub open spec fn removed_at(s: Seq<ElementTree>, r: Option<usize>) -> Seq<ElementTree> {
    match r {
        Some(i) => s.remove(i as int),
        None => s,
    }
}

proof fn lemma_first_index_is(ts: Seq<ElementTree>, i: int, uuid: ModelUuid)
    requires
        0 <= i < ts.len(),
        ts[i].uuid == uuid,
        forall|j: int| 0 <= j < i ==> ts[j].uuid != uuid,
    ensures
        first_index(ts, uuid) == Some(i),
{
    lemma_first_index_found(ts, uuid);
}

proof fn lemma_first_index_none(ts: Seq<ElementTree>, uuid: ModelUuid)
    requires
        forall|j: int| 0 <= j < ts.len() ==> ts[j].uuid != uuid,
    ensures
        first_index(ts, uuid) == None::<int>,
{
    lemma_first_index_found(ts, uuid);
}

fn remove_first_standalone(v: &mut Vec<UmlStateMachineStandaloneElement>, uuid: ModelUuid) -> (r: Option<usize>)
    ensures
        index_view(r) == first_index(standalone_trees(old(v)@), uuid),
        standalone_trees(final(v)@) == removed_at(standalone_trees(old(v)@), r),
{
    let ghost ts = standalone_trees(v@);
    let mut i: usize = 0;
    while i < v.len()
        invariant
            0 <= i <= v.len(),
            ts == standalone_trees(v@),
            *v == *old(v),
            forall|j: int| 0 <= j < i ==> ts[j].uuid != uuid,
        decreases v.len() - i,
    {
        if v[i].uuid() == uuid {
            let _removed = v.remove(i);
            proof {
                lemma_first_index_is(ts, i as int, uuid);
                assert(standalone_trees(v@) =~= ts.remove(i as int));
            }
            return Some(i);
        }
        i = i + 1;
    }
    proof {
        lemma_first_index_none(ts, uuid);
    }
    None
}

fn remove_first_region(v: &mut Vec<UmlStateMachineCompositeStateRegion>, uuid: ModelUuid) -> (r: Option<usize>)
    ensures
        index_view(r) == first_index(region_trees(old(v)@), uuid),
        region_trees(final(v)@) == removed_at(region_trees(old(v)@), r),
{
    let ghost ts = region_trees(v@);
    let mut i: usize = 0;
    while i < v.len()
        invariant
            0 <= i <= v.len(),
            ts == region_trees(v@),
            *v == *old(v),
            forall|j: int| 0 <= j < i ==> ts[j].uuid != uuid,
        decreases v.len() - i,
    {
        if v[i].uuid == uuid {
            let _removed = v.remove(i);
            proof {
                lemma_first_index_is(ts, i as int, uuid);
                assert(region_trees(v@) =~= ts.remove(i as int));
            }
            return Some(i);
        }
        i = i + 1;
    }
    proof {
        lemma_first_index_none(ts, uuid);
    }
    None
}

fn remove_first_transition(v: &mut Vec<UmlStateMachineInternalTransition>, uuid: ModelUuid) -> (r: Option<usize>)
    ensures
        index_view(r) == first_index(transition_trees(old(v)@), uuid),
        transition_trees(final(v)@) == removed_at(transition_trees(old(v)@), r),
{
    let ghost ts = transition_trees(v@);
    let mut i: usize = 0;
    while i < v.len()
        invariant
            0 <= i <= v.len(),
            ts == transition_trees(v@),
            *v == *old(v),
            forall|j: int| 0 <= j < i ==> ts[j].uuid != uuid,
        decreases v.len() - i,
    {
        if v[i].uuid == uuid {
            let _removed = v.remove(i);
            proof {
                lemma_first_index_is(ts, i as int, uuid);
                assert(transition_trees(v@) =~= ts.remove(i as int));
            }
            return Some(i);
        }
        i = i + 1;
    }
    proof {
        lemma_first_index_none(ts, uuid);
    }
    None
}

/// Inserts a standalone element into a list of standalone elements, refusing
/// any other bucket or element.
fn insert_standalone(
    v: &mut Vec<UmlStateMachineStandaloneElement>,
    bucket: BucketNoT,
    position: Option<PositionNoT>,
    element: UmlStateMachineElement,
) -> (r: Result<PositionNoT, UmlStateMachineElement>)
    requires
        receiving_bucket(ElementKind::StateMachine, bucket as int, element_tree(element).kind) is Some ==> insertion_point(
            position,
            old(v)@.len() as int,
        ) <= old(v)@.len(),
    ensures
        match r {
            Ok(p) => receiving_bucket(ElementKind::StateMachine, bucket as int, element_tree(element).kind) == Some(0int)
                && p as int == insertion_point(position, old(v)@.len() as int) && standalone_trees(final(v)@)
                == standalone_trees(old(v)@).insert(p as int, element_tree(element)),
            Err(e) => receiving_bucket(ElementKind::StateMachine, bucket as int, element_tree(element).kind) is None && e
                == element && *final(v) == *old(v),
        },
{
    if bucket != 0 {
        return Err(element);
    }
    match element.into_standalone() {
        Ok(s) => {
            let pos = match position {
                Some(p) => p,
                None => v.len(),
            };
            v.insert(pos, s);
            proof {
                assert(standalone_trees(v@) =~= standalone_trees(old(v)@).insert(pos as int, element_tree(element)));
            }
            Ok(pos)
        },
        Err(e) => Err(e),
    }
}

impl UmlStateMachine {
    /// Inserts a standalone element into the state machine (bucket 0), at
    /// `position` or at the end; any other element or bucket is refused and
    /// handed back.
    pub fn insert_element(&mut self, bucket: BucketNoT, position: Option<PositionNoT>, element: UmlStateMachineElement) -> (r: Result<
        PositionNoT,
        UmlStateMachineElement,
    >)
        requires
            receiving_bucket(ElementKind::StateMachine, bucket as int, element_tree(element).kind) is Some ==> insertion_point(
                position,
                old(self).contained_elements@.len() as int,
            ) <= old(self).contained_elements@.len(),
        ensures
            match r {
                Ok(p) => receiving_bucket(ElementKind::StateMachine, bucket as int, element_tree(element).kind) == Some(0int)
                    && p as int == insertion_point(position, old(self).contained_elements@.len() as int) && machine_tree(
                    *final(self),
                ) == with_inserted(machine_tree(*old(self)), 0, p as int, element_tree(element)),
                Err(e) => receiving_bucket(ElementKind::StateMachine, bucket as int, element_tree(element).kind) is None
                    && e == element && *final(self) == *old(self),
            },
    {
        let r = insert_standalone(&mut self.contained_elements, bucket, position, element);
        proof {
            if r is Ok {
                assert(machine_tree(*self).buckets =~= machine_tree(*old(self)).buckets.update(0, machine_tree(*old(self)).buckets[0].insert(r->Ok_0 as int, element_tree(element))));
                assert(machine_tree(*self) =~= with_inserted(machine_tree(*old(self)), 0, r->Ok_0 as int, element_tree(element)));
            }
        }
        r
    }

    /// Removes the first child with uuid `uuid`, reporting where it stood.
    pub fn remove_element(&mut self, uuid: ModelUuid) -> (r: Option<(BucketNoT, PositionNoT)>)
        ensures
            position_view(r) == first_position(machine_tree(*old(self)).buckets, uuid),
            machine_tree(*final(self)) == match position_view(r) {
                Some((b, i)) => with_removed(machine_tree(*old(self)), b, i),
                None => machine_tree(*old(self)),
            },
    {
        proof {
            lemma_find_one_bucket(machine_tree(*self), uuid);
        }
        match remove_first_standalone(&mut self.contained_elements, uuid) {
            Some(i) => {
                proof {
                    assert(machine_tree(*self).buckets =~= machine_tree(*old(self)).buckets.update(0, machine_tree(*old(self)).buckets[0].remove(i as int)));
                    assert(machine_tree(*self) =~= with_removed(machine_tree(*old(self)), 0, i as int));
                }
                Some((0, i))
            },
            None => {
                proof {
                    assert(machine_tree(*self) =~= machine_tree(*old(self)));
                }
                None
            },
        }
    }
}

impl UmlStateMachineCompositeStateRegion {
    /// Inserts a standalone element into the region (bucket 0), at `position`
    /// or at the end; any other element or bucket is refused and handed back.
    pub fn insert_element(&mut self, bucket: BucketNoT, position: Option<PositionNoT>, element: UmlStateMachineElement) -> (r: Result<
        PositionNoT,
        UmlStateMachineElement,
    >)
        requires
            receiving_bucket(ElementKind::CompositeStateRegion, bucket as int, element_tree(element).kind) is Some
                ==> insertion_point(position, old(self).contained_elements@.len() as int) <= old(self).contained_elements@.len(),
        ensures
            match r {
                Ok(p) => receiving_bucket(ElementKind::CompositeStateRegion, bucket as int, element_tree(element).kind) == Some(
                    0int,
                ) && p as int == insertion_point(position, old(self).contained_elements@.len() as int) && region_tree(
                    *final(self),
                ) == with_inserted(region_tree(*old(self)), 0, p as int, element_tree(element)),
                Err(e) => receiving_bucket(ElementKind::CompositeStateRegion, bucket as int, element_tree(element).kind) is None
                    && e == element && *final(self) == *old(self),
            },
    {
        let r = insert_standalone(&mut self.contained_elements, bucket, position, element);
        proof {
            if r is Ok {
                assert(region_tree(*self).buckets =~= region_tree(*old(self)).buckets.update(0, region_tree(*old(self)).buckets[0].insert(r->Ok_0 as int, element_tree(element))));
                assert(region_tree(*self) =~= with_inserted(region_tree(*old(self)), 0, r->Ok_0 as int, element_tree(element)));
            }
        }
        r
    }

    /// Removes the first child with uuid `uuid`, reporting where it stood.
    pub fn remove_element(&mut self, uuid: ModelUuid) -> (r: Option<(BucketNoT, PositionNoT)>)
        ensures
            position_view(r) == first_position(region_tree(*old(self)).buckets, uuid),
            region_tree(*final(self)) == match position_view(r) {
                Some((b, i)) => with_removed(region_tree(*old(self)), b, i),
                None => region_tree(*old(self)),
            },
    {
        proof {
            lemma_find_one_bucket(region_tree(*self), uuid);
        }
        match remove_first_standalone(&mut self.contained_elements, uuid) {
            Some(i) => {
                proof {
                    assert(region_tree(*self).buckets =~= region_tree(*old(self)).buckets.update(0, region_tree(*old(self)).buckets[0].remove(i as int)));
                    assert(region_tree(*self) =~= with_removed(region_tree(*old(self)), 0, i as int));
                }
                Some((0, i))
            },
            None => {
                proof {
                    assert(region_tree(*self) =~= region_tree(*old(self)));
                }
                None
            },
        }
    }
}

impl UmlStateMachineCompositeState {
    /// Bucket of the internal transitions.
    pub const INTERNAL_TRANSITIONS_BUCKET: BucketNoT = 1;

    /// Bucket of the regions.
    pub const REGIONS_BUCKET: BucketNoT = 2;

    /// Inserts an internal transition (bucket 0 or 1) or a region (bucket 0
    /// or 2) at `position` or at the end; anything else is refused and handed
    /// back.
    pub fn insert_element(&mut self, bucket: BucketNoT, position: Option<PositionNoT>, element: UmlStateMachineElement) -> (r: Result<
        PositionNoT,
        UmlStateMachineElement,
    >)
        requires
            receiving_bucket(ElementKind::CompositeState, bucket as int, element_tree(element).kind) matches Some(b)
                ==> insertion_point(position, composite_tree(*old(self)).buckets[b].len() as int) <= composite_tree(
                *old(self),
            ).buckets[b].len(),
        ensures
            match r {
                Ok(p) => receiving_bucket(ElementKind::CompositeState, bucket as int, element_tree(element).kind) matches Some(b)
                    && p as int == insertion_point(position, composite_tree(*old(self)).buckets[b].len() as int) && composite_tree(
                    *final(self),
                ) == with_inserted(composite_tree(*old(self)), b, p as int, element_tree(element)),
                Err(e) => receiving_bucket(ElementKind::CompositeState, bucket as int, element_tree(element).kind) is None && e
                    == element && *final(self) == *old(self),
            },
    {
        let ghost t = composite_tree(*self);
        match element {
            UmlStateMachineElement::InternalTransition(x) => {
                if bucket == 0 || bucket == Self::INTERNAL_TRANSITIONS_BUCKET {
                    let pos = match position {
                        Some(p) => p,
                        None => self.internal_transitions.len(),
                    };
                    self.internal_transitions.insert(pos, x);
                    proof {
                        assert(transition_trees(self.internal_transitions@) =~= transition_trees(
                            old(self).internal_transitions@,
                        ).insert(pos as int, element_tree(element)));
                        assert(composite_tree(*self).buckets =~= t.buckets.update(1, t.buckets[1].insert(pos as int, element_tree(element))));
                        assert(composite_tree(*self) =~= with_inserted(t, 1, pos as int, element_tree(element)));
                    }
                    Ok(pos)
                } else {
                    Err(UmlStateMachineElement::InternalTransition(x))
                }
            },
            UmlStateMachineElement::CompositeStateRegion(x) => {
                if bucket == 0 || bucket == Self::REGIONS_BUCKET {
                    let pos = match position {
                        Some(p) => p,
                        None => self.regions.len(),
                    };
                    self.regions.insert(pos, x);
                    proof {
                        assert(region_trees(self.regions@) =~= region_trees(old(self).regions@).insert(
                            pos as int,
                            element_tree(element),
                        ));
                        assert(composite_tree(*self).buckets =~= t.buckets.update(2, t.buckets[2].insert(pos as int, element_tree(element))));
                        assert(composite_tree(*self) =~= with_inserted(t, 2, pos as int, element_tree(element)));
                    }
                    Ok(pos)
                } else {
                    Err(UmlStateMachineElement::CompositeStateRegion(x))
                }
            },
            other => Err(other),
        }
    }

    /// Removes the first internal transition, or else the first region, with
    /// uuid `uuid`, reporting where it stood.
    pub fn remove_element(&mut self, uuid: ModelUuid) -> (r: Option<(BucketNoT, PositionNoT)>)
        ensures
            position_view(r) == first_position(composite_tree(*old(self)).buckets, uuid),
            composite_tree(*final(self)) == match position_view(r) {
                Some((b, i)) => with_removed(composite_tree(*old(self)), b, i),
                None => composite_tree(*old(self)),
            },
    {
        proof {
            lemma_find_three_buckets(composite_tree(*self), uuid);
        }
        match remove_first_transition(&mut self.internal_transitions, uuid) {
            Some(i) => {
                proof {
                    assert(composite_tree(*self).buckets =~= composite_tree(*old(self)).buckets.update(1, composite_tree(*old(self)).buckets[1].remove(i as int)));
                    assert(composite_tree(*self) =~= with_removed(composite_tree(*old(self)), 1, i as int));
                }
                Some((Self::INTERNAL_TRANSITIONS_BUCKET, i))
            },
            None => match remove_first_region(&mut self.regions, uuid) {
                Some(i) => {
                    proof {
                        assert(composite_tree(*self).buckets =~= composite_tree(*old(self)).buckets.update(2, composite_tree(*old(self)).buckets[2].remove(i as int)));
                        assert(composite_tree(*self) =~= with_removed(composite_tree(*old(self)), 2, i as int));
                    }
                    Some((Self::REGIONS_BUCKET, i))
                },
                None => {
                    proof {
                        assert(composite_tree(*self) =~= composite_tree(*old(self)));
                    }
                    None
                },
            },
        }
    }
}

impl UmlStateMachineSimpleState {
    /// Inserts an internal transition (bucket 0 or 1) at `position` or at the
    /// end; anything else is refused and handed back.
    pub fn insert_element(&mut self, bucket: BucketNoT, position: Option<PositionNoT>, element: UmlStateMachineElement) -> (r: Result<
        PositionNoT,
        UmlStateMachineElement,
    >)
        requires
            receiving_bucket(ElementKind::SimpleState, bucket as int, element_tree(element).kind) is Some ==> insertion_point(
                position,
                old(self).internal_transitions@.len() as int,
            ) <= old(self).internal_transitions@.len(),
        ensures
            match r {
                Ok(p) => receiving_bucket(ElementKind::SimpleState, bucket as int, element_tree(element).kind) == Some(1int)
                    && p as int == insertion_point(position, old(self).internal_transitions@.len() as int) && simple_tree(
                    *final(self),
                ) == with_inserted(simple_tree(*old(self)), 1, p as int, element_tree(element)),
                Err(e) => receiving_bucket(ElementKind::SimpleState, bucket as int, element_tree(element).kind) is None && e
                    == element && *final(self) == *old(self),
            },
    {
        match element {
            UmlStateMachineElement::InternalTransition(x) => {
                if bucket == 0 || bucket == UmlStateMachineCompositeState::INTERNAL_TRANSITIONS_BUCKET {
                    let pos = match position {
                        Some(p) => p,
                        None => self.internal_transitions.len(),
                    };
                    self.internal_transitions.insert(pos, x);
                    proof {
                        assert(transition_trees(self.internal_transitions@) =~= transition_trees(
                            old(self).internal_transitions@,
                        ).insert(pos as int, element_tree(element)));
                        assert(simple_tree(*self).buckets =~= simple_tree(*old(self)).buckets.update(1, simple_tree(*old(self)).buckets[1].insert(pos as int, element_tree(element))));
                        assert(simple_tree(*self) =~= with_inserted(simple_tree(*old(self)), 1, pos as int, element_tree(element)));
                    }
                    Ok(pos)
                } else {
                    Err(UmlStateMachineElement::InternalTransition(x))
                }
            },
            other => Err(other),
        }
    }

    /// Removes the first internal transition with uuid `uuid`, reporting
    /// where it stood.
    pub fn remove_element(&mut self, uuid: ModelUuid) -> (r: Option<(BucketNoT, PositionNoT)>)
        ensures
            position_view(r) == first_position(simple_tree(*old(self)).buckets, uuid),
            simple_tree(*final(self)) == match position_view(r) {
                Some((b, i)) => with_removed(simple_tree(*old(self)), b, i),
                None => simple_tree(*old(self)),
            },
    {
        proof {
            lemma_position_two_buckets(simple_tree(*self), uuid);
        }
        match remove_first_transition(&mut self.internal_transitions, uuid) {
            Some(i) => {
                proof {
                    assert(simple_tree(*self).buckets =~= simple_tree(*old(self)).buckets.update(1, simple_tree(*old(self)).buckets[1].remove(i as int)));
                    assert(simple_tree(*self) =~= with_removed(simple_tree(*old(self)), 1, i as int));
                }
                Some((UmlStateMachineCompositeState::INTERNAL_TRANSITIONS_BUCKET, i))
            },
            None => {
                proof {
                    assert(simple_tree(*self) =~= simple_tree(*old(self)));
                }
                None
            },
        }
    }
}

/// The diagram with `c` inserted at position `p` of its top-level elements.
pub open spec fn diagram_with_inserted(d: DiagramTree, p: int, c: ElementTree) -> DiagramTree {
    DiagramTree { elements: d.elements.insert(p, c), ..d }
}

impl UmlStateMachineDiagram {
    /// Inserts a standalone element at the top level of the diagram (bucket
    /// 0), at `position` or at the end; anything else is refused and handed
    /// back.
    pub fn insert_element_unsafe(&mut self, bucket: BucketNoT, position: Option<PositionNoT>, element: UmlStateMachineElement) -> (r: Result<
        PositionNoT,
        UmlStateMachineElement,
    >)
        requires
            receiving_bucket(ElementKind::StateMachine, bucket as int, element_tree(element).kind) is Some ==> insertion_point(
                position,
                old(self).contained_elements@.len() as int,
            ) <= old(self).contained_elements@.len(),
        ensures
            match r {
                Ok(p) => receiving_bucket(ElementKind::StateMachine, bucket as int, element_tree(element).kind) == Some(0int)
                    && p as int == insertion_point(position, old(self).contained_elements@.len() as int) && final(self)@
                    == diagram_with_inserted(old(self)@, p as int, element_tree(element)),
                Err(e) => receiving_bucket(ElementKind::StateMachine, bucket as int, element_tree(element).kind) is None
                    && e == element && *final(self) == *old(self),
            },
    {
        let r = insert_standalone(&mut self.contained_elements, bucket, position, element);
        proof {
            if r is Ok {
                assert(self@ =~= diagram_with_inserted(old(self)@, r->Ok_0 as int, element_tree(element)));
            }
        }
        r
    }

    /// Removes the first top-level element with uuid `uuid`, reporting where
    /// it stood.
    pub fn remove_element_unsafe(&mut self, uuid: ModelUuid) -> (r: Option<(BucketNoT, PositionNoT)>)
        ensures
            position_view(r) == (match first_index(old(self)@.elements, uuid) {
                Some(i) => Some((0int, i)),
                None => None,
            }),
            final(self)@ == (match first_index(old(self)@.elements, uuid) {
                Some(i) => DiagramTree { elements: old(self)@.elements.remove(i), ..old(self)@ },
                None => old(self)@,
            }),
    {
        match remove_first_standalone(&mut self.contained_elements, uuid) {
            Some(i) => {
                proof {
                    assert(self@ =~= DiagramTree { elements: old(self)@.elements.remove(i as int), ..old(self)@ });
                }
                Some((0, i))
            },
            None => {
                proof {
                    assert(self@ =~= old(self)@);
                }
                None
            },
        }
    }
}

} // verus!
