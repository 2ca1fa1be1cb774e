use std::collections::HashMap;

use vstd::prelude::*;

use crate::copy_spec::{
    copy_pairs, copy_pairs_seq, insert_pairs, is_copy, lemma_copy_pairs_leaf, lemma_copy_pairs_one_bucket,
    lemma_copy_pairs_seq_step, lemma_copy_pairs_three_buckets, lemma_copy_pairs_two_buckets,
    lemma_insert_pairs_concat, lemma_insert_pairs_push,
};
use crate::ids::{fresh_model_uuid, is_v7_uuid, ModelUuid};
use crate::model::{
    composite_tree, element_tree, machine_tree, region_tree, region_trees, simple_tree, standalone_tree,
    standalone_trees, transition_tree, transition_trees, tree_ref, ElementKind, UmlStateMachine,
    UmlStateMachineCompositeState, UmlStateMachineCompositeStateRegion, UmlStateMachineEdge, UmlStateMachineElement,
    UmlStateMachineElementRef, UmlStateMachineFinalState, UmlStateMachineInitialPseudostate,
    UmlStateMachineInternalTransition, UmlStateMachineNote, UmlStateMachineNoteLink, UmlStateMachineSimpleState,
    UmlStateMachineStandaloneElement, UmlStateMachineTerminatePseudostate,
};
use crate::tree::lemma_take_all;

verus! {

broadcast use vstd::std_specs::hash::group_hash_axioms;

pub type CopyMap = HashMap<ModelUuid, UmlStateMachineElementRef>;

fn record_copy(into: &mut CopyMap, old_uuid: ModelUuid, kind: ElementKind, new_uuid: ModelUuid)
    ensures
        final(into)@ == old(into)@.insert(old_uuid, UmlStateMachineElementRef { kind, uuid: new_uuid }),
{
    into.insert(old_uuid, UmlStateMachineElementRef { kind, uuid: new_uuid });
}

pub(crate) fn copy_standalones(v: &Vec<UmlStateMachineStandaloneElement>, into: &mut CopyMap) -> (r: Vec<
    UmlStateMachineStandaloneElement,
>)
    ensures
        r@.len() == v@.len(),
        forall|i: int|
            0 <= i < v@.len() ==> is_copy(standalone_tree(v@[i]), standalone_tree(#[trigger] r@[i])) && is_v7_uuid(
                standalone_tree(r@[i]).uuid,
            ),
        final(into)@ == insert_pairs(old(into)@, copy_pairs_seq(standalone_trees(v@), standalone_trees(r@))),
    decreases v,
{
    let ghost ts = standalone_trees(v@);
    let mut out: Vec<UmlStateMachineStandaloneElement> = Vec::new();
    let mut i: usize = 0;
    while i < v.len()
        invariant
            0 <= i <= v.len(),
            ts == standalone_trees(v@),
            out@.len() == i,
            forall|j: int|
                0 <= j < i ==> is_copy(standalone_tree(v@[j]), standalone_tree(#[trigger] out@[j])) && is_v7_uuid(
                    standalone_tree(out@[j]).uuid,
                ),
            into@ == insert_pairs(old(into)@, copy_pairs_seq(ts.take(i as int), standalone_trees(out@))),
        decreases v.len() - i,
    {
        let u = fresh_model_uuid();
        let ghost before = into@;
        let ghost prev = standalone_trees(out@);
        let c = v[i].deep_copy_clone(u, into);
        out.push(c);
        proof {
            let ns = standalone_trees(out@);
            assert(ns.take(i as int) =~= prev);
            lemma_copy_pairs_seq_step(ts, ns, i as int);
            lemma_insert_pairs_concat(old(into)@, copy_pairs_seq(ts.take(i as int), prev), copy_pairs(ts[i as int], ns[i as int]));
        }
        i = i + 1;
    }
    proof {
        lemma_take_all(ts);
    }
    out
}

pub(crate) fn copy_regions(v: &Vec<UmlStateMachineCompositeStateRegion>, into: &mut CopyMap) -> (r: Vec<
    UmlStateMachineCompositeStateRegion,
>)
    ensures
        r@.len() == v@.len(),
        forall|i: int|
            0 <= i < v@.len() ==> is_copy(region_tree(v@[i]), region_tree(#[trigger] r@[i])) && is_v7_uuid(region_tree(r@[i]).uuid),
        final(into)@ == insert_pairs(old(into)@, copy_pairs_seq(region_trees(v@), region_trees(r@))),
    decreases v,
{
    let ghost ts = region_trees(v@);
    let mut out: Vec<UmlStateMachineCompositeStateRegion> = Vec::new();
    let mut i: usize = 0;
    while i < v.len()
        invariant
            0 <= i <= v.len(),
            ts == region_trees(v@),
            out@.len() == i,
            forall|j: int|
                0 <= j < i ==> is_copy(region_tree(v@[j]), region_tree(#[trigger] out@[j])) && is_v7_uuid(region_tree(out@[j]).uuid),
            into@ == insert_pairs(old(into)@, copy_pairs_seq(ts.take(i as int), region_trees(out@))),
        decreases v.len() - i,
    {
        let u = fresh_model_uuid();
        let ghost prev = region_trees(out@);
        let c = v[i].deep_copy_clone_inner(u, into);
        out.push(c);
        proof {
            let ns = region_trees(out@);
            assert(ns.take(i as int) =~= prev);
            lemma_copy_pairs_seq_step(ts, ns, i as int);
            lemma_insert_pairs_concat(old(into)@, copy_pairs_seq(ts.take(i as int), prev), copy_pairs(ts[i as int], ns[i as int]));
        }
        i = i + 1;
    }
    proof {
        lemma_take_all(ts);
    }
    out
}

pub(crate) fn copy_transitions(v: &Vec<UmlStateMachineInternalTransition>, into: &mut CopyMap) -> (r: Vec<
    UmlStateMachineInternalTransition,
>)
    ensures
        r@.len() == v@.len(),
        forall|i: int|
            0 <= i < v@.len() ==> is_copy(transition_tree(v@[i]), transition_tree(#[trigger] r@[i])) && is_v7_uuid(
                transition_tree(r@[i]).uuid,
            ),
        final(into)@ == insert_pairs(old(into)@, copy_pairs_seq(transition_trees(v@), transition_trees(r@))),
{
    let ghost ts = transition_trees(v@);
    let mut out: Vec<UmlStateMachineInternalTransition> = Vec::new();
    let mut i: usize = 0;
    while i < v.len()
        invariant
            0 <= i <= v.len(),
            ts == transition_trees(v@),
            out@.len() == i,
            forall|j: int|
                0 <= j < i ==> is_copy(transition_tree(v@[j]), transition_tree(#[trigger] out@[j])) && is_v7_uuid(
                    transition_tree(out@[j]).uuid,
                ),
            into@ == insert_pairs(old(into)@, copy_pairs_seq(ts.take(i as int), transition_trees(out@))),
        decreases v.len() - i,
    {
        let u = fresh_model_uuid();
        let ghost prev = transition_trees(out@);
        let c = v[i].deep_copy_clone_inner(u, into);
        out.push(c);
        proof {
            let ns = transition_trees(out@);
            assert(ns.take(i as int) =~= prev);
            lemma_copy_pairs_seq_step(ts, ns, i as int);
            lemma_insert_pairs_concat(old(into)@, copy_pairs_seq(ts.take(i as int), prev), copy_pairs(ts[i as int], ns[i as int]));
        }
        i = i + 1;
    }
    proof {
        lemma_take_all(ts);
    }
    out
}

impl UmlStateMachine {
    /// A copy of the state machine that carries `new_uuid`, whose contents get
    /// fresh uuids; each copied element is recorded in `into` under its old
    /// uuid, children before their parent.
    pub fn deep_copy_clone_inner(&self, new_uuid: ModelUuid, into: &mut CopyMap) -> (r: Self)
        ensures
            r.uuid == new_uuid,
            is_copy(machine_tree(*self), machine_tree(r)),
            final(into)@ == insert_pairs(old(into)@, copy_pairs(machine_tree(*self), machine_tree(r))),
        decreases self,
    {
        let contained = copy_standalones(&self.contained_elements, into);
        let ghost mid = into@;
        let r = UmlStateMachine {
            uuid: new_uuid,
            stereotype: self.stereotype.clone(),
            name: self.name.clone(),
            is_protocol: self.is_protocol,
            contained_elements: contained,
            comment: self.comment.clone(),
        };
        record_copy(into, self.uuid, ElementKind::StateMachine, new_uuid);
        proof {
            let o = machine_tree(*self);
            let n = machine_tree(r);
            lemma_copy_pairs_one_bucket(o, n);
            lemma_insert_pairs_push(old(into)@, copy_pairs_seq(o.buckets[0], n.buckets[0]), (o.uuid, tree_ref(n)));
            assert(o.texts =~= n.texts);
            assert(is_copy(o, n));
        }
        r
    }
}

impl UmlStateMachineCompositeStateRegion {
    /// A copy of the region that carries `new_uuid`, whose contents get fresh
    /// uuids; each copied element is recorded in `into` under its old uuid.
    pub fn deep_copy_clone_inner(&self, new_uuid: ModelUuid, into: &mut CopyMap) -> (r: Self)
        ensures
            r.uuid == new_uuid,
            is_copy(region_tree(*self), region_tree(r)),
            final(into)@ == insert_pairs(old(into)@, copy_pairs(region_tree(*self), region_tree(r))),
        decreases self,
    {
        let contained = copy_standalones(&self.contained_elements, into);
        let r = UmlStateMachineCompositeStateRegion { uuid: new_uuid, contained_elements: contained };
        record_copy(into, self.uuid, ElementKind::CompositeStateRegion, new_uuid);
        proof {
            let o = region_tree(*self);
            let n = region_tree(r);
            lemma_copy_pairs_one_bucket(o, n);
            lemma_insert_pairs_push(old(into)@, copy_pairs_seq(o.buckets[0], n.buckets[0]), (o.uuid, tree_ref(n)));
            assert(is_copy(o, n));
        }
        r
    }
}

impl UmlStateMachineCompositeState {
    /// A copy of the state that carries `new_uuid`, whose internal transitions
    /// and regions get fresh uuids; each copied element is recorded in `into`
    /// under its old uuid.
    pub fn deep_copy_clone_inner(&self, new_uuid: ModelUuid, into: &mut CopyMap) -> (r: Self)
        ensures
            r.uuid == new_uuid,
            is_copy(composite_tree(*self), composite_tree(r)),
            final(into)@ == insert_pairs(old(into)@, copy_pairs(composite_tree(*self), composite_tree(r))),
        decreases self,
    {
        let its = copy_transitions(&self.internal_transitions, into);
        let rs = copy_regions(&self.regions, into);
        let r = UmlStateMachineCompositeState {
            uuid: new_uuid,
            stereotype: self.stereotype.clone(),
            name: self.name.clone(),
            internal_transitions: its,
            regions: rs,
        };
        record_copy(into, self.uuid, ElementKind::CompositeState, new_uuid);
        proof {
            let o = composite_tree(*self);
            let n = composite_tree(r);
            lemma_copy_pairs_three_buckets(o, n);
            lemma_insert_pairs_concat(old(into)@, copy_pairs_seq(o.buckets[1], n.buckets[1]), copy_pairs_seq(o.buckets[2], n.buckets[2]));
            lemma_insert_pairs_push(
                old(into)@,
                copy_pairs_seq(o.buckets[1], n.buckets[1]) + copy_pairs_seq(o.buckets[2], n.buckets[2]),
                (o.uuid, tree_ref(n)),
            );
            assert(o.texts =~= n.texts);
            assert forall|b: int, i: int|
                0 <= b < o.buckets.len() && 0 <= i < o.buckets[b].len() implies is_copy(o.buckets[b][i], #[trigger] n.buckets[b][i])
                && is_v7_uuid(n.buckets[b][i].uuid) by {
                if b == 1 {
                    assert(o.buckets[1][i] == transition_tree(self.internal_transitions@[i]));
                    assert(n.buckets[1][i] == transition_tree(its@[i]));
                } else {
                    assert(b == 2);
                    assert(o.buckets[2][i] == region_tree(self.regions@[i]));
                    assert(n.buckets[2][i] == region_tree(rs@[i]));
                }
            }
            assert(is_copy(o, n));
        }
        r
    }
}

impl UmlStateMachineSimpleState {
    /// A copy of the state that carries `new_uuid`, whose internal transitions
    /// get fresh uuids; each copied element is recorded in `into` under its old
    /// uuid.
    pub fn deep_copy_clone_inner(&self, new_uuid: ModelUuid, into: &mut CopyMap) -> (r: Self)
        ensures
            r.uuid == new_uuid,
            is_copy(simple_tree(*self), simple_tree(r)),
            final(into)@ == insert_pairs(old(into)@, copy_pairs(simple_tree(*self), simple_tree(r))),
    {
        let its = copy_transitions(&self.internal_transitions, into);
        let r = UmlStateMachineSimpleState {
            uuid: new_uuid,
            stereotype: self.stereotype.clone(),
            name: self.name.clone(),
            internal_transitions: its,
        };
        record_copy(into, self.uuid, ElementKind::SimpleState, new_uuid);
        proof {
            let o = simple_tree(*self);
            let n = simple_tree(r);
            lemma_copy_pairs_two_buckets(o, n);
            lemma_insert_pairs_push(old(into)@, copy_pairs_seq(o.buckets[1], n.buckets[1]), (o.uuid, tree_ref(n)));
            assert(o.texts =~= n.texts);
            assert forall|b: int, i: int|
                0 <= b < o.buckets.len() && 0 <= i < o.buckets[b].len() implies is_copy(o.buckets[b][i], #[trigger] n.buckets[b][i])
                && is_v7_uuid(n.buckets[b][i].uuid) by {
                assert(b == 1);
                assert(o.buckets[1][i] == transition_tree(self.internal_transitions@[i]));
                assert(n.buckets[1][i] == transition_tree(its@[i]));
            }
            assert(is_copy(o, n));
        }
        r
    }
}

impl UmlStateMachineInternalTransition {
    /// A copy of the transition that carries `new_uuid`, recorded in `into`
    /// under the old uuid.
    pub fn deep_copy_clone_inner(&self, new_uuid: ModelUuid, into: &mut CopyMap) -> (r: Self)
        ensures
            r.uuid == new_uuid,
            is_copy(transition_tree(*self), transition_tree(r)),
            final(into)@ == insert_pairs(old(into)@, copy_pairs(transition_tree(*self), transition_tree(r))),
    {
        let r = UmlStateMachineInternalTransition {
            uuid: new_uuid,
            trigger: self.trigger.clone(),
            guard: self.guard.clone(),
            behavior: self.behavior.clone(),
        };
        record_copy(into, self.uuid, ElementKind::InternalTransition, new_uuid);
        proof {
            lemma_copy_pairs_leaf(transition_tree(*self), transition_tree(r));
            lemma_insert_pairs_push(old(into)@, seq![], (self.uuid, tree_ref(transition_tree(r))));
            assert(seq![(self.uuid, tree_ref(transition_tree(r)))] =~= Seq::<(ModelUuid, UmlStateMachineElementRef)>::empty().push(
                (self.uuid, tree_ref(transition_tree(r))),
            ));
            assert(transition_tree(*self).texts =~= transition_tree(r).texts);
        }
        r
    }
}

impl UmlStateMachineInitialPseudostate {
    /// A copy that carries `new_uuid`, recorded in `into` under the old uuid.
    pub fn deep_copy_clone_inner(&self, new_uuid: ModelUuid, into: &mut CopyMap) -> (r: Self)
        ensures
            r.uuid == new_uuid,
            final(into)@ == old(into)@.insert(self.uuid, UmlStateMachineElementRef { kind: ElementKind::InitialPseudostate, uuid: new_uuid }),
    {
        record_copy(into, self.uuid, ElementKind::InitialPseudostate, new_uuid);
        UmlStateMachineInitialPseudostate { uuid: new_uuid }
    }
}

impl UmlStateMachineTerminatePseudostate {
    /// A copy that carries `new_uuid`, recorded in `into` under the old uuid.
    pub fn deep_copy_clone_inner(&self, new_uuid: ModelUuid, into: &mut CopyMap) -> (r: Self)
        ensures
            r.uuid == new_uuid,
            final(into)@ == old(into)@.insert(self.uuid, UmlStateMachineElementRef { kind: ElementKind::TerminatePseudostate, uuid: new_uuid }),
    {
        record_copy(into, self.uuid, ElementKind::TerminatePseudostate, new_uuid);
        UmlStateMachineTerminatePseudostate { uuid: new_uuid }
    }
}

impl UmlStateMachineFinalState {
    /// A copy that carries `new_uuid`, recorded in `into` under the old uuid.
    pub fn deep_copy_clone_inner(&self, new_uuid: ModelUuid, into: &mut CopyMap) -> (r: Self)
        ensures
            r.uuid == new_uuid,
            final(into)@ == old(into)@.insert(self.uuid, UmlStateMachineElementRef { kind: ElementKind::FinalState, uuid: new_uuid }),
    {
        record_copy(into, self.uuid, ElementKind::FinalState, new_uuid);
        UmlStateMachineFinalState { uuid: new_uuid }
    }
}

impl UmlStateMachineEdge {
    /// A copy of the transition that carries `new_uuid` and the same endpoints,
    /// recorded in `into` under the old uuid.
    pub fn deep_copy_clone_inner(&self, new_uuid: ModelUuid, into: &mut CopyMap) -> (r: Self)
        ensures
            r.uuid == new_uuid,
            r.name@ == self.name@,
            r.source == self.source,
            r.target == self.target,
            final(into)@ == old(into)@.insert(self.uuid, UmlStateMachineElementRef { kind: ElementKind::Edge, uuid: new_uuid }),
    {
        record_copy(into, self.uuid, ElementKind::Edge, new_uuid);
        UmlStateMachineEdge { uuid: new_uuid, name: self.name.clone(), source: self.source, target: self.target }
    }
}

impl UmlStateMachineNote {
    /// A copy of the note that carries `new_uuid`, recorded in `into` under
    /// the old uuid.
    pub fn deep_copy_clone_inner(&self, new_uuid: ModelUuid, into: &mut CopyMap) -> (r: Self)
        ensures
            r.uuid == new_uuid,
            r.stereotype@ == self.stereotype@,
            r.text@ == self.text@,
            final(into)@ == old(into)@.insert(self.uuid, UmlStateMachineElementRef { kind: ElementKind::Note, uuid: new_uuid }),
    {
        record_copy(into, self.uuid, ElementKind::Note, new_uuid);
        UmlStateMachineNote { uuid: new_uuid, stereotype: self.stereotype.clone(), text: self.text.clone() }
    }
}

impl UmlStateMachineNoteLink {
    /// A copy of the link that carries `new_uuid` and the same endpoints,
    /// recorded in `into` under the old uuid.
    pub fn deep_copy_clone_inner(&self, new_uuid: ModelUuid, into: &mut CopyMap) -> (r: Self)
        ensures
            r.uuid == new_uuid,
            r.source == self.source,
            r.target == self.target,
            final(into)@ == old(into)@.insert(self.uuid, UmlStateMachineElementRef { kind: ElementKind::NoteLink, uuid: new_uuid }),
    {
        record_copy(into, self.uuid, ElementKind::NoteLink, new_uuid);
        UmlStateMachineNoteLink { uuid: new_uuid, source: self.source, target: self.target }
    }
}

proof fn lemma_leaf_copy(o: crate::model::ElementTree, n: crate::model::ElementTree, into: Map<ModelUuid, UmlStateMachineElementRef>)
    requires
        o.buckets.len() == 0,
        n.buckets.len() == 0,
        n.kind == o.kind,
        n.texts == o.texts,
        n.flag == o.flag,
        n.links == o.links,
    ensures
        is_copy(o, n),
        insert_pairs(into, copy_pairs(o, n)) == into.insert(o.uuid, tree_ref(n)),
{
    lemma_copy_pairs_leaf(o, n);
    lemma_insert_pairs_push(into, seq![], (o.uuid, tree_ref(n)));
    assert(seq![(o.uuid, tree_ref(n))] =~= Seq::<(ModelUuid, UmlStateMachineElementRef)>::empty().push((o.uuid, tree_ref(n))));
}

impl UmlStateMachineStandaloneElement {
    pub(crate) fn deep_copy_clone(&self, new_uuid: ModelUuid, into: &mut CopyMap) -> (r: Self)
        ensures
            standalone_tree(r).uuid == new_uuid,
            is_copy(standalone_tree(*self), standalone_tree(r)),
            final(into)@ == insert_pairs(old(into)@, copy_pairs(standalone_tree(*self), standalone_tree(r))),
        decreases self,
    {
        let r = match self {
            UmlStateMachineStandaloneElement::StateMachine(x) => UmlStateMachineStandaloneElement::StateMachine(x.deep_copy_clone_inner(new_uuid, into)),
            UmlStateMachineStandaloneElement::CompositeState(x) => UmlStateMachineStandaloneElement::CompositeState(x.deep_copy_clone_inner(new_uuid, into)),
            UmlStateMachineStandaloneElement::SimpleState(x) => UmlStateMachineStandaloneElement::SimpleState(x.deep_copy_clone_inner(new_uuid, into)),
            UmlStateMachineStandaloneElement::InitialPseudostate(x) => UmlStateMachineStandaloneElement::InitialPseudostate(x.deep_copy_clone_inner(new_uuid, into)),
            UmlStateMachineStandaloneElement::TerminatePseudostate(x) => UmlStateMachineStandaloneElement::TerminatePseudostate(x.deep_copy_clone_inner(new_uuid, into)),
            UmlStateMachineStandaloneElement::FinalState(x) => UmlStateMachineStandaloneElement::FinalState(x.deep_copy_clone_inner(new_uuid, into)),
            UmlStateMachineStandaloneElement::Edge(x) => UmlStateMachineStandaloneElement::Edge(x.deep_copy_clone_inner(new_uuid, into)),
            UmlStateMachineStandaloneElement::Note(x) => UmlStateMachineStandaloneElement::Note(x.deep_copy_clone_inner(new_uuid, into)),
            UmlStateMachineStandaloneElement::NoteLink(x) => UmlStateMachineStandaloneElement::NoteLink(x.deep_copy_clone_inner(new_uuid, into)),
        };
        proof {
            let o = standalone_tree(*self);
            let n = standalone_tree(r);
            if o.buckets.len() == 0 {
                assert(o.texts =~= n.texts);
                lemma_leaf_copy(o, n, old(into)@);
            }
        }
        r
    }
}

impl UmlStateMachineElement {
    pub(crate) fn deep_copy_clone(&self, new_uuid: ModelUuid, into: &mut CopyMap) -> (r: Self)
        ensures
            element_tree(r).uuid == new_uuid,
            is_copy(element_tree(*self), element_tree(r)),
            final(into)@ == insert_pairs(old(into)@, copy_pairs(element_tree(*self), element_tree(r))),
    {
        let r = match self {
            UmlStateMachineElement::StateMachine(x) => UmlStateMachineElement::StateMachine(x.deep_copy_clone_inner(new_uuid, into)),
            UmlStateMachineElement::CompositeState(x) => UmlStateMachineElement::CompositeState(x.deep_copy_clone_inner(new_uuid, into)),
            UmlStateMachineElement::CompositeStateRegion(x) => UmlStateMachineElement::CompositeStateRegion(x.deep_copy_clone_inner(new_uuid, into)),
            UmlStateMachineElement::SimpleState(x) => UmlStateMachineElement::SimpleState(x.deep_copy_clone_inner(new_uuid, into)),
            UmlStateMachineElement::InternalTransition(x) => UmlStateMachineElement::InternalTransition(x.deep_copy_clone_inner(new_uuid, into)),
            UmlStateMachineElement::InitialPseudostate(x) => UmlStateMachineElement::InitialPseudostate(x.deep_copy_clone_inner(new_uuid, into)),
            UmlStateMachineElement::TerminatePseudostate(x) => UmlStateMachineElement::TerminatePseudostate(x.deep_copy_clone_inner(new_uuid, into)),
            UmlStateMachineElement::FinalState(x) => UmlStateMachineElement::FinalState(x.deep_copy_clone_inner(new_uuid, into)),
            UmlStateMachineElement::Edge(x) => UmlStateMachineElement::Edge(x.deep_copy_clone_inner(new_uuid, into)),
            UmlStateMachineElement::Note(x) => UmlStateMachineElement::Note(x.deep_copy_clone_inner(new_uuid, into)),
            UmlStateMachineElement::NoteLink(x) => UmlStateMachineElement::NoteLink(x.deep_copy_clone_inner(new_uuid, into)),
        };
        proof {
            let o = element_tree(*self);
            let n = element_tree(r);
            if o.buckets.len() == 0 {
                assert(o.texts =~= n.texts);
                lemma_leaf_copy(o, n, old(into)@);
            }
        }
        r
    }
}

} // verus!
