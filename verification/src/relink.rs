use vstd::prelude::*;

use crate::copy::{copy_standalones, CopyMap};
use crate::copy_spec::{
    copy_pairs_seq, insert_pairs, is_relinked, is_relinked_copy, lemma_pairs_seq, lemma_relinked_copy, nonfinal_kind,
    noninitial_kind, relinked_links,
};
use crate::ids::{fresh_model_uuid, is_v7_uuid, ModelUuid};
use crate::model::{
    composite_tree, edge_tree, machine_tree, nonfinal_ref, noninitial_ref, notelink_tree, region_tree, simple_tree,
    standalone_tree, standalone_trees, transition_trees, ElementKind, UmlStateMachine, UmlStateMachineCompositeState,
    UmlStateMachineCompositeStateRegion, UmlStateMachineDiagram, UmlStateMachineEdge, UmlStateMachineElementRef,
    UmlStateMachineInternalTransition, UmlStateMachineNonFinalNode, UmlStateMachineNonInitialNode,
    UmlStateMachineNoteLink, UmlStateMachineStandaloneElement,
};

verus! {

broadcast use vstd::std_specs::hash::group_hash_axioms;

impl UmlStateMachineElementRef {
    /// The referenced element as a possible source of a transition.
    pub fn as_nonfinal(&self) -> (r: Option<UmlStateMachineNonFinalNode>)
        ensures
            match r {
                Some(n) => nonfinal_kind()(self.kind) && nonfinal_ref(n) == *self,
                None => !nonfinal_kind()(self.kind),
            },
    {
        match self.kind {
            ElementKind::CompositeState => Some(UmlStateMachineNonFinalNode::CompositeState(self.uuid)),
            ElementKind::SimpleState => Some(UmlStateMachineNonFinalNode::SimpleState(self.uuid)),
            ElementKind::InitialPseudostate => Some(UmlStateMachineNonFinalNode::InitialPseudostate(self.uuid)),
            _ => None,
        }
    }

    /// The referenced element as a possible target of a transition.
    pub fn as_noninitial(&self) -> (r: Option<UmlStateMachineNonInitialNode>)
        ensures
            match r {
                Some(n) => noninitial_kind()(self.kind) && noninitial_ref(n) == *self,
                None => !noninitial_kind()(self.kind),
            },
    {
        match self.kind {
            ElementKind::CompositeState => Some(UmlStateMachineNonInitialNode::CompositeState(self.uuid)),
            ElementKind::SimpleState => Some(UmlStateMachineNonInitialNode::SimpleState(self.uuid)),
            ElementKind::TerminatePseudostate => Some(UmlStateMachineNonInitialNode::TerminatePseudostate(self.uuid)),
            ElementKind::FinalState => Some(UmlStateMachineNonInitialNode::FinalState(self.uuid)),
            _ => None,
        }
    }
}

impl UmlStateMachineEdge {
    /// Redirects each endpoint to its copy when `all_models` records one of a
    /// fitting kind.
    pub fn deep_copy_relink(&mut self, all_models: &CopyMap)
        ensures
            is_relinked(edge_tree(*old(self)), edge_tree(*final(self)), all_models@),
    {
        let source_uuid = self.source.uuid();
        match all_models.get(&source_uuid) {
            Some(s) => match s.as_nonfinal() {
                Some(n) => {
                    self.source = n;
                },
                None => {},
            },
            None => {},
        }
        let target_uuid = self.target.uuid();
        match all_models.get(&target_uuid) {
            Some(t) => match t.as_noninitial() {
                Some(n) => {
                    self.target = n;
                },
                None => {},
            },
            None => {},
        }
        proof {
            let o = edge_tree(*old(self));
            let n = edge_tree(*self);
            assert(n.links =~= relinked_links(o.kind, o.links, all_models@));
            assert(n.texts =~= o.texts);
        }
    }
}

impl UmlStateMachineNoteLink {
    /// Redirects the source to the copy of the note, and the target to the
    /// copy of the element, when `all_models` records them.
    pub fn deep_copy_relink(&mut self, all_models: &CopyMap)
        ensures
            is_relinked(notelink_tree(*old(self)), notelink_tree(*final(self)), all_models@),
    {
        let source_uuid = self.source;
        match all_models.get(&source_uuid) {
            Some(s) => {
                if s.kind == ElementKind::Note {
                    self.source = s.uuid;
                }
            },
            None => {},
        }
        let target_uuid = self.target.uuid;
        match all_models.get(&target_uuid) {
            Some(t) => {
                self.target = *t;
            },
            None => {},
        }
        proof {
            let o = notelink_tree(*old(self));
            let n = notelink_tree(*self);
            assert(n.links =~= relinked_links(o.kind, o.links, all_models@));
            assert(n.texts =~= o.texts);
        }
    }
}

proof fn lemma_transitions_unchanged(v: Seq<UmlStateMachineInternalTransition>, m: Map<ModelUuid, UmlStateMachineElementRef>)
    ensures
        forall|i: int| 0 <= i < v.len() ==> is_relinked(#[trigger] transition_trees(v)[i], transition_trees(v)[i], m),
{
    assert forall|i: int| 0 <= i < v.len() implies is_relinked(#[trigger] transition_trees(v)[i], transition_trees(v)[i], m) by {
        let t = transition_trees(v)[i];
        assert(relinked_links(t.kind, t.links, m) == t.links);
    }
}

pub(crate) fn relink_standalones(v: Vec<UmlStateMachineStandaloneElement>, m: &CopyMap) -> (r: Vec<UmlStateMachineStandaloneElement>)
    ensures
        r@.len() == v@.len(),
        forall|i: int| 0 <= i < v@.len() ==> is_relinked(standalone_tree(v@[i]), standalone_tree(#[trigger] r@[i]), m@),
    decreases v@,
{
    let ghost orig = v@;
    let mut rest = v;
    let mut out: Vec<UmlStateMachineStandaloneElement> = Vec::new();
    let n = rest.len();
    let mut i: usize = 0;
    while i < n
        invariant
            0 <= i <= n,
            n == orig.len(),
            orig == v@,
            rest@ == orig.skip(i as int),
            out@.len() == i,
            forall|j: int| 0 <= j < i ==> is_relinked(standalone_tree(orig[j]), standalone_tree(#[trigger] out@[j]), m@),
        decreases n - i,
    {
        assert(rest@.len() > 0);
        let e = rest.remove(0);
        assert(e == orig[i as int]);
        let e2 = relink_standalone(e, m);
        out.push(e2);
        assert(rest@ =~= orig.skip(i + 1));
        i = i + 1;
    }
    out
}

pub(crate) fn relink_regions(v: Vec<UmlStateMachineCompositeStateRegion>, m: &CopyMap) -> (r: Vec<UmlStateMachineCompositeStateRegion>)
    ensures
        r@.len() == v@.len(),
        forall|i: int| 0 <= i < v@.len() ==> is_relinked(region_tree(v@[i]), region_tree(#[trigger] r@[i]), m@),
    decreases v@,
{
    let ghost orig = v@;
    let mut rest = v;
    let mut out: Vec<UmlStateMachineCompositeStateRegion> = Vec::new();
    let n = rest.len();
    let mut i: usize = 0;
    while i < n
        invariant
            0 <= i <= n,
            n == orig.len(),
            orig == v@,
            rest@ == orig.skip(i as int),
            out@.len() == i,
            forall|j: int| 0 <= j < i ==> is_relinked(region_tree(orig[j]), region_tree(#[trigger] out@[j]), m@),
        decreases n - i,
    {
        assert(rest@.len() > 0);
        let g = rest.remove(0);
        assert(g == orig[i as int]);
        let g2 = relink_region(g, m);
        out.push(g2);
        assert(rest@ =~= orig.skip(i + 1));
        i = i + 1;
    }
    out
}

pub(crate) fn relink_region(g: UmlStateMachineCompositeStateRegion, m: &CopyMap) -> (r: UmlStateMachineCompositeStateRegion)
    ensures
        is_relinked(region_tree(g), region_tree(r), m@),
    decreases g,
{
    let UmlStateMachineCompositeStateRegion { uuid, contained_elements } = g;
    let r = UmlStateMachineCompositeStateRegion { uuid, contained_elements: relink_standalones(contained_elements, m) };
    proof {
        let o = region_tree(g);
        let n = region_tree(r);
        assert(relinked_links(o.kind, o.links, m@) == o.links);
        assert(n.links =~= o.links);
        assert(is_relinked(o, n, m@));
    }
    r
}

pub(crate) fn relink_standalone(e: UmlStateMachineStandaloneElement, m: &CopyMap) -> (r: UmlStateMachineStandaloneElement)
    ensures
        is_relinked(standalone_tree(e), standalone_tree(r), m@),
    decreases e,
{
    match e {
        UmlStateMachineStandaloneElement::StateMachine(x) => {
            let UmlStateMachine { uuid, stereotype, name, is_protocol, contained_elements, comment } = x;
            let y = UmlStateMachine {
                uuid,
                stereotype,
                name,
                is_protocol,
                contained_elements: relink_standalones(contained_elements, m),
                comment,
            };
            proof {
                let o = machine_tree(x);
                let n = machine_tree(y);
                assert(relinked_links(o.kind, o.links, m@) == o.links);
                assert(n.links =~= o.links);
                assert(n.texts =~= o.texts);
                assert(is_relinked(o, n, m@));
            }
            UmlStateMachineStandaloneElement::StateMachine(y)
        },
        UmlStateMachineStandaloneElement::CompositeState(x) => {
            let UmlStateMachineCompositeState { uuid, stereotype, name, internal_transitions, regions } = x;
            proof {
                lemma_transitions_unchanged(internal_transitions@, m@);
            }
            let y = UmlStateMachineCompositeState {
                uuid,
                stereotype,
                name,
                internal_transitions,
                regions: relink_regions(regions, m),
            };
            proof {
                let o = composite_tree(x);
                let n = composite_tree(y);
                assert(relinked_links(o.kind, o.links, m@) == o.links);
                assert(n.links =~= o.links);
                assert(n.texts =~= o.texts);
                assert forall|b: int, i: int| 0 <= b < o.buckets.len() && 0 <= i < o.buckets[b].len() implies is_relinked(
                    o.buckets[b][i],
                    #[trigger] n.buckets[b][i],
                    m@,
                ) by {
                    if b == 1 {
                        assert(o.buckets[1][i] == transition_trees(internal_transitions@)[i]);
                    } else {
                        assert(b == 2);
                        assert(o.buckets[2][i] == region_tree(x.regions@[i]));
                        assert(n.buckets[2][i] == region_tree(y.regions@[i]));
                    }
                }
                assert(is_relinked(o, n, m@));
            }
            UmlStateMachineStandaloneElement::CompositeState(y)
        },
        UmlStateMachineStandaloneElement::SimpleState(x) => {
            proof {
                let o = simple_tree(x);
                lemma_transitions_unchanged(x.internal_transitions@, m@);
                assert(relinked_links(o.kind, o.links, m@) == o.links);
                assert forall|b: int, i: int| 0 <= b < o.buckets.len() && 0 <= i < o.buckets[b].len() implies is_relinked(
                    o.buckets[b][i],
                    #[trigger] o.buckets[b][i],
                    m@,
                ) by {
                    assert(b == 1);
                    assert(o.buckets[1][i] == transition_trees(x.internal_transitions@)[i]);
                }
            }
            UmlStateMachineStandaloneElement::SimpleState(x)
        },
        UmlStateMachineStandaloneElement::Edge(x) => {
            let mut y = x;
            y.deep_copy_relink(m);
            UmlStateMachineStandaloneElement::Edge(y)
        },
        UmlStateMachineStandaloneElement::NoteLink(x) => {
            let mut y = x;
            y.deep_copy_relink(m);
            UmlStateMachineStandaloneElement::NoteLink(y)
        },
        other => {
            proof {
                let o = standalone_tree(other);
                assert(relinked_links(o.kind, o.links, m@) == o.links);
            }
            other
        },
    }
}

/// A copy of the diagram in which every element gets a fresh uuid and every
/// relationship is redirected to the copies of its endpoints, together with
/// the map from each old uuid to the reference of its copy.
pub fn deep_copy_diagram(d: &UmlStateMachineDiagram) -> (r: (UmlStateMachineDiagram, CopyMap))
    ensures
        is_v7_uuid(r.0@.uuid),
        r.0@.name == d@.name,
        r.0@.comment == d@.comment,
        r.0@.elements.len() == d@.elements.len(),
        forall|i: int|
            0 <= i < d@.elements.len() ==> is_relinked_copy(d@.elements[i], #[trigger] r.0@.elements[i], r.1@) && is_v7_uuid(
                r.0@.elements[i].uuid,
            ),
        r.1@ == insert_pairs(Map::empty(), copy_pairs_seq(d@.elements, r.0@.elements)),
{
    let mut all_models: CopyMap = CopyMap::new();
    let copies = copy_standalones(&d.contained_elements, &mut all_models);
    let ghost copied = standalone_trees(copies@);
    let relinked = relink_standalones(copies, &all_models);
    let new_diagram = UmlStateMachineDiagram {
        uuid: fresh_model_uuid(),
        name: d.name.clone(),
        contained_elements: relinked,
        comment: d.comment.clone(),
    };
    proof {
        let os = d@.elements;
        let ns = new_diagram@.elements;
        assert forall|i: int| 0 <= i < copied.len() implies is_relinked(#[trigger] copied[i], ns[i], all_models@) by {}
        lemma_pairs_seq(os, copied, ns, all_models@);
        assert forall|i: int| 0 <= i < os.len() implies is_relinked_copy(os[i], #[trigger] ns[i], all_models@) && is_v7_uuid(
            ns[i].uuid,
        ) by {
            lemma_relinked_copy(os[i], copied[i], ns[i], all_models@);
        }
        assert(all_models@ =~= insert_pairs(Map::empty(), copy_pairs_seq(os, ns)));
    }
    (new_diagram, all_models)
}

} // verus!
