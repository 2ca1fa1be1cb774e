use vstd::prelude::*;

use std::collections::{HashMap, HashSet};

use crate::adapters::{
    edge_changed, edge_undo, flipped, push_undo, recorded, UmlStateMachineControllerAdapter,
    UmlStateMachineDiagramAdapter,
};
use crate::changes::{UmlStateMachinePropChange};
use crate::closure::{closure_base, is_link_closure};
use crate::containers::{position_in, position_view};
use crate::copy::CopyMap;
use crate::copy_spec::{copy_pairs_seq, insert_pairs, is_relinked_copy};
use crate::delete::{prune_diagram, undo_entries, UndoRecord};
use crate::enumerate::{element_map, enumerated};
use crate::ids::{is_v7_uuid, BucketNoT, ModelUuid, PositionNoT};
use crate::model::{edge_tree, notelink_tree, UmlStateMachineEdge, UmlStateMachineElement, UmlStateMachineNoteLink};

verus! {

impl UmlStateMachineControllerAdapter {
    /// Everything that goes when `when_deleting` is deleted from the model.
    pub fn model_transitive_closure(&self, when_deleting: HashSet<ModelUuid>) -> (r: HashSet<ModelUuid>)
        ensures
            when_deleting@.subset_of(r@),
            is_link_closure(self.model@, closure_base(self.model@, when_deleting@), r@),
    {
        crate::closure_walk::transitive_closure(&self.model, when_deleting)
    }

    /// Deletes `uuids` from the model, recording each removal in `undo`.
    pub fn delete_elements(&mut self, uuids: &HashSet<ModelUuid>, undo: &mut Vec<UndoRecord>)
        ensures
            final(self).model@ == prune_diagram(old(self).model@, uuids@).0,
            undo_entries(final(undo)@) == undo_entries(old(undo)@) + prune_diagram(old(self).model@, uuids@).1,
    {
        self.model.delete_elements(uuids, undo)
    }
}

impl UmlStateMachineDiagramAdapter {
    /// The bucket and position of `model_uuid` inside `parent`.
    pub fn get_element_pos_in(&self, parent: ModelUuid, model_uuid: ModelUuid) -> (r: Option<(BucketNoT, PositionNoT)>)
        ensures
            position_view(r) == position_in(self.model@, parent, model_uuid),
    {
        self.model.get_element_pos_in(parent, model_uuid)
    }

    /// An adapter of a deep copy of the diagram, with the same color and
    /// buffers, and the map from each copied uuid to the reference of its
    /// copy.
    pub fn deep_copy(&self) -> (r: (Self, CopyMap))
        ensures
            is_v7_uuid(r.0.model@.uuid),
            r.0.model@.name == self.model@.name,
            r.0.model@.comment == self.model@.comment,
            r.0.model@.elements.len() == self.model@.elements.len(),
            forall|i: int|
                0 <= i < self.model@.elements.len() ==> is_relinked_copy(self.model@.elements[i], #[trigger] r.0.model@.elements[i], r.1@),
            r.1@ == insert_pairs(Map::empty(), copy_pairs_seq(self.model@.elements, r.0.model@.elements)),
            r.0.background_color == self.background_color,
            r.0.name_buffer@ == self.name_buffer@,
            r.0.comment_buffer@ == self.comment_buffer@,
    {
        let (model, models) = crate::relink::deep_copy_diagram(&self.model);
        (
            UmlStateMachineDiagramAdapter {
                model,
                background_color: self.background_color,
                name_buffer: self.name_buffer.clone(),
                comment_buffer: self.comment_buffer.clone(),
            },
            models,
        )
    }

    /// Every element of the diagram, at any depth, keyed by its uuid.
    pub fn enumerate_models(&self) -> (r: HashMap<ModelUuid, UmlStateMachineElement>)
        ensures
            element_map(r@) == enumerated(self.model@),
    {
        crate::enumerate::enumerate_diagram(&self.model)
    }
}

/// The view adapter of a transition: the transition, the uuids of its
/// endings, the label shown at its middle and the edit buffer of its name.
pub struct UmlStateMachineEdgeAdapter {
    pub model: UmlStateMachineEdge,
    pub source_uuids: Vec<ModelUuid>,
    pub target_uuids: Vec<ModelUuid>,
    pub midpoint_label: Option<String>,
    pub name_buffer: String,
}

impl UmlStateMachineEdgeAdapter {
    /// An adapter of `model`, with its endings, label and buffer filled in.
    pub fn new(model: UmlStateMachineEdge) -> (r: Self)
        ensures
            edge_tree(r.model) == edge_tree(model),
            r.source_uuids@ == seq![edge_tree(model).links[0].uuid],
            r.target_uuids@ == seq![edge_tree(model).links[1].uuid],
            r.midpoint_label matches Some(l) ==> l@ == model.name@ && model.name@.len() > 0,
            r.midpoint_label is None ==> model.name@.len() == 0,
            r.name_buffer@ == model.name@,
    {
        let mut r = UmlStateMachineEdgeAdapter {
            model,
            source_uuids: Vec::new(),
            target_uuids: Vec::new(),
            midpoint_label: None,
            name_buffer: String::new(),
        };
        r.refresh_buffers();
        r
    }

    /// Swaps the source and the target of the transition when the target
    /// may be a source and the source a target; refuses otherwise.
    pub fn flip_multiconnection(&mut self) -> (r: Result<(), ()>)
        ensures
            match flipped(edge_tree(old(self).model)) {
                Some(t) => r is Ok && edge_tree(final(self).model) == t,
                None => r is Err && edge_tree(final(self).model) == edge_tree(old(self).model),
            },
            final(self).source_uuids == old(self).source_uuids,
            final(self).target_uuids == old(self).target_uuids,
    {
        let new_source = self.model.target.to_element().as_nonfinal();
        let new_target = self.model.source.to_element().as_noninitial();
        match (new_source, new_target) {
            (Some(s), Some(t)) => {
                self.model.source = s;
                self.model.target = t;
                proof {
                    assert(edge_tree(self.model) =~= flipped(edge_tree(old(self).model))->Some_0);
                }
                Ok(())
            },
            _ => Err(()),
        }
    }

    /// Applies a change of the transition's name, recording in `undo` the
    /// change that undoes it; other changes are ignored.
    pub fn apply_change(&mut self, change: &UmlStateMachinePropChange, undo: &mut Vec<UmlStateMachinePropChange>)
        ensures
            edge_tree(final(self).model) == edge_changed(edge_tree(old(self).model), change@),
            recorded(old(undo)@, final(undo)@, edge_undo(edge_tree(old(self).model), change@)),
    {
        match change {
            UmlStateMachinePropChange::NameChange(s) => {
                push_undo(undo, UmlStateMachinePropChange::NameChange(self.model.name.clone()));
                self.model.name = s.clone();
            },
            _ => {},
        }
        proof {
            assert(edge_tree(self.model) =~= edge_changed(edge_tree(old(self).model), change@));
        }
    }

    /// Refills the endings, the label and the buffer from the transition.
    pub fn refresh_buffers(&mut self)
        ensures
            final(self).model == old(self).model,
            final(self).source_uuids@ == seq![edge_tree(old(self).model).links[0].uuid],
            final(self).target_uuids@ == seq![edge_tree(old(self).model).links[1].uuid],
            final(self).midpoint_label matches Some(l) ==> l@ == old(self).model.name@ && old(self).model.name@.len() > 0,
            final(self).midpoint_label is None ==> old(self).model.name@.len() == 0,
            final(self).name_buffer@ == old(self).model.name@,
    {
        self.source_uuids = vec![self.model.source.uuid()];
        self.target_uuids = vec![self.model.target.uuid()];
        self.midpoint_label = if self.model.name.as_str().is_empty() {
            None
        } else {
            Some(self.model.name.clone())
        };
        self.name_buffer = self.model.name.clone();
    }
}

/// The view adapter of a note link: the link and the uuids of its endings.
pub struct UmlStateMachineNoteLinkAdapter {
    pub model: UmlStateMachineNoteLink,
    pub source_uuids: Vec<ModelUuid>,
    pub target_uuids: Vec<ModelUuid>,
}

impl UmlStateMachineNoteLinkAdapter {
    /// An adapter of `model`, with its endings filled in.
    pub fn new(model: UmlStateMachineNoteLink) -> (r: Self)
        ensures
            notelink_tree(r.model) == notelink_tree(model),
            r.source_uuids@ == seq![notelink_tree(model).links[0].uuid],
            r.target_uuids@ == seq![notelink_tree(model).links[1].uuid],
    {
        let mut r = UmlStateMachineNoteLinkAdapter { model, source_uuids: Vec::new(), target_uuids: Vec::new() };
        r.refresh_buffers();
        r
    }

    /// Refills the endings from the link.
    pub fn refresh_buffers(&mut self)
        ensures
            final(self).model == old(self).model,
            final(self).source_uuids@ == seq![notelink_tree(old(self).model).links[0].uuid],
            final(self).target_uuids@ == seq![notelink_tree(old(self).model).links[1].uuid],
    {
        self.source_uuids = vec![self.model.source];
        self.target_uuids = vec![self.model.target.uuid];
    }
}

} // verus!
