use vstd::prelude::*;

use crate::changes::{MGlobalColor, PropChangeModel, UmlStateMachinePropChange};
use crate::model::{machine_tree, DiagramTree, ElementTree, UmlStateMachine, UmlStateMachineDiagram};

verus! {

/// `after` is `before` with the change `u` recorded at its end, or `before`
/// itself when there is nothing to record.
pub open spec fn recorded(before: Seq<UmlStateMachinePropChange>, after: Seq<UmlStateMachinePropChange>, u: Option<PropChangeModel>) -> bool {
    match u {
        Some(m) => after.len() == before.len() + 1 && after.drop_last() == before && after.last()@ == m,
        None => after == before,
    }
}

/// The color of a view after a change.
pub open spec fn color_changed(old: MGlobalColor, c: PropChangeModel) -> MGlobalColor {
    match c {
        PropChangeModel::Color(slot, color) => if slot == 0 {
            color
        } else {
            old
        },
        _ => old,
    }
}

/// The diagram after a change of its properties.
pub open spec fn diagram_changed(d: DiagramTree, c: PropChangeModel) -> DiagramTree {
    match c {
        PropChangeModel::Name(s) => DiagramTree { name: s, ..d },
        PropChangeModel::Comment(s) => DiagramTree { comment: s, ..d },
        _ => d,
    }
}

/// The change that undoes `c` on the diagram `d` shown with color `bg`.
pub open spec fn diagram_undo(d: DiagramTree, bg: MGlobalColor, c: PropChangeModel) -> Option<PropChangeModel> {
    match c {
        PropChangeModel::Name(_) => Some(PropChangeModel::Name(d.name)),
        PropChangeModel::Comment(_) => Some(PropChangeModel::Comment(d.comment)),
        PropChangeModel::Color(slot, _) => if slot == 0 {
            Some(PropChangeModel::Color(0, bg))
        } else {
            None
        },
        _ => None,
    }
}

/// The state machine (as a tree) after a change of its properties.
pub open spec fn machine_changed(t: ElementTree, c: PropChangeModel) -> ElementTree {
    match c {
        PropChangeModel::Stereotype(s) => ElementTree { texts: t.texts.update(0, s), ..t },
        PropChangeModel::Name(s) => ElementTree { texts: t.texts.update(1, s), ..t },
        PropChangeModel::Comment(s) => ElementTree { texts: t.texts.update(2, s), ..t },
        PropChangeModel::IsProtocol(b) => ElementTree { flag: b, ..t },
        _ => t,
    }
}

/// The change that undoes `c` on the state machine `t` shown with color
/// `bg`.
pub open spec fn machine_undo(t: ElementTree, bg: MGlobalColor, c: PropChangeModel) -> Option<PropChangeModel> {
    match c {
        PropChangeModel::Stereotype(_) => Some(PropChangeModel::Stereotype(t.texts[0])),
        PropChangeModel::Name(_) => Some(PropChangeModel::Name(t.texts[1])),
        PropChangeModel::Comment(_) => Some(PropChangeModel::Comment(t.texts[2])),
        PropChangeModel::IsProtocol(_) => Some(PropChangeModel::IsProtocol(t.flag)),
        PropChangeModel::Color(slot, _) => if slot == 0 {
            Some(PropChangeModel::Color(0, bg))
        } else {
            None
        },
        _ => None,
    }
}

/// The transition (as a tree) after a change of its properties.
pub open spec fn edge_changed(t: ElementTree, c: PropChangeModel) -> ElementTree {
    match c {
        PropChangeModel::Name(s) => ElementTree { texts: t.texts.update(0, s), ..t },
        _ => t,
    }
}

/// The change that undoes `c` on the transition `t`.
pub open spec fn edge_undo(t: ElementTree, c: PropChangeModel) -> Option<PropChangeModel> {
    match c {
        PropChangeModel::Name(_) => Some(PropChangeModel::Name(t.texts[0])),
        _ => None,
    }
}

/// The text shown in the header of a state machine.
pub open spec fn machine_display_text(t: ElementTree) -> Seq<char> {
    "stm: "@ + (if t.texts[0].len() == 0 {
        Seq::<char>::empty()
    } else {
        "«"@ + t.texts[0] + "» "@
    }) + t.texts[1] + (if t.flag {
        " {protocol}"@
    } else {
        Seq::<char>::empty()
    })
}

/// The transition with its source and target swapped, when the target may
/// be a source and the source a target.
pub open spec fn flipped(t: ElementTree) -> Option<ElementTree> {
    if crate::model::is_nonfinal_kind(t.links[1].kind) && crate::model::is_noninitial_kind(t.links[0].kind) {
        Some(ElementTree { links: seq![t.links[1], t.links[0]], ..t })
    } else {
        None
    }
}

pub(crate) fn push_undo(undo: &mut Vec<UmlStateMachinePropChange>, u: UmlStateMachinePropChange)
    ensures
        recorded(old(undo)@, final(undo)@, Some(u@)),
{
    undo.push(u);
    proof {
        assert(undo@.drop_last() =~= old(undo)@);
    }
}

/// The diagram-wide part of the controller of a state machine diagram.
pub struct UmlStateMachineControllerAdapter {
    pub model: UmlStateMachineDiagram,
}

impl UmlStateMachineControllerAdapter {
    pub fn new(model: UmlStateMachineDiagram) -> (r: Self)
        ensures
            r.model@ == model@,
    {
        UmlStateMachineControllerAdapter { model }
    }

    /// The name of this kind of controller.
    pub fn controller_type(&self) -> (r: &'static str)
        ensures
            r@ == "umlstatemachine"@,
    {
        "umlstatemachine"
    }
}

/// The diagram-level view adapter: the diagram, its background color and the
/// edit buffers of its properties.
pub struct UmlStateMachineDiagramAdapter {
    pub model: UmlStateMachineDiagram,
    pub background_color: MGlobalColor,
    pub name_buffer: String,
    pub comment_buffer: String,
}

impl UmlStateMachineDiagramAdapter {
    pub fn new(model: UmlStateMachineDiagram) -> (r: Self)
        ensures
            r.model@ == model@,
            r.background_color == MGlobalColor::NoColor,
            r.name_buffer@ == model@.name,
            r.comment_buffer@ == model@.comment,
    {
        let name_buffer = model.name.clone();
        let comment_buffer = model.comment.clone();
        UmlStateMachineDiagramAdapter { model, background_color: MGlobalColor::NoColor, name_buffer, comment_buffer }
    }

    /// Applies a change of the diagram's name, comment or background color
    /// (slot 0), recording in `undo` the change that undoes it; other
    /// changes are ignored.
    pub fn apply_property_change(&mut self, change: &UmlStateMachinePropChange, undo: &mut Vec<UmlStateMachinePropChange>)
        ensures
            final(self).model@ == diagram_changed(old(self).model@, change@),
            final(self).background_color == color_changed(old(self).background_color, change@),
            final(self).name_buffer == old(self).name_buffer,
            final(self).comment_buffer == old(self).comment_buffer,
            recorded(old(undo)@, final(undo)@, diagram_undo(old(self).model@, old(self).background_color, change@)),
    {
        match change {
            UmlStateMachinePropChange::NameChange(name) => {
                push_undo(undo, UmlStateMachinePropChange::NameChange(self.model.name.clone()));
                self.model.name = name.clone();
            },
            UmlStateMachinePropChange::ColorChange(c) => {
                if c.slot == 0 {
                    push_undo(undo, UmlStateMachinePropChange::ColorChange(crate::changes::ColorChangeData { slot: 0, color: self.background_color }));
                    self.background_color = c.color;
                }
            },
            UmlStateMachinePropChange::CommentChange(comment) => {
                push_undo(undo, UmlStateMachinePropChange::CommentChange(self.model.comment.clone()));
                self.model.comment = comment.clone();
            },
            _ => {},
        }
        proof {
            assert(self.model@ =~= diagram_changed(old(self).model@, change@));
        }
    }

    /// Copies the diagram's name and comment into the edit buffers.
    pub fn refresh_buffers(&mut self)
        ensures
            final(self).model == old(self).model,
            final(self).background_color == old(self).background_color,
            final(self).name_buffer@ == old(self).model@.name,
            final(self).comment_buffer@ == old(self).model@.comment,
    {
        self.name_buffer = self.model.name.clone();
        self.comment_buffer = self.model.comment.clone();
    }
}

/// The view adapter of a state machine: the state machine, its background
/// color, the text of its header and the edit buffers of its properties.
pub struct UmlStateMachineAdapter {
    pub model: UmlStateMachine,
    pub background_color: MGlobalColor,
    pub display_text: String,
    pub stereotype_buffer: String,
    pub name_buffer: String,
    pub is_protocol_buffer: bool,
    pub comment_buffer: String,
}

impl UmlStateMachineAdapter {
    /// An adapter of `model`, with its header and buffers filled in.
    pub fn new(model: UmlStateMachine, background_color: MGlobalColor) -> (r: Self)
        ensures
            machine_tree(r.model) == machine_tree(model),
            r.background_color == background_color,
            r.display_text@ == machine_display_text(machine_tree(model)),
            r.stereotype_buffer@ == model.stereotype@,
            r.name_buffer@ == model.name@,
            r.is_protocol_buffer == model.is_protocol,
            r.comment_buffer@ == model.comment@,
    {
        let mut r = UmlStateMachineAdapter {
            model,
            background_color,
            display_text: String::new(),
            stereotype_buffer: String::new(),
            name_buffer: String::new(),
            is_protocol_buffer: false,
            comment_buffer: String::new(),
        };
        r.refresh_buffers();
        r
    }

    /// Applies a change of the state machine's stereotype, name, protocol
    /// flag, comment or background color (slot 0), recording in `undo` the
    /// change that undoes it; other changes are ignored.
    pub fn apply_change(&mut self, change: &UmlStateMachinePropChange, undo: &mut Vec<UmlStateMachinePropChange>)
        ensures
            machine_tree(final(self).model) == machine_changed(machine_tree(old(self).model), change@),
            final(self).background_color == color_changed(old(self).background_color, change@),
            recorded(old(undo)@, final(undo)@, machine_undo(machine_tree(old(self).model), old(self).background_color, change@)),
    {
        match change {
            UmlStateMachinePropChange::StereotypeChange(s) => {
                push_undo(undo, UmlStateMachinePropChange::StereotypeChange(self.model.stereotype.clone()));
                self.model.stereotype = s.clone();
            },
            UmlStateMachinePropChange::NameChange(s) => {
                push_undo(undo, UmlStateMachinePropChange::NameChange(self.model.name.clone()));
                self.model.name = s.clone();
            },
            UmlStateMachinePropChange::StateMachineIsProtocolChange(b) => {
                push_undo(undo, UmlStateMachinePropChange::StateMachineIsProtocolChange(self.model.is_protocol));
                self.model.is_protocol = *b;
            },
            UmlStateMachinePropChange::CommentChange(s) => {
                push_undo(undo, UmlStateMachinePropChange::CommentChange(self.model.comment.clone()));
                self.model.comment = s.clone();
            },
            UmlStateMachinePropChange::ColorChange(c) => {
                if c.slot == 0 {
                    push_undo(undo, UmlStateMachinePropChange::ColorChange(crate::changes::ColorChangeData { slot: 0, color: self.background_color }));
                    self.background_color = c.color;
                }
            },
            _ => {},
        }
        proof {
            assert(machine_tree(self.model) =~= machine_changed(machine_tree(old(self).model), change@));
        }
    }

    /// Recomputes the header text and refills the edit buffers from the
    /// state machine.
    pub fn refresh_buffers(&mut self)
        ensures
            final(self).model == old(self).model,
            final(self).background_color == old(self).background_color,
            final(self).display_text@ == machine_display_text(machine_tree(old(self).model)),
            final(self).stereotype_buffer@ == old(self).model.stereotype@,
            final(self).name_buffer@ == old(self).model.name@,
            final(self).is_protocol_buffer == old(self).model.is_protocol,
            final(self).comment_buffer@ == old(self).model.comment@,
    {
        let mut acc = String::from_str("stm: ");
        if !self.model.stereotype.as_str().is_empty() {
            acc.append("«");
            acc.append(self.model.stereotype.as_str());
            acc.append("» ");
        }
        acc.append(self.model.name.as_str());
        if self.model.is_protocol {
            acc.append(" {protocol}");
        }
        proof {
            assert(acc@ =~= machine_display_text(machine_tree(self.model)));
        }
        self.display_text = acc;
        self.stereotype_buffer = self.model.stereotype.clone();
        self.name_buffer = self.model.name.clone();
        self.is_protocol_buffer = self.model.is_protocol;
        self.comment_buffer = self.model.comment.clone();
    }
}

} // verus!

verus! {

/// A composite state (as a tree) after a change of its properties.
pub open spec fn composite_changed(t: ElementTree, c: PropChangeModel) -> ElementTree {
    match c {
        PropChangeModel::Stereotype(s) => ElementTree { texts: t.texts.update(0, s), ..t },
        PropChangeModel::Name(s) => ElementTree { texts: t.texts.update(1, s), ..t },
        _ => t,
    }
}

/// The change that undoes `c` on the composite state `t`.
pub open spec fn composite_undo(t: ElementTree, c: PropChangeModel) -> Option<PropChangeModel> {
    match c {
        PropChangeModel::Stereotype(_) => Some(PropChangeModel::Stereotype(t.texts[0])),
        PropChangeModel::Name(_) => Some(PropChangeModel::Name(t.texts[1])),
        _ => None,
    }
}

/// An internal transition (as a tree) after a change of its properties: the
/// name is its trigger.
pub open spec fn transition_changed(t: ElementTree, c: PropChangeModel) -> ElementTree {
    match c {
        PropChangeModel::Name(s) => ElementTree { texts: t.texts.update(0, s), ..t },
        PropChangeModel::TransitionGuard(s) => ElementTree { texts: t.texts.update(1, s), ..t },
        PropChangeModel::TransitionBehavior(s) => ElementTree { texts: t.texts.update(2, s), ..t },
        _ => t,
    }
}

/// The change that undoes `c` on the internal transition `t`.
pub open spec fn transition_undo(t: ElementTree, c: PropChangeModel) -> Option<PropChangeModel> {
    match c {
        PropChangeModel::Name(_) => Some(PropChangeModel::Name(t.texts[0])),
        PropChangeModel::TransitionGuard(_) => Some(PropChangeModel::TransitionGuard(t.texts[1])),
        PropChangeModel::TransitionBehavior(_) => Some(PropChangeModel::TransitionBehavior(t.texts[2])),
        _ => None,
    }
}

/// A note (as a tree) after a change of its properties: the name is its
/// text.
pub open spec fn note_changed(t: ElementTree, c: PropChangeModel) -> ElementTree {
    match c {
        PropChangeModel::Stereotype(s) => ElementTree { texts: t.texts.update(0, s), ..t },
        PropChangeModel::Name(s) => ElementTree { texts: t.texts.update(1, s), ..t },
        _ => t,
    }
}

/// The change that undoes `c` on the note `t`.
pub open spec fn note_undo(t: ElementTree, c: PropChangeModel) -> Option<PropChangeModel> {
    match c {
        PropChangeModel::Stereotype(_) => Some(PropChangeModel::Stereotype(t.texts[0])),
        PropChangeModel::Name(_) => Some(PropChangeModel::Name(t.texts[1])),
        _ => None,
    }
}

impl crate::model::UmlStateMachineCompositeState {
    /// Applies a change of the state's stereotype or name, recording in
    /// `undo` the change that undoes it; other changes are ignored.
    pub fn apply_property_change(&mut self, change: &UmlStateMachinePropChange, undo: &mut Vec<UmlStateMachinePropChange>)
        ensures
            crate::model::composite_tree(*final(self)) == composite_changed(crate::model::composite_tree(*old(self)), change@),
            recorded(old(undo)@, final(undo)@, composite_undo(crate::model::composite_tree(*old(self)), change@)),
    {
        match change {
            UmlStateMachinePropChange::StereotypeChange(s) => {
                push_undo(undo, UmlStateMachinePropChange::StereotypeChange(self.stereotype.clone()));
                self.stereotype = s.clone();
            },
            UmlStateMachinePropChange::NameChange(s) => {
                push_undo(undo, UmlStateMachinePropChange::NameChange(self.name.clone()));
                self.name = s.clone();
            },
            _ => {},
        }
        proof {
            assert(crate::model::composite_tree(*self) =~= composite_changed(crate::model::composite_tree(*old(self)), change@));
        }
    }
}

impl crate::model::UmlStateMachineInternalTransition {
    /// Applies a change of the transition's trigger (given as its name),
    /// guard or behavior, recording in `undo` the change that undoes it;
    /// other changes are ignored.
    pub fn apply_property_change(&mut self, change: &UmlStateMachinePropChange, undo: &mut Vec<UmlStateMachinePropChange>)
        ensures
            crate::model::transition_tree(*final(self)) == transition_changed(crate::model::transition_tree(*old(self)), change@),
            recorded(old(undo)@, final(undo)@, transition_undo(crate::model::transition_tree(*old(self)), change@)),
    {
        match change {
            UmlStateMachinePropChange::NameChange(s) => {
                push_undo(undo, UmlStateMachinePropChange::NameChange(self.trigger.clone()));
                self.trigger = s.clone();
            },
            UmlStateMachinePropChange::TransitionGuardChange(s) => {
                push_undo(undo, UmlStateMachinePropChange::TransitionGuardChange(self.guard.clone()));
                self.guard = s.clone();
            },
            UmlStateMachinePropChange::TransitionBehaviorChange(s) => {
                push_undo(undo, UmlStateMachinePropChange::TransitionBehaviorChange(self.behavior.clone()));
                self.behavior = s.clone();
            },
            _ => {},
        }
        proof {
            assert(crate::model::transition_tree(*self) =~= transition_changed(crate::model::transition_tree(*old(self)), change@));
        }
    }
}

impl crate::model::UmlStateMachineNote {
    /// Applies a change of the note's stereotype or text (given as its name),
    /// recording in `undo` the change that undoes it; other changes are
    /// ignored.
    pub fn apply_property_change(&mut self, change: &UmlStateMachinePropChange, undo: &mut Vec<UmlStateMachinePropChange>)
        ensures
            crate::model::note_tree(*final(self)) == note_changed(crate::model::note_tree(*old(self)), change@),
            recorded(old(undo)@, final(undo)@, note_undo(crate::model::note_tree(*old(self)), change@)),
    {
        match change {
            UmlStateMachinePropChange::StereotypeChange(s) => {
                push_undo(undo, UmlStateMachinePropChange::StereotypeChange(self.stereotype.clone()));
                self.stereotype = s.clone();
            },
            UmlStateMachinePropChange::NameChange(s) => {
                push_undo(undo, UmlStateMachinePropChange::NameChange(self.text.clone()));
                self.text = s.clone();
            },
            _ => {},
        }
        proof {
            assert(crate::model::note_tree(*self) =~= note_changed(crate::model::note_tree(*old(self)), change@));
        }
    }
}

} // verus!
