use vstd::prelude::*;

use crate::ids::ModelUuid;

verus! {

/// The domain of UML state machine diagrams.
pub struct UmlStateMachineDomain;

/// A move of regions one place up or down among their siblings.
#[derive(Clone, Copy, PartialEq, Eq, Structural, Debug)]
pub enum UmlStateMachineOrdinalMovement {
    Up,
    Down,
}

/// The move in the other direction.
pub open spec fn opposite(m: UmlStateMachineOrdinalMovement) -> UmlStateMachineOrdinalMovement {
    match m {
        UmlStateMachineOrdinalMovement::Up => UmlStateMachineOrdinalMovement::Down,
        UmlStateMachineOrdinalMovement::Down => UmlStateMachineOrdinalMovement::Up,
    }
}

impl UmlStateMachineOrdinalMovement {
    /// The move that undoes this one.
    pub fn inverse(&self) -> (r: Self)
        ensures
            r == opposite(*self),
    {
        match self {
            UmlStateMachineOrdinalMovement::Up => UmlStateMachineOrdinalMovement::Down,
            UmlStateMachineOrdinalMovement::Down => UmlStateMachineOrdinalMovement::Up,
        }
    }
}

/// An alignment along one axis.
#[derive(Clone, Copy, PartialEq, Eq, Structural, Debug)]
pub enum Align {
    Min,
    Center,
    Max,
}

/// A color as the views keep it: no color, or a color named by a number.
/// The library stores and exchanges colors and never reads them.
#[derive(Clone, Copy, PartialEq, Eq, Structural, Debug)]
pub enum MGlobalColor {
    NoColor,
    Id(u64),
}

/// A request to swap the source and the target of a relationship.
#[derive(Clone, Copy, PartialEq, Eq, Structural, Debug)]
pub struct FlipMulticonnection {}

/// A new color for a color slot of a view.
#[derive(Clone, Copy, PartialEq, Eq, Structural, Debug)]
pub struct ColorChangeData {
    pub slot: u8,
    pub color: MGlobalColor,
}

/// A change of one property of an element or a view.
pub enum UmlStateMachinePropChange {
    NameChange(String),
    StereotypeChange(String),
    TransitionGuardChange(String),
    TransitionBehaviorChange(String),
    StateMachineIsProtocolChange(bool),
    FlipMulticonnection(FlipMulticonnection),
    ColorChange(ColorChangeData),
    CommentChange(String),
    NoteAlignChange(Option<Align>, Option<Align>),
}

/// The mathematical model of a property change.
#[verifier::ext_equal]
pub enum PropChangeModel {
    Name(Seq<char>),
    Stereotype(Seq<char>),
    TransitionGuard(Seq<char>),
    TransitionBehavior(Seq<char>),
    IsProtocol(bool),
    Flip,
    Color(u8, MGlobalColor),
    Comment(Seq<char>),
    NoteAlign(Option<Align>, Option<Align>),
}

impl View for UmlStateMachinePropChange {
    type V = PropChangeModel;

    open spec fn view(&self) -> PropChangeModel {
        match *self {
            UmlStateMachinePropChange::NameChange(s) => PropChangeModel::Name(s@),
            UmlStateMachinePropChange::StereotypeChange(s) => PropChangeModel::Stereotype(s@),
            UmlStateMachinePropChange::TransitionGuardChange(s) => PropChangeModel::TransitionGuard(s@),
            UmlStateMachinePropChange::TransitionBehaviorChange(s) => PropChangeModel::TransitionBehavior(s@),
            UmlStateMachinePropChange::StateMachineIsProtocolChange(b) => PropChangeModel::IsProtocol(b),
            UmlStateMachinePropChange::FlipMulticonnection(_) => PropChangeModel::Flip,
            UmlStateMachinePropChange::ColorChange(c) => PropChangeModel::Color(c.slot, c.color),
            UmlStateMachinePropChange::CommentChange(s) => PropChangeModel::Comment(s@),
            UmlStateMachinePropChange::NoteAlignChange(x, y) => PropChangeModel::NoteAlign(x, y),
        }
    }
}

/// Two changes of the same textual property, which the newer one replaces
/// entirely.
pub open spec fn merges_with(older: PropChangeModel, newer: PropChangeModel) -> bool {
    ||| (older is Name && newer is Name)
    ||| (older is Stereotype && newer is Stereotype)
    ||| (older is TransitionGuard && newer is TransitionGuard)
    ||| (older is TransitionBehavior && newer is TransitionBehavior)
    ||| (older is Comment && newer is Comment)
}

fn clone_text(s: &String) -> (r: String)
    ensures
        r@ == s@,
{
    s.clone()
}

impl UmlStateMachinePropChange {
    /// A copy of the change.
    pub fn copy(&self) -> (r: Self)
        ensures
            r@ == self@,
    {
        match self {
            UmlStateMachinePropChange::NameChange(s) => UmlStateMachinePropChange::NameChange(clone_text(s)),
            UmlStateMachinePropChange::StereotypeChange(s) => UmlStateMachinePropChange::StereotypeChange(clone_text(s)),
            UmlStateMachinePropChange::TransitionGuardChange(s) => UmlStateMachinePropChange::TransitionGuardChange(clone_text(s)),
            UmlStateMachinePropChange::TransitionBehaviorChange(s) => UmlStateMachinePropChange::TransitionBehaviorChange(
                clone_text(s),
            ),
            UmlStateMachinePropChange::StateMachineIsProtocolChange(b) => UmlStateMachinePropChange::StateMachineIsProtocolChange(*b),
            UmlStateMachinePropChange::FlipMulticonnection(f) => UmlStateMachinePropChange::FlipMulticonnection(*f),
            UmlStateMachinePropChange::ColorChange(c) => UmlStateMachinePropChange::ColorChange(*c),
            UmlStateMachinePropChange::CommentChange(s) => UmlStateMachinePropChange::CommentChange(clone_text(s)),
            UmlStateMachinePropChange::NoteAlignChange(x, y) => UmlStateMachinePropChange::NoteAlignChange(*x, *y),
        }
    }

    /// The single change that has the effect of this change followed by
    /// `newer`, when both change the same textual property: `newer` itself.
    pub fn try_merge(&self, newer: &Self) -> (r: Option<Self>)
        ensures
            r is Some <==> merges_with(self@, newer@),
            r matches Some(m) ==> m@ == newer@,
    {
        match (self, newer) {
            (UmlStateMachinePropChange::NameChange(_), UmlStateMachinePropChange::NameChange(_))
            | (UmlStateMachinePropChange::StereotypeChange(_), UmlStateMachinePropChange::StereotypeChange(_))
            | (UmlStateMachinePropChange::TransitionGuardChange(_), UmlStateMachinePropChange::TransitionGuardChange(_))
            | (UmlStateMachinePropChange::TransitionBehaviorChange(_), UmlStateMachinePropChange::TransitionBehaviorChange(_))
            | (UmlStateMachinePropChange::CommentChange(_), UmlStateMachinePropChange::CommentChange(_)) => Some(newer.copy()),
            _ => None,
        }
    }
}

/// The kind of relationship a tool draws.
#[derive(Clone, Debug)]
pub enum LinkType {
    Edge { name: String },
}

/// The use case flavour of class diagrams.
#[derive(Clone, Copy, Debug)]
pub struct UseCaseProfile;

impl UseCaseProfile {
    /// Classes of use case diagrams may be drawn as stick figures.
    pub fn allows_class_rendering_as_stick_figure() -> (r: bool)
        ensures
            r,
    {
        true
    }
}

/// What a modal dialog asks of the application after it was shown.
#[derive(Clone, Copy, PartialEq, Eq, Structural, Debug)]
pub enum CustomModalResult {
    KeepOpen,
    CloseUnmodified,
    CloseModified(ModelUuid),
}

/// A dialog that shows an error message until it is acknowledged.
pub struct ErrorModal {
    pub message: String,
}

impl ErrorModal {
    pub fn new(message: String) -> (r: Self)
        ensures
            r.message@ == message@,
    {
        ErrorModal { message }
    }

    /// The answer of the dialog after a frame in which its button was or was
    /// not pressed.
    pub fn respond(&self, ok_clicked: bool) -> (r: CustomModalResult)
        ensures
            r == if ok_clicked {
                CustomModalResult::CloseUnmodified
            } else {
                CustomModalResult::KeepOpen
            },
    {
        if ok_clicked {
            CustomModalResult::CloseUnmodified
        } else {
            CustomModalResult::KeepOpen
        }
    }
}

} // verus!
