use vstd::prelude::*;

use crate::ids::ModelUuid;

verus! {

/// The kind of a state machine model element.
#[derive(Clone, Copy, PartialEq, Eq, Structural, Debug)]
pub enum ElementKind {
    StateMachine,
    CompositeState,
    CompositeStateRegion,
    SimpleState,
    InternalTransition,
    InitialPseudostate,
    TerminatePseudostate,
    FinalState,
    Edge,
    Note,
    NoteLink,
}

/// A typed reference to an element of the diagram.
#[derive(Clone, Copy, PartialEq, Eq, Structural, Debug)]
pub struct UmlStateMachineElementRef {
    pub kind: ElementKind,
    pub uuid: ModelUuid,
}

/// The mathematical model of an element: an ordered tree.
///
/// `texts` holds the element's textual attributes in declaration order,
/// `flag` its boolean attribute, `buckets` its lists of children indexed by
/// bucket number, and `links` the endpoints of a relationship.
#[verifier::ext_equal]
pub struct ElementTree {
    pub kind: ElementKind,
    pub uuid: ModelUuid,
    pub texts: Seq<Seq<char>>,
    pub flag: bool,
    pub buckets: Seq<Seq<ElementTree>>,
    pub links: Seq<UmlStateMachineElementRef>,
}

/// The mathematical model of a diagram.
#[verifier::ext_equal]
pub struct DiagramTree {
    pub uuid: ModelUuid,
    pub name: Seq<char>,
    pub comment: Seq<char>,
    pub elements: Seq<ElementTree>,
}

/// A source of a transition: a node that is not a final node.
#[derive(Clone, Copy, PartialEq, Eq, Structural, Debug)]
pub enum UmlStateMachineNonFinalNode {
    CompositeState(ModelUuid),
    SimpleState(ModelUuid),
    InitialPseudostate(ModelUuid),
}

/// A target of a transition: a node that is not an initial node.
#[derive(Clone, Copy, PartialEq, Eq, Structural, Debug)]
pub enum UmlStateMachineNonInitialNode {
    CompositeState(ModelUuid),
    SimpleState(ModelUuid),
    TerminatePseudostate(ModelUuid),
    FinalState(ModelUuid),
}

pub struct UmlStateMachineDiagram {
    pub uuid: ModelUuid,
    pub name: String,
    pub contained_elements: Vec<UmlStateMachineStandaloneElement>,
    pub comment: String,
}

pub struct UmlStateMachine {
    pub uuid: ModelUuid,
    pub stereotype: String,
    pub name: String,
    pub is_protocol: bool,
    pub contained_elements: Vec<UmlStateMachineStandaloneElement>,
    pub comment: String,
}

pub struct UmlStateMachineCompositeState {
    pub uuid: ModelUuid,
    pub stereotype: String,
    pub name: String,
    pub internal_transitions: Vec<UmlStateMachineInternalTransition>,
    pub regions: Vec<UmlStateMachineCompositeStateRegion>,
}

pub struct UmlStateMachineCompositeStateRegion {
    pub uuid: ModelUuid,
    pub contained_elements: Vec<UmlStateMachineStandaloneElement>,
}

pub struct UmlStateMachineSimpleState {
    pub uuid: ModelUuid,
    pub stereotype: String,
    pub name: String,
    pub internal_transitions: Vec<UmlStateMachineInternalTransition>,
}

pub struct UmlStateMachineInternalTransition {
    pub uuid: ModelUuid,
    pub trigger: String,
    pub guard: String,
    pub behavior: String,
}

pub struct UmlStateMachineInitialPseudostate {
    pub uuid: ModelUuid,
}

pub struct UmlStateMachineTerminatePseudostate {
    pub uuid: ModelUuid,
}

pub struct UmlStateMachineFinalState {
    pub uuid: ModelUuid,
}

pub struct UmlStateMachineEdge {
    pub uuid: ModelUuid,
    pub name: String,
    pub source: UmlStateMachineNonFinalNode,
    pub target: UmlStateMachineNonInitialNode,
}

pub struct UmlStateMachineNote {
    pub uuid: ModelUuid,
    pub stereotype: String,
    pub text: String,
}

/// A link from a note (by its uuid) to any element.
pub struct UmlStateMachineNoteLink {
    pub uuid: ModelUuid,
    pub source: ModelUuid,
    pub target: UmlStateMachineElementRef,
}

/// Any element of a state machine diagram.
pub enum UmlStateMachineElement {
    StateMachine(UmlStateMachine),
    CompositeState(UmlStateMachineCompositeState),
    CompositeStateRegion(UmlStateMachineCompositeStateRegion),
    SimpleState(UmlStateMachineSimpleState),
    InternalTransition(UmlStateMachineInternalTransition),
    InitialPseudostate(UmlStateMachineInitialPseudostate),
    TerminatePseudostate(UmlStateMachineTerminatePseudostate),
    FinalState(UmlStateMachineFinalState),
    Edge(UmlStateMachineEdge),
    Note(UmlStateMachineNote),
    NoteLink(UmlStateMachineNoteLink),
}

/// An element that may stand directly inside a diagram, a state machine or a
/// region.
pub enum UmlStateMachineStandaloneElement {
    StateMachine(UmlStateMachine),
    CompositeState(UmlStateMachineCompositeState),
    SimpleState(UmlStateMachineSimpleState),
    InitialPseudostate(UmlStateMachineInitialPseudostate),
    TerminatePseudostate(UmlStateMachineTerminatePseudostate),
    FinalState(UmlStateMachineFinalState),
    Edge(UmlStateMachineEdge),
    Note(UmlStateMachineNote),
    NoteLink(UmlStateMachineNoteLink),
}

// ---------------------------------------------------------------------------
// The model of each type
// ---------------------------------------------------------------------------

pub open spec fn leaf_tree(kind: ElementKind, uuid: ModelUuid, texts: Seq<Seq<char>>) -> ElementTree {
    ElementTree { kind, uuid, texts, flag: false, buckets: seq![], links: seq![] }
}

pub open spec fn nonfinal_ref(n: UmlStateMachineNonFinalNode) -> UmlStateMachineElementRef {
    match n {
        UmlStateMachineNonFinalNode::CompositeState(u) => UmlStateMachineElementRef { kind: ElementKind::CompositeState, uuid: u },
        UmlStateMachineNonFinalNode::SimpleState(u) => UmlStateMachineElementRef { kind: ElementKind::SimpleState, uuid: u },
        UmlStateMachineNonFinalNode::InitialPseudostate(u) => UmlStateMachineElementRef { kind: ElementKind::InitialPseudostate, uuid: u },
    }
}

pub open spec fn noninitial_ref(n: UmlStateMachineNonInitialNode) -> UmlStateMachineElementRef {
    match n {
        UmlStateMachineNonInitialNode::CompositeState(u) => UmlStateMachineElementRef { kind: ElementKind::CompositeState, uuid: u },
        UmlStateMachineNonInitialNode::SimpleState(u) => UmlStateMachineElementRef { kind: ElementKind::SimpleState, uuid: u },
        UmlStateMachineNonInitialNode::TerminatePseudostate(u) => UmlStateMachineElementRef { kind: ElementKind::TerminatePseudostate, uuid: u },
        UmlStateMachineNonInitialNode::FinalState(u) => UmlStateMachineElementRef { kind: ElementKind::FinalState, uuid: u },
    }
}

pub open spec fn transition_tree(t: UmlStateMachineInternalTransition) -> ElementTree {
    leaf_tree(ElementKind::InternalTransition, t.uuid, seq![t.trigger@, t.guard@, t.behavior@])
}

pub open spec fn edge_tree(e: UmlStateMachineEdge) -> ElementTree {
    ElementTree {
        kind: ElementKind::Edge,
        uuid: e.uuid,
        texts: seq![e.name@],
        flag: false,
        buckets: seq![],
        links: seq![nonfinal_ref(e.source), noninitial_ref(e.target)],
    }
}

pub open spec fn note_tree(n: UmlStateMachineNote) -> ElementTree {
    leaf_tree(ElementKind::Note, n.uuid, seq![n.stereotype@, n.text@])
}

pub open spec fn notelink_tree(l: UmlStateMachineNoteLink) -> ElementTree {
    ElementTree {
        kind: ElementKind::NoteLink,
        uuid: l.uuid,
        texts: seq![],
        flag: false,
        buckets: seq![],
        links: seq![UmlStateMachineElementRef { kind: ElementKind::Note, uuid: l.source }, l.target],
    }
}

pub open spec fn transition_trees(s: Seq<UmlStateMachineInternalTransition>) -> Seq<ElementTree> {
    Seq::new(s.len(), |i: int| transition_tree(s[i]))
}

pub open spec fn standalone_tree(e: UmlStateMachineStandaloneElement) -> ElementTree
    decreases e,
{
    match e {
        UmlStateMachineStandaloneElement::StateMachine(m) => machine_tree(m),
        UmlStateMachineStandaloneElement::CompositeState(c) => composite_tree(c),
        UmlStateMachineStandaloneElement::SimpleState(s) => simple_tree(s),
        UmlStateMachineStandaloneElement::InitialPseudostate(p) => leaf_tree(ElementKind::InitialPseudostate, p.uuid, seq![]),
        UmlStateMachineStandaloneElement::TerminatePseudostate(p) => leaf_tree(ElementKind::TerminatePseudostate, p.uuid, seq![]),
        UmlStateMachineStandaloneElement::FinalState(p) => leaf_tree(ElementKind::FinalState, p.uuid, seq![]),
        UmlStateMachineStandaloneElement::Edge(x) => edge_tree(x),
        UmlStateMachineStandaloneElement::Note(x) => note_tree(x),
        UmlStateMachineStandaloneElement::NoteLink(x) => notelink_tree(x),
    }
}

pub open spec fn standalone_trees(s: Seq<UmlStateMachineStandaloneElement>) -> Seq<ElementTree>
    decreases s,
{
    Seq::new(s.len(), |i: int| if 0 <= i < s.len() { standalone_tree(s[i]) } else { leaf_tree(ElementKind::Note, 0, seq![]) })
}

pub open spec fn machine_tree(m: UmlStateMachine) -> ElementTree
    decreases m,
{
    ElementTree {
        kind: ElementKind::StateMachine,
        uuid: m.uuid,
        texts: seq![m.stereotype@, m.name@, m.comment@],
        flag: m.is_protocol,
        buckets: seq![standalone_trees(m.contained_elements@)],
        links: seq![],
    }
}

pub open spec fn region_tree(r: UmlStateMachineCompositeStateRegion) -> ElementTree
    decreases r,
{
    ElementTree {
        kind: ElementKind::CompositeStateRegion,
        uuid: r.uuid,
        texts: seq![],
        flag: false,
        buckets: seq![standalone_trees(r.contained_elements@)],
        links: seq![],
    }
}

pub open spec fn region_trees(s: Seq<UmlStateMachineCompositeStateRegion>) -> Seq<ElementTree>
    decreases s,
{
    Seq::new(s.len(), |i: int| if 0 <= i < s.len() { region_tree(s[i]) } else { leaf_tree(ElementKind::Note, 0, seq![]) })
}

pub open spec fn composite_tree(c: UmlStateMachineCompositeState) -> ElementTree
    decreases c,
{
    ElementTree {
        kind: ElementKind::CompositeState,
        uuid: c.uuid,
        texts: seq![c.stereotype@, c.name@],
        flag: false,
        buckets: seq![seq![], transition_trees(c.internal_transitions@), region_trees(c.regions@)],
        links: seq![],
    }
}

pub open spec fn simple_tree(s: UmlStateMachineSimpleState) -> ElementTree {
    ElementTree {
        kind: ElementKind::SimpleState,
        uuid: s.uuid,
        texts: seq![s.stereotype@, s.name@],
        flag: false,
        buckets: seq![seq![], transition_trees(s.internal_transitions@)],
        links: seq![],
    }
}

pub open spec fn element_tree(e: UmlStateMachineElement) -> ElementTree {
    match e {
        UmlStateMachineElement::StateMachine(m) => machine_tree(m),
        UmlStateMachineElement::CompositeState(c) => composite_tree(c),
        UmlStateMachineElement::CompositeStateRegion(r) => region_tree(r),
        UmlStateMachineElement::SimpleState(s) => simple_tree(s),
        UmlStateMachineElement::InternalTransition(t) => transition_tree(t),
        UmlStateMachineElement::InitialPseudostate(p) => leaf_tree(ElementKind::InitialPseudostate, p.uuid, seq![]),
        UmlStateMachineElement::TerminatePseudostate(p) => leaf_tree(ElementKind::TerminatePseudostate, p.uuid, seq![]),
        UmlStateMachineElement::FinalState(p) => leaf_tree(ElementKind::FinalState, p.uuid, seq![]),
        UmlStateMachineElement::Edge(x) => edge_tree(x),
        UmlStateMachineElement::Note(x) => note_tree(x),
        UmlStateMachineElement::NoteLink(x) => notelink_tree(x),
    }
}

pub open spec fn diagram_tree(d: UmlStateMachineDiagram) -> DiagramTree {
    DiagramTree { uuid: d.uuid, name: d.name@, comment: d.comment@, elements: standalone_trees(d.contained_elements@) }
}

impl View for UmlStateMachineDiagram {
    type V = DiagramTree;

    open spec fn view(&self) -> DiagramTree {
        diagram_tree(*self)
    }
}

impl View for UmlStateMachineElement {
    type V = ElementTree;

    open spec fn view(&self) -> ElementTree {
        element_tree(*self)
    }
}

impl View for UmlStateMachineStandaloneElement {
    type V = ElementTree;

    open spec fn view(&self) -> ElementTree {
        standalone_tree(*self)
    }
}

/// The kinds that may stand directly inside a diagram, state machine or region.
pub open spec fn is_standalone_kind(k: ElementKind) -> bool {
    k != ElementKind::CompositeStateRegion && k != ElementKind::InternalTransition
}

/// The kinds that may be the source of a transition.
pub open spec fn is_nonfinal_kind(k: ElementKind) -> bool {
    k == ElementKind::CompositeState || k == ElementKind::SimpleState || k == ElementKind::InitialPseudostate
}

/// The kinds that may be the target of a transition.
pub open spec fn is_noninitial_kind(k: ElementKind) -> bool {
    k == ElementKind::CompositeState || k == ElementKind::SimpleState || k == ElementKind::TerminatePseudostate
        || k == ElementKind::FinalState
}

/// The reference to the root of a tree.
pub open spec fn tree_ref(t: ElementTree) -> UmlStateMachineElementRef {
    UmlStateMachineElementRef { kind: t.kind, uuid: t.uuid }
}

} // verus!

verus! {

impl UmlStateMachineNonFinalNode {
    /// The uuid of the referenced node.
    pub fn uuid(&self) -> (r: ModelUuid)
        ensures
            r == nonfinal_ref(*self).uuid,
    {
        match self {
            UmlStateMachineNonFinalNode::CompositeState(u) => *u,
            UmlStateMachineNonFinalNode::SimpleState(u) => *u,
            UmlStateMachineNonFinalNode::InitialPseudostate(u) => *u,
        }
    }
}

impl UmlStateMachineNonInitialNode {
    /// The uuid of the referenced node.
    pub fn uuid(&self) -> (r: ModelUuid)
        ensures
            r == noninitial_ref(*self).uuid,
    {
        match self {
            UmlStateMachineNonInitialNode::CompositeState(u) => *u,
            UmlStateMachineNonInitialNode::SimpleState(u) => *u,
            UmlStateMachineNonInitialNode::TerminatePseudostate(u) => *u,
            UmlStateMachineNonInitialNode::FinalState(u) => *u,
        }
    }
}

impl UmlStateMachineStandaloneElement {
    /// The uuid of the element.
    pub fn uuid(&self) -> (r: ModelUuid)
        ensures
            r == standalone_tree(*self).uuid,
    {
        match self {
            UmlStateMachineStandaloneElement::StateMachine(x) => x.uuid,
            UmlStateMachineStandaloneElement::CompositeState(x) => x.uuid,
            UmlStateMachineStandaloneElement::SimpleState(x) => x.uuid,
            UmlStateMachineStandaloneElement::InitialPseudostate(x) => x.uuid,
            UmlStateMachineStandaloneElement::TerminatePseudostate(x) => x.uuid,
            UmlStateMachineStandaloneElement::FinalState(x) => x.uuid,
            UmlStateMachineStandaloneElement::Edge(x) => x.uuid,
            UmlStateMachineStandaloneElement::Note(x) => x.uuid,
            UmlStateMachineStandaloneElement::NoteLink(x) => x.uuid,
        }
    }
}

impl UmlStateMachineElement {
    /// The uuid of the element.
    pub fn uuid(&self) -> (r: ModelUuid)
        ensures
            r == element_tree(*self).uuid,
    {
        match self {
            UmlStateMachineElement::StateMachine(x) => x.uuid,
            UmlStateMachineElement::CompositeState(x) => x.uuid,
            UmlStateMachineElement::CompositeStateRegion(x) => x.uuid,
            UmlStateMachineElement::SimpleState(x) => x.uuid,
            UmlStateMachineElement::InternalTransition(x) => x.uuid,
            UmlStateMachineElement::InitialPseudostate(x) => x.uuid,
            UmlStateMachineElement::TerminatePseudostate(x) => x.uuid,
            UmlStateMachineElement::FinalState(x) => x.uuid,
            UmlStateMachineElement::Edge(x) => x.uuid,
            UmlStateMachineElement::Note(x) => x.uuid,
            UmlStateMachineElement::NoteLink(x) => x.uuid,
        }
    }
}

} // verus!

verus! {

impl UmlStateMachineStandaloneElement {
    /// The same element, as an element of any kind.
    pub fn to_element(self) -> (r: UmlStateMachineElement)
        ensures
            element_tree(r) == standalone_tree(self),
    {
        match self {
            UmlStateMachineStandaloneElement::StateMachine(x) => UmlStateMachineElement::StateMachine(x),
            UmlStateMachineStandaloneElement::CompositeState(x) => UmlStateMachineElement::CompositeState(x),
            UmlStateMachineStandaloneElement::SimpleState(x) => UmlStateMachineElement::SimpleState(x),
            UmlStateMachineStandaloneElement::InitialPseudostate(x) => UmlStateMachineElement::InitialPseudostate(x),
            UmlStateMachineStandaloneElement::TerminatePseudostate(x) => UmlStateMachineElement::TerminatePseudostate(x),
            UmlStateMachineStandaloneElement::FinalState(x) => UmlStateMachineElement::FinalState(x),
            UmlStateMachineStandaloneElement::Edge(x) => UmlStateMachineElement::Edge(x),
            UmlStateMachineStandaloneElement::Note(x) => UmlStateMachineElement::Note(x),
            UmlStateMachineStandaloneElement::NoteLink(x) => UmlStateMachineElement::NoteLink(x),
        }
    }
}

impl UmlStateMachineElement {
    /// The kind of the element.
    pub fn kind(&self) -> (r: ElementKind)
        ensures
            r == element_tree(*self).kind,
    {
        match self {
            UmlStateMachineElement::StateMachine(_) => ElementKind::StateMachine,
            UmlStateMachineElement::CompositeState(_) => ElementKind::CompositeState,
            UmlStateMachineElement::CompositeStateRegion(_) => ElementKind::CompositeStateRegion,
            UmlStateMachineElement::SimpleState(_) => ElementKind::SimpleState,
            UmlStateMachineElement::InternalTransition(_) => ElementKind::InternalTransition,
            UmlStateMachineElement::InitialPseudostate(_) => ElementKind::InitialPseudostate,
            UmlStateMachineElement::TerminatePseudostate(_) => ElementKind::TerminatePseudostate,
            UmlStateMachineElement::FinalState(_) => ElementKind::FinalState,
            UmlStateMachineElement::Edge(_) => ElementKind::Edge,
            UmlStateMachineElement::Note(_) => ElementKind::Note,
            UmlStateMachineElement::NoteLink(_) => ElementKind::NoteLink,
        }
    }

    /// The typed reference to the element.
    pub fn element_ref(&self) -> (r: UmlStateMachineElementRef)
        ensures
            r == tree_ref(element_tree(*self)),
    {
        UmlStateMachineElementRef { kind: self.kind(), uuid: self.uuid() }
    }

    /// The element as one that may stand directly inside a diagram, a state
    /// machine or a region; the element itself when it may not.
    pub fn into_standalone(self) -> (r: Result<UmlStateMachineStandaloneElement, UmlStateMachineElement>)
        ensures
            match r {
                Ok(s) => is_standalone_kind(element_tree(self).kind) && standalone_tree(s) == element_tree(self),
                Err(e) => !is_standalone_kind(element_tree(self).kind) && e == self,
            },
    {
        match self {
            UmlStateMachineElement::StateMachine(x) => Ok(UmlStateMachineStandaloneElement::StateMachine(x)),
            UmlStateMachineElement::CompositeState(x) => Ok(UmlStateMachineStandaloneElement::CompositeState(x)),
            UmlStateMachineElement::CompositeStateRegion(x) => Err(UmlStateMachineElement::CompositeStateRegion(x)),
            UmlStateMachineElement::SimpleState(x) => Ok(UmlStateMachineStandaloneElement::SimpleState(x)),
            UmlStateMachineElement::InternalTransition(x) => Err(UmlStateMachineElement::InternalTransition(x)),
            UmlStateMachineElement::InitialPseudostate(x) => Ok(UmlStateMachineStandaloneElement::InitialPseudostate(x)),
            UmlStateMachineElement::TerminatePseudostate(x) => Ok(UmlStateMachineStandaloneElement::TerminatePseudostate(x)),
            UmlStateMachineElement::FinalState(x) => Ok(UmlStateMachineStandaloneElement::FinalState(x)),
            UmlStateMachineElement::Edge(x) => Ok(UmlStateMachineStandaloneElement::Edge(x)),
            UmlStateMachineElement::Note(x) => Ok(UmlStateMachineStandaloneElement::Note(x)),
            UmlStateMachineElement::NoteLink(x) => Ok(UmlStateMachineStandaloneElement::NoteLink(x)),
        }
    }

    /// The element as a possible source of a transition.
    pub fn as_nonfinal(&self) -> (r: Option<UmlStateMachineNonFinalNode>)
        ensures
            match r {
                Some(n) => is_nonfinal_kind(element_tree(*self).kind) && nonfinal_ref(n) == tree_ref(element_tree(*self)),
                None => !is_nonfinal_kind(element_tree(*self).kind),
            },
    {
        match self {
            UmlStateMachineElement::CompositeState(x) => Some(UmlStateMachineNonFinalNode::CompositeState(x.uuid)),
            UmlStateMachineElement::SimpleState(x) => Some(UmlStateMachineNonFinalNode::SimpleState(x.uuid)),
            UmlStateMachineElement::InitialPseudostate(x) => Some(UmlStateMachineNonFinalNode::InitialPseudostate(x.uuid)),
            _ => None,
        }
    }

    /// The element as a possible target of a transition.
    pub fn as_noninitial(&self) -> (r: Option<UmlStateMachineNonInitialNode>)
        ensures
            match r {
                Some(n) => is_noninitial_kind(element_tree(*self).kind) && noninitial_ref(n) == tree_ref(element_tree(*self)),
                None => !is_noninitial_kind(element_tree(*self).kind),
            },
    {
        match self {
            UmlStateMachineElement::CompositeState(x) => Some(UmlStateMachineNonInitialNode::CompositeState(x.uuid)),
            UmlStateMachineElement::SimpleState(x) => Some(UmlStateMachineNonInitialNode::SimpleState(x.uuid)),
            UmlStateMachineElement::TerminatePseudostate(x) => Some(UmlStateMachineNonInitialNode::TerminatePseudostate(x.uuid)),
            UmlStateMachineElement::FinalState(x) => Some(UmlStateMachineNonInitialNode::FinalState(x.uuid)),
            _ => None,
        }
    }
}

impl UmlStateMachineNonFinalNode {
    /// The reference to the node, as a reference to an element.
    pub fn to_element(self) -> (r: UmlStateMachineElementRef)
        ensures
            r == nonfinal_ref(self),
    {
        match self {
            UmlStateMachineNonFinalNode::CompositeState(u) => UmlStateMachineElementRef { kind: ElementKind::CompositeState, uuid: u },
            UmlStateMachineNonFinalNode::SimpleState(u) => UmlStateMachineElementRef { kind: ElementKind::SimpleState, uuid: u },
            UmlStateMachineNonFinalNode::InitialPseudostate(u) => UmlStateMachineElementRef { kind: ElementKind::InitialPseudostate, uuid: u },
        }
    }
}

impl UmlStateMachineNonInitialNode {
    /// The reference to the node, as a reference to an element.
    pub fn to_element(self) -> (r: UmlStateMachineElementRef)
        ensures
            r == noninitial_ref(self),
    {
        match self {
            UmlStateMachineNonInitialNode::CompositeState(u) => UmlStateMachineElementRef { kind: ElementKind::CompositeState, uuid: u },
            UmlStateMachineNonInitialNode::SimpleState(u) => UmlStateMachineElementRef { kind: ElementKind::SimpleState, uuid: u },
            UmlStateMachineNonInitialNode::TerminatePseudostate(u) => UmlStateMachineElementRef { kind: ElementKind::TerminatePseudostate, uuid: u },
            UmlStateMachineNonInitialNode::FinalState(u) => UmlStateMachineElementRef { kind: ElementKind::FinalState, uuid: u },
        }
    }
}

} // verus!
