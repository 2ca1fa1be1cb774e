use vstd::prelude::*;

use crate::adapters::{
    color_changed, composite_changed, composite_undo, diagram_changed, diagram_undo, edge_changed, edge_undo,
    machine_changed, machine_undo, note_changed, note_undo, transition_changed, transition_undo,
};
use crate::changes::{merges_with, MGlobalColor, PropChangeModel};
use crate::labels::element_label;
use crate::model::{
    composite_tree, edge_tree, machine_tree, note_tree, transition_tree, DiagramTree, ElementKind, ElementTree,
    UmlStateMachine, UmlStateMachineCompositeState, UmlStateMachineEdge, UmlStateMachineInternalTransition,
    UmlStateMachineNote,
};

verus! {

// ---------------------------------------------------------------------------
// What a property change does, property by property
// ---------------------------------------------------------------------------

/// A change of a diagram's name or comment sets that property to the given
/// text, leaves everything else of the diagram as it was, and records the
/// previous value; a change of its color (slot 0) sets the color and records
/// the previous one; any other change leaves the diagram and its color
/// alone and records nothing.
pub proof fn law_diagram_change_sets_the_property(d: DiagramTree, bg: MGlobalColor, c: PropChangeModel)
    ensures
        c matches PropChangeModel::Name(s) ==> {
            &&& diagram_changed(d, c).name == s
            &&& diagram_changed(d, c).comment == d.comment
            &&& diagram_changed(d, c).uuid == d.uuid
            &&& diagram_changed(d, c).elements == d.elements
            &&& color_changed(bg, c) == bg
            &&& diagram_undo(d, bg, c) == Some(PropChangeModel::Name(d.name))
        },
        c matches PropChangeModel::Comment(s) ==> {
            &&& diagram_changed(d, c).comment == s
            &&& diagram_changed(d, c).name == d.name
            &&& diagram_changed(d, c).uuid == d.uuid
            &&& diagram_changed(d, c).elements == d.elements
            &&& color_changed(bg, c) == bg
            &&& diagram_undo(d, bg, c) == Some(PropChangeModel::Comment(d.comment))
        },
        c matches PropChangeModel::Color(slot, col) ==> {
            &&& diagram_changed(d, c) == d
            &&& color_changed(bg, c) == (if slot == 0 { col } else { bg })
            &&& diagram_undo(d, bg, c) == (if slot == 0 { Some(PropChangeModel::Color(0, bg)) } else { None })
        },
        !(c is Name || c is Comment || c is Color) ==> diagram_changed(d, c) == d && color_changed(bg, c) == bg
            && diagram_undo(d, bg, c) is None,
{
}

/// A change of a state machine's stereotype, name, comment or protocol flag
/// sets that property to the given value, leaves the other properties and
/// the content as they were, and records the previous value; a change of
/// its color (slot 0) sets the color and records the previous one; any
/// other change leaves it alone and records nothing.
pub proof fn law_machine_change_sets_the_property(m: UmlStateMachine, bg: MGlobalColor, c: PropChangeModel)
    ensures
        ({
            let t = machine_tree(m);
            let r = machine_changed(t, c);
            &&& r.kind == t.kind && r.uuid == m.uuid && r.buckets == t.buckets && r.links == t.links
            &&& c matches PropChangeModel::Stereotype(s) ==> r.texts == seq![s, m.name@, m.comment@] && r.flag
                == m.is_protocol && machine_undo(t, bg, c) == Some(PropChangeModel::Stereotype(m.stereotype@))
            &&& c matches PropChangeModel::Name(s) ==> r.texts == seq![m.stereotype@, s, m.comment@] && r.flag
                == m.is_protocol && machine_undo(t, bg, c) == Some(PropChangeModel::Name(m.name@))
            &&& c matches PropChangeModel::Comment(s) ==> r.texts == seq![m.stereotype@, m.name@, s] && r.flag
                == m.is_protocol && machine_undo(t, bg, c) == Some(PropChangeModel::Comment(m.comment@))
            &&& c matches PropChangeModel::IsProtocol(b) ==> r.texts == t.texts && r.flag == b && machine_undo(t, bg, c)
                == Some(PropChangeModel::IsProtocol(m.is_protocol))
            &&& c matches PropChangeModel::Color(slot, col) ==> r == t && color_changed(bg, c) == (if slot == 0 {
                col
            } else {
                bg
            }) && machine_undo(t, bg, c) == (if slot == 0 {
                Some(PropChangeModel::Color(0, bg))
            } else {
                None
            })
            &&& !(c is Stereotype || c is Name || c is Comment || c is IsProtocol || c is Color) ==> r == t
                && color_changed(bg, c) == bg && machine_undo(t, bg, c) is None
            &&& !(c is Color) ==> color_changed(bg, c) == bg
        }),
{
    let t = machine_tree(m);
    let r = machine_changed(t, c);
    match c {
        PropChangeModel::Stereotype(s) => assert(r.texts =~= seq![s, m.name@, m.comment@]),
        PropChangeModel::Name(s) => assert(r.texts =~= seq![m.stereotype@, s, m.comment@]),
        PropChangeModel::Comment(s) => assert(r.texts =~= seq![m.stereotype@, m.name@, s]),
        _ => {},
    }
}

/// A change of a composite state's stereotype or name sets that property to
/// the given text, leaves the other one, its uuid and its content as they
/// were, and records the previous value; any other change leaves it alone
/// and records nothing.
pub proof fn law_composite_change_sets_the_property(x: UmlStateMachineCompositeState, c: PropChangeModel)
    ensures
        ({
            let t = composite_tree(x);
            let r = composite_changed(t, c);
            &&& r.kind == t.kind && r.uuid == x.uuid && r.buckets == t.buckets && r.links == t.links && r.flag
                == t.flag
            &&& c matches PropChangeModel::Stereotype(s) ==> r.texts == seq![s, x.name@] && composite_undo(t, c) == Some(
                PropChangeModel::Stereotype(x.stereotype@),
            )
            &&& c matches PropChangeModel::Name(s) ==> r.texts == seq![x.stereotype@, s] && composite_undo(t, c) == Some(
                PropChangeModel::Name(x.name@),
            )
            &&& !(c is Stereotype || c is Name) ==> r == t && composite_undo(t, c) is None
        }),
{
    let t = composite_tree(x);
    let r = composite_changed(t, c);
    match c {
        PropChangeModel::Stereotype(s) => assert(r.texts =~= seq![s, x.name@]),
        PropChangeModel::Name(s) => assert(r.texts =~= seq![x.stereotype@, s]),
        _ => {},
    }
}

/// A change of an internal transition's trigger (its name), guard or
/// behavior sets that property to the given text, leaves the other two as
/// they were, and records the previous value; any other change leaves it
/// alone and records nothing.
pub proof fn law_transition_change_sets_the_property(x: UmlStateMachineInternalTransition, c: PropChangeModel)
    ensures
        ({
            let t = transition_tree(x);
            let r = transition_changed(t, c);
            &&& r.kind == t.kind && r.uuid == x.uuid && r.buckets == t.buckets && r.links == t.links
            &&& c matches PropChangeModel::Name(s) ==> r.texts == seq![s, x.guard@, x.behavior@] && transition_undo(t, c)
                == Some(PropChangeModel::Name(x.trigger@))
            &&& c matches PropChangeModel::TransitionGuard(s) ==> r.texts == seq![x.trigger@, s, x.behavior@]
                && transition_undo(t, c) == Some(PropChangeModel::TransitionGuard(x.guard@))
            &&& c matches PropChangeModel::TransitionBehavior(s) ==> r.texts == seq![x.trigger@, x.guard@, s]
                && transition_undo(t, c) == Some(PropChangeModel::TransitionBehavior(x.behavior@))
            &&& !(c is Name || c is TransitionGuard || c is TransitionBehavior) ==> r == t && transition_undo(t, c) is None
        }),
{
    let t = transition_tree(x);
    let r = transition_changed(t, c);
    match c {
        PropChangeModel::Name(s) => assert(r.texts =~= seq![s, x.guard@, x.behavior@]),
        PropChangeModel::TransitionGuard(s) => assert(r.texts =~= seq![x.trigger@, s, x.behavior@]),
        PropChangeModel::TransitionBehavior(s) => assert(r.texts =~= seq![x.trigger@, x.guard@, s]),
        _ => {},
    }
}

/// A change of a note's stereotype or text (its name) sets that property to
/// the given text, leaves the other one as it was, and records the previous
/// value; any other change leaves it alone and records nothing.
pub proof fn law_note_change_sets_the_property(x: UmlStateMachineNote, c: PropChangeModel)
    ensures
        ({
            let t = note_tree(x);
            let r = note_changed(t, c);
            &&& r.kind == t.kind && r.uuid == x.uuid && r.buckets == t.buckets && r.links == t.links
            &&& c matches PropChangeModel::Stereotype(s) ==> r.texts == seq![s, x.text@] && note_undo(t, c) == Some(
                PropChangeModel::Stereotype(x.stereotype@),
            )
            &&& c matches PropChangeModel::Name(s) ==> r.texts == seq![x.stereotype@, s] && note_undo(t, c) == Some(
                PropChangeModel::Name(x.text@),
            )
            &&& !(c is Stereotype || c is Name) ==> r == t && note_undo(t, c) is None
        }),
{
    let t = note_tree(x);
    let r = note_changed(t, c);
    match c {
        PropChangeModel::Stereotype(s) => assert(r.texts =~= seq![s, x.text@]),
        PropChangeModel::Name(s) => assert(r.texts =~= seq![x.stereotype@, s]),
        _ => {},
    }
}

/// A change of a transition's name sets its name to the given text, leaves
/// its endpoints as they were, and records the previous name; any other
/// change leaves it alone and records nothing.
pub proof fn law_edge_change_sets_the_property(x: UmlStateMachineEdge, c: PropChangeModel)
    ensures
        ({
            let t = edge_tree(x);
            let r = edge_changed(t, c);
            &&& r.kind == t.kind && r.uuid == x.uuid && r.links == t.links && r.buckets == t.buckets
            &&& c matches PropChangeModel::Name(s) ==> r.texts == seq![s] && edge_undo(t, c) == Some(
                PropChangeModel::Name(x.name@),
            )
            &&& !(c is Name) ==> r == t && edge_undo(t, c) is None
        }),
{
    let t = edge_tree(x);
    let r = edge_changed(t, c);
    if let PropChangeModel::Name(s) = c {
        assert(r.texts =~= seq![s]);
    }
}

// ---------------------------------------------------------------------------
// Merging changes
// ---------------------------------------------------------------------------

/// Two changes of the same textual property (name, stereotype, guard,
/// behavior or comment) always merge, whatever their texts.
pub proof fn law_text_changes_of_one_property_merge(a: Seq<char>, b: Seq<char>)
    ensures
        merges_with(PropChangeModel::Name(a), PropChangeModel::Name(b)),
        merges_with(PropChangeModel::Stereotype(a), PropChangeModel::Stereotype(b)),
        merges_with(PropChangeModel::TransitionGuard(a), PropChangeModel::TransitionGuard(b)),
        merges_with(PropChangeModel::TransitionBehavior(a), PropChangeModel::TransitionBehavior(b)),
        merges_with(PropChangeModel::Comment(a), PropChangeModel::Comment(b)),
{
}

/// Only changes of one and the same textual property merge: changes of two
/// different properties, and changes of the protocol flag, of a color, of
/// the alignment of a note or flips, never do.
pub proof fn law_only_one_property_merges(older: PropChangeModel, newer: PropChangeModel)
    ensures
        merges_with(older, newer) ==> {
            &&& !(older is IsProtocol || older is Flip || older is Color || older is NoteAlign)
            &&& (older is Name) == (newer is Name)
            &&& (older is Stereotype) == (newer is Stereotype)
            &&& (older is TransitionGuard) == (newer is TransitionGuard)
            &&& (older is TransitionBehavior) == (newer is TransitionBehavior)
            &&& (older is Comment) == (newer is Comment)
        },
{
}

// ---------------------------------------------------------------------------
// Labels
// ---------------------------------------------------------------------------

/// A composite state's label starts with "Simple State (" when it has no
/// region and with "Composite State (" otherwise; what follows the head does
/// not depend on which head is used.
pub proof fn law_composite_label_head(x: UmlStateMachineCompositeState, y: UmlStateMachineCompositeState, ns: Seq<char>)
    requires
        x.name@ == y.name@,
        x.stereotype@ == y.stereotype@,
        x.regions@.len() == 0,
        y.regions@.len() > 0,
    ensures
        element_label(composite_tree(x), ns).take(14) == "Simple State ("@,
        element_label(composite_tree(y), ns).take(17) == "Composite State ("@,
        element_label(composite_tree(x), ns).skip(14) == element_label(composite_tree(y), ns).skip(17),
{
    reveal_strlit("Simple State (");
    reveal_strlit("Composite State (");
    let lx = element_label(composite_tree(x), ns);
    let ly = element_label(composite_tree(y), ns);
    assert(composite_tree(x).buckets[2].len() == 0);
    assert(composite_tree(y).buckets[2].len() > 0);
    let rest = lx.skip(14);
    assert(lx.take(14) =~= "Simple State ("@);
    assert(ly.take(17) =~= "Composite State ("@);
    assert(lx.skip(14) =~= ly.skip(17));
}

/// The label of a state machine, a composite state or a simple state with a
/// stereotype is the label of the same element without one, with the
/// stereotype between guillemets inserted before the closing parenthesis,
/// which ends both.
pub proof fn law_label_shows_the_stereotype(t: ElementTree, u: ElementTree, ns: Seq<char>)
    requires
        t.kind == ElementKind::StateMachine || t.kind == ElementKind::CompositeState || t.kind
            == ElementKind::SimpleState,
        t.texts.len() >= 2,
        u == (ElementTree { texts: t.texts.update(0, Seq::empty()), ..t }),
        t.texts[0].len() > 0,
    ensures
        element_label(u, ns).last() == ')',
        element_label(t, ns) == element_label(u, ns).drop_last() + "«"@ + t.texts[0] + "»"@ + ")"@,
{
    reveal_strlit(")");
    reveal_strlit("«");
    reveal_strlit("»");
    let lt = element_label(t, ns);
    let lu = element_label(u, ns);
    assert(u.texts[1] == t.texts[1]);
    assert(u.texts[0].len() == 0);
    assert(lu.last() == ')');
    assert(lt =~= lu.drop_last() + "«"@ + t.texts[0] + "»"@ + ")"@);
}


/// Without a stereotype, the label of a state machine, a composite state or
/// a simple state is its head and its name followed by a closing
/// parenthesis; the head of a composite state says "Simple State" when it
/// has no region.
pub proof fn law_label_without_stereotype(t: ElementTree, ns: Seq<char>)
    requires
        t.kind == ElementKind::StateMachine || t.kind == ElementKind::CompositeState || t.kind
            == ElementKind::SimpleState,
        t.texts.len() >= 2,
        t.texts[0].len() == 0,
    ensures
        element_label(t, ns) == (if t.kind == ElementKind::StateMachine {
            "State Machine ("@
        } else if t.kind == ElementKind::CompositeState && t.buckets[2].len() > 0 {
            "Composite State ("@
        } else {
            "Simple State ("@
        }) + t.texts[1] + ")"@,
{
    assert(element_label(t, ns) =~= (if t.kind == ElementKind::StateMachine {
        "State Machine ("@
    } else if t.kind == ElementKind::CompositeState && t.buckets[2].len() > 0 {
        "Composite State ("@
    } else {
        "Simple State ("@
    }) + t.texts[1] + ")"@);
}

/// The labels of the other elements: fixed words, with the trigger of an
/// internal transition, the name of a transition when it has one, and the
/// summary of a note's text when it has text.
pub proof fn law_labels_of_other_elements(t: ElementTree, ns: Seq<char>)
    ensures
        t.kind == ElementKind::CompositeStateRegion ==> element_label(t, ns) == "Composite State Region"@,
        t.kind == ElementKind::InternalTransition ==> element_label(t, ns) == "Internal Transition ("@ + t.texts[0]
            + ")"@,
        t.kind == ElementKind::InitialPseudostate ==> element_label(t, ns) == "Initial Pseudostate"@,
        t.kind == ElementKind::TerminatePseudostate ==> element_label(t, ns) == "Terminate Pseudostate"@,
        t.kind == ElementKind::FinalState ==> element_label(t, ns) == "Final State"@,
        t.kind == ElementKind::Edge ==> element_label(t, ns) == (if t.texts[0].len() == 0 {
            "Edge"@
        } else {
            "Edge ("@ + t.texts[0] + ")"@
        }),
        t.kind == ElementKind::Note ==> element_label(t, ns) == (if t.texts[1].len() == 0 {
            "Note"@
        } else {
            "Note ("@ + ns + ")"@
        }),
        t.kind == ElementKind::NoteLink ==> element_label(t, ns) == "Note Link"@,
{
    reveal_strlit("Edge");
    reveal_strlit("Edge (");
    reveal_strlit(" (");
    if t.kind == ElementKind::Edge {
        if t.texts[0].len() == 0 {
            assert(element_label(t, ns) =~= "Edge"@);
        } else {
            assert(element_label(t, ns) =~= "Edge ("@ + t.texts[0] + ")"@);
        }
    }
}

} // verus!
