use vstd::prelude::*;

use crate::adapters::{
    color_changed, composite_changed, composite_undo, diagram_changed, diagram_undo, edge_changed, edge_undo, flipped,
    machine_changed, machine_undo, note_changed, note_undo, transition_changed, transition_undo,
};
use crate::changes::{merges_with, opposite, MGlobalColor, PropChangeModel, UmlStateMachineOrdinalMovement};
use crate::containers::position_in;
use crate::find_spec::{find_in, first_index, first_position, lemma_first_index_found};
use crate::ids::ModelUuid;
use crate::reorder::{move_fits, moved, moved_within};
use crate::model::{is_nonfinal_kind, is_noninitial_kind, DiagramTree, ElementKind, ElementTree};

verus! {

/// Moving up undoes moving down and the other way round: the inverse of the
/// inverse is the move itself, and no move is its own inverse.
pub proof fn law_inverse_is_involution(m: UmlStateMachineOrdinalMovement)
    ensures
        opposite(opposite(m)) == m,
        opposite(m) != m,
{
}

/// A change of a textual property merged with a newer change of the same
/// property has the effect of both, applied in order, on a diagram.
pub proof fn law_merge_diagram(d: DiagramTree, bg: MGlobalColor, older: PropChangeModel, newer: PropChangeModel)
    requires
        merges_with(older, newer),
    ensures
        diagram_changed(diagram_changed(d, older), newer) == diagram_changed(d, newer),
        color_changed(color_changed(bg, older), newer) == color_changed(bg, newer),
{
    assert(diagram_changed(diagram_changed(d, older), newer) =~= diagram_changed(d, newer));
}

/// The same, on a state machine.
pub proof fn law_merge_machine(t: ElementTree, bg: MGlobalColor, older: PropChangeModel, newer: PropChangeModel)
    requires
        t.kind == ElementKind::StateMachine,
        t.texts.len() == 3,
        merges_with(older, newer),
    ensures
        machine_changed(machine_changed(t, older), newer) == machine_changed(t, newer),
        color_changed(color_changed(bg, older), newer) == color_changed(bg, newer),
{
    assert(machine_changed(machine_changed(t, older), newer) =~= machine_changed(t, newer));
}

/// The same, on a transition.
pub proof fn law_merge_edge(t: ElementTree, older: PropChangeModel, newer: PropChangeModel)
    requires
        t.kind == ElementKind::Edge,
        t.texts.len() == 1,
        merges_with(older, newer),
    ensures
        edge_changed(edge_changed(t, older), newer) == edge_changed(t, newer),
{
    assert(edge_changed(edge_changed(t, older), newer) =~= edge_changed(t, newer));
}

/// Applying the change recorded for undo after a change of a diagram's
/// properties restores the diagram and its color; a change for which nothing
/// is recorded changes nothing.
pub proof fn law_undo_diagram_change(d: DiagramTree, bg: MGlobalColor, c: PropChangeModel)
    ensures
        match diagram_undo(d, bg, c) {
            Some(u) => diagram_changed(diagram_changed(d, c), u) == d && color_changed(color_changed(bg, c), u) == bg,
            None => diagram_changed(d, c) == d && color_changed(bg, c) == bg,
        },
{
    assert(diagram_changed(d, c) =~= d || diagram_undo(d, bg, c) is Some);
    if let Some(u) = diagram_undo(d, bg, c) {
        assert(diagram_changed(diagram_changed(d, c), u) =~= d);
    }
}

/// The same for a state machine, whose textual properties are its
/// stereotype, name and comment.
pub proof fn law_undo_machine_change(t: ElementTree, bg: MGlobalColor, c: PropChangeModel)
    requires
        t.kind == ElementKind::StateMachine,
        t.texts.len() == 3,
    ensures
        match machine_undo(t, bg, c) {
            Some(u) => machine_changed(machine_changed(t, c), u) == t && color_changed(color_changed(bg, c), u) == bg,
            None => machine_changed(t, c) == t && color_changed(bg, c) == bg,
        },
{
    if let Some(u) = machine_undo(t, bg, c) {
        assert(machine_changed(machine_changed(t, c), u) =~= t);
    }
}

/// The same for a transition, whose textual property is its name.
pub proof fn law_undo_edge_change(t: ElementTree, c: PropChangeModel)
    requires
        t.kind == ElementKind::Edge,
        t.texts.len() == 1,
    ensures
        match edge_undo(t, c) {
            Some(u) => edge_changed(edge_changed(t, c), u) == t,
            None => edge_changed(t, c) == t,
        },
{
    if let Some(u) = edge_undo(t, c) {
        assert(edge_changed(edge_changed(t, c), u) =~= t);
    }
}

/// Swapping the source and the target of a transition twice gives the
/// transition back: once the first swap is accepted, so is the second.
pub proof fn law_flip_twice(t: ElementTree)
    requires
        t.kind == ElementKind::Edge,
        t.links.len() == 2,
        is_nonfinal_kind(t.links[0].kind),
        is_noninitial_kind(t.links[1].kind),
        flipped(t) is Some,
    ensures
        flipped(flipped(t)->Some_0) == Some(t),
{
    let f = flipped(t)->Some_0;
    assert(ElementTree { links: seq![f.links[1], f.links[0]], ..f } =~= t);
}

/// The element at the reported bucket and position.
pub open spec fn child_at(d: DiagramTree, parent: ModelUuid, b: int, i: int) -> ElementTree {
    if parent == d.uuid {
        d.elements[i]
    } else {
        find_in(d.uuid, d.elements, parent)->Some_0.0.buckets[b][i]
    }
}

pub proof fn lemma_first_position_found(bs: Seq<Seq<ElementTree>>, u: ModelUuid)
    ensures
        first_position(bs, u) matches Some((b, i)) ==> 0 <= b < bs.len() && 0 <= i < bs[b].len() && bs[b][i].uuid == u,
    decreases bs.len(),
{
    if bs.len() > 0 {
        lemma_first_position_found(bs.drop_last(), u);
        lemma_first_index_found(bs.last(), u);
    }
}

/// A position that the diagram reports for `u` inside `parent` holds the
/// element `u`.
pub proof fn law_reported_position_holds_element(d: DiagramTree, parent: ModelUuid, u: ModelUuid)
    ensures
        position_in(d, parent, u) matches Some((b, i)) ==> child_at(d, parent, b, i).uuid == u,
{
    if parent == d.uuid {
        lemma_first_index_found(d.elements, u);
    } else if let Some((t, _)) = find_in(d.uuid, d.elements, parent) {
        lemma_first_position_found(t.buckets, u);
    }
}

/// Moving a region to a position and then moving it back to where it stood
/// gives the composite state back, when no other region shares its uuid;
/// both moves can be carried out.
pub proof fn law_move_back(t: ElementTree, u: ModelUuid, i: int, p: int)
    requires
        t.kind == ElementKind::CompositeState,
        t.buckets.len() == 3,
        first_index(t.buckets[2], u) == Some(i),
        0 <= p < t.buckets[2].len(),
        forall|j: int| 0 <= j < t.buckets[2].len() && j != i ==> (#[trigger] t.buckets[2][j]).uuid != u,
    ensures
        move_fits(t, 2, u, p),
        move_fits(moved_within(t, 2, u, p), 2, u, i),
        moved_within(moved_within(t, 2, u, p), 2, u, i) == t,
{
    let s = t.buckets[2];
    lemma_first_index_found(s, u);
    let m = moved(s, i, p);
    let r = s.remove(i);
    assert(m == r.insert(p, s[i]));
    assert(m[p] == s[i]);
    assert forall|j: int| 0 <= j < m.len() && j != p implies (#[trigger] m[j]).uuid != u by {
        if j < p {
            assert(m[j] == r[j]);
        } else {
            assert(m[j] == r[j - 1]);
        }
    }
    lemma_first_index_found(m, u);
    assert(first_index(m, u) == Some(p));
    let t2 = moved_within(t, 2, u, p);
    assert(t2.buckets[2] == m);
    assert(m.remove(p) =~= r);
    assert(moved(m, p, i) =~= s);
    assert(t2.buckets.update(2, moved(m, p, i)) =~= t.buckets);
    assert(moved_within(t2, 2, u, i) =~= t);
}

/// Applying the change recorded for undo after a change of a composite
/// state's stereotype or name restores the state; other changes change
/// nothing.
pub proof fn law_undo_composite_change(t: ElementTree, c: PropChangeModel)
    requires
        t.kind == ElementKind::CompositeState,
        t.texts.len() == 2,
    ensures
        match composite_undo(t, c) {
            Some(u) => composite_changed(composite_changed(t, c), u) == t,
            None => composite_changed(t, c) == t,
        },
{
    if let Some(u) = composite_undo(t, c) {
        assert(composite_changed(composite_changed(t, c), u) =~= t);
    }
}

/// The same for an internal transition, whose trigger, guard and behavior
/// can change.
pub proof fn law_undo_transition_change(t: ElementTree, c: PropChangeModel)
    requires
        t.kind == ElementKind::InternalTransition,
        t.texts.len() == 3,
    ensures
        match transition_undo(t, c) {
            Some(u) => transition_changed(transition_changed(t, c), u) == t,
            None => transition_changed(t, c) == t,
        },
{
    if let Some(u) = transition_undo(t, c) {
        assert(transition_changed(transition_changed(t, c), u) =~= t);
    }
}

/// The same for a note, whose stereotype and text can change.
pub proof fn law_undo_note_change(t: ElementTree, c: PropChangeModel)
    requires
        t.kind == ElementKind::Note,
        t.texts.len() == 2,
    ensures
        match note_undo(t, c) {
            Some(u) => note_changed(note_changed(t, c), u) == t,
            None => note_changed(t, c) == t,
        },
{
    if let Some(u) = note_undo(t, c) {
        assert(note_changed(note_changed(t, c), u) =~= t);
    }
}

/// A change of a transition's trigger, guard or behavior merged with a newer
/// change of the same property has the effect of both, applied in order.
pub proof fn law_merge_transition(t: ElementTree, older: PropChangeModel, newer: PropChangeModel)
    requires
        t.kind == ElementKind::InternalTransition,
        t.texts.len() == 3,
        merges_with(older, newer),
    ensures
        transition_changed(transition_changed(t, older), newer) == transition_changed(t, newer),
{
    assert(transition_changed(transition_changed(t, older), newer) =~= transition_changed(t, newer));
}

/// The same for a composite state.
pub proof fn law_merge_composite(t: ElementTree, older: PropChangeModel, newer: PropChangeModel)
    requires
        t.kind == ElementKind::CompositeState,
        t.texts.len() == 2,
        merges_with(older, newer),
    ensures
        composite_changed(composite_changed(t, older), newer) == composite_changed(t, newer),
{
    assert(composite_changed(composite_changed(t, older), newer) =~= composite_changed(t, newer));
}

/// The same for a note.
pub proof fn law_merge_note(t: ElementTree, older: PropChangeModel, newer: PropChangeModel)
    requires
        t.kind == ElementKind::Note,
        t.texts.len() == 2,
        merges_with(older, newer),
    ensures
        note_changed(note_changed(t, older), newer) == note_changed(t, newer),
{
    assert(note_changed(note_changed(t, older), newer) =~= note_changed(t, newer));
}

} // verus!
