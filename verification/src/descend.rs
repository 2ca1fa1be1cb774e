use vstd::prelude::*;

use crate::containers::{find_below_standalone, position_view};
use crate::find_spec::{
    find_below, find_in, first_position, lemma_find_in_prefix, lemma_find_in_step, lemma_find_one_bucket,
    lemma_find_three_buckets,
};
use crate::tree::lemma_take_all;
use crate::ids::{BucketNoT, ModelUuid, PositionNoT};
use crate::model::{
    composite_tree, element_tree, machine_tree, region_tree, region_trees, simple_tree, standalone_tree,
    standalone_trees, transition_trees, ElementTree, UmlStateMachine, UmlStateMachineCompositeState,
    UmlStateMachineCompositeStateRegion, UmlStateMachineElement, UmlStateMachineInternalTransition,
    UmlStateMachineSimpleState, UmlStateMachineStandaloneElement,
};
use crate::update_spec::{
    is_container_kind, lemma_update_found_at, lemma_update_one_bucket, lemma_update_three_buckets, placement,
    placing, taking, update_below, update_found,
};

verus! {

/// An edit of the children of one container.
pub enum ContainerEdit {
    Insert { bucket: BucketNoT, position: Option<PositionNoT>, element: UmlStateMachineElement },
    Remove { uuid: ModelUuid },
}

/// What a container answers to an edit.
pub enum EditOutcome {
    Inserted(Result<PositionNoT, UmlStateMachineElement>),
    Removed(Option<(BucketNoT, PositionNoT)>),
}

/// The effect of an edit on the container it is applied to.
pub open spec fn edit_fn(op: ContainerEdit) -> spec_fn(ElementTree) -> ElementTree {
    match op {
        ContainerEdit::Insert { bucket, position, element } => placing(bucket as int, position, element_tree(element)),
        ContainerEdit::Remove { uuid } => taking(uuid),
    }
}

/// The insertion asked fits in the bucket that receives it.
pub open spec fn insert_fits(t: ElementTree, bucket: int, position: Option<PositionNoT>, c: ElementTree) -> bool {
    placement(t, bucket, position, c.kind) matches Some((b, p)) ==> p <= t.buckets[b].len()
}

pub open spec fn edit_allowed(op: ContainerEdit, t: ElementTree) -> bool {
    match op {
        ContainerEdit::Insert { bucket, position, element } => insert_fits(t, bucket as int, position, element_tree(element)),
        ContainerEdit::Remove { .. } => true,
    }
}

/// The answer of the container `t` to the edit `op`.
pub open spec fn edit_outcome(op: ContainerEdit, t: ElementTree, o: EditOutcome) -> bool {
    match op {
        ContainerEdit::Insert { bucket, position, element } => match placement(
            t,
            bucket as int,
            position,
            element_tree(element).kind,
        ) {
            Some((_, p)) => o matches EditOutcome::Inserted(Ok(q)) && q as int == p,
            None => o == EditOutcome::Inserted(Err(element)),
        },
        ContainerEdit::Remove { uuid } => o matches EditOutcome::Removed(r) && position_view(r) == (if is_container_kind(t.kind) {
            first_position(t.buckets, uuid)
        } else {
            None
        }),
    }
}

proof fn lemma_leaf_edit(op: ContainerEdit, t: ElementTree)
    requires
        !is_container_kind(t.kind),
    ensures
        edit_fn(op)(t) == t,
{
}

fn edit_leaf(op: ContainerEdit, Ghost(t): Ghost<ElementTree>) -> (o: EditOutcome)
    requires
        !is_container_kind(t.kind),
    ensures
        edit_outcome(op, t, o),
{
    match op {
        ContainerEdit::Insert { element, .. } => EditOutcome::Inserted(Err(element)),
        ContainerEdit::Remove { .. } => EditOutcome::Removed(None),
    }
}

fn edit_machine(m: &mut UmlStateMachine, op: ContainerEdit) -> (o: EditOutcome)
    requires
        edit_allowed(op, machine_tree(*old(m))),
    ensures
        machine_tree(*final(m)) == edit_fn(op)(machine_tree(*old(m))),
        edit_outcome(op, machine_tree(*old(m)), o),
{
    match op {
        ContainerEdit::Insert { bucket, position, element } => EditOutcome::Inserted(m.insert_element(bucket, position, element)),
        ContainerEdit::Remove { uuid } => EditOutcome::Removed(m.remove_element(uuid)),
    }
}

fn edit_region(g: &mut UmlStateMachineCompositeStateRegion, op: ContainerEdit) -> (o: EditOutcome)
    requires
        edit_allowed(op, region_tree(*old(g))),
    ensures
        region_tree(*final(g)) == edit_fn(op)(region_tree(*old(g))),
        edit_outcome(op, region_tree(*old(g)), o),
{
    match op {
        ContainerEdit::Insert { bucket, position, element } => EditOutcome::Inserted(g.insert_element(bucket, position, element)),
        ContainerEdit::Remove { uuid } => EditOutcome::Removed(g.remove_element(uuid)),
    }
}

fn edit_composite(c: &mut UmlStateMachineCompositeState, op: ContainerEdit) -> (o: EditOutcome)
    requires
        edit_allowed(op, composite_tree(*old(c))),
    ensures
        composite_tree(*final(c)) == edit_fn(op)(composite_tree(*old(c))),
        edit_outcome(op, composite_tree(*old(c)), o),
{
    match op {
        ContainerEdit::Insert { bucket, position, element } => EditOutcome::Inserted(c.insert_element(bucket, position, element)),
        ContainerEdit::Remove { uuid } => EditOutcome::Removed(c.remove_element(uuid)),
    }
}

fn edit_simple(s: &mut UmlStateMachineSimpleState, op: ContainerEdit) -> (o: EditOutcome)
    requires
        edit_allowed(op, simple_tree(*old(s))),
    ensures
        simple_tree(*final(s)) == edit_fn(op)(simple_tree(*old(s))),
        edit_outcome(op, simple_tree(*old(s)), o),
{
    match op {
        ContainerEdit::Insert { bucket, position, element } => EditOutcome::Inserted(s.insert_element(bucket, position, element)),
        ContainerEdit::Remove { uuid } => EditOutcome::Removed(s.remove_element(uuid)),
    }
}

proof fn lemma_standalone_trees_replace(s: Seq<UmlStateMachineStandaloneElement>, i: int, e: UmlStateMachineStandaloneElement)
    requires
        0 <= i < s.len(),
    ensures
        standalone_trees(s.remove(i).insert(i, e)) == standalone_trees(s).update(i, standalone_tree(e)),
{
    assert(standalone_trees(s.remove(i).insert(i, e)) =~= standalone_trees(s).update(i, standalone_tree(e)));
}

proof fn lemma_region_trees_replace(s: Seq<UmlStateMachineCompositeStateRegion>, i: int, e: UmlStateMachineCompositeStateRegion)
    requires
        0 <= i < s.len(),
    ensures
        region_trees(s.remove(i).insert(i, e)) == region_trees(s).update(i, region_tree(e)),
{
    assert(region_trees(s.remove(i).insert(i, e)) =~= region_trees(s).update(i, region_tree(e)));
}

fn edit_standalone_node(e: UmlStateMachineStandaloneElement, op: ContainerEdit) -> (r: (UmlStateMachineStandaloneElement, EditOutcome))
    requires
        edit_allowed(op, standalone_tree(e)),
    ensures
        standalone_tree(r.0) == edit_fn(op)(standalone_tree(e)),
        edit_outcome(op, standalone_tree(e), r.1),
{
    match e {
        UmlStateMachineStandaloneElement::StateMachine(mut m) => {
            let o = edit_machine(&mut m, op);
            (UmlStateMachineStandaloneElement::StateMachine(m), o)
        },
        UmlStateMachineStandaloneElement::CompositeState(mut c) => {
            let o = edit_composite(&mut c, op);
            (UmlStateMachineStandaloneElement::CompositeState(c), o)
        },
        UmlStateMachineStandaloneElement::SimpleState(mut s) => {
            let o = edit_simple(&mut s, op);
            (UmlStateMachineStandaloneElement::SimpleState(s), o)
        },
        other => {
            proof {
                lemma_leaf_edit(op, standalone_tree(other));
            }
            let o = edit_leaf(op, Ghost(standalone_tree(other)));
            (other, o)
        },
    }
}

/// Applies `op` to the first element with uuid `u` among the standalone
/// elements `v` (children of `parent`) and below them, in the order of
/// `find_in`.
pub(crate) fn edit_in_standalones(parent: ModelUuid, v: Vec<UmlStateMachineStandaloneElement>, u: ModelUuid, op: ContainerEdit) -> (r: (
    Vec<UmlStateMachineStandaloneElement>,
    EditOutcome,
))
    requires
        find_in(parent, standalone_trees(v@), u) matches Some((t, _)) && edit_allowed(op, t),
    ensures
        find_in(parent, standalone_trees(v@), u) matches Some((t, _)) && edit_outcome(op, t, r.1),
        standalone_trees(r.0@) == update_found(parent, standalone_trees(v@), u, edit_fn(op)),
    decreases v,
{
    let ghost ts = standalone_trees(v@);
    let ghost orig = v@;
    let mut w = v;
    let mut i: usize = 0;
    while i < w.len()
        invariant
            0 <= i <= w.len(),
            orig == v@,
            w@ == orig,
            ts == standalone_trees(orig),
            find_in(parent, ts.take(i as int), u) is None,
            find_in(parent, ts, u) matches Some((t, _)) && edit_allowed(op, t),
        decreases w.len() - i,
    {
        proof {
            lemma_find_in_step(parent, ts, i as int, u);
        }
        if w[i].uuid() == u {
            proof {
                lemma_find_in_prefix(parent, ts, i + 1, u);
            }
            let e = w.remove(i);
            assert(e == orig[i as int]);
            let (e2, o) = edit_standalone_node(e, op);
            w.insert(i, e2);
            proof {
                lemma_update_found_at(parent, ts, i as int, u, edit_fn(op));
                lemma_standalone_trees_replace(orig, i as int, e2);
            }
            return (w, o);
        }
        if find_below_standalone(&w[i], u).is_some() {
            proof {
                lemma_find_in_prefix(parent, ts, i + 1, u);
            }
            let e = w.remove(i);
            assert(e == orig[i as int]);
            let (e2, o) = edit_below_standalone(e, u, op);
            w.insert(i, e2);
            proof {
                lemma_update_found_at(parent, ts, i as int, u, edit_fn(op));
                lemma_standalone_trees_replace(orig, i as int, e2);
            }
            return (w, o);
        }
        i = i + 1;
    }
    proof {
        lemma_take_all(ts);
    }
    (w, edit_leaf(op, Ghost(ts[0])))
}

/// Applies `op` to the first element with uuid `u` strictly below `e`.
fn edit_below_standalone(e: UmlStateMachineStandaloneElement, u: ModelUuid, op: ContainerEdit) -> (r: (
    UmlStateMachineStandaloneElement,
    EditOutcome,
))
    requires
        find_below(standalone_tree(e), u) matches Some((t, _)) && edit_allowed(op, t),
    ensures
        find_below(standalone_tree(e), u) matches Some((t, _)) && edit_outcome(op, t, r.1),
        standalone_tree(r.0) == update_below(standalone_tree(e), u, edit_fn(op)),
    decreases e,
{
    match e {
        UmlStateMachineStandaloneElement::StateMachine(m) => {
            proof {
                lemma_find_one_bucket(machine_tree(m), u);
                lemma_update_one_bucket(machine_tree(m), u, edit_fn(op));
            }
            let UmlStateMachine { uuid, stereotype, name, is_protocol, contained_elements, comment } = m;
            let (w, o) = edit_in_standalones(uuid, contained_elements, u, op);
            let m2 = UmlStateMachine { uuid, stereotype, name, is_protocol, contained_elements: w, comment };
            proof {
                assert(machine_tree(m2) =~= update_below(machine_tree(m), u, edit_fn(op)));
            }
            (UmlStateMachineStandaloneElement::StateMachine(m2), o)
        },
        UmlStateMachineStandaloneElement::CompositeState(c) => {
            let (c2, o) = edit_below_composite(c, u, op);
            (UmlStateMachineStandaloneElement::CompositeState(c2), o)
        },
        other => {
            proof {
                assert(false);
            }
            (other, edit_leaf(op, Ghost(standalone_tree(other))))
        },
    }
}

/// Applies `op` to the first element with uuid `u` below the composite state
/// `c`: among its internal transitions, else in its regions.
fn edit_below_composite(c: UmlStateMachineCompositeState, u: ModelUuid, op: ContainerEdit) -> (r: (
    UmlStateMachineCompositeState,
    EditOutcome,
))
    requires
        find_below(composite_tree(c), u) matches Some((t, _)) && edit_allowed(op, t),
    ensures
        find_below(composite_tree(c), u) matches Some((t, _)) && edit_outcome(op, t, r.1),
        composite_tree(r.0) == update_below(composite_tree(c), u, edit_fn(op)),
    decreases c,
{
    let ghost t = composite_tree(c);
    proof {
        lemma_find_three_buckets(t, u);
        lemma_update_three_buckets(t, u, edit_fn(op));
    }
    let UmlStateMachineCompositeState { uuid, stereotype, name, internal_transitions, regions } = c;
    if transitions_contain(uuid, &internal_transitions, u) {
        let o = edit_in_transitions(uuid, &internal_transitions, u, op);
        let c2 = UmlStateMachineCompositeState { uuid, stereotype, name, internal_transitions, regions };
        proof {
            assert(composite_tree(c2) =~= update_below(t, u, edit_fn(op)));
        }
        (c2, o)
    } else {
        let (rs, o) = edit_in_regions(uuid, regions, u, op);
        let c2 = UmlStateMachineCompositeState { uuid, stereotype, name, internal_transitions, regions: rs };
        proof {
            assert(composite_tree(c2) =~= update_below(t, u, edit_fn(op)));
        }
        (c2, o)
    }
}

/// Whether some internal transition has uuid `u`.
fn transitions_contain(parent: ModelUuid, v: &Vec<UmlStateMachineInternalTransition>, u: ModelUuid) -> (r: bool)
    ensures
        r == (find_in(parent, transition_trees(v@), u) is Some),
{
    let ghost ts = transition_trees(v@);
    let mut i: usize = 0;
    while i < v.len()
        invariant
            0 <= i <= v.len(),
            ts == transition_trees(v@),
            find_in(parent, ts.take(i as int), u) is None,
        decreases v.len() - i,
    {
        proof {
            lemma_find_in_step(parent, ts, i as int, u);
        }
        if v[i].uuid == u {
            proof {
                lemma_find_in_prefix(parent, ts, i + 1, u);
            }
            return true;
        }
        i = i + 1;
    }
    proof {
        lemma_take_all(ts);
    }
    false
}

/// Applies `op` to the first internal transition with uuid `u`; transitions
/// hold no children, so the list is left as it is.
fn edit_in_transitions(parent: ModelUuid, v: &Vec<UmlStateMachineInternalTransition>, u: ModelUuid, op: ContainerEdit) -> (o: EditOutcome)
    requires
        find_in(parent, transition_trees(v@), u) matches Some((t, _)) && edit_allowed(op, t),
    ensures
        find_in(parent, transition_trees(v@), u) matches Some((t, _)) && edit_outcome(op, t, o),
        update_found(parent, transition_trees(v@), u, edit_fn(op)) == transition_trees(v@),
{
    let ghost ts = transition_trees(v@);
    let mut i: usize = 0;
    while i < v.len()
        invariant
            0 <= i <= v.len(),
            ts == transition_trees(v@),
            find_in(parent, ts.take(i as int), u) is None,
            find_in(parent, ts, u) is Some,
        decreases v.len() - i,
    {
        proof {
            lemma_find_in_step(parent, ts, i as int, u);
        }
        if v[i].uuid == u {
            proof {
                lemma_find_in_prefix(parent, ts, i + 1, u);
                lemma_update_found_at(parent, ts, i as int, u, edit_fn(op));
                lemma_leaf_edit(op, ts[i as int]);
                assert(ts.update(i as int, ts[i as int]) =~= ts);
            }
            return edit_leaf(op, Ghost(ts[i as int]));
        }
        i = i + 1;
    }
    proof {
        lemma_take_all(ts);
    }
    edit_leaf(op, Ghost(ts[0]))
}

/// Applies `op` to the first element with uuid `u` among the regions `v`
/// (children of `parent`) and below them.
fn edit_in_regions(parent: ModelUuid, v: Vec<UmlStateMachineCompositeStateRegion>, u: ModelUuid, op: ContainerEdit) -> (r: (
    Vec<UmlStateMachineCompositeStateRegion>,
    EditOutcome,
))
    requires
        find_in(parent, region_trees(v@), u) matches Some((t, _)) && edit_allowed(op, t),
    ensures
        find_in(parent, region_trees(v@), u) matches Some((t, _)) && edit_outcome(op, t, r.1),
        region_trees(r.0@) == update_found(parent, region_trees(v@), u, edit_fn(op)),
    decreases v@,
{
    let ghost ts = region_trees(v@);
    let ghost orig = v@;
    let mut w = v;
    let mut i: usize = 0;
    while i < w.len()
        invariant
            0 <= i <= w.len(),
            orig == v@,
            w@ == orig,
            ts == region_trees(orig),
            find_in(parent, ts.take(i as int), u) is None,
            find_in(parent, ts, u) matches Some((t, _)) && edit_allowed(op, t),
        decreases w.len() - i,
    {
        proof {
            lemma_find_in_step(parent, ts, i as int, u);
        }
        if w[i].uuid == u {
            proof {
                lemma_find_in_prefix(parent, ts, i + 1, u);
            }
            let mut g = w.remove(i);
            assert(g == orig[i as int]);
            let o = edit_region(&mut g, op);
            w.insert(i, g);
            proof {
                lemma_update_found_at(parent, ts, i as int, u, edit_fn(op));
                lemma_region_trees_replace(orig, i as int, g);
            }
            return (w, o);
        }
        if w[i].find_element(u).is_some() {
            proof {
                lemma_find_in_prefix(parent, ts, i + 1, u);
            }
            let g = w.remove(i);
            assert(g == orig[i as int]);
            let (g2, o) = edit_below_region(g, u, op);
            w.insert(i, g2);
            proof {
                lemma_update_found_at(parent, ts, i as int, u, edit_fn(op));
                lemma_region_trees_replace(orig, i as int, g2);
            }
            return (w, o);
        }
        i = i + 1;
    }
    proof {
        lemma_take_all(ts);
    }
    (w, edit_leaf(op, Ghost(ts[0])))
}

/// Applies `op` to the first element with uuid `u` below the region `g`.
fn edit_below_region(g: UmlStateMachineCompositeStateRegion, u: ModelUuid, op: ContainerEdit) -> (r: (
    UmlStateMachineCompositeStateRegion,
    EditOutcome,
))
    requires
        find_below(region_tree(g), u) matches Some((t, _)) && edit_allowed(op, t),
    ensures
        find_below(region_tree(g), u) matches Some((t, _)) && edit_outcome(op, t, r.1),
        region_tree(r.0) == update_below(region_tree(g), u, edit_fn(op)),
    decreases g,
{
    proof {
        lemma_find_one_bucket(region_tree(g), u);
        lemma_update_one_bucket(region_tree(g), u, edit_fn(op));
    }
    let UmlStateMachineCompositeStateRegion { uuid, contained_elements } = g;
    let (w, o) = edit_in_standalones(uuid, contained_elements, u, op);
    let g2 = UmlStateMachineCompositeStateRegion { uuid, contained_elements: w };
    proof {
        assert(region_tree(g2) =~= update_below(region_tree(g), u, edit_fn(op)));
    }
    (g2, o)
}

} // verus!
