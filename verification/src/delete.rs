use std::collections::HashSet;

use vstd::prelude::*;

use crate::ids::{BucketNoT, ModelUuid, PositionNoT};
use crate::model::{
    composite_tree, element_tree, machine_tree, region_tree, region_trees, simple_tree, standalone_tree,
    standalone_trees, transition_trees, DiagramTree, ElementKind, ElementTree, UmlStateMachine,
    UmlStateMachineCompositeState, UmlStateMachineCompositeStateRegion, UmlStateMachineDiagram,
    UmlStateMachineElement, UmlStateMachineInternalTransition, UmlStateMachineSimpleState,
    UmlStateMachineStandaloneElement,
};
use crate::tree::lemma_take_all;

verus! {

broadcast use vstd::std_specs::hash::group_hash_axioms;

/// A record of a removed child: its former parent, the child itself, and the
/// bucket and position it occupied.
pub struct UndoEntry {
    pub parent: ModelUuid,
    pub element: ElementTree,
    pub bucket: int,
    pub position: int,
}

pub type UndoRecord = (ModelUuid, UmlStateMachineElement, BucketNoT, PositionNoT);

pub open spec fn undo_entry(r: UndoRecord) -> UndoEntry {
    UndoEntry { parent: r.0, element: element_tree(r.1), bucket: r.2 as int, position: r.3 as int }
}

pub open spec fn undo_entries(s: Seq<UndoRecord>) -> Seq<UndoEntry> {
    s.map_values(|r: UndoRecord| undo_entry(r))
}

/// Removes from the children `cs` (bucket `bucket` of the node `parent`) those
/// whose uuid is in `u`, recording each removal, and prunes the children that
/// stay. Returns the remaining children and the records, in order.
pub open spec fn prune_children(parent: ModelUuid, bucket: int, cs: Seq<ElementTree>, u: Set<ModelUuid>) -> (
    Seq<ElementTree>,
    Seq<UndoEntry>,
)
    decreases cs,
{
    if cs.len() == 0 {
        (seq![], seq![])
    } else {
        let (kept, undo) = prune_children(parent, bucket, cs.drop_last(), u);
        let c = cs.last();
        if u.contains(c.uuid) {
            (kept, undo.push(UndoEntry { parent, element: c, bucket, position: cs.len() - 1 }))
        } else {
            let (c2, undo2) = prune_tree(c, u);
            (kept.push(c2), undo + undo2)
        }
    }
}

/// True when the bucket is left as it is: the regions of a composite state are
/// only pruned when at least one of them stays.
pub open spec fn bucket_kept_whole(kind: ElementKind, bucket: int, cs: Seq<ElementTree>, u: Set<ModelUuid>) -> bool {
    kind == ElementKind::CompositeState && bucket == 2 && !(exists|i: int| 0 <= i < cs.len() && !u.contains(#[trigger] cs[i].uuid))
}

pub open spec fn prune_buckets(kind: ElementKind, uuid: ModelUuid, bs: Seq<Seq<ElementTree>>, u: Set<ModelUuid>) -> (
    Seq<Seq<ElementTree>>,
    Seq<UndoEntry>,
)
    decreases bs,
{
    if bs.len() == 0 {
        (seq![], seq![])
    } else {
        let (pre, undo) = prune_buckets(kind, uuid, bs.drop_last(), u);
        let b = bs.len() - 1;
        if bucket_kept_whole(kind, b, bs.last(), u) {
            (pre.push(bs.last()), undo)
        } else {
            let (cs, undo2) = prune_children(uuid, b, bs.last(), u);
            (pre.push(cs), undo + undo2)
        }
    }
}

/// Prunes every bucket of `t`.
pub open spec fn prune_tree(t: ElementTree, u: Set<ModelUuid>) -> (ElementTree, Seq<UndoEntry>)
    decreases t,
{
    let (bs, undo) = prune_buckets(t.kind, t.uuid, t.buckets, u);
    (ElementTree { buckets: bs, ..t }, undo)
}

/// The diagram after deleting `u`, and the records of the deletion.
pub open spec fn prune_diagram(d: DiagramTree, u: Set<ModelUuid>) -> (DiagramTree, Seq<UndoEntry>) {
    let (es, undo) = prune_children(d.uuid, 0, d.elements, u);
    (DiagramTree { elements: es, ..d }, undo)
}

// ---------------------------------------------------------------------------
// Lemmas
// ---------------------------------------------------------------------------

pub proof fn lemma_prune_leaf(t: ElementTree, u: Set<ModelUuid>)
    requires
        t.buckets.len() == 0,
    ensures
        prune_tree(t, u) == (t, Seq::<UndoEntry>::empty()),
{
    assert(t.buckets =~= Seq::<Seq<ElementTree>>::empty());
    assert(prune_buckets(t.kind, t.uuid, t.buckets, u) == (Seq::<Seq<ElementTree>>::empty(), Seq::<UndoEntry>::empty()));
    assert(prune_tree(t, u).0 =~= t);
}

pub proof fn lemma_prune_one_bucket(t: ElementTree, u: Set<ModelUuid>)
    requires
        t.buckets.len() == 1,
    ensures
        prune_tree(t, u).0 == (ElementTree { buckets: seq![prune_children(t.uuid, 0, t.buckets[0], u).0], ..t }),
        prune_tree(t, u).1 == prune_children(t.uuid, 0, t.buckets[0], u).1,
{
    let bs = t.buckets;
    assert(bs.drop_last().len() == 0);
    assert(prune_buckets(t.kind, t.uuid, bs.drop_last(), u) == (Seq::<Seq<ElementTree>>::empty(), Seq::<UndoEntry>::empty()));
    assert(!bucket_kept_whole(t.kind, 0, bs.last(), u));
    assert(prune_buckets(t.kind, t.uuid, bs, u).0 =~= seq![prune_children(t.uuid, 0, t.buckets[0], u).0]);
    assert(prune_buckets(t.kind, t.uuid, bs, u).1 =~= prune_children(t.uuid, 0, t.buckets[0], u).1);
    assert(prune_tree(t, u).0 =~= (ElementTree { buckets: seq![prune_children(t.uuid, 0, t.buckets[0], u).0], ..t }));
}

pub proof fn lemma_prune_children_step(parent: ModelUuid, bucket: int, cs: Seq<ElementTree>, i: int, u: Set<ModelUuid>)
    requires
        0 <= i < cs.len(),
    ensures
        prune_children(parent, bucket, cs.take(i + 1), u) == ({
            let (kept, undo) = prune_children(parent, bucket, cs.take(i), u);
            if u.contains(cs[i].uuid) {
                (kept, undo.push(UndoEntry { parent, element: cs[i], bucket, position: i }))
            } else {
                let (c2, undo2) = prune_tree(cs[i], u);
                (kept.push(c2), undo + undo2)
            }
        }),
{
    assert(cs.take(i + 1).drop_last() =~= cs.take(i));
}

pub proof fn lemma_prune_leaf_children(parent: ModelUuid, bucket: int, cs: Seq<ElementTree>, u: Set<ModelUuid>)
    requires
        forall|i: int| 0 <= i < cs.len() ==> (#[trigger] cs[i]).buckets.len() == 0,
    ensures
        prune_children(parent, bucket, cs, u).0 == cs.filter(|c: ElementTree| !u.contains(c.uuid)),
    decreases cs.len(),
{
    if cs.len() > 0 {
        lemma_prune_leaf_children(parent, bucket, cs.drop_last(), u);
        lemma_prune_leaf(cs.last(), u);
        reveal_with_fuel(Seq::filter, 2);
        assert(cs.drop_last() =~= cs.subrange(0, cs.len() - 1));
    }
}

} // verus!

verus! {

pub proof fn lemma_prune_two_buckets(t: ElementTree, u: Set<ModelUuid>)
    requires
        t.buckets.len() == 2,
        t.buckets[0].len() == 0,
        t.kind != ElementKind::CompositeState,
    ensures
        prune_tree(t, u).0 == (ElementTree { buckets: seq![seq![], prune_children(t.uuid, 1, t.buckets[1], u).0], ..t }),
        prune_tree(t, u).1 == prune_children(t.uuid, 1, t.buckets[1], u).1,
{
    let bs = t.buckets;
    let b1 = bs.drop_last();
    assert(b1.drop_last().len() == 0);
    assert(prune_buckets(t.kind, t.uuid, b1.drop_last(), u) == (Seq::<Seq<ElementTree>>::empty(), Seq::<UndoEntry>::empty()));
    assert(b1.last().len() == 0);
    assert(prune_children(t.uuid, 0, b1.last(), u) == (Seq::<ElementTree>::empty(), Seq::<UndoEntry>::empty()));
    assert(prune_buckets(t.kind, t.uuid, b1, u).0 =~= seq![Seq::<ElementTree>::empty()]);
    assert(prune_buckets(t.kind, t.uuid, b1, u).1 =~= Seq::<UndoEntry>::empty());
    assert(prune_buckets(t.kind, t.uuid, bs, u).0 =~= seq![seq![], prune_children(t.uuid, 1, t.buckets[1], u).0]);
    assert(prune_buckets(t.kind, t.uuid, bs, u).1 =~= prune_children(t.uuid, 1, t.buckets[1], u).1);
    assert(prune_tree(t, u).0 =~= (ElementTree { buckets: seq![seq![], prune_children(t.uuid, 1, t.buckets[1], u).0], ..t }));
}

/// The regions bucket of a composite state after pruning.
pub open spec fn pruned_regions(t: ElementTree, u: Set<ModelUuid>) -> (Seq<ElementTree>, Seq<UndoEntry>) {
    if bucket_kept_whole(t.kind, 2, t.buckets[2], u) {
        (t.buckets[2], seq![])
    } else {
        prune_children(t.uuid, 2, t.buckets[2], u)
    }
}

pub proof fn lemma_prune_three_buckets(t: ElementTree, u: Set<ModelUuid>)
    requires
        t.buckets.len() == 3,
        t.buckets[0].len() == 0,
    ensures
        prune_tree(t, u).0 == (ElementTree {
            buckets: seq![seq![], prune_children(t.uuid, 1, t.buckets[1], u).0, pruned_regions(t, u).0],
            ..t
        }),
        prune_tree(t, u).1 == prune_children(t.uuid, 1, t.buckets[1], u).1 + pruned_regions(t, u).1,
{
    let bs = t.buckets;
    let b2 = bs.drop_last();
    let b1 = b2.drop_last();
    assert(b1.drop_last().len() == 0);
    assert(prune_buckets(t.kind, t.uuid, b1.drop_last(), u) == (Seq::<Seq<ElementTree>>::empty(), Seq::<UndoEntry>::empty()));
    assert(b1.last().len() == 0);
    assert(prune_children(t.uuid, 0, b1.last(), u) == (Seq::<ElementTree>::empty(), Seq::<UndoEntry>::empty()));
    assert(!bucket_kept_whole(t.kind, 0, b1.last(), u));
    assert(!bucket_kept_whole(t.kind, 1, b2.last(), u));
    assert(prune_buckets(t.kind, t.uuid, b1, u).0 =~= seq![Seq::<ElementTree>::empty()]);
    assert(prune_buckets(t.kind, t.uuid, b1, u).1 =~= Seq::<UndoEntry>::empty());
    assert(prune_buckets(t.kind, t.uuid, b2, u).0 =~= seq![seq![], prune_children(t.uuid, 1, t.buckets[1], u).0]);
    assert(prune_buckets(t.kind, t.uuid, b2, u).1 =~= prune_children(t.uuid, 1, t.buckets[1], u).1);
    assert(prune_buckets(t.kind, t.uuid, bs, u).0 =~= seq![seq![], prune_children(t.uuid, 1, t.buckets[1], u).0, pruned_regions(t, u).0]);
    assert(prune_buckets(t.kind, t.uuid, bs, u).1 =~= prune_children(t.uuid, 1, t.buckets[1], u).1 + pruned_regions(t, u).1);
    assert(prune_tree(t, u).0 =~= (ElementTree {
            buckets: seq![seq![], prune_children(t.uuid, 1, t.buckets[1], u).0, pruned_regions(t, u).0],
            ..t
        }));
}

} // verus!

verus! {

pub(crate) fn prune_standalones(
    parent: ModelUuid,
    bucket: BucketNoT,
    v: Vec<UmlStateMachineStandaloneElement>,
    uuids: &HashSet<ModelUuid>,
    undo: &mut Vec<UndoRecord>,
) -> (r: Vec<UmlStateMachineStandaloneElement>)
    ensures
        standalone_trees(r@) == prune_children(parent, bucket as int, standalone_trees(v@), uuids@).0,
        undo_entries(final(undo)@) == undo_entries(old(undo)@) + prune_children(parent, bucket as int, standalone_trees(v@), uuids@).1,
    decreases v,
{
    let ghost ts = standalone_trees(v@);
    let ghost orig = v@;
    let mut rest = v;
    let mut kept: Vec<UmlStateMachineStandaloneElement> = Vec::new();
    let n = rest.len();
    let mut idx: usize = 0;
    while idx < n
        invariant
            0 <= idx <= n,
            n == orig.len(),
            orig == v@,
            ts == standalone_trees(orig),
            rest@ == orig.skip(idx as int),
            standalone_trees(kept@) == prune_children(parent, bucket as int, ts.take(idx as int), uuids@).0,
            undo_entries(undo@) == undo_entries(old(undo)@) + prune_children(parent, bucket as int, ts.take(idx as int), uuids@).1,
        decreases n - idx,
    {
        assert(rest@.len() > 0);
        let e = rest.remove(0);
        assert(e == orig[idx as int]);
        proof {
            lemma_prune_children_step(parent, bucket as int, ts, idx as int, uuids@);
        }
        if uuids.contains(&e.uuid()) {
            let el = e.to_element();
            let ghost before = undo@;
            undo.push((parent, el, bucket, idx));
            proof {
                assert(undo_entries(undo@) =~= undo_entries(before).push(undo_entry((parent, el, bucket, idx))));
                assert(ts.take(idx + 1).len() - 1 == idx);
                assert(undo_entries(undo@) =~= undo_entries(old(undo)@) + prune_children(parent, bucket as int, ts.take(idx + 1), uuids@).1);
            }
        } else {
            let e2 = prune_standalone(e, uuids, undo);
            kept.push(e2);
            proof {
                assert(standalone_trees(kept@) =~= prune_children(parent, bucket as int, ts.take(idx + 1), uuids@).0);
                assert(undo_entries(undo@) =~= undo_entries(old(undo)@) + prune_children(parent, bucket as int, ts.take(idx + 1), uuids@).1);
            }
        }
        assert(rest@ =~= orig.skip(idx + 1));
        idx = idx + 1;
    }
    proof {
        lemma_take_all(ts);
    }
    kept
}

pub(crate) fn prune_standalone(
    e: UmlStateMachineStandaloneElement,
    uuids: &HashSet<ModelUuid>,
    undo: &mut Vec<UndoRecord>,
) -> (r: UmlStateMachineStandaloneElement)
    ensures
        standalone_tree(r) == prune_tree(standalone_tree(e), uuids@).0,
        undo_entries(final(undo)@) == undo_entries(old(undo)@) + prune_tree(standalone_tree(e), uuids@).1,
    decreases e,
{
    match e {
        UmlStateMachineStandaloneElement::StateMachine(m) => UmlStateMachineStandaloneElement::StateMachine(prune_machine(m, uuids, undo)),
        UmlStateMachineStandaloneElement::CompositeState(c) => UmlStateMachineStandaloneElement::CompositeState(prune_composite(c, uuids, undo)),
        UmlStateMachineStandaloneElement::SimpleState(s) => UmlStateMachineStandaloneElement::SimpleState(prune_simple(s, uuids, undo)),
        other => {
            proof {
                lemma_prune_leaf(standalone_tree(other), uuids@);
                assert(undo_entries(undo@) =~= undo_entries(old(undo)@) + prune_tree(standalone_tree(other), uuids@).1);
            }
            other
        },
    }
}

pub(crate) fn prune_machine(m: UmlStateMachine, uuids: &HashSet<ModelUuid>, undo: &mut Vec<UndoRecord>) -> (r: UmlStateMachine)
    ensures
        machine_tree(r) == prune_tree(machine_tree(m), uuids@).0,
        undo_entries(final(undo)@) == undo_entries(old(undo)@) + prune_tree(machine_tree(m), uuids@).1,
    decreases m,
{
    proof {
        lemma_prune_one_bucket(machine_tree(m), uuids@);
    }
    let UmlStateMachine { uuid, stereotype, name, is_protocol, contained_elements, comment } = m;
    let kept = prune_standalones(uuid, 0, contained_elements, uuids, undo);
    let r = UmlStateMachine { uuid, stereotype, name, is_protocol, contained_elements: kept, comment };
    proof {
        assert(machine_tree(r) =~= prune_tree(machine_tree(m), uuids@).0);
    }
    r
}

pub(crate) fn prune_region(
    g: UmlStateMachineCompositeStateRegion,
    uuids: &HashSet<ModelUuid>,
    undo: &mut Vec<UndoRecord>,
) -> (r: UmlStateMachineCompositeStateRegion)
    ensures
        region_tree(r) == prune_tree(region_tree(g), uuids@).0,
        undo_entries(final(undo)@) == undo_entries(old(undo)@) + prune_tree(region_tree(g), uuids@).1,
    decreases g,
{
    proof {
        lemma_prune_one_bucket(region_tree(g), uuids@);
    }
    let UmlStateMachineCompositeStateRegion { uuid, contained_elements } = g;
    let kept = prune_standalones(uuid, 0, contained_elements, uuids, undo);
    let r = UmlStateMachineCompositeStateRegion { uuid, contained_elements: kept };
    proof {
        assert(region_tree(r) =~= prune_tree(region_tree(g), uuids@).0);
    }
    r
}

pub(crate) fn prune_regions(
    parent: ModelUuid,
    v: Vec<UmlStateMachineCompositeStateRegion>,
    uuids: &HashSet<ModelUuid>,
    undo: &mut Vec<UndoRecord>,
) -> (r: Vec<UmlStateMachineCompositeStateRegion>)
    ensures
        region_trees(r@) == prune_children(parent, 2, region_trees(v@), uuids@).0,
        undo_entries(final(undo)@) == undo_entries(old(undo)@) + prune_children(parent, 2, region_trees(v@), uuids@).1,
    decreases v@,
{
    let ghost ts = region_trees(v@);
    let ghost orig = v@;
    let mut rest = v;
    let mut kept: Vec<UmlStateMachineCompositeStateRegion> = Vec::new();
    let n = rest.len();
    let mut idx: usize = 0;
    while idx < n
        invariant
            0 <= idx <= n,
            n == orig.len(),
            orig == v@,
            ts == region_trees(orig),
            rest@ == orig.skip(idx as int),
            region_trees(kept@) == prune_children(parent, 2, ts.take(idx as int), uuids@).0,
            undo_entries(undo@) == undo_entries(old(undo)@) + prune_children(parent, 2, ts.take(idx as int), uuids@).1,
        decreases n - idx,
    {
        assert(rest@.len() > 0);
        let g = rest.remove(0);
        assert(g == orig[idx as int]);
        proof {
            lemma_prune_children_step(parent, 2, ts, idx as int, uuids@);
        }
        if uuids.contains(&g.uuid) {
            let ghost before = undo@;
            let ghost rec = (parent, UmlStateMachineElement::CompositeStateRegion(g), 2u8, idx);
            undo.push((parent, UmlStateMachineElement::CompositeStateRegion(g), 2, idx));
            proof {
                assert(undo_entries(undo@) =~= undo_entries(before).push(undo_entry(rec)));
                assert(ts.take(idx + 1).len() - 1 == idx);
                assert(undo_entries(undo@) =~= undo_entries(old(undo)@) + prune_children(parent, 2, ts.take(idx + 1), uuids@).1);
            }
        } else {
            let g2 = prune_region(g, uuids, undo);
            kept.push(g2);
            proof {
                assert(region_trees(kept@) =~= prune_children(parent, 2, ts.take(idx + 1), uuids@).0);
                assert(undo_entries(undo@) =~= undo_entries(old(undo)@) + prune_children(parent, 2, ts.take(idx + 1), uuids@).1);
            }
        }
        assert(rest@ =~= orig.skip(idx + 1));
        idx = idx + 1;
    }
    proof {
        lemma_take_all(ts);
    }
    kept
}

pub(crate) fn prune_transitions(
    parent: ModelUuid,
    v: Vec<UmlStateMachineInternalTransition>,
    uuids: &HashSet<ModelUuid>,
    undo: &mut Vec<UndoRecord>,
) -> (r: Vec<UmlStateMachineInternalTransition>)
    ensures
        transition_trees(r@) == prune_children(parent, 1, transition_trees(v@), uuids@).0,
        undo_entries(final(undo)@) == undo_entries(old(undo)@) + prune_children(parent, 1, transition_trees(v@), uuids@).1,
{
    let ghost ts = transition_trees(v@);
    let ghost orig = v@;
    let mut rest = v;
    let mut kept: Vec<UmlStateMachineInternalTransition> = Vec::new();
    let n = rest.len();
    let mut idx: usize = 0;
    while idx < n
        invariant
            0 <= idx <= n,
            n == orig.len(),
            ts == transition_trees(orig),
            rest@ == orig.skip(idx as int),
            transition_trees(kept@) == prune_children(parent, 1, ts.take(idx as int), uuids@).0,
            undo_entries(undo@) == undo_entries(old(undo)@) + prune_children(parent, 1, ts.take(idx as int), uuids@).1,
        decreases n - idx,
    {
        assert(rest@.len() > 0);
        let t = rest.remove(0);
        assert(t == orig[idx as int]);
        proof {
            lemma_prune_children_step(parent, 1, ts, idx as int, uuids@);
            lemma_prune_leaf(ts[idx as int], uuids@);
        }
        if uuids.contains(&t.uuid) {
            let ghost before = undo@;
            let ghost rec = (parent, UmlStateMachineElement::InternalTransition(t), 1u8, idx);
            undo.push((parent, UmlStateMachineElement::InternalTransition(t), 1, idx));
            proof {
                assert(undo_entries(undo@) =~= undo_entries(before).push(undo_entry(rec)));
                assert(ts.take(idx + 1).len() - 1 == idx);
                assert(undo_entries(undo@) =~= undo_entries(old(undo)@) + prune_children(parent, 1, ts.take(idx + 1), uuids@).1);
            }
        } else {
            kept.push(t);
            proof {
                assert(transition_trees(kept@) =~= prune_children(parent, 1, ts.take(idx + 1), uuids@).0);
                assert(undo_entries(undo@) =~= undo_entries(old(undo)@) + prune_children(parent, 1, ts.take(idx + 1), uuids@).1);
            }
        }
        assert(rest@ =~= orig.skip(idx + 1));
        idx = idx + 1;
    }
    proof {
        lemma_take_all(ts);
    }
    kept
}

/// True when some region is not to be deleted.
fn some_region_stays(v: &Vec<UmlStateMachineCompositeStateRegion>, uuids: &HashSet<ModelUuid>) -> (r: bool)
    ensures
        r == exists|i: int| 0 <= i < region_trees(v@).len() && !uuids@.contains(#[trigger] region_trees(v@)[i].uuid),
{
    let ghost ts = region_trees(v@);
    let mut i: usize = 0;
    while i < v.len()
        invariant
            0 <= i <= v.len(),
            ts == region_trees(v@),
            forall|j: int| 0 <= j < i ==> uuids@.contains(#[trigger] ts[j].uuid),
        decreases v.len() - i,
    {
        if !uuids.contains(&v[i].uuid) {
            assert(!uuids@.contains(ts[i as int].uuid));
            return true;
        }
        i = i + 1;
    }
    false
}

pub(crate) fn prune_composite(
    c: UmlStateMachineCompositeState,
    uuids: &HashSet<ModelUuid>,
    undo: &mut Vec<UndoRecord>,
) -> (r: UmlStateMachineCompositeState)
    ensures
        composite_tree(r) == prune_tree(composite_tree(c), uuids@).0,
        undo_entries(final(undo)@) == undo_entries(old(undo)@) + prune_tree(composite_tree(c), uuids@).1,
    decreases c,
{
    let ghost t = composite_tree(c);
    proof {
        lemma_prune_three_buckets(t, uuids@);
    }
    let UmlStateMachineCompositeState { uuid, stereotype, name, internal_transitions, regions } = c;
    let its = prune_transitions(uuid, internal_transitions, uuids, undo);
    let ghost undo_mid = undo@;
    let rs = if some_region_stays(&regions, uuids) {
        prune_regions(uuid, regions, uuids, undo)
    } else {
        proof {
            assert(undo_entries(undo@) =~= undo_entries(undo_mid) + Seq::<UndoEntry>::empty());
        }
        regions
    };
    let r = UmlStateMachineCompositeState { uuid, stereotype, name, internal_transitions: its, regions: rs };
    proof {
        assert(composite_tree(r) =~= prune_tree(t, uuids@).0);
        assert(undo_entries(undo@) =~= undo_entries(old(undo)@) + prune_tree(t, uuids@).1);
    }
    r
}

pub(crate) fn prune_simple(s: UmlStateMachineSimpleState, uuids: &HashSet<ModelUuid>, undo: &mut Vec<UndoRecord>) -> (r: UmlStateMachineSimpleState)
    ensures
        simple_tree(r) == prune_tree(simple_tree(s), uuids@).0,
        undo_entries(final(undo)@) == undo_entries(old(undo)@) + prune_tree(simple_tree(s), uuids@).1,
{
    proof {
        lemma_prune_two_buckets(simple_tree(s), uuids@);
    }
    let UmlStateMachineSimpleState { uuid, stereotype, name, internal_transitions } = s;
    let its = prune_transitions(uuid, internal_transitions, uuids, undo);
    let r = UmlStateMachineSimpleState { uuid, stereotype, name, internal_transitions: its };
    proof {
        assert(simple_tree(r) =~= prune_tree(simple_tree(s), uuids@).0);
    }
    r
}

impl UmlStateMachineDiagram {
    /// Deletes from the diagram, at every depth, the elements whose uuid is in
    /// `uuids` (the regions of a composite state only when one of them stays),
    /// and appends to `undo` a record of each removal: the former parent, the
    /// element, its bucket and its position, in pre-order.
    pub fn delete_elements(&mut self, uuids: &HashSet<ModelUuid>, undo: &mut Vec<UndoRecord>)
        ensures
            final(self)@ == prune_diagram(old(self)@, uuids@).0,
            undo_entries(final(undo)@) == undo_entries(old(undo)@) + prune_diagram(old(self)@, uuids@).1,
    {
        let mut v: Vec<UmlStateMachineStandaloneElement> = Vec::new();
        std::mem::swap(&mut v, &mut self.contained_elements);
        let kept = prune_standalones(self.uuid, 0, v, uuids, undo);
        self.contained_elements = kept;
        proof {
            assert(self@ =~= prune_diagram(old(self)@, uuids@).0);
        }
    }
}

} // verus!
