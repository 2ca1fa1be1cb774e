use vstd::prelude::*;

use crate::diagram_edit::{accepted_at, inserted_into, insertion_fits, removal_position, removed_from};
use crate::edit_spec::{insertion_point, receiving_bucket, with_inserted, with_removed};
use crate::find_spec::{find_in, first_index, first_position, lemma_first_index_found};
use crate::ids::{ModelUuid, PositionNoT};
use crate::laws::child_at;
use crate::model::{is_standalone_kind, DiagramTree, ElementKind, ElementTree};
use crate::update_laws::lemma_update_found_again;
use crate::update_spec::{is_container_kind, lemma_update_found_fixed, placed, placement, placing, taken, taking};
use crate::wf::{diagram_wf, lemma_found_wf, tree_wf};

verus! {

/// `target` (the diagram or one of its elements) already holds a child with
/// uuid `u`.
pub open spec fn holds_child(d: DiagramTree, target: ModelUuid, u: ModelUuid) -> bool {
    if target == d.uuid {
        first_index(d.elements, u) is Some
    } else {
        find_in(d.uuid, d.elements, target) matches Some((t, _)) && first_position(t.buckets, u) is Some
    }
}

proof fn lemma_first_position_none(bs: Seq<Seq<ElementTree>>, u: ModelUuid)
    requires
        first_position(bs, u) is None,
    ensures
        forall|b: int, j: int| 0 <= b < bs.len() && 0 <= j < bs[b].len() ==> (#[trigger] bs[b][j]).uuid != u,
    decreases bs.len(),
{
    if bs.len() > 0 {
        lemma_first_position_none(bs.drop_last(), u);
        lemma_first_index_found(bs.last(), u);
        assert forall|b: int, j: int| 0 <= b < bs.len() && 0 <= j < bs[b].len() implies (#[trigger] bs[b][j]).uuid != u by {
            if b < bs.len() - 1 {
                assert(bs.drop_last()[b] == bs[b]);
            }
        }
    }
}

proof fn lemma_first_position_is(bs: Seq<Seq<ElementTree>>, b: int, i: int, u: ModelUuid)
    requires
        0 <= b < bs.len(),
        0 <= i < bs[b].len(),
        bs[b][i].uuid == u,
        forall|c: int, j: int| 0 <= c < b && 0 <= j < bs[c].len() ==> (#[trigger] bs[c][j]).uuid != u,
        forall|j: int| 0 <= j < i ==> (#[trigger] bs[b][j]).uuid != u,
    ensures
        first_position(bs, u) == Some((b, i)),
    decreases bs.len(),
{
    if b < bs.len() - 1 {
        let d = bs.drop_last();
        assert(forall|c: int| 0 <= c < d.len() ==> d[c] == bs[c]);
        lemma_first_position_is(d, b, i, u);
    } else {
        let d = bs.drop_last();
        assert(forall|c: int| 0 <= c < d.len() ==> d[c] == bs[c]);
        lemma_first_position_absent(d, u);
        lemma_first_index_found(bs.last(), u);
    }
}

proof fn lemma_first_position_absent(bs: Seq<Seq<ElementTree>>, u: ModelUuid)
    requires
        forall|c: int, j: int| 0 <= c < bs.len() && 0 <= j < bs[c].len() ==> (#[trigger] bs[c][j]).uuid != u,
    ensures
        first_position(bs, u) is None,
    decreases bs.len(),
{
    if bs.len() > 0 {
        let d = bs.drop_last();
        assert(forall|c: int| 0 <= c < d.len() ==> d[c] == bs[c]);
        lemma_first_position_absent(d, u);
        lemma_first_index_found(bs.last(), u);
        assert(forall|j: int| 0 <= j < bs.last().len() ==> bs.last()[j] == bs[bs.len() - 1][j]);
    }
}

/// In a container of the right shape that holds no child `c.uuid`, taking out
/// `c.uuid` after inserting `c` where it is accepted gives the container back,
/// and the removal reports the place of the insertion.
proof fn lemma_take_placed(t: ElementTree, bucket: int, position: Option<PositionNoT>, c: ElementTree)
    requires
        tree_wf(t),
        placement(t, bucket, position, c.kind) matches Some((b, p)) && p <= t.buckets[b].len(),
        first_position(t.buckets, c.uuid) is None,
    ensures
        taken(placed(t, bucket, position, c), c.uuid) == t,
        placed(t, bucket, position, c).uuid == t.uuid,
        is_container_kind(t.kind),
        first_position(placed(t, bucket, position, c).buckets, c.uuid) == (match placement(t, bucket, position, c.kind) {
            Some(bp) => Some(bp),
            None => None,
        }),
{
    let (b, p) = placement(t, bucket, position, c.kind)->Some_0;
    let t2 = with_inserted(t, b, p, c);
    lemma_first_position_none(t.buckets, c.uuid);
    assert(0 <= b < t.buckets.len());
    let nb = t.buckets[b].insert(p, c);
    assert(t2.buckets[b] == nb);
    assert forall|x: int, j: int| 0 <= x < b && 0 <= j < t2.buckets[x].len() implies (#[trigger] t2.buckets[x][j]).uuid
        != c.uuid by {
        assert(t2.buckets[x] == t.buckets[x]);
    }
    assert forall|j: int| 0 <= j < p implies (#[trigger] t2.buckets[b][j]).uuid != c.uuid by {
        assert(nb[j] == t.buckets[b][j]);
    }
    lemma_first_position_is(t2.buckets, b, p, c.uuid);
    assert(nb.remove(p) =~= t.buckets[b]);
    assert(t2.buckets.update(b, nb.remove(p)) =~= t.buckets);
    assert(with_removed(t2, b, p) =~= t);
}

/// Removing from `target` the element just inserted into it, when `target`
/// held no child with that uuid before, gives the diagram back, and the
/// removal reports the position of the insertion.
pub proof fn law_remove_undoes_insert(
    d: DiagramTree,
    target: ModelUuid,
    bucket: int,
    position: Option<PositionNoT>,
    c: ElementTree,
)
    requires
        diagram_wf(d),
        accepted_at(d, target, bucket, position, c) is Some,
        insertion_fits(d, target, bucket, position, c),
        !holds_child(d, target, c.uuid),
    ensures
        removed_from(inserted_into(d, target, bucket, position, c), target, c.uuid) == d,
        removal_position(inserted_into(d, target, bucket, position, c), target, c.uuid) matches Some((_, q))
            && accepted_at(d, target, bucket, position, c) == Some(q),
{
    let es = d.elements;
    if target == d.uuid {
        let q = insertion_point(position, es.len() as int);
        let n = es.insert(q, c);
        lemma_first_index_found(es, c.uuid);
        lemma_first_index_found(n, c.uuid);
        assert(forall|j: int| 0 <= j < q ==> n[j] == es[j]);
        assert(n[q] == c);
        assert(forall|j: int| 0 <= j < q ==> n[j].uuid != c.uuid);
        assert(first_index(n, c.uuid) == Some(q));
        assert(n.remove(q) =~= es);
        assert(removed_from(inserted_into(d, target, bucket, position, c), target, c.uuid) =~= d);
    } else {
        let (t, p) = find_in(d.uuid, es, target)->Some_0;
        lemma_found_wf(d.uuid, es, target);
        let g1 = placing(bucket, position, c);
        let g2 = taking(c.uuid);
        lemma_take_placed(t, bucket, position, c);
        assert(t.uuid == target) by {
            crate::laws_edit::lemma_found_uuid(d.uuid, es, target);
        }
        assert(g1(t).uuid == target);
        lemma_update_found_again(d.uuid, es, target, g1, g2);
        let h = |x: ElementTree| g2(g1(x));
        assert(h(t) == t);
        lemma_update_found_fixed(d.uuid, es, target, h);
        assert(removed_from(inserted_into(d, target, bucket, position, c), target, c.uuid) =~= d);
    }
}

/// What a lookup finds carries the uuid looked for.
pub proof fn lemma_found_uuid(parent: ModelUuid, es: Seq<ElementTree>, u: ModelUuid)
    ensures
        find_in(parent, es, u) matches Some((t, _)) ==> t.uuid == u,
    decreases es,
{
    if es.len() > 0 {
        lemma_found_uuid(parent, es.drop_last(), u);
        lemma_found_below_uuid(es.last(), u);
    }
}

pub proof fn lemma_found_below_uuid(t: ElementTree, u: ModelUuid)
    ensures
        crate::find_spec::find_below(t, u) matches Some((x, _)) ==> x.uuid == u,
    decreases t,
{
    lemma_found_buckets_uuid(t.uuid, t.buckets, u);
}

pub proof fn lemma_found_buckets_uuid(parent: ModelUuid, bs: Seq<Seq<ElementTree>>, u: ModelUuid)
    ensures
        crate::find_spec::find_in_buckets(parent, bs, u) matches Some((x, _)) ==> x.uuid == u,
    decreases bs,
{
    if bs.len() > 0 {
        lemma_found_buckets_uuid(parent, bs.drop_last(), u);
        lemma_found_uuid(parent, bs.last(), u);
    }
}

/// In a container of the right shape, the child at a bucket and position is
/// accepted back at the same place.
pub proof fn lemma_receives_back(t: ElementTree, b: int, i: int)
    requires
        tree_wf(t),
        is_container_kind(t.kind),
        0 <= b < t.buckets.len(),
        0 <= i < t.buckets[b].len(),
    ensures
        receiving_bucket(t.kind, b, t.buckets[b][i].kind) == Some(b),
{
    let x = t.buckets[b][i];
    if t.kind == ElementKind::StateMachine || t.kind == ElementKind::CompositeStateRegion {
        assert(is_standalone_kind(x.kind));
    } else if t.kind == ElementKind::CompositeState {
        if b == 1 {
            assert(x.kind == ElementKind::InternalTransition);
        } else {
            assert(b == 2);
            assert(x.kind == ElementKind::CompositeStateRegion);
        }
    } else {
        assert(b == 1);
        assert(x.kind == ElementKind::InternalTransition);
    }
}

/// Inserting back into `target`, at the bucket and position that a removal
/// from it reported, the element removed gives the diagram back; `target`
/// accepts the element there.
pub proof fn law_insert_undoes_remove(d: DiagramTree, target: ModelUuid, u: ModelUuid, b: int, p: PositionNoT)
    requires
        diagram_wf(d),
        removal_position(d, target, u) == Some((b, p as int)),
    ensures
        accepted_at(removed_from(d, target, u), target, b, Some(p), child_at(d, target, b, p as int)) == Some(p as int),
        insertion_fits(removed_from(d, target, u), target, b, Some(p), child_at(d, target, b, p as int)),
        inserted_into(removed_from(d, target, u), target, b, Some(p), child_at(d, target, b, p as int)) == d,
{
    let es = d.elements;
    let i = p as int;
    if target == d.uuid {
        lemma_first_index_found(es, u);
        let x = es[i];
        assert(child_at(d, target, b, i) == x);
        assert(is_standalone_kind(x.kind));
        assert(es.remove(i).insert(i, x) =~= es);
        assert(inserted_into(removed_from(d, target, u), target, b, Some(p), x) =~= d);
    } else {
        let (t, pp) = find_in(d.uuid, es, target)->Some_0;
        lemma_found_wf(d.uuid, es, target);
        lemma_found_uuid(d.uuid, es, target);
        crate::laws::lemma_first_position_found(t.buckets, u);
        let x = t.buckets[b][i];
        assert(child_at(d, target, b, i) == x);
        lemma_receives_back(t, b, i);
        let g1 = taking(u);
        let g2 = placing(b, Some(p), x);
        let t2 = with_removed(t, b, i);
        assert(g1(t) == t2);
        lemma_update_found_again(d.uuid, es, target, g1, g2);
        assert(t2.buckets[b] == t.buckets[b].remove(i));
        assert(placement(t2, b, Some(p), x.kind) == Some((b, i)));
        assert(t2.buckets[b].insert(i, x) =~= t.buckets[b]);
        assert(t2.buckets.update(b, t2.buckets[b].insert(i, x)) =~= t.buckets);
        assert(g2(t2) =~= t);
        let h = |y: ElementTree| g2(g1(y));
        assert(h(t) == t);
        lemma_update_found_fixed(d.uuid, es, target, h);
        assert(inserted_into(removed_from(d, target, u), target, b, Some(p), x) =~= d);
    }
}

} // verus!
