use vstd::prelude::*;

use crate::delete::{prune_children, prune_diagram, prune_tree, UndoEntry};
use crate::diagram_edit::{accepted_at, inserted_into, insertion_fits};
use crate::edit_spec::insertion_point;
use crate::ids::ModelUuid;
use crate::model::{is_standalone_kind, DiagramTree, ElementTree};
use crate::prune_facts::lemma_record_parents;
use crate::reinsert_law::{accepts, lemma_reinsert_tree, reinsert, reinsert_all, reinsert_fn, reinserted};
use crate::restore_spec::{diagram_distinct, diagram_root, has_id, lemma_distinct, lemma_seq_has_id, seq_has_id};
use crate::update_spec::{lemma_update_one_bucket, placement};
use crate::wf::{diagram_wf, tree_wf};

verus! {

/// The records whose parent is `p` ask for bucket 0 and hold a standalone
/// element: what the diagram itself receives.
pub open spec fn direct_ok(p: ModelUuid, rs: Seq<UndoEntry>) -> bool {
    forall|q: int|
        0 <= q < rs.len() && (#[trigger] rs[q]).parent == p ==> rs[q].bucket == 0 && is_standalone_kind(
            rs[q].element.kind,
        )
}

/// Inserting into the diagram is inserting into the node that stands for it.
proof fn lemma_reinserted_root(d: DiagramTree, rs: Seq<UndoEntry>)
    requires
        direct_ok(d.uuid, rs),
    ensures
        diagram_root(reinserted(d, rs)) == reinsert_all(diagram_root(d), rs),
        reinserted(d, rs) == (DiagramTree { elements: reinserted(d, rs).elements, ..d }),
    decreases rs.len(),
{
    if rs.len() > 0 {
        let pre = rs.drop_last();
        assert(direct_ok(d.uuid, pre)) by {
            assert forall|q: int| 0 <= q < pre.len() && (#[trigger] pre[q]).parent == d.uuid implies pre[q].bucket == 0
                && is_standalone_kind(pre[q].element.kind) by {
                assert(pre[q] == rs[q]);
            }
        }
        lemma_reinserted_root(d, pre);
        let e = reinserted(d, pre);
        let r = rs.last();
        let root = diagram_root(e);
        let pos = Some(r.position as usize);
        assert(r == rs[rs.len() - 1]);
        if r.parent == d.uuid {
            let at = insertion_point(pos, e.elements.len() as int);
            assert(placement(root, r.bucket, pos, r.element.kind) == Some((0int, at)));
            assert(root.buckets.update(0, root.buckets[0].insert(at, r.element)) =~= seq![e.elements.insert(at, r.element)]);
            assert(diagram_root(inserted_into(e, r.parent, r.bucket, pos, r.element)) =~= reinsert(root, r));
        } else {
            lemma_update_one_bucket(root, r.parent, reinsert_fn(r));
            assert(diagram_root(inserted_into(e, r.parent, r.bucket, pos, r.element)) =~= reinsert(root, r));
        }
    }
}

/// The records of the children `cs` of `p` whose parent is `p` itself are
/// those of the children removed from `p`.
proof fn lemma_direct_records(p: ModelUuid, cs: Seq<ElementTree>, u: Set<ModelUuid>)
    requires
        !seq_has_id(cs, p),
        forall|i: int| 0 <= i < cs.len() ==> is_standalone_kind(#[trigger] cs[i].kind),
    ensures
        direct_ok(p, prune_children(p, 0, cs, u).1),
    decreases cs,
{
    if cs.len() > 0 {
        let d = cs.drop_last();
        let c = cs.last();
        assert(forall|i: int| 0 <= i < d.len() ==> d[i] == cs[i]);
        lemma_direct_records(p, d, u);
        let pre = prune_children(p, 0, d, u).1;
        let all = prune_children(p, 0, cs, u).1;
        assert(is_standalone_kind(cs[cs.len() - 1].kind));
        if u.contains(c.uuid) {
            assert forall|q: int| 0 <= q < all.len() && (#[trigger] all[q]).parent == p implies all[q].bucket == 0
                && is_standalone_kind(all[q].element.kind) by {
                if q < pre.len() {
                    assert(all[q] == pre[q]);
                }
            }
        } else {
            let more = prune_tree(c, u).1;
            lemma_record_parents(c, u);
            assert(all == pre + more);
            assert forall|q: int| 0 <= q < all.len() && (#[trigger] all[q]).parent == p implies all[q].bucket == 0
                && is_standalone_kind(all[q].element.kind) by {
                if q < pre.len() {
                    assert(all[q] == pre[q]);
                } else {
                    assert(all[q] == more[q - pre.len()]);
                    assert(has_id(c, more[q - pre.len()].parent));
                }
            }
        }
    }
}

/// The element of the record `r` is taken by the diagram `d`, or by the
/// element of `d` that is its parent, at the record's bucket and position,
/// and that position lies within the receiving list: what
/// `insert_element_into` checks of a target and a position before it inserts.
pub open spec fn taken_back(d: DiagramTree, r: UndoEntry) -> bool {
    let position = Some(r.position as usize);
    &&& accepted_at(d, r.parent, r.bucket, position, r.element) == Some(r.position)
    &&& insertion_fits(d, r.parent, r.bucket, position, r.element)
}

/// Deleting elements from a diagram and then inserting back, in the order
/// of the records, each removed element into the node (or the diagram) it
/// was removed from, at its bucket and position, with the change that
/// `insert_element_into` makes when it accepts an element, gives the diagram
/// back, when the diagram has the right shape and no two of its nodes share a
/// uuid. When each record comes, its parent takes the element at the
/// record's bucket and position, and that position fits; the check that a
/// transition stays within one state machine (which refuses a transition
/// whose endpoint comes back later) is not part of this statement.
pub proof fn law_reinsert_deleted(d: DiagramTree, u: Set<ModelUuid>)
    requires
        diagram_wf(d),
        diagram_distinct(d),
    ensures
        reinserted(prune_diagram(d, u).0, prune_diagram(d, u).1) == d,
        forall|q: int|
            0 <= q < prune_diagram(d, u).1.len() ==> taken_back(
                reinserted(prune_diagram(d, u).0, prune_diagram(d, u).1.take(q)),
                #[trigger] prune_diagram(d, u).1[q],
            ),
{
    let root = diagram_root(d);
    let pd = prune_diagram(d, u).0;
    let rs = prune_diagram(d, u).1;
    crate::delete::lemma_prune_one_bucket(root, u);
    assert(diagram_root(pd) =~= prune_tree(root, u).0);
    assert(tree_wf(root)) by {
        assert(root.buckets[0] == d.elements);
    }
    lemma_reinsert_tree(root, u);
    lemma_distinct(root);
    lemma_seq_has_id(d.elements, d.uuid);
    if seq_has_id(d.elements, d.uuid) {
        let i = choose|i: int| 0 <= i < d.elements.len() && #[trigger] has_id(d.elements[i], d.uuid);
        assert(root.buckets[0][i] == d.elements[i]);
    }
    lemma_direct_records(d.uuid, d.elements, u);
    lemma_reinserted_root(pd, rs);
    let back = reinserted(pd, rs);
    assert(back.elements == diagram_root(back).buckets[0]);
    assert(back =~= d);
    assert forall|q: int| 0 <= q < rs.len() implies taken_back(reinserted(pd, rs.take(q)), #[trigger] rs[q]) by {
        let part = rs.take(q);
        assert(direct_ok(pd.uuid, part)) by {
            assert forall|j: int| 0 <= j < part.len() && (#[trigger] part[j]).parent == pd.uuid implies part[j].bucket
                == 0 && is_standalone_kind(part[j].element.kind) by {
                assert(part[j] == rs[j]);
            }
        }
        lemma_reinserted_root(pd, part);
        let mid = reinserted(pd, part);
        lemma_taken_back(mid, rs[q]);
    }
}

/// What the node standing for the diagram accepts, the diagram takes back.
proof fn lemma_taken_back(d: DiagramTree, r: UndoEntry)
    requires
        accepts(diagram_root(d), r),
    ensures
        taken_back(d, r),
{
    reveal(accepts);
    let root = diagram_root(d);
    crate::find_spec::lemma_find_one_bucket(root, r.parent);
    assert(root.buckets[0] == d.elements);
}

} // verus!
