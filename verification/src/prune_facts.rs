use vstd::prelude::*;

use crate::delete::{bucket_kept_whole, prune_buckets, prune_children, prune_tree, UndoEntry};
use crate::ids::ModelUuid;
use crate::model::{ElementKind, ElementTree};
use crate::restore_spec::{buckets_have_id, has_id, lemma_has_id, lemma_seq_has_id, seq_has_id};

verus! {

/// What stays of one child.
pub open spec fn kept_of(c: ElementTree, u: Set<ModelUuid>) -> Seq<ElementTree> {
    if u.contains(c.uuid) {
        seq![]
    } else {
        seq![prune_tree(c, u).0]
    }
}

pub proof fn lemma_kept_split(p: ModelUuid, b: int, cs: Seq<ElementTree>, u: Set<ModelUuid>, k: int)
    requires
        0 <= k <= cs.len(),
    ensures
        prune_children(p, b, cs, u).0 == prune_children(p, b, cs.take(k), u).0 + prune_children(p, b, cs.skip(k), u).0,
    decreases cs.len(),
{
    if k == cs.len() {
        assert(cs.take(k) =~= cs);
        assert(cs.skip(k).len() == 0);
        assert(prune_children(p, b, cs, u).0 + Seq::<ElementTree>::empty() =~= prune_children(p, b, cs, u).0);
    } else {
        let d = cs.drop_last();
        lemma_kept_split(p, b, d, u, k);
        assert(d.take(k) =~= cs.take(k));
        assert(cs.skip(k).drop_last() =~= d.skip(k));
        assert(cs.skip(k).last() == cs.last());
        let a = prune_children(p, b, cs.take(k), u).0;
        let s1 = prune_children(p, b, d.skip(k), u).0;
        if u.contains(cs.last().uuid) {
        } else {
            assert((a + s1).push(prune_tree(cs.last(), u).0) =~= a + s1.push(prune_tree(cs.last(), u).0));
        }
    }
}

pub proof fn lemma_kept_cons(p: ModelUuid, b: int, cs: Seq<ElementTree>, u: Set<ModelUuid>, k: int)
    requires
        0 <= k < cs.len(),
    ensures
        prune_children(p, b, cs.skip(k), u).0 == kept_of(cs[k], u) + prune_children(p, b, cs.skip(k + 1), u).0,
{
    let s = cs.skip(k);
    lemma_kept_split(p, b, s, u, 1);
    assert(s.take(1).drop_last().len() == 0);
    assert(prune_children(p, b, s.take(1).drop_last(), u).0 == Seq::<ElementTree>::empty());
    assert(s.take(1).last() == cs[k]);
    assert(prune_children(p, b, s.take(1), u).0 =~= kept_of(cs[k], u));
    assert(s.skip(1) =~= cs.skip(k + 1));
}

/// The buckets after pruning, bucket by bucket.
pub open spec fn pruned_bucket(kind: ElementKind, uuid: ModelUuid, i: int, c: Seq<ElementTree>, u: Set<ModelUuid>) -> Seq<ElementTree> {
    if bucket_kept_whole(kind, i, c, u) {
        c
    } else {
        prune_children(uuid, i, c, u).0
    }
}

/// The records of the pruning of one bucket.
pub open spec fn bucket_records(kind: ElementKind, uuid: ModelUuid, i: int, c: Seq<ElementTree>, u: Set<ModelUuid>) -> Seq<UndoEntry> {
    if bucket_kept_whole(kind, i, c, u) {
        seq![]
    } else {
        prune_children(uuid, i, c, u).1
    }
}

pub proof fn lemma_pruned_buckets(kind: ElementKind, uuid: ModelUuid, bs: Seq<Seq<ElementTree>>, u: Set<ModelUuid>)
    ensures
        prune_buckets(kind, uuid, bs, u).0.len() == bs.len(),
        forall|i: int| 0 <= i < bs.len() ==> #[trigger] prune_buckets(kind, uuid, bs, u).0[i] == pruned_bucket(kind, uuid, i, bs[i], u),
    decreases bs.len(),
{
    if bs.len() > 0 {
        lemma_pruned_buckets(kind, uuid, bs.drop_last(), u);
        assert(forall|i: int| 0 <= i < bs.len() - 1 ==> bs.drop_last()[i] == bs[i]);
    }
}

pub proof fn lemma_bucket_records_step(kind: ElementKind, uuid: ModelUuid, bs: Seq<Seq<ElementTree>>, u: Set<ModelUuid>, j: int)
    requires
        0 <= j < bs.len(),
    ensures
        prune_buckets(kind, uuid, bs.take(j + 1), u).1 == prune_buckets(kind, uuid, bs.take(j), u).1 + bucket_records(
            kind,
            uuid,
            j,
            bs[j],
            u,
        ),
{
    assert(bs.take(j + 1).drop_last() =~= bs.take(j));
    assert(bs.take(j + 1).last() == bs[j]);
    if bucket_kept_whole(kind, j, bs[j], u) {
        assert(prune_buckets(kind, uuid, bs.take(j), u).1 + Seq::<UndoEntry>::empty() =~= prune_buckets(
            kind,
            uuid,
            bs.take(j),
            u,
        ).1);
    }
}

// ---------------------------------------------------------------------------
// Pruning keeps only uuids that were there.
// ---------------------------------------------------------------------------

pub proof fn lemma_pruned_ids(t: ElementTree, u: Set<ModelUuid>, x: ModelUuid)
    requires
        has_id(prune_tree(t, u).0, x),
    ensures
        has_id(t, x),
    decreases t,
{
    let pt = prune_tree(t, u).0;
    lemma_has_id(pt, x);
    lemma_has_id(t, x);
    lemma_pruned_buckets(t.kind, t.uuid, t.buckets, u);
    if x != t.uuid {
        let (b, i) = choose|b: int, i: int|
            0 <= b < pt.buckets.len() && 0 <= i < pt.buckets[b].len() && #[trigger] has_id(pt.buckets[b][i], x);
        assert(seq_has_id(pt.buckets[b], x)) by {
            lemma_seq_has_id(pt.buckets[b], x);
        }
        if bucket_kept_whole(t.kind, b, t.buckets[b], u) {
            assert(has_id(t.buckets[b][i], x));
        } else {
            lemma_pruned_children_ids(t.uuid, b, t.buckets[b], u, x);
            lemma_seq_has_id(t.buckets[b], x);
            let j = choose|j: int| 0 <= j < t.buckets[b].len() && #[trigger] has_id(t.buckets[b][j], x);
            assert(has_id(t.buckets[b][j], x));
        }
    }
}

pub proof fn lemma_pruned_children_ids(p: ModelUuid, b: int, cs: Seq<ElementTree>, u: Set<ModelUuid>, x: ModelUuid)
    requires
        seq_has_id(prune_children(p, b, cs, u).0, x),
    ensures
        seq_has_id(cs, x),
    decreases cs,
{
    if cs.len() > 0 {
        let d = cs.drop_last();
        let kd = prune_children(p, b, d, u).0;
        lemma_seq_has_id(cs, x);
        lemma_seq_has_id(d, x);
        assert(forall|i: int| 0 <= i < d.len() ==> d[i] == cs[i]);
        if u.contains(cs.last().uuid) {
            lemma_pruned_children_ids(p, b, d, u, x);
        } else {
            let k = kd.push(prune_tree(cs.last(), u).0);
            lemma_seq_has_id(k, x);
            lemma_seq_has_id(kd, x);
            let i = choose|i: int| 0 <= i < k.len() && #[trigger] has_id(k[i], x);
            if i < kd.len() {
                assert(has_id(kd[i], x));
                lemma_pruned_children_ids(p, b, d, u, x);
            } else {
                lemma_pruned_ids(cs.last(), u, x);
                assert(has_id(cs[cs.len() - 1], x));
            }
        }
    }
}

// ---------------------------------------------------------------------------
// The records name parents inside the pruned tree.
// ---------------------------------------------------------------------------

pub proof fn lemma_record_parents(t: ElementTree, u: Set<ModelUuid>)
    ensures
        forall|j: int| 0 <= j < prune_tree(t, u).1.len() ==> has_id(t, #[trigger] prune_tree(t, u).1[j].parent),
    decreases t,
{
    lemma_record_parents_buckets(t.kind, t.uuid, t.buckets, u);
}

pub proof fn lemma_record_parents_buckets(kind: ElementKind, uuid: ModelUuid, bs: Seq<Seq<ElementTree>>, u: Set<ModelUuid>)
    ensures
        forall|j: int|
            0 <= j < prune_buckets(kind, uuid, bs, u).1.len() ==> (#[trigger] prune_buckets(kind, uuid, bs, u).1[j]).parent
                == uuid || buckets_have_id(bs, prune_buckets(kind, uuid, bs, u).1[j].parent),
    decreases bs,
{
    if bs.len() > 0 {
        let d = bs.drop_last();
        lemma_record_parents_buckets(kind, uuid, d, u);
        let pre = prune_buckets(kind, uuid, d, u).1;
        let all = prune_buckets(kind, uuid, bs, u).1;
        if !bucket_kept_whole(kind, bs.len() - 1, bs.last(), u) {
            let more = prune_children(uuid, bs.len() - 1, bs.last(), u).1;
            lemma_record_parents_children(uuid, bs.len() - 1, bs.last(), u);
            assert(all == pre + more);
            assert forall|j: int| 0 <= j < all.len() implies (#[trigger] all[j]).parent == uuid || buckets_have_id(
                bs,
                all[j].parent,
            ) by {
                if j < pre.len() {
                    assert(all[j] == pre[j]);
                } else {
                    assert(all[j] == more[j - pre.len()]);
                }
            }
        }
    }
}

pub proof fn lemma_record_parents_children(p: ModelUuid, b: int, cs: Seq<ElementTree>, u: Set<ModelUuid>)
    ensures
        forall|j: int|
            0 <= j < prune_children(p, b, cs, u).1.len() ==> (#[trigger] prune_children(p, b, cs, u).1[j]).parent == p
                || seq_has_id(cs, prune_children(p, b, cs, u).1[j].parent),
    decreases cs,
{
    if cs.len() > 0 {
        let d = cs.drop_last();
        lemma_record_parents_children(p, b, d, u);
        let pre = prune_children(p, b, d, u).1;
        let all = prune_children(p, b, cs, u).1;
        if !u.contains(cs.last().uuid) {
            let more = prune_tree(cs.last(), u).1;
            lemma_record_parents(cs.last(), u);
            assert(all == pre + more);
            assert forall|j: int| 0 <= j < all.len() implies (#[trigger] all[j]).parent == p || seq_has_id(
                cs,
                all[j].parent,
            ) by {
                if j < pre.len() {
                    assert(all[j] == pre[j]);
                } else {
                    assert(all[j] == more[j - pre.len()]);
                    assert(has_id(cs.last(), all[j].parent));
                }
            }
        }
    }
}

} // verus!
