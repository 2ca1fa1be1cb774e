use vstd::prelude::*;

use crate::delete::{lemma_prune_children_step, lemma_prune_leaf, prune_buckets, prune_children, prune_tree, UndoEntry};
use crate::diagram_edit::inserted_into;
use crate::edit_spec::{receiving_bucket, with_inserted};
use crate::find_facts::{findable, lemma_find_in_buckets_some, lemma_find_in_has, lemma_find_in_some};
use crate::find_spec::{find_below, find_in, find_in_buckets, is_searchable};
use crate::ids::ModelUuid;
use crate::model::{DiagramTree, ElementKind, ElementTree};
use crate::prune_facts::{
    kept_of, lemma_bucket_records_step, lemma_kept_cons, lemma_pruned_buckets, lemma_pruned_children_ids,
    lemma_record_parents,
};
use crate::restore_law::{only_inside, partly_restored, with_bucket, with_child};
use crate::restore_spec::{
    distinct, has_id, lemma_buckets_distinct, lemma_buckets_have_id, lemma_seq_distinct, lemma_seq_has_id,
    seq_distinct, seq_has_id,
};
use crate::update_spec::{lemma_update_found_at, placement, placing, update_below, update_buckets, update_found};
use crate::wf::tree_wf;

verus! {

/// What the insertion of the element of the record `r` does to the node it
/// goes into: the insertion asked of a container.
pub open spec fn reinsert_fn(r: UndoEntry) -> spec_fn(ElementTree) -> ElementTree {
    placing(r.bucket, Some(r.position as usize), r.element)
}

/// `t` after inserting the element of `r` into the node found for its parent,
/// as an insertion into a diagram does it.
pub open spec fn reinsert(t: ElementTree, r: UndoEntry) -> ElementTree {
    if t.uuid == r.parent {
        reinsert_fn(r)(t)
    } else {
        update_below(t, r.parent, reinsert_fn(r))
    }
}

pub open spec fn reinsert_all(t: ElementTree, rs: Seq<UndoEntry>) -> ElementTree
    decreases rs.len(),
{
    if rs.len() == 0 {
        t
    } else {
        reinsert(reinsert_all(t, rs.drop_last()), rs.last())
    }
}

/// The diagram after inserting back, one after the other, the element of
/// each record into its parent (the diagram or one of its elements) at its
/// bucket and position, as `insert_element_into` does when it accepts it.
pub open spec fn reinserted(d: DiagramTree, rs: Seq<UndoEntry>) -> DiagramTree
    decreases rs.len(),
{
    if rs.len() == 0 {
        d
    } else {
        let e = reinserted(d, rs.drop_last());
        let r = rs.last();
        inserted_into(e, r.parent, r.bucket, Some(r.position as usize), r.element)
    }
}

/// The node `n` receives the element of the record `r` at the record's
/// bucket and position, which lies within that bucket.
pub open spec fn receives(n: ElementTree, r: UndoEntry) -> bool {
    &&& placement(n, r.bucket, Some(r.position as usize), r.element.kind) == Some((r.bucket, r.position))
    &&& r.position <= n.buckets[r.bucket].len()
}

/// The node that receives the element of `r` in `t` (`t` itself, or the
/// node a lookup below `t` finds for the record's parent) takes it at the
/// record's bucket and position.
#[verifier::opaque]
pub open spec fn accepts(t: ElementTree, r: UndoEntry) -> bool {
    if t.uuid == r.parent {
        receives(t, r)
    } else {
        find_below(t, r.parent) matches Some((m, _)) && receives(m, r)
    }
}

proof fn lemma_accepts_here(t: ElementTree, r: UndoEntry)
    requires
        t.uuid == r.parent,
        receives(t, r),
    ensures
        accepts(t, r),
{
    reveal(accepts);
}

proof fn lemma_accepts_findable(t: ElementTree, r: UndoEntry)
    requires
        accepts(t, r),
    ensures
        findable(t, r.parent),
{
    reveal(accepts);
}

/// A lookup among `es` whose members before `k` do not hold `x`, and whose
/// member `k` is or holds `x`, finds what it finds in member `k`.
proof fn lemma_find_in_at(parent: ModelUuid, es: Seq<ElementTree>, k: int, x: ModelUuid)
    requires
        0 <= k < es.len(),
        forall|i: int| 0 <= i < k ==> !has_id(#[trigger] es[i], x),
        findable(es[k], x),
    ensures
        find_in(parent, es, x) == (if es[k].uuid == x {
            Some((es[k], parent))
        } else {
            find_below(es[k], x)
        }),
{
    let pre = es.take(k);
    if find_in(parent, pre, x) is Some {
        lemma_find_in_has(parent, pre, x);
        lemma_seq_has_id(pre, x);
        let i = choose|i: int| 0 <= i < pre.len() && #[trigger] has_id(pre[i], x);
        assert(pre[i] == es[i]);
    }
    crate::find_spec::lemma_find_in_step(parent, es, k, x);
    crate::find_spec::lemma_find_in_prefix(parent, es, k + 1, x);
}

/// A lookup among buckets whose buckets before `b` do not hold `x`, and
/// whose bucket `b` holds it, finds what it finds in bucket `b`.
proof fn lemma_find_buckets_at(parent: ModelUuid, bs: Seq<Seq<ElementTree>>, b: int, x: ModelUuid)
    requires
        0 <= b < bs.len(),
        forall|c: int, i: int| 0 <= c < b && 0 <= i < bs[c].len() ==> !has_id(#[trigger] bs[c][i], x),
        find_in(parent, bs[b], x) is Some,
    ensures
        find_in_buckets(parent, bs, x) == find_in(parent, bs[b], x),
    decreases bs.len(),
{
    let d = bs.drop_last();
    if b == bs.len() - 1 {
        if find_in_buckets(parent, d, x) is Some {
            crate::find_facts::lemma_find_in_buckets_has(parent, d, x);
            lemma_buckets_have_id(d, x);
            let c = choose|c: int| 0 <= c < d.len() && #[trigger] seq_has_id(d[c], x);
            lemma_seq_has_id(d[c], x);
            let i = choose|i: int| 0 <= i < d[c].len() && #[trigger] has_id(d[c][i], x);
            assert(d[c][i] == bs[c][i]);
        }
    } else {
        assert(d[b] == bs[b]);
        assert forall|c: int, i: int| 0 <= c < b && 0 <= i < d[c].len() implies !has_id(#[trigger] d[c][i], x) by {
            assert(d[c] == bs[c]);
        }
        lemma_find_buckets_at(parent, d, b, x);
    }
}

/// What a child `(b, k)` of `n` accepts, `n` accepts, when no other child
/// of `n` holds the record's parent.
proof fn lemma_accepts_lift(n: ElementTree, b: int, k: int, y: ElementTree, r: UndoEntry)
    requires
        n.uuid != r.parent,
        is_searchable(n.kind),
        0 <= b < n.buckets.len(),
        0 <= k < n.buckets[b].len(),
        accepts(y, r),
        forall|c: int, i: int|
            0 <= c < n.buckets.len() && 0 <= i < n.buckets[c].len() && (c != b || i != k) ==> !#[trigger] has_id(
                n.buckets[c][i],
                r.parent,
            ),
    ensures
        accepts(with_child(n, b, k, y), r),
{
    reveal(accepts);
    let nn = with_child(n, b, k, y);
    let x = r.parent;
    assert(nn.buckets[b][k] == y);
    assert forall|i: int| 0 <= i < k implies !has_id(#[trigger] nn.buckets[b][i], x) by {
        assert(nn.buckets[b][i] == n.buckets[b][i]);
    }
    lemma_find_in_at(nn.uuid, nn.buckets[b], k, x);
    assert forall|c: int, i: int| 0 <= c < b && 0 <= i < nn.buckets[c].len() implies !has_id(#[trigger] nn.buckets[c][i], x) by {
        assert(nn.buckets[c] == n.buckets[c]);
    }
    lemma_find_buckets_at(nn.uuid, nn.buckets, b, x);
}

proof fn lemma_reinsert_all_concat(t: ElementTree, a: Seq<UndoEntry>, b: Seq<UndoEntry>)
    ensures
        reinsert_all(t, a + b) == reinsert_all(reinsert_all(t, a), b),
    decreases b.len(),
{
    if b.len() == 0 {
        assert(a + b =~= a);
    } else {
        assert((a + b).drop_last() =~= a + b.drop_last());
        assert((a + b).last() == b.last());
        lemma_reinsert_all_concat(t, a, b.drop_last());
    }
}

proof fn lemma_update_buckets_at(parent: ModelUuid, bs: Seq<Seq<ElementTree>>, b: int, u: ModelUuid, g: spec_fn(ElementTree) -> ElementTree)
    requires
        0 <= b < bs.len(),
        find_in_buckets(parent, bs.take(b), u) is None,
        find_in(parent, bs[b], u) is Some,
    ensures
        update_buckets(parent, bs, u, g) == bs.update(b, update_found(parent, bs[b], u, g)),
    decreases bs.len(),
{
    if b == bs.len() - 1 {
        assert(bs.drop_last() =~= bs.take(b));
        assert(bs.drop_last().push(update_found(parent, bs[b], u, g)) =~= bs.update(b, update_found(parent, bs[b], u, g)));
    } else {
        let d = bs.drop_last();
        assert(d.take(b) =~= bs.take(b));
        assert(d[b] == bs[b]);
        lemma_update_buckets_at(parent, d, b, u, g);
        lemma_find_in_buckets_some(parent, d, u);
        assert(find_in(parent, d[b], u) is Some);
        assert(update_buckets(parent, d, u, g).push(bs.last()) =~= bs.update(b, update_found(parent, bs[b], u, g)));
    }
}

/// Inserting into a node below the child `(b, k)` of `n`, which no other
/// child holds, changes only that child.
proof fn lemma_reinsert_local(n: ElementTree, r: UndoEntry, b: int, k: int)
    requires
        n.uuid != r.parent,
        is_searchable(n.kind),
        0 <= b < n.buckets.len(),
        0 <= k < n.buckets[b].len(),
        findable(n.buckets[b][k], r.parent),
        forall|c: int, i: int|
            0 <= c < n.buckets.len() && 0 <= i < n.buckets[c].len() && (c != b || i != k) ==> !#[trigger] has_id(
                n.buckets[c][i],
                r.parent,
            ),
    ensures
        reinsert(n, r) == with_child(n, b, k, reinsert(n.buckets[b][k], r)),
{
    let p = r.parent;
    let g = reinsert_fn(r);
    let bs = n.buckets;
    let pre = bs.take(b);
    if find_in_buckets(n.uuid, pre, p) is Some {
        lemma_find_in_buckets_some(n.uuid, pre, p);
        let c = choose|c: int| 0 <= c < pre.len() && #[trigger] find_in(n.uuid, pre[c], p) is Some;
        lemma_find_in_has(n.uuid, pre[c], p);
        lemma_seq_has_id(bs[c], p);
        assert(pre[c] == bs[c]);
        let i = choose|i: int| 0 <= i < bs[c].len() && #[trigger] has_id(bs[c][i], p);
        assert(has_id(bs[c][i], p));
    }
    lemma_find_in_some(n.uuid, bs[b], p);
    assert(findable(bs[b][k], p));
    lemma_update_buckets_at(n.uuid, bs, b, p, g);
    let es = bs[b];
    if find_in(n.uuid, es.take(k), p) is Some {
        lemma_find_in_has(n.uuid, es.take(k), p);
        lemma_seq_has_id(es.take(k), p);
        let i = choose|i: int| 0 <= i < es.take(k).len() && #[trigger] has_id(es.take(k)[i], p);
        assert(es.take(k)[i] == bs[b][i]);
        assert(has_id(bs[b][i], p));
    }
    lemma_update_found_at(n.uuid, es, k, p, g);
    assert(reinsert(n, r) =~= with_child(n, b, k, reinsert(n.buckets[b][k], r)));
}

/// Inserting records whose parents are all found below the child `(b, k)`
/// of `n`, and in no other child, changes only that child.
proof fn lemma_reinsert_all_at(n: ElementTree, b: int, k: int, rs: Seq<UndoEntry>)
    requires
        0 <= b < n.buckets.len(),
        0 <= k < n.buckets[b].len(),
        is_searchable(n.kind),
        forall|j: int| 0 <= j < rs.len() ==> (#[trigger] rs[j]).parent != n.uuid,
        only_inside(n, b, k, rs),
        forall|q: int| 0 <= q < rs.len() ==> accepts(reinsert_all(n.buckets[b][k], rs.take(q)), #[trigger] rs[q]),
    ensures
        reinsert_all(n, rs) == with_child(n, b, k, reinsert_all(n.buckets[b][k], rs)),
    decreases rs.len(),
{
    if rs.len() == 0 {
        assert(n.buckets[b].update(k, n.buckets[b][k]) =~= n.buckets[b]);
        assert(n.buckets.update(b, n.buckets[b]) =~= n.buckets);
        assert(with_child(n, b, k, n.buckets[b][k]) =~= n);
    } else {
        let d = rs.drop_last();
        let r = rs.last();
        let last = rs.len() - 1;
        assert(forall|j: int| 0 <= j < d.len() ==> d[j] == rs[j]);
        assert(only_inside(n, b, k, d)) by {
            assert forall|j: int, c: int, i: int|
                0 <= j < d.len() && 0 <= c < n.buckets.len() && 0 <= i < n.buckets[c].len() && (c != b || i != k)
                    implies !has_id(#[trigger] n.buckets[c][i], #[trigger] d[j].parent) by {
                assert(d[j] == rs[j]);
            }
        }
        assert forall|q: int| 0 <= q < d.len() implies accepts(reinsert_all(n.buckets[b][k], d.take(q)), #[trigger] d[q]) by {
            assert(d.take(q) =~= rs.take(q));
            assert(d[q] == rs[q]);
        }
        lemma_reinsert_all_at(n, b, k, d);
        let y = reinsert_all(n.buckets[b][k], d);
        let m = with_child(n, b, k, y);
        assert(r == rs[last]);
        assert(rs.take(last) =~= d);
        lemma_accepts_findable(y, r);
        assert(findable(y, r.parent));
        assert forall|c: int, i: int|
            0 <= c < m.buckets.len() && 0 <= i < m.buckets[c].len() && (c != b || i != k) implies !#[trigger] has_id(
                m.buckets[c][i],
                r.parent,
            ) by {
            assert(m.buckets[c][i] == n.buckets[c][i]);
            assert(!has_id(n.buckets[c][i], rs[last].parent));
        }
        assert(m.buckets[b][k] == y);
        lemma_reinsert_local(m, r, b, k);
        assert(m.buckets[b].update(k, reinsert(y, r)) =~= n.buckets[b].update(k, reinsert(y, r)));
        assert(m.buckets.update(b, m.buckets[b].update(k, reinsert(y, r))) =~= n.buckets.update(
            b,
            n.buckets[b].update(k, reinsert(y, r)),
        ));
        assert(reinsert(m, r) =~= with_child(n, b, k, reinsert(y, r)));
    }
}

/// The children of a node of the right shape have the right shape, and a
/// node that cannot be searched below holds only leaves.
pub proof fn lemma_children_wf(t: ElementTree)
    requires
        tree_wf(t),
    ensures
        forall|b: int, i: int|
            0 <= b < t.buckets.len() && 0 <= i < t.buckets[b].len() ==> tree_wf(#[trigger] t.buckets[b][i]) && (
            is_searchable(t.kind) || t.buckets[b][i].buckets.len() == 0),
        t.buckets.len() > 0 ==> crate::update_spec::is_container_kind(t.kind),
{
    assert forall|b: int, i: int| 0 <= b < t.buckets.len() && 0 <= i < t.buckets[b].len() implies tree_wf(
        #[trigger] t.buckets[b][i],
    ) && (is_searchable(t.kind) || t.buckets[b][i].buckets.len() == 0) by {
        let x = t.buckets[b][i];
        if t.kind == ElementKind::CompositeState && b == 1 || t.kind == ElementKind::SimpleState {
            assert(x.kind == ElementKind::InternalTransition);
            assert(x.buckets.len() == 0);
            assert(tree_wf(x));
        }
    }
}

/// What the step lemmas below need of bucket `b` of `n`, which holds what
/// stays of the children `cs`.
pub open spec fn list_ok(n: ElementTree, b: int, cs: Seq<ElementTree>, u: Set<ModelUuid>) -> bool {
    &&& 0 <= b < n.buckets.len()
    &&& n.buckets[b] == prune_children(n.uuid, b, cs, u).0
    &&& seq_distinct(cs)
    &&& !seq_has_id(cs, n.uuid)
    &&& forall|c: int, i: int, x: ModelUuid|
        0 <= c < n.buckets.len() && c != b && 0 <= i < n.buckets[c].len() && #[trigger] has_id(n.buckets[c][i], x)
            ==> !seq_has_id(cs, x)
    &&& cs.len() <= usize::MAX
    &&& forall|i: int|
        0 <= i < cs.len() ==> tree_wf(#[trigger] cs[i]) && receiving_bucket(n.kind, b, cs[i].kind) == Some(b) && (
        is_searchable(n.kind) || cs[i].buckets.len() == 0)
}

pub open spec fn list_records(n: ElementTree, b: int, cs: Seq<ElementTree>, u: Set<ModelUuid>, k: int) -> Seq<UndoEntry> {
    prune_children(n.uuid, b, cs.take(k), u).1
}

/// After the records of the first `k` children, bucket `b` holds those
/// children followed by what stays of the others.
pub open spec fn list_restored(n: ElementTree, b: int, cs: Seq<ElementTree>, u: Set<ModelUuid>, k: int) -> bool {
    reinsert_all(n, list_records(n, b, cs, u, k)) == with_bucket(
        n,
        b,
        cs.take(k) + prune_children(n.uuid, b, cs.skip(k), u).0,
    )
}

/// Each of the records of the first `k` children is accepted, at its bucket
/// and position, by its parent when it comes.
pub open spec fn list_accepted(n: ElementTree, b: int, cs: Seq<ElementTree>, u: Set<ModelUuid>, k: int) -> bool {
    forall|q: int|
        0 <= q < list_records(n, b, cs, u, k).len() ==> accepts(reinsert_all(n, list_records(n, b, cs, u, k).take(q)), #[trigger] list_records(n, b, cs, u, k)[q])
}

#[verifier::spinoff_prover]
proof fn lemma_step_deleted(n: ElementTree, b: int, cs: Seq<ElementTree>, u: Set<ModelUuid>, j: int)
    requires
        list_ok(n, b, cs, u),
        0 <= j < cs.len(),
        u.contains(cs[j].uuid),
        list_restored(n, b, cs, u, j),
        list_accepted(n, b, cs, u, j),
    ensures
        list_restored(n, b, cs, u, j + 1),
        list_accepted(n, b, cs, u, j + 1),
{
    let p = n.uuid;
    let k = j + 1;
    lemma_prune_children_step(p, b, cs, j, u);
    lemma_kept_cons(p, b, cs, u, j);
    let pre = list_records(n, b, cs, u, j);
    let all = list_records(n, b, cs, u, k);
    let rest = prune_children(p, b, cs.skip(k), u).0;
    let st = with_bucket(n, b, cs.take(j) + prune_children(p, b, cs.skip(j), u).0);
    let c = cs[j];
    let e = UndoEntry { parent: p, element: c, bucket: b, position: j };
    assert(all == pre.push(e));
    assert(all.drop_last() =~= pre);
    assert(all.last() == e);
    assert(reinsert_all(n, all) == reinsert(st, e));
    assert(kept_of(c, u) =~= Seq::<ElementTree>::empty());
    assert(st.buckets[b] =~= cs.take(j) + rest);
    assert(receiving_bucket(n.kind, b, c.kind) == Some(b));
    assert((j as usize) as int == j);
    assert(placement(st, b, Some(j as usize), c.kind) == Some((b, j)));
    assert(reinsert(st, e) == with_inserted(st, b, j, c));
    assert((cs.take(j) + rest).insert(j, c) =~= cs.take(k) + rest);
    assert(st.buckets[b].insert(j, c) =~= cs.take(k) + rest);
    assert(st.buckets.update(b, st.buckets[b].insert(j, c)) =~= n.buckets.update(b, cs.take(k) + rest));
    assert(reinsert(st, e) =~= with_bucket(n, b, cs.take(k) + rest));
    assert(receives(st, e));
    lemma_accepts_here(st, e);
    assert forall|q: int| 0 <= q < all.len() implies accepts(reinsert_all(n, all.take(q)), #[trigger] all[q]) by {
        if q < pre.len() {
            assert(all.take(q) =~= pre.take(q));
            assert(all[q] == pre[q]);
        } else {
            assert(all.take(q) =~= pre);
            assert(all[q] == e);
        }
    }
}

/// The records of a kept child find their parents inside it, and no other
/// child of the bucket holds them.
proof fn lemma_kept_parents(n: ElementTree, b: int, cs: Seq<ElementTree>, u: Set<ModelUuid>, j: int)
    requires
        list_ok(n, b, cs, u),
        0 <= j < cs.len(),
        !u.contains(cs[j].uuid),
    ensures
        ({
            let st = with_bucket(n, b, cs.take(j) + prune_children(n.uuid, b, cs.skip(j), u).0);
            let tail = prune_tree(cs[j], u).1;
            &&& forall|q: int| 0 <= q < tail.len() ==> (#[trigger] tail[q]).parent != st.uuid
            &&& only_inside(st, b, j, tail)
            &&& st.buckets[b][j] == prune_tree(cs[j], u).0
            &&& 0 <= j < st.buckets[b].len()
        }),
{
    let p = n.uuid;
    let k = j + 1;
    lemma_kept_cons(p, b, cs, u, j);
    let rest = prune_children(p, b, cs.skip(k), u).0;
    let st = with_bucket(n, b, cs.take(j) + prune_children(p, b, cs.skip(j), u).0);
    let c = cs[j];
    let y = prune_tree(c, u).0;
    let tail = prune_tree(c, u).1;
    assert(kept_of(c, u) =~= seq![y]);
    let sb = cs.take(j) + (seq![y] + rest);
    assert(st.buckets[b] =~= sb);
    assert(sb[j] == y);
    lemma_record_parents(c, u);
    lemma_seq_distinct(cs);
    lemma_seq_has_id(cs, p);
    assert forall|q: int| 0 <= q < tail.len() implies (#[trigger] tail[q]).parent != st.uuid by {
        assert(has_id(c, tail[q].parent));
        if tail[q].parent == p {
            assert(has_id(cs[j], p));
        }
    }
    assert forall|q: int, cc: int, i: int|
        0 <= q < tail.len() && 0 <= cc < st.buckets.len() && 0 <= i < st.buckets[cc].len() && (cc != b || i != j)
            implies !has_id(#[trigger] st.buckets[cc][i], #[trigger] tail[q].parent) by {
        let x = tail[q].parent;
        assert(has_id(cs[j], x));
        if has_id(st.buckets[cc][i], x) {
            if cc != b {
                assert(st.buckets[cc][i] == n.buckets[cc][i]);
                lemma_seq_has_id(cs, x);
                assert(seq_has_id(cs, x));
            } else if i < j {
                assert(st.buckets[cc][i] == cs[i]);
            } else {
                assert(st.buckets[cc][i] == rest[i - j - 1]);
                lemma_seq_has_id(rest, x);
                assert(seq_has_id(rest, x));
                lemma_pruned_children_ids(p, b, cs.skip(k), u, x);
                lemma_seq_has_id(cs.skip(k), x);
                let m = choose|m: int| 0 <= m < cs.skip(k).len() && #[trigger] has_id(cs.skip(k)[m], x);
                assert(cs.skip(k)[m] == cs[k + m]);
            }
        }
    }
}

/// The records of a kept child, inserted after those of the children before
/// it, are accepted by their parents when they come.
#[verifier::spinoff_prover]
#[verifier::rlimit(40)]
proof fn lemma_kept_found(n: ElementTree, b: int, cs: Seq<ElementTree>, u: Set<ModelUuid>, j: int)
    requires
        list_ok(n, b, cs, u),
        0 <= j < cs.len(),
        !u.contains(cs[j].uuid),
        is_searchable(n.kind),
        list_restored(n, b, cs, u, j),
        list_accepted(n, b, cs, u, j),
        forall|q: int|
            0 <= q < prune_tree(cs[j], u).1.len() ==> accepts(reinsert_all(prune_tree(cs[j], u).0, prune_tree(cs[j], u).1.take(q)), #[trigger] prune_tree(cs[j], u).1[q]),
    ensures
        list_accepted(n, b, cs, u, j + 1),
{
    let p = n.uuid;
    let k = j + 1;
    lemma_prune_children_step(p, b, cs, j, u);
    let pre = list_records(n, b, cs, u, j);
    let all = list_records(n, b, cs, u, k);
    let st = with_bucket(n, b, cs.take(j) + prune_children(p, b, cs.skip(j), u).0);
    let y = prune_tree(cs[j], u).0;
    let tail = prune_tree(cs[j], u).1;
    assert(all == pre + tail);
    lemma_kept_parents(n, b, cs, u, j);
    assert forall|q: int| 0 <= q < all.len() implies accepts(reinsert_all(n, all.take(q)), #[trigger] all[q]) by {
        if q < pre.len() {
            assert(all.take(q) =~= pre.take(q));
            assert(all[q] == pre[q]);
        } else {
            let q2 = q - pre.len();
            let part = tail.take(q2);
            assert(all.take(q) =~= pre + part);
            assert(all[q] == tail[q2]);
            lemma_reinsert_all_concat(n, pre, part);
            assert(only_inside(st, b, j, part)) by {
                assert forall|q3: int, cc: int, i: int|
                    0 <= q3 < part.len() && 0 <= cc < st.buckets.len() && 0 <= i < st.buckets[cc].len() && (cc != b || i
                        != j) implies !has_id(#[trigger] st.buckets[cc][i], #[trigger] part[q3].parent) by {
                    assert(part[q3] == tail[q3]);
                }
            }
            assert forall|q3: int| 0 <= q3 < part.len() implies (#[trigger] part[q3]).parent != st.uuid by {
                assert(part[q3] == tail[q3]);
            }
            assert forall|q3: int| 0 <= q3 < part.len() implies accepts(reinsert_all(st.buckets[b][j], part.take(q3)), #[trigger] part[q3]) by {
                assert(part.take(q3) =~= tail.take(q3));
                assert(part[q3] == tail[q3]);
            }
            lemma_reinsert_all_at(st, b, j, part);
            let nn = with_child(st, b, j, reinsert_all(y, part));
            lemma_accepts_lift(st, b, j, reinsert_all(y, part), tail[q2]);
        }
    }
}

proof fn lemma_step_kept(n: ElementTree, b: int, cs: Seq<ElementTree>, u: Set<ModelUuid>, j: int)
    requires
        list_ok(n, b, cs, u),
        0 <= j < cs.len(),
        !u.contains(cs[j].uuid),
        list_restored(n, b, cs, u, j),
        list_accepted(n, b, cs, u, j),
    ensures
        list_restored(n, b, cs, u, j + 1),
        list_accepted(n, b, cs, u, j + 1),
    decreases cs, j,
{
    let p = n.uuid;
    let k = j + 1;
    lemma_prune_children_step(p, b, cs, j, u);
    lemma_kept_cons(p, b, cs, u, j);
    let pre = list_records(n, b, cs, u, j);
    let all = list_records(n, b, cs, u, k);
    let rest = prune_children(p, b, cs.skip(k), u).0;
    let st = with_bucket(n, b, cs.take(j) + prune_children(p, b, cs.skip(j), u).0);
    let c = cs[j];
    let y = prune_tree(c, u).0;
    let tail = prune_tree(c, u).1;
    assert(all == pre + tail);
    lemma_reinsert_all_concat(n, pre, tail);
    assert(kept_of(c, u) =~= seq![y]);
    let sb = cs.take(j) + (seq![y] + rest);
    assert(st.buckets[b] =~= sb);
    lemma_seq_distinct(cs);
    lemma_reinsert_tree(c, u);
    if tail.len() == 0 {
        assert(tail =~= Seq::<UndoEntry>::empty());
        assert(reinsert_all(st, tail) == st);
        assert(sb =~= cs.take(k) + rest);
        assert(st =~= with_bucket(n, b, cs.take(k) + rest));
        assert(all =~= pre);
    } else {
        if !is_searchable(n.kind) {
            lemma_prune_leaf(c, u);
        }
        lemma_kept_parents(n, b, cs, u, j);
        lemma_reinsert_all_at(st, b, j, tail);
        assert(sb.update(j, c) =~= cs.take(k) + rest);
        assert(st.buckets[b].update(j, c) =~= cs.take(k) + rest);
        assert(st.buckets.update(b, st.buckets[b].update(j, c)) =~= n.buckets.update(b, cs.take(k) + rest));
        assert(with_child(st, b, j, c) =~= with_bucket(n, b, cs.take(k) + rest));
        lemma_kept_found(n, b, cs, u, j);
    }
}

/// Inserting back, in order, the records of the pruning of the first `k`
/// children of bucket `b` of `n`, each into the node found for its parent,
/// turns the pruned bucket into those children followed by what stays of the
/// others; each parent accepts its record when it comes.
proof fn lemma_reinsert_list(n: ElementTree, b: int, cs: Seq<ElementTree>, u: Set<ModelUuid>, k: int)
    requires
        list_ok(n, b, cs, u),
        0 <= k <= cs.len(),
    ensures
        list_restored(n, b, cs, u, k),
        list_accepted(n, b, cs, u, k),
    decreases cs, k,
{
    if k == 0 {
        assert(cs.take(0).len() == 0);
        assert(prune_children(n.uuid, b, cs.take(0), u).1 == Seq::<UndoEntry>::empty());
        assert(cs.skip(0) =~= cs);
        assert(cs.take(0) + prune_children(n.uuid, b, cs.skip(0), u).0 =~= n.buckets[b]);
        assert(n.buckets.update(b, n.buckets[b]) =~= n.buckets);
        assert(with_bucket(n, b, n.buckets[b]) =~= n);
    } else {
        lemma_reinsert_list(n, b, cs, u, k - 1);
        if u.contains(cs[k - 1].uuid) {
            lemma_step_deleted(n, b, cs, u, k - 1);
        } else {
            lemma_step_kept(n, b, cs, u, k - 1);
        }
    }
}

#[verifier::rlimit(80)]
#[verifier::spinoff_prover]
proof fn lemma_reinsert_buckets(t: ElementTree, u: Set<ModelUuid>, j: int)
    requires
        distinct(t),
        tree_wf(t),
        0 <= j <= t.buckets.len(),
    ensures
        reinsert_all(prune_tree(t, u).0, prune_buckets(t.kind, t.uuid, t.buckets.take(j), u).1) == (ElementTree {
            buckets: partly_restored(t, u, j),
            ..t
        }),
        forall|q: int|
            0 <= q < prune_buckets(t.kind, t.uuid, t.buckets.take(j), u).1.len() ==> accepts(reinsert_all(prune_tree(t, u).0, prune_buckets(t.kind, t.uuid, t.buckets.take(j), u).1.take(q)), #[trigger] prune_buckets(t.kind, t.uuid, t.buckets.take(j), u).1[q]),
    decreases t, j,
{
    let bs = t.buckets;
    lemma_pruned_buckets(t.kind, t.uuid, bs, u);
    if j == 0 {
        assert(bs.take(0).len() == 0);
        assert(prune_buckets(t.kind, t.uuid, bs.take(0), u).1 == Seq::<UndoEntry>::empty());
        assert(prune_buckets(t.kind, t.uuid, bs, u).0 =~= partly_restored(t, u, 0));
        assert(prune_tree(t, u).0 =~= (ElementTree { buckets: partly_restored(t, u, 0), ..t }));
    } else {
        let i = j - 1;
        lemma_reinsert_buckets(t, u, i);
        lemma_bucket_records_step(t.kind, t.uuid, bs, u, i);
        let pre = prune_buckets(t.kind, t.uuid, bs.take(i), u).1;
        let more = crate::prune_facts::bucket_records(t.kind, t.uuid, i, bs[i], u);
        let all = prune_buckets(t.kind, t.uuid, bs.take(j), u).1;
        let st = ElementTree { buckets: partly_restored(t, u, i), ..t };
        assert(all == pre + more);
        lemma_reinsert_all_concat(prune_tree(t, u).0, pre, more);
        if crate::delete::bucket_kept_whole(t.kind, i, bs[i], u) {
            assert(partly_restored(t, u, i) =~= partly_restored(t, u, j));
            assert(all =~= pre);
        } else {
            let cs = bs[i];
            lemma_buckets_distinct(bs);
            lemma_buckets_have_id(bs, t.uuid);
            lemma_seq_has_id(cs, t.uuid);
            if seq_has_id(cs, t.uuid) {
                assert(seq_has_id(bs[i], t.uuid));
            }
            assert forall|c: int, q: int, x: ModelUuid|
                0 <= c < st.buckets.len() && c != i && 0 <= q < st.buckets[c].len() && #[trigger] has_id(
                    st.buckets[c][q],
                    x,
                ) implies !seq_has_id(cs, x) by {
                if c < i {
                    assert(st.buckets[c] == bs[c]);
                    lemma_seq_has_id(bs[c], x);
                    assert(seq_has_id(bs[c], x));
                } else {
                    lemma_seq_has_id(st.buckets[c], x);
                    assert(seq_has_id(st.buckets[c], x));
                    if !crate::delete::bucket_kept_whole(t.kind, c, bs[c], u) {
                        lemma_pruned_children_ids(t.uuid, c, bs[c], u, x);
                    }
                    assert(seq_has_id(bs[c], x));
                }
            }
            lemma_children_wf(t);
            assert forall|q: int| 0 <= q < cs.len() implies tree_wf(#[trigger] cs[q]) && receiving_bucket(st.kind, i, cs[q].kind)
                == Some(i) && (is_searchable(st.kind) || cs[q].buckets.len() == 0) by {
                crate::laws_edit::lemma_receives_back(t, i, q);
            }
            assert(cs.take(cs.len() as int) =~= cs);
            assert(list_ok(st, i, cs, u));
            lemma_reinsert_list(st, i, cs, u, cs.len() as int);
            assert(cs.skip(cs.len() as int).len() == 0);
            assert(prune_children(t.uuid, i, cs.skip(cs.len() as int), u).0 == Seq::<ElementTree>::empty());
            assert(cs.take(cs.len() as int) + Seq::<ElementTree>::empty() =~= cs);
            assert(st.buckets.update(i, cs) =~= partly_restored(t, u, j));
            assert forall|q: int| 0 <= q < all.len() implies accepts(reinsert_all(prune_tree(t, u).0, all.take(q)), #[trigger] all[q]) by {
                if q < pre.len() {
                    assert(all.take(q) =~= pre.take(q));
                    assert(all[q] == pre[q]);
                } else {
                    let q2 = q - pre.len();
                    assert(all.take(q) =~= pre + more.take(q2));
                    assert(all[q] == more[q2]);
                    lemma_reinsert_all_concat(prune_tree(t, u).0, pre, more.take(q2));
                }
            }
        }
    }
}

/// Inserting back, in order, the records of the pruning of `t`, each into
/// the node found for its parent, gives `t` back when `t` has the right
/// shape and no two of its nodes share a uuid; each parent accepts its
/// record, at its bucket and position, when it comes.
pub proof fn lemma_reinsert_tree(t: ElementTree, u: Set<ModelUuid>)
    requires
        distinct(t),
        tree_wf(t),
    ensures
        reinsert_all(prune_tree(t, u).0, prune_tree(t, u).1) == t,
        forall|q: int|
            0 <= q < prune_tree(t, u).1.len() ==> accepts(reinsert_all(prune_tree(t, u).0, prune_tree(t, u).1.take(q)), #[trigger] prune_tree(t, u).1[q]),
    decreases t, t.buckets.len() + 1,
{
    lemma_reinsert_buckets(t, u, t.buckets.len() as int);
    assert(t.buckets.take(t.buckets.len() as int) =~= t.buckets);
    assert(partly_restored(t, u, t.buckets.len() as int) =~= t.buckets);
}


} // verus!
