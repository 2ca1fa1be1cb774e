use vstd::prelude::*;

use crate::delete::{
    lemma_prune_children_step, prune_buckets, prune_children, prune_diagram, prune_tree, UndoEntry,
};
use crate::ids::ModelUuid;
use crate::model::{DiagramTree, ElementTree};
use crate::prune_facts::{
    kept_of, lemma_bucket_records_step, lemma_kept_cons, lemma_pruned_buckets, lemma_pruned_children_ids,
    lemma_record_parents, pruned_bucket,
};
use crate::restore_spec::{
    diagram_distinct, diagram_root, distinct, has_id, lemma_buckets_distinct, lemma_buckets_have_id,
    lemma_put_back_all_concat, lemma_put_back_local, lemma_seq_distinct, lemma_seq_has_id, put_back, put_back_all,
    restored, seq_distinct, seq_has_id,
};

verus! {

pub open spec fn with_child(t: ElementTree, b: int, k: int, c: ElementTree) -> ElementTree {
    ElementTree { buckets: t.buckets.update(b, t.buckets[b].update(k, c)), ..t }
}

pub open spec fn with_bucket(t: ElementTree, b: int, s: Seq<ElementTree>) -> ElementTree {
    ElementTree { buckets: t.buckets.update(b, s), ..t }
}

/// Every record of `rs` names as parent a node inside the child `(b, k)` of
/// `n`, and no other child of `n`, nor `n` itself.
pub open spec fn only_inside(n: ElementTree, b: int, k: int, rs: Seq<UndoEntry>) -> bool {
    forall|j: int, c: int, i: int|
        0 <= j < rs.len() && 0 <= c < n.buckets.len() && 0 <= i < n.buckets[c].len() && (c != b || i != k)
            ==> !has_id(#[trigger] n.buckets[c][i], #[trigger] rs[j].parent)
}

proof fn lemma_put_back_all_at(n: ElementTree, b: int, k: int, rs: Seq<UndoEntry>)
    requires
        0 <= b < n.buckets.len(),
        0 <= k < n.buckets[b].len(),
        forall|j: int| 0 <= j < rs.len() ==> (#[trigger] rs[j]).parent != n.uuid,
        only_inside(n, b, k, rs),
    ensures
        put_back_all(n, rs) == with_child(n, b, k, put_back_all(n.buckets[b][k], rs)),
    decreases rs.len(),
{
    if rs.len() == 0 {
        assert(n.buckets[b].update(k, n.buckets[b][k]) =~= n.buckets[b]);
        assert(n.buckets.update(b, n.buckets[b]) =~= n.buckets);
        assert(with_child(n, b, k, n.buckets[b][k]) =~= n);
    } else {
        let d = rs.drop_last();
        let r = rs.last();
        assert(forall|j: int| 0 <= j < d.len() ==> d[j] == rs[j]);
        assert(only_inside(n, b, k, d)) by {
            assert forall|j: int, c: int, i: int|
                0 <= j < d.len() && 0 <= c < n.buckets.len() && 0 <= i < n.buckets[c].len() && (c != b || i != k)
                    implies !has_id(#[trigger] n.buckets[c][i], #[trigger] d[j].parent) by {
                assert(d[j] == rs[j]);
            }
        }
        lemma_put_back_all_at(n, b, k, d);
        let y = put_back_all(n.buckets[b][k], d);
        let m = with_child(n, b, k, y);
        assert(r == rs[rs.len() - 1]);
        assert forall|c: int, i: int|
            0 <= c < m.buckets.len() && 0 <= i < m.buckets[c].len() && (c != b || i != k) implies !#[trigger] has_id(
                m.buckets[c][i],
                r.parent,
            ) by {
            assert(m.buckets[c][i] == n.buckets[c][i]);
            assert(!has_id(n.buckets[c][i], rs[rs.len() - 1].parent));
        }
        lemma_put_back_local(m, r, b, k);
        assert(m.buckets[b][k] == y);
        assert(m.buckets[b].update(k, put_back(y, r)) =~= n.buckets[b].update(k, put_back(y, r)));
        assert(m.buckets.update(b, m.buckets[b].update(k, put_back(y, r))) =~= n.buckets.update(
            b,
            n.buckets[b].update(k, put_back(y, r)),
        ));
        assert(put_back(m, r) =~= with_child(n, b, k, put_back(y, r)));
    }
}

/// Putting back, in order, the records of the pruning of the first `k`
/// children of bucket `b` turns the pruned bucket into those children
/// followed by what stays of the others.
proof fn lemma_restore_list(n: ElementTree, b: int, cs: Seq<ElementTree>, u: Set<ModelUuid>, k: int)
    requires
        0 <= b < n.buckets.len(),
        0 <= k <= cs.len(),
        n.buckets[b] == prune_children(n.uuid, b, cs, u).0,
        seq_distinct(cs),
        !seq_has_id(cs, n.uuid),
        forall|c: int, i: int, x: ModelUuid|
            0 <= c < n.buckets.len() && c != b && 0 <= i < n.buckets[c].len() && #[trigger] has_id(n.buckets[c][i], x)
                ==> !seq_has_id(cs, x),
    ensures
        put_back_all(n, prune_children(n.uuid, b, cs.take(k), u).1) == with_bucket(
            n,
            b,
            cs.take(k) + prune_children(n.uuid, b, cs.skip(k), u).0,
        ),
    decreases cs, k,
{
    let p = n.uuid;
    if k == 0 {
        assert(cs.take(0).len() == 0);
        assert(prune_children(p, b, cs.take(0), u).1 == Seq::<UndoEntry>::empty());
        assert(cs.skip(0) =~= cs);
        assert(cs.take(0) + prune_children(p, b, cs.skip(0), u).0 =~= n.buckets[b]);
        assert(n.buckets.update(b, n.buckets[b]) =~= n.buckets);
        assert(with_bucket(n, b, n.buckets[b]) =~= n);
    } else {
        let j = k - 1;
        lemma_restore_list(n, b, cs, u, j);
        lemma_prune_children_step(p, b, cs, j, u);
        lemma_kept_cons(p, b, cs, u, j);
        let pre = prune_children(p, b, cs.take(j), u).1;
        let rest = prune_children(p, b, cs.skip(k), u).0;
        let st = with_bucket(n, b, cs.take(j) + prune_children(p, b, cs.skip(j), u).0);
        let c = cs[j];
        if u.contains(c.uuid) {
            let e = UndoEntry { parent: p, element: c, bucket: b, position: j };
            assert(prune_children(p, b, cs.take(k), u).1 == pre.push(e));
            assert(pre.push(e) =~= pre + seq![e]);
            lemma_put_back_all_concat(n, pre, seq![e]);
            assert(seq![e].drop_last() =~= Seq::<UndoEntry>::empty());
            assert(put_back_all(st, seq![e].drop_last()) == st);
            assert(seq![e].last() == e);
            assert(put_back_all(st, seq![e]) == put_back(st, e));
            assert(kept_of(c, u) =~= Seq::<ElementTree>::empty());
            assert(st.buckets[b] =~= cs.take(j) + rest);
            assert((cs.take(j) + rest).insert(j, c) =~= cs.take(k) + rest);
            assert(st.buckets[b].insert(j, c) =~= cs.take(k) + rest);
            assert(st.buckets.update(b, st.buckets[b].insert(j, c)) =~= n.buckets.update(b, cs.take(k) + rest));
            assert(put_back(st, e) == crate::edit_spec::with_inserted(st, b, j, c));
            assert(put_back(st, e) =~= with_bucket(n, b, cs.take(k) + rest));
        } else {
            let y = prune_tree(c, u).0;
            let tail = prune_tree(c, u).1;
            assert(prune_children(p, b, cs.take(k), u).1 == pre + tail);
            lemma_put_back_all_concat(n, pre, tail);
            assert(kept_of(c, u) =~= seq![y]);
            let sb = cs.take(j) + (seq![y] + rest);
            assert(st.buckets[b] =~= sb);
            assert(sb[j] == y);
            lemma_record_parents(c, u);
            lemma_seq_distinct(cs);
            lemma_seq_has_id(cs, p);
            assert forall|q: int| 0 <= q < tail.len() implies (#[trigger] tail[q]).parent != st.uuid by {
                assert(has_id(c, tail[q].parent));
                if tail[q].parent == p {
                    assert(has_id(cs[j], p));
                }
            }
            assert forall|q: int, cc: int, i: int|
                0 <= q < tail.len() && 0 <= cc < st.buckets.len() && 0 <= i < st.buckets[cc].len() && (cc != b || i
                    != j) implies !has_id(#[trigger] st.buckets[cc][i], #[trigger] tail[q].parent) by {
                let x = tail[q].parent;
                assert(has_id(cs[j], x));
                if has_id(st.buckets[cc][i], x) {
                    if cc != b {
                        assert(st.buckets[cc][i] == n.buckets[cc][i]);
                        lemma_seq_has_id(cs, x);
                        assert(seq_has_id(cs, x));
                    } else if i < j {
                        assert(st.buckets[cc][i] == cs[i]);
                    } else {
                        assert(st.buckets[cc][i] == rest[i - j - 1]);
                        lemma_seq_has_id(rest, x);
                        assert(seq_has_id(rest, x));
                        lemma_pruned_children_ids(p, b, cs.skip(k), u, x);
                        lemma_seq_has_id(cs.skip(k), x);
                        let m = choose|m: int| 0 <= m < cs.skip(k).len() && #[trigger] has_id(cs.skip(k)[m], x);
                        assert(cs.skip(k)[m] == cs[k + m]);
                    }
                }
            }
            lemma_put_back_all_at(st, b, j, tail);
            lemma_restore_tree(c, u);
            assert(sb.update(j, c) =~= cs.take(k) + rest);
            assert(st.buckets[b].update(j, c) =~= cs.take(k) + rest);
            assert(st.buckets.update(b, st.buckets[b].update(j, c)) =~= n.buckets.update(b, cs.take(k) + rest));
            assert(with_child(st, b, j, c) =~= with_bucket(n, b, cs.take(k) + rest));
        }
    }
}

/// The buckets of `t` below `j` restored, the others as pruning leaves them.
pub open spec fn partly_restored(t: ElementTree, u: Set<ModelUuid>, j: int) -> Seq<Seq<ElementTree>> {
    Seq::new(
        t.buckets.len(),
        |i: int|
            if i < j {
                t.buckets[i]
            } else {
                pruned_bucket(t.kind, t.uuid, i, t.buckets[i], u)
            },
    )
}

proof fn lemma_restore_buckets(t: ElementTree, u: Set<ModelUuid>, j: int)
    requires
        distinct(t),
        0 <= j <= t.buckets.len(),
    ensures
        put_back_all(prune_tree(t, u).0, prune_buckets(t.kind, t.uuid, t.buckets.take(j), u).1) == (ElementTree {
            buckets: partly_restored(t, u, j),
            ..t
        }),
    decreases t, j,
{
    let bs = t.buckets;
    lemma_pruned_buckets(t.kind, t.uuid, bs, u);
    if j == 0 {
        assert(bs.take(0).len() == 0);
        assert(prune_buckets(t.kind, t.uuid, bs.take(0), u).1 == Seq::<UndoEntry>::empty());
        assert(prune_buckets(t.kind, t.uuid, bs, u).0 =~= partly_restored(t, u, 0));
        assert(prune_tree(t, u).0 =~= (ElementTree { buckets: partly_restored(t, u, 0), ..t }));
    } else {
        let i = j - 1;
        lemma_restore_buckets(t, u, i);
        lemma_bucket_records_step(t.kind, t.uuid, bs, u, i);
        let pre = prune_buckets(t.kind, t.uuid, bs.take(i), u).1;
        let st = ElementTree { buckets: partly_restored(t, u, i), ..t };
        lemma_put_back_all_concat(prune_tree(t, u).0, pre, crate::prune_facts::bucket_records(t.kind, t.uuid, i, bs[i], u));
        if crate::delete::bucket_kept_whole(t.kind, i, bs[i], u) {
            assert(partly_restored(t, u, i) =~= partly_restored(t, u, j));
        } else {
            let cs = bs[i];
            lemma_buckets_distinct(bs);
            lemma_buckets_have_id(bs, t.uuid);
            lemma_seq_has_id(cs, t.uuid);
            if seq_has_id(cs, t.uuid) {
                assert(seq_has_id(bs[i], t.uuid));
            }
            assert forall|c: int, q: int, x: ModelUuid|
                0 <= c < st.buckets.len() && c != i && 0 <= q < st.buckets[c].len() && #[trigger] has_id(
                    st.buckets[c][q],
                    x,
                ) implies !seq_has_id(cs, x) by {
                if c < i {
                    assert(st.buckets[c] == bs[c]);
                    lemma_seq_has_id(bs[c], x);
                    assert(seq_has_id(bs[c], x));
                } else {
                    lemma_seq_has_id(st.buckets[c], x);
                    assert(seq_has_id(st.buckets[c], x));
                    if !crate::delete::bucket_kept_whole(t.kind, c, bs[c], u) {
                        lemma_pruned_children_ids(t.uuid, c, bs[c], u, x);
                    }
                    assert(seq_has_id(bs[c], x));
                }
            }
            assert(cs.take(cs.len() as int) =~= cs);
            lemma_restore_list(st, i, cs, u, cs.len() as int);
            assert(cs.skip(cs.len() as int).len() == 0);
            assert(prune_children(t.uuid, i, cs.skip(cs.len() as int), u).0 == Seq::<ElementTree>::empty());
            assert(cs.take(cs.len() as int) + Seq::<ElementTree>::empty() =~= cs);
            assert(st.buckets.update(i, cs) =~= partly_restored(t, u, j));
        }
    }
}

/// Putting back the records of the pruning of `t`, in order, gives `t` back
/// when no two of its nodes share a uuid.
pub proof fn lemma_restore_tree(t: ElementTree, u: Set<ModelUuid>)
    requires
        distinct(t),
    ensures
        put_back_all(prune_tree(t, u).0, prune_tree(t, u).1) == t,
    decreases t, t.buckets.len() + 1,
{
    lemma_restore_buckets(t, u, t.buckets.len() as int);
    assert(t.buckets.take(t.buckets.len() as int) =~= t.buckets);
    assert(partly_restored(t, u, t.buckets.len() as int) =~= t.buckets);
}

/// Deleting and then putting back, one after the other in the order of the
/// records, each removed element into the node (or the diagram) it was
/// removed from, at its bucket and position, gives the diagram back, when no
/// two nodes of the diagram share a uuid.
pub proof fn law_restore_deleted(d: DiagramTree, u: Set<ModelUuid>)
    requires
        diagram_distinct(d),
    ensures
        restored(prune_diagram(d, u).0, prune_diagram(d, u).1) == d,
{
    let root = diagram_root(d);
    crate::delete::lemma_prune_one_bucket(root, u);
    assert(diagram_root(prune_diagram(d, u).0) =~= prune_tree(root, u).0);
    lemma_restore_tree(root, u);
    assert(restored(prune_diagram(d, u).0, prune_diagram(d, u).1) =~= d);
}

} // verus!
