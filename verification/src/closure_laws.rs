use vstd::prelude::*;

use crate::closure::{
    closure_base, is_link_closure, lemma_mark_extends, lemma_mark_seq_extends, lemma_tree_uuids_leaf, mark, mark_buckets,
    mark_seq,
};
use crate::delete::{bucket_kept_whole, prune_buckets, prune_children, prune_diagram, prune_tree};
use crate::ids::ModelUuid;
use crate::model::{DiagramTree, ElementKind, ElementTree, UmlStateMachineElementRef};
use crate::reinsert_law::lemma_children_wf;
use crate::tree::{
    all_nodes, closed_under_links, dangles, flatten, flatten_buckets, flatten_seq, is_link_kind, lemma_select_concat,
    lemma_select_single, select, tree_uuids, uuid_set,
};
use crate::wf::{diagram_wf, tree_wf};

verus! {

/// What a node is known by after a deletion: its uuid, its kind and the
/// endpoints it links.
pub type NodeSig = (ModelUuid, ElementKind, Seq<UmlStateMachineElementRef>);

pub open spec fn sig(t: ElementTree) -> NodeSig {
    (t.uuid, t.kind, t.links)
}

/// The signatures of the nodes of `s`.
pub open spec fn sigs(s: Seq<ElementTree>) -> Set<NodeSig> {
    Set::new(|x: NodeSig| exists|i: int| 0 <= i < s.len() && #[trigger] sig(s[i]) == x)
}

/// The signatures whose uuid is not in `w`.
pub open spec fn outside(w: Set<ModelUuid>) -> spec_fn(NodeSig) -> bool {
    |x: NodeSig| !w.contains(x.0)
}

/// Every node of `s` satisfies `f`.
pub open spec fn every(s: Seq<ElementTree>, f: spec_fn(ElementTree) -> bool) -> bool {
    forall|i: int| 0 <= i < s.len() ==> f(#[trigger] s[i])
}

/// No two nodes of `s` share a uuid.
pub open spec fn unique_ids(s: Seq<ElementTree>) -> bool {
    forall|i: int, j: int|
        #![trigger s[i], s[j]]
        0 <= i < s.len() && 0 <= j < s.len() && s[i].uuid == s[j].uuid ==> i == j
}

/// A composite state `n` that stays when `w` is deleted keeps one of its
/// regions, if it has any.
pub open spec fn keeps_a_region(w: Set<ModelUuid>, n: ElementTree) -> bool {
    !w.contains(n.uuid) && n.kind == ElementKind::CompositeState && n.buckets.len() > 2 && n.buckets[2].len() > 0
        ==> exists|i: int| 0 <= i < n.buckets[2].len() && !w.contains(#[trigger] n.buckets[2][i].uuid)
}

/// Deleting `w` takes the whole subtree of the node `n` when it takes `n`,
/// and keeps a region of `n` when `n` stays.
pub open spec fn prunes_cleanly(w: Set<ModelUuid>) -> spec_fn(ElementTree) -> bool {
    |n: ElementTree| (w.contains(n.uuid) ==> tree_uuids(n).subset_of(w)) && keeps_a_region(w, n)
}

// ---------------------------------------------------------------------------
// Lists of nodes
// ---------------------------------------------------------------------------

pub proof fn lemma_every_split(a: Seq<ElementTree>, b: Seq<ElementTree>, f: spec_fn(ElementTree) -> bool)
    requires
        every(a + b, f),
    ensures
        every(a, f),
        every(b, f),
{
    let ab = a + b;
    assert forall|i: int| 0 <= i < a.len() implies f(#[trigger] a[i]) by {
        assert(ab[i] == a[i]);
    }
    assert forall|i: int| 0 <= i < b.len() implies f(#[trigger] b[i]) by {
        assert(ab[i + a.len()] == b[i]);
    }
}

pub proof fn lemma_every_join(a: Seq<ElementTree>, b: Seq<ElementTree>, f: spec_fn(ElementTree) -> bool)
    requires
        every(a, f),
        every(b, f),
    ensures
        every(a + b, f),
{
    let ab = a + b;
    assert forall|i: int| 0 <= i < ab.len() implies f(#[trigger] ab[i]) by {
        if i < a.len() {
            assert(ab[i] == a[i]);
        } else {
            assert(ab[i] == b[i - a.len()]);
        }
    }
}

pub proof fn lemma_unique_split(a: Seq<ElementTree>, b: Seq<ElementTree>)
    requires
        unique_ids(a + b),
    ensures
        unique_ids(a),
        unique_ids(b),
        uuid_set(a).disjoint(uuid_set(b)),
{
    let ab = a + b;
    assert forall|i: int, j: int| 0 <= i < a.len() && 0 <= j < a.len() && a[i].uuid == a[j].uuid implies i == j by {
        assert(ab[i] == a[i]);
        assert(ab[j] == a[j]);
    }
    assert forall|i: int, j: int| 0 <= i < b.len() && 0 <= j < b.len() && b[i].uuid == b[j].uuid implies i == j by {
        assert(ab[i + a.len()] == b[i]);
        assert(ab[j + a.len()] == b[j]);
    }
    assert forall|x: ModelUuid| uuid_set(a).contains(x) implies !uuid_set(b).contains(x) by {
        if uuid_set(b).contains(x) {
            let i = choose|i: int| 0 <= i < a.len() && all_nodes()(a[i]) && #[trigger] a[i].uuid == x;
            let j = choose|j: int| 0 <= j < b.len() && all_nodes()(b[j]) && #[trigger] b[j].uuid == x;
            assert(ab[i] == a[i]);
            assert(ab[j + a.len()] == b[j]);
        }
    }
}

/// The uuid of a node of `s` is among the uuids of `s`.
pub proof fn lemma_in_uuid_set(s: Seq<ElementTree>, i: int)
    requires
        0 <= i < s.len(),
    ensures
        uuid_set(s).contains(s[i].uuid),
{
    assert(all_nodes()(s[i]));
}

pub proof fn lemma_sigs_concat(a: Seq<ElementTree>, b: Seq<ElementTree>)
    ensures
        sigs(a + b) == sigs(a).union(sigs(b)),
{
    let ab = a + b;
    assert forall|x: NodeSig| sigs(ab).contains(x) implies sigs(a).union(sigs(b)).contains(x) by {
        let i = choose|i: int| 0 <= i < ab.len() && #[trigger] sig(ab[i]) == x;
        if i < a.len() {
            assert(ab[i] == a[i]);
            assert(sig(a[i]) == x);
        } else {
            assert(ab[i] == b[i - a.len()]);
            assert(sig(b[i - a.len()]) == x);
        }
    }
    assert forall|x: NodeSig| sigs(a).union(sigs(b)).contains(x) implies sigs(ab).contains(x) by {
        if sigs(a).contains(x) {
            let i = choose|i: int| 0 <= i < a.len() && #[trigger] sig(a[i]) == x;
            assert(ab[i] == a[i]);
            assert(sig(ab[i]) == x);
        } else {
            let i = choose|i: int| 0 <= i < b.len() && #[trigger] sig(b[i]) == x;
            assert(ab[i + a.len()] == b[i]);
            assert(sig(ab[i + a.len()]) == x);
        }
    }
    assert(sigs(ab) =~= sigs(a).union(sigs(b)));
}

pub proof fn lemma_sigs_single(t: ElementTree)
    ensures
        sigs(seq![t]) == set![sig(t)],
{
    let s = seq![t];
    assert(sig(s[0]) == sig(t));
    assert(sigs(s) =~= set![sig(t)]);
}

pub proof fn lemma_sigs_empty(s: Seq<ElementTree>)
    requires
        s.len() == 0,
    ensures
        sigs(s) == Set::<NodeSig>::empty(),
{
    assert(sigs(s) =~= Set::<NodeSig>::empty());
}

// ---------------------------------------------------------------------------
// What stays of a deletion
// ---------------------------------------------------------------------------

/// When deleting `w` takes whole subtrees and keeps a region of every
/// composite state that stays, the nodes that stay are exactly those outside
/// `w`, with their uuids, kinds and endpoints.
pub proof fn lemma_pruned_tree_sigs(t: ElementTree, w: Set<ModelUuid>)
    requires
        !w.contains(t.uuid),
        every(flatten(t), prunes_cleanly(w)),
    ensures
        sigs(flatten(prune_tree(t, w).0)) == sigs(flatten(t)).filter(outside(w)),
    decreases t,
{
    let fb = flatten_buckets(t.buckets);
    assert(flatten(t) == seq![t] + fb);
    lemma_every_split(seq![t], fb, prunes_cleanly(w));
    assert(seq![t][0] == t);
    assert(prunes_cleanly(w)(t));
    lemma_pruned_buckets_sigs(t.kind, t.uuid, t.buckets, w);
    let t2 = prune_tree(t, w).0;
    let fb2 = flatten_buckets(t2.buckets);
    assert(flatten(t2) == seq![t2] + fb2);
    lemma_sigs_concat(seq![t], fb);
    lemma_sigs_concat(seq![t2], fb2);
    lemma_sigs_single(t);
    lemma_sigs_single(t2);
    assert(sig(t2) == sig(t));
    assert(sigs(flatten(t2)) =~= sigs(flatten(t)).filter(outside(w)));
}

pub proof fn lemma_pruned_buckets_sigs(kind: ElementKind, uuid: ModelUuid, bs: Seq<Seq<ElementTree>>, w: Set<ModelUuid>)
    requires
        every(flatten_buckets(bs), prunes_cleanly(w)),
        kind == ElementKind::CompositeState && bs.len() > 2 && bs[2].len() > 0 ==> exists|i: int|
            0 <= i < bs[2].len() && !w.contains(#[trigger] bs[2][i].uuid),
    ensures
        sigs(flatten_buckets(prune_buckets(kind, uuid, bs, w).0)) == sigs(flatten_buckets(bs)).filter(outside(w)),
    decreases bs,
{
    let res = prune_buckets(kind, uuid, bs, w).0;
    if bs.len() == 0 {
        lemma_sigs_empty(flatten_buckets(bs));
        lemma_sigs_empty(flatten_buckets(res));
        assert(sigs(flatten_buckets(bs)).filter(outside(w)) =~= Set::<NodeSig>::empty());
    } else {
        let dl = bs.drop_last();
        let last = bs.last();
        assert(flatten_buckets(bs) == flatten_buckets(dl) + flatten_seq(last));
        lemma_every_split(flatten_buckets(dl), flatten_seq(last), prunes_cleanly(w));
        assert(dl.len() > 2 ==> dl[2] == bs[2]);
        lemma_pruned_buckets_sigs(kind, uuid, dl, w);
        let pre = prune_buckets(kind, uuid, dl, w).0;
        let b = bs.len() - 1;
        lemma_sigs_concat(flatten_buckets(dl), flatten_seq(last));
        if bucket_kept_whole(kind, b, last, w) {
            if last.len() > 0 {
                assert(bs[2] == last);
                let i = choose|i: int| 0 <= i < bs[2].len() && !w.contains(#[trigger] bs[2][i].uuid);
                assert(!w.contains(last[i].uuid));
            }
            assert(res == pre.push(last));
            assert(res.drop_last() =~= pre);
            assert(flatten_buckets(res) == flatten_buckets(pre) + flatten_seq(last));
            assert(flatten_seq(last) == Seq::<ElementTree>::empty());
            lemma_sigs_empty(flatten_seq(last));
            lemma_sigs_concat(flatten_buckets(pre), flatten_seq(last));
        } else {
            lemma_pruned_children_sigs(uuid, b, last, w);
            let cs2 = prune_children(uuid, b, last, w).0;
            assert(res == pre.push(cs2));
            assert(res.drop_last() =~= pre);
            assert(flatten_buckets(res) == flatten_buckets(pre) + flatten_seq(cs2));
            lemma_sigs_concat(flatten_buckets(pre), flatten_seq(cs2));
        }
        assert(sigs(flatten_buckets(res)) =~= sigs(flatten_buckets(bs)).filter(outside(w)));
    }
}

pub proof fn lemma_pruned_children_sigs(p: ModelUuid, b: int, cs: Seq<ElementTree>, w: Set<ModelUuid>)
    requires
        every(flatten_seq(cs), prunes_cleanly(w)),
    ensures
        sigs(flatten_seq(prune_children(p, b, cs, w).0)) == sigs(flatten_seq(cs)).filter(outside(w)),
    decreases cs,
{
    let res = prune_children(p, b, cs, w).0;
    if cs.len() == 0 {
        lemma_sigs_empty(flatten_seq(cs));
        lemma_sigs_empty(flatten_seq(res));
        assert(sigs(flatten_seq(cs)).filter(outside(w)) =~= Set::<NodeSig>::empty());
    } else {
        let dl = cs.drop_last();
        let c = cs.last();
        assert(flatten_seq(cs) == flatten_seq(dl) + flatten(c));
        lemma_every_split(flatten_seq(dl), flatten(c), prunes_cleanly(w));
        lemma_pruned_children_sigs(p, b, dl, w);
        let kept = prune_children(p, b, dl, w).0;
        lemma_sigs_concat(flatten_seq(dl), flatten(c));
        if w.contains(c.uuid) {
            assert(res == kept);
            let fc = flatten(c);
            assert(fc[0] == c);
            assert(prunes_cleanly(w)(fc[0]));
            assert(tree_uuids(c).subset_of(w));
            assert forall|x: NodeSig| sigs(fc).contains(x) implies w.contains(x.0) by {
                let i = choose|i: int| 0 <= i < fc.len() && #[trigger] sig(fc[i]) == x;
                lemma_in_uuid_set(fc, i);
            }
            assert(sigs(fc).filter(outside(w)) =~= Set::<NodeSig>::empty());
        } else {
            lemma_pruned_tree_sigs(c, w);
            let c2 = prune_tree(c, w).0;
            assert(res == kept.push(c2));
            assert(res.drop_last() =~= kept);
            assert(flatten_seq(res) == flatten_seq(kept) + flatten(c2));
            lemma_sigs_concat(flatten_seq(kept), flatten(c2));
        }
        assert(sigs(flatten_seq(res)) =~= sigs(flatten_seq(cs)).filter(outside(w)));
    }
}


// ---------------------------------------------------------------------------
// The walk that starts a deletion takes whole subtrees
// ---------------------------------------------------------------------------

/// The uuids of the subtree of a node lie in `u`.
pub open spec fn below(u: Set<ModelUuid>) -> spec_fn(ElementTree) -> bool {
    |n: ElementTree| tree_uuids(n).subset_of(u)
}

/// A node whose uuid is in `r` has its whole subtree in `r`.
pub open spec fn closed_below(r: Set<ModelUuid>) -> spec_fn(ElementTree) -> bool {
    |n: ElementTree| r.contains(n.uuid) ==> tree_uuids(n).subset_of(r)
}

proof fn lemma_below_join(a: Seq<ElementTree>, b: Seq<ElementTree>, ua: Set<ModelUuid>, ub: Set<ModelUuid>, u: Set<ModelUuid>)
    requires
        every(a, below(ua)),
        every(b, below(ub)),
        ua.subset_of(u),
        ub.subset_of(u),
    ensures
        every(a + b, below(u)),
{
    assert forall|i: int| 0 <= i < a.len() implies below(u)(#[trigger] a[i]) by {
        assert(below(ua)(a[i]));
    }
    assert forall|i: int| 0 <= i < b.len() implies below(u)(#[trigger] b[i]) by {
        assert(below(ub)(b[i]));
    }
    lemma_every_join(a, b, below(u));
}

/// The subtree of a node of `t` lies in the subtree of `t`.
pub proof fn lemma_desc_tree(t: ElementTree)
    ensures
        every(flatten(t), below(tree_uuids(t))),
    decreases t,
{
    let fb = flatten_buckets(t.buckets);
    assert(flatten(t) == seq![t] + fb);
    lemma_desc_buckets(t.buckets);
    lemma_select_concat(seq![t], fb, all_nodes());
    assert(every(seq![t], below(tree_uuids(t)))) by {
        assert(seq![t][0] == t);
    }
    lemma_below_join(seq![t], fb, tree_uuids(t), uuid_set(fb), tree_uuids(t));
}

pub proof fn lemma_desc_buckets(bs: Seq<Seq<ElementTree>>)
    ensures
        every(flatten_buckets(bs), below(uuid_set(flatten_buckets(bs)))),
    decreases bs,
{
    if bs.len() > 0 {
        let a = flatten_buckets(bs.drop_last());
        let b = flatten_seq(bs.last());
        assert(flatten_buckets(bs) == a + b);
        lemma_desc_buckets(bs.drop_last());
        lemma_desc_seq(bs.last());
        lemma_select_concat(a, b, all_nodes());
        lemma_below_join(a, b, uuid_set(a), uuid_set(b), uuid_set(a + b));
    }
}

pub proof fn lemma_desc_seq(es: Seq<ElementTree>)
    ensures
        every(flatten_seq(es), below(uuid_set(flatten_seq(es)))),
    decreases es,
{
    if es.len() > 0 {
        let a = flatten_seq(es.drop_last());
        let b = flatten(es.last());
        assert(flatten_seq(es) == a + b);
        lemma_desc_seq(es.drop_last());
        lemma_desc_tree(es.last());
        lemma_select_concat(a, b, all_nodes());
        lemma_below_join(a, b, uuid_set(a), uuid_set(b), uuid_set(a + b));
    }
}

/// The walk that starts a deletion adds only uuids of the tree, and leaves
/// every node it holds with its whole subtree, when no two nodes share a
/// uuid.
pub proof fn lemma_mark_closed(t: ElementTree, s: Set<ModelUuid>)
    requires
        unique_ids(flatten(t)),
    ensures
        mark(t, s).subset_of(s.union(tree_uuids(t))),
        every(flatten(t), closed_below(mark(t, s))),
    decreases t,
{
    let fb = flatten_buckets(t.buckets);
    assert(flatten(t) == seq![t] + fb);
    lemma_select_concat(seq![t], fb, all_nodes());
    lemma_select_single(t, all_nodes());
    let r = mark(t, s);
    if s.contains(t.uuid) {
        lemma_desc_tree(t);
        assert forall|i: int| 0 <= i < flatten(t).len() implies closed_below(r)(#[trigger] flatten(t)[i]) by {
            assert(below(tree_uuids(t))(flatten(t)[i]));
        }
    } else {
        lemma_unique_split(seq![t], fb);
        lemma_mark_buckets_closed(t.buckets, s);
        assert(uuid_set(seq![t]).contains(t.uuid));
        assert(!r.contains(t.uuid));
        assert(every(seq![t], closed_below(r))) by {
            assert(seq![t][0] == t);
        }
        lemma_every_join(seq![t], fb, closed_below(r));
    }
}

pub proof fn lemma_mark_buckets_closed(bs: Seq<Seq<ElementTree>>, s: Set<ModelUuid>)
    requires
        unique_ids(flatten_buckets(bs)),
    ensures
        mark_buckets(bs, s).subset_of(s.union(uuid_set(flatten_buckets(bs)))),
        every(flatten_buckets(bs), closed_below(mark_buckets(bs, s))),
    decreases bs,
{
    if bs.len() > 0 {
        let a = flatten_buckets(bs.drop_last());
        let b = flatten_seq(bs.last());
        assert(flatten_buckets(bs) == a + b);
        lemma_unique_split(a, b);
        lemma_mark_buckets_closed(bs.drop_last(), s);
        let r0 = mark_buckets(bs.drop_last(), s);
        lemma_mark_seq_closed(bs.last(), r0);
        lemma_mark_seq_extends(bs.last(), r0);
        let r = mark_seq(bs.last(), r0);
        lemma_select_concat(a, b, all_nodes());
        assert forall|i: int| 0 <= i < a.len() implies closed_below(r)(#[trigger] a[i]) by {
            assert(closed_below(r0)(a[i]));
            lemma_in_uuid_set(a, i);
        }
        lemma_every_join(a, b, closed_below(r));
    }
}

pub proof fn lemma_mark_seq_closed(es: Seq<ElementTree>, s: Set<ModelUuid>)
    requires
        unique_ids(flatten_seq(es)),
    ensures
        mark_seq(es, s).subset_of(s.union(uuid_set(flatten_seq(es)))),
        every(flatten_seq(es), closed_below(mark_seq(es, s))),
    decreases es,
{
    if es.len() > 0 {
        let a = flatten_seq(es.drop_last());
        let b = flatten(es.last());
        assert(flatten_seq(es) == a + b);
        lemma_unique_split(a, b);
        lemma_mark_seq_closed(es.drop_last(), s);
        let r0 = mark_seq(es.drop_last(), s);
        lemma_mark_closed(es.last(), r0);
        lemma_mark_extends(es.last(), r0);
        let r = mark(es.last(), r0);
        lemma_select_concat(a, b, all_nodes());
        assert forall|i: int| 0 <= i < a.len() implies closed_below(r)(#[trigger] a[i]) by {
            assert(closed_below(r0)(a[i]));
            lemma_in_uuid_set(a, i);
        }
        lemma_every_join(a, b, closed_below(r));
    }
}


// ---------------------------------------------------------------------------
// The closure of a deletion
// ---------------------------------------------------------------------------

/// A relationship with its two endpoints.
pub open spec fn is_link_node() -> spec_fn(ElementTree) -> bool {
    |t: ElementTree| is_link_kind(t.kind) && t.links.len() == 2
}

/// What the closure adds to its base are relationships.
proof fn lemma_closure_within(d: DiagramTree, base: Set<ModelUuid>, w: Set<ModelUuid>)
    requires
        is_link_closure(d, base, w),
    ensures
        w.subset_of(base.union(w.intersect(select(flatten_seq(d.elements), is_link_node())))),
{
    let nodes = flatten_seq(d.elements);
    let t = base.union(w.intersect(select(nodes, is_link_node())));
    assert forall|i: int| 0 <= i < nodes.len() implies !dangles(#[trigger] nodes[i], t) by {
        if dangles(nodes[i], t) {
            assert(!dangles(nodes[i], w));
            assert(is_link_node()(nodes[i]));
            assert(select(nodes, is_link_node()).contains(nodes[i].uuid));
        }
    }
    assert(closed_under_links(t, nodes));
    assert(base.subset_of(t));
}

/// Every node of a tree of the right shape has the right shape.
proof fn lemma_nodes_wf(t: ElementTree)
    requires
        tree_wf(t),
    ensures
        every(flatten(t), |n: ElementTree| tree_wf(n)),
    decreases t,
{
    lemma_children_wf(t);
    lemma_nodes_wf_buckets(t.buckets);
    assert(flatten(t) == seq![t] + flatten_buckets(t.buckets));
    assert(every(seq![t], |n: ElementTree| tree_wf(n))) by {
        assert(seq![t][0] == t);
    }
    lemma_every_join(seq![t], flatten_buckets(t.buckets), |n: ElementTree| tree_wf(n));
}

proof fn lemma_nodes_wf_buckets(bs: Seq<Seq<ElementTree>>)
    requires
        forall|b: int, i: int| 0 <= b < bs.len() && 0 <= i < bs[b].len() ==> tree_wf(#[trigger] bs[b][i]),
    ensures
        every(flatten_buckets(bs), |n: ElementTree| tree_wf(n)),
    decreases bs,
{
    if bs.len() > 0 {
        let dl = bs.drop_last();
        assert forall|b: int, i: int| 0 <= b < dl.len() && 0 <= i < dl[b].len() implies tree_wf(#[trigger] dl[b][i]) by {
            assert(dl[b] == bs[b]);
        }
        assert forall|i: int| 0 <= i < bs.last().len() implies tree_wf(#[trigger] bs.last()[i]) by {
            assert(bs.last() == bs[bs.len() - 1]);
        }
        lemma_nodes_wf_buckets(dl);
        lemma_nodes_wf_seq(bs.last());
        assert(flatten_buckets(bs) == flatten_buckets(dl) + flatten_seq(bs.last()));
        lemma_every_join(flatten_buckets(dl), flatten_seq(bs.last()), |n: ElementTree| tree_wf(n));
    }
}

proof fn lemma_nodes_wf_seq(es: Seq<ElementTree>)
    requires
        forall|i: int| 0 <= i < es.len() ==> tree_wf(#[trigger] es[i]),
    ensures
        every(flatten_seq(es), |n: ElementTree| tree_wf(n)),
    decreases es,
{
    if es.len() > 0 {
        let dl = es.drop_last();
        assert forall|i: int| 0 <= i < dl.len() implies tree_wf(#[trigger] dl[i]) by {
            assert(dl[i] == es[i]);
        }
        assert(es.last() == es[es.len() - 1]);
        lemma_nodes_wf_seq(dl);
        lemma_nodes_wf(es.last());
        assert(flatten_seq(es) == flatten_seq(dl) + flatten(es.last()));
        lemma_every_join(flatten_seq(dl), flatten(es.last()), |n: ElementTree| tree_wf(n));
    }
}

/// Every relationship among `nodes` links two uuids of `nodes`.
pub open spec fn links_resolved(nodes: Seq<ElementTree>) -> bool {
    forall|i: int|
        0 <= i < nodes.len() && is_link_kind((#[trigger] nodes[i]).kind) && nodes[i].links.len() == 2 ==> uuid_set(
            nodes,
        ).contains(nodes[i].links[0].uuid) && uuid_set(nodes).contains(nodes[i].links[1].uuid)
}

proof fn lemma_stays(nodes: Seq<ElementTree>, kept: Seq<ElementTree>, w: Set<ModelUuid>, x: ModelUuid)
    requires
        sigs(kept) == sigs(nodes).filter(outside(w)),
        uuid_set(nodes).contains(x),
        !w.contains(x),
    ensures
        uuid_set(kept).contains(x),
{
    let k = choose|k: int| 0 <= k < nodes.len() && all_nodes()(nodes[k]) && #[trigger] nodes[k].uuid == x;
    assert(sigs(nodes).contains(sig(nodes[k])));
    assert(outside(w)(sig(nodes[k])));
    assert(sigs(kept).contains(sig(nodes[k])));
    let m = choose|m: int| 0 <= m < kept.len() && #[trigger] sig(kept[m]) == sig(nodes[k]);
    lemma_in_uuid_set(kept, m);
}

/// The closure of a deletion holds the whole subtree of each node it holds,
/// when no two elements share a uuid.
pub proof fn lemma_closure_takes_subtrees(d: DiagramTree, u: Set<ModelUuid>, w: Set<ModelUuid>)
    requires
        diagram_wf(d),
        unique_ids(flatten_seq(d.elements)),
        is_link_closure(d, closure_base(d, u), w),
    ensures
        every(flatten_seq(d.elements), closed_below(w)),
{
    let nodes = flatten_seq(d.elements);
    let base = closure_base(d, u);
    lemma_mark_seq_closed(d.elements, u);
    lemma_closure_within(d, base, w);
    lemma_nodes_wf_seq(d.elements);
    assert forall|i: int| 0 <= i < nodes.len() implies closed_below(w)(#[trigger] nodes[i]) by {
        let n = nodes[i];
        if w.contains(n.uuid) {
            if base.contains(n.uuid) {
                assert(closed_below(base)(n));
            } else {
                let j = choose|j: int|
                    0 <= j < nodes.len() && is_link_node()(nodes[j]) && #[trigger] nodes[j].uuid == n.uuid;
                assert(i == j);
                assert(tree_wf(n));
                lemma_tree_uuids_leaf(n);
            }
        }
    }
}

/// Deleting from a diagram the closure that `transitive_closure` computes
/// leaves no relationship with a missing endpoint, when none had one before
/// and no two elements share a uuid, unless the deletion takes every region
/// of a composite state that stays, whose regions are then kept whole.
pub proof fn law_closure_deletion_leaves_no_dangling_link(d: DiagramTree, u: Set<ModelUuid>, w: Set<ModelUuid>)
    requires
        diagram_wf(d),
        unique_ids(flatten_seq(d.elements)),
        links_resolved(flatten_seq(d.elements)),
        is_link_closure(d, closure_base(d, u), w),
        forall|i: int|
            0 <= i < flatten_seq(d.elements).len() ==> keeps_a_region(w, #[trigger] flatten_seq(d.elements)[i]),
    ensures
        links_resolved(flatten_seq(prune_diagram(d, w).0.elements)),
{
    let nodes = flatten_seq(d.elements);
    lemma_closure_takes_subtrees(d, u, w);
    assert forall|i: int| 0 <= i < nodes.len() implies prunes_cleanly(w)(#[trigger] nodes[i]) by {
        assert(closed_below(w)(nodes[i]));
    }
    lemma_pruned_children_sigs(d.uuid, 0, d.elements, w);
    let kept = flatten_seq(prune_diagram(d, w).0.elements);
    assert(kept == flatten_seq(prune_children(d.uuid, 0, d.elements, w).0));
    assert forall|i: int|
        0 <= i < kept.len() && is_link_kind((#[trigger] kept[i]).kind) && kept[i].links.len() == 2 implies uuid_set(
            kept,
        ).contains(kept[i].links[0].uuid) && uuid_set(kept).contains(kept[i].links[1].uuid) by {
        let e = kept[i];
        assert(sigs(kept).contains(sig(e)));
        let j = choose|j: int| 0 <= j < nodes.len() && #[trigger] sig(nodes[j]) == sig(e);
        let n = nodes[j];
        assert(!dangles(n, w));
        assert(uuid_set(nodes).contains(n.links[0].uuid));
        assert(uuid_set(nodes).contains(n.links[1].uuid));
        lemma_stays(nodes, kept, w, e.links[0].uuid);
        lemma_stays(nodes, kept, w, e.links[1].uuid);
    }
}


// ---------------------------------------------------------------------------
// Closing twice
// ---------------------------------------------------------------------------

/// The walk that starts a deletion adds nothing to a set that holds the
/// whole subtree of each node it holds.
proof fn lemma_mark_fixed(t: ElementTree, s: Set<ModelUuid>)
    requires
        every(flatten(t), closed_below(s)),
    ensures
        mark(t, s) == s,
    decreases t,
{
    let fb = flatten_buckets(t.buckets);
    assert(flatten(t) == seq![t] + fb);
    lemma_every_split(seq![t], fb, closed_below(s));
    if s.contains(t.uuid) {
        assert(closed_below(s)(seq![t][0]));
        assert(s.union(tree_uuids(t)) =~= s);
    } else {
        lemma_mark_buckets_fixed(t.buckets, s);
    }
}

proof fn lemma_mark_buckets_fixed(bs: Seq<Seq<ElementTree>>, s: Set<ModelUuid>)
    requires
        every(flatten_buckets(bs), closed_below(s)),
    ensures
        mark_buckets(bs, s) == s,
    decreases bs,
{
    if bs.len() > 0 {
        assert(flatten_buckets(bs) == flatten_buckets(bs.drop_last()) + flatten_seq(bs.last()));
        lemma_every_split(flatten_buckets(bs.drop_last()), flatten_seq(bs.last()), closed_below(s));
        lemma_mark_buckets_fixed(bs.drop_last(), s);
        lemma_mark_seq_fixed(bs.last(), s);
    }
}

proof fn lemma_mark_seq_fixed(es: Seq<ElementTree>, s: Set<ModelUuid>)
    requires
        every(flatten_seq(es), closed_below(s)),
    ensures
        mark_seq(es, s) == s,
    decreases es,
{
    if es.len() > 0 {
        assert(flatten_seq(es) == flatten_seq(es.drop_last()) + flatten(es.last()));
        lemma_every_split(flatten_seq(es.drop_last()), flatten(es.last()), closed_below(s));
        lemma_mark_seq_fixed(es.drop_last(), s);
        lemma_mark_fixed(es.last(), s);
    }
}

/// Closing the closure of a deletion again adds nothing: what
/// `transitive_closure` returns for its own result is that result, when no
/// two elements share a uuid.
pub proof fn law_closure_is_idempotent(d: DiagramTree, u: Set<ModelUuid>, w: Set<ModelUuid>, w2: Set<ModelUuid>)
    requires
        diagram_wf(d),
        unique_ids(flatten_seq(d.elements)),
        is_link_closure(d, closure_base(d, u), w),
        is_link_closure(d, closure_base(d, w), w2),
    ensures
        w2 == w,
{
    lemma_closure_takes_subtrees(d, u, w);
    lemma_mark_seq_fixed(d.elements, w);
    assert(closure_base(d, w) == w);
    assert(closed_under_links(w, flatten_seq(d.elements)));
    assert(w2 =~= w);
}


// ---------------------------------------------------------------------------
// What a deletion of a closure takes
// ---------------------------------------------------------------------------

proof fn lemma_kept_uuids(nodes: Seq<ElementTree>, kept: Seq<ElementTree>, w: Set<ModelUuid>)
    requires
        sigs(kept) == sigs(nodes).filter(outside(w)),
    ensures
        uuid_set(kept) == uuid_set(nodes).difference(w),
{
    assert forall|x: ModelUuid| uuid_set(kept).contains(x) implies uuid_set(nodes).difference(w).contains(x) by {
        let k = choose|k: int| 0 <= k < kept.len() && all_nodes()(kept[k]) && #[trigger] kept[k].uuid == x;
        assert(sigs(kept).contains(sig(kept[k])));
        let j = choose|j: int| 0 <= j < nodes.len() && #[trigger] sig(nodes[j]) == sig(kept[k]);
        lemma_in_uuid_set(nodes, j);
    }
    assert forall|x: ModelUuid| uuid_set(nodes).difference(w).contains(x) implies uuid_set(kept).contains(x) by {
        lemma_stays(nodes, kept, w, x);
    }
    assert(uuid_set(kept) =~= uuid_set(nodes).difference(w));
}

/// Deleting from a diagram the closure that `transitive_closure` computes
/// removes exactly the elements of the closure and keeps every other one,
/// when no two elements share a uuid, unless the deletion takes every region
/// of a composite state that stays, whose regions are then kept whole.
pub proof fn law_closure_deletion_removes_exactly_the_closure(d: DiagramTree, u: Set<ModelUuid>, w: Set<ModelUuid>)
    requires
        diagram_wf(d),
        unique_ids(flatten_seq(d.elements)),
        is_link_closure(d, closure_base(d, u), w),
        forall|i: int|
            0 <= i < flatten_seq(d.elements).len() ==> keeps_a_region(w, #[trigger] flatten_seq(d.elements)[i]),
    ensures
        uuid_set(flatten_seq(prune_diagram(d, w).0.elements)) == uuid_set(flatten_seq(d.elements)).difference(w),
{
    let nodes = flatten_seq(d.elements);
    lemma_closure_takes_subtrees(d, u, w);
    assert forall|i: int| 0 <= i < nodes.len() implies prunes_cleanly(w)(#[trigger] nodes[i]) by {
        assert(closed_below(w)(nodes[i]));
    }
    lemma_pruned_children_sigs(d.uuid, 0, d.elements, w);
    let kept = flatten_seq(prune_diagram(d, w).0.elements);
    assert(kept == flatten_seq(prune_children(d.uuid, 0, d.elements, w).0));
    lemma_kept_uuids(nodes, kept, w);
}

} // verus!
