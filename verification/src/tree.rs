use vstd::prelude::*;

use crate::ids::ModelUuid;
use crate::model::{ElementKind, ElementTree};

verus! {

// ---------------------------------------------------------------------------
// Pre-order listing of the nodes of a tree
// ---------------------------------------------------------------------------

/// The nodes of `t` in pre-order: `t` itself, then the nodes below each child,
/// bucket by bucket and child by child.
pub open spec fn flatten(t: ElementTree) -> Seq<ElementTree>
    decreases t,
{
    seq![t] + flatten_buckets(t.buckets)
}

pub open spec fn flatten_buckets(bs: Seq<Seq<ElementTree>>) -> Seq<ElementTree>
    decreases bs,
{
    if bs.len() == 0 {
        seq![]
    } else {
        flatten_buckets(bs.drop_last()) + flatten_seq(bs.last())
    }
}

/// The nodes of a forest in pre-order.
pub open spec fn flatten_seq(s: Seq<ElementTree>) -> Seq<ElementTree>
    decreases s,
{
    if s.len() == 0 {
        seq![]
    } else {
        flatten_seq(s.drop_last()) + flatten(s.last())
    }
}

/// The uuids of the nodes of `s` that satisfy `p`.
pub open spec fn select(s: Seq<ElementTree>, p: spec_fn(ElementTree) -> bool) -> Set<ModelUuid> {
    Set::new(|u: ModelUuid| exists|i: int| 0 <= i < s.len() && p(s[i]) && #[trigger] s[i].uuid == u)
}

/// The predicate that holds of every node.
pub open spec fn all_nodes() -> spec_fn(ElementTree) -> bool {
    |t: ElementTree| true
}

/// The uuids of all nodes of `s`.
pub open spec fn uuid_set(s: Seq<ElementTree>) -> Set<ModelUuid> {
    select(s, all_nodes())
}

/// The uuids of all nodes of the tree `t`.
pub open spec fn tree_uuids(t: ElementTree) -> Set<ModelUuid> {
    uuid_set(flatten(t))
}

/// True for the relationship kinds, whose `links` hold a source and a target.
pub open spec fn is_link_kind(k: ElementKind) -> bool {
    k == ElementKind::Edge || k == ElementKind::NoteLink
}

/// A relationship that is not in `w` but one of whose endpoints is.
pub open spec fn dangles(t: ElementTree, w: Set<ModelUuid>) -> bool {
    &&& is_link_kind(t.kind)
    &&& t.links.len() == 2
    &&& !w.contains(t.uuid)
    &&& (w.contains(t.links[0].uuid) || w.contains(t.links[1].uuid))
}

/// `w` holds every relationship among `nodes` that has an endpoint in `w`.
pub open spec fn closed_under_links(w: Set<ModelUuid>, nodes: Seq<ElementTree>) -> bool {
    forall|i: int| 0 <= i < nodes.len() ==> !dangles(#[trigger] nodes[i], w)
}

// ---------------------------------------------------------------------------
// Lemmas
// ---------------------------------------------------------------------------

pub proof fn lemma_flatten_seq_step(s: Seq<ElementTree>, i: int)
    requires
        0 <= i < s.len(),
    ensures
        flatten_seq(s.take(i + 1)) == flatten_seq(s.take(i)) + flatten(s[i]),
{
    assert(s.take(i + 1).drop_last() =~= s.take(i));
    assert(s.take(i + 1).last() == s[i]);
}

pub proof fn lemma_take_all<A>(s: Seq<A>)
    ensures
        s.take(s.len() as int) == s,
{
    assert(s.take(s.len() as int) =~= s);
}

/// The pre-order listing of a container with one bucket.
pub proof fn lemma_flatten_one_bucket(t: ElementTree)
    requires
        t.buckets.len() == 1,
    ensures
        flatten(t) == seq![t] + flatten_seq(t.buckets[0]),
{
    let bs = t.buckets;
    assert(bs.drop_last().len() == 0);
    assert(flatten_buckets(bs.drop_last()) == Seq::<ElementTree>::empty());
    assert(flatten_buckets(bs) =~= flatten_seq(bs[0]));
}

/// The pre-order listing of a container whose bucket 0 is empty and which has
/// one more bucket.
pub proof fn lemma_flatten_two_buckets(t: ElementTree)
    requires
        t.buckets.len() == 2,
        t.buckets[0].len() == 0,
    ensures
        flatten(t) == seq![t] + flatten_seq(t.buckets[1]),
{
    let bs = t.buckets;
    let b1 = bs.drop_last();
    assert(b1.drop_last().len() == 0);
    assert(flatten_buckets(b1.drop_last()) == Seq::<ElementTree>::empty());
    assert(b1.last().len() == 0);
    assert(flatten_seq(b1.last()) == Seq::<ElementTree>::empty());
    assert(flatten_buckets(b1) =~= Seq::<ElementTree>::empty());
    assert(flatten_buckets(bs) =~= flatten_seq(bs[1]));
}

/// The pre-order listing of a container whose bucket 0 is empty and which has
/// two more buckets.
pub proof fn lemma_flatten_three_buckets(t: ElementTree)
    requires
        t.buckets.len() == 3,
        t.buckets[0].len() == 0,
    ensures
        flatten(t) == seq![t] + flatten_seq(t.buckets[1]) + flatten_seq(t.buckets[2]),
{
    let bs = t.buckets;
    let b2 = bs.drop_last();
    let b1 = b2.drop_last();
    assert(b1.drop_last().len() == 0);
    assert(flatten_buckets(b1.drop_last()) == Seq::<ElementTree>::empty());
    assert(b1.last().len() == 0);
    assert(flatten_seq(b1.last()) == Seq::<ElementTree>::empty());
    assert(flatten_buckets(b1) =~= Seq::<ElementTree>::empty());
    assert(flatten_buckets(b2) =~= flatten_seq(bs[1]));
    assert(flatten_buckets(bs) =~= flatten_seq(bs[1]) + flatten_seq(bs[2]));
    assert(seq![t] + flatten_buckets(bs) =~= seq![t] + flatten_seq(bs[1]) + flatten_seq(bs[2]));
}

/// The pre-order listing of a node without children.
pub proof fn lemma_flatten_leaf(t: ElementTree)
    requires
        t.buckets.len() == 0,
    ensures
        flatten(t) == seq![t],
{
    assert(flatten(t) =~= seq![t]);
}

pub proof fn lemma_select_concat(a: Seq<ElementTree>, b: Seq<ElementTree>, p: spec_fn(ElementTree) -> bool)
    ensures
        select(a + b, p) == select(a, p).union(select(b, p)),
{
    let ab = a + b;
    assert forall|u: ModelUuid| select(ab, p).contains(u) implies select(a, p).union(select(b, p)).contains(u) by {
        let i = choose|i: int| 0 <= i < ab.len() && p(ab[i]) && #[trigger] ab[i].uuid == u;
        if i < a.len() {
            assert(a[i] == ab[i]);
            assert(0 <= i < a.len() && p(a[i]) && a[i].uuid == u);
        } else {
            assert(b[i - a.len()] == ab[i]);
            assert(0 <= i - a.len() < b.len() && p(b[i - a.len()]) && b[i - a.len()].uuid == u);
        }
    }
    assert forall|u: ModelUuid| select(a, p).union(select(b, p)).contains(u) implies select(ab, p).contains(u) by {
        if select(a, p).contains(u) {
            let i = choose|i: int| 0 <= i < a.len() && p(a[i]) && #[trigger] a[i].uuid == u;
            assert(ab[i] == a[i]);
            assert(0 <= i < ab.len() && p(ab[i]) && ab[i].uuid == u);
        } else {
            let i = choose|i: int| 0 <= i < b.len() && p(b[i]) && #[trigger] b[i].uuid == u;
            assert(ab[i + a.len()] == b[i]);
            assert(0 <= i + a.len() < ab.len() && p(ab[i + a.len()]) && ab[i + a.len()].uuid == u);
        }
    }
    assert(select(a + b, p) =~= select(a, p).union(select(b, p)));
}

pub proof fn lemma_select_single(t: ElementTree, p: spec_fn(ElementTree) -> bool)
    ensures
        select(seq![t], p) == (if p(t) { set![t.uuid] } else { Set::<ModelUuid>::empty() }),
{
    let s = seq![t];
    assert forall|u: ModelUuid| select(s, p).contains(u) implies u == t.uuid && p(t) by {
        let i = choose|i: int| 0 <= i < s.len() && p(s[i]) && #[trigger] s[i].uuid == u;
    }
    if p(t) {
        assert(s[0].uuid == t.uuid);
        assert(select(s, p).contains(t.uuid));
        assert(select(s, p) =~= set![t.uuid]);
    } else {
        assert(select(s, p) =~= Set::<ModelUuid>::empty());
    }
}

} // verus!

verus! {

pub proof fn lemma_select_forest_step(ts: Seq<ElementTree>, i: int, p: spec_fn(ElementTree) -> bool)
    requires
        0 <= i < ts.len(),
    ensures
        select(flatten_seq(ts.take(i + 1)), p) == select(flatten_seq(ts.take(i)), p).union(select(flatten(ts[i]), p)),
{
    lemma_flatten_seq_step(ts, i);
    lemma_select_concat(flatten_seq(ts.take(i)), flatten(ts[i]), p);
}

pub proof fn lemma_select_one_bucket(t: ElementTree, p: spec_fn(ElementTree) -> bool)
    requires
        t.buckets.len() == 1,
    ensures
        select(flatten(t), p) == select(seq![t], p).union(select(flatten_seq(t.buckets[0]), p)),
{
    lemma_flatten_one_bucket(t);
    lemma_select_concat(seq![t], flatten_seq(t.buckets[0]), p);
}

pub proof fn lemma_select_two_buckets(t: ElementTree, p: spec_fn(ElementTree) -> bool)
    requires
        t.buckets.len() == 2,
        t.buckets[0].len() == 0,
    ensures
        select(flatten(t), p) == select(seq![t], p).union(select(flatten_seq(t.buckets[1]), p)),
{
    lemma_flatten_two_buckets(t);
    lemma_select_concat(seq![t], flatten_seq(t.buckets[1]), p);
}

pub proof fn lemma_select_three_buckets(t: ElementTree, p: spec_fn(ElementTree) -> bool)
    requires
        t.buckets.len() == 3,
        t.buckets[0].len() == 0,
    ensures
        select(flatten(t), p) == select(seq![t], p).union(select(flatten_seq(t.buckets[1]), p)).union(
            select(flatten_seq(t.buckets[2]), p),
        ),
{
    lemma_flatten_three_buckets(t);
    lemma_select_concat(seq![t] + flatten_seq(t.buckets[1]), flatten_seq(t.buckets[2]), p);
    lemma_select_concat(seq![t], flatten_seq(t.buckets[1]), p);
}

pub proof fn lemma_select_leaf_tree(t: ElementTree, p: spec_fn(ElementTree) -> bool)
    requires
        t.buckets.len() == 0,
    ensures
        select(flatten(t), p) == select(seq![t], p),
{
    lemma_flatten_leaf(t);
}

/// A forest of leaves lists as itself.
pub proof fn lemma_flatten_leaf_forest(es: Seq<ElementTree>)
    requires
        forall|i: int| 0 <= i < es.len() ==> (#[trigger] es[i]).buckets.len() == 0,
    ensures
        flatten_seq(es) == es,
    decreases es.len(),
{
    if es.len() > 0 {
        lemma_flatten_leaf_forest(es.drop_last());
        lemma_flatten_leaf(es.last());
        assert(es.drop_last() + seq![es.last()] =~= es);
    }
}

pub proof fn lemma_select_none(s: Seq<ElementTree>, p: spec_fn(ElementTree) -> bool)
    requires
        forall|i: int| 0 <= i < s.len() ==> !p(#[trigger] s[i]),
    ensures
        select(s, p) == Set::<ModelUuid>::empty(),
{
    assert(select(s, p) =~= Set::<ModelUuid>::empty());
}

pub proof fn lemma_select_seq_step(s: Seq<ElementTree>, i: int, p: spec_fn(ElementTree) -> bool)
    requires
        0 <= i < s.len(),
    ensures
        select(s.take(i + 1), p) == select(s.take(i), p).union(select(seq![s[i]], p)),
{
    assert(s.take(i + 1) =~= s.take(i) + seq![s[i]]);
    lemma_select_concat(s.take(i), seq![s[i]], p);
}

} // verus!
