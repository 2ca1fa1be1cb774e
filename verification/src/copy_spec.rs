use vstd::prelude::*;

use crate::ids::{is_v7_uuid, ModelUuid};
use crate::model::{is_noninitial_kind, is_nonfinal_kind, tree_ref, ElementKind, ElementTree, UmlStateMachineElementRef};

verus! {

/// `n` is a copy of `o` that may differ from it in the uuids only: every node
/// below the root of `n` carries a version 7 uuid.
pub open spec fn is_copy(o: ElementTree, n: ElementTree) -> bool
    decreases o,
{
    &&& n.kind == o.kind
    &&& n.texts == o.texts
    &&& n.flag == o.flag
    &&& n.links == o.links
    &&& n.buckets.len() == o.buckets.len()
    &&& forall|b: int| 0 <= b < o.buckets.len() ==> (#[trigger] n.buckets[b]).len() == o.buckets[b].len()
    &&& forall|b: int, i: int|
        0 <= b < o.buckets.len() && 0 <= i < o.buckets[b].len() ==> is_copy(o.buckets[b][i], #[trigger] n.buckets[b][i])
            && is_v7_uuid(n.buckets[b][i].uuid)
}

/// The pairs (old uuid, reference to the copy) of a copy, in post-order: the
/// pairs of the children, bucket by bucket, then that of the root.
pub open spec fn copy_pairs(o: ElementTree, n: ElementTree) -> Seq<(ModelUuid, UmlStateMachineElementRef)>
    decreases o,
{
    copy_pairs_buckets(o.buckets, n.buckets).push((o.uuid, tree_ref(n)))
}

pub open spec fn copy_pairs_buckets(ob: Seq<Seq<ElementTree>>, nb: Seq<Seq<ElementTree>>) -> Seq<
    (ModelUuid, UmlStateMachineElementRef),
>
    decreases ob,
{
    if ob.len() == 0 || nb.len() < ob.len() {
        seq![]
    } else {
        copy_pairs_buckets(ob.drop_last(), nb.take(ob.len() - 1)) + copy_pairs_seq(ob.last(), nb[ob.len() - 1])
    }
}

pub open spec fn copy_pairs_seq(os: Seq<ElementTree>, ns: Seq<ElementTree>) -> Seq<(ModelUuid, UmlStateMachineElementRef)>
    decreases os,
{
    if os.len() == 0 || ns.len() < os.len() {
        seq![]
    } else {
        copy_pairs_seq(os.drop_last(), ns.take(os.len() - 1)) + copy_pairs(os.last(), ns[os.len() - 1])
    }
}

/// `m` extended with the pairs in order (a later pair replaces an earlier one
/// with the same old uuid).
pub open spec fn insert_pairs(
    m: Map<ModelUuid, UmlStateMachineElementRef>,
    s: Seq<(ModelUuid, UmlStateMachineElementRef)>,
) -> Map<ModelUuid, UmlStateMachineElementRef>
    decreases s.len(),
{
    if s.len() == 0 {
        m
    } else {
        insert_pairs(m, s.drop_last()).insert(s.last().0, s.last().1)
    }
}

/// The endpoint `r` redirected through `m` when `m` maps it to a reference
/// whose kind `ok` accepts.
pub open spec fn redirect(r: UmlStateMachineElementRef, m: Map<ModelUuid, UmlStateMachineElementRef>, ok: spec_fn(ElementKind) -> bool) -> UmlStateMachineElementRef {
    if m.contains_key(r.uuid) && ok(m[r.uuid].kind) {
        m[r.uuid]
    } else {
        r
    }
}

pub open spec fn any_kind() -> spec_fn(ElementKind) -> bool {
    |k: ElementKind| true
}

pub open spec fn note_kind() -> spec_fn(ElementKind) -> bool {
    |k: ElementKind| k == ElementKind::Note
}

pub open spec fn nonfinal_kind() -> spec_fn(ElementKind) -> bool {
    |k: ElementKind| is_nonfinal_kind(k)
}

pub open spec fn noninitial_kind() -> spec_fn(ElementKind) -> bool {
    |k: ElementKind| is_noninitial_kind(k)
}

/// The endpoints of a relationship after redirecting them through `m`.
pub open spec fn relinked_links(kind: ElementKind, links: Seq<UmlStateMachineElementRef>, m: Map<ModelUuid, UmlStateMachineElementRef>) -> Seq<
    UmlStateMachineElementRef,
> {
    if kind == ElementKind::Edge && links.len() == 2 {
        seq![redirect(links[0], m, nonfinal_kind()), redirect(links[1], m, noninitial_kind())]
    } else if kind == ElementKind::NoteLink && links.len() == 2 {
        seq![redirect(links[0], m, note_kind()), redirect(links[1], m, any_kind())]
    } else {
        links
    }
}

/// `n` is `o` with every relationship, at every depth, redirected through `m`.
pub open spec fn is_relinked(o: ElementTree, n: ElementTree, m: Map<ModelUuid, UmlStateMachineElementRef>) -> bool
    decreases o,
{
    &&& n.kind == o.kind
    &&& n.uuid == o.uuid
    &&& n.texts == o.texts
    &&& n.flag == o.flag
    &&& n.links == relinked_links(o.kind, o.links, m)
    &&& n.buckets.len() == o.buckets.len()
    &&& forall|b: int| 0 <= b < o.buckets.len() ==> (#[trigger] n.buckets[b]).len() == o.buckets[b].len()
    &&& forall|b: int, i: int|
        0 <= b < o.buckets.len() && 0 <= i < o.buckets[b].len() ==> is_relinked(o.buckets[b][i], #[trigger] n.buckets[b][i], m)
}

} // verus!

verus! {

pub proof fn lemma_insert_pairs_concat(
    m: Map<ModelUuid, UmlStateMachineElementRef>,
    a: Seq<(ModelUuid, UmlStateMachineElementRef)>,
    b: Seq<(ModelUuid, UmlStateMachineElementRef)>,
)
    ensures
        insert_pairs(m, a + b) == insert_pairs(insert_pairs(m, a), b),
    decreases b.len(),
{
    if b.len() == 0 {
        assert(a + b =~= a);
    } else {
        lemma_insert_pairs_concat(m, a, b.drop_last());
        assert((a + b).drop_last() =~= a + b.drop_last());
        assert((a + b).last() == b.last());
    }
}

pub proof fn lemma_insert_pairs_push(
    m: Map<ModelUuid, UmlStateMachineElementRef>,
    a: Seq<(ModelUuid, UmlStateMachineElementRef)>,
    p: (ModelUuid, UmlStateMachineElementRef),
)
    ensures
        insert_pairs(m, a.push(p)) == insert_pairs(m, a).insert(p.0, p.1),
{
    assert(a.push(p).drop_last() =~= a);
}

pub proof fn lemma_copy_pairs_seq_step(os: Seq<ElementTree>, ns: Seq<ElementTree>, i: int)
    requires
        0 <= i < os.len(),
        ns.len() == i + 1,
    ensures
        copy_pairs_seq(os.take(i + 1), ns) == copy_pairs_seq(os.take(i), ns.take(i)) + copy_pairs(os[i], ns[i]),
{
    assert(os.take(i + 1).drop_last() =~= os.take(i));
}

pub proof fn lemma_copy_pairs_leaf(o: ElementTree, n: ElementTree)
    requires
        o.buckets.len() == 0,
    ensures
        copy_pairs(o, n) == seq![(o.uuid, tree_ref(n))],
{
    assert(copy_pairs_buckets(o.buckets, n.buckets) == Seq::<(ModelUuid, UmlStateMachineElementRef)>::empty());
    assert(copy_pairs(o, n) =~= seq![(o.uuid, tree_ref(n))]);
}

pub proof fn lemma_copy_pairs_one_bucket(o: ElementTree, n: ElementTree)
    requires
        o.buckets.len() == 1,
        n.buckets.len() == 1,
    ensures
        copy_pairs(o, n) == copy_pairs_seq(o.buckets[0], n.buckets[0]).push((o.uuid, tree_ref(n))),
{
    assert(o.buckets.drop_last().len() == 0);
    assert(copy_pairs_buckets(o.buckets.drop_last(), n.buckets.take(0)) == Seq::<(ModelUuid, UmlStateMachineElementRef)>::empty());
    assert(copy_pairs_buckets(o.buckets, n.buckets) =~= copy_pairs_seq(o.buckets[0], n.buckets[0]));
}

pub proof fn lemma_copy_pairs_two_buckets(o: ElementTree, n: ElementTree)
    requires
        o.buckets.len() == 2,
        n.buckets.len() == 2,
        o.buckets[0].len() == 0,
    ensures
        copy_pairs(o, n) == copy_pairs_seq(o.buckets[1], n.buckets[1]).push((o.uuid, tree_ref(n))),
{
    let ob1 = o.buckets.drop_last();
    let nb1 = n.buckets.take(1);
    assert(ob1.drop_last().len() == 0);
    assert(copy_pairs_buckets(ob1.drop_last(), nb1.take(0)) == Seq::<(ModelUuid, UmlStateMachineElementRef)>::empty());
    assert(ob1.last().len() == 0);
    assert(copy_pairs_seq(ob1.last(), nb1[0]) == Seq::<(ModelUuid, UmlStateMachineElementRef)>::empty());
    assert(copy_pairs_buckets(ob1, nb1) =~= Seq::<(ModelUuid, UmlStateMachineElementRef)>::empty());
    assert(copy_pairs_buckets(o.buckets, n.buckets) =~= copy_pairs_seq(o.buckets[1], n.buckets[1]));
}

pub proof fn lemma_copy_pairs_three_buckets(o: ElementTree, n: ElementTree)
    requires
        o.buckets.len() == 3,
        n.buckets.len() == 3,
        o.buckets[0].len() == 0,
    ensures
        copy_pairs(o, n) == (copy_pairs_seq(o.buckets[1], n.buckets[1]) + copy_pairs_seq(o.buckets[2], n.buckets[2])).push(
            (o.uuid, tree_ref(n)),
        ),
{
    let ob2 = o.buckets.drop_last();
    let nb2 = n.buckets.take(2);
    let ob1 = ob2.drop_last();
    let nb1 = nb2.take(1);
    assert(ob1.drop_last().len() == 0);
    assert(copy_pairs_buckets(ob1.drop_last(), nb1.take(0)) == Seq::<(ModelUuid, UmlStateMachineElementRef)>::empty());
    assert(ob1.last().len() == 0);
    assert(copy_pairs_seq(ob1.last(), nb1[0]) == Seq::<(ModelUuid, UmlStateMachineElementRef)>::empty());
    assert(copy_pairs_buckets(ob1, nb1) =~= Seq::<(ModelUuid, UmlStateMachineElementRef)>::empty());
    assert(nb2[1] == n.buckets[1]);
    assert(copy_pairs_buckets(ob2, nb2) =~= copy_pairs_seq(o.buckets[1], n.buckets[1]));
    assert(copy_pairs_buckets(o.buckets, n.buckets) =~= copy_pairs_seq(o.buckets[1], n.buckets[1]) + copy_pairs_seq(
        o.buckets[2],
        n.buckets[2],
    ));
}

} // verus!

verus! {

/// `n` is a copy of `o` whose relationships are redirected through `m`; every
/// node below the root of `n` carries a version 7 uuid.
pub open spec fn is_relinked_copy(o: ElementTree, n: ElementTree, m: Map<ModelUuid, UmlStateMachineElementRef>) -> bool
    decreases o,
{
    &&& n.kind == o.kind
    &&& n.texts == o.texts
    &&& n.flag == o.flag
    &&& n.links == relinked_links(o.kind, o.links, m)
    &&& n.buckets.len() == o.buckets.len()
    &&& forall|b: int| 0 <= b < o.buckets.len() ==> (#[trigger] n.buckets[b]).len() == o.buckets[b].len()
    &&& forall|b: int, i: int|
        0 <= b < o.buckets.len() && 0 <= i < o.buckets[b].len() ==> is_relinked_copy(o.buckets[b][i], #[trigger] n.buckets[b][i], m)
            && is_v7_uuid(n.buckets[b][i].uuid)
}

pub proof fn lemma_relinked_copy(o: ElementTree, c: ElementTree, n: ElementTree, m: Map<ModelUuid, UmlStateMachineElementRef>)
    requires
        is_copy(o, c),
        is_relinked(c, n, m),
    ensures
        is_relinked_copy(o, n, m),
    decreases o,
{
    assert forall|b: int, i: int|
        0 <= b < o.buckets.len() && 0 <= i < o.buckets[b].len() implies is_relinked_copy(o.buckets[b][i], #[trigger] n.buckets[b][i], m)
        && is_v7_uuid(n.buckets[b][i].uuid) by {
        assert(is_copy(o.buckets[b][i], c.buckets[b][i]));
        assert(is_relinked(c.buckets[b][i], n.buckets[b][i], m));
        lemma_relinked_copy(o.buckets[b][i], c.buckets[b][i], n.buckets[b][i], m);
    }
}

pub proof fn lemma_pairs_tree(o: ElementTree, c: ElementTree, n: ElementTree, m: Map<ModelUuid, UmlStateMachineElementRef>)
    requires
        is_relinked(c, n, m),
    ensures
        copy_pairs(o, c) == copy_pairs(o, n),
    decreases o, 2nat,
{
    assert forall|b: int, i: int| 0 <= b < c.buckets.len() && 0 <= i < c.buckets[b].len() implies is_relinked(
        #[trigger] c.buckets[b][i],
        n.buckets[b][i],
        m,
    ) by {}
    lemma_pairs_buckets(o.buckets, c.buckets, n.buckets, m);
}

pub proof fn lemma_pairs_buckets(
    ob: Seq<Seq<ElementTree>>,
    cb: Seq<Seq<ElementTree>>,
    nb: Seq<Seq<ElementTree>>,
    m: Map<ModelUuid, UmlStateMachineElementRef>,
)
    requires
        cb.len() == nb.len(),
        forall|b: int| 0 <= b < cb.len() ==> (#[trigger] cb[b]).len() == nb[b].len(),
        forall|b: int, i: int| 0 <= b < cb.len() && 0 <= i < cb[b].len() ==> is_relinked(#[trigger] cb[b][i], nb[b][i], m),
    ensures
        copy_pairs_buckets(ob, cb) == copy_pairs_buckets(ob, nb),
    decreases ob, 1nat,
{
    if ob.len() > 0 && cb.len() >= ob.len() {
        let k = ob.len() - 1;
        let cb2 = cb.take(k);
        let nb2 = nb.take(k);
        assert forall|b: int, i: int| 0 <= b < cb2.len() && 0 <= i < cb2[b].len() implies is_relinked(#[trigger] cb2[b][i], nb2[b][i], m) by {
            assert(cb2[b] == cb[b]);
            assert(nb2[b] == nb[b]);
        }
        lemma_pairs_buckets(ob.drop_last(), cb2, nb2, m);
        assert forall|i: int| 0 <= i < cb[k].len() implies is_relinked(#[trigger] cb[k][i], nb[k][i], m) by {}
        lemma_pairs_seq(ob.last(), cb[k], nb[k], m);
    }
}

pub proof fn lemma_pairs_seq(os: Seq<ElementTree>, cs: Seq<ElementTree>, ns: Seq<ElementTree>, m: Map<ModelUuid, UmlStateMachineElementRef>)
    requires
        cs.len() == ns.len(),
        forall|i: int| 0 <= i < cs.len() ==> is_relinked(#[trigger] cs[i], ns[i], m),
    ensures
        copy_pairs_seq(os, cs) == copy_pairs_seq(os, ns),
    decreases os, 0nat,
{
    if os.len() > 0 && cs.len() >= os.len() {
        let k = os.len() - 1;
        let cs2 = cs.take(k);
        let ns2 = ns.take(k);
        assert forall|i: int| 0 <= i < cs2.len() implies is_relinked(#[trigger] cs2[i], ns2[i], m) by {
            assert(cs2[i] == cs[i]);
        }
        lemma_pairs_seq(os.drop_last(), cs2, ns2, m);
        lemma_pairs_tree(os.last(), cs[k], ns[k], m);
    }
}

} // verus!
