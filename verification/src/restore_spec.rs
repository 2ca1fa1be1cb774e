use vstd::prelude::*;

use crate::delete::UndoEntry;
use crate::edit_spec::with_inserted;
use crate::ids::ModelUuid;
use crate::model::{DiagramTree, ElementKind, ElementTree};

verus! {

/// `x` is the uuid of `t` or of a node below it.
pub open spec fn has_id(t: ElementTree, x: ModelUuid) -> bool
    decreases t,
{
    x == t.uuid || buckets_have_id(t.buckets, x)
}

pub open spec fn buckets_have_id(bs: Seq<Seq<ElementTree>>, x: ModelUuid) -> bool
    decreases bs,
{
    if bs.len() == 0 {
        false
    } else {
        buckets_have_id(bs.drop_last(), x) || seq_has_id(bs.last(), x)
    }
}

/// `x` is the uuid of a node of the forest `es`.
pub open spec fn seq_has_id(es: Seq<ElementTree>, x: ModelUuid) -> bool
    decreases es,
{
    if es.len() == 0 {
        false
    } else {
        seq_has_id(es.drop_last(), x) || has_id(es.last(), x)
    }
}

/// No two nodes of `t` share a uuid.
pub open spec fn distinct(t: ElementTree) -> bool
    decreases t,
{
    !buckets_have_id(t.buckets, t.uuid) && buckets_distinct(t.buckets)
}

pub open spec fn buckets_distinct(bs: Seq<Seq<ElementTree>>) -> bool
    decreases bs,
{
    if bs.len() == 0 {
        true
    } else {
        &&& buckets_distinct(bs.drop_last())
        &&& seq_distinct(bs.last())
        &&& forall|x: ModelUuid| !(#[trigger] buckets_have_id(bs.drop_last(), x) && #[trigger] seq_has_id(bs.last(), x))
    }
}

/// No two nodes of the forest `es` share a uuid.
pub open spec fn seq_distinct(es: Seq<ElementTree>) -> bool
    decreases es,
{
    if es.len() == 0 {
        true
    } else {
        &&& seq_distinct(es.drop_last())
        &&& distinct(es.last())
        &&& forall|x: ModelUuid| !(#[trigger] seq_has_id(es.drop_last(), x) && #[trigger] has_id(es.last(), x))
    }
}

/// `t` with the element of the record `r` put back into the node whose uuid
/// is the record's parent, at the record's bucket and position.
pub open spec fn put_back(t: ElementTree, r: UndoEntry) -> ElementTree
    decreases t,
{
    if t.uuid == r.parent {
        with_inserted(t, r.bucket, r.position, r.element)
    } else {
        ElementTree { buckets: put_back_buckets(t.buckets, r), ..t }
    }
}

pub open spec fn put_back_buckets(bs: Seq<Seq<ElementTree>>, r: UndoEntry) -> Seq<Seq<ElementTree>>
    decreases bs,
{
    Seq::new(bs.len(), |b: int| if 0 <= b < bs.len() { put_back_seq(bs[b], r) } else { bs[0] })
}

pub open spec fn put_back_seq(es: Seq<ElementTree>, r: UndoEntry) -> Seq<ElementTree>
    decreases es,
{
    Seq::new(es.len(), |i: int| if 0 <= i < es.len() { put_back(es[i], r) } else { es[0] })
}

/// `t` with the elements of the records `rs` put back, one after the other.
pub open spec fn put_back_all(t: ElementTree, rs: Seq<UndoEntry>) -> ElementTree
    decreases rs.len(),
{
    if rs.len() == 0 {
        t
    } else {
        put_back(put_back_all(t, rs.drop_last()), rs.last())
    }
}

/// The diagram seen as one node holding its elements in bucket 0.
pub open spec fn diagram_root(d: DiagramTree) -> ElementTree {
    ElementTree {
        kind: ElementKind::StateMachine,
        uuid: d.uuid,
        texts: seq![],
        flag: false,
        buckets: seq![d.elements],
        links: seq![],
    }
}

/// No two nodes of the diagram, the diagram included, share a uuid.
pub open spec fn diagram_distinct(d: DiagramTree) -> bool {
    distinct(diagram_root(d))
}

/// The diagram with the elements of the records `rs` put back, one after the
/// other, each into the node (or the diagram) whose uuid is its parent.
pub open spec fn restored(d: DiagramTree, rs: Seq<UndoEntry>) -> DiagramTree {
    DiagramTree { elements: put_back_all(diagram_root(d), rs).buckets[0], ..d }
}

// ---------------------------------------------------------------------------
// Basic facts
// ---------------------------------------------------------------------------

pub proof fn lemma_seq_has_id(es: Seq<ElementTree>, x: ModelUuid)
    ensures
        seq_has_id(es, x) <==> exists|i: int| 0 <= i < es.len() && #[trigger] has_id(es[i], x),
    decreases es.len(),
{
    if es.len() > 0 {
        lemma_seq_has_id(es.drop_last(), x);
        assert(forall|i: int| 0 <= i < es.len() - 1 ==> es.drop_last()[i] == es[i]);
        if has_id(es.last(), x) {
            assert(has_id(es[es.len() - 1], x));
        }
        if exists|i: int| 0 <= i < es.len() && #[trigger] has_id(es[i], x) {
            let i = choose|i: int| 0 <= i < es.len() && #[trigger] has_id(es[i], x);
            if i < es.len() - 1 {
                assert(has_id(es.drop_last()[i], x));
            }
        }
    }
}

pub proof fn lemma_buckets_have_id(bs: Seq<Seq<ElementTree>>, x: ModelUuid)
    ensures
        buckets_have_id(bs, x) <==> exists|b: int| 0 <= b < bs.len() && #[trigger] seq_has_id(bs[b], x),
    decreases bs.len(),
{
    if bs.len() > 0 {
        lemma_buckets_have_id(bs.drop_last(), x);
        assert(forall|b: int| 0 <= b < bs.len() - 1 ==> bs.drop_last()[b] == bs[b]);
        if seq_has_id(bs.last(), x) {
            assert(seq_has_id(bs[bs.len() - 1], x));
        }
        if exists|b: int| 0 <= b < bs.len() && #[trigger] seq_has_id(bs[b], x) {
            let b = choose|b: int| 0 <= b < bs.len() && #[trigger] seq_has_id(bs[b], x);
            if b < bs.len() - 1 {
                assert(seq_has_id(bs.drop_last()[b], x));
            }
        }
    }
}

/// The uuids of a node are its own and those of its children.
pub proof fn lemma_has_id(t: ElementTree, x: ModelUuid)
    ensures
        has_id(t, x) <==> x == t.uuid || exists|b: int, i: int|
            0 <= b < t.buckets.len() && 0 <= i < t.buckets[b].len() && #[trigger] has_id(t.buckets[b][i], x),
{
    lemma_buckets_have_id(t.buckets, x);
    if buckets_have_id(t.buckets, x) {
        let b = choose|b: int| 0 <= b < t.buckets.len() && #[trigger] seq_has_id(t.buckets[b], x);
        lemma_seq_has_id(t.buckets[b], x);
        let i = choose|i: int| 0 <= i < t.buckets[b].len() && #[trigger] has_id(t.buckets[b][i], x);
        assert(has_id(t.buckets[b][i], x));
    }
    if exists|b: int, i: int| 0 <= b < t.buckets.len() && 0 <= i < t.buckets[b].len() && #[trigger] has_id(t.buckets[b][i], x) {
        let (b, i) = choose|b: int, i: int|
            0 <= b < t.buckets.len() && 0 <= i < t.buckets[b].len() && #[trigger] has_id(t.buckets[b][i], x);
        lemma_seq_has_id(t.buckets[b], x);
        assert(seq_has_id(t.buckets[b], x));
    }
}

pub proof fn lemma_has_id_child(t: ElementTree, b: int, i: int, x: ModelUuid)
    requires
        0 <= b < t.buckets.len(),
        0 <= i < t.buckets[b].len(),
        has_id(t.buckets[b][i], x),
    ensures
        has_id(t, x),
{
    lemma_has_id(t, x);
}

pub proof fn lemma_put_back_absent(t: ElementTree, r: UndoEntry)
    requires
        !has_id(t, r.parent),
    ensures
        put_back(t, r) == t,
    decreases t,
{
    assert forall|b: int| 0 <= b < t.buckets.len() implies put_back_seq(t.buckets[b], r) == t.buckets[b] by {
        assert forall|i: int| 0 <= i < t.buckets[b].len() implies put_back(t.buckets[b][i], r) == t.buckets[b][i] by {
            if has_id(t.buckets[b][i], r.parent) {
                lemma_has_id_child(t, b, i, r.parent);
            }
            lemma_put_back_absent(t.buckets[b][i], r);
        }
        assert(put_back_seq(t.buckets[b], r) =~= t.buckets[b]);
    }
    assert(put_back_buckets(t.buckets, r) =~= t.buckets);
    assert(put_back(t, r) =~= t);
}

/// Putting back into a node other than `t` itself changes only the child
/// that holds the record's parent.
pub proof fn lemma_put_back_local(t: ElementTree, r: UndoEntry, b: int, k: int)
    requires
        t.uuid != r.parent,
        0 <= b < t.buckets.len(),
        0 <= k < t.buckets[b].len(),
        forall|b2: int, i2: int|
            0 <= b2 < t.buckets.len() && 0 <= i2 < t.buckets[b2].len() && (b2 != b || i2 != k) ==> !#[trigger] has_id(
                t.buckets[b2][i2],
                r.parent,
            ),
    ensures
        put_back(t, r) == (ElementTree {
            buckets: t.buckets.update(b, t.buckets[b].update(k, put_back(t.buckets[b][k], r))),
            ..t
        }),
{
    let nb = put_back_buckets(t.buckets, r);
    let want = t.buckets.update(b, t.buckets[b].update(k, put_back(t.buckets[b][k], r)));
    assert forall|c: int| 0 <= c < t.buckets.len() implies nb[c] == want[c] by {
        assert forall|i: int| 0 <= i < t.buckets[c].len() && (c != b || i != k) implies put_back(t.buckets[c][i], r)
            == t.buckets[c][i] by {
            lemma_put_back_absent(t.buckets[c][i], r);
        }
        assert(put_back_seq(t.buckets[c], r) =~= want[c]);
    }
    assert(nb =~= want);
    assert(put_back(t, r) =~= (ElementTree { buckets: want, ..t }));
}

pub proof fn lemma_put_back_all_concat(t: ElementTree, a: Seq<UndoEntry>, b: Seq<UndoEntry>)
    ensures
        put_back_all(t, a + b) == put_back_all(put_back_all(t, a), b),
    decreases b.len(),
{
    if b.len() == 0 {
        assert(a + b =~= a);
    } else {
        assert((a + b).drop_last() =~= a + b.drop_last());
        assert((a + b).last() == b.last());
        lemma_put_back_all_concat(t, a, b.drop_last());
    }
}

pub proof fn lemma_seq_distinct(es: Seq<ElementTree>)
    requires
        seq_distinct(es),
    ensures
        forall|i: int| 0 <= i < es.len() ==> distinct(#[trigger] es[i]),
        forall|i: int, j: int, x: ModelUuid|
            0 <= i < es.len() && 0 <= j < es.len() && i != j && #[trigger] has_id(es[i], x) ==> !#[trigger] has_id(es[j], x),
    decreases es.len(),
{
    if es.len() > 0 {
        let d = es.drop_last();
        lemma_seq_distinct(d);
        assert(forall|i: int| 0 <= i < d.len() ==> d[i] == es[i]);
        assert forall|i: int, j: int, x: ModelUuid|
            0 <= i < es.len() && 0 <= j < es.len() && i != j && #[trigger] has_id(es[i], x) implies !#[trigger] has_id(
                es[j],
                x,
            ) by {
            if i == es.len() - 1 || j == es.len() - 1 {
                let other = if i == es.len() - 1 { j } else { i };
                lemma_seq_has_id(d, x);
                if has_id(es[i], x) && has_id(es[j], x) {
                    assert(has_id(d[other], x));
                    assert(seq_has_id(d, x));
                    assert(has_id(es.last(), x));
                }
            } else {
                assert(has_id(d[i], x));
            }
        }
    }
}

pub proof fn lemma_buckets_distinct(bs: Seq<Seq<ElementTree>>)
    requires
        buckets_distinct(bs),
    ensures
        forall|b: int| 0 <= b < bs.len() ==> seq_distinct(#[trigger] bs[b]),
        forall|b1: int, b2: int, x: ModelUuid|
            0 <= b1 < bs.len() && 0 <= b2 < bs.len() && b1 != b2 && #[trigger] seq_has_id(bs[b1], x) ==> !#[trigger] seq_has_id(
                bs[b2],
                x,
            ),
    decreases bs.len(),
{
    if bs.len() > 0 {
        let d = bs.drop_last();
        lemma_buckets_distinct(d);
        assert(forall|b: int| 0 <= b < d.len() ==> d[b] == bs[b]);
        assert forall|b1: int, b2: int, x: ModelUuid|
            0 <= b1 < bs.len() && 0 <= b2 < bs.len() && b1 != b2 && #[trigger] seq_has_id(bs[b1], x) implies !#[trigger] seq_has_id(
                bs[b2],
                x,
            ) by {
            if b1 == bs.len() - 1 || b2 == bs.len() - 1 {
                let other = if b1 == bs.len() - 1 { b2 } else { b1 };
                lemma_buckets_have_id(d, x);
                if seq_has_id(bs[b1], x) && seq_has_id(bs[b2], x) {
                    assert(seq_has_id(d[other], x));
                    assert(buckets_have_id(d, x));
                    assert(seq_has_id(bs.last(), x));
                }
            } else {
                assert(seq_has_id(d[b1], x));
            }
        }
    }
}

/// What distinctness says of the children of a node.
pub proof fn lemma_distinct(t: ElementTree)
    requires
        distinct(t),
    ensures
        forall|b: int, i: int| 0 <= b < t.buckets.len() && 0 <= i < t.buckets[b].len() ==> distinct(#[trigger] t.buckets[b][i]),
        forall|b: int, i: int|
            0 <= b < t.buckets.len() && 0 <= i < t.buckets[b].len() ==> !has_id(#[trigger] t.buckets[b][i], t.uuid),
        forall|b1: int, i1: int, b2: int, i2: int, x: ModelUuid|
            0 <= b1 < t.buckets.len() && 0 <= i1 < t.buckets[b1].len() && 0 <= b2 < t.buckets.len() && 0 <= i2
                < t.buckets[b2].len() && (b1 != b2 || i1 != i2) && #[trigger] has_id(t.buckets[b1][i1], x) ==> !#[trigger] has_id(
                t.buckets[b2][i2],
                x,
            ),
{
    let bs = t.buckets;
    lemma_buckets_distinct(bs);
    assert forall|b: int, i: int| 0 <= b < bs.len() && 0 <= i < bs[b].len() implies distinct(#[trigger] bs[b][i]) by {
        lemma_seq_distinct(bs[b]);
    }
    assert forall|b: int, i: int| 0 <= b < bs.len() && 0 <= i < bs[b].len() implies !has_id(#[trigger] bs[b][i], t.uuid) by {
        lemma_has_id(t, t.uuid);
        if has_id(bs[b][i], t.uuid) {
            lemma_seq_has_id(bs[b], t.uuid);
            assert(seq_has_id(bs[b], t.uuid));
            lemma_buckets_have_id(bs, t.uuid);
            assert(buckets_have_id(bs, t.uuid));
        }
    }
    assert forall|b1: int, i1: int, b2: int, i2: int, x: ModelUuid|
        0 <= b1 < bs.len() && 0 <= i1 < bs[b1].len() && 0 <= b2 < bs.len() && 0 <= i2 < bs[b2].len() && (b1 != b2 || i1
            != i2) && #[trigger] has_id(bs[b1][i1], x) implies !#[trigger] has_id(bs[b2][i2], x) by {
        if b1 == b2 {
            lemma_seq_distinct(bs[b1]);
        } else if has_id(bs[b2][i2], x) {
            lemma_seq_has_id(bs[b1], x);
            lemma_seq_has_id(bs[b2], x);
            assert(seq_has_id(bs[b1], x));
            assert(seq_has_id(bs[b2], x));
        }
    }
}

} // verus!
