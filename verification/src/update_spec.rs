use vstd::prelude::*;

use crate::edit_spec::{insertion_point, receiving_bucket, with_inserted, with_removed};
use crate::find_spec::{find_below, find_in, find_in_buckets, first_position, is_searchable};
use crate::ids::ModelUuid;
use crate::model::{ElementKind, ElementTree};

verus! {

/// The forest `es` (children of `parent`) with the element that `find_in`
/// finds for `u` replaced by `g` of it.
pub open spec fn update_found(parent: ModelUuid, es: Seq<ElementTree>, u: ModelUuid, g: spec_fn(ElementTree) -> ElementTree) -> Seq<
    ElementTree,
>
    decreases es,
{
    if es.len() == 0 {
        es
    } else if find_in(parent, es.drop_last(), u) is Some {
        update_found(parent, es.drop_last(), u, g).push(es.last())
    } else {
        let c = es.last();
        if c.uuid == u {
            es.drop_last().push(g(c))
        } else {
            es.drop_last().push(update_below(c, u, g))
        }
    }
}

/// `t` with the element that `find_below` finds for `u` replaced by `g` of it.
pub open spec fn update_below(t: ElementTree, u: ModelUuid, g: spec_fn(ElementTree) -> ElementTree) -> ElementTree
    decreases t,
{
    if is_searchable(t.kind) {
        ElementTree { buckets: update_buckets(t.uuid, t.buckets, u, g), ..t }
    } else {
        t
    }
}

pub open spec fn update_buckets(
    parent: ModelUuid,
    bs: Seq<Seq<ElementTree>>,
    u: ModelUuid,
    g: spec_fn(ElementTree) -> ElementTree,
) -> Seq<Seq<ElementTree>>
    decreases bs,
{
    if bs.len() == 0 {
        bs
    } else if find_in_buckets(parent, bs.drop_last(), u) is Some {
        update_buckets(parent, bs.drop_last(), u, g).push(bs.last())
    } else {
        bs.drop_last().push(update_found(parent, bs.last(), u, g))
    }
}

/// Where an element of kind `ek` asked to go to `bucket` at `position` lands
/// in `t`, when `t` accepts it.
pub open spec fn placement(t: ElementTree, bucket: int, position: Option<usize>, ek: ElementKind) -> Option<(int, int)> {
    match receiving_bucket(t.kind, bucket, ek) {
        Some(b) => Some((b, insertion_point(position, t.buckets[b].len() as int))),
        None => None,
    }
}

/// `t` after receiving `c` as asked, or `t` itself when it refuses it.
pub open spec fn placed(t: ElementTree, bucket: int, position: Option<usize>, c: ElementTree) -> ElementTree {
    match placement(t, bucket, position, c.kind) {
        Some((b, p)) => with_inserted(t, b, p, c),
        None => t,
    }
}

pub open spec fn placing(bucket: int, position: Option<usize>, c: ElementTree) -> spec_fn(ElementTree) -> ElementTree {
    |t: ElementTree| placed(t, bucket, position, c)
}

/// The kinds that hold children.
pub open spec fn is_container_kind(k: ElementKind) -> bool {
    k == ElementKind::StateMachine || k == ElementKind::CompositeState || k == ElementKind::CompositeStateRegion
        || k == ElementKind::SimpleState
}

/// `t` without its first child with uuid `u`.
pub open spec fn taken(t: ElementTree, u: ModelUuid) -> ElementTree {
    if is_container_kind(t.kind) {
        match first_position(t.buckets, u) {
            Some((b, i)) => with_removed(t, b, i),
            None => t,
        }
    } else {
        t
    }
}

pub open spec fn taking(u: ModelUuid) -> spec_fn(ElementTree) -> ElementTree {
    |t: ElementTree| taken(t, u)
}

// ---------------------------------------------------------------------------
// Lemmas
// ---------------------------------------------------------------------------

/// When nothing before position `i` is found and `es[i]` is or holds the
/// element, the update replaces `es[i]` only.
pub proof fn lemma_update_found_at(parent: ModelUuid, es: Seq<ElementTree>, i: int, u: ModelUuid, g: spec_fn(ElementTree) -> ElementTree)
    requires
        0 <= i < es.len(),
        find_in(parent, es.take(i), u) is None,
        es[i].uuid == u || find_below(es[i], u) is Some,
    ensures
        update_found(parent, es, u, g) == es.update(i, if es[i].uuid == u { g(es[i]) } else { update_below(es[i], u, g) }),
        find_in(parent, es, u) is Some,
    decreases es.len(),
{
    if i == es.len() - 1 {
        assert(es.drop_last() =~= es.take(i));
        assert(es.drop_last().push(if es[i].uuid == u { g(es[i]) } else { update_below(es[i], u, g) }) =~= es.update(
            i,
            if es[i].uuid == u { g(es[i]) } else { update_below(es[i], u, g) },
        ));
    } else {
        let d = es.drop_last();
        assert(d.take(i) =~= es.take(i));
        assert(d[i] == es[i]);
        lemma_update_found_at(parent, d, i, u, g);
        assert(update_found(parent, d, u, g).push(es.last()) =~= es.update(
            i,
            if es[i].uuid == u { g(es[i]) } else { update_below(es[i], u, g) },
        ));
    }
}

/// When nothing is found, the update changes nothing.
pub proof fn lemma_update_found_none(parent: ModelUuid, es: Seq<ElementTree>, u: ModelUuid, g: spec_fn(ElementTree) -> ElementTree)
    requires
        find_in(parent, es, u) is None,
    ensures
        update_found(parent, es, u, g) == es,
    decreases es,
{
    if es.len() > 0 {
        lemma_update_found_none(parent, es.drop_last(), u, g);
        lemma_update_below_none(es.last(), u, g);
        assert(es.drop_last().push(es.last()) =~= es);
    }
}

pub proof fn lemma_update_below_none(t: ElementTree, u: ModelUuid, g: spec_fn(ElementTree) -> ElementTree)
    requires
        find_below(t, u) is None,
    ensures
        update_below(t, u, g) == t,
    decreases t,
{
    if is_searchable(t.kind) {
        lemma_update_buckets_none(t.uuid, t.buckets, u, g);
        assert(ElementTree { buckets: t.buckets, ..t } =~= t);
    }
}

pub proof fn lemma_update_buckets_none(parent: ModelUuid, bs: Seq<Seq<ElementTree>>, u: ModelUuid, g: spec_fn(ElementTree) -> ElementTree)
    requires
        find_in_buckets(parent, bs, u) is None,
    ensures
        update_buckets(parent, bs, u, g) == bs,
    decreases bs,
{
    if bs.len() > 0 {
        lemma_update_buckets_none(parent, bs.drop_last(), u, g);
        lemma_update_found_none(parent, bs.last(), u, g);
        assert(bs.drop_last().push(bs.last()) =~= bs);
    }
}

/// When the update leaves the element it finds as it is, it changes nothing.
pub proof fn lemma_update_found_fixed(parent: ModelUuid, es: Seq<ElementTree>, u: ModelUuid, g: spec_fn(ElementTree) -> ElementTree)
    requires
        find_in(parent, es, u) matches Some((t, _)) && g(t) == t,
    ensures
        update_found(parent, es, u, g) == es,
    decreases es,
{
    if find_in(parent, es.drop_last(), u) is Some {
        lemma_update_found_fixed(parent, es.drop_last(), u, g);
    } else if es.last().uuid != u {
        lemma_update_below_fixed(es.last(), u, g);
    }
    assert(es.drop_last().push(es.last()) =~= es);
}

pub proof fn lemma_update_below_fixed(t: ElementTree, u: ModelUuid, g: spec_fn(ElementTree) -> ElementTree)
    requires
        find_below(t, u) matches Some((x, _)) && g(x) == x,
    ensures
        update_below(t, u, g) == t,
    decreases t,
{
    lemma_update_buckets_fixed(t.uuid, t.buckets, u, g);
    assert(ElementTree { buckets: t.buckets, ..t } =~= t);
}

pub proof fn lemma_update_buckets_fixed(parent: ModelUuid, bs: Seq<Seq<ElementTree>>, u: ModelUuid, g: spec_fn(ElementTree) -> ElementTree)
    requires
        find_in_buckets(parent, bs, u) matches Some((x, _)) && g(x) == x,
    ensures
        update_buckets(parent, bs, u, g) == bs,
    decreases bs,
{
    if find_in_buckets(parent, bs.drop_last(), u) is Some {
        lemma_update_buckets_fixed(parent, bs.drop_last(), u, g);
    } else {
        lemma_update_found_fixed(parent, bs.last(), u, g);
    }
    assert(bs.drop_last().push(bs.last()) =~= bs);
}

pub proof fn lemma_update_one_bucket(t: ElementTree, u: ModelUuid, g: spec_fn(ElementTree) -> ElementTree)
    requires
        t.buckets.len() == 1,
        is_searchable(t.kind),
    ensures
        update_below(t, u, g) == (ElementTree { buckets: seq![update_found(t.uuid, t.buckets[0], u, g)], ..t }),
{
    let bs = t.buckets;
    assert(bs.drop_last().len() == 0);
    assert(find_in_buckets(t.uuid, bs.drop_last(), u) == None::<(ElementTree, ModelUuid)>);
    assert(update_buckets(t.uuid, bs, u, g) =~= seq![update_found(t.uuid, t.buckets[0], u, g)]);
}

pub proof fn lemma_update_three_buckets(t: ElementTree, u: ModelUuid, g: spec_fn(ElementTree) -> ElementTree)
    requires
        t.buckets.len() == 3,
        t.buckets[0].len() == 0,
        is_searchable(t.kind),
    ensures
        update_below(t, u, g) == (ElementTree {
            buckets: if find_in(t.uuid, t.buckets[1], u) is Some {
                seq![t.buckets[0], update_found(t.uuid, t.buckets[1], u, g), t.buckets[2]]
            } else {
                seq![t.buckets[0], t.buckets[1], update_found(t.uuid, t.buckets[2], u, g)]
            },
            ..t
        }),
{
    let bs = t.buckets;
    let b2 = bs.drop_last();
    let b1 = b2.drop_last();
    assert(b1.drop_last().len() == 0);
    assert(find_in_buckets(t.uuid, b1.drop_last(), u) == None::<(ElementTree, ModelUuid)>);
    assert(b1.last().len() == 0);
    assert(find_in(t.uuid, b1.last(), u) == None::<(ElementTree, ModelUuid)>);
    assert(find_in_buckets(t.uuid, b1, u) == None::<(ElementTree, ModelUuid)>);
    assert(update_found(t.uuid, b1.last(), u, g) == b1.last());
    assert(update_buckets(t.uuid, b1, u, g) =~= b1);
    assert(b2.last() == bs[1]);
    assert(update_buckets(t.uuid, b2, u, g) =~= seq![bs[0], update_found(t.uuid, bs[1], u, g)]);
    if find_in(t.uuid, bs[1], u) is Some {
        assert(find_in_buckets(t.uuid, b2, u) is Some);
        assert(update_buckets(t.uuid, bs, u, g) =~= seq![bs[0], update_found(t.uuid, bs[1], u, g), bs[2]]);
    } else {
        assert(find_in_buckets(t.uuid, b2, u) is None);
        assert(b2 =~= seq![bs[0], bs[1]]);
        assert(update_buckets(t.uuid, bs, u, g) =~= seq![bs[0], bs[1], update_found(t.uuid, bs[2], u, g)]);
    }
}

} // verus!
