use vstd::prelude::*;

use crate::find_spec::{find_below, find_in, find_in_buckets, is_searchable};
use crate::ids::ModelUuid;
use crate::model::ElementTree;
use crate::restore_spec::{buckets_have_id, has_id, seq_has_id};
use crate::update_spec::{update_below, update_buckets, update_found};

verus! {

/// `x` is the uuid of `t` or can be looked up below it.
pub open spec fn findable(t: ElementTree, x: ModelUuid) -> bool {
    t.uuid == x || find_below(t, x) is Some
}

/// A lookup in a list finds something exactly when some member is or holds
/// what is looked for.
pub proof fn lemma_find_in_some(parent: ModelUuid, es: Seq<ElementTree>, x: ModelUuid)
    ensures
        find_in(parent, es, x) is Some <==> exists|i: int| 0 <= i < es.len() && #[trigger] findable(es[i], x),
    decreases es.len(),
{
    if es.len() > 0 {
        let d = es.drop_last();
        lemma_find_in_some(parent, d, x);
        assert(forall|i: int| 0 <= i < d.len() ==> d[i] == es[i]);
        if findable(es.last(), x) {
            assert(findable(es[es.len() - 1], x));
        }
        if exists|i: int| 0 <= i < es.len() && #[trigger] findable(es[i], x) {
            let i = choose|i: int| 0 <= i < es.len() && #[trigger] findable(es[i], x);
            if i < es.len() - 1 {
                assert(findable(d[i], x));
            }
        }
    }
}

pub proof fn lemma_find_in_buckets_some(parent: ModelUuid, bs: Seq<Seq<ElementTree>>, x: ModelUuid)
    ensures
        find_in_buckets(parent, bs, x) is Some <==> exists|b: int| 0 <= b < bs.len() && #[trigger] find_in(parent, bs[b], x) is Some,
    decreases bs.len(),
{
    if bs.len() > 0 {
        let d = bs.drop_last();
        lemma_find_in_buckets_some(parent, d, x);
        assert(forall|b: int| 0 <= b < d.len() ==> d[b] == bs[b]);
        if find_in(parent, bs.last(), x) is Some {
            assert(find_in(parent, bs[bs.len() - 1], x) is Some);
        }
        if exists|b: int| 0 <= b < bs.len() && #[trigger] find_in(parent, bs[b], x) is Some {
            let b = choose|b: int| 0 <= b < bs.len() && #[trigger] find_in(parent, bs[b], x) is Some;
            if b < bs.len() - 1 {
                assert(find_in(parent, d[b], x) is Some);
            }
        }
    }
}

/// What a lookup finds is a node of what it looks in.
pub proof fn lemma_find_in_has(parent: ModelUuid, es: Seq<ElementTree>, x: ModelUuid)
    requires
        find_in(parent, es, x) is Some,
    ensures
        seq_has_id(es, x),
    decreases es,
{
    if find_in(parent, es.drop_last(), x) is Some {
        lemma_find_in_has(parent, es.drop_last(), x);
    } else if es.last().uuid != x {
        lemma_find_below_has(es.last(), x);
    } else {
        assert(has_id(es.last(), x));
    }
}

pub proof fn lemma_find_below_has(t: ElementTree, x: ModelUuid)
    requires
        find_below(t, x) is Some,
    ensures
        has_id(t, x),
    decreases t,
{
    lemma_find_in_buckets_has(t.uuid, t.buckets, x);
}

pub proof fn lemma_find_in_buckets_has(parent: ModelUuid, bs: Seq<Seq<ElementTree>>, x: ModelUuid)
    requires
        find_in_buckets(parent, bs, x) is Some,
    ensures
        buckets_have_id(bs, x),
    decreases bs,
{
    if find_in_buckets(parent, bs.drop_last(), x) is Some {
        lemma_find_in_buckets_has(parent, bs.drop_last(), x);
    } else {
        lemma_find_in_has(parent, bs.last(), x);
    }
}

/// An update keeps the length of the list it updates.
pub proof fn lemma_update_found_len(parent: ModelUuid, es: Seq<ElementTree>, u: ModelUuid, g: spec_fn(ElementTree) -> ElementTree)
    ensures
        update_found(parent, es, u, g).len() == es.len(),
    decreases es.len(),
{
    if es.len() > 0 {
        lemma_update_found_len(parent, es.drop_last(), u, g);
    }
}

pub proof fn lemma_update_buckets_len(parent: ModelUuid, bs: Seq<Seq<ElementTree>>, u: ModelUuid, g: spec_fn(ElementTree) -> ElementTree)
    ensures
        update_buckets(parent, bs, u, g).len() == bs.len(),
    decreases bs.len(),
{
    if bs.len() > 0 {
        lemma_update_buckets_len(parent, bs.drop_last(), u, g);
    }
}

/// An update with a function that keeps uuids and what can be looked up
/// keeps what can be looked up.
pub proof fn lemma_update_keeps_findable(t: ElementTree, q: ModelUuid, g: spec_fn(ElementTree) -> ElementTree, x: ModelUuid)
    requires
        findable(t, x),
        forall|z: ElementTree| (#[trigger] g(z)).uuid == z.uuid && (findable(z, x) ==> findable(g(z), x)),
    ensures
        findable(update_below(t, q, g), x),
        update_below(t, q, g).uuid == t.uuid,
    decreases t,
{
    if t.uuid != x && is_searchable(t.kind) {
        lemma_update_buckets_keeps(t.uuid, t.buckets, q, g, x);
    }
}

pub proof fn lemma_update_buckets_keeps(
    parent: ModelUuid,
    bs: Seq<Seq<ElementTree>>,
    q: ModelUuid,
    g: spec_fn(ElementTree) -> ElementTree,
    x: ModelUuid,
)
    requires
        find_in_buckets(parent, bs, x) is Some,
        forall|z: ElementTree| (#[trigger] g(z)).uuid == z.uuid && (findable(z, x) ==> findable(g(z), x)),
    ensures
        find_in_buckets(parent, update_buckets(parent, bs, q, g), x) is Some,
    decreases bs,
{
    let n = update_buckets(parent, bs, q, g);
    lemma_update_buckets_len(parent, bs, q, g);
    lemma_find_in_buckets_some(parent, bs, x);
    lemma_find_in_buckets_some(parent, n, x);
    let b = choose|b: int| 0 <= b < bs.len() && #[trigger] find_in(parent, bs[b], x) is Some;
    let d = bs.drop_last();
    if find_in_buckets(parent, d, q) is Some {
        assert(n == update_buckets(parent, d, q, g).push(bs.last()));
        if b < bs.len() - 1 {
            assert(find_in(parent, d[b], x) is Some);
            lemma_find_in_buckets_some(parent, d, x);
            lemma_update_buckets_keeps(parent, d, q, g, x);
            let m = update_buckets(parent, d, q, g);
            lemma_find_in_buckets_some(parent, m, x);
            let c = choose|c: int| 0 <= c < m.len() && #[trigger] find_in(parent, m[c], x) is Some;
            assert(n[c] == m[c]);
        } else {
            assert(n[b] == bs[b]);
        }
    } else {
        assert(n == d.push(update_found(parent, bs.last(), q, g)));
        if b < bs.len() - 1 {
            assert(n[b] == bs[b]);
        } else {
            lemma_update_found_keeps(parent, bs.last(), q, g, x);
            assert(n[b] == update_found(parent, bs.last(), q, g));
        }
    }
}

pub proof fn lemma_update_found_keeps(
    parent: ModelUuid,
    es: Seq<ElementTree>,
    q: ModelUuid,
    g: spec_fn(ElementTree) -> ElementTree,
    x: ModelUuid,
)
    requires
        find_in(parent, es, x) is Some,
        forall|z: ElementTree| (#[trigger] g(z)).uuid == z.uuid && (findable(z, x) ==> findable(g(z), x)),
    ensures
        find_in(parent, update_found(parent, es, q, g), x) is Some,
    decreases es,
{
    let n = update_found(parent, es, q, g);
    lemma_update_found_len(parent, es, q, g);
    lemma_find_in_some(parent, es, x);
    lemma_find_in_some(parent, n, x);
    let i = choose|i: int| 0 <= i < es.len() && #[trigger] findable(es[i], x);
    let d = es.drop_last();
    let c = es.last();
    if find_in(parent, d, q) is Some {
        assert(n == update_found(parent, d, q, g).push(c));
        if i < es.len() - 1 {
            assert(findable(d[i], x));
            lemma_find_in_some(parent, d, x);
            lemma_update_found_keeps(parent, d, q, g, x);
            let m = update_found(parent, d, q, g);
            lemma_find_in_some(parent, m, x);
            let k = choose|k: int| 0 <= k < m.len() && #[trigger] findable(m[k], x);
            assert(n[k] == m[k]);
        } else {
            assert(n[i] == c);
        }
    } else if c.uuid == q {
        assert(n == d.push(g(c)));
        if i < es.len() - 1 {
            assert(n[i] == es[i]);
        } else {
            assert(n[i] == g(c));
        }
    } else {
        assert(n == d.push(update_below(c, q, g)));
        if i < es.len() - 1 {
            assert(n[i] == es[i]);
        } else {
            lemma_update_keeps_findable(c, q, g, x);
            assert(n[i] == update_below(c, q, g));
        }
    }
}

} // verus!
