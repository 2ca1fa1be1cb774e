use vstd::prelude::*;

use crate::find_spec::{find_below, find_in, find_in_buckets};
use crate::ids::ModelUuid;
use crate::model::ElementTree;
use crate::update_spec::{update_below, update_buckets, update_found};

verus! {

/// The element found again after an update that keeps its uuid is the
/// updated element, and a second update at the same place composes with the
/// first.
pub proof fn lemma_update_found_again(
    parent: ModelUuid,
    es: Seq<ElementTree>,
    u: ModelUuid,
    g1: spec_fn(ElementTree) -> ElementTree,
    g2: spec_fn(ElementTree) -> ElementTree,
)
    requires
        find_in(parent, es, u) matches Some((t, _)) && g1(t).uuid == u,
    ensures
        find_in(parent, update_found(parent, es, u, g1), u) == (match find_in(parent, es, u) {
            Some((t, p)) => Some((g1(t), p)),
            None => None,
        }),
        update_found(parent, update_found(parent, es, u, g1), u, g2) == update_found(parent, es, u, |x: ElementTree| g2(g1(x))),
    decreases es,
{
    let d = es.drop_last();
    let c = es.last();
    let n = update_found(parent, es, u, g1);
    if find_in(parent, d, u) is Some {
        lemma_update_found_again(parent, d, u, g1, g2);
        assert(n.drop_last() =~= update_found(parent, d, u, g1));
        assert(n.last() == c);
        let m = update_found(parent, n, u, g2);
        assert(m =~= update_found(parent, d, u, |x: ElementTree| g2(g1(x))).push(c));
    } else if c.uuid == u {
        assert(n.drop_last() =~= d);
        assert(n.last() == g1(c));
    } else {
        lemma_update_below_again(c, u, g1, g2);
        assert(n.drop_last() =~= d);
        assert(n.last() == update_below(c, u, g1));
    }
}

pub proof fn lemma_update_below_again(
    t: ElementTree,
    u: ModelUuid,
    g1: spec_fn(ElementTree) -> ElementTree,
    g2: spec_fn(ElementTree) -> ElementTree,
)
    requires
        find_below(t, u) matches Some((x, _)) && g1(x).uuid == u,
    ensures
        update_below(t, u, g1).uuid == t.uuid,
        update_below(t, u, g1).kind == t.kind,
        find_below(update_below(t, u, g1), u) == (match find_below(t, u) {
            Some((x, p)) => Some((g1(x), p)),
            None => None,
        }),
        update_below(update_below(t, u, g1), u, g2) == update_below(t, u, |x: ElementTree| g2(g1(x))),
    decreases t,
{
    lemma_update_buckets_again(t.uuid, t.buckets, u, g1, g2);
}

pub proof fn lemma_update_buckets_again(
    parent: ModelUuid,
    bs: Seq<Seq<ElementTree>>,
    u: ModelUuid,
    g1: spec_fn(ElementTree) -> ElementTree,
    g2: spec_fn(ElementTree) -> ElementTree,
)
    requires
        find_in_buckets(parent, bs, u) matches Some((x, _)) && g1(x).uuid == u,
    ensures
        find_in_buckets(parent, update_buckets(parent, bs, u, g1), u) == (match find_in_buckets(parent, bs, u) {
            Some((x, p)) => Some((g1(x), p)),
            None => None,
        }),
        update_buckets(parent, update_buckets(parent, bs, u, g1), u, g2) == update_buckets(
            parent,
            bs,
            u,
            |x: ElementTree| g2(g1(x)),
        ),
    decreases bs,
{
    let d = bs.drop_last();
    let l = bs.last();
    let n = update_buckets(parent, bs, u, g1);
    if find_in_buckets(parent, d, u) is Some {
        lemma_update_buckets_again(parent, d, u, g1, g2);
        assert(n.drop_last() =~= update_buckets(parent, d, u, g1));
        assert(n.last() == l);
        let m = update_buckets(parent, n, u, g2);
        assert(m =~= update_buckets(parent, d, u, |x: ElementTree| g2(g1(x))).push(l));
    } else {
        lemma_update_found_again(parent, l, u, g1, g2);
        assert(n.drop_last() =~= d);
        assert(n.last() == update_found(parent, l, u, g1));
    }
}

} // verus!
