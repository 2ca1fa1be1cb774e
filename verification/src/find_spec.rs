use vstd::prelude::*;

use crate::ids::ModelUuid;
use crate::model::{ElementKind, ElementTree};

verus! {

/// The kinds whose children are searched when looking up an element below
/// them.
pub open spec fn is_searchable(k: ElementKind) -> bool {
    k == ElementKind::StateMachine || k == ElementKind::CompositeState || k == ElementKind::CompositeStateRegion
}

/// The first element with uuid `u` among the forest `es` (children of
/// `parent`) and below its searchable members, in pre-order, with the uuid of
/// its parent.
pub open spec fn find_in(parent: ModelUuid, es: Seq<ElementTree>, u: ModelUuid) -> Option<(ElementTree, ModelUuid)>
    decreases es,
{
    if es.len() == 0 {
        None
    } else {
        match find_in(parent, es.drop_last(), u) {
            Some(r) => Some(r),
            None => {
                let c = es.last();
                if c.uuid == u {
                    Some((c, parent))
                } else {
                    find_below(c, u)
                }
            },
        }
    }
}

/// The first element with uuid `u` strictly below `t`.
pub open spec fn find_below(t: ElementTree, u: ModelUuid) -> Option<(ElementTree, ModelUuid)>
    decreases t,
{
    if is_searchable(t.kind) {
        find_in_buckets(t.uuid, t.buckets, u)
    } else {
        None
    }
}

pub open spec fn find_in_buckets(parent: ModelUuid, bs: Seq<Seq<ElementTree>>, u: ModelUuid) -> Option<(ElementTree, ModelUuid)>
    decreases bs,
{
    if bs.len() == 0 {
        None
    } else {
        match find_in_buckets(parent, bs.drop_last(), u) {
            Some(r) => Some(r),
            None => find_in(parent, bs.last(), u),
        }
    }
}

/// The position of the first child with uuid `u` in `s`.
pub open spec fn first_index(s: Seq<ElementTree>, u: ModelUuid) -> Option<int>
    decreases s.len(),
{
    if s.len() == 0 {
        None
    } else {
        match first_index(s.drop_last(), u) {
            Some(i) => Some(i),
            None => if s.last().uuid == u {
                Some(s.len() - 1)
            } else {
                None
            },
        }
    }
}

/// The bucket and position of the first child with uuid `u`, bucket by bucket.
pub open spec fn first_position(bs: Seq<Seq<ElementTree>>, u: ModelUuid) -> Option<(int, int)>
    decreases bs.len(),
{
    if bs.len() == 0 {
        None
    } else {
        match first_position(bs.drop_last(), u) {
            Some(p) => Some(p),
            None => match first_index(bs.last(), u) {
                Some(i) => Some((bs.len() - 1, i)),
                None => None,
            },
        }
    }
}

/// The position of the child `u` of `t` as the element reports it: only the
/// searchable kinds report positions.
pub open spec fn element_position(t: ElementTree, u: ModelUuid) -> Option<(int, int)> {
    if is_searchable(t.kind) {
        first_position(t.buckets, u)
    } else {
        None
    }
}

pub proof fn lemma_find_in_step(parent: ModelUuid, es: Seq<ElementTree>, i: int, u: ModelUuid)
    requires
        0 <= i < es.len(),
    ensures
        find_in(parent, es.take(i + 1), u) == (match find_in(parent, es.take(i), u) {
            Some(r) => Some(r),
            None => if es[i].uuid == u {
                Some((es[i], parent))
            } else {
                find_below(es[i], u)
            },
        }),
{
    assert(es.take(i + 1).drop_last() =~= es.take(i));
}

pub proof fn lemma_first_index_step(s: Seq<ElementTree>, i: int, u: ModelUuid)
    requires
        0 <= i < s.len(),
    ensures
        first_index(s.take(i + 1), u) == (match first_index(s.take(i), u) {
            Some(j) => Some(j),
            None => if s[i].uuid == u {
                Some(i)
            } else {
                None
            },
        }),
{
    assert(s.take(i + 1).drop_last() =~= s.take(i));
}

pub proof fn lemma_first_index_found(s: Seq<ElementTree>, u: ModelUuid)
    ensures
        match first_index(s, u) {
            Some(i) => 0 <= i < s.len() && s[i].uuid == u && forall|j: int| 0 <= j < i ==> s[j].uuid != u,
            None => forall|j: int| 0 <= j < s.len() ==> s[j].uuid != u,
        },
    decreases s.len(),
{
    if s.len() > 0 {
        lemma_first_index_found(s.drop_last(), u);
        assert(forall|j: int| 0 <= j < s.len() - 1 ==> s.drop_last()[j] == s[j]);
    }
}

/// Lookup in a container with one bucket.
pub proof fn lemma_find_one_bucket(t: ElementTree, u: ModelUuid)
    requires
        t.buckets.len() == 1,
        is_searchable(t.kind),
    ensures
        find_below(t, u) == find_in(t.uuid, t.buckets[0], u),
        element_position(t, u) == (match first_index(t.buckets[0], u) {
            Some(i) => Some((0int, i)),
            None => None,
        }),
{
    assert(t.buckets.drop_last().len() == 0);
    assert(find_in_buckets(t.uuid, t.buckets.drop_last(), u) == None::<(ElementTree, ModelUuid)>);
    assert(first_position(t.buckets.drop_last(), u) == None::<(int, int)>);
}

/// Lookup in a container whose bucket 0 is empty and which has two more
/// buckets.
pub proof fn lemma_find_three_buckets(t: ElementTree, u: ModelUuid)
    requires
        t.buckets.len() == 3,
        t.buckets[0].len() == 0,
        is_searchable(t.kind),
    ensures
        find_below(t, u) == (match find_in(t.uuid, t.buckets[1], u) {
            Some(r) => Some(r),
            None => find_in(t.uuid, t.buckets[2], u),
        }),
        element_position(t, u) == (match first_index(t.buckets[1], u) {
            Some(i) => Some((1int, i)),
            None => match first_index(t.buckets[2], u) {
                Some(i) => Some((2int, i)),
                None => None,
            },
        }),
{
    let bs = t.buckets;
    let b2 = bs.drop_last();
    let b1 = b2.drop_last();
    assert(b1.drop_last().len() == 0);
    assert(find_in_buckets(t.uuid, b1.drop_last(), u) == None::<(ElementTree, ModelUuid)>);
    assert(b1.last().len() == 0);
    assert(find_in(t.uuid, b1.last(), u) == None::<(ElementTree, ModelUuid)>);
    assert(find_in_buckets(t.uuid, b1, u) == None::<(ElementTree, ModelUuid)>);
    assert(first_position(b1.drop_last(), u) == None::<(int, int)>);
    assert(first_index(b1.last(), u) == None::<int>);
    assert(first_position(b1, u) == None::<(int, int)>);
    assert(b2.last() == bs[1]);
    assert(first_position(b2, u) == (match first_index(bs[1], u) {
        Some(i) => Some((1int, i)),
        None => None::<(int, int)>,
    }));
}

/// The children searched below a two-bucket container: none, since such
/// containers are not searchable.
pub proof fn lemma_position_two_buckets(t: ElementTree, u: ModelUuid)
    requires
        t.buckets.len() == 2,
        t.buckets[0].len() == 0,
    ensures
        first_position(t.buckets, u) == (match first_index(t.buckets[1], u) {
            Some(i) => Some((1int, i)),
            None => None,
        }),
{
    let bs = t.buckets;
    let b1 = bs.drop_last();
    assert(first_position(b1.drop_last(), u) == None::<(int, int)>);
    assert(first_index(b1.last(), u) == None::<int>);
    assert(first_position(b1, u) == None::<(int, int)>);
}

} // verus!

verus! {

pub proof fn lemma_find_in_prefix(parent: ModelUuid, es: Seq<ElementTree>, k: int, u: ModelUuid)
    requires
        0 <= k <= es.len(),
        find_in(parent, es.take(k), u) is Some,
    ensures
        find_in(parent, es, u) == find_in(parent, es.take(k), u),
    decreases es.len(),
{
    if k == es.len() {
        assert(es.take(k) =~= es);
    } else {
        assert(es.drop_last().take(k) =~= es.take(k));
        lemma_find_in_prefix(parent, es.drop_last(), k, u);
    }
}

pub proof fn lemma_first_index_prefix(s: Seq<ElementTree>, k: int, u: ModelUuid)
    requires
        0 <= k <= s.len(),
        first_index(s.take(k), u) is Some,
    ensures
        first_index(s, u) == first_index(s.take(k), u),
    decreases s.len(),
{
    if k == s.len() {
        assert(s.take(k) =~= s);
    } else {
        assert(s.drop_last().take(k) =~= s.take(k));
        lemma_first_index_prefix(s.drop_last(), k, u);
    }
}

} // verus!
