use vstd::prelude::*;

use crate::diagram_edit::{boundary_check_ends, climb, climb_ends};
use crate::find_spec::{find_below, find_in, find_in_buckets, is_searchable};
use crate::ids::ModelUuid;
use crate::model::{DiagramTree, ElementKind, ElementTree};
use crate::restore_spec::{
    buckets_distinct, buckets_have_id, diagram_distinct, diagram_root, distinct, has_id, lemma_buckets_distinct,
    lemma_buckets_have_id, seq_distinct, seq_has_id,
};

verus! {

/// A node a lookup can reach, with the uuid of its parent and its depth.
pub type Reached = (ElementTree, ModelUuid, nat);

/// The nodes a lookup among the forest `es` (children of `parent`, at depth
/// `k`) can reach, in the order it tries them.
pub open spec fn reach(parent: ModelUuid, es: Seq<ElementTree>, k: nat) -> Seq<Reached>
    decreases es,
{
    if es.len() == 0 {
        Seq::empty()
    } else {
        reach(parent, es.drop_last(), k) + seq![(es.last(), parent, k)] + reach_below(es.last(), k + 1)
    }
}

/// The nodes a lookup below `t` can reach; its children are at depth `k`.
pub open spec fn reach_below(t: ElementTree, k: nat) -> Seq<Reached>
    decreases t,
{
    if is_searchable(t.kind) {
        reach_buckets(t.uuid, t.buckets, k)
    } else {
        Seq::empty()
    }
}

pub open spec fn reach_buckets(parent: ModelUuid, bs: Seq<Seq<ElementTree>>, k: nat) -> Seq<Reached>
    decreases bs,
{
    if bs.len() == 0 {
        Seq::empty()
    } else {
        reach_buckets(parent, bs.drop_last(), k) + reach(parent, bs.last(), k)
    }
}

/// The first reached node with uuid `x`.
pub open spec fn first_hit(s: Seq<Reached>, x: ModelUuid) -> Option<Reached>
    decreases s.len(),
{
    if s.len() == 0 {
        None
    } else {
        match first_hit(s.drop_last(), x) {
            Some(r) => Some(r),
            None => if s.last().0.uuid == x {
                Some(s.last())
            } else {
                None
            },
        }
    }
}

pub open spec fn strip(o: Option<Reached>) -> Option<(ElementTree, ModelUuid)> {
    match o {
        Some(r) => Some((r.0, r.1)),
        None => None,
    }
}

/// No two reached nodes share a uuid.
pub open spec fn unique_reached(s: Seq<Reached>) -> bool {
    forall|i: int, j: int| #![trigger s[i], s[j]] 0 <= i < s.len() && 0 <= j < s.len() && s[i].0.uuid == s[j].0.uuid ==> i == j
}

/// The reached node `i` lies at depth `k` or below; at depth `k` its parent
/// is `parent`, and deeper its parent is reached one level up.
pub open spec fn chained_at(s: Seq<Reached>, parent: ModelUuid, k: nat, i: int) -> bool {
    &&& s[i].2 >= k
    &&& s[i].2 == k ==> s[i].1 == parent
    &&& s[i].2 > k ==> exists|j: int|
        #![trigger s[j]]
        0 <= j < s.len() && s[j].0.uuid == s[i].1 && s[j].2 + 1 == s[i].2
}

/// Every reached node is chained to its parent.
pub open spec fn chained(s: Seq<Reached>, parent: ModelUuid, k: nat) -> bool {
    forall|i: int| 0 <= i < s.len() ==> #[trigger] chained_at(s, parent, k, i)
}

// ---------------------------------------------------------------------------
// The first hit
// ---------------------------------------------------------------------------

proof fn lemma_first_hit_concat(a: Seq<Reached>, b: Seq<Reached>, x: ModelUuid)
    ensures
        first_hit(a + b, x) == (match first_hit(a, x) {
            Some(r) => Some(r),
            None => first_hit(b, x),
        }),
    decreases b.len(),
{
    if b.len() == 0 {
        assert(a + b =~= a);
    } else {
        assert((a + b).drop_last() =~= a + b.drop_last());
        assert((a + b).last() == b.last());
        lemma_first_hit_concat(a, b.drop_last(), x);
    }
}

proof fn lemma_first_hit_some(s: Seq<Reached>, x: ModelUuid)
    requires
        first_hit(s, x) is Some,
    ensures
        exists|j: int| 0 <= j < s.len() && s[j] == first_hit(s, x).unwrap() && #[trigger] s[j].0.uuid == x,
    decreases s.len(),
{
    if first_hit(s.drop_last(), x) is Some {
        lemma_first_hit_some(s.drop_last(), x);
        let j = choose|j: int|
            0 <= j < s.drop_last().len() && s.drop_last()[j] == first_hit(s.drop_last(), x).unwrap()
                && #[trigger] s.drop_last()[j].0.uuid == x;
        assert(s[j] == s.drop_last()[j]);
    } else {
        assert(s[s.len() - 1] == s.last());
    }
}

proof fn lemma_first_hit_unique(s: Seq<Reached>, i: int)
    requires
        unique_reached(s),
        0 <= i < s.len(),
    ensures
        first_hit(s, s[i].0.uuid) == Some(s[i]),
    decreases s.len(),
{
    let x = s[i].0.uuid;
    let d = s.drop_last();
    assert(forall|j: int| 0 <= j < d.len() ==> d[j] == s[j]);
    if i == s.len() - 1 {
        if first_hit(d, x) is Some {
            lemma_first_hit_some(d, x);
            let j = choose|j: int| 0 <= j < d.len() && d[j] == first_hit(d, x).unwrap() && #[trigger] d[j].0.uuid == x;
            assert(s[j].0.uuid == s[i].0.uuid);
        }
    } else {
        assert(unique_reached(d)) by {
            assert forall|a: int, b: int| 0 <= a < d.len() && 0 <= b < d.len() && d[a].0.uuid == d[b].0.uuid implies a
                == b by {
                assert(s[a].0.uuid == s[b].0.uuid);
            }
        }
        assert(d[i] == s[i]);
        lemma_first_hit_unique(d, i);
    }
}

// ---------------------------------------------------------------------------
// A lookup is the first hit among the reached nodes
// ---------------------------------------------------------------------------

pub proof fn lemma_find_reach(parent: ModelUuid, es: Seq<ElementTree>, k: nat, x: ModelUuid)
    ensures
        find_in(parent, es, x) == strip(first_hit(reach(parent, es, k), x)),
    decreases es,
{
    if es.len() > 0 {
        let dl = es.drop_last();
        let c = es.last();
        lemma_find_reach(parent, dl, k, x);
        lemma_find_reach_below(c, k + 1, x);
        let a = reach(parent, dl, k);
        let m = seq![(c, parent, k)];
        let b = reach_below(c, k + 1);
        assert(reach(parent, es, k) == a + m + b);
        lemma_first_hit_concat(a + m, b, x);
        lemma_first_hit_concat(a, m, x);
        assert(m.drop_last().len() == 0);
        assert(first_hit(m.drop_last(), x) is None);
    }
}

pub proof fn lemma_find_reach_below(t: ElementTree, k: nat, x: ModelUuid)
    ensures
        find_below(t, x) == strip(first_hit(reach_below(t, k), x)),
    decreases t,
{
    if is_searchable(t.kind) {
        lemma_find_reach_buckets(t.uuid, t.buckets, k, x);
    }
}

pub proof fn lemma_find_reach_buckets(parent: ModelUuid, bs: Seq<Seq<ElementTree>>, k: nat, x: ModelUuid)
    ensures
        find_in_buckets(parent, bs, x) == strip(first_hit(reach_buckets(parent, bs, k), x)),
    decreases bs,
{
    if bs.len() > 0 {
        lemma_find_reach_buckets(parent, bs.drop_last(), k, x);
        lemma_find_reach(parent, bs.last(), k, x);
        lemma_first_hit_concat(reach_buckets(parent, bs.drop_last(), k), reach(parent, bs.last(), k), x);
    }
}


// ---------------------------------------------------------------------------
// The parent of a reached node is reached one level up
// ---------------------------------------------------------------------------

proof fn lemma_chained_concat(a: Seq<Reached>, b: Seq<Reached>, p: ModelUuid, k: nat)
    requires
        chained(a, p, k),
        chained(b, p, k),
    ensures
        chained(a + b, p, k),
{
    let ab = a + b;
    assert forall|i: int| 0 <= i < ab.len() implies #[trigger] chained_at(ab, p, k, i) by {
        if i < a.len() {
            assert(chained_at(a, p, k, i));
            assert(ab[i] == a[i]);
            if a[i].2 > k {
                let j = choose|j: int| #![trigger a[j]] 0 <= j < a.len() && a[j].0.uuid == a[i].1 && a[j].2 + 1 == a[i].2;
                assert(ab[j] == a[j]);
            }
        } else {
            let i2 = i - a.len();
            assert(chained_at(b, p, k, i2));
            assert(ab[i] == b[i2]);
            if b[i2].2 > k {
                let j = choose|j: int| #![trigger b[j]] 0 <= j < b.len() && b[j].0.uuid == b[i2].1 && b[j].2 + 1 == b[i2].2;
                assert(ab[j + a.len()] == b[j]);
            }
        }
    }
}

proof fn lemma_chained_below(a: Seq<Reached>, b: Seq<Reached>, p: ModelUuid, k: nat, c: ModelUuid, idx: int)
    requires
        chained(a, p, k),
        chained(b, c, k + 1),
        0 <= idx < a.len(),
        a[idx].0.uuid == c,
        a[idx].2 == k,
    ensures
        chained(a + b, p, k),
{
    let ab = a + b;
    assert forall|i: int| 0 <= i < ab.len() implies #[trigger] chained_at(ab, p, k, i) by {
        if i < a.len() {
            assert(chained_at(a, p, k, i));
            assert(ab[i] == a[i]);
            if a[i].2 > k {
                let j = choose|j: int| #![trigger a[j]] 0 <= j < a.len() && a[j].0.uuid == a[i].1 && a[j].2 + 1 == a[i].2;
                assert(ab[j] == a[j]);
            }
        } else {
            let i2 = i - a.len();
            assert(chained_at(b, c, k + 1, i2));
            assert(ab[i] == b[i2]);
            if b[i2].2 == k + 1 {
                assert(ab[idx] == a[idx]);
            } else {
                let j = choose|j: int| #![trigger b[j]] 0 <= j < b.len() && b[j].0.uuid == b[i2].1 && b[j].2 + 1 == b[i2].2;
                assert(ab[j + a.len()] == b[j]);
            }
        }
    }
}

proof fn lemma_reach_chained(parent: ModelUuid, es: Seq<ElementTree>, k: nat)
    ensures
        chained(reach(parent, es, k), parent, k),
    decreases es,
{
    if es.len() > 0 {
        let dl = es.drop_last();
        let c = es.last();
        let a = reach(parent, dl, k);
        let m = seq![(c, parent, k)];
        let b = reach_below(c, k + 1);
        lemma_reach_chained(parent, dl, k);
        assert(chained(m, parent, k)) by {
            assert(chained_at(m, parent, k, 0));
        }
        lemma_chained_concat(a, m, parent, k);
        lemma_reach_below_chained(c, k + 1);
        let am = a + m;
        assert(am[a.len() as int] == (c, parent, k));
        lemma_chained_below(am, b, parent, k, c.uuid, a.len() as int);
        assert(reach(parent, es, k) == am + b);
    }
}

proof fn lemma_reach_below_chained(t: ElementTree, k: nat)
    ensures
        chained(reach_below(t, k), t.uuid, k),
    decreases t,
{
    if is_searchable(t.kind) {
        lemma_reach_buckets_chained(t.uuid, t.buckets, k);
    }
}

proof fn lemma_reach_buckets_chained(p: ModelUuid, bs: Seq<Seq<ElementTree>>, k: nat)
    ensures
        chained(reach_buckets(p, bs, k), p, k),
    decreases bs,
{
    if bs.len() > 0 {
        lemma_reach_buckets_chained(p, bs.drop_last(), k);
        lemma_reach_chained(p, bs.last(), k);
        lemma_chained_concat(reach_buckets(p, bs.drop_last(), k), reach(p, bs.last(), k), p, k);
    }
}

// ---------------------------------------------------------------------------
// Reached nodes are nodes, and no two of them share a uuid
// ---------------------------------------------------------------------------

proof fn lemma_reach_ids(parent: ModelUuid, es: Seq<ElementTree>, k: nat)
    ensures
        forall|i: int| 0 <= i < reach(parent, es, k).len() ==> seq_has_id(es, (#[trigger] reach(parent, es, k)[i]).0.uuid),
    decreases es,
{
    if es.len() > 0 {
        let dl = es.drop_last();
        let c = es.last();
        let a = reach(parent, dl, k);
        let m = seq![(c, parent, k)];
        let b = reach_below(c, k + 1);
        let s = reach(parent, es, k);
        assert(s == a + m + b);
        lemma_reach_ids(parent, dl, k);
        lemma_reach_below_ids(c, k + 1);
        assert forall|i: int| 0 <= i < s.len() implies seq_has_id(es, (#[trigger] s[i]).0.uuid) by {
            let x = s[i].0.uuid;
            assert(seq_has_id(es, x) == (seq_has_id(dl, x) || has_id(c, x)));
            if i < a.len() {
                assert(s[i] == a[i]);
                assert(seq_has_id(dl, x));
            } else if i == a.len() {
                assert((a + m)[i] == m[0]);
                assert(s[i] == (c, parent, k));
                assert(has_id(c, x));
            } else {
                let i2 = i - a.len() - 1;
                assert(s[i] == b[i2]);
                assert(buckets_have_id(c.buckets, b[i2].0.uuid));
                assert(has_id(c, x));
            }
        }
    }
}

proof fn lemma_reach_below_ids(t: ElementTree, k: nat)
    ensures
        forall|i: int|
            0 <= i < reach_below(t, k).len() ==> buckets_have_id(t.buckets, (#[trigger] reach_below(t, k)[i]).0.uuid),
    decreases t,
{
    if is_searchable(t.kind) {
        lemma_reach_buckets_ids(t.uuid, t.buckets, k);
    }
}

proof fn lemma_reach_buckets_ids(p: ModelUuid, bs: Seq<Seq<ElementTree>>, k: nat)
    ensures
        forall|i: int|
            0 <= i < reach_buckets(p, bs, k).len() ==> buckets_have_id(bs, (#[trigger] reach_buckets(p, bs, k)[i]).0.uuid),
    decreases bs,
{
    if bs.len() > 0 {
        let a = reach_buckets(p, bs.drop_last(), k);
        let b = reach(p, bs.last(), k);
        let s = reach_buckets(p, bs, k);
        assert(s == a + b);
        lemma_reach_buckets_ids(p, bs.drop_last(), k);
        lemma_reach_ids(p, bs.last(), k);
        assert forall|i: int| 0 <= i < s.len() implies buckets_have_id(bs, (#[trigger] s[i]).0.uuid) by {
            if i < a.len() {
                assert(s[i] == a[i]);
            } else {
                assert(s[i] == b[i - a.len()]);
            }
        }
    }
}

proof fn lemma_unique_concat(a: Seq<Reached>, b: Seq<Reached>)
    requires
        unique_reached(a),
        unique_reached(b),
        forall|i: int, j: int| #![trigger a[i], b[j]] 0 <= i < a.len() && 0 <= j < b.len() ==> a[i].0.uuid != b[j].0.uuid,
    ensures
        unique_reached(a + b),
{
    let ab = a + b;
    assert forall|i: int, j: int| 0 <= i < ab.len() && 0 <= j < ab.len() && ab[i].0.uuid == ab[j].0.uuid implies i
        == j by {
        if i < a.len() && j < a.len() {
            assert(ab[i] == a[i] && ab[j] == a[j]);
        } else if i >= a.len() && j >= a.len() {
            assert(ab[i] == b[i - a.len()] && ab[j] == b[j - a.len()]);
        } else if i < a.len() {
            assert(ab[i] == a[i] && ab[j] == b[j - a.len()]);
        } else {
            assert(ab[j] == a[j] && ab[i] == b[i - a.len()]);
        }
    }
}

proof fn lemma_reach_unique(parent: ModelUuid, es: Seq<ElementTree>, k: nat)
    requires
        seq_distinct(es),
    ensures
        unique_reached(reach(parent, es, k)),
    decreases es,
{
    if es.len() > 0 {
        let dl = es.drop_last();
        let c = es.last();
        let a = reach(parent, dl, k);
        let m = seq![(c, parent, k)];
        let b = reach_below(c, k + 1);
        lemma_reach_unique(parent, dl, k);
        lemma_reach_below_unique(c, k + 1);
        lemma_reach_ids(parent, dl, k);
        lemma_reach_below_ids(c, k + 1);
        assert(has_id(c, c.uuid));
        assert forall|i: int, j: int| #![trigger a[i], m[j]] 0 <= i < a.len() && 0 <= j < m.len() implies a[i].0.uuid
            != m[j].0.uuid by {
            assert(seq_has_id(dl, a[i].0.uuid));
        }
        lemma_unique_concat(a, m);
        let am = a + m;
        assert forall|i: int, j: int| #![trigger am[i], b[j]] 0 <= i < am.len() && 0 <= j < b.len() implies am[i].0.uuid
            != b[j].0.uuid by {
            let x = b[j].0.uuid;
            assert(buckets_have_id(c.buckets, x));
            assert(has_id(c, x));
            if am[i].0.uuid == x {
                if i < a.len() {
                    assert(am[i] == a[i]);
                    assert(seq_has_id(dl, x));
                    assert(!(seq_has_id(es.drop_last(), x) && has_id(es.last(), x)));
                } else {
                    assert(am[i] == (c, parent, k));
                    assert(distinct(c));
                    assert(!buckets_have_id(c.buckets, c.uuid));
                }
            }
        }
        lemma_unique_concat(am, b);
        assert(reach(parent, es, k) == am + b);
    }
}

proof fn lemma_reach_below_unique(t: ElementTree, k: nat)
    requires
        distinct(t),
    ensures
        unique_reached(reach_below(t, k)),
    decreases t,
{
    if is_searchable(t.kind) {
        lemma_reach_buckets_unique(t.uuid, t.buckets, k);
    }
}

proof fn lemma_reach_buckets_unique(p: ModelUuid, bs: Seq<Seq<ElementTree>>, k: nat)
    requires
        buckets_distinct(bs),
    ensures
        unique_reached(reach_buckets(p, bs, k)),
    decreases bs,
{
    if bs.len() > 0 {
        let a = reach_buckets(p, bs.drop_last(), k);
        let b = reach(p, bs.last(), k);
        lemma_reach_buckets_unique(p, bs.drop_last(), k);
        lemma_reach_unique(p, bs.last(), k);
        lemma_reach_buckets_ids(p, bs.drop_last(), k);
        lemma_reach_ids(p, bs.last(), k);
        assert forall|i: int, j: int| #![trigger a[i], b[j]] 0 <= i < a.len() && 0 <= j < b.len() implies a[i].0.uuid
            != b[j].0.uuid by {
            assert(buckets_have_id(bs.drop_last(), a[i].0.uuid));
            assert(seq_has_id(bs.last(), b[j].0.uuid));
        }
        lemma_unique_concat(a, b);
    }
}


// ---------------------------------------------------------------------------
// Climbing towards a state machine comes to an end
// ---------------------------------------------------------------------------

/// From a reached node at depth `k`, the climb ends within `k + 2` steps.
proof fn lemma_climb_from(d: DiagramTree, i: int)
    requires
        unique_reached(reach(d.uuid, d.elements, 0)),
        chained(reach(d.uuid, d.elements, 0), d.uuid, 0),
        forall|j: int|
            0 <= j < reach(d.uuid, d.elements, 0).len() ==> (#[trigger] reach(d.uuid, d.elements, 0)[j]).0.uuid
                != d.uuid,
        0 <= i < reach(d.uuid, d.elements, 0).len(),
    ensures
        climb(d, reach(d.uuid, d.elements, 0)[i].0.uuid, reach(d.uuid, d.elements, 0)[i].2 + 2) is Some,
    decreases reach(d.uuid, d.elements, 0)[i].2,
{
    let s = reach(d.uuid, d.elements, 0);
    let n = s[i].0;
    let p = s[i].1;
    let k = s[i].2;
    lemma_find_reach(d.uuid, d.elements, 0, n.uuid);
    lemma_first_hit_unique(s, i);
    assert(find_in(d.uuid, d.elements, n.uuid) == Some((n, p)));
    assert(chained_at(s, d.uuid, 0, i));
    if n.kind != ElementKind::StateMachine {
        if k == 0 {
            lemma_find_reach(d.uuid, d.elements, 0, d.uuid);
            if first_hit(s, d.uuid) is Some {
                lemma_first_hit_some(s, d.uuid);
                let j = choose|j: int| 0 <= j < s.len() && s[j] == first_hit(s, d.uuid).unwrap() && #[trigger] s[j].0.uuid == d.uuid;
                assert(s[j].0.uuid != d.uuid);
            }
            assert(find_in(d.uuid, d.elements, d.uuid) is None);
            assert(climb(d, p, 1) is Some);
        } else {
            let j = choose|j: int| #![trigger s[j]] 0 <= j < s.len() && s[j].0.uuid == p && s[j].2 + 1 == k;
            lemma_climb_from(d, j);
            assert(climb(d, p, k + 1) is Some);
        }
    }
}

/// In a diagram where no two nodes, the diagram included, share a uuid, the
/// climb from any uuid towards the nearest state machine comes to an end.
pub proof fn lemma_climb_ends(d: DiagramTree, x: ModelUuid)
    requires
        diagram_distinct(d),
    ensures
        climb_ends(d, x),
{
    let root = diagram_root(d);
    lemma_buckets_distinct(root.buckets);
    assert(root.buckets[0] == d.elements);
    assert(seq_distinct(d.elements));
    lemma_buckets_have_id(root.buckets, d.uuid);
    assert(!seq_has_id(d.elements, d.uuid));
    let s = reach(d.uuid, d.elements, 0);
    lemma_reach_unique(d.uuid, d.elements, 0);
    lemma_reach_chained(d.uuid, d.elements, 0);
    lemma_reach_ids(d.uuid, d.elements, 0);
    assert forall|j: int| 0 <= j < s.len() implies (#[trigger] s[j]).0.uuid != d.uuid by {
        assert(seq_has_id(d.elements, s[j].0.uuid));
    }
    lemma_find_reach(d.uuid, d.elements, 0, x);
    if first_hit(s, x) is Some {
        lemma_first_hit_some(s, x);
        let i = choose|i: int| 0 <= i < s.len() && s[i] == first_hit(s, x).unwrap() && #[trigger] s[i].0.uuid == x;
        lemma_climb_from(d, i);
        assert(climb(d, x, s[i].2 + 2) is Some);
    } else {
        assert(climb(d, x, 1) is Some);
    }
}

/// In a diagram where no two nodes, the diagram included, share a uuid, the
/// check that a transition stays within one state machine comes to an end,
/// so `insert_element_into` can be asked to insert any element.
pub proof fn lemma_boundary_check_ends(d: DiagramTree, c: ElementTree)
    requires
        diagram_distinct(d),
    ensures
        boundary_check_ends(d, c),
{
    let a = c.links[0].uuid;
    let b = c.links[1].uuid;
    if let Some((_, p)) = find_in(d.uuid, d.elements, a) {
        lemma_climb_ends(d, p);
    }
    if let Some((_, p)) = find_in(d.uuid, d.elements, b) {
        lemma_climb_ends(d, p);
    }
}

} // verus!
