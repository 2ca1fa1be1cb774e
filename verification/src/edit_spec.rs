use vstd::prelude::*;

use crate::model::{is_standalone_kind, ElementKind, ElementTree};

verus! {

/// The bucket of a container of kind `kind` that receives an element of kind
/// `ek` asked to go to bucket `bucket`, when the container accepts it.
pub open spec fn receiving_bucket(kind: ElementKind, bucket: int, ek: ElementKind) -> Option<int> {
    if kind == ElementKind::StateMachine || kind == ElementKind::CompositeStateRegion {
        if bucket == 0 && is_standalone_kind(ek) {
            Some(0)
        } else {
            None
        }
    } else if kind == ElementKind::CompositeState {
        if (bucket == 0 || bucket == 1) && ek == ElementKind::InternalTransition {
            Some(1)
        } else if (bucket == 0 || bucket == 2) && ek == ElementKind::CompositeStateRegion {
            Some(2)
        } else {
            None
        }
    } else if kind == ElementKind::SimpleState {
        if (bucket == 0 || bucket == 1) && ek == ElementKind::InternalTransition {
            Some(1)
        } else {
            None
        }
    } else {
        None
    }
}

/// `t` with `c` inserted at position `p` of bucket `b`.
pub open spec fn with_inserted(t: ElementTree, b: int, p: int, c: ElementTree) -> ElementTree {
    ElementTree { buckets: t.buckets.update(b, t.buckets[b].insert(p, c)), ..t }
}

/// `t` without the child at position `i` of bucket `b`.
pub open spec fn with_removed(t: ElementTree, b: int, i: int) -> ElementTree {
    ElementTree { buckets: t.buckets.update(b, t.buckets[b].remove(i)), ..t }
}

/// The position an insertion asked at `position` goes to in a bucket of
/// length `len`: the end when no position is given.
pub open spec fn insertion_point(position: Option<usize>, len: int) -> int {
    match position {
        Some(p) => p as int,
        None => len,
    }
}

} // verus!
