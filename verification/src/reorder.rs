use vstd::prelude::*;

use crate::containers::{first_index_regions, first_index_transitions};
use crate::find_spec::first_index;
use crate::ids::{BucketNoT, ModelUuid, PositionNoT};
use crate::model::{composite_tree, region_trees, ElementTree, UmlStateMachineCompositeState};

verus! {

/// `s` with its item at `i` taken out and put back at `p`.
pub open spec fn moved<A>(s: Seq<A>, i: int, p: int) -> Seq<A> {
    s.remove(i).insert(p, s[i])
}

/// The position in the regions of `t` of the region that a move of `u`
/// within bucket `within` picks up: the bucket of internal transitions is
/// searched for `u`, and the position found there is taken among the
/// regions.
pub open spec fn move_source(t: ElementTree, within: int, u: ModelUuid) -> Option<int> {
    if within == 1 {
        first_index(t.buckets[1], u)
    } else if within == 2 {
        first_index(t.buckets[2], u)
    } else {
        None
    }
}

/// The move can be carried out: the region picked up exists and the target
/// position lies within the remaining regions.
pub open spec fn move_fits(t: ElementTree, within: int, u: ModelUuid, target_pos: int) -> bool {
    move_source(t, within, u) matches Some(i) ==> i < t.buckets[2].len() && target_pos < t.buckets[2].len()
}

/// `t` after the move of `u` within bucket `within` to `target_pos`.
pub open spec fn moved_within(t: ElementTree, within: int, u: ModelUuid, target_pos: int) -> ElementTree {
    match move_source(t, within, u) {
        Some(i) => ElementTree { buckets: t.buckets.update(2, moved(t.buckets[2], i, target_pos)), ..t },
        None => t,
    }
}

impl UmlStateMachineCompositeState {
    /// Moves a region to `target_pos` among the regions. The region moved
    /// is the one at the position where `element` stands in bucket
    /// `within`: among the internal transitions for bucket 1, among the
    /// regions for bucket 2. Any other bucket, or an element not found,
    /// leaves the state as it is.
    pub fn move_element(&mut self, element: ModelUuid, within: BucketNoT, target_pos: PositionNoT)
        requires
            move_fits(composite_tree(*old(self)), within as int, element, target_pos as int),
        ensures
            composite_tree(*final(self)) == moved_within(composite_tree(*old(self)), within as int, element, target_pos as int),
    {
        let ghost t = composite_tree(*self);
        let found = if within == Self::INTERNAL_TRANSITIONS_BUCKET {
            first_index_transitions(&self.internal_transitions, element)
        } else if within == Self::REGIONS_BUCKET {
            first_index_regions(&self.regions, element)
        } else {
            None
        };
        match found {
            Some(idx) => {
                let e = self.regions.remove(idx);
                self.regions.insert(target_pos, e);
                proof {
                    assert(region_trees(self.regions@) =~= moved(t.buckets[2], idx as int, target_pos as int));
                    assert(move_source(t, within as int, element) == Some(idx as int));
                    assert(composite_tree(*self).buckets =~= t.buckets.update(2, moved(t.buckets[2], idx as int, target_pos as int)));
                    assert(composite_tree(*self) =~= moved_within(t, within as int, element, target_pos as int));
                }
            },
            None => {
                proof {
                    assert(composite_tree(*self) =~= t);
                }
            },
        }
    }
}

} // verus!
