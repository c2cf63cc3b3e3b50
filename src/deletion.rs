//! Deletion state: two borrowed boolean slices indexed by point offset.
use vstd::prelude::*;

verus! {

/// Dense offset of a point in the vector space.
pub type PointOffsetType = u32;

/// A point is live when neither its vector nor the point itself is marked
/// deleted.
pub open spec fn live(point_id: PointOffsetType, vec_deleted: Seq<bool>, point_deleted: Seq<bool>) -> bool {
    !vec_deleted[point_id as int] && !point_deleted[point_id as int]
}

/// Whether `point_id` is live under the two deletion slices, which both
/// cover it.
pub fn check_deleted_condition(
    point_id: PointOffsetType,
    vec_deleted: &[bool],
    point_deleted: &[bool],
) -> (r: bool)
    requires
        point_id < vec_deleted@.len(),
        point_id < point_deleted@.len(),
    ensures
        r == live(point_id, vec_deleted@, point_deleted@),
{
    let i = point_id as usize;
    !vec_deleted[i] && !point_deleted[i]
}

} // verus!
