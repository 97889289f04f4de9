use crate::types::Index2;
use vstd::prelude::*;

verus! {

/// `val` limited to `[min, max]`: `min` unless `val` exceeds it, then `val`
/// if it is below `max`, else `max`. With `min > max` the result is `min`
/// for `val <= min` and `max` otherwise.
pub open spec fn clamp_value(val: int, min: int, max: int) -> int {
    if val > min {
        if val < max {
            val
        } else {
            max
        }
    } else {
        min
    }
}

/// `nalgebra::clamp` on `usize`. Trusted: the result is `min` when `val` is
/// not greater than `min`, else `val` when it is less than `max`, else
/// `max`; the function compares and returns one of its arguments, and does
/// not panic.
#[verifier::external_body]
fn clamp(val: usize, min: usize, max: usize) -> (r: usize)
    ensures
        r == clamp_value(val as int, min as int, max as int),
{
    nalgebra::clamp(val, min, max)
}

/// `index` with each component clamped between those of `min` and `max`.
pub open spec fn clamped_to_range(min: Index2, max: Index2, index: Index2) -> Index2 {
    Index2 {
        x: clamp_value(index.x as int, min.x as int, max.x as int) as usize,
        y: clamp_value(index.y as int, min.y as int, max.y as int) as usize,
    }
}

/// Clamps `index` component-wise into `[min, max]`.
pub fn clamp_to_range(min: Index2, max: Index2, index: Index2) -> (r: Index2)
    ensures
        r == clamped_to_range(min, max, index),
{
    Index2::new(clamp(index.x, min.x, max.x), clamp(index.y, min.y, max.y))
}

/// A clamped index lies in `[min, max]` whenever that box is not empty.
pub proof fn lemma_clamped_in_range(min: Index2, max: Index2, index: Index2)
    requires
        min.x <= max.x,
        min.y <= max.y,
    ensures
        min.x <= clamped_to_range(min, max, index).x <= max.x,
        min.y <= clamped_to_range(min, max, index).y <= max.y,
{
}

} // verus!
