//! Clamping. The elementwise arithmetic layers outside the core implement
//! these interfaces for containers; the core supplies the scalar operation
//! and the interface they share.
use vstd::prelude::*;
use vstd::std_specs::cmp::PartialOrdIs;
use vstd::std_specs::cmp::PartialOrdSpec;

verus! {

/// Clamping a value into a closed range, producing a new value.
pub trait Clamp<R> {
    /// The kind of the clamped result.
    type Output;

    /// Returns this value clamped into `[min, max]`.
    fn clamp(self, min: R, max: R) -> Self::Output;
}

/// Clamping a value into a closed range in place.
pub trait ClampAssign<R> {
    /// Clamps this value into `[min, max]` in place.
    fn clamp_assign(&mut self, min: R, max: R);
}

/// Returns `min` when `x` compares below it, `max` when `x` compares above
/// it, and `x` itself otherwise.
pub fn clamp<T: PartialOrd + Copy>(x: T, min: T, max: T) -> (r: T)
    ensures
        <T as PartialOrdSpec>::obeys_partial_cmp_spec() ==> r == (if x.is_lt(&min) {
            min
        } else if x.is_gt(&max) {
            max
        } else {
            x
        }),
{
    if x < min {
        min
    } else if x > max {
        max
    } else {
        x
    }
}

} // verus!
