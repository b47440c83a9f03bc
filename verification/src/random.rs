use vstd::prelude::*;

use rand::Rng;

verus! {

/// Calls `rand::rng().random_range(low..=high)`: rand documents that the value lies in
/// the range (and panics on an empty one, which `requires` excludes). Which value comes
/// is left open. `rand::rng` panics when the system's generator cannot seed it, which no
/// argument decides.
#[verifier::external_body]
pub(crate) fn random_u64_inclusive(low: u64, high: u64) -> (v: u64)
    requires
        low <= high,
    ensures
        low <= v <= high,
{
    rand::rng().random_range(low..=high)
}

/// Calls `rand::rng().random_range(low..high)`: rand documents that the value lies in
/// the half-open range (and panics on an empty one, which `requires` excludes). Which
/// value comes is left open. `rand::rng` panics when the system's generator cannot seed
/// it, which no argument decides.
#[verifier::external_body]
pub(crate) fn random_i32_below(low: i32, high: i32) -> (v: i32)
    requires
        low < high,
    ensures
        low <= v < high,
{
    rand::rng().random_range(low..high)
}

} // verus!
