use vstd::prelude::*;
use rand::Rng;

verus! {

/// An integer drawn at random from `min..max` by the thread-local generator of
/// `rand` (`rand::rng().random_range(min..max)`). The contract states only that
/// the value lies in the range, which `rand`'s uniform integer sampling
/// guarantees; which value comes is chance. `rand` panics on an empty range,
/// so the range must not be empty.
#[verifier::external_body]
pub fn random_int_range(min: i64, max: i64) -> (value: i64)
    requires
        min < max,
    ensures
        min <= value < max,
{
    rand::rng().random_range(min..max)
}

} // verus!
