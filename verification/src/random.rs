use rand::Rng;
use vstd::prelude::*;

verus! {

/// Draws a number from `low..high` with the thread-local generator:
/// `rand::rng().random_range(low..high)`. rand's source (`UniformInt::
/// sample_single`) returns `low` plus an offset below `high - low`, so the
/// result lies in the range; which number comes out is left to chance and is
/// not stated. The call panics on an empty range, which `requires` leaves out.
#[verifier::external_body]
pub(crate) fn random_in_range(low: u64, high: u64) -> (r: u64)
    requires
        low < high,
    ensures
        low <= r < high,
{
    rand::rng().random_range(low..high)
}

} // verus!
