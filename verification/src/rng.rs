//! The one source of randomness: confetti spawning draws counts, offsets,
//! speeds and colors from the thread-local generator.

use vstd::prelude::*;

use rand::Rng;

verus! {

/// Relies on `rand::Rng::gen_range` on `rand::thread_rng()`: a sample from
/// a non-empty half-open integer range lies within that range.  Nothing
/// else is assumed of the sample.
#[verifier::external_body]
pub(crate) fn rand_range_i64(lo: i64, hi: i64) -> (r: i64)
    requires
        lo < hi,
    ensures
        lo <= r < hi,
{
    rand::thread_rng().gen_range(lo..hi)
}

} // verus!
