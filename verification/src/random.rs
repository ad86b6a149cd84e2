//! The one source of chance: where the particles start.

use vstd::prelude::*;
use rand::Rng;

verus! {

/// Draws an integer from the thread's random number generator.
///
/// This is `rand::Rng::gen_range` on `rand::thread_rng()` with the half-open
/// range `low..high`. The contract is taken on trust from that crate: the
/// value lies in the range, and an empty range, on which the call panics, is
/// ruled out by the precondition. Which value comes back is left open, and
/// two draws may differ. The generator itself panics where the operating
/// system cannot seed it.
#[verifier::external_body]
pub(crate) fn random_in(low: i64, high: i64) -> (r: i64)
    requires
        low < high,
    ensures
        low <= r < high,
{
    rand::thread_rng().gen_range(low..high)
}

} // verus!
