//! Random draws. Every verified caller is proved for any value the draw yields.
use rand::Rng;
use vstd::prelude::*;

verus! {

/// Relies on rand's `thread_rng().gen_range(lo..hi)`: a value in `lo..hi`.
/// `gen_range` panics on an empty range, which `requires` leaves out.
#[verifier::external_body]
pub(crate) fn roll(lo: i32, hi: i32) -> (r: i32)
    requires
        lo < hi,
    ensures
        lo <= r < hi,
{
    rand::thread_rng().gen_range(lo..hi)
}

} // verus!
