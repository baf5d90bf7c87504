use rand::Rng;
use vstd::prelude::*;

verus! {

/// The generator of each thread, seeded by the system.
#[verifier::external_type_specification]
#[verifier::external_body]
pub struct ExThreadRng(rand::rngs::ThreadRng);

/// Relies on rand::thread_rng: hands out the generator of the calling thread.
pub assume_specification[ rand::thread_rng ]() -> rand::rngs::ThreadRng;

/// Relies on rand's Rng::gen_range on `i64`: a value in the half-open range
/// [lo, hi), which panics unless `lo < hi`.
#[verifier::external_body]
pub(crate) fn draw_between(rng: &mut rand::rngs::ThreadRng, lo: i64, hi: i64) -> (r: i64)
    requires
        lo < hi,
    ensures
        lo <= r < hi,
{
    rng.gen_range(lo, hi)
}

} // verus!
