//! Random draws used by the dungeon generator and the confused AI.
//! Each draw goes through one trusted wrapper; everything built on top of a
//! draw (weighted choice, room acceptance, movement) is verified for every
//! value the wrapper may return.

use vstd::prelude::*;
use rand::Rng;

verus! {

/// Relies on rand::Rng::gen_range over a half-open range: returns a
/// uniformly sampled value in `[lo, hi)`; panics only on an empty range,
/// which the precondition rules out.
#[verifier::external_body]
pub(crate) fn rand_range_i32(lo: i32, hi: i32) -> (r: i32)
    requires
        lo < hi,
    ensures
        lo <= r < hi,
{
    rand::thread_rng().gen_range(lo..hi)
}

/// Relies on rand::Rng::gen_range over a half-open range: returns a
/// uniformly sampled value in `[lo, hi)`; panics only on an empty range,
/// which the precondition rules out.
#[verifier::external_body]
pub(crate) fn rand_range_u32(lo: u32, hi: u32) -> (r: u32)
    requires
        lo < hi,
    ensures
        lo <= r < hi,
{
    rand::thread_rng().gen_range(lo..hi)
}

/// Relies on rand::random::<bool>: a coin flip. Nothing can be promised
/// of the outcome.
#[verifier::external_body]
pub(crate) fn rand_bool() -> bool {
    rand::random()
}

} // verus!
