//! The draws that the library leaves to chance, made by the `rand` crate.

use vstd::prelude::*;
use rand::Rng;

verus! {

/// `rand::random`, for a `u32`: a number drawn by the thread's generator.
/// Nothing is claimed of the number.
#[verifier::external_body]
pub(crate) fn random_game_id() -> (id: u32) {
    rand::random()
}

/// `rand::random`, for a `bool`: a coin thrown by the thread's generator.
/// Nothing is claimed of the outcome.
#[verifier::external_body]
pub(crate) fn random_bool() -> (outcome: bool) {
    rand::random()
}

/// `Rng::gen_range` on the thread's generator, `rand::thread_rng()`, for the
/// range from 0 up to `len`, without `len`. The call fails on an empty range,
/// so `len` is not 0; the number drawn lies in the range.
#[verifier::external_body]
pub(crate) fn random_index(len: usize) -> (index: usize)
    requires
        len > 0,
    ensures
        index < len,
{
    rand::thread_rng().gen_range(0..len)
}

} // verus!
