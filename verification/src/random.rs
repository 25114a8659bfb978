//! The random source. Every draw of the library comes from one generator
//! that the caller owns and hands in, so that a run can share one generator
//! among all its passphrases and a test can seed its own.

use rand::Rng;
use vstd::prelude::*;

verus! {

/// `rand::rngs::StdRng`, the cryptographically secure generator of the
/// `rand` crate. Nothing is known of what it holds.
#[verifier::external_type_specification]
#[verifier::external_body]
pub struct ExStdRng(rand::rngs::StdRng);

/// A number below `bound`, drawn by `Rng::gen_range` of the `rand` crate on
/// the range `0..bound`. That function samples the range uniformly, by
/// rejection and without modulo bias; what is claimed here is only that the
/// number lies in the range, which holds of every draw. It panics on an
/// empty range, which `bound > 0` leaves out.
#[verifier::external_body]
pub(crate) fn draw_below(rng: &mut rand::rngs::StdRng, bound: usize) -> (drawn: usize)
    requires
        bound > 0,
    ensures
        drawn < bound,
{
    rng.gen_range(0..bound)
}

} // verus!
