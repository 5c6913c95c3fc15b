//! The pseudo-random source: a Mersenne Twister of an outside crate,
//! consumed as an opaque stream of uniform 32-bit words.  Nothing is
//! assumed of the values drawn; every caller states what holds of each
//! possible outcome.
use vstd::prelude::*;

verus! {

/// Relies on prng_mt's `MT19937` type: the generator state, opaque to the
/// verified code, which only carries it between draws.
#[verifier::external_type_specification]
#[verifier::external_body]
pub struct ExMt19937(prng_mt::mt19937::MT19937);

/// Relies on `prng_mt::mt19937::MT19937::new`: seeds a fresh generator
/// state from a 32-bit seed; it never panics.
pub assume_specification [ prng_mt::mt19937::MT19937::new ](seed: u32) -> (r:
    prng_mt::mt19937::MT19937)
;

/// Relies on `prng_mt::mt19937::MT19937::next`: advances the state and
/// returns the next 32-bit word of the stream; it never panics, and nothing
/// is assumed of the value returned.
pub assume_specification [ prng_mt::mt19937::MT19937::next ](g: &mut prng_mt::mt19937::MT19937) -> (
    r: u32)
;

} // verus!
