//! The engine's only source of randomness: one fixed per-oscillator
//! detune value is drawn when a voice is built.

use vstd::prelude::*;

verus! {

/// Relies on rand::random: a uniformly drawn machine word. Nothing is
/// promised of the value; callers reduce it into the range they need.
#[verifier::external_body]
pub(crate) fn random_u64() -> u64 {
    rand::random::<u64>()
}

} // verus!
