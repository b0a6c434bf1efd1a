//! The one place the library touches a source of randomness.

use vstd::prelude::*;

verus! {

/// Relies on rand::random: one machine word drawn from the thread-local
/// generator.  Nothing is promised of the value; every caller is proved
/// correct for all outcomes.
#[verifier::external_body]
pub(crate) fn random_u64() -> u64 {
    rand::random::<u64>()
}

} // verus!
