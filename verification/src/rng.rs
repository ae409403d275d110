//! The one source of randomness the scattering model draws from.

use vstd::prelude::*;

verus! {

/// Relies on `rand::Rng::gen_range` on the thread-local generator of
/// `rand::thread_rng`: a uniform sample within the inclusive range, which
/// panics only on an empty range. Nothing more is assumed of the value.
#[verifier::external_body]
pub fn rand_fx(lo: i64, hi: i64) -> (r: i64)
    requires
        lo <= hi,
    ensures
        lo <= r <= hi,
{
    rand::Rng::gen_range(&mut rand::thread_rng(), lo..=hi)
}

} // verus!
