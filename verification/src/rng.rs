//! The one leaf dependency of the game rules: a source of uniform random
//! numbers, used only to pick where new food appears.

use rand::RngExt;
use vstd::prelude::*;

verus! {

/// Relies on rand's `Rng::random_range`: a uniform draw from an inclusive
/// range of `usize`; it panics only when the range is empty, which the
/// precondition rules out. Nothing more than the bounds is promised, since
/// the result depends on the generator's state.
#[verifier::external_body]
pub(crate) fn random_between(lo: usize, hi: usize) -> (r: usize)
    requires
        lo <= hi,
    ensures
        lo <= r <= hi,
{
    rand::rng().random_range(lo..=hi)
}

} // verus!
