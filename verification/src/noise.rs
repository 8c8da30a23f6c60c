//! Random material for the cross-validation suite.

use rand::Rng;
use vstd::prelude::*;

verus! {

/// Draws a number from `low..high`.
///
/// Calls `rand::Rng::gen_range` on `rand::thread_rng()` with the half-open
/// range `low..high`. The call panics on an empty range, which the
/// precondition rules out, and is documented to return a value in the
/// range. Which value comes back is left open.
#[verifier::external_body]
pub(crate) fn random_in_range(low: usize, high: usize) -> (drawn: usize)
    requires
        low < high,
    ensures
        low <= drawn < high,
{
    rand::thread_rng().gen_range(low..high)
}

/// Makes up a nanosecond count, written out as text.
///
/// Calls `fakeit::datetime::nanosecond`. Nothing is claimed of the text
/// that comes back.
#[verifier::external_body]
pub(crate) fn random_nanosecond() -> (text: String) {
    fakeit::datetime::nanosecond()
}

} // verus!
