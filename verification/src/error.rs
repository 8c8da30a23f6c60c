//! The ways a search can end without an answer.

use vstd::prelude::*;

verus! {

/// Why a search reported no verdict.
#[derive(Clone, Copy, Debug, PartialEq, Eq, Structural)]
pub enum SearchError {
    /// The needle is too long for the accumulator that would hold its
    /// aggregate: summing it could overflow.
    InvalidNeedle,
    /// The needle is wider than the fingerprint, which holds one bit per
    /// needle byte.
    UnsupportedWidth,
    /// A worker of a partitioned search ended without a verdict.
    WorkerFault,
    /// Two searchers disagreed on the same input.
    InvariantViolation,
}

} // verus!
