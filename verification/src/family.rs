//! The searchers as one closed family.
//!
//! Every member answers the same question through the same call, so a
//! caller can walk the family without naming its members. A member either
//! reports whether the needle occurs or rejects the needle; no two members
//! that both report can differ.

use vstd::prelude::*;
use crate::error::SearchError;
use crate::fingerprint::bit_shift_search;
use crate::naive::naive_search;
use crate::partition::{partitioned_sum_search, ParallelConfig};
use crate::sum::{
    sum_search, sum_search3, sum_search_bad, sum_verdict, MAX_NARROW_SUM_NEEDLE_LEN,
    MAX_SUM_NEEDLE_LEN,
};
use crate::window::{
    lemma_empty_needle_occurs, lemma_haystack_occurs_in_itself, lemma_longer_needle_never_occurs,
    occurs,
};
use crate::xor::xor_search;

verus! {

/// A member of the family of exact substring searchers.
#[derive(Clone, Copy, Debug, PartialEq, Eq, Structural)]
pub enum Searcher {
    /// Compares every window with the needle.
    Naive,
    /// Rolls a byte sum held in 64 bits.
    RollingSum,
    /// Rolls a byte sum, with the needle budgeted for 32 bits.
    NarrowRollingSum,
    /// Sums every window afresh.
    WindowSum,
    /// Rolls a bytewise xor.
    RollingXor,
    /// Rolls a parity fingerprint; falls back to the rolling sum for
    /// needles wider than the fingerprint.
    BitFingerprint,
    /// Searches overlapping slices with the rolling sum and combines the
    /// verdicts.
    Partitioned(ParallelConfig),
}

impl Searcher {
    /// What this searcher answers for a haystack and a needle.
    pub open spec fn verdict(self, haystack: Seq<u8>, needle: Seq<u8>) -> Result<
        bool,
        SearchError,
    > {
        match self {
            Searcher::Naive | Searcher::RollingXor => Ok(occurs(haystack, needle)),
            Searcher::NarrowRollingSum => sum_verdict(
                haystack,
                needle,
                MAX_NARROW_SUM_NEEDLE_LEN as int,
            ),
            Searcher::RollingSum
            | Searcher::WindowSum
            | Searcher::BitFingerprint
            | Searcher::Partitioned(_) => sum_verdict(haystack, needle, MAX_SUM_NEEDLE_LEN as int),
        }
    }

    /// Runs this searcher.
    pub fn search(&self, haystack: &[u8], needle: &[u8]) -> (result: Result<bool, SearchError>)
        ensures
            result == self.verdict(haystack@, needle@),
    {
        match self {
            Searcher::Naive => Ok(naive_search(haystack, needle)),
            Searcher::RollingSum => sum_search(haystack, needle),
            Searcher::NarrowRollingSum => sum_search_bad(haystack, needle),
            Searcher::WindowSum => sum_search3(haystack, needle),
            Searcher::RollingXor => Ok(xor_search(haystack, needle)),
            Searcher::BitFingerprint => bit_shift_search(haystack, needle),
            Searcher::Partitioned(config) => partitioned_sum_search(haystack, needle, *config),
        }
    }

    /// Every member of the family, the partitioned one with the given
    /// configuration. The naive searcher, which rejects nothing, comes
    /// first.
    pub fn family(config: ParallelConfig) -> (members: Vec<Searcher>)
        ensures
            members@ == seq![
                Searcher::Naive,
                Searcher::RollingSum,
                Searcher::BitFingerprint,
                Searcher::NarrowRollingSum,
                Searcher::RollingXor,
                Searcher::WindowSum,
                Searcher::Partitioned(config),
            ],
    {
        let mut members: Vec<Searcher> = Vec::new();
        members.push(Searcher::Naive);
        members.push(Searcher::RollingSum);
        members.push(Searcher::BitFingerprint);
        members.push(Searcher::NarrowRollingSum);
        members.push(Searcher::RollingXor);
        members.push(Searcher::WindowSum);
        members.push(Searcher::Partitioned(config));
        members
    }
}

/// A searcher that reports at all reports whether the needle occurs, so any
/// two searchers that both report give the same boolean.
pub proof fn lemma_searchers_agree(
    first: Searcher,
    second: Searcher,
    haystack: Seq<u8>,
    needle: Seq<u8>,
)
    ensures
        first.verdict(haystack, needle) matches Ok(found) ==> found == occurs(haystack, needle),
        first.verdict(haystack, needle) is Ok && second.verdict(haystack, needle) is Ok
            ==> first.verdict(haystack, needle) == second.verdict(haystack, needle),
{
}

/// Every searcher finds the empty needle in every haystack.
pub proof fn lemma_search_for_empty_needle(searcher: Searcher, haystack: Seq<u8>)
    ensures
        searcher.verdict(haystack, Seq::<u8>::empty()) == Ok::<bool, SearchError>(true),
{
    lemma_empty_needle_occurs(haystack, Seq::<u8>::empty());
}

/// Every searcher finds a haystack in itself.
pub proof fn lemma_search_for_haystack_itself(searcher: Searcher, haystack: Seq<u8>)
    ensures
        searcher.verdict(haystack, haystack) == Ok::<bool, SearchError>(true),
{
    lemma_haystack_occurs_in_itself(haystack);
}

/// No searcher finds a needle that is longer than the haystack.
pub proof fn lemma_search_for_longer_needle(
    searcher: Searcher,
    haystack: Seq<u8>,
    needle: Seq<u8>,
)
    requires
        needle.len() > haystack.len(),
    ensures
        searcher.verdict(haystack, needle) == Ok::<bool, SearchError>(false),
{
    lemma_longer_needle_never_occurs(haystack, needle);
}

} // verus!
