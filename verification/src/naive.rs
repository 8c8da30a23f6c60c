//! The brute-force searcher: every window is compared with the needle.

use vstd::prelude::*;
use crate::window::{
    lemma_occurs_before_all, lemma_occurs_before_step, occurs, occurs_before, window_equals,
};

verus! {

/// Slides the window one byte at a time and compares each window with the
/// needle directly. It keeps no state between windows and serves as the
/// reference that the other searchers are read against.
pub fn naive_search(haystack: &[u8], needle: &[u8]) -> (found: bool)
    ensures
        found == occurs(haystack@, needle@),
{
    let len = needle.len();
    if len > haystack.len() {
        proof {
            lemma_occurs_before_all(haystack@, needle@, 0);
        }
        return false;
    }
    let last_start = haystack.len() - len;
    let mut start: usize = 0;
    while start < last_start
        invariant
            len == needle@.len(),
            last_start + len == haystack.len(),
            start <= last_start,
            !occurs_before(haystack@, needle@, start as int),
        decreases last_start - start,
    {
        if window_equals(haystack, start, needle) {
            return true;
        }
        proof {
            lemma_occurs_before_step(haystack@, needle@, start as int);
        }
        start += 1;
    }
    proof {
        lemma_occurs_before_step(haystack@, needle@, start as int);
        lemma_occurs_before_all(haystack@, needle@, start + 1);
    }
    window_equals(haystack, last_start, needle)
}

} // verus!
