//! The sliding-window model shared by all searchers.
//!
//! A window is a contiguous range of the haystack whose length is the
//! needle's. Windows are addressed by their start offset: the first window
//! starts at offset 0 and the last one at `|haystack| - |needle|`.

use vstd::prelude::*;

verus! {

/// The window of `len` items of `haystack` that starts at `start`.
pub open spec fn window<T>(haystack: Seq<T>, start: int, len: int) -> Seq<T> {
    haystack.subrange(start, start + len)
}

/// The number of windows of length `needle_len` in a haystack of length
/// `haystack_len`; zero when the needle is the longer one.
pub open spec fn window_count(haystack_len: int, needle_len: int) -> int {
    if needle_len <= haystack_len {
        haystack_len - needle_len + 1
    } else {
        0
    }
}

/// `needle` equals the window of `haystack` that starts at `start`.
pub open spec fn matches_at<T>(haystack: Seq<T>, needle: Seq<T>, start: int) -> bool {
    &&& 0 <= start
    &&& start + needle.len() <= haystack.len()
    &&& window(haystack, start, needle.len() as int) == needle
}

/// Some window that starts before `end` equals `needle`.
pub open spec fn occurs_before<T>(haystack: Seq<T>, needle: Seq<T>, end: int) -> bool {
    exists|start: int| start < end && #[trigger] matches_at(haystack, needle, start)
}

/// Some window of `haystack` equals `needle`: the meaning of a search.
pub open spec fn occurs<T>(haystack: Seq<T>, needle: Seq<T>) -> bool {
    exists|start: int| #[trigger] matches_at(haystack, needle, start)
}

/// A search is settled once every window start has been looked at.
pub proof fn lemma_occurs_before_all<T>(haystack: Seq<T>, needle: Seq<T>, end: int)
    requires
        end >= window_count(haystack.len() as int, needle.len() as int),
    ensures
        occurs_before(haystack, needle, end) == occurs(haystack, needle),
{
    if occurs(haystack, needle) {
        let start = choose|start: int| #[trigger] matches_at(haystack, needle, start);
        assert(start < end && matches_at(haystack, needle, start));
    }
}

/// Looking at one more window start either finds a match there or changes
/// nothing.
pub proof fn lemma_occurs_before_step<T>(haystack: Seq<T>, needle: Seq<T>, end: int)
    ensures
        occurs_before(haystack, needle, end + 1) == (occurs_before(haystack, needle, end)
            || matches_at(haystack, needle, end)),
{
    if occurs_before(haystack, needle, end + 1) {
        let start = choose|start: int|
            start < end + 1 && #[trigger] matches_at(haystack, needle, start);
        if start < end {
            assert(start < end && matches_at(haystack, needle, start));
        }
    }
    if occurs_before(haystack, needle, end) {
        let start = choose|start: int| start < end && #[trigger] matches_at(haystack, needle, start);
        assert(start < end + 1 && matches_at(haystack, needle, start));
    }
    if matches_at(haystack, needle, end) {
        assert(end < end + 1 && matches_at(haystack, needle, end));
    }
}

/// The empty needle occurs in every haystack.
pub proof fn lemma_empty_needle_occurs<T>(haystack: Seq<T>, needle: Seq<T>)
    requires
        needle.len() == 0,
    ensures
        occurs(haystack, needle),
{
    assert(window(haystack, 0, 0) =~= needle);
    assert(matches_at(haystack, needle, 0));
}

/// Every haystack occurs in itself.
pub proof fn lemma_haystack_occurs_in_itself<T>(haystack: Seq<T>)
    ensures
        occurs(haystack, haystack),
{
    assert(window(haystack, 0, haystack.len() as int) =~= haystack);
    assert(matches_at(haystack, haystack, 0));
}

/// A needle longer than the haystack occurs nowhere in it.
pub proof fn lemma_longer_needle_never_occurs<T>(haystack: Seq<T>, needle: Seq<T>)
    requires
        needle.len() > haystack.len(),
    ensures
        !occurs(haystack, needle),
{
}

/// A needle as long as the haystack occurs in it exactly if the two are
/// equal.
pub proof fn lemma_equal_length_occurs_iff_equal<T>(haystack: Seq<T>, needle: Seq<T>)
    requires
        needle.len() == haystack.len(),
    ensures
        occurs(haystack, needle) <==> haystack == needle,
{
    assert(window(haystack, 0, haystack.len() as int) =~= haystack);
    if haystack == needle {
        assert(matches_at(haystack, needle, 0));
    }
    if occurs(haystack, needle) {
        let start = choose|start: int| #[trigger] matches_at(haystack, needle, start);
        assert(start == 0);
    }
}

/// Compares the window of `haystack` at `start` with `needle`, byte by byte.
pub fn window_equals(haystack: &[u8], start: usize, needle: &[u8]) -> (equal: bool)
    requires
        start + needle@.len() <= haystack@.len(),
    ensures
        equal == matches_at(haystack@, needle@, start as int),
{
    let len = needle.len();
    let mut i: usize = 0;
    while i < len
        invariant
            len == needle@.len(),
            start + len <= haystack.len(),
            i <= len,
            forall|k: int| 0 <= k < i ==> haystack@[start + k] == needle@[k],
        decreases len - i,
    {
        if haystack[start + i] != needle[i] {
            proof {
                let w = window(haystack@, start as int, len as int);
                assert(w[i as int] == haystack@[start + i]);
            }
            return false;
        }
        i += 1;
    }
    proof {
        assert(window(haystack@, start as int, len as int) =~= needle@);
    }
    true
}

/// Settles the searches that need no scan: the empty needle occurs in
/// every haystack, and a needle at least as long as the haystack occurs only
/// if the two are equal. Returns `None` where a scan is needed.
pub fn settle_corner_case(haystack: &[u8], needle: &[u8]) -> (settled: Option<bool>)
    ensures
        settled is Some <==> needle@.len() == 0 || needle@.len() >= haystack@.len(),
        settled is Some ==> settled == Some(occurs(haystack@, needle@)),
        needle@.len() == 0 ==> settled == Some(true),
        needle@.len() > haystack@.len() ==> settled == Some(false),
        needle@.len() == haystack@.len() > 0 ==> settled == Some(haystack@ == needle@),
{
    if needle.len() == 0 {
        proof {
            lemma_empty_needle_occurs(haystack@, needle@);
        }
        Some(true)
    } else if needle.len() > haystack.len() {
        Some(false)
    } else if needle.len() == haystack.len() {
        let equal = window_equals(haystack, 0, needle);
        proof {
            lemma_equal_length_occurs_iff_equal(haystack@, needle@);
            assert(window(haystack@, 0, needle@.len() as int) =~= haystack@);
        }
        Some(equal)
    } else {
        None
    }
}

} // verus!
