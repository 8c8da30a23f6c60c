//! Searching with a rolling sum.
//!
//! The aggregate of a window is the sum of its bytes. Sliding the window by
//! one byte changes the aggregate by the byte that enters minus the byte
//! that leaves, so a pass over the haystack costs one addition and one
//! subtraction per window. Equal aggregates are necessary for a match, never
//! sufficient: every candidate window is compared byte for byte before a
//! match is reported.

use vstd::prelude::*;
use vstd::slice::slice_subrange;
use crate::error::SearchError;
use crate::window::{
    lemma_occurs_before_all, lemma_occurs_before_step, occurs, occurs_before, settle_corner_case,
    window, window_equals,
};

verus! {

/// The largest value of a byte.
pub const MAX_BYTE: u64 = 255;

/// The longest needle whose byte sum is sure to fit a 64-bit accumulator:
/// `u64::MAX / 255`.
pub const MAX_SUM_NEEDLE_LEN: u64 = 72340172838076673;

/// The longest needle whose byte sum is sure to fit a 32-bit accumulator:
/// `u32::MAX / 255`.
pub const MAX_NARROW_SUM_NEEDLE_LEN: u64 = 16843009;

/// The sum of the bytes of `bytes`.
pub open spec fn byte_sum(bytes: Seq<u8>) -> nat
    decreases bytes.len(),
{
    if bytes.len() == 0 {
        0
    } else {
        byte_sum(bytes.drop_last()) + bytes.last() as nat
    }
}

/// The aggregate after the window moved by one byte.
pub open spec fn roll_sum(aggregate: int, leaving: u8, entering: u8) -> int {
    aggregate - leaving + entering
}

/// The aggregate that a pass maintains: summed once for the first window,
/// then rolled forward `start` times.
pub open spec fn rolled_sum(haystack: Seq<u8>, len: int, start: int) -> int
    decreases start,
{
    if start <= 0 {
        byte_sum(window(haystack, 0, len)) as int
    } else {
        roll_sum(
            rolled_sum(haystack, len, start - 1),
            haystack[start - 1],
            haystack[start - 1 + len],
        )
    }
}

/// What a sum searcher with the given needle limit answers: it settles the
/// empty needle and needles at least as long as the haystack directly,
/// rejects a needle over the limit, and otherwise reports whether the needle
/// occurs.
pub open spec fn sum_verdict(haystack: Seq<u8>, needle: Seq<u8>, limit: int) -> Result<
    bool,
    SearchError,
> {
    if 0 < needle.len() < haystack.len() && needle.len() > limit {
        Err(SearchError::InvalidNeedle)
    } else {
        Ok(occurs(haystack, needle))
    }
}

/// A byte sum is at most 255 per byte.
pub proof fn lemma_byte_sum_bound(bytes: Seq<u8>)
    ensures
        byte_sum(bytes) <= MAX_BYTE * bytes.len(),
    decreases bytes.len(),
{
    if bytes.len() > 0 {
        lemma_byte_sum_bound(bytes.drop_last());
    }
}

/// Appending a byte adds it to the sum.
pub proof fn lemma_byte_sum_push(bytes: Seq<u8>, byte: u8)
    ensures
        byte_sum(bytes.push(byte)) == byte_sum(bytes) + byte,
{
    assert(bytes.push(byte).drop_last() =~= bytes);
}

/// The sum is the first byte plus the sum of the rest.
pub proof fn lemma_byte_sum_front(bytes: Seq<u8>)
    requires
        bytes.len() > 0,
    ensures
        byte_sum(bytes) == bytes[0] + byte_sum(bytes.skip(1)),
    decreases bytes.len(),
{
    if bytes.len() == 1 {
        assert(bytes.skip(1) =~= Seq::<u8>::empty());
        assert(bytes.drop_last() =~= Seq::<u8>::empty());
    } else {
        lemma_byte_sum_front(bytes.drop_last());
        assert(bytes.drop_last().skip(1) =~= bytes.skip(1).drop_last());
    }
}

/// One roll of the aggregate gives the sum of the next window, computed
/// afresh.
pub proof fn lemma_sum_rolls(haystack: Seq<u8>, start: int, len: int)
    requires
        0 <= start,
        0 <= len,
        start + len < haystack.len(),
    ensures
        byte_sum(window(haystack, start + 1, len)) == roll_sum(
            byte_sum(window(haystack, start, len)) as int,
            haystack[start],
            haystack[start + len],
        ),
        len > 0 ==> byte_sum(window(haystack, start, len)) >= haystack[start],
{
    let old_window = window(haystack, start, len);
    let new_window = window(haystack, start + 1, len);
    if len == 0 {
        assert(old_window =~= new_window);
    } else {
        lemma_byte_sum_front(old_window);
        lemma_byte_sum_push(old_window.skip(1), haystack[start + len]);
        assert(new_window =~= old_window.skip(1).push(haystack[start + len]));
    }
}

/// The rolling sum never drifts: after any number of rolls the maintained
/// aggregate equals the sum of the current window, computed afresh.
pub proof fn lemma_rolled_sum_is_window_sum(haystack: Seq<u8>, len: int, start: int)
    requires
        0 <= len,
        0 <= start,
        start + len <= haystack.len(),
    ensures
        rolled_sum(haystack, len, start) == byte_sum(window(haystack, start, len)),
    decreases start,
{
    if start > 0 {
        lemma_rolled_sum_is_window_sum(haystack, len, start - 1);
        lemma_sum_rolls(haystack, start - 1, len);
    }
}

/// Sums the bytes of a slice.
pub fn sum_slice(bytes: &[u8]) -> (sum: u64)
    requires
        bytes@.len() <= MAX_SUM_NEEDLE_LEN,
    ensures
        sum == byte_sum(bytes@),
{
    let len = bytes.len();
    let mut sum: u64 = 0;
    let mut i: usize = 0;
    while i < len
        invariant
            len == bytes@.len(),
            len <= MAX_SUM_NEEDLE_LEN,
            i <= len,
            sum == byte_sum(bytes@.take(i as int)),
        decreases len - i,
    {
        proof {
            lemma_byte_sum_bound(bytes@.take(i as int));
            lemma_byte_sum_push(bytes@.take(i as int), bytes@[i as int]);
            assert(bytes@.take(i as int).push(bytes@[i as int]) =~= bytes@.take(i + 1));
        }
        sum = sum + bytes[i] as u64;
        i += 1;
    }
    proof {
        assert(bytes@.take(len as int) =~= bytes@);
    }
    sum
}

/// Moves a window sum one byte forward: the byte that leaves is taken out
/// before the byte that enters is added, so the step cannot overflow where
/// the next window's sum fits.
pub fn roll_sum_forward(aggregate: u64, leaving: u8, entering: u8) -> (rolled: u64)
    requires
        leaving <= aggregate,
        roll_sum(aggregate as int, leaving, entering) <= u64::MAX,
    ensures
        rolled == roll_sum(aggregate as int, leaving, entering),
{
    aggregate - leaving as u64 + entering as u64
}

/// Searches with a rolling sum held in a 64-bit accumulator.
///
/// Corner cases are settled first. A needle longer than
/// [`MAX_SUM_NEEDLE_LEN`] is then rejected before any byte is summed.
/// Otherwise the needle is summed once, the first window is summed once, and
/// every later window's sum is rolled from the one before it. A window whose
/// sum equals the needle's is compared with the needle byte for byte.
pub fn sum_search(haystack: &[u8], needle: &[u8]) -> (result: Result<bool, SearchError>)
    ensures
        result == sum_verdict(haystack@, needle@, MAX_SUM_NEEDLE_LEN as int),
{
    if let Some(verdict) = settle_corner_case(haystack, needle) {
        return Ok(verdict);
    }
    let len = needle.len();
    let last_start = haystack.len() - len;
    if len as u64 > MAX_SUM_NEEDLE_LEN {
        return Err(SearchError::InvalidNeedle);
    }
    let needle_sum = sum_slice(needle);
    let mut window_sum = sum_slice(slice_subrange(haystack, 0, len));
    if needle_sum == window_sum && window_equals(haystack, 0, needle) {
        return Ok(true);
    }
    let mut start: usize = 0;
    proof {
        lemma_occurs_before_step(haystack@, needle@, 0);
    }
    while start < last_start
        invariant
            len == needle@.len(),
            0 < len <= MAX_SUM_NEEDLE_LEN,
            last_start + len == haystack.len(),
            start <= last_start,
            needle_sum == byte_sum(needle@),
            window_sum == byte_sum(window(haystack@, start as int, len as int)),
            !occurs_before(haystack@, needle@, start + 1),
        decreases last_start - start,
    {
        proof {
            lemma_sum_rolls(haystack@, start as int, len as int);
            lemma_byte_sum_bound(window(haystack@, start + 1, len as int));
            lemma_occurs_before_step(haystack@, needle@, start + 1);
        }
        window_sum = roll_sum_forward(window_sum, haystack[start], haystack[start + len]);
        start += 1;
        if needle_sum != window_sum {
            continue ;
        }
        if window_equals(haystack, start, needle) {
            return Ok(true);
        }
    }
    proof {
        lemma_occurs_before_all(haystack@, needle@, start + 1);
    }
    Ok(false)
}

/// Searches with a rolling sum, budgeting the needle for a 32-bit aggregate.
///
/// This is the earliest form of the searcher. It walks the haystack by
/// index, compares before it rolls, and looks at the last window after the
/// walk. It takes needles of at most [`MAX_NARROW_SUM_NEEDLE_LEN`] bytes.
pub fn sum_search_bad(haystack: &[u8], needle: &[u8]) -> (result: Result<bool, SearchError>)
    ensures
        result == sum_verdict(haystack@, needle@, MAX_NARROW_SUM_NEEDLE_LEN as int),
{
    if let Some(verdict) = settle_corner_case(haystack, needle) {
        return Ok(verdict);
    }
    let len = needle.len();
    let last_start = haystack.len() - len;
    if len as u64 > MAX_NARROW_SUM_NEEDLE_LEN {
        return Err(SearchError::InvalidNeedle);
    }
    let needle_sum = sum_slice(needle);
    let mut window_sum = sum_slice(slice_subrange(haystack, 0, len));
    let mut left: usize = 0;
    while left < last_start
        invariant
            len == needle@.len(),
            0 < len <= MAX_NARROW_SUM_NEEDLE_LEN,
            last_start + len == haystack.len(),
            left <= last_start,
            needle_sum == byte_sum(needle@),
            window_sum == byte_sum(window(haystack@, left as int, len as int)),
            !occurs_before(haystack@, needle@, left as int),
        decreases last_start - left,
    {
        let right = left + len;
        if needle_sum == window_sum && window_equals(haystack, left, needle) {
            return Ok(true);
        }
        proof {
            lemma_sum_rolls(haystack@, left as int, len as int);
            lemma_byte_sum_bound(window(haystack@, left as int, len as int));
            lemma_occurs_before_step(haystack@, needle@, left as int);
        }
        window_sum = window_sum + haystack[right] as u64;
        window_sum = window_sum - haystack[left] as u64;
        left += 1;
    }
    proof {
        lemma_occurs_before_step(haystack@, needle@, left as int);
        lemma_occurs_before_all(haystack@, needle@, left + 1);
    }
    Ok(needle_sum == window_sum && window_equals(haystack, last_start, needle))
}

/// Searches by summing every window afresh: no aggregate is carried from
/// one window to the next.
pub fn sum_search3(haystack: &[u8], needle: &[u8]) -> (result: Result<bool, SearchError>)
    ensures
        result == sum_verdict(haystack@, needle@, MAX_SUM_NEEDLE_LEN as int),
{
    if let Some(verdict) = settle_corner_case(haystack, needle) {
        return Ok(verdict);
    }
    let len = needle.len();
    let last_start = haystack.len() - len;
    if len as u64 > MAX_SUM_NEEDLE_LEN {
        return Err(SearchError::InvalidNeedle);
    }
    let needle_sum = sum_slice(needle);
    let mut start: usize = 0;
    while start <= last_start
        invariant
            len == needle@.len(),
            0 < len <= MAX_SUM_NEEDLE_LEN,
            last_start + len == haystack.len(),
            start <= last_start + 1,
            needle_sum == byte_sum(needle@),
            !occurs_before(haystack@, needle@, start as int),
        decreases last_start + 1 - start,
    {
        let window_sum = sum_slice(slice_subrange(haystack, start, start + len));
        if window_sum == needle_sum && window_equals(haystack, start, needle) {
            return Ok(true);
        }
        proof {
            lemma_occurs_before_step(haystack@, needle@, start as int);
        }
        start += 1;
    }
    proof {
        lemma_occurs_before_all(haystack@, needle@, start as int);
    }
    Ok(false)
}

} // verus!
