//! Searching with a rolling xor.
//!
//! The aggregate of a window is the bitwise xor of its bytes. Xor undoes
//! itself, so the byte that enters and the byte that leaves are applied with
//! the same operation. As with every aggregate, a window whose xor equals
//! the needle's is compared byte for byte before a match is reported.

use vstd::prelude::*;
use vstd::slice::slice_subrange;
use crate::window::{
    lemma_occurs_before_all, lemma_occurs_before_step, occurs, occurs_before, settle_corner_case,
    window, window_equals,
};

verus! {

/// The bitwise xor of the bytes of `bytes`.
pub open spec fn byte_xor(bytes: Seq<u8>) -> u64
    decreases bytes.len(),
{
    if bytes.len() == 0 {
        0
    } else {
        byte_xor(bytes.drop_last()) ^ (bytes.last() as u64)
    }
}

/// The aggregate after the window moved by one byte.
pub open spec fn roll_xor(aggregate: u64, leaving: u8, entering: u8) -> u64 {
    aggregate ^ (entering as u64) ^ (leaving as u64)
}

/// The aggregate that a pass maintains: folded once over the first window,
/// then rolled forward `start` times.
pub open spec fn rolled_xor(haystack: Seq<u8>, len: int, start: int) -> u64
    decreases start,
{
    if start <= 0 {
        byte_xor(window(haystack, 0, len))
    } else {
        roll_xor(
            rolled_xor(haystack, len, start - 1),
            haystack[start - 1],
            haystack[start - 1 + len],
        )
    }
}

/// Appending a byte folds it into the xor.
pub proof fn lemma_byte_xor_push(bytes: Seq<u8>, byte: u8)
    ensures
        byte_xor(bytes.push(byte)) == byte_xor(bytes) ^ (byte as u64),
{
    assert(bytes.push(byte).drop_last() =~= bytes);
}

/// The xor is the first byte folded into the xor of the rest.
pub proof fn lemma_byte_xor_front(bytes: Seq<u8>)
    requires
        bytes.len() > 0,
    ensures
        byte_xor(bytes) == (bytes[0] as u64) ^ byte_xor(bytes.skip(1)),
    decreases bytes.len(),
{
    let first = bytes[0] as u64;
    let last = bytes.last() as u64;
    if bytes.len() == 1 {
        assert(bytes.skip(1) =~= Seq::<u8>::empty());
        assert(bytes.drop_last() =~= Seq::<u8>::empty());
        assert(0u64 ^ first == first ^ 0u64) by (bit_vector);
    } else {
        let shorter = bytes.drop_last();
        let rest = bytes.skip(1);
        lemma_byte_xor_front(shorter);
        assert(shorter.skip(1) =~= rest.drop_last());
        assert(rest.last() == bytes.last());
        let middle = byte_xor(rest.drop_last());
        assert((first ^ middle) ^ last == first ^ (middle ^ last)) by (bit_vector);
    }
}

/// One roll of the aggregate gives the xor of the next window, folded
/// afresh.
pub proof fn lemma_xor_rolls(haystack: Seq<u8>, start: int, len: int)
    requires
        0 <= start,
        0 <= len,
        start + len < haystack.len(),
    ensures
        byte_xor(window(haystack, start + 1, len)) == roll_xor(
            byte_xor(window(haystack, start, len)),
            haystack[start],
            haystack[start + len],
        ),
{
    let old_window = window(haystack, start, len);
    let new_window = window(haystack, start + 1, len);
    let leaving = haystack[start] as u64;
    let entering = haystack[start + len] as u64;
    if len == 0 {
        assert(old_window =~= new_window);
        assert(0u64 ^ leaving ^ leaving == 0) by (bit_vector);
    } else {
        lemma_byte_xor_front(old_window);
        lemma_byte_xor_push(old_window.skip(1), haystack[start + len]);
        assert(new_window =~= old_window.skip(1).push(haystack[start + len]));
        let kept = byte_xor(old_window.skip(1));
        assert((leaving ^ kept) ^ entering ^ leaving == kept ^ entering) by (bit_vector);
    }
}

/// The rolling xor never drifts: after any number of rolls the maintained
/// aggregate equals the xor of the current window, folded afresh.
pub proof fn lemma_rolled_xor_is_window_xor(haystack: Seq<u8>, len: int, start: int)
    requires
        0 <= len,
        0 <= start,
        start + len <= haystack.len(),
    ensures
        rolled_xor(haystack, len, start) == byte_xor(window(haystack, start, len)),
    decreases start,
{
    if start > 0 {
        lemma_rolled_xor_is_window_xor(haystack, len, start - 1);
        lemma_xor_rolls(haystack, start - 1, len);
    }
}

/// Folds the bytes of a slice with xor.
pub fn xor_slice(bytes: &[u8]) -> (aggregate: u64)
    ensures
        aggregate == byte_xor(bytes@),
{
    let len = bytes.len();
    let mut aggregate: u64 = 0;
    let mut i: usize = 0;
    while i < len
        invariant
            len == bytes@.len(),
            i <= len,
            aggregate == byte_xor(bytes@.take(i as int)),
        decreases len - i,
    {
        proof {
            lemma_byte_xor_push(bytes@.take(i as int), bytes@[i as int]);
            assert(bytes@.take(i as int).push(bytes@[i as int]) =~= bytes@.take(i + 1));
        }
        aggregate = aggregate ^ bytes[i] as u64;
        i += 1;
    }
    proof {
        assert(bytes@.take(len as int) =~= bytes@);
    }
    aggregate
}

/// Moves a window xor one byte forward.
pub fn roll_xor_forward(aggregate: u64, leaving: u8, entering: u8) -> (rolled: u64)
    ensures
        rolled == roll_xor(aggregate, leaving, entering),
{
    let mut rolled = aggregate;
    rolled = rolled ^ entering as u64;
    rolled = rolled ^ leaving as u64;
    rolled
}

/// Searches with a rolling xor.
///
/// Corner cases are settled first. Otherwise the needle is folded once, the
/// first window is folded once, and every later window's xor is rolled from
/// the one before it. A window whose xor equals the needle's is compared
/// with the needle byte for byte.
pub fn xor_search(haystack: &[u8], needle: &[u8]) -> (found: bool)
    ensures
        found == occurs(haystack@, needle@),
{
    if let Some(verdict) = settle_corner_case(haystack, needle) {
        return verdict;
    }
    let len = needle.len();
    let last_start = haystack.len() - len;
    let needle_xor = xor_slice(needle);
    let mut window_xor = xor_slice(slice_subrange(haystack, 0, len));
    if needle_xor == window_xor && window_equals(haystack, 0, needle) {
        return true;
    }
    let mut start: usize = 0;
    proof {
        lemma_occurs_before_step(haystack@, needle@, 0);
    }
    while start < last_start
        invariant
            len == needle@.len(),
            0 < len,
            last_start + len == haystack.len(),
            start <= last_start,
            needle_xor == byte_xor(needle@),
            window_xor == byte_xor(window(haystack@, start as int, len as int)),
            !occurs_before(haystack@, needle@, start + 1),
        decreases last_start - start,
    {
        proof {
            lemma_xor_rolls(haystack@, start as int, len as int);
            lemma_occurs_before_step(haystack@, needle@, start + 1);
        }
        window_xor = roll_xor_forward(window_xor, haystack[start], haystack[start + len]);
        start += 1;
        if needle_xor == window_xor && window_equals(haystack, start, needle) {
            return true;
        }
    }
    proof {
        lemma_occurs_before_all(haystack@, needle@, start + 1);
    }
    false
}

} // verus!
