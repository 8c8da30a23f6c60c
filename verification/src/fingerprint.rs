//! Searching with a rolling parity fingerprint.
//!
//! The fingerprint of a window holds one bit per byte, the byte's lowest
//! bit, with the window's first byte in the highest position. Sliding the
//! window shifts the fingerprint left, brings the entering byte's bit in at
//! the bottom, and masks the result to the window's width. The mask alone
//! drops the bit of the byte that left: there is no step that removes it.
//! A fingerprint is 64 bits wide, so this searcher takes needles of at most
//! 64 bytes.

use vstd::arithmetic::div_mod::{lemma_mod_mod, lemma_mod_multiples_vanish, lemma_small_mod};
use vstd::arithmetic::power2::{
    lemma2_to64, lemma_pow2_adds, lemma_pow2_pos, lemma_pow2_strictly_increases,
    lemma_pow2_unfold, pow2,
};
use vstd::bits::{lemma_low_bits_mask_unfold, lemma_u64_low_bits_mask_is_mod, low_bits_mask};
use vstd::prelude::*;
use vstd::slice::slice_subrange;
use crate::error::SearchError;
use crate::sum::{sum_search, sum_verdict, MAX_SUM_NEEDLE_LEN};
use crate::window::{
    lemma_occurs_before_all, lemma_occurs_before_step, occurs, occurs_before, settle_corner_case,
    window, window_equals,
};

verus! {

/// The number of bits in a fingerprint, and so the longest needle that the
/// fingerprint searcher takes.
pub const FINGERPRINT_WIDTH: usize = 64;

/// The lowest bit of a byte.
pub open spec fn parity(byte: u8) -> nat {
    (byte % 2) as nat
}

/// The fingerprint of `bytes`: the number whose binary digits are the
/// parities of the bytes, first byte first.
pub open spec fn fingerprint(bytes: Seq<u8>) -> nat
    decreases bytes.len(),
{
    if bytes.len() == 0 {
        0
    } else {
        2 * fingerprint(bytes.drop_last()) + parity(bytes.last())
    }
}

/// `mask` keeps the lowest bits of some width up to 64.
pub open spec fn is_width_mask(mask: u64) -> bool {
    exists|width: nat| width <= 64 && mask == #[trigger] low_bits_mask(width)
}

/// The fingerprint after the window moved by one byte: doubled, the
/// entering parity added, and cut to the bits that `mask` keeps.
pub open spec fn roll_fingerprint(fingerprint: nat, entering: u8, mask: nat) -> nat {
    (2 * fingerprint + parity(entering)) % (mask + 1)
}

/// The fingerprint that a pass maintains: taken once from the first window,
/// then rolled forward `start` times.
pub open spec fn rolled_fingerprint(haystack: Seq<u8>, len: int, start: int) -> nat
    decreases start,
{
    if start <= 0 {
        fingerprint(window(haystack, 0, len))
    } else {
        roll_fingerprint(
            rolled_fingerprint(haystack, len, start - 1),
            haystack[start - 1 + len],
            low_bits_mask(len as nat),
        )
    }
}

/// What the fingerprint searcher answers: it settles the empty needle and
/// needles at least as long as the haystack directly, turns away a needle
/// wider than the fingerprint, and otherwise reports whether the needle
/// occurs.
pub open spec fn fingerprint_verdict(haystack: Seq<u8>, needle: Seq<u8>) -> Result<
    bool,
    SearchError,
> {
    if 0 < needle.len() < haystack.len() && needle.len() > FINGERPRINT_WIDTH {
        Err(SearchError::UnsupportedWidth)
    } else {
        Ok(occurs(haystack, needle))
    }
}

/// A fingerprint has as many bits as there are bytes.
pub proof fn lemma_fingerprint_bound(bytes: Seq<u8>)
    ensures
        fingerprint(bytes) < pow2(bytes.len()),
        fingerprint(bytes) <= low_bits_mask(bytes.len()),
    decreases bytes.len(),
{
    if bytes.len() == 0 {
        lemma2_to64();
    } else {
        lemma_fingerprint_bound(bytes.drop_last());
        lemma_pow2_unfold(bytes.len());
    }
}

/// Appending a byte shifts the fingerprint and brings the byte's parity in.
pub proof fn lemma_fingerprint_push(bytes: Seq<u8>, byte: u8)
    ensures
        fingerprint(bytes.push(byte)) == 2 * fingerprint(bytes) + parity(byte),
{
    assert(bytes.push(byte).drop_last() =~= bytes);
}

/// The first byte's parity is the fingerprint's highest bit.
pub proof fn lemma_fingerprint_front(bytes: Seq<u8>)
    requires
        bytes.len() > 0,
    ensures
        fingerprint(bytes) == parity(bytes[0]) * pow2((bytes.len() - 1) as nat) + fingerprint(
            bytes.skip(1),
        ),
    decreases bytes.len(),
{
    if bytes.len() == 1 {
        assert(bytes.skip(1) =~= Seq::<u8>::empty());
        assert(bytes.drop_last() =~= Seq::<u8>::empty());
        lemma2_to64();
        let unit = pow2(0);
        assert(parity(bytes[0]) * unit == parity(bytes[0])) by (nonlinear_arith)
            requires
                unit == 1,
        ;
    } else {
        let shorter = bytes.drop_last();
        let rest = bytes.skip(1);
        lemma_fingerprint_front(shorter);
        assert(shorter.skip(1) =~= rest.drop_last());
        assert(rest.last() == bytes.last());
        lemma_pow2_unfold((bytes.len() - 1) as nat);
        let high = pow2((bytes.len() - 2) as nat);
        let top = parity(bytes[0]);
        assert(fingerprint(shorter) == top * high + fingerprint(rest.drop_last()));
        assert(fingerprint(rest) == 2 * fingerprint(rest.drop_last()) + parity(bytes.last()));
        let higher = pow2((bytes.len() - 1) as nat);
        assert(2 * (top * high) == top * higher) by (nonlinear_arith)
            requires
                higher == 2 * high,
        ;
    }
}

/// One roll of the fingerprint gives the fingerprint of the next window,
/// taken afresh: the mask has dropped the bit of the byte that left.
pub proof fn lemma_fingerprint_rolls(haystack: Seq<u8>, start: int, len: int)
    requires
        0 <= start,
        0 <= len,
        start + len < haystack.len(),
    ensures
        fingerprint(window(haystack, start + 1, len)) == roll_fingerprint(
            fingerprint(window(haystack, start, len)),
            haystack[start + len],
            low_bits_mask(len as nat),
        ),
{
    let old_window = window(haystack, start, len);
    let new_window = window(haystack, start + 1, len);
    let entering = haystack[start + len];
    let modulus = pow2(len as nat);
    lemma_pow2_pos(len as nat);
    assert(low_bits_mask(len as nat) + 1 == modulus);
    if len == 0 {
        assert(old_window =~= new_window);
        lemma2_to64();
    } else {
        lemma_fingerprint_front(old_window);
        lemma_fingerprint_push(old_window.skip(1), entering);
        assert(new_window =~= old_window.skip(1).push(entering));
        lemma_fingerprint_bound(new_window);
        lemma_pow2_unfold(len as nat);
        let high = pow2((len - 1) as nat);
        let leaving = parity(old_window[0]);
        assert(2 * (leaving * high) == modulus * leaving) by (nonlinear_arith)
            requires
                modulus == 2 * high,
        ;
        let fresh = fingerprint(new_window);
        assert(2 * fingerprint(old_window) + parity(entering) == modulus * leaving + fresh);
        lemma_mod_multiples_vanish(leaving as int, fresh as int, modulus as int);
        lemma_small_mod(fresh, modulus);
    }
}

/// The rolling fingerprint never drifts: after any number of rolls the
/// maintained fingerprint equals that of the current window, taken afresh.
pub proof fn lemma_rolled_fingerprint_is_window_fingerprint(
    haystack: Seq<u8>,
    len: int,
    start: int,
)
    requires
        0 <= len,
        0 <= start,
        start + len <= haystack.len(),
    ensures
        rolled_fingerprint(haystack, len, start) == fingerprint(window(haystack, start, len)),
    decreases start,
{
    if start > 0 {
        lemma_rolled_fingerprint_is_window_fingerprint(haystack, len, start - 1);
        lemma_fingerprint_rolls(haystack, start - 1, len);
    }
}

/// Bounds on the masks of widths under 64.
proof fn lemma_narrow_mask_bound(width: nat)
    requires
        width < 64,
    ensures
        low_bits_mask(width) < 0x8000_0000_0000_0000,
        pow2(width) <= 0x8000_0000_0000_0000,
{
    lemma2_to64();
    lemma_pow2_unfold(64);
    if width < 63 {
        lemma_pow2_strictly_increases(width, 63);
    }
    lemma_pow2_pos(width);
}

/// The lowest bit of a byte, widened to the fingerprint's type.
pub fn parity_bit(byte: u8) -> (bit: u64)
    ensures
        bit == parity(byte),
{
    assert(byte & 1 == byte % 2) by (bit_vector);
    (byte & 1) as u64
}

/// The mask that keeps the lowest `width` bits.
pub fn width_mask(width: usize) -> (mask: u64)
    requires
        width <= FINGERPRINT_WIDTH,
    ensures
        mask == low_bits_mask(width as nat),
        is_width_mask(mask),
{
    let mut mask: u64 = 0;
    let mut i: usize = 0;
    proof {
        lemma2_to64();
    }
    while i < width
        invariant
            i <= width <= 64,
            mask == low_bits_mask(i as nat),
        decreases width - i,
    {
        proof {
            lemma_narrow_mask_bound(i as nat);
            lemma_low_bits_mask_unfold((i + 1) as nat);
            assert((mask << 1) | 1 == 2 * mask + 1) by (bit_vector)
                requires
                    mask < 0x8000_0000_0000_0000u64,
            ;
        }
        mask = mask << 1;
        mask = mask | 1;
        i += 1;
    }
    mask
}

/// Takes the fingerprint of up to 64 bytes.
pub fn fingerprint_of(bytes: &[u8]) -> (fp: u64)
    requires
        bytes@.len() <= FINGERPRINT_WIDTH,
    ensures
        fp == fingerprint(bytes@),
{
    let len = bytes.len();
    let mut fp: u64 = 0;
    let mut i: usize = 0;
    while i < len
        invariant
            len == bytes@.len(),
            i <= len <= 64,
            fp == fingerprint(bytes@.take(i as int)),
        decreases len - i,
    {
        let bit = parity_bit(bytes[i]);
        proof {
            lemma_fingerprint_bound(bytes@.take(i as int));
            lemma_narrow_mask_bound(i as nat);
            lemma_fingerprint_push(bytes@.take(i as int), bytes@[i as int]);
            assert(bytes@.take(i as int).push(bytes@[i as int]) =~= bytes@.take(i + 1));
            assert((fp << 1) | bit == 2 * fp + bit) by (bit_vector)
                requires
                    fp < 0x8000_0000_0000_0000u64,
                    bit <= 1,
            ;
        }
        fp = fp << 1 | bit;
        i += 1;
    }
    proof {
        assert(bytes@.take(len as int) =~= bytes@);
    }
    fp
}

/// Moves a fingerprint one byte forward: shift left, bring the entering
/// byte's parity in, mask to the window's width.
pub fn roll_fingerprint_forward(fingerprint: u64, entering: u8, mask: u64) -> (rolled: u64)
    requires
        is_width_mask(mask),
    ensures
        rolled == roll_fingerprint(fingerprint as nat, entering, mask as nat),
{
    let bit = parity_bit(entering);
    let mut rolled = fingerprint;
    rolled = rolled << 1;
    rolled = rolled | bit;
    rolled = rolled & mask;
    proof {
        let width = choose|width: nat| width <= 64 && mask == #[trigger] low_bits_mask(width);
        let shifted = (fingerprint << 1) | bit;
        let exact = 2 * fingerprint + bit;
        lemma2_to64();
        assert(shifted == (2 * fingerprint + bit) % 0x1_0000_0000_0000_0000) by (bit_vector)
            requires
                shifted == (fingerprint << 1) | bit,
                bit <= 1,
        ;
        if width == 64 {
            assert(shifted & 0xffff_ffff_ffff_ffff == shifted) by (bit_vector);
        } else {
            lemma_narrow_mask_bound(width);
            lemma_pow2_pos(width);
            lemma_u64_low_bits_mask_is_mod(shifted, width);
            lemma_pow2_adds(width, (64 - width) as nat);
            lemma_pow2_pos((64 - width) as nat);
            lemma_mod_mod(exact, pow2(width) as int, pow2((64 - width) as nat) as int);
        }
    }
    rolled
}

/// Searches with a rolling parity fingerprint.
///
/// Corner cases are settled first. A needle of more than
/// [`FINGERPRINT_WIDTH`] bytes is then turned away. Otherwise the needle's
/// fingerprint is taken once, the first window's once, and every later
/// window's is rolled from the one before it. A window whose fingerprint
/// equals the needle's is compared with the needle byte for byte.
pub fn fingerprint_search(haystack: &[u8], needle: &[u8]) -> (result: Result<
    bool,
    SearchError,
>)
    ensures
        result == fingerprint_verdict(haystack@, needle@),
{
    if let Some(verdict) = settle_corner_case(haystack, needle) {
        return Ok(verdict);
    }
    let len = needle.len();
    let last_start = haystack.len() - len;
    if len > FINGERPRINT_WIDTH {
        return Err(SearchError::UnsupportedWidth);
    }
    let mask = width_mask(len);
    let needle_print = fingerprint_of(needle);
    let mut window_print = fingerprint_of(slice_subrange(haystack, 0, len));
    if needle_print == window_print && window_equals(haystack, 0, needle) {
        return Ok(true);
    }
    let mut start: usize = 0;
    proof {
        lemma_occurs_before_step(haystack@, needle@, 0);
    }
    while start < last_start
        invariant
            len == needle@.len(),
            0 < len <= 64,
            last_start + len == haystack.len(),
            start <= last_start,
            mask == low_bits_mask(len as nat),
            is_width_mask(mask),
            needle_print == fingerprint(needle@),
            window_print == fingerprint(window(haystack@, start as int, len as int)),
            !occurs_before(haystack@, needle@, start + 1),
        decreases last_start - start,
    {
        proof {
            lemma_fingerprint_rolls(haystack@, start as int, len as int);
            lemma_occurs_before_step(haystack@, needle@, start + 1);
        }
        window_print = roll_fingerprint_forward(window_print, haystack[start + len], mask);
        start += 1;
        if needle_print != window_print {
            continue ;
        }
        if window_equals(haystack, start, needle) {
            return Ok(true);
        }
    }
    proof {
        lemma_occurs_before_all(haystack@, needle@, start + 1);
    }
    Ok(false)
}

/// Searches with the parity fingerprint where the needle fits it, and with
/// the rolling sum where the needle is wider than the fingerprint.
pub fn bit_shift_search(haystack: &[u8], needle: &[u8]) -> (result: Result<bool, SearchError>)
    ensures
        result == sum_verdict(haystack@, needle@, MAX_SUM_NEEDLE_LEN as int),
{
    match fingerprint_search(haystack, needle) {
        Err(SearchError::UnsupportedWidth) => sum_search(haystack, needle),
        verdict => verdict,
    }
}

} // verus!
