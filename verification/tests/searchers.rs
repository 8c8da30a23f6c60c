use rolling_search::error::SearchError;
use rolling_search::family::Searcher;
use rolling_search::fingerprint::{bit_shift_search, fingerprint_search, FINGERPRINT_WIDTH};
use rolling_search::naive::naive_search;
use rolling_search::partition::{partitioned_sum_search, ParallelConfig, DEFAULT_THRESHOLD};
use rolling_search::sum::{
    sum_search, sum_search3, sum_search_bad, MAX_NARROW_SUM_NEEDLE_LEN, MAX_SUM_NEEDLE_LEN,
};
use rolling_search::window::{settle_corner_case, window_equals};
use rolling_search::xor::xor_search;

/// A reproducible stand-in for a literary corpus: lower-case words of
/// uneven length, separated by spaces and line breaks.
fn corpus(len: usize) -> Vec<u8> {
    let mut state: u64 = 0x2545_f491_4f6c_dd1d;
    let mut text: Vec<u8> = Vec::with_capacity(len);
    let mut word_left: u64 = 3;
    while text.len() < len {
        state = state.wrapping_mul(6364136223846793005).wrapping_add(1442695040888963407);
        let draw = state >> 33;
        if word_left == 0 {
            text.push(if draw % 11 == 0 { b'\n' } else { b' ' });
            word_left = 1 + draw % 9;
        } else {
            text.push(b'a' + (draw % 26) as u8);
            word_left -= 1;
        }
    }
    text
}

fn config(max_workers: usize) -> ParallelConfig {
    ParallelConfig { threshold: DEFAULT_THRESHOLD, max_workers }
}

fn family() -> Vec<Searcher> {
    Searcher::family(config(4))
}

/// Asserts that every searcher of the family gives `expected`.
fn all_give(haystack: &[u8], needle: &[u8], expected: bool) {
    for searcher in family() {
        assert_eq!(searcher.search(haystack, needle), Ok(expected), "{:?}", searcher);
    }
}

#[test]
fn finds_the_first_ten_bytes_of_the_corpus() {
    let text = corpus(12000);
    all_give(&text, &text[..10], true);
}

#[test]
fn finds_an_interior_stretch_of_the_corpus() {
    let text = corpus(12000);
    all_give(&text, &text[100..1000], true);
}

#[test]
fn finds_the_fragments_that_the_suite_cuts() {
    let text = corpus(12000);
    all_give(&text, &text[..1], true);
    all_give(&text, &text[..100], true);
    all_give(&text, &text[..1000], true);
    all_give(&text, &text[1..5], true);
    all_give(&text, &text[5..10], true);
    all_give(&text, &text[1000..10000], true);
    all_give(&text, &text[10000..], true);
}

#[test]
fn does_not_find_a_string_that_is_not_there() {
    let text = corpus(12000);
    all_give(&text, b"zzzz-not-present-zzzz", false);
}

#[test]
fn does_not_find_a_fragment_with_two_bytes_replaced() {
    let text = corpus(12000);
    let mut needle = text[..1000].to_vec();
    needle[400] = b'#';
    needle[700] = b'#';
    all_give(&text, &needle, false);
}

#[test]
fn finds_the_empty_needle_in_the_corpus() {
    let text = corpus(12000);
    all_give(&text, b"", true);
}

#[test]
fn does_not_find_a_needle_longer_than_the_haystack() {
    let text = corpus(12000);
    let mut needle = text[..5].to_vec();
    needle.push(b'x');
    all_give(&text[..5], &needle, false);
}

#[test]
fn finds_the_empty_needle_in_any_haystack() {
    all_give(b"", b"", true);
    all_give(b"a", b"", true);
    all_give(b"some haystack", b"", true);
}

#[test]
fn finds_a_haystack_in_itself() {
    all_give(b"a", b"a", true);
    all_give(b"needle", b"needle", true);
    let text = corpus(3000);
    all_give(&text, &text, true);
}

#[test]
fn equal_length_matches_only_if_equal() {
    all_give(b"abcd", b"abcd", true);
    all_give(b"abcd", b"abce", false);
    all_give(b"abcd", b"dcba", false);
}

#[test]
fn never_finds_a_longer_needle() {
    all_give(b"", b"a", false);
    all_give(b"abc", b"abcd", false);
    all_give(b"abc", b"abcabc", false);
}

#[test]
fn finds_a_match_in_the_last_window() {
    all_give(b"xxxxxxab", b"ab", true);
    all_give(b"xxxxxxab", b"b", true);
    let mut text = corpus(5000);
    text.extend_from_slice(b"#end");
    all_give(&text, b"#end", true);
}

#[test]
fn finds_a_match_in_the_first_window() {
    all_give(b"abxxxxxx", b"ab", true);
    all_give(b"abxxxxxx", b"a", true);
}

#[test]
fn every_pair_of_searchers_agrees() {
    let text = corpus(4000);
    let needles: Vec<Vec<u8>> = vec![
        b"".to_vec(),
        b"e".to_vec(),
        b" a".to_vec(),
        b"qzj".to_vec(),
        text[17..29].to_vec(),
        text[2000..2300].to_vec(),
        text[3990..].to_vec(),
        b"not here at all".to_vec(),
        corpus(4001),
    ];
    for needle in &needles {
        let verdicts: Vec<Result<bool, SearchError>> =
            family().iter().map(|searcher| searcher.search(&text, needle)).collect();
        for first in &verdicts {
            for second in &verdicts {
                assert_eq!(first, second);
            }
        }
        assert_eq!(verdicts[0], Ok(naive_search(&text, needle)));
    }
}

#[test]
fn a_sum_collision_is_not_a_match() {
    // "ba" and "ab" have the same sum; only the bytes tell them apart.
    assert_eq!(sum_search(b"ba ba ba", b"ab"), Ok(false));
    assert_eq!(sum_search_bad(b"ba ba ba", b"ab"), Ok(false));
    assert_eq!(sum_search3(b"ba ba ba", b"ab"), Ok(false));
    assert_eq!(sum_search(b"ba ba ab", b"ab"), Ok(true));
    assert_eq!(sum_search_bad(b"ba ba ab", b"ab"), Ok(true));
    assert_eq!(sum_search3(b"ba ba ab", b"ab"), Ok(true));
    // 'a' + 'd' == 'b' + 'c'
    assert_eq!(sum_search(b"xxadxx", b"bc"), Ok(false));
    assert_eq!(sum_search(b"xxadbc", b"bc"), Ok(true));
}

#[test]
fn a_xor_collision_is_not_a_match() {
    // The xor of a window does not depend on the order of its bytes.
    assert!(!xor_search(b"ba ba ba", b"ab"));
    assert!(xor_search(b"ba ba ab", b"ab"));
    // 0x01 ^ 0x02 == 0x05 ^ 0x06
    assert!(!xor_search(&[9, 1, 2, 9, 9], &[5, 6]));
    assert!(xor_search(&[9, 1, 2, 5, 6], &[5, 6]));
}

#[test]
fn a_fingerprint_collision_is_not_a_match() {
    // "cd" and "ab" have the same parities, byte for byte.
    assert_eq!(fingerprint_search(b"cdcdcd", b"ab"), Ok(false));
    assert_eq!(bit_shift_search(b"cdcdcd", b"ab"), Ok(false));
    assert_eq!(fingerprint_search(b"cdcdab", b"ab"), Ok(true));
    assert_eq!(bit_shift_search(b"cdabcd", b"ab"), Ok(true));
}

#[test]
fn the_fingerprint_takes_needles_of_sixty_four_bytes() {
    let text = corpus(1000);
    let needle = &text[500..500 + FINGERPRINT_WIDTH];
    assert_eq!(fingerprint_search(&text, needle), Ok(true));
    assert_eq!(bit_shift_search(&text, needle), Ok(true));
    let mut absent = needle.to_vec();
    absent[0] = b'#';
    assert_eq!(fingerprint_search(&text, &absent), Ok(false));
    assert_eq!(bit_shift_search(&text, &absent), Ok(false));
    // A haystack of one parity keeps every bit of a 64-bit fingerprint set.
    let mut ones = vec![b'a'; 200];
    ones.extend_from_slice(&[b'c'; 64]);
    assert_eq!(fingerprint_search(&ones, &[b'c'; 64]), Ok(true));
    assert_eq!(fingerprint_search(&ones, &[b'e'; 64]), Ok(false));
}

#[test]
fn a_needle_wider_than_the_fingerprint_is_turned_away() {
    let text = corpus(1000);
    let needle = &text[500..500 + FINGERPRINT_WIDTH + 1];
    assert_eq!(fingerprint_search(&text, needle), Err(SearchError::UnsupportedWidth));
    assert_eq!(fingerprint_search(&text, &text[..900]), Err(SearchError::UnsupportedWidth));
}

#[test]
fn a_wide_needle_falls_back_to_the_rolling_sum() {
    let text = corpus(1000);
    let needle = &text[500..500 + FINGERPRINT_WIDTH + 1];
    assert_eq!(bit_shift_search(&text, needle), Ok(true));
    let mut absent = needle.to_vec();
    absent[64] = b'#';
    assert_eq!(bit_shift_search(&text, &absent), Ok(false));
}

#[test]
fn the_fingerprint_settles_corner_cases_before_the_width() {
    let text = corpus(100);
    assert_eq!(fingerprint_search(&text, &text), Ok(true));
    assert_eq!(fingerprint_search(&text[..99], &text), Ok(false));
    assert_eq!(fingerprint_search(&text, b""), Ok(true));
}

#[test]
fn the_narrow_sum_rejects_an_oversized_needle() {
    let limit = MAX_NARROW_SUM_NEEDLE_LEN as usize;
    let haystack = vec![0u8; limit + 2];
    let needle = vec![0u8; limit + 1];
    assert_eq!(sum_search_bad(&haystack, &needle), Err(SearchError::InvalidNeedle));
    assert_eq!(
        Searcher::NarrowRollingSum.search(&haystack, &needle),
        Err(SearchError::InvalidNeedle)
    );
    // The wide accumulator takes the same needle.
    assert_eq!(sum_search(&haystack, &needle), Ok(true));
}

#[test]
fn the_narrow_sum_takes_a_needle_at_its_limit() {
    let limit = MAX_NARROW_SUM_NEEDLE_LEN as usize;
    let mut haystack = vec![255u8; limit + 1];
    let needle = vec![255u8; limit];
    assert_eq!(sum_search_bad(&haystack, &needle), Ok(true));
    haystack[1] = 254;
    assert_eq!(sum_search_bad(&haystack, &needle), Ok(false));
}

#[test]
fn an_oversized_needle_is_still_settled_by_length() {
    let limit = MAX_NARROW_SUM_NEEDLE_LEN as usize;
    let needle = vec![7u8; limit + 1];
    assert_eq!(sum_search_bad(&needle[..limit], &needle), Ok(false));
    assert_eq!(sum_search_bad(&needle, &needle), Ok(true));
    assert_eq!(sum_search_bad(b"", &needle), Ok(false));
}

#[test]
fn the_needle_limits_are_the_quotients_by_the_largest_byte() {
    assert_eq!(MAX_SUM_NEEDLE_LEN, u64::MAX / 255);
    assert_eq!(MAX_NARROW_SUM_NEEDLE_LEN, u32::MAX as u64 / 255);
}

#[test]
fn window_equals_compares_one_window() {
    assert!(window_equals(b"haystack", 3, b"stack"));
    assert!(!window_equals(b"haystack", 2, b"stack"));
    assert!(window_equals(b"haystack", 0, b"hay"));
    assert!(window_equals(b"haystack", 8, b""));
    assert!(!window_equals(b"haystack", 0, b"hey"));
}

#[test]
fn corner_cases_are_settled_without_a_scan() {
    assert_eq!(settle_corner_case(b"abc", b""), Some(true));
    assert_eq!(settle_corner_case(b"", b""), Some(true));
    assert_eq!(settle_corner_case(b"abc", b"abcd"), Some(false));
    assert_eq!(settle_corner_case(b"abc", b"abc"), Some(true));
    assert_eq!(settle_corner_case(b"abc", b"abd"), Some(false));
    assert_eq!(settle_corner_case(b"abc", b"ab"), None);
    assert_eq!(settle_corner_case(b"abc", b"c"), None);
}

#[test]
fn the_partitioned_search_agrees_below_and_above_the_threshold() {
    let text = corpus(5000);
    for &threshold in &[0usize, 1, 1024, 5000, 5001, usize::MAX] {
        for &max_workers in &[0usize, 1, 2, 3, 7, 64, usize::MAX] {
            let knobs = ParallelConfig { threshold, max_workers };
            assert_eq!(partitioned_sum_search(&text, &text[4990..], knobs), Ok(true));
            assert_eq!(partitioned_sum_search(&text, &text[1249..1252], knobs), Ok(true));
            assert_eq!(partitioned_sum_search(&text, b"#", knobs), Ok(false));
            assert_eq!(partitioned_sum_search(&text, b"", knobs), Ok(true));
            assert_eq!(partitioned_sum_search(&text, &text, knobs), Ok(true));
        }
    }
}

#[test]
fn the_partitioned_search_finds_a_match_across_every_boundary() {
    // One needle at every start position in turn: whichever boundary the
    // match straddles, some slice holds it whole.
    let needle = b"#needle#";
    for workers in 1..6usize {
        for at in 0..(40 - needle.len() + 1) {
            let mut haystack = vec![b'.'; 40];
            haystack[at..at + needle.len()].copy_from_slice(needle);
            let knobs = ParallelConfig { threshold: 0, max_workers: workers };
            assert_eq!(partitioned_sum_search(&haystack, needle, knobs), Ok(true));
        }
        let knobs = ParallelConfig { threshold: 0, max_workers: workers };
        assert_eq!(partitioned_sum_search(&[b'.'; 40], needle, knobs), Ok(false));
    }
}

#[test]
fn the_family_lists_every_searcher_once() {
    let knobs = config(3);
    assert_eq!(
        Searcher::family(knobs),
        vec![
            Searcher::Naive,
            Searcher::RollingSum,
            Searcher::BitFingerprint,
            Searcher::NarrowRollingSum,
            Searcher::RollingXor,
            Searcher::WindowSum,
            Searcher::Partitioned(knobs),
        ]
    );
}
