use rolling_search::error::SearchError;
use rolling_search::partition::{
    combine, plan_search, search_slice, slice_range, worker_count, Dispatch, ParallelConfig,
    PartitionPlan, SliceRange, DEFAULT_THRESHOLD,
};

fn haystack(len: usize) -> Vec<u8> {
    (0..len).map(|i| b'a' + (i * i % 23) as u8).collect()
}

fn knobs(max_workers: usize) -> ParallelConfig {
    ParallelConfig { threshold: DEFAULT_THRESHOLD, max_workers }
}

#[test]
fn the_default_threshold_is_one_kibibyte() {
    assert_eq!(DEFAULT_THRESHOLD, 1024);
}

#[test]
fn counts_the_workers() {
    // 1991 window starts, four workers allowed.
    assert_eq!(worker_count(2000, 10, 4), 4);
    // Never more workers than window starts.
    assert_eq!(worker_count(12, 10, 8), 3);
    assert_eq!(worker_count(10, 10, 8), 1);
    // A limit of zero is read as one.
    assert_eq!(worker_count(2000, 10, 0), 1);
    assert_eq!(worker_count(2000, 10, 1), 1);
    assert_eq!(worker_count(2000, 1, usize::MAX), 2000);
}

#[test]
fn cuts_the_slices_of_four_workers() {
    assert_eq!(slice_range(0, 4, 2000, 10), SliceRange { start: 0, end: 506 });
    assert_eq!(slice_range(1, 4, 2000, 10), SliceRange { start: 497, end: 1004 });
    assert_eq!(slice_range(2, 4, 2000, 10), SliceRange { start: 995, end: 1502 });
    assert_eq!(slice_range(3, 4, 2000, 10), SliceRange { start: 1493, end: 2000 });
}

#[test]
fn one_worker_gets_the_whole_haystack() {
    assert_eq!(slice_range(0, 1, 2000, 10), SliceRange { start: 0, end: 2000 });
    assert_eq!(slice_range(0, 1, 10, 10), SliceRange { start: 0, end: 10 });
}

#[test]
fn one_worker_per_window_start_gets_one_window_each() {
    for i in 0..5 {
        assert_eq!(slice_range(i, 5, 7, 3), SliceRange { start: i, end: i + 3 });
    }
}

#[test]
fn plans_nothing_where_no_worker_is_needed() {
    assert!(PartitionPlan::build(100, 0, 4).is_none());
    assert!(PartitionPlan::build(100, 101, 4).is_none());
    assert!(PartitionPlan::build(0, 0, 4).is_none());
    assert!(PartitionPlan::build(0, 1, 4).is_none());
    assert!(PartitionPlan::build(100, 100, 4).is_some());
    assert!(PartitionPlan::build(100, 1, 0).is_some());
}

#[test]
fn builds_the_plan_of_four_workers() {
    let plan = PartitionPlan::build(2000, 10, 4).unwrap();
    assert_eq!(plan.haystack_len, 2000);
    assert_eq!(plan.needle_len, 10);
    assert_eq!(
        plan.ranges,
        vec![
            SliceRange { start: 0, end: 506 },
            SliceRange { start: 497, end: 1004 },
            SliceRange { start: 995, end: 1502 },
            SliceRange { start: 1493, end: 2000 },
        ]
    );
}

#[test]
fn adjacent_slices_overlap_by_one_less_than_the_needle() {
    for &(haystack_len, needle_len) in
        &[(2000usize, 10usize), (1024, 1), (1025, 1024), (5000, 64), (97, 13), (4096, 4000)]
    {
        for max_workers in 1..20 {
            let plan = PartitionPlan::build(haystack_len, needle_len, max_workers).unwrap();
            for pair in plan.ranges.windows(2) {
                assert_eq!(pair[0].end - pair[1].start, needle_len - 1);
                assert!(pair[0].start < pair[1].start);
            }
        }
    }
}

#[test]
fn every_window_lies_whole_in_some_slice() {
    for &(haystack_len, needle_len) in
        &[(200usize, 10usize), (64, 1), (65, 64), (300, 7), (97, 13), (128, 128)]
    {
        for max_workers in 0..12 {
            let plan = PartitionPlan::build(haystack_len, needle_len, max_workers).unwrap();
            assert_eq!(plan.ranges.len(), worker_count(haystack_len, needle_len, max_workers));
            assert_eq!(plan.ranges[0].start, 0);
            assert_eq!(plan.ranges[plan.ranges.len() - 1].end, haystack_len);
            for start in 0..=(haystack_len - needle_len) {
                let holders = plan
                    .ranges
                    .iter()
                    .filter(|range| range.start <= start && start + needle_len <= range.end)
                    .count();
                assert_eq!(holders, 1);
            }
            for range in &plan.ranges {
                assert!(range.start + needle_len <= range.end);
                assert!(range.end <= haystack_len);
            }
        }
    }
}

#[test]
fn plans_for_lengths_whose_product_overflows_a_word() {
    let haystack_len = usize::MAX;
    let needle_len = 2;
    let workers = worker_count(haystack_len, needle_len, 3);
    assert_eq!(workers, 3);
    let starts = (haystack_len - needle_len + 1) as u128;
    let mut previous_end = 0;
    for i in 0..workers {
        let range = slice_range(i, workers, haystack_len, needle_len);
        assert_eq!(range.start as u128, i as u128 * starts / 3);
        assert_eq!(range.end as u128, (i as u128 + 1) * starts / 3 + 1);
        if i > 0 {
            assert_eq!(previous_end - range.start, needle_len - 1);
        }
        previous_end = range.end;
    }
    assert_eq!(previous_end, haystack_len);
}

#[test]
fn combines_verdicts_with_or() {
    assert_eq!(combine(&[]), Ok(false));
    assert_eq!(combine(&[Ok(false)]), Ok(false));
    assert_eq!(combine(&[Ok(true)]), Ok(true));
    assert_eq!(combine(&[Ok(false), Ok(false), Ok(false)]), Ok(false));
    assert_eq!(combine(&[Ok(false), Ok(true), Ok(false)]), Ok(true));
    assert_eq!(combine(&[Ok(true), Ok(true)]), Ok(true));
}

#[test]
fn a_worker_fault_is_fatal() {
    assert_eq!(combine(&[Err(SearchError::WorkerFault)]), Err(SearchError::WorkerFault));
    assert_eq!(
        combine(&[Ok(true), Err(SearchError::WorkerFault), Ok(true)]),
        Err(SearchError::WorkerFault)
    );
    assert_eq!(
        combine(&[Ok(false), Ok(true), Err(SearchError::WorkerFault)]),
        Err(SearchError::WorkerFault)
    );
}

#[test]
fn the_first_fault_in_worker_order_is_passed_on() {
    assert_eq!(
        combine(&[Ok(true), Err(SearchError::InvalidNeedle), Err(SearchError::WorkerFault)]),
        Err(SearchError::InvalidNeedle)
    );
    assert_eq!(
        combine(&[Err(SearchError::WorkerFault), Err(SearchError::InvalidNeedle)]),
        Err(SearchError::WorkerFault)
    );
}

#[test]
fn a_short_haystack_is_searched_at_once() {
    let text = haystack(1023);
    assert!(matches!(plan_search(&text, &text[500..510], knobs(4)), Dispatch::Settled(Ok(true))));
    assert!(matches!(plan_search(&text, b"#", knobs(4)), Dispatch::Settled(Ok(false))));
    assert!(matches!(plan_search(b"", b"", knobs(4)), Dispatch::Settled(Ok(true))));
}

#[test]
fn corner_cases_of_a_long_haystack_need_no_worker() {
    let text = haystack(1024);
    let mut longer = text.clone();
    longer.push(b'x');
    let mut other = text.clone();
    other[1000] = b'#';
    assert!(matches!(plan_search(&text, b"", knobs(4)), Dispatch::Settled(Ok(true))));
    assert!(matches!(plan_search(&text, &text, knobs(4)), Dispatch::Settled(Ok(true))));
    assert!(matches!(plan_search(&text, &other, knobs(4)), Dispatch::Settled(Ok(false))));
    assert!(matches!(plan_search(&text, &longer, knobs(4)), Dispatch::Settled(Ok(false))));
}

#[test]
fn a_long_haystack_gets_a_plan() {
    let text = haystack(2000);
    match plan_search(&text, &text[700..710], knobs(4)) {
        Dispatch::Workers(plan) => {
            assert_eq!(plan.haystack_len, 2000);
            assert_eq!(plan.needle_len, 10);
            assert_eq!(
                plan.ranges,
                vec![
                    SliceRange { start: 0, end: 506 },
                    SliceRange { start: 497, end: 1004 },
                    SliceRange { start: 995, end: 1502 },
                    SliceRange { start: 1493, end: 2000 },
                ]
            );
        },
        Dispatch::Settled(result) => panic!("settled: {:?}", result),
    }
    match plan_search(&text, &text[..1999], knobs(4)) {
        Dispatch::Workers(plan) => assert_eq!(plan.ranges.len(), 2),
        Dispatch::Settled(result) => panic!("settled: {:?}", result),
    }
    let at_threshold = ParallelConfig { threshold: 2000, max_workers: 0 };
    match plan_search(&text, b"a", at_threshold) {
        Dispatch::Workers(plan) => {
            assert_eq!(plan.ranges, vec![SliceRange { start: 0, end: 2000 }])
        },
        Dispatch::Settled(result) => panic!("settled: {:?}", result),
    }
    let above = ParallelConfig { threshold: 2001, max_workers: 4 };
    assert!(matches!(plan_search(&text, b"a", above), Dispatch::Settled(Ok(true))));
}

#[test]
fn a_worker_searches_its_slice() {
    let text = b"....needle....";
    assert_eq!(search_slice(text, b"needle", SliceRange { start: 0, end: 14 }), Ok(true));
    assert_eq!(search_slice(text, b"needle", SliceRange { start: 4, end: 10 }), Ok(true));
    assert_eq!(search_slice(text, b"needle", SliceRange { start: 5, end: 14 }), Ok(false));
    assert_eq!(search_slice(text, b"needle", SliceRange { start: 0, end: 9 }), Ok(false));
    assert_eq!(search_slice(text, b"needle", SliceRange { start: 3, end: 3 }), Ok(false));
    assert_eq!(search_slice(text, b"", SliceRange { start: 3, end: 3 }), Ok(true));
}

#[test]
fn a_worker_without_a_slice_faults() {
    let text = b"....needle....";
    assert_eq!(
        search_slice(text, b"needle", SliceRange { start: 0, end: 15 }),
        Err(SearchError::WorkerFault)
    );
    assert_eq!(
        search_slice(text, b"needle", SliceRange { start: 10, end: 4 }),
        Err(SearchError::WorkerFault)
    );
    assert_eq!(
        search_slice(b"", b"", SliceRange { start: 1, end: 1 }),
        Err(SearchError::WorkerFault)
    );
}

#[test]
fn workers_run_one_by_one_give_the_verdict_of_the_whole_search() {
    let text = haystack(3000);
    let needles: Vec<Vec<u8>> = vec![
        text[..3].to_vec(),
        text[1499..1502].to_vec(),
        text[2990..].to_vec(),
        text[5..2995].to_vec(),
        b"##".to_vec(),
    ];
    let expected = [true, true, true, true, false];
    for max_workers in 1..9 {
        for (needle, &found) in needles.iter().zip(expected.iter()) {
            match plan_search(&text, needle, knobs(max_workers)) {
                Dispatch::Workers(plan) => {
                    let outcomes: Vec<Result<bool, SearchError>> = plan
                        .ranges
                        .iter()
                        .map(|&range| search_slice(&text, needle, range))
                        .collect();
                    assert!(outcomes.iter().all(|outcome| outcome.is_ok()));
                    assert_eq!(combine(&outcomes), Ok(found));
                },
                Dispatch::Settled(result) => panic!("settled: {:?}", result),
            }
        }
    }
}
