use qsc_generator::backend::fits;
use qsc_generator::capacity::{
    capacity_of_probe, default_format, discover, discover_raw_capacity, get_max_qr_capacity,
    safe_capacity, CapacitySearch, ProbeExhaustionError, DEFAULT_QR_CODE_VERSION,
    PROBE_UPPER_BOUND, SAFETY_MARGIN_PERCENT,
};
use qsc_generator::format::{ErrorCorrection, FormatParameter};
use qsc_generator::probe::probe_payload;

fn bisect_with(upper_bound: usize, feasible: &dyn Fn(usize) -> bool) -> (Option<usize>, Vec<usize>) {
    let mut search = CapacitySearch::new(upper_bound);
    let mut tried = Vec::new();
    while let Some(mid) = search.candidate() {
        tried.push(mid);
        search.record(feasible(mid));
    }
    (search.result(), tried)
}

#[test]
fn constants_of_the_oracle() {
    assert_eq!(DEFAULT_QR_CODE_VERSION, 8);
    assert_eq!(PROBE_UPPER_BOUND, 3000);
    assert_eq!(SAFETY_MARGIN_PERCENT, 20);
    assert_eq!(default_format(), FormatParameter { version: 8, level: ErrorCorrection::L });
}

#[test]
fn safe_capacity_takes_a_fifth_off_rounded_down() {
    assert_eq!(safe_capacity(0), 0);
    assert_eq!(safe_capacity(1), 1);
    assert_eq!(safe_capacity(4), 4);
    assert_eq!(safe_capacity(5), 4);
    assert_eq!(safe_capacity(9), 8);
    assert_eq!(safe_capacity(10), 8);
    assert_eq!(safe_capacity(100), 80);
    assert_eq!(safe_capacity(192), 154);
    assert_eq!(safe_capacity(2953), 2363);
    assert_eq!(safe_capacity(3000), 2400);
}

#[test]
fn safe_capacity_never_exceeds_the_raw_capacity() {
    for raw in (0..5000usize).chain([usize::MAX - 1, usize::MAX]) {
        let safe = safe_capacity(raw);
        assert!(safe <= raw);
        assert_eq!(safe, raw - raw / 5);
        if raw >= 1 {
            assert!(safe >= 1);
        }
    }
}

#[test]
fn safe_capacity_of_the_largest_raw_capacity() {
    assert_eq!(safe_capacity(usize::MAX), usize::MAX - usize::MAX / 5);
}

#[test]
fn bisection_finds_the_threshold_of_a_monotone_oracle() {
    for threshold in [1usize, 2, 17, 192, 1499, 1500, 1501, 2953, 2999, 3000] {
        let (best, _) = bisect_with(3000, &|n| n <= threshold);
        assert_eq!(best, Some(threshold));
    }
}

#[test]
fn bisection_tries_midpoints_from_1500_on() {
    let (best, tried) = bisect_with(3000, &|n| n <= 192);
    assert_eq!(best, Some(192));
    assert_eq!(tried, vec![1500, 750, 375, 187, 281, 234, 210, 198, 192, 195, 193]);
}

#[test]
fn bisection_with_nothing_feasible_finds_nothing() {
    let (best, tried) = bisect_with(3000, &|_| false);
    assert_eq!(best, None);
    assert_eq!(tried.last(), Some(&1));
}

#[test]
fn bisection_with_everything_feasible_finds_the_upper_bound() {
    let (best, _) = bisect_with(3000, &|_| true);
    assert_eq!(best, Some(3000));
    let (best, tried) = bisect_with(1, &|_| true);
    assert_eq!(best, Some(1));
    assert_eq!(tried, vec![1]);
}

#[test]
fn bisection_over_an_empty_window_is_over_at_once() {
    let search = CapacitySearch::new(0);
    assert_eq!(search.candidate(), None);
    assert_eq!(search.result(), None);
}

#[test]
fn bisection_result_is_feasible_and_its_successor_is_not() {
    let oracles: Vec<Box<dyn Fn(usize) -> bool>> = vec![
        Box::new(|n| n % 2 == 0),
        Box::new(|n| n % 7 != 3),
        Box::new(|n| n < 100 || (n > 1600 && n < 1700)),
        Box::new(|n| n == 1500),
        Box::new(|n| n * n % 11 < 5),
    ];
    for feasible in &oracles {
        let (best, _) = bisect_with(3000, feasible.as_ref());
        match best {
            Some(m) => {
                assert!(1 <= m && m <= 3000);
                assert!(feasible(m));
                assert!(m == 3000 || !feasible(m + 1));
            }
            None => assert!(!feasible(1)),
        }
    }
}

#[test]
fn record_moves_the_window_past_the_candidate() {
    let mut search = CapacitySearch::new(3000);
    assert_eq!(search, CapacitySearch { low: 1, high: 3000, best: None });
    assert_eq!(search.candidate(), Some(1500));
    search.record(false);
    assert_eq!(search, CapacitySearch { low: 1, high: 1499, best: None });
    assert_eq!(search.candidate(), Some(750));
    search.record(true);
    assert_eq!(search, CapacitySearch { low: 751, high: 1499, best: Some(750) });
    assert_eq!(search.candidate(), Some(1125));
}

#[test]
fn raw_capacity_of_the_default_format_is_192() {
    let format = default_format();
    assert_eq!(discover_raw_capacity(&format, PROBE_UPPER_BOUND), Some(192));
}

#[test]
fn probe_of_the_raw_capacity_fits_and_one_byte_more_does_not() {
    for (version, level) in [
        (1i16, ErrorCorrection::H),
        (2, ErrorCorrection::M),
        (8, ErrorCorrection::L),
        (8, ErrorCorrection::Q),
    ] {
        let format = FormatParameter { version, level };
        let raw = discover_raw_capacity(&format, PROBE_UPPER_BOUND).unwrap();
        assert!(fits(&probe_payload(raw), &format));
        assert!(!fits(&probe_payload(raw + 1), &format));
    }
}

#[test]
fn raw_capacity_by_version_and_level() {
    let raw = |version, level| discover_raw_capacity(&FormatParameter { version, level }, PROBE_UPPER_BOUND);
    assert_eq!(raw(1, ErrorCorrection::L), Some(17));
    assert_eq!(raw(1, ErrorCorrection::H), Some(7));
    assert_eq!(raw(8, ErrorCorrection::M), Some(152));
    assert_eq!(raw(9, ErrorCorrection::L), Some(230));
    assert_eq!(raw(9, ErrorCorrection::H), Some(98));
}

#[test]
fn raw_capacity_is_capped_by_the_upper_bound() {
    let format = default_format();
    assert_eq!(discover_raw_capacity(&format, 100), Some(100));
    assert_eq!(discover_raw_capacity(&format, 192), Some(192));
    assert_eq!(discover_raw_capacity(&format, 193), Some(192));
    assert_eq!(discover_raw_capacity(&format, 0), None);
}

#[test]
fn max_qr_capacity_is_the_safe_capacity_of_the_default_format() {
    assert_eq!(get_max_qr_capacity(), Ok(154));
    assert_eq!(get_max_qr_capacity(), Ok(safe_capacity(192)));
    assert_eq!(get_max_qr_capacity(), discover(&default_format()));
}

#[test]
fn discover_gives_the_safe_capacity() {
    assert_eq!(discover(&default_format()), Ok(154));
    assert_eq!(discover(&FormatParameter { version: 1, level: ErrorCorrection::H }), Ok(6));
    assert_eq!(discover(&FormatParameter { version: 9, level: ErrorCorrection::L }), Ok(184));
}

#[test]
fn discover_reports_probe_exhaustion_for_a_version_that_does_not_exist() {
    for version in [0i16, -1, 41, i16::MAX, i16::MIN] {
        let format = FormatParameter { version, level: ErrorCorrection::L };
        assert_eq!(discover_raw_capacity(&format, PROBE_UPPER_BOUND), None);
        assert_eq!(discover(&format), Err(ProbeExhaustionError));
    }
}

#[test]
fn probe_exhaustion_is_an_error() {
    assert_eq!(capacity_of_probe(None), Err(ProbeExhaustionError));
    assert_eq!(capacity_of_probe(Some(192)), Ok(154));
    assert_eq!(capacity_of_probe(Some(2953)), Ok(2363));
    assert_eq!(capacity_of_probe(Some(1)), Ok(1));
}

#[test]
fn discover_reports_probe_exhaustion_for_a_version_that_is_not_supported() {
    for version in [10i16, 20, 40] {
        let format = FormatParameter { version, level: ErrorCorrection::L };
        assert_eq!(discover_raw_capacity(&format, PROBE_UPPER_BOUND), None);
        assert_eq!(discover(&format), Err(ProbeExhaustionError));
    }
}

#[test]
fn bisection_over_3000_lengths_asks_at_most_12_times_and_never_twice() {
    let oracles: Vec<Box<dyn Fn(usize) -> bool>> = vec![
        Box::new(|_| true),
        Box::new(|_| false),
        Box::new(|n| n <= 192),
        Box::new(|n| n % 2 == 0),
        Box::new(|n| n % 5 < 2),
        Box::new(|n| n > 2000),
    ];
    for feasible in &oracles {
        let (_, tried) = bisect_with(3000, feasible.as_ref());
        assert!(tried.len() <= 12);
        for (i, a) in tried.iter().enumerate() {
            assert!(1 <= *a && *a <= 3000);
            for b in &tried[i + 1..] {
                assert_ne!(a, b);
            }
        }
    }
}
