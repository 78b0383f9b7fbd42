use sort_bench::report::{push_decimal, series_line, widened};
use sort_bench::sizes::{gen_sizes, Config, MAX_SAMPLE_NANOS};

fn config(min_size: usize, max_size: usize, step: usize) -> Config {
    Config { trial_count: 1, min_size, max_size, step }
}

#[test]
fn the_standard_series_has_a_hundred_sizes() {
    let sizes = gen_sizes(&config(20, 2000, 20));
    assert_eq!(sizes.len(), 100);
    assert_eq!(sizes[0], 20);
    assert_eq!(sizes[99], 2000);
    assert!(sizes.windows(2).all(|pair| pair[1] == pair[0] + 20));
    assert_eq!(sizes, gen_sizes(&Config::standard()));
}

#[test]
fn a_series_from_zero_starts_one_step_up() {
    let sizes = gen_sizes(&config(0, 100, 25));
    assert_eq!(sizes, vec![25, 50, 75, 100]);
    assert_eq!(gen_sizes(&config(0, 7, 7)), vec![7]);
}

#[test]
fn the_series_is_the_one_of_the_standard_range() {
    for (min, max, step) in [(20usize, 2000usize, 20usize), (1, 10, 3), (5, 5, 1), (3, 20, 4), (0, 9, 2)] {
        let first = if min != 0 { min } else { min + step };
        let expected: Vec<usize> = (first..=max).step_by(step).collect();
        assert_eq!(gen_sizes(&config(min, max, step)), expected);
    }
}

#[test]
fn the_series_stops_at_the_last_size_within_the_maximum() {
    assert_eq!(gen_sizes(&config(1, 10, 4)), vec![1, 5, 9]);
    assert_eq!(gen_sizes(&config(10, 10, 3)), vec![10]);
}

#[test]
fn the_series_is_empty_where_the_first_size_is_too_great() {
    assert!(gen_sizes(&config(11, 10, 1)).is_empty());
    assert!(gen_sizes(&config(0, 4, 5)).is_empty());
    assert!(gen_sizes(&config(0, 0, 1)).is_empty());
}

#[test]
fn the_series_ends_where_the_next_size_does_not_fit() {
    let sizes = gen_sizes(&config(usize::MAX - 5, usize::MAX, 4));
    assert_eq!(sizes, vec![usize::MAX - 5, usize::MAX - 1]);
    let sizes = gen_sizes(&config(usize::MAX, usize::MAX, usize::MAX));
    assert_eq!(sizes, vec![usize::MAX]);
}

#[test]
fn the_standard_configuration() {
    let standard = Config::standard();
    assert_eq!(standard.trial_count, 2000);
    assert_eq!(standard.min_size, 20);
    assert_eq!(standard.max_size, 2000);
    assert_eq!(standard.step, 20);
}

#[test]
fn a_valid_configuration_is_made() {
    let made = Config::new(3, 0, 10, 2).unwrap();
    assert_eq!(made.trial_count, 3);
    assert_eq!(made.min_size, 0);
    assert_eq!(made.max_size, 10);
    assert_eq!(made.step, 2);
    // the first size may be above the greatest: the series is empty then
    assert!(Config::new(1, 10, 5, 1).is_some());
}

#[test]
fn a_configuration_without_trials_or_step_is_refused() {
    assert!(Config::new(0, 1, 10, 1).is_none());
    assert!(Config::new(1, 1, 10, 0).is_none());
}

#[test]
fn a_configuration_whose_totals_might_not_fit_is_refused() {
    let most = (u128::MAX / MAX_SAMPLE_NANOS) as usize;
    assert_eq!(most, 18_446_744_073);
    assert!(Config::new(most, 1, 10, 1).is_some());
    assert!(Config::new(most + 1, 1, 10, 1).is_none());
}

#[test]
fn the_greatest_sample_is_that_of_the_longest_span() {
    assert_eq!(MAX_SAMPLE_NANOS, std::time::Duration::MAX.as_nanos());
    assert_eq!(MAX_SAMPLE_NANOS, u64::MAX as u128 * 1_000_000_000 + 999_999_999);
}

#[test]
fn a_series_is_written_as_one_line() {
    assert_eq!(series_line(&[20, 40, 60]), b"20 40 60\n".to_vec());
    assert_eq!(series_line(&[0]), b"0\n".to_vec());
    assert_eq!(series_line(&[7, 0, 1005]), b"7 0 1005\n".to_vec());
}

#[test]
fn an_empty_series_is_an_empty_line() {
    assert_eq!(series_line(&[]), b"\n".to_vec());
}

#[test]
fn the_line_is_what_the_standard_library_writes() {
    let values: Vec<u128> = vec![0, 9, 10, 99, 100, 12345678901234567890, u128::MAX, 1, 1000000];
    let mut expected = values.iter().map(|v| v.to_string()).collect::<Vec<_>>().join(" ");
    expected.push('\n');
    assert_eq!(series_line(&values), expected.into_bytes());
}

#[test]
fn a_number_is_appended_in_decimal() {
    let mut out = b"x=".to_vec();
    push_decimal(&mut out, 4096);
    assert_eq!(out, b"x=4096".to_vec());
    push_decimal(&mut out, 0);
    assert_eq!(out, b"x=40960".to_vec());
    let mut out = Vec::new();
    push_decimal(&mut out, u128::MAX);
    assert_eq!(out, b"340282366920938463463374607431768211455".to_vec());
}

#[test]
fn sizes_are_widened_one_for_one() {
    assert_eq!(widened(&[20, 40, usize::MAX]), vec![20u128, 40, usize::MAX as u128]);
    assert!(widened(&[]).is_empty());
    assert_eq!(series_line(&widened(&gen_sizes(&config(0, 30, 10)))), b"10 20 30\n".to_vec());
}
