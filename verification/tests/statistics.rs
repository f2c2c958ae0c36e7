use speedtracker::numeric::{apply_divisor, format_milli, format_milli_json, isqrt};
use speedtracker::stats::{
    average, compute_statistics, median, sort_values, standard_deviation, StatisticsError,
};

#[test]
fn median_takes_upper_middle_of_even_list() {
    // For [1, 2, 3, 4] the element at index len/2 = 2 of the sorted
    // list is 3 — the upper median, not the averaged 2.5.
    let values: Vec<u64> = vec![1, 2, 3, 4];
    assert_eq!(median(&values), 3);
}

#[test]
fn median_of_odd_list() {
    let values: Vec<u64> = vec![9, 1, 5];
    assert_eq!(median(&values), 5);
}

#[test]
fn median_ignores_input_order() {
    let values: Vec<u64> = vec![4, 1, 3, 2];
    assert_eq!(median(&values), 3);
}

#[test]
fn sort_values_sorts_ascending() {
    let values: Vec<u64> = vec![5, 3, 8, 1, 3];
    assert_eq!(sort_values(&values), vec![1, 3, 3, 5, 8]);
}

#[test]
fn average_is_exact_mean() {
    // [2, 4, 4, 4, 5, 5, 7, 9] in milli-units: mean 5.0.
    let values: Vec<u64> = vec![2000, 4000, 4000, 4000, 5000, 5000, 7000, 9000];
    assert_eq!(average(&values), 5000);
}

#[test]
fn average_rounds_half_up() {
    let values: Vec<u64> = vec![1, 2];
    // 1.5 rounds up to 2.
    assert_eq!(average(&values), 2);
}

#[test]
fn standard_deviation_is_population_form() {
    // [2, 4, 4, 4, 5, 5, 7, 9]: mean 5.0, population standard
    // deviation sqrt(32/8) = 2.0 — dividing by N, not N-1.
    let values: Vec<u64> = vec![2000, 4000, 4000, 4000, 5000, 5000, 7000, 9000];
    let avg = average(&values);
    assert_eq!(avg, 5000);
    assert_eq!(standard_deviation(&values, avg), 2000);
}

#[test]
fn compute_statistics_over_the_classic_list() {
    let values: Vec<u64> = vec![2000, 4000, 4000, 4000, 5000, 5000, 7000, 9000];
    let st = compute_statistics(&values, 1).unwrap();
    assert_eq!(st.median, 5000);
    assert_eq!(st.average, 5000);
    assert_eq!(st.standard_deviation, 2000);
}

#[test]
fn empty_input_signals_the_designed_error() {
    // No index fault and no division by zero: the typed error.
    let values: Vec<u64> = vec![];
    match compute_statistics(&values, 1) {
        Err(StatisticsError::EmptyInput) => {}
        other => panic!("expected EmptyInput, got {:?}", other),
    }
}

#[test]
fn unit_conversion_reports_megabits() {
    // 250000000.0 bits/s with divisor 1000000.0 reports as 250.0.
    let bits_per_sec_milli: u64 = 250_000_000_000;
    let converted = apply_divisor(bits_per_sec_milli, 1_000_000);
    assert_eq!(converted, 250_000);
    assert_eq!(format_milli(converted), "250");
    assert_eq!(format_milli_json(converted), "250.0");
}

#[test]
fn divisor_one_is_identity() {
    assert_eq!(apply_divisor(30_000, 1), 30_000);
}

#[test]
fn format_milli_trims_trailing_zeros() {
    assert_eq!(format_milli(2_500), "2.5");
    assert_eq!(format_milli(2_050), "2.05");
    assert_eq!(format_milli(2_005), "2.005");
    assert_eq!(format_milli(25), "0.025");
    assert_eq!(format_milli(0), "0");
    assert_eq!(format_milli_json(0), "0.0");
    assert_eq!(format_milli_json(2_500), "2.5");
}

#[test]
fn isqrt_is_exact_on_squares_and_floors_otherwise() {
    assert_eq!(isqrt(0), 0);
    assert_eq!(isqrt(1), 1);
    assert_eq!(isqrt(4_000_000), 2000);
    assert_eq!(isqrt(4_000_001), 2000);
    assert_eq!(isqrt(3_999_999), 1999);
}
