//! The aggregator on concrete repetition lists: means, the
//! single-repetition identity, and the error cases.

use fcs_flim::calculate_average_correlation;
use fcs_flim::AggregationError;

#[test]
fn single_repetition_is_its_own_mean() {
    let reps = vec![vec![7i128, 8, 9]];
    let (mean, reps_back) = calculate_average_correlation(reps.clone()).unwrap();
    assert_eq!(mean, vec![7, 8, 9]);
    assert_eq!(reps_back, reps);
}

#[test]
fn mean_of_two_repetitions() {
    let reps = vec![vec![1i128, 2, 3], vec![3, 4, 5]];
    let (mean, reps_back) = calculate_average_correlation(reps.clone()).unwrap();
    assert_eq!(mean, vec![2, 3, 4]);
    assert_eq!(reps_back, reps);
}

#[test]
fn mean_rounds_towards_zero() {
    let reps = vec![vec![1i128, -1], vec![2, -2]];
    let (mean, _) = calculate_average_correlation(reps).unwrap();
    assert_eq!(mean, vec![1, -1]);
}

#[test]
fn zero_repetitions_is_an_error() {
    let r = calculate_average_correlation(Vec::new());
    assert_eq!(r.unwrap_err(), AggregationError::NoRepetitions);
}

#[test]
fn mismatched_lengths_is_an_error() {
    let r = calculate_average_correlation(vec![vec![1i128], vec![2, 3]]);
    assert_eq!(r.unwrap_err(), AggregationError::LengthMismatch);
}

#[test]
fn accumulator_overflow_is_reported() {
    let big = i128::MAX / 2 + 1;
    let r = calculate_average_correlation(vec![vec![big], vec![big], vec![big]]);
    assert_eq!(r.unwrap_err(), AggregationError::Overflow);
}
