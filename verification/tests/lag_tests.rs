//! The lag index generator: determinism, ordering, bounds and small exact
//! cases.

use fcs_flim::calculate_lag_index;

#[test]
fn short_trace_yields_every_offset() {
    let lags = calculate_lag_index(6);
    assert_eq!(lags, vec![0, 1, 2, 3, 4, 5]);
}

#[test]
fn trace_of_one_sample_yields_only_zero() {
    let lags = calculate_lag_index(1);
    assert_eq!(lags, vec![0]);
}

#[test]
fn generation_is_deterministic() {
    for data_length in [1u64, 2, 6, 100, 4096, 100000] {
        let a = calculate_lag_index(data_length);
        let b = calculate_lag_index(data_length);
        assert_eq!(a, b);
    }
}

#[test]
fn sequence_is_strictly_increasing_from_zero_and_bounded() {
    for data_length in [1u64, 2, 5, 17, 1000, 99999, 1_000_000] {
        let max_tau = (data_length - 1) as i64;
        let lags = calculate_lag_index(data_length);
        assert!(!lags.is_empty());
        assert_eq!(lags[0], 0);
        for w in lags.windows(2) {
            assert!(w[0] < w[1], "lag index must be strictly increasing");
        }
        for &l in &lags {
            assert!(0 <= l && l <= max_tau);
        }
    }
}

#[test]
fn pseudo_logarithmic_spacing_for_long_traces() {
    let lags = calculate_lag_index(100000);
    assert_eq!(lags[0], 0);
    assert_eq!(*lags.last().unwrap(), 99999);
    assert_eq!(lags.len(), 82);
    assert_eq!(lags[1], 1235);
}
