//! The correlation engine on concrete traces: exact rational values,
//! autocorrelation behaviour, and the silent zero for out-of-range lags.

use fcs_flim::calculate_correlation;
use fcs_flim::G2Value;

fn g2(x1: &[u32], x2: &[u32], lags: &[i64]) -> Vec<G2Value> {
    calculate_correlation(&x1.to_vec(), &x2.to_vec(), &lags.to_vec())
}

#[test]
fn autocorrelation_at_lag_zero_exact_value() {
    // n = 4, sums 10, product sum 30:
    // num = 16*30 - 4*10*10 - 4*10*10 + 4*100 = 80, den = 10*10*4 = 400.
    let v = g2(&[1, 2, 3, 4], &[1, 2, 3, 4], &[0]);
    assert_eq!(v.len(), 1);
    assert_eq!(v[0].num, 80);
    assert_eq!(v[0].den, 400);
}

#[test]
fn autocorrelation_at_lag_zero_nonnegative_and_finite() {
    for x in [
        vec![1u32, 2, 3, 4, 5, 6],
        vec![9, 1, 7, 3],
        vec![1, 1, 2],
        vec![65535, 0, 65535],
    ] {
        let v = g2(&x, &x, &[0]);
        assert!(v[0].den > 0, "denominator must be positive");
        assert!(v[0].num >= 0, "autocorrelation at lag 0 must be non-negative");
    }
}

#[test]
fn autocorrelation_of_constant_trace_is_zero() {
    let v = g2(&[5, 5, 5], &[5, 5, 5], &[0]);
    assert_eq!(v[0].num, 0);
    assert!(v[0].den > 0);
}

#[test]
fn lag_at_or_beyond_length_is_exact_zero() {
    let v = g2(&[1, 2, 3], &[1, 2, 3], &[0, 3, 5]);
    assert_eq!(v[1].num, 0);
    assert_eq!(v[1].den, 1);
    assert_eq!(v[2].num, 0);
    assert_eq!(v[2].den, 1);
}

#[test]
fn anticorrelated_pair_is_negative_at_lag_zero() {
    // n = 6, sums 21 each, product sum 56:
    // num = 36*56 - 6*21*21 - 6*21*21 + 6*441 = -630, den = 21*21*6 = 2646.
    let v = g2(&[1, 2, 3, 4, 5, 6], &[6, 5, 4, 3, 2, 1], &[0]);
    assert_eq!(v[0].num, -630);
    assert_eq!(v[0].den, 2646);
    assert!(v[0].num < 0);
}

#[test]
fn zero_mean_channel_cancels_epsilon() {
    // First trace all zero: the epsilon substitution cancels and leaves
    // -(n*B - w*S2) / (S2*w); at lag 1 for [1,3]: -(2*3 - 1*4) / (4*1).
    let v = g2(&[0, 0], &[1, 3], &[0, 1]);
    assert_eq!(v[0].num, 0);
    assert_eq!(v[0].den, 8);
    assert_eq!(v[1].num, -2);
    assert_eq!(v[1].den, 4);
}

#[test]
fn both_channels_zero_mean_yield_one() {
    let v = g2(&[0, 0, 0], &[0, 0, 0], &[0]);
    assert_eq!(v[0].num, 1);
    assert_eq!(v[0].den, 1);
}

#[test]
fn lagged_cross_correlation_exact_value() {
    // x1 = [1,2,3,4], x2 = [4,3,2,1], lag 1: window 3,
    // A = 1+2+3 = 6, B = 3+2+1 = 6, P = 3+4+3 = 10, S1 = S2 = 10:
    // num = 16*10 - 4*10*6 - 4*10*6 + 3*100 = -20, den = 10*10*3 = 300.
    let v = g2(&[1, 2, 3, 4], &[4, 3, 2, 1], &[1]);
    assert_eq!(v[0].num, -20);
    assert_eq!(v[0].den, 300);
}

#[test]
fn scaled_form_rounds_towards_zero() {
    let v = g2(&[1, 2, 3, 4, 5, 6], &[6, 5, 4, 3, 2, 1], &[0]);
    // -630/2646 scaled by 2^32, rounded towards zero.
    let expected = -((630i128 << 32) / 2646);
    assert_eq!(v[0].to_scaled(), expected);
    assert!(v[0].to_scaled() < 0);
}
