//! The correlation engine: the normalized intensity correlation g2(tau) for
//! one channel pair and one repetition, evaluated at every lag of a lag
//! index.
//!
//! For traces of length `n` with full-length sums `s1`, `s2` and a lag `tau`
//! with window `w = n - tau`, the g2 value of the measurement model is
//!
//! ```text
//!   sum_{i<w} (x1[i] - s1/n) * (x2[i+tau] - s2/n)
//!   ---------------------------------------------
//!               (s1/n) * (s2/n) * w
//! ```
//!
//! Clearing the `1/n` factors turns both numerator and denominator into
//! integers, which is how the engine evaluates them, exactly. A trace with
//! sum zero has no meaningful mean; the model substitutes an arbitrarily
//! small positive mean for it, and the substituted value cancels out of the
//! quotient, leaving the closed forms in `g2_num` and `g2_den` below.

use crate::rational::G2Value;
use vstd::prelude::*;

verus! {

/// Largest intensity count per time bin that the engine accepts.
pub const MAX_SAMPLE: u32 = 0xFFFF;

/// Largest trace length that the engine accepts.
pub const MAX_TRACE_LEN: usize = 0x4000_0000;

/// Sum of the counts of a trace.
pub open spec fn spec_sum(s: Seq<u32>) -> int
    decreases s.len(),
{
    if s.len() == 0 {
        0
    } else {
        spec_sum(s.drop_last()) + s.last()
    }
}

/// Sum of the products of two traces of equal length, index by index.
pub open spec fn spec_prod_sum(x: Seq<u32>, y: Seq<u32>) -> int
    decreases x.len(),
{
    if x.len() == 0 || x.len() != y.len() {
        0
    } else {
        spec_prod_sum(x.drop_last(), y.drop_last()) + x.last() * y.last()
    }
}

/// Numerator of g2(tau), with the denominators of the means cleared.
/// Requires `0 <= tau < x1.len() == x2.len()` to be meaningful.
pub open spec fn g2_num(x1: Seq<u32>, x2: Seq<u32>, tau: int) -> int {
    let n = x1.len() as int;
    let w = n - tau;
    let s1 = spec_sum(x1);
    let s2 = spec_sum(x2);
    let a = spec_sum(x1.take(w));
    let b = spec_sum(x2.skip(tau));
    let p = spec_prod_sum(x1.take(w), x2.skip(tau));
    if s1 > 0 && s2 > 0 {
        n * n * p - n * s2 * a - n * s1 * b + w * s1 * s2
    } else if s1 == 0 && s2 > 0 {
        -(n * b - w * s2)
    } else if s1 > 0 && s2 == 0 {
        -(n * a - w * s1)
    } else {
        1
    }
}

/// Denominator of g2(tau), positive whenever `0 <= tau < x1.len()`.
pub open spec fn g2_den(x1: Seq<u32>, x2: Seq<u32>, tau: int) -> int {
    let n = x1.len() as int;
    let w = n - tau;
    let s1 = spec_sum(x1);
    let s2 = spec_sum(x2);
    if s1 > 0 && s2 > 0 {
        s1 * s2 * w
    } else if s1 == 0 && s2 > 0 {
        s2 * w
    } else if s1 > 0 && s2 == 0 {
        s1 * w
    } else {
        1
    }
}

/// Every count of the trace is at most `cap`.
pub open spec fn all_at_most(s: Seq<u32>, cap: int) -> bool {
    forall|i: int| 0 <= i < s.len() ==> s[i] <= cap
}

/// All counts of the trace are the same.
pub open spec fn is_constant(s: Seq<u32>) -> bool {
    forall|i: int, j: int| 0 <= i < s.len() && 0 <= j < s.len() ==> s[i] == s[j]
}

/// For any centre `c`, the spread `sum (x_i - c)^2 >= 0`, expanded.
proof fn lemma_point_spread(s: Seq<u32>, c: int)
    ensures
        spec_prod_sum(s, s) - 2 * c * spec_sum(s) + s.len() * (c * c) >= 0,
    decreases s.len(),
{
    if s.len() == 0 {
    } else {
        let dl = s.drop_last();
        let y = s.last() as int;
        lemma_point_spread(dl, c);
        assert(spec_prod_sum(s, s) - 2 * c * spec_sum(s) + s.len() * (c * c) >= 0)
            by (nonlinear_arith)
            requires
                spec_prod_sum(dl, dl) - 2 * c * spec_sum(dl) + dl.len() * (c * c) >= 0,
                spec_prod_sum(s, s) == spec_prod_sum(dl, dl) + y * y,
                spec_sum(s) == spec_sum(dl) + y,
                s.len() == dl.len() + 1,
        ;
    }
}

/// The Cauchy-Schwarz inequality for a trace against itself:
/// `n * sum(x^2) >= (sum x)^2`.
pub proof fn lemma_cauchy_schwarz_self(x: Seq<u32>)
    ensures
        x.len() * spec_prod_sum(x, x) >= spec_sum(x) * spec_sum(x),
    decreases x.len(),
{
    if x.len() == 0 {
    } else {
        let dl = x.drop_last();
        let y = x.last() as int;
        lemma_cauchy_schwarz_self(dl);
        lemma_point_spread(dl, y);
        assert(x.len() * spec_prod_sum(x, x) >= spec_sum(x) * spec_sum(x)) by (nonlinear_arith)
            requires
                dl.len() * spec_prod_sum(dl, dl) >= spec_sum(dl) * spec_sum(dl),
                spec_prod_sum(dl, dl) - 2 * y * spec_sum(dl) + dl.len() * (y * y) >= 0,
                spec_prod_sum(x, x) == spec_prod_sum(dl, dl) + y * y,
                spec_sum(x) == spec_sum(dl) + y,
                x.len() == dl.len() + 1,
        ;
    }
}

/// Sum of a constant trace.
proof fn lemma_constant_sums(s: Seq<u32>, c: int)
    requires
        forall|i: int| 0 <= i < s.len() ==> s[i] == c,
    ensures
        spec_sum(s) == s.len() * c,
        spec_prod_sum(s, s) == s.len() * (c * c),
    decreases s.len(),
{
    if s.len() == 0 {
    } else {
        let dl = s.drop_last();
        lemma_constant_sums(dl, c);
        assert(dl.len() * c + c == s.len() * c) by (nonlinear_arith)
            requires
                s.len() == dl.len() + 1,
        ;
        assert(dl.len() * (c * c) + c * c == s.len() * (c * c)) by (nonlinear_arith)
            requires
                s.len() == dl.len() + 1,
        ;
    }
}

/// The autocorrelation at lag zero of a non-empty trace with a positive
/// total count is a well-defined, non-negative value: its denominator is
/// positive and its numerator non-negative. In particular it is finite, and
/// it can only be negative for distinct channels.
pub proof fn lemma_autocorrelation_at_zero_nonneg(x: Seq<u32>)
    requires
        x.len() >= 1,
        spec_sum(x) > 0,
    ensures
        g2_den(x, x, 0) > 0,
        g2_num(x, x, 0) >= 0,
{
    let n = x.len() as int;
    let s = spec_sum(x);
    let p = spec_prod_sum(x, x);
    assert(x.take(n) =~= x);
    assert(x.skip(0) =~= x);
    lemma_cauchy_schwarz_self(x);
    assert(g2_num(x, x, 0) == n * n * p - n * (s * s)) by (nonlinear_arith)
        requires
            g2_num(x, x, 0) == n * n * p - n * s * spec_sum(x.take(n)) - n * s * spec_sum(
                x.skip(0),
            ) + n * s * s,
            spec_sum(x.take(n)) == s,
            spec_sum(x.skip(0)) == s,
    ;
    assert(n * n * p - n * (s * s) >= 0) by (nonlinear_arith)
        requires
            n * p >= s * s,
            n >= 1,
    ;
    assert(g2_den(x, x, 0) == s * s * n);
    assert(s * s * n > 0) by (nonlinear_arith)
        requires
            s > 0,
            n >= 1,
    ;
}

/// The autocorrelation at lag zero of a constant trace with a positive
/// count is exactly zero: subtracting the mean cancels every term.
pub proof fn lemma_autocorrelation_at_zero_constant(x: Seq<u32>)
    requires
        x.len() >= 1,
        is_constant(x),
        x[0] > 0,
    ensures
        g2_den(x, x, 0) > 0,
        g2_num(x, x, 0) == 0,
{
    let n = x.len() as int;
    let c = x[0] as int;
    lemma_constant_sums(x, c);
    let s = spec_sum(x);
    let p = spec_prod_sum(x, x);
    assert(s > 0) by (nonlinear_arith)
        requires
            s == n * c,
            n >= 1,
            c > 0,
    ;
    assert(x.take(n) =~= x);
    assert(x.skip(0) =~= x);
    assert(n * n * p - n * s * s - n * s * s + n * s * s == 0) by (nonlinear_arith)
        requires
            s == n * c,
            p == n * (c * c),
    ;
    assert(s * s * n > 0) by (nonlinear_arith)
        requires
            s > 0,
            n >= 1,
    ;
}

/// The three window sums entering g2(tau): the windowed sum of the first
/// trace, the shifted windowed sum of the second, and their product sum.
fn window_sums(x1: &Vec<u32>, x2: &Vec<u32>, tau: usize) -> (sums: (u64, u64, u64))
    requires
        x1@.len() == x2@.len() <= MAX_TRACE_LEN,
        tau < x1@.len(),
        all_at_most(x1@, MAX_SAMPLE as int),
        all_at_most(x2@, MAX_SAMPLE as int),
    ensures
        sums.0 == spec_sum(x1@.take(x1@.len() - tau)),
        sums.1 == spec_sum(x2@.skip(tau as int)),
        sums.2 == spec_prod_sum(x1@.take(x1@.len() - tau), x2@.skip(tau as int)),
        sums.0 <= (x1@.len() - tau) * 0x1_0000,
        sums.1 <= (x1@.len() - tau) * 0x1_0000,
        sums.2 <= (x1@.len() - tau) * 0x1_0000_0000,
{
    let n = x1.len();
    let w = n - tau;
    let mut a: u64 = 0;
    let mut b: u64 = 0;
    let mut p: u64 = 0;
    let mut i: usize = 0;
    while i < w
        invariant
            x1@.len() == x2@.len() <= MAX_TRACE_LEN,
            tau < x1@.len(),
            n == x1@.len(),
            w == n - tau,
            i <= w,
            all_at_most(x1@, MAX_SAMPLE as int),
            all_at_most(x2@, MAX_SAMPLE as int),
            a == spec_sum(x1@.subrange(0, i as int)),
            b == spec_sum(x2@.subrange(tau as int, tau + i)),
            p == spec_prod_sum(x1@.subrange(0, i as int), x2@.subrange(tau as int, tau + i)),
            a <= i * 0x1_0000,
            b <= i * 0x1_0000,
            p <= i * 0x1_0000_0000,
        decreases w - i,
    {
        let ghost pre1 = x1@.subrange(0, i as int);
        let ghost pre2 = x2@.subrange(tau as int, tau + i);
        let v1 = x1[i];
        let v2 = x2[tau + i];
        proof {
            assert(x1@.subrange(0, i + 1).drop_last() =~= pre1);
            assert(x2@.subrange(tau as int, tau + i + 1).drop_last() =~= pre2);
            assert(x1@.subrange(0, i + 1).last() == v1);
            assert(x2@.subrange(tau as int, tau + i + 1).last() == v2);
            assert(i * 0x1_0000 + 0x1_0000 == (i + 1) * 0x1_0000) by (nonlinear_arith);
            assert(i * 0x1_0000_0000 + 0x1_0000_0000 == (i + 1) * 0x1_0000_0000)
                by (nonlinear_arith);
            assert(i * 0x1_0000 <= MAX_TRACE_LEN * 0x1_0000) by (nonlinear_arith)
                requires
                    0 <= i <= MAX_TRACE_LEN,
            ;
            assert(i * 0x1_0000_0000 <= MAX_TRACE_LEN * 0x1_0000_0000) by (nonlinear_arith)
                requires
                    0 <= i <= MAX_TRACE_LEN,
            ;
            assert(v1 * v2 < 0x1_0000_0000) by (nonlinear_arith)
                requires
                    0 <= v1 <= 0xFFFF,
                    0 <= v2 <= 0xFFFF,
            ;
        }
        a = a + v1 as u64;
        b = b + v2 as u64;
        p = p + (v1 as u64) * (v2 as u64);
        i = i + 1;
    }
    proof {
        assert(x1@.subrange(0, w as int) =~= x1@.take(x1@.len() - tau));
        assert(x2@.subrange(tau as int, tau + w) =~= x2@.skip(tau as int));
    }
    (a, b, p)
}

/// g2 for one pair of traces at every lag of `lag_index`, as exact
/// rationals. A lag at or beyond the trace length is reported as exactly
/// zero rather than computed.
pub fn calculate_correlation(intensity1: &Vec<u32>, intensity2: &Vec<u32>, lag_index: &Vec<i64>)
    -> (g2_values: Vec<G2Value>)
    requires
        intensity1@.len() == intensity2@.len(),
        1 <= intensity1@.len() <= MAX_TRACE_LEN,
        all_at_most(intensity1@, MAX_SAMPLE as int),
        all_at_most(intensity2@, MAX_SAMPLE as int),
        forall|k: int| 0 <= k < lag_index@.len() ==> lag_index@[k] >= 0,
    ensures
        g2_values@.len() == lag_index@.len(),
        forall|k: int|
            0 <= k < lag_index@.len() ==> (#[trigger] g2_values@[k]).wf(),
        forall|k: int|
            0 <= k < lag_index@.len() && lag_index@[k] < intensity1@.len() ==> {
                &&& (#[trigger] g2_values@[k]).num == g2_num(
                    intensity1@,
                    intensity2@,
                    lag_index@[k] as int,
                )
                &&& g2_values@[k].den == g2_den(intensity1@, intensity2@, lag_index@[k] as int)
            },
        forall|k: int|
            0 <= k < lag_index@.len() && lag_index@[k] >= intensity1@.len() ==> {
                &&& (#[trigger] g2_values@[k]).num == 0
                &&& g2_values@[k].den == 1
            },
{
    let n = intensity1.len();
    let s1 = trace_sum(intensity1);
    let s2 = trace_sum(intensity2);
    let mut g2_values: Vec<G2Value> = Vec::new();
    let mut k: usize = 0;
    while k < lag_index.len()
        invariant
            intensity1@.len() == intensity2@.len(),
            1 <= intensity1@.len() <= MAX_TRACE_LEN,
            n == intensity1@.len(),
            all_at_most(intensity1@, MAX_SAMPLE as int),
            all_at_most(intensity2@, MAX_SAMPLE as int),
            forall|j: int| 0 <= j < lag_index@.len() ==> lag_index@[j] >= 0,
            s1 == spec_sum(intensity1@),
            s2 == spec_sum(intensity2@),
            s1 <= intensity1@.len() * 0x1_0000,
            s2 <= intensity1@.len() * 0x1_0000,
            k <= lag_index@.len(),
            g2_values@.len() == k,
            forall|j: int| 0 <= j < k ==> (#[trigger] g2_values@[j]).wf(),
            forall|j: int|
                0 <= j < k && lag_index@[j] < intensity1@.len() ==> {
                    &&& (#[trigger] g2_values@[j]).num == g2_num(
                        intensity1@,
                        intensity2@,
                        lag_index@[j] as int,
                    )
                    &&& g2_values@[j].den == g2_den(intensity1@, intensity2@, lag_index@[j] as int)
                },
            forall|j: int|
                0 <= j < k && lag_index@[j] >= intensity1@.len() ==> {
                    &&& (#[trigger] g2_values@[j]).num == 0
                    &&& g2_values@[j].den == 1
                },
        decreases lag_index@.len() - k,
    {
        let tau = lag_index[k];
        if tau >= n as i64 {
            g2_values.push(G2Value::zero());
        } else {
            let value = g2_at_lag(intensity1, intensity2, tau as usize, s1, s2);
            g2_values.push(value);
        }
        k = k + 1;
    }
    g2_values
}

/// Full-length sum of one trace.
fn trace_sum(x: &Vec<u32>) -> (s: u64)
    requires
        x@.len() <= MAX_TRACE_LEN,
        all_at_most(x@, MAX_SAMPLE as int),
    ensures
        s == spec_sum(x@),
        s <= x@.len() * 0x1_0000,
{
    let mut s: u64 = 0;
    let mut i: usize = 0;
    while i < x.len()
        invariant
            x@.len() <= MAX_TRACE_LEN,
            all_at_most(x@, MAX_SAMPLE as int),
            i <= x@.len(),
            s == spec_sum(x@.subrange(0, i as int)),
            s <= i * 0x1_0000,
        decreases x@.len() - i,
    {
        let ghost pre = x@.subrange(0, i as int);
        proof {
            assert(x@.subrange(0, i + 1).drop_last() =~= pre);
            assert(x@.subrange(0, i + 1).last() == x@[i as int]);
            assert(i * 0x1_0000 + 0x1_0000 == (i + 1) * 0x1_0000) by (nonlinear_arith);
            assert(i * 0x1_0000 <= MAX_TRACE_LEN * 0x1_0000) by (nonlinear_arith)
                requires
                    0 <= i <= MAX_TRACE_LEN,
            ;
        }
        s = s + x[i] as u64;
        i = i + 1;
    }
    proof {
        assert(x@.subrange(0, x@.len() as int) =~= x@);
    }
    s
}

/// g2 at one in-range lag, given the precomputed full-length sums.
fn g2_at_lag(x1: &Vec<u32>, x2: &Vec<u32>, tau: usize, s1: u64, s2: u64) -> (value: G2Value)
    requires
        x1@.len() == x2@.len(),
        1 <= x1@.len() <= MAX_TRACE_LEN,
        tau < x1@.len(),
        all_at_most(x1@, MAX_SAMPLE as int),
        all_at_most(x2@, MAX_SAMPLE as int),
        s1 == spec_sum(x1@),
        s2 == spec_sum(x2@),
        s1 <= x1@.len() * 0x1_0000,
        s2 <= x1@.len() * 0x1_0000,
    ensures
        value.wf(),
        value.num == g2_num(x1@, x2@, tau as int),
        value.den == g2_den(x1@, x2@, tau as int),
{
    let (a, b, p) = window_sums(x1, x2, tau);
    let n = x1.len();
    let w = n - tau;
    let ni = n as i128;
    let wi = w as i128;
    let s1i = s1 as i128;
    let s2i = s2 as i128;
    let ai = a as i128;
    let bi = b as i128;
    let pi = p as i128;
    proof {
        // Plain numeric bounds on each factor, from the symbolic sum bounds.
        assert(ai <= 0x4000_0000_0000 && bi <= 0x4000_0000_0000 && pi <= 0x4000_0000_0000_0000
            && s1i <= 0x4000_0000_0000 && s2i <= 0x4000_0000_0000) by (nonlinear_arith)
            requires
                ai <= wi * 0x1_0000,
                bi <= wi * 0x1_0000,
                pi <= wi * 0x1_0000_0000,
                s1i <= ni * 0x1_0000,
                s2i <= ni * 0x1_0000,
                0 <= wi <= 0x4000_0000,
                0 <= ni <= 0x4000_0000,
        ;
        // All products entering the numerator and denominator stay below
        // 2^122, so their four-term combination stays below 2^124.
        assert(0 <= (ni * ni) * pi <= 0x400_0000_0000_0000_0000_0000_0000_0000)
            by (nonlinear_arith)
            requires
                0 <= ni <= 0x4000_0000,
                0 <= pi <= 0x4000_0000_0000_0000,
        ;
        assert(0 <= (ni * s2i) * ai <= 0x400_0000_0000_0000_0000_0000_0000_0000)
            by (nonlinear_arith)
            requires
                0 <= ni <= 0x4000_0000,
                0 <= s2i <= 0x4000_0000_0000,
                0 <= ai <= 0x4000_0000_0000,
        ;
        assert(0 <= (ni * s1i) * bi <= 0x400_0000_0000_0000_0000_0000_0000_0000)
            by (nonlinear_arith)
            requires
                0 <= ni <= 0x4000_0000,
                0 <= s1i <= 0x4000_0000_0000,
                0 <= bi <= 0x4000_0000_0000,
        ;
        assert(0 <= (wi * s1i) * s2i <= 0x400_0000_0000_0000_0000_0000_0000_0000)
            by (nonlinear_arith)
            requires
                0 <= wi <= 0x4000_0000,
                0 <= s1i <= 0x4000_0000_0000,
                0 <= s2i <= 0x4000_0000_0000,
        ;
        assert(0 <= (s1i * s2i) * wi <= 0x400_0000_0000_0000_0000_0000_0000_0000)
            by (nonlinear_arith)
            requires
                0 <= wi <= 0x4000_0000,
                0 <= s1i <= 0x4000_0000_0000,
                0 <= s2i <= 0x4000_0000_0000,
        ;
        assert(0 <= ni * bi <= 0x10_0000_0000_0000_0000_0000 && 0 <= ni * ai
            <= 0x10_0000_0000_0000_0000_0000 && 0 <= ni * ni <= 0x10_0000_0000_0000_0000_0000 && 0
            <= ni * s1i <= 0x10_0000_0000_0000_0000_0000 && 0 <= ni * s2i
            <= 0x10_0000_0000_0000_0000_0000) by (nonlinear_arith)
            requires
                0 <= ni <= 0x4000_0000,
                0 <= s1i <= 0x4000_0000_0000,
                0 <= s2i <= 0x4000_0000_0000,
                0 <= ai <= 0x4000_0000_0000,
                0 <= bi <= 0x4000_0000_0000,
        ;
        assert(0 <= wi * s2i <= 0x10_0000_0000_0000_0000_0000 && 0 <= wi * s1i
            <= 0x10_0000_0000_0000_0000_0000 && 0 <= s2i * wi <= 0x10_0000_0000_0000_0000_0000 && 0
            <= s1i * wi <= 0x10_0000_0000_0000_0000_0000 && 0 <= s1i * s2i
            <= 0x1000_0000_0000_0000_0000_0000) by (nonlinear_arith)
            requires
                0 <= wi <= 0x4000_0000,
                0 <= s1i <= 0x4000_0000_0000,
                0 <= s2i <= 0x4000_0000_0000,
        ;
    }
    if s1 > 0 && s2 > 0 {
        let num = (ni * ni) * pi - (ni * s2i) * ai - (ni * s1i) * bi + (wi * s1i) * s2i;
        let den = (s1i * s2i) * wi;
        proof {
            assert((s1i * s2i) * wi > 0) by (nonlinear_arith)
                requires
                    s1i > 0,
                    s2i > 0,
                    wi > 0,
            ;
        }
        G2Value { num, den }
    } else if s1 == 0 && s2 > 0 {
        let num = -(ni * bi - wi * s2i);
        let den = s2i * wi;
        proof {
            assert(s2i * wi > 0) by (nonlinear_arith)
                requires
                    s2i > 0,
                    wi > 0,
            ;
        }
        G2Value { num, den }
    } else if s2 == 0 && s1 > 0 {
        let num = -(ni * ai - wi * s1i);
        let den = s1i * wi;
        proof {
            assert(s1i * wi > 0) by (nonlinear_arith)
                requires
                    s1i > 0,
                    wi > 0,
            ;
        }
        G2Value { num, den }
    } else {
        G2Value { num: 1, den: 1 }
    }
}

} // verus!
