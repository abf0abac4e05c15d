//! The lag index generator: a pseudo-logarithmic sampling of lag times,
//! appropriate for correlation decay curves that span orders of magnitude.
//!
//! For a trace of `data_length` samples the last usable offset is
//! `max_tau = data_length - 1`. Candidate lags are `max_tau / 3^6` scaled by
//! `3^e` for 120 exponents `e` stepping from 2 towards 8 in increments of
//! 1/20. The engine evaluates the powers in fixed point with 40 fraction
//! bits, stepping by a 40-bit approximation of `3^(1/20)`, and rounds each
//! candidate to the nearest integer. Candidates are then sorted, duplicates
//! and values beyond `max_tau` dropped, and a leading 0 ensured.

use vstd::arithmetic::div_mod::lemma_div_is_ordered;
use vstd::arithmetic::div_mod::lemma_div_pos_is_pos;
use vstd::arithmetic::div_mod::lemma_multiply_divide_lt;
use vstd::arithmetic::mul::lemma_mul_inequality;
use vstd::multiset::Multiset;
use vstd::prelude::*;

verus! {

/// Number of candidate lags generated before sorting and deduplication.
pub const LAG_STEPS: usize = 120;

/// Fixed-point scale of the power table: 40 fraction bits.
pub const POW3_SCALE: u64 = 0x100_0000_0000;

/// `3^(1/20)` in 40-bit fixed point, rounded to nearest.
pub const POW3_STEP: u64 = 1161598090115;

/// Defensive clamp on the fixed-point powers (never reached: the table
/// tops out near `3^8` times the scale, which is far below this).
pub const POW3_CLAMP: u64 = 0x20_0000_0000_0000;

/// The divisor `3^6` in 40-bit fixed point.
pub const LAG_DIV: u64 = 729 * 0x100_0000_0000;

/// Largest `data_length` the generator accepts.
pub const MAX_DATA_LENGTH: u64 = 0x400_0000_0000;

/// The fixed-point power table: entry `k` approximates `3^(2 + k/20)`
/// scaled by `POW3_SCALE`. Marked opaque so that its recursion unfolds
/// only where a proof asks for it.
#[verifier::opaque]
pub open spec fn pow3_scaled(k: nat) -> int
    decreases k,
{
    if k == 0 {
        9 * (POW3_SCALE as int)
    } else {
        let prev = pow3_scaled((k - 1) as nat);
        let clamped = if prev > POW3_CLAMP {
            POW3_CLAMP as int
        } else {
            prev
        };
        (clamped * POW3_STEP) / (POW3_SCALE as int)
    }
}

/// Candidate lag `k` for a given `max_tau`: the scaled power divided back
/// out, rounded to nearest (half away from zero).
pub open spec fn lag_candidate(max_tau: int, k: nat) -> int {
    (max_tau * pow3_scaled(k) + LAG_DIV / 2) / (LAG_DIV as int)
}

/// The power table stays positive and below 2^54.
pub proof fn lemma_pow3_scaled_bounds(k: nat)
    ensures
        0 < pow3_scaled(k) <= 0x40_0000_0000_0000,
    decreases k,
{
    reveal(pow3_scaled);
    if k == 0 {
    } else {
        lemma_pow3_scaled_bounds((k - 1) as nat);
        let prev = pow3_scaled((k - 1) as nat);
        let clamped = if prev > POW3_CLAMP {
            POW3_CLAMP as int
        } else {
            prev
        };
        assert(0 < clamped <= POW3_CLAMP);
        lemma_mul_inequality(clamped, POW3_CLAMP as int, POW3_STEP as int);
        lemma_div_is_ordered(
            clamped * POW3_STEP,
            POW3_CLAMP * POW3_STEP,
            POW3_SCALE as int,
        );
        assert((0x20_0000_0000_0000 * 1161598090115) / 0x100_0000_0000 <= 0x40_0000_0000_0000);
        assert(clamped * POW3_STEP >= 1 * POW3_STEP) by (nonlinear_arith)
            requires
                clamped >= 1,
        ;
        lemma_div_is_ordered(POW3_STEP as int, clamped * POW3_STEP, POW3_SCALE as int);
        assert((1161598090115 as int) / 0x100_0000_0000 > 0);
    }
}

/// Candidate lags are non-negative and below 2^47 for any accepted
/// `max_tau`.
pub proof fn lemma_lag_candidate_bounds(max_tau: int, k: nat)
    requires
        0 <= max_tau < MAX_DATA_LENGTH,
    ensures
        0 <= lag_candidate(max_tau, k) < 0x8000_0000_0000,
{
    lemma_pow3_scaled_bounds(k);
    let p = pow3_scaled(k);
    assert(0 <= max_tau * p <= 0x400_0000_0000 * 0x40_0000_0000_0000) by (nonlinear_arith)
        requires
            0 <= max_tau <= 0x400_0000_0000,
            0 < p <= 0x40_0000_0000_0000,
    ;
    lemma_div_pos_is_pos(max_tau * p + LAG_DIV / 2, LAG_DIV as int);
    assert(max_tau * p + LAG_DIV / 2 < LAG_DIV * 0x8000_0000_0000) by (nonlinear_arith)
        requires
            0 <= max_tau * p <= 0x400_0000_0000 * 0x40_0000_0000_0000,
    ;
    lemma_multiply_divide_lt(max_tau * p + LAG_DIV / 2, LAG_DIV as int, 0x8000_0000_0000);
}

/// The value is one of the 120 candidate lags for `max_tau`. Closed, so
/// that the existential inside does not feed the solver's matching.
pub closed spec fn is_candidate_value(max_tau: int, v: int) -> bool {
    exists|k: nat| k < LAG_STEPS && v == #[trigger] lag_candidate(max_tau, k)
}

/// Every candidate lag satisfies `is_candidate_value`.
pub proof fn lemma_candidate_value_intro(max_tau: int, k: nat)
    requires
        k < LAG_STEPS,
    ensures
        is_candidate_value(max_tau, lag_candidate(max_tau, k)),
{
}

/// What it means for a sequence to be the lag index of a given `max_tau`:
/// strictly increasing, starting at 0, bounded by `max_tau`, holding
/// nothing but 0 and candidate lags, and holding every candidate lag that
/// does not exceed `max_tau`. Exactly one sequence satisfies this.
pub open spec fn is_lag_index_for(s: Seq<i64>, max_tau: int) -> bool {
    &&& s.len() >= 1
    &&& s[0] == 0
    &&& (forall|i: int, j: int| 0 <= i < j < s.len() ==> s[i] < s[j])
    &&& (forall|i: int| 0 <= i < s.len() ==> 0 <= #[trigger] s[i] <= max_tau)
    &&& (forall|i: int|
        0 <= i < s.len() ==> s[i] == 0 || is_candidate_value(max_tau, #[trigger] s[i] as int))
    &&& (forall|k: nat|
        k < LAG_STEPS && #[trigger] lag_candidate(max_tau, k) <= max_tau ==> s.contains(
            lag_candidate(max_tau, k) as i64,
        ))
}

/// A sequence is strictly increasing.
pub open spec fn strictly_increasing(s: Seq<i64>) -> bool {
    forall|i: int, j: int| 0 <= i < j < s.len() ==> s[i] < s[j]
}

/// Two strictly increasing sequences with the same members are equal.
proof fn lemma_strictly_increasing_unique(a: Seq<i64>, b: Seq<i64>)
    requires
        strictly_increasing(a),
        strictly_increasing(b),
        forall|v: i64| a.contains(v) <==> b.contains(v),
    ensures
        a =~= b,
    decreases a.len(),
{
    if a.len() == 0 {
        if b.len() > 0 {
            assert(b.contains(b[0]));
            assert(a.contains(b[0]));
        }
    } else {
        assert(a.contains(a[0]));
        assert(b.contains(a[0]));
        if b.len() == 0 {
            assert(!b.contains(a[0]));
        }
        let ia = choose|i: int| 0 <= i < b.len() && b[i] == a[0];
        assert(b[0] <= a[0]);
        assert(b.contains(b[0]));
        assert(a.contains(b[0]));
        let ib = choose|i: int| 0 <= i < a.len() && a[i] == b[0];
        assert(a[0] <= b[0]);
        let at = a.drop_first();
        let bt = b.drop_first();
        assert forall|v: i64| at.contains(v) implies bt.contains(v) by {
            let i = choose|i: int| 0 <= i < at.len() && at[i] == v;
            assert(a[i + 1] == v);
            assert(a.contains(v));
            assert(b.contains(v));
            let j = choose|j: int| 0 <= j < b.len() && b[j] == v;
            assert(v > a[0]);
            assert(j != 0);
            assert(bt[j - 1] == v);
        }
        assert forall|v: i64| bt.contains(v) implies at.contains(v) by {
            let i = choose|i: int| 0 <= i < bt.len() && bt[i] == v;
            assert(b[i + 1] == v);
            assert(b.contains(v));
            assert(a.contains(v));
            let j = choose|j: int| 0 <= j < a.len() && a[j] == v;
            assert(v > b[0]);
            assert(j != 0);
            assert(at[j - 1] == v);
        }
        lemma_strictly_increasing_unique(at, bt);
        assert(a =~= seq![a[0]] + at);
        assert(b =~= seq![b[0]] + bt);
    }
}

/// A member of one lag index for `max_tau` is a member of any other.
proof fn lemma_lag_member_carries(a: Seq<i64>, b: Seq<i64>, max_tau: int, v: i64)
    requires
        0 <= max_tau < MAX_DATA_LENGTH,
        is_lag_index_for(a, max_tau),
        is_lag_index_for(b, max_tau),
        a.contains(v),
    ensures
        b.contains(v),
{
    let i = choose|i: int| 0 <= i < a.len() && a[i] == v;
    if v == 0 {
        assert(b[0] == 0);
        assert(b.contains(v));
    } else {
        assert(is_candidate_value(max_tau, a[i] as int));
        let k = choose|k: nat| k < LAG_STEPS && a[i] as int == #[trigger] lag_candidate(
            max_tau,
            k,
        );
        lemma_lag_candidate_bounds(max_tau, k);
        assert(lag_candidate(max_tau, k) <= max_tau);
        assert(b.contains(lag_candidate(max_tau, k) as i64));
        assert(lag_candidate(max_tau, k) as i64 == v);
    }
}

/// The lag index of a given `max_tau` is unique: any two sequences with
/// the defining properties are equal. Together with `calculate_lag_index`'s
/// contract this makes the generator deterministic.
pub proof fn lemma_lag_index_deterministic(a: Seq<i64>, b: Seq<i64>, max_tau: int)
    requires
        0 <= max_tau < MAX_DATA_LENGTH,
        is_lag_index_for(a, max_tau),
        is_lag_index_for(b, max_tau),
    ensures
        a =~= b,
{
    assert forall|v: i64| a.contains(v) <==> b.contains(v) by {
        if a.contains(v) {
            lemma_lag_member_carries(a, b, max_tau, v);
        }
        if b.contains(v) {
            lemma_lag_member_carries(b, a, max_tau, v);
        }
    }
    lemma_strictly_increasing_unique(a, b);
}

/// A sequence is ordered, smallest first, duplicates allowed.
pub open spec fn non_decreasing(s: Seq<i64>) -> bool {
    forall|i: int, j: int| 0 <= i <= j < s.len() ==> s[i] <= s[j]
}

/// Orders the candidate lags, smallest first, keeping exactly the given
/// values.
fn sort_lags(values: Vec<i64>) -> (sorted: Vec<i64>)
    ensures
        non_decreasing(sorted@),
        sorted@.to_multiset() == values@.to_multiset(),
        forall|v: i64| sorted@.contains(v) <==> values@.contains(v),
{
    let mut work = values;
    let mut out: Vec<i64> = Vec::new();
    proof {
        broadcast use vstd::seq_lib::group_to_multiset_ensures;

        assert(out@.to_multiset().add(work@.to_multiset()) =~~= values@.to_multiset());
    }
    while work.len() > 0
        invariant
            out@.to_multiset().add(work@.to_multiset()) == values@.to_multiset(),
            non_decreasing(out@),
            forall|k: int, j: int|
                0 <= k < out@.len() && 0 <= j < work@.len() ==> out@[k] <= work@[j],
        decreases work.len(),
    {
        let mut m: usize = 0;
        let mut i: usize = 1;
        while i < work.len()
            invariant
                m < i <= work.len() || (i <= work.len() && m == 0),
                m < work.len(),
                work.len() > 0,
                forall|j: int| 0 <= j < i ==> work@[m as int] <= work@[j],
            decreases work.len() - i,
        {
            if work[i] < work[m] {
                m = i;
            }
            i = i + 1;
        }
        let ghost prev_work = work@;
        let ghost prev_out = out@;
        let x = work.remove(m);
        out.push(x);
        proof {
            broadcast use vstd::seq_lib::group_to_multiset_ensures;

            assert(work@.to_multiset() =~~= prev_work.to_multiset().remove(x));
            assert(out@.to_multiset() =~~= prev_out.to_multiset().insert(x));
            assert(prev_work.to_multiset().contains(x));
            assert(out@.to_multiset().add(work@.to_multiset()) =~~= prev_out.to_multiset().add(
                prev_work.to_multiset(),
            ));
        }
    }
    proof {
        broadcast use vstd::seq_lib::group_to_multiset_ensures;

        assert(work@.to_multiset() =~~= Multiset::<i64>::empty());
        assert(out@.to_multiset() =~~= values@.to_multiset());
        assert forall|v: i64| out@.contains(v) <==> values@.contains(v) by {
            assert(out@.contains(v) <==> out@.to_multiset().count(v) > 0);
            assert(values@.contains(v) <==> values@.to_multiset().count(v) > 0);
        }
    }
    out
}

/// The lag index for a trace of `data_length` samples: the candidate lags,
/// ordered and deduplicated, clipped to `max_tau = data_length - 1`, with a
/// leading 0 ensured. The contract pins the result completely (see
/// `lemma_lag_index_deterministic`), so the generator is deterministic.
pub fn calculate_lag_index(data_length: u64) -> (lag_index: Vec<i64>)
    requires
        1 <= data_length <= MAX_DATA_LENGTH,
    ensures
        is_lag_index_for(lag_index@, data_length - 1),
{
    let max_tau: u64 = data_length - 1;
    let ghost mt = max_tau as int;
    let mut candidates: Vec<i64> = Vec::new();
    let mut p: u64 = 9 * POW3_SCALE;
    let mut k: usize = 0;
    proof {
        reveal(pow3_scaled);
        assert(p == pow3_scaled(0));
    }
    while k < LAG_STEPS
        invariant
            1 <= data_length <= MAX_DATA_LENGTH,
            max_tau == data_length - 1,
            mt == max_tau as int,
            k <= LAG_STEPS,
            p == pow3_scaled(k as nat),
            candidates@.len() == k,
            forall|j: int|
                0 <= j < k ==> candidates@[j] == lag_candidate(mt, j as nat) && 0
                    <= #[trigger] candidates@[j] < 0x8000_0000_0000,
        decreases LAG_STEPS - k,
    {
        proof {
            lemma_pow3_scaled_bounds(k as nat);
            lemma_lag_candidate_bounds(mt, k as nat);
            assert(max_tau * p <= 0x400_0000_0000 * 0x40_0000_0000_0000) by (nonlinear_arith)
                requires
                    0 <= max_tau <= 0x400_0000_0000,
                    0 <= p <= 0x40_0000_0000_0000,
            ;
        }
        let prod: u128 = (max_tau as u128) * (p as u128);
        let num: u128 = prod + (LAG_DIV / 2) as u128;
        let c: u128 = num / (LAG_DIV as u128);
        proof {
            assert(c == lag_candidate(mt, k as nat));
        }
        candidates.push(c as i64);
        let clamped = if p > POW3_CLAMP {
            POW3_CLAMP
        } else {
            p
        };
        proof {
            assert(clamped * POW3_STEP <= 0x20_0000_0000_0000 * 1161598090115)
                by (nonlinear_arith)
                requires
                    0 <= clamped <= 0x20_0000_0000_0000,
            ;
            lemma_pow3_scaled_bounds((k + 1) as nat);
            reveal(pow3_scaled);
        }
        p = ((clamped as u128) * (POW3_STEP as u128) / (POW3_SCALE as u128)) as u64;
        k = k + 1;
    }
    let sorted = sort_lags(candidates);
    let ghost sorted_view = sorted@;
    proof {
        assert forall|j: int| 0 <= j < sorted@.len() implies 0 <= #[trigger] sorted@[j] by {
            assert(sorted@.contains(sorted@[j]));
            assert(candidates@.contains(sorted@[j]));
            let j1 = choose|j1: int|
                0 <= j1 < candidates@.len() && candidates@[j1] == sorted@[j];
        }
    }
    let mut out: Vec<i64> = Vec::new();
    let mut idx: usize = 0;
    let max_tau_i64 = max_tau as i64;
    while idx < sorted.len()
        invariant
            sorted@ == sorted_view,
            non_decreasing(sorted@),
            forall|j: int| 0 <= j < sorted@.len() ==> 0 <= #[trigger] sorted@[j],
            idx <= sorted@.len(),
            max_tau_i64 == mt,
            0 <= mt,
            strictly_increasing(out@),
            forall|j: int|
                0 <= j < out@.len() ==> 0 <= #[trigger] out@[j] <= mt && sorted@.subrange(
                    0,
                    idx as int,
                ).contains(out@[j]),
            forall|j: int|
                0 <= j < idx && #[trigger] sorted@[j] <= mt ==> out@.contains(sorted@[j]),
        decreases sorted@.len() - idx,
    {
        let c = sorted[idx];
        let ghost pre = sorted@.subrange(0, idx as int);
        let ghost old_out = out@;
        if c <= max_tau_i64 {
            let push_it: bool = if out.len() == 0 {
                true
            } else {
                c > out[out.len() - 1]
            };
            if push_it {
                out.push(c);
                proof {
                    assert(out@[out@.len() - 1] == c);
                    assert(out@.contains(c));
                }
            } else {
                proof {
                    let last = out@[out@.len() - 1];
                    assert(pre.contains(last));
                    let j0 = choose|j0: int| 0 <= j0 < pre.len() && pre[j0] == last;
                    assert(sorted@[j0] == last);
                    assert(sorted@[j0] <= sorted@[idx as int]);
                    assert(c == last);
                    assert(out@.contains(c));
                }
            }
        }
        proof {
            assert(sorted@.subrange(0, idx + 1).drop_last() =~= pre);
            assert forall|v: i64| old_out.contains(v) implies out@.contains(v) by {
                let j1 = choose|j1: int| 0 <= j1 < old_out.len() && old_out[j1] == v;
                assert(out@[j1] == v);
            }
            assert forall|j: int|
                0 <= j < out@.len() implies 0 <= #[trigger] out@[j] <= mt
                && sorted@.subrange(0, idx + 1).contains(out@[j]) by {
                if j < old_out.len() {
                    assert(pre.contains(out@[j]));
                    let j1 = choose|j1: int| 0 <= j1 < pre.len() && pre[j1] == out@[j];
                    assert(sorted@.subrange(0, idx + 1)[j1] == out@[j]);
                } else {
                    assert(out@[j] == sorted@[idx as int]);
                    assert(sorted@.subrange(0, idx + 1)[idx as int] == out@[j]);
                }
            }
            assert forall|j: int|
                0 <= j < idx + 1 && #[trigger] sorted@[j] <= mt implies out@.contains(
                sorted@[j],
            ) by {
                if j < idx {
                    assert(old_out.contains(sorted@[j]));
                } else {
                    assert(sorted@[j] == c);
                    assert(out@.contains(c));
                }
            }
        }
        idx = idx + 1;
    }
    proof {
        assert(sorted@.subrange(0, sorted@.len() as int) =~= sorted@);
    }
    let ghost dedup_view = out@;
    if out.len() == 0 {
        out.push(0);
    } else {
        let first = out[0];
        if first != 0 {
            out.insert(0, 0);
        }
    }
    proof {
        assert(out@.len() >= 1 && out@[0] == 0);
        assert forall|i: int|
            0 <= i < out@.len() implies out@[i] == 0 || is_candidate_value(
            mt,
            #[trigger] out@[i] as int,
        ) by {
            if out@[i] != 0 {
                assert(sorted_view.contains(out@[i]));
                assert(candidates@.contains(out@[i]));
                let j = choose|j: int| 0 <= j < candidates@.len() && candidates@[j] == out@[i];
                assert(candidates@[j] == lag_candidate(mt, j as nat));
                lemma_candidate_value_intro(mt, j as nat);
            }
        }
        assert forall|kk: nat|
            kk < LAG_STEPS && #[trigger] lag_candidate(mt, kk) <= mt implies out@.contains(
            lag_candidate(mt, kk) as i64,
        ) by {
            lemma_lag_candidate_bounds(mt, kk);
            let cv = lag_candidate(mt, kk) as i64;
            assert(candidates@[kk as int] == cv);
            assert(candidates@.contains(cv));
            assert(sorted_view.contains(cv));
            let j = choose|j: int| 0 <= j < sorted_view.len() && sorted_view[j] == cv;
            if cv == 0 {
                assert(out@[0] == cv);
                assert(out@.contains(cv));
            } else {
                assert(dedup_view.contains(cv));
                let j2 = choose|j2: int| 0 <= j2 < dedup_view.len() && dedup_view[j2] == cv;
                if out@.len() == dedup_view.len() {
                    assert(out@[j2] == cv);
                } else {
                    dedup_view.insert_ensures(0, 0);
                    assert(out@[j2 + 1] == cv);
                }
                assert(out@.contains(cv));
            }
        }
    }
    out
}

} // verus!

