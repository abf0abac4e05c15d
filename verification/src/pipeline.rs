//! The single-acquisition computation: for every requested channel pair
//! and every repetition, the g2 correlation over the lag index derived
//! from the acquisition's record count.
//!
//! A pair whose channels have no traces is skipped and reported, and the
//! other pairs are still computed. Traces of unequal length are correlated
//! over the overlapping region only; a repetition with no overlap at all
//! yields the silent all-zero vector that out-of-range lags produce.

use crate::correlation::all_at_most;
use crate::correlation::calculate_correlation;
use crate::correlation::g2_den;
use crate::correlation::g2_num;
use crate::correlation::MAX_SAMPLE;
use crate::correlation::MAX_TRACE_LEN;
use crate::dataset::dataset_view;
use crate::dataset::dataset_wf;
use crate::dataset::view_idx;
use crate::dataset::ChannelDataset;
use crate::lag::calculate_lag_index;
use crate::lag::is_lag_index_for;
use crate::lag::MAX_DATA_LENGTH;
use crate::rational::spec_to_scaled;
use crate::rational::G2Value;
use vstd::math::min;
use vstd::prelude::*;

verus! {

/// Every trace in the dataset respects the correlation engine's limits.
pub open spec fn dataset_bounded(m: Seq<(u8, Seq<Seq<u32>>)>) -> bool {
    forall|i: int, r: int|
        0 <= i < m.len() && 0 <= r < m[i].1.len() ==> {
            &&& (#[trigger] m[i].1[r]).len() <= MAX_TRACE_LEN
            &&& all_at_most(m[i].1[r], MAX_SAMPLE as int)
        }
}

/// The fixed-point g2 vector of one repetition: the two traces trimmed to
/// their overlap, correlated at every lag, out-of-range lags left at zero.
pub open spec fn rep_g2_scaled(t1: Seq<u32>, t2: Seq<u32>, lags: Seq<i64>) -> Seq<i128> {
    let l = min(t1.len() as int, t2.len() as int);
    Seq::new(
        lags.len(),
        |x: int|
            (if 0 <= lags[x] < l {
                spec_to_scaled(
                    g2_num(t1.take(l), t2.take(l), lags[x] as int),
                    g2_den(t1.take(l), t2.take(l), lags[x] as int),
                )
            } else {
                0
            }) as i128,
    )
}

/// Both channels of the pair are ids with traces in the dataset.
pub open spec fn pair_usable(m: Seq<(u8, Seq<Seq<u32>>)>, p: (usize, usize)) -> bool {
    &&& p.0 <= 255
    &&& p.1 <= 255
    &&& view_idx(m, p.0 as u8) >= 0
    &&& view_idx(m, p.1 as u8) >= 0
}

/// All repetitions of one usable pair, in acquisition order.
pub open spec fn pair_result(m: Seq<(u8, Seq<Seq<u32>>)>, p: (usize, usize), lags: Seq<i64>)
    -> Seq<Seq<i128>> {
    let r1 = m[view_idx(m, p.0 as u8)].1;
    let r2 = m[view_idx(m, p.1 as u8)].1;
    Seq::new(
        min(r1.len() as int, r2.len() as int) as nat,
        |j: int| rep_g2_scaled(r1[j], r2[j], lags),
    )
}

/// The computed pairs, in request order, usable pairs only.
pub open spec fn calc_results(
    corrs: Seq<(usize, usize)>,
    m: Seq<(u8, Seq<Seq<u32>>)>,
    lags: Seq<i64>,
) -> Seq<((usize, usize), Seq<Seq<i128>>)>
    decreases corrs.len(),
{
    if corrs.len() == 0 {
        Seq::empty()
    } else {
        let pre = calc_results(corrs.drop_last(), m, lags);
        if pair_usable(m, corrs.last()) {
            pre.push((corrs.last(), pair_result(m, corrs.last(), lags)))
        } else {
            pre
        }
    }
}

/// The skipped pairs, in request order.
pub open spec fn calc_skipped(corrs: Seq<(usize, usize)>, m: Seq<(u8, Seq<Seq<u32>>)>) -> Seq<
    (usize, usize),
>
    decreases corrs.len(),
{
    if corrs.len() == 0 {
        Seq::empty()
    } else {
        let pre = calc_skipped(corrs.drop_last(), m);
        if pair_usable(m, corrs.last()) {
            pre
        } else {
            pre.push(corrs.last())
        }
    }
}

/// The mathematical shape of a computed result list.
pub open spec fn results_view(s: Seq<((usize, usize), Vec<Vec<i128>>)>) -> Seq<
    ((usize, usize), Seq<Seq<i128>>),
> {
    s.map_values(|e: ((usize, usize), Vec<Vec<i128>>)| (e.0, e.1@.map_values(|v: Vec<i128>| v@)))
}

/// What one computation pass returns: the lag index, one entry per usable
/// pair, and the pairs that had to be skipped.
pub struct FcsComputeOutput {
    pub lag_index: Vec<i64>,
    pub g2_correlations: Vec<((usize, usize), Vec<Vec<i128>>)>,
    pub skipped: Vec<(usize, usize)>,
}

/// The first `l` values of a trace.
fn trim_trace(t: &Vec<u32>, l: usize) -> (r: Vec<u32>)
    requires
        l <= t@.len(),
    ensures
        r@ == t@.take(l as int),
{
    let mut r: Vec<u32> = Vec::new();
    let mut i: usize = 0;
    while i < l
        invariant
            l <= t@.len(),
            i <= l,
            r@ =~= t@.take(i as int),
        decreases l - i,
    {
        r.push(t[i]);
        i = i + 1;
    }
    proof {
        assert(r@ =~= t@.take(l as int));
    }
    r
}

/// The fixed-point g2 vector of one repetition.
fn compute_rep(t1: &Vec<u32>, t2: &Vec<u32>, lag_index: &Vec<i64>) -> (out: Vec<i128>)
    requires
        t1@.len() <= MAX_TRACE_LEN,
        t2@.len() <= MAX_TRACE_LEN,
        all_at_most(t1@, MAX_SAMPLE as int),
        all_at_most(t2@, MAX_SAMPLE as int),
        forall|x: int| 0 <= x < lag_index@.len() ==> #[trigger] lag_index@[x] >= 0,
    ensures
        out@ == rep_g2_scaled(t1@, t2@, lag_index@),
{
    let l = if t1.len() < t2.len() {
        t1.len()
    } else {
        t2.len()
    };
    if l == 0 {
        let mut out: Vec<i128> = Vec::new();
        let mut x: usize = 0;
        while x < lag_index.len()
            invariant
                x <= lag_index@.len(),
                out@.len() == x,
                forall|y: int| 0 <= y < x ==> #[trigger] out@[y] == 0,
            decreases lag_index@.len() - x,
        {
            out.push(0);
            x = x + 1;
        }
        proof {
            assert(out@ =~= rep_g2_scaled(t1@, t2@, lag_index@));
        }
        return out;
    }
    let t1c = trim_trace(t1, l);
    let t2c = trim_trace(t2, l);
    proof {
        assert forall|x: int| 0 <= x < t1c@.len() implies #[trigger] t1c@[x] <= MAX_SAMPLE by {
            assert(t1c@[x] == t1@[x]);
        }
        assert forall|x: int| 0 <= x < t2c@.len() implies #[trigger] t2c@[x] <= MAX_SAMPLE by {
            assert(t2c@[x] == t2@[x]);
        }
    }
    let g2v = calculate_correlation(&t1c, &t2c, lag_index);
    let mut out: Vec<i128> = Vec::new();
    let mut x: usize = 0;
    while x < g2v.len()
        invariant
            g2v@.len() == lag_index@.len(),
            t1c@ == t1@.take(l as int),
            t2c@ == t2@.take(l as int),
            1 <= l <= t1@.len(),
            l <= t2@.len(),
            l == min(t1@.len() as int, t2@.len() as int),
            forall|y: int| 0 <= y < lag_index@.len() ==> #[trigger] lag_index@[y] >= 0,
            forall|y: int| 0 <= y < g2v@.len() ==> (#[trigger] g2v@[y]).wf(),
            forall|y: int|
                0 <= y < g2v@.len() && lag_index@[y] < l ==> {
                    &&& (#[trigger] g2v@[y]).num == g2_num(t1c@, t2c@, lag_index@[y] as int)
                    &&& g2v@[y].den == g2_den(t1c@, t2c@, lag_index@[y] as int)
                },
            forall|y: int|
                0 <= y < g2v@.len() && lag_index@[y] >= l ==> (#[trigger] g2v@[y]).num == 0
                    && g2v@[y].den == 1,
            x <= g2v@.len(),
            out@.len() == x,
            forall|y: int|
                0 <= y < x ==> #[trigger] out@[y] == rep_g2_scaled(t1@, t2@, lag_index@)[y],
        decreases g2v@.len() - x,
    {
        let s = g2v[x].to_scaled();
        proof {
            if lag_index@[x as int] >= l {
                assert(spec_to_scaled(0, 1) == 0) by {
                    assert((0 * crate::rational::G2_SCALE) / 1 == 0);
                }
            }
        }
        out.push(s);
        x = x + 1;
    }
    proof {
        assert(out@ =~= rep_g2_scaled(t1@, t2@, lag_index@));
    }
    out
}

/// All repetitions of one pair, or `None` if either channel has no traces.
fn compute_pair(
    intensities: &ChannelDataset,
    p: (usize, usize),
    lag_index: &Vec<i64>,
) -> (out: Option<Vec<Vec<i128>>>)
    requires
        dataset_wf(*intensities),
        dataset_bounded(dataset_view(*intensities)),
        forall|x: int| 0 <= x < lag_index@.len() ==> #[trigger] lag_index@[x] >= 0,
    ensures
        out is Some <==> pair_usable(dataset_view(*intensities), p),
        match out {
            Some(v) => v@.map_values(|r: Vec<i128>| r@) == pair_result(
                dataset_view(*intensities),
                p,
                lag_index@,
            ),
            None => true,
        },
{
    let ghost m = dataset_view(*intensities);
    if p.0 > 255 || p.1 > 255 {
        return None;
    }
    let reps1 = match intensities.get(p.0 as u8) {
        Some(r) => r,
        None => {
            return None;
        },
    };
    let reps2 = match intensities.get(p.1 as u8) {
        Some(r) => r,
        None => {
            return None;
        },
    };
    let ghost i1 = view_idx(m, p.0 as u8);
    let ghost i2 = view_idx(m, p.1 as u8);
    proof {
        crate::dataset::lemma_view_idx(m, p.0 as u8);
        crate::dataset::lemma_view_idx(m, p.1 as u8);
    }
    let n = if reps1.len() < reps2.len() {
        reps1.len()
    } else {
        reps2.len()
    };
    let mut v: Vec<Vec<i128>> = Vec::new();
    let mut j: usize = 0;
    while j < n
        invariant
            dataset_wf(*intensities),
            dataset_bounded(m),
            m == dataset_view(*intensities),
            forall|x: int| 0 <= x < lag_index@.len() ==> #[trigger] lag_index@[x] >= 0,
            0 <= i1 < m.len(),
            0 <= i2 < m.len(),
            reps1@.map_values(|t: Vec<u32>| t@) == m[i1].1,
            reps2@.map_values(|t: Vec<u32>| t@) == m[i2].1,
            n == min(m[i1].1.len() as int, m[i2].1.len() as int),
            n <= reps1@.len(),
            n <= reps2@.len(),
            j <= n,
            v@.len() == j,
            forall|y: int|
                0 <= y < j ==> (#[trigger] v@[y])@ == rep_g2_scaled(
                    m[i1].1[y],
                    m[i2].1[y],
                    lag_index@,
                ),
        decreases n - j,
    {
        proof {
            assert(m[i1].1[j as int] == reps1@[j as int]@);
            assert(m[i2].1[j as int] == reps2@[j as int]@);
        }
        let rep = compute_rep(&reps1[j], &reps2[j], lag_index);
        v.push(rep);
        j = j + 1;
    }
    proof {
        assert(v@.map_values(|r: Vec<i128>| r@) =~= pair_result(m, p, lag_index@));
    }
    Some(v)
}

/// One full computation pass: derives the lag index from the acquisition's
/// record count, and correlates every requested pair over every
/// repetition. Pairs whose channels are absent are skipped and listed.
pub fn fluorescence_correlation_spectroscopy_calc(
    correlations: &Vec<(usize, usize)>,
    intensities: &ChannelDataset,
    data_length: u64,
) -> (out: FcsComputeOutput)
    requires
        dataset_wf(*intensities),
        dataset_bounded(dataset_view(*intensities)),
        1 <= data_length <= MAX_DATA_LENGTH,
    ensures
        is_lag_index_for(out.lag_index@, data_length - 1),
        results_view(out.g2_correlations@) == calc_results(
            correlations@,
            dataset_view(*intensities),
            out.lag_index@,
        ),
        out.skipped@ == calc_skipped(correlations@, dataset_view(*intensities)),
{
    let ghost m = dataset_view(*intensities);
    let lag_index = calculate_lag_index(data_length);
    let mut g2_correlations: Vec<((usize, usize), Vec<Vec<i128>>)> = Vec::new();
    let mut skipped: Vec<(usize, usize)> = Vec::new();
    let mut i: usize = 0;
    while i < correlations.len()
        invariant
            dataset_wf(*intensities),
            dataset_bounded(m),
            m == dataset_view(*intensities),
            is_lag_index_for(lag_index@, data_length - 1),
            forall|x: int| 0 <= x < lag_index@.len() ==> #[trigger] lag_index@[x] >= 0,
            i <= correlations@.len(),
            results_view(g2_correlations@) == calc_results(
                correlations@.take(i as int),
                m,
                lag_index@,
            ),
            skipped@ == calc_skipped(correlations@.take(i as int), m),
        decreases correlations@.len() - i,
    {
        let p = correlations[i];
        let ghost pre = correlations@.take(i as int);
        proof {
            assert(correlations@.take(i + 1).drop_last() =~= pre);
            assert(correlations@.take(i + 1).last() == p);
        }
        match compute_pair(intensities, p, &lag_index) {
            Some(v) => {
                g2_correlations.push((p, v));
                proof {
                    assert(results_view(g2_correlations@) =~= calc_results(
                        correlations@.take(i + 1),
                        m,
                        lag_index@,
                    ));
                }
            },
            None => {
                skipped.push(p);
                proof {
                    assert(skipped@ =~= calc_skipped(correlations@.take(i + 1), m));
                }
            },
        }
        i = i + 1;
    }
    proof {
        assert(correlations@.take(correlations@.len() as int) =~= correlations@);
    }
    FcsComputeOutput { lag_index, g2_correlations, skipped }
}

} // verus!
