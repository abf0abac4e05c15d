//! Cross-acquisition aggregation: the element-wise arithmetic mean of the
//! g2 vectors recorded for one channel pair.
//!
//! The vectors aggregated here hold fixed-point g2 values (see
//! `crate::rational::G2_SCALE`); the mean of each column is their exact sum
//! divided by the number of repetitions, rounded towards zero.

use crate::rational::G2_SCALED_CAP;
use vstd::prelude::*;

verus! {

/// Why an aggregation pass failed. Zero repetitions and repetitions of
/// different lengths violate the aggregator's input contract; an
/// accumulator overflow can only happen for inputs far outside the range
/// the correlation engine produces.
#[derive(Debug, Clone, Copy, PartialEq, Eq, Structural)]
pub enum AggregationError {
    NoRepetitions,
    LengthMismatch,
    Overflow,
}

/// The views of a list of vectors.
pub open spec fn vec_views(s: Seq<Vec<i128>>) -> Seq<Seq<i128>> {
    s.map_values(|v: Vec<i128>| v@)
}

/// Sum of column `j` across all repetitions.
pub open spec fn column_sum(s: Seq<Seq<i128>>, j: int) -> int
    decreases s.len(),
{
    if s.len() == 0 {
        0
    } else {
        column_sum(s.drop_last(), j) + s.last()[j]
    }
}

/// Integer division rounding towards zero.
pub open spec fn div_trunc(s: int, k: int) -> int {
    if s >= 0 {
        s / k
    } else {
        -((-s) / k)
    }
}

/// All repetitions have the length of the first one.
pub open spec fn uniform_width(s: Seq<Seq<i128>>) -> bool {
    forall|i: int| 0 <= i < s.len() ==> (#[trigger] s[i]).len() == s[0].len()
}

/// Every value of every repetition is bounded by `cap` in magnitude.
pub open spec fn all_values_bounded(s: Seq<Seq<i128>>, cap: int) -> bool {
    forall|i: int, j: int|
        0 <= i < s.len() && 0 <= j < s[i].len() ==> -cap <= #[trigger] s[i][j] <= cap
}

/// Sum `a + b` if it fits in `i128`.
fn checked_add_i128(a: i128, b: i128) -> (r: Option<i128>)
    ensures
        match r {
            Some(v) => v == a + b,
            None => a + b < i128::MIN || a + b > i128::MAX,
        },
{
    if b >= 0 {
        if a <= i128::MAX - b {
            Some(a + b)
        } else {
            None
        }
    } else {
        if a >= i128::MIN - b {
            Some(a + b)
        } else {
            None
        }
    }
}

/// A bounded column sum stays bounded: with at most 16 repetitions whose
/// values are within `G2_SCALED_CAP`, every partial column sum fits well
/// inside `i128`.
proof fn lemma_column_sum_bounded(s: Seq<Seq<i128>>, j: int)
    requires
        s.len() <= 16,
        0 <= j,
        forall|i: int| 0 <= i < s.len() ==> j < (#[trigger] s[i]).len(),
        all_values_bounded(s, G2_SCALED_CAP as int),
    ensures
        -16 * G2_SCALED_CAP <= column_sum(s, j) <= 16 * G2_SCALED_CAP,
        -s.len() * G2_SCALED_CAP <= column_sum(s, j) <= s.len() * G2_SCALED_CAP,
    decreases s.len(),
{
    if s.len() == 0 {
    } else {
        let dl = s.drop_last();
        assert forall|i: int| 0 <= i < dl.len() implies j < (#[trigger] dl[i]).len() by {
            assert(dl[i] == s[i]);
        }
        assert forall|i: int, j2: int|
            0 <= i < dl.len() && 0 <= j2 < dl[i].len() implies -(G2_SCALED_CAP as int)
            <= #[trigger] dl[i][j2] <= G2_SCALED_CAP as int by {
            assert(dl[i] == s[i]);
            assert(s[i][j2] == dl[i][j2]);
        }
        lemma_column_sum_bounded(dl, j);
        assert(-(s.len() as int) * G2_SCALED_CAP <= column_sum(s, j) <= s.len()
            * G2_SCALED_CAP) by (nonlinear_arith)
            requires
                column_sum(s, j) == column_sum(dl, j) + s.last()[j],
                -(dl.len() as int) * G2_SCALED_CAP <= column_sum(dl, j) <= dl.len()
                    * G2_SCALED_CAP,
                -G2_SCALED_CAP <= s.last()[j] <= G2_SCALED_CAP,
                s.len() == dl.len() + 1,
        ;
        assert(s.len() * G2_SCALED_CAP <= 16 * G2_SCALED_CAP) by (nonlinear_arith)
            requires
                s.len() <= 16,
        ;
    }
}

/// The element-wise mean of the repetitions of one channel pair. Returns
/// the mean vector together with the repetitions, unchanged. Aggregating a
/// single repetition returns it as its own mean, unchanged.
pub fn calculate_average_correlation(repetitions: Vec<Vec<i128>>) -> (result: Result<
    (Vec<i128>, Vec<Vec<i128>>),
    AggregationError,
>)
    ensures
        (result == Err::<(Vec<i128>, Vec<Vec<i128>>), AggregationError>(
            AggregationError::NoRepetitions,
        )) <==> repetitions@.len() == 0,
        (result == Err::<(Vec<i128>, Vec<Vec<i128>>), AggregationError>(
            AggregationError::LengthMismatch,
        )) <==> (repetitions@.len() > 0 && !uniform_width(vec_views(repetitions@))),
        repetitions@.len() > 0 && uniform_width(vec_views(repetitions@)) && repetitions@.len()
            <= 16 && all_values_bounded(vec_views(repetitions@), G2_SCALED_CAP as int)
            ==> result is Ok,
        match result {
            Ok((mean, reps)) => {
                &&& reps == repetitions
                &&& repetitions@.len() > 0
                &&& uniform_width(vec_views(repetitions@))
                &&& mean@.len() == repetitions@[0]@.len()
                &&& forall|j: int|
                    0 <= j < mean@.len() ==> #[trigger] mean@[j] == div_trunc(
                        column_sum(vec_views(repetitions@), j),
                        repetitions@.len() as int,
                    )
                &&& repetitions@.len() == 1 ==> mean@ == repetitions@[0]@
            },
            Err(_) => true,
        },
{
    let k = repetitions.len();
    if k == 0 {
        return Err(AggregationError::NoRepetitions);
    }
    let width = repetitions[0].len();
    let ghost views = vec_views(repetitions@);
    let mut i: usize = 1;
    while i < k
        invariant
            k == repetitions@.len(),
            views == vec_views(repetitions@),
            width == repetitions@[0]@.len(),
            1 <= i <= k,
            forall|l: int| 0 <= l < i ==> (#[trigger] views[l]).len() == width,
        decreases k - i,
    {
        if repetitions[i].len() != width {
            proof {
                assert(views[i as int].len() != width);
                assert(!uniform_width(views));
            }
            return Err(AggregationError::LengthMismatch);
        }
        i = i + 1;
    }
    proof {
        assert(uniform_width(views));
    }
    let ghost bounded = k <= 16 && all_values_bounded(views, G2_SCALED_CAP as int);
    let mut mean: Vec<i128> = Vec::new();
    let mut j: usize = 0;
    while j < width
        invariant
            k == repetitions@.len(),
            1 <= k,
            views == vec_views(repetitions@),
            width == repetitions@[0]@.len(),
            uniform_width(views),
            bounded == (k <= 16 && all_values_bounded(views, G2_SCALED_CAP as int)),
            j <= width,
            mean@.len() == j,
            forall|l: int|
                0 <= l < j ==> #[trigger] mean@[l] == div_trunc(column_sum(views, l), k as int),
        decreases width - j,
    {
        let mut acc: i128 = 0;
        let mut i2: usize = 0;
        proof {
            assert(column_sum(views.subrange(0, 0), j as int) == 0);
        }
        while i2 < k
            invariant
                k == repetitions@.len(),
                views == vec_views(repetitions@),
                width == repetitions@[0]@.len(),
                uniform_width(views),
                bounded == (k <= 16 && all_values_bounded(views, G2_SCALED_CAP as int)),
                j < width,
                i2 <= k,
                acc == column_sum(views.subrange(0, i2 as int), j as int),
                bounded ==> -(i2 as int) * G2_SCALED_CAP <= acc <= (i2 as int) * G2_SCALED_CAP,
            decreases k - i2,
        {
            proof {
                assert(views[i2 as int] == repetitions@[i2 as int]@);
                assert(views[i2 as int].len() == width);
            }
            let v = repetitions[i2][j];
            let ghost pre = views.subrange(0, i2 as int);
            proof {
                assert(views.subrange(0, i2 + 1).drop_last() =~= pre);
                assert(views.subrange(0, i2 + 1).last() == views[i2 as int]);
                assert(views[i2 as int][j as int] == v);
                if bounded {
                    assert(-G2_SCALED_CAP <= v <= G2_SCALED_CAP);
                    assert((i2 as int) * G2_SCALED_CAP + G2_SCALED_CAP == (i2 + 1)
                        * G2_SCALED_CAP) by (nonlinear_arith);
                    assert((i2 + 1) * G2_SCALED_CAP <= 16 * G2_SCALED_CAP) by (nonlinear_arith)
                        requires
                            i2 + 1 <= 16,
                    ;
                }
            }
            match checked_add_i128(acc, v) {
                Some(s) => {
                    acc = s;
                },
                None => {
                    proof {
                        if bounded {
                            assert(false);
                        }
                    }
                    return Err(AggregationError::Overflow);
                },
            }
            i2 = i2 + 1;
        }
        proof {
            assert(views.subrange(0, k as int) =~= views);
        }
        if acc == i128::MIN {
            proof {
                if bounded {
                    lemma_column_sum_bounded(views, j as int);
                    assert(false);
                }
            }
            return Err(AggregationError::Overflow);
        }
        let m: i128 = if acc < 0 {
            let q = ((-acc) as u128) / (k as u128);
            proof {
                vstd::arithmetic::div_mod::lemma_div_is_ordered(
                    0,
                    (-acc) as int,
                    k as int,
                );
                vstd::arithmetic::div_mod::lemma_div_nonincreasing((-acc) as int, k as int);
            }
            -(q as i128)
        } else {
            let q = (acc as u128) / (k as u128);
            proof {
                vstd::arithmetic::div_mod::lemma_div_is_ordered(0, acc as int, k as int);
                vstd::arithmetic::div_mod::lemma_div_nonincreasing(acc as int, k as int);
            }
            q as i128
        };
        mean.push(m);
        j = j + 1;
    }
    proof {
        if k == 1 {
            assert forall|l: int| 0 <= l < width implies mean@[l] == repetitions@[0]@[l] by {
                assert(column_sum(views, l) == column_sum(views.drop_last(), l)
                    + views.last()[l]);
                assert(views.drop_last() =~= Seq::<Seq<i128>>::empty());
                assert(column_sum(views, l) == views[0][l]);
                assert(mean@[l] == div_trunc(views[0][l] as int, 1));
                let v = views[0][l];
                if v >= 0 {
                    assert(v / 1 == v) by (nonlinear_arith);
                } else {
                    assert((-v) / 1 == -v) by (nonlinear_arith);
                }
            }
            assert(mean@ =~= repetitions@[0]@);
        }
    }
    Ok((mean, repetitions))
}

} // verus!
