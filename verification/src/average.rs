//! The averaging pass: the most recent acquisition records are merged by
//! channel pair, and each pair's repetitions are averaged, the mean
//! standing in front of the raw repetitions.
//!
//! The first selected record is the canonical source of the shared
//! metadata; every record contributes the single repetition it holds per
//! pair, grouped in order of first appearance.

use crate::aggregate::all_values_bounded;
use crate::aggregate::calculate_average_correlation;
use crate::aggregate::column_sum;
use crate::aggregate::div_trunc;
use crate::aggregate::uniform_width;
use crate::models::FcsAverageCalculationInput;
use crate::models::FcsCalculationData;
use crate::models::FcsError;
use crate::pipeline::results_view;
use crate::rational::G2_SCALED_CAP;
use vstd::math::min;
use vstd::prelude::*;

verus! {

/// Index of the group for pair `p`, or -1.
pub open spec fn gidx(g: Seq<((usize, usize), Seq<Seq<i128>>)>, p: (usize, usize)) -> int
    decreases g.len(),
{
    if g.len() == 0 {
        -1
    } else if g[0].0 == p {
        0
    } else {
        let r = gidx(g.drop_first(), p);
        if r == -1 {
            -1
        } else {
            r + 1
        }
    }
}

/// One repetition appended to its pair's group, the group created at the
/// end if the pair is new.
pub open spec fn gadd(
    g: Seq<((usize, usize), Seq<Seq<i128>>)>,
    p: (usize, usize),
    rep: Seq<i128>,
) -> Seq<((usize, usize), Seq<Seq<i128>>)> {
    let i = gidx(g, p);
    if i >= 0 {
        g.update(i, (p, g[i].1.push(rep)))
    } else {
        g.push((p, seq![rep]))
    }
}

/// One record's pairs folded into the groups, each contributing its first
/// repetition; a pair with no repetitions is a fatal input error.
pub open spec fn gadd_pairs(
    g: Seq<((usize, usize), Seq<Seq<i128>>)>,
    pairs: Seq<((usize, usize), Seq<Seq<i128>>)>,
) -> Option<Seq<((usize, usize), Seq<Seq<i128>>)>>
    decreases pairs.len(),
{
    if pairs.len() == 0 {
        Some(g)
    } else {
        match gadd_pairs(g, pairs.drop_last()) {
            None => None,
            Some(gg) => if pairs.last().1.len() == 0 {
                None
            } else {
                Some(gadd(gg, pairs.last().0, pairs.last().1[0]))
            },
        }
    }
}

/// All selected records folded into groups, in record order.
pub open spec fn group_records(records: Seq<Seq<((usize, usize), Seq<Seq<i128>>)>>) -> Option<
    Seq<((usize, usize), Seq<Seq<i128>>)>,
>
    decreases records.len(),
{
    if records.len() == 0 {
        Some(Seq::empty())
    } else {
        match group_records(records.drop_last()) {
            None => None,
            Some(g) => gadd_pairs(g, records.last()),
        }
    }
}

/// The per-record g2 views of a record list.
pub open spec fn records_g2_views(records: Seq<FcsCalculationData>) -> Seq<
    Seq<((usize, usize), Seq<Seq<i128>>)>,
> {
    records.map_values(|r: FcsCalculationData| results_view(r.g2_correlations@))
}

/// The element-wise mean of a group's repetitions.
pub open spec fn mean_of(reps: Seq<Seq<i128>>) -> Seq<i128> {
    Seq::new(
        reps[0].len(),
        |j: int| div_trunc(column_sum(reps, j), reps.len() as int) as i128,
    )
}

/// A failed fold stays failed as the input grows.
proof fn lemma_gadd_pairs_none(
    g: Seq<((usize, usize), Seq<Seq<i128>>)>,
    pairs: Seq<((usize, usize), Seq<Seq<i128>>)>,
    i: int,
)
    requires
        0 <= i <= pairs.len(),
        gadd_pairs(g, pairs.take(i)) is None,
    ensures
        gadd_pairs(g, pairs) is None,
    decreases pairs.len() - i,
{
    if i == pairs.len() {
        assert(pairs.take(i) =~= pairs);
    } else {
        assert(pairs.take(i + 1).drop_last() =~= pairs.take(i));
        lemma_gadd_pairs_none(g, pairs, i + 1);
    }
}

/// A failed grouping stays failed as more records are selected.
proof fn lemma_group_records_none(records: Seq<Seq<((usize, usize), Seq<Seq<i128>>)>>, i: int)
    requires
        0 <= i <= records.len(),
        group_records(records.take(i)) is None,
    ensures
        group_records(records) is None,
    decreases records.len() - i,
{
    if i == records.len() {
        assert(records.take(i) =~= records);
    } else {
        assert(records.take(i + 1).drop_last() =~= records.take(i));
        lemma_group_records_none(records, i + 1);
    }
}

/// Appends `rep` to pair `p`'s group, creating the group at the end if the
/// pair has not been seen.
fn group_add(
    groups: &mut Vec<((usize, usize), Vec<Vec<i128>>)>,
    p: (usize, usize),
    rep: Vec<i128>,
)
    ensures
        results_view(final(groups)@) == gadd(results_view(old(groups)@), p, rep@),
{
    let ghost g = results_view(old(groups)@);
    let ghost rep0 = rep@;
    proof {
        lemma_gidx(g, p);
    }
    let mut i: usize = 0;
    let n = groups.len();
    while i < n
        invariant
            groups == old(groups),
            g == results_view(groups@),
            rep@ == rep0,
            n == groups@.len(),
            i <= n,
            g.len() == n,
            forall|j: int| 0 <= j < i ==> (#[trigger] g[j]).0 != p,
            gidx(g, p) != -1 ==> {
                &&& 0 <= gidx(g, p) < g.len()
                &&& g[gidx(g, p)].0 == p
                &&& forall|j: int| 0 <= j < gidx(g, p) ==> (#[trigger] g[j]).0 != p
            },
            gidx(g, p) == -1 ==> forall|j: int| 0 <= j < g.len() ==> (#[trigger] g[j]).0 != p,
        decreases n - i,
    {
        if groups[i].0.0 == p.0 && groups[i].0.1 == p.1 {
            proof {
                assert(g[i as int].0 == p);
                assert(gidx(g, p) == i as int);
            }
            let mut e = groups.remove(i);
            let ghost e0 = e;
            let ghost repv = rep;
            e.1.push(rep);
            let ghost e1 = e;
            let ghost after_remove = groups@;
            groups.insert(i, e);
            proof {
                assert(e0 == old(groups)@[i as int]);
                assert(e1.1@ == e0.1@.push(repv));
                assert(repv@ == rep0);
                old(groups)@.remove_ensures(i as int);
                after_remove.insert_ensures(i as int, e1);
                assert(groups@[i as int] == e1);
                assert forall|x: int|
                    0 <= x < groups@.len() && x != i implies #[trigger] groups@[x] == old(
                    groups,
                )@[x] by {
                    if x < i {
                        assert(groups@[x] == after_remove[x]);
                    } else {
                        assert(groups@[x] == after_remove[x - 1]);
                        assert(after_remove[x - 1] == old(groups)@[x]);
                    }
                }
                assert(results_view(seq![e1])[0].1 =~= g[i as int].1.push(rep0));
                assert forall|x: int|
                    0 <= x < g.len() implies #[trigger] results_view(groups@)[x] == gadd(
                    g,
                    p,
                    rep0,
                )[x] by {
                    if x == i {
                        assert(results_view(groups@)[x] == (e1.0, e1.1@.map_values(
                            |v: Vec<i128>| v@,
                        )));
                        assert(e1.1@.map_values(|v: Vec<i128>| v@) =~= g[i as int].1.push(rep0));
                    } else {
                        assert(results_view(groups@)[x] == (groups@[x].0, groups@[x].1@.map_values(
                            |v: Vec<i128>| v@,
                        )));
                    }
                }
                assert(results_view(groups@) =~= gadd(g, p, rep0));
            }
            return ;
        }
        proof {
            assert(g[i as int].0 != p);
        }
        i = i + 1;
    }
    proof {
        if gidx(g, p) != -1 {
            assert(g[gidx(g, p)].0 == p);
        }
    }
    let mut one: Vec<Vec<i128>> = Vec::new();
    one.push(rep);
    groups.push((p, one));
    proof {
        assert(results_view(seq![(p, one)])[0].1 =~= seq![rep0]);
        assert forall|x: int|
            0 <= x < groups@.len() implies #[trigger] results_view(groups@)[x] == gadd(
            g,
            p,
            rep0,
        )[x] by {
            if x < g.len() {
                assert(groups@[x] == old(groups)@[x]);
            } else {
                assert(groups@[x] == (p, one));
                assert(results_view(groups@)[x].1 =~= seq![rep0]);
            }
        }
        assert(results_view(groups@) =~= gadd(g, p, rep0));
    }
}

/// `gidx` finds exactly the first group of the given pair.
proof fn lemma_gidx(g: Seq<((usize, usize), Seq<Seq<i128>>)>, p: (usize, usize))
    ensures
        gidx(g, p) == -1 ==> forall|i: int| 0 <= i < g.len() ==> (#[trigger] g[i]).0 != p,
        gidx(g, p) != -1 ==> {
            &&& 0 <= gidx(g, p) < g.len()
            &&& g[gidx(g, p)].0 == p
            &&& forall|i: int| 0 <= i < gidx(g, p) ==> (#[trigger] g[i]).0 != p
        },
    decreases g.len(),
{
    if g.len() == 0 {
    } else if g[0].0 == p {
    } else {
        lemma_gidx(g.drop_first(), p);
        let r = gidx(g.drop_first(), p);
        if r == -1 {
            assert forall|i: int| 0 <= i < g.len() implies (#[trigger] g[i]).0 != p by {
                if i > 0 {
                    assert(g.drop_first()[i - 1] == g[i]);
                }
            }
        } else {
            assert(g.drop_first()[r] == g[r + 1]);
            assert forall|i: int| 0 <= i < r + 1 implies (#[trigger] g[i]).0 != p by {
                if i > 0 {
                    assert(g.drop_first()[i - 1] == g[i]);
                }
            }
        }
    }
}

/// Folds one record's pairs into the groups, each contributing its first
/// repetition. Fails if some pair holds no repetitions at all.
fn group_record(
    groups: &mut Vec<((usize, usize), Vec<Vec<i128>>)>,
    pairs: Vec<((usize, usize), Vec<Vec<i128>>)>,
) -> (r: Result<(), FcsError>)
    ensures
        match r {
            Ok(()) => Some(results_view(final(groups)@)) == gadd_pairs(
                results_view(old(groups)@),
                results_view(pairs@),
            ),
            Err(e) => e == FcsError::Aggregation(
                crate::aggregate::AggregationError::NoRepetitions,
            ) && gadd_pairs(results_view(old(groups)@), results_view(pairs@)) is None,
        },
{
    let ghost g0 = results_view(old(groups)@);
    let ghost plist = results_view(pairs@);
    let mut work = pairs;
    let n = work.len();
    let mut i: usize = 0;
    while i < n
        invariant
            g0 == results_view(old(groups)@),
            plist == results_view(pairs@),
            n == plist.len(),
            i <= n,
            work@.len() == n - i,
            forall|j: int|
                0 <= j < work@.len() ==> {
                    &&& (#[trigger] work@[j]).0 == plist[i + j].0
                    &&& work@[j].1@.map_values(|v: Vec<i128>| v@) == plist[i + j].1
                },
            Some(results_view(groups@)) == gadd_pairs(g0, plist.take(i as int)),
        decreases n - i,
    {
        proof {
            assert((work@[0]).0 == plist[i as int].0);
            assert(work@[0].1@.map_values(|v: Vec<i128>| v@) == plist[i as int].1);
        }
        let (p, mut reps) = work.remove(0);
        let ghost pre = plist.take(i as int);
        proof {
            assert(reps@.map_values(|v: Vec<i128>| v@) == plist[i as int].1);
            assert(plist.take(i + 1).drop_last() =~= pre);
            assert(plist.take(i + 1).last() == plist[i as int]);
        }
        if reps.len() == 0 {
            proof {
                assert(plist[i as int].1.len() == 0);
                assert(gadd_pairs(g0, plist.take(i + 1)) is None);
                lemma_gadd_pairs_none(g0, plist, i + 1);
            }
            return Err(
                FcsError::Aggregation(crate::aggregate::AggregationError::NoRepetitions),
            );
        }
        let rep = reps.remove(0);
        proof {
            assert(rep@ == plist[i as int].1[0]);
        }
        group_add(groups, p, rep);
        proof {
            assert forall|j: int|
                0 <= j < work@.len() implies (#[trigger] work@[j]).0 == plist[i + 1 + j].0
                && work@[j].1@.map_values(|v: Vec<i128>| v@) == plist[i + 1 + j].1 by {
            }
        }
        i = i + 1;
    }
    proof {
        assert(plist.take(n as int) =~= plist);
    }
    Ok(())
}

/// Merges the selected records by channel pair: the shared metadata is
/// read from the first record, and each record contributes its single
/// repetition per pair, grouped in order of first appearance. Zero
/// available records is an error, as is a record pair entry with no
/// repetitions.
pub fn get_gt_serializes_calculation_data(
    num_acquisitions: usize,
    records: Vec<FcsCalculationData>,
) -> (r: Result<FcsAverageCalculationInput, FcsError>)
    ensures
        (r == Err::<FcsAverageCalculationInput, FcsError>(FcsError::NoCalculationsFound))
            <==> records@.len() == 0,
        match r {
            Ok(out) => {
                &&& records@.len() > 0
                &&& out.export_data == records@[0].export_data
                &&& out.num_acquisitions == num_acquisitions
                &&& out.correlations == records@[0].correlations
                &&& out.enabled_channels == records@[0].enabled_channels
                &&& out.bin_width == records@[0].bin_width
                &&& out.acquisition_time == records@[0].acquisition_time
                &&& out.lag_index == records@[0].lag_index
                &&& out.notes == records@[0].notes
                &&& out.intensities_length == records@[0].intensities_length
                &&& Some(results_view(out.g2_correlations@)) == group_records(
                    records_g2_views(records@).take(
                        min(num_acquisitions as int, records@.len() as int),
                    ),
                )
            },
            Err(e) => e == FcsError::NoCalculationsFound || (e == FcsError::Aggregation(
                crate::aggregate::AggregationError::NoRepetitions,
            ) && group_records(
                records_g2_views(records@).take(
                    min(num_acquisitions as int, records@.len() as int),
                ),
            ) is None),
        },
{
    let ghost rviews = records_g2_views(records@);
    if records.len() == 0 {
        return Err(FcsError::NoCalculationsFound);
    }
    let total = records.len();
    let take_n = if num_acquisitions < total {
        num_acquisitions
    } else {
        total
    };
    let mut work = records;
    let first = work.remove(0);
    let FcsCalculationData {
        intensities_length,
        correlations,
        num_acquisitions: _,
        enabled_channels,
        bin_width,
        acquisition_time,
        notes,
        export_data,
        lag_index,
        g2_correlations: first_g2,
    } = first;
    let mut groups: Vec<((usize, usize), Vec<Vec<i128>>)> = Vec::new();
    let mut used: usize = 0;
    proof {
        assert(group_records(rviews.take(0)) == Some(Seq::<
            ((usize, usize), Seq<Seq<i128>>),
        >::empty()));
        assert(results_view(groups@) =~= Seq::<((usize, usize), Seq<Seq<i128>>)>::empty());
    }
    if take_n > 0 {
        proof {
            assert(rviews.take(1).drop_last() =~= rviews.take(0));
            assert(rviews.take(1).last() == rviews[0]);
            assert(rviews[0] == results_view(first_g2@));
        }
        match group_record(&mut groups, first_g2) {
            Ok(()) => {},
            Err(e) => {
                proof {
                    assert(rviews.take(1).drop_last() =~= rviews.take(0));
                    assert(group_records(rviews.take(1)) is None);
                    assert(rviews.take(take_n as int).take(1) =~= rviews.take(1));
                    lemma_group_records_none(rviews.take(take_n as int), 1);
                }
                return Err(e);
            },
        }
        used = 1;
    }
    while used < take_n
        invariant
            rviews == records_g2_views(records@),
            rviews.len() == records@.len(),
            take_n == min(num_acquisitions as int, records@.len() as int),
            take_n <= rviews.len(),
            take_n <= num_acquisitions,
            used <= take_n,
            take_n > 0 ==> used >= 1,
            used >= 1 ==> work@.len() == rviews.len() - used,
            used >= 1 ==> forall|j: int|
                0 <= j < work@.len() ==> results_view((#[trigger] work@[j]).g2_correlations@)
                    == rviews[used + j],
            Some(results_view(groups@)) == group_records(rviews.take(used as int)),
        decreases take_n - used,
    {
        let rec = work.remove(0);
        let ghost pre = rviews.take(used as int);
        proof {
            assert(rviews.take(used + 1).drop_last() =~= pre);
            assert(rviews.take(used + 1).last() == rviews[used as int]);
            assert(results_view(rec.g2_correlations@) == rviews[used as int]);
        }
        match group_record(&mut groups, rec.g2_correlations) {
            Ok(()) => {},
            Err(e) => {
                proof {
                    assert(group_records(rviews.take(used + 1)) is None);
                    assert(rviews.take(take_n as int).take(used + 1) =~= rviews.take(used + 1));
                    lemma_group_records_none(rviews.take(take_n as int), used + 1);
                }
                return Err(e);
            },
        }
        proof {
            assert forall|j: int|
                0 <= j < work@.len() implies results_view(
                (#[trigger] work@[j]).g2_correlations@,
            ) == rviews[used + 1 + j] by {
            }
        }
        used = used + 1;
    }
    proof {
        assert(min(num_acquisitions as int, rviews.len() as int) == take_n as int);
    }
    Ok(
        FcsAverageCalculationInput {
            export_data,
            num_acquisitions,
            correlations,
            enabled_channels,
            bin_width,
            acquisition_time,
            lag_index,
            notes,
            intensities_length,
            g2_correlations: groups,
        },
    )
}


/// Every group produced by a successful fold holds at least one
/// repetition.
proof fn lemma_gadd_pairs_nonempty(
    g: Seq<((usize, usize), Seq<Seq<i128>>)>,
    pairs: Seq<((usize, usize), Seq<Seq<i128>>)>,
)
    requires
        forall|i: int| 0 <= i < g.len() ==> (#[trigger] g[i]).1.len() >= 1,
        gadd_pairs(g, pairs) is Some,
    ensures
        forall|i: int|
            0 <= i < gadd_pairs(g, pairs).unwrap().len() ==> (#[trigger] gadd_pairs(
                g,
                pairs,
            ).unwrap()[i]).1.len() >= 1,
    decreases pairs.len(),
{
    if pairs.len() == 0 {
    } else {
        lemma_gadd_pairs_nonempty(g, pairs.drop_last());
        let gg = gadd_pairs(g, pairs.drop_last()).unwrap();
        let out = gadd_pairs(g, pairs).unwrap();
        let p = pairs.last().0;
        let rep = pairs.last().1[0];
        lemma_gidx(gg, p);
        assert forall|i: int| 0 <= i < out.len() implies (#[trigger] out[i]).1.len() >= 1 by {
            if gidx(gg, p) >= 0 {
                if i != gidx(gg, p) {
                    assert(out[i] == gg[i]);
                }
            } else {
                if i < gg.len() {
                    assert(out[i] == gg[i]);
                }
            }
        }
    }
}

/// Every group of a successful grouping holds at least one repetition.
pub proof fn lemma_group_records_nonempty(records: Seq<Seq<((usize, usize), Seq<Seq<i128>>)>>)
    requires
        group_records(records) is Some,
    ensures
        forall|i: int|
            0 <= i < group_records(records).unwrap().len() ==> (#[trigger] group_records(
                records,
            ).unwrap()[i]).1.len() >= 1,
    decreases records.len(),
{
    if records.len() == 0 {
    } else {
        lemma_group_records_nonempty(records.drop_last());
        lemma_gadd_pairs_nonempty(
            group_records(records.drop_last()).unwrap(),
            records.last(),
        );
    }
}

/// The averaging pass: the selected records are merged by channel pair and
/// each pair's repetitions are averaged, the mean vector standing in front
/// of the raw repetitions.
pub fn fluorescence_average_correlation_spectroscopy_calc(
    num_acquisitions: usize,
    records: Vec<FcsCalculationData>,
) -> (r: Result<FcsAverageCalculationInput, FcsError>)
    ensures
        (r == Err::<FcsAverageCalculationInput, FcsError>(FcsError::NoCalculationsFound))
            <==> records@.len() == 0,
        match r {
            Ok(out) => {
                let g = group_records(
                    records_g2_views(records@).take(
                        min(num_acquisitions as int, records@.len() as int),
                    ),
                ).unwrap();
                &&& records@.len() > 0
                &&& group_records(
                    records_g2_views(records@).take(
                        min(num_acquisitions as int, records@.len() as int),
                    ),
                ) is Some
                &&& out.export_data == records@[0].export_data
                &&& out.num_acquisitions == num_acquisitions
                &&& out.correlations == records@[0].correlations
                &&& out.enabled_channels == records@[0].enabled_channels
                &&& out.bin_width == records@[0].bin_width
                &&& out.acquisition_time == records@[0].acquisition_time
                &&& out.lag_index == records@[0].lag_index
                &&& out.notes == records@[0].notes
                &&& out.intensities_length == records@[0].intensities_length
                &&& results_view(out.g2_correlations@).len() == g.len()
                &&& forall|i: int|
                    0 <= i < g.len() ==> {
                        &&& (#[trigger] results_view(out.g2_correlations@)[i]).0 == g[i].0
                        &&& results_view(out.g2_correlations@)[i].1 == seq![
                            mean_of(g[i].1),
                        ] + g[i].1
                    }
            },
            Err(e) => e == FcsError::NoCalculationsFound || e matches FcsError::Aggregation(_),
        },
        ({
            let gopt = group_records(
                records_g2_views(records@).take(
                    min(num_acquisitions as int, records@.len() as int),
                ),
            );
            records@.len() > 0 && gopt is Some && (forall|i: int|
                0 <= i < gopt.unwrap().len() ==> (#[trigger] gopt.unwrap()[i]).1.len() <= 16
                    && uniform_width(gopt.unwrap()[i].1) && all_values_bounded(
                    gopt.unwrap()[i].1,
                    G2_SCALED_CAP as int,
                ))
        }) ==> r is Ok,
{
    let ghost take_g = min(num_acquisitions as int, records@.len() as int);
    let ghost rv = records_g2_views(records@).take(take_g);
    let avg_in = match get_gt_serializes_calculation_data(num_acquisitions, records) {
        Ok(a) => a,
        Err(e) => {
            return Err(e);
        },
    };
    proof {
        lemma_group_records_nonempty(rv);
    }
    let ghost g = group_records(rv).unwrap();
    let FcsAverageCalculationInput {
        export_data,
        num_acquisitions: num_out,
        correlations,
        enabled_channels,
        bin_width,
        acquisition_time,
        lag_index,
        notes,
        intensities_length,
        g2_correlations,
    } = avg_in;
    let mut work = g2_correlations;
    let ghost cond = forall|i: int|
        0 <= i < g.len() ==> (#[trigger] g[i]).1.len() <= 16 && uniform_width(g[i].1)
            && all_values_bounded(g[i].1, G2_SCALED_CAP as int);
    let mut out_groups: Vec<((usize, usize), Vec<Vec<i128>>)> = Vec::new();
    let n = work.len();
    let mut i: usize = 0;
    while i < n
        invariant
            records@.len() > 0,
            rv == records_g2_views(records@).take(
                min(num_acquisitions as int, records@.len() as int),
            ),
            group_records(rv) is Some,
            g == group_records(rv).unwrap(),
            cond == (forall|x: int|
                0 <= x < g.len() ==> (#[trigger] g[x]).1.len() <= 16 && uniform_width(g[x].1)
                    && all_values_bounded(g[x].1, G2_SCALED_CAP as int)),
            forall|x: int| 0 <= x < g.len() ==> (#[trigger] g[x]).1.len() >= 1,
            n == g.len(),
            i <= n,
            work@.len() == n - i,
            forall|j: int|
                0 <= j < work@.len() ==> {
                    &&& (#[trigger] work@[j]).0 == g[i + j].0
                    &&& work@[j].1@.map_values(|v: Vec<i128>| v@) == g[i + j].1
                },
            out_groups@.len() == i,
            forall|j: int|
                0 <= j < i ==> {
                    &&& (#[trigger] results_view(out_groups@)[j]).0 == g[j].0
                    &&& results_view(out_groups@)[j].1 == seq![mean_of(g[j].1)] + g[j].1
                },
        decreases n - i,
    {
        proof {
            assert((work@[0]).0 == g[i as int].0);
            assert(work@[0].1@.map_values(|v: Vec<i128>| v@) == g[i as int].1);
        }
        let (p, reps) = work.remove(0);
        let ghost reps_v = crate::aggregate::vec_views(reps@);
        proof {
            assert(reps_v == g[i as int].1);
        }
        match calculate_average_correlation(reps) {
            Err(e) => {
                proof {
                    if cond {
                        assert(g[i as int].1.len() <= 16 && uniform_width(g[i as int].1)
                            && all_values_bounded(g[i as int].1, G2_SCALED_CAP as int));
                        assert(false);
                    }
                }
                return Err(FcsError::Aggregation(e));
            },
            Ok((mean, reps_back)) => {
                let ghost meanv = mean@;
                let ghost back0 = reps_back@;
                let mut combined = reps_back;
                let ghost pre_ins = combined@;
                let ghost mean_vec = mean;
                combined.insert(0, mean);
                proof {
                    pre_ins.insert_ensures(0, mean_vec);
                    assert(pre_ins == back0);
                    assert(back0 == reps@);
                    assert(meanv.len() == mean_of(g[i as int].1).len());
                    assert forall|j: int| 0 <= j < meanv.len() implies meanv[j] == mean_of(
                        g[i as int].1,
                    )[j] by {
                        assert(meanv[j] == div_trunc(
                            column_sum(crate::aggregate::vec_views(reps@), j),
                            reps@.len() as int,
                        ));
                        assert(crate::aggregate::vec_views(reps@) == g[i as int].1);
                        assert(reps@.len() == g[i as int].1.len());
                    }
                    assert(meanv =~= mean_of(g[i as int].1));
                    assert(combined@.len() == g[i as int].1.len() + 1);
                    assert forall|j: int|
                        0 <= j < combined@.len() implies #[trigger] combined@[j]@ == (seq![
                        mean_of(g[i as int].1),
                    ] + g[i as int].1)[j] by {
                        if j == 0 {
                            assert(combined@[0] == mean_vec);
                            assert(mean_vec@ == meanv);
                        } else {
                            assert(combined@[j] == pre_ins[j - 1]);
                            assert(pre_ins[j - 1]@ == crate::aggregate::vec_views(reps@)[j
                                - 1]);
                        }
                    }
                    assert(results_view(seq![(p, combined)])[0].1 =~= seq![
                        mean_of(g[i as int].1),
                    ] + g[i as int].1);
                }
                let ghost combo = combined;
                let ghost prev_out = out_groups@;
                out_groups.push((p, combined));
                proof {
                    prev_out.lemma_push_map_commute(
                        |e: ((usize, usize), Vec<Vec<i128>>)| (e.0, e.1@.map_values(
                            |v: Vec<i128>| v@,
                        )),
                        (p, combo),
                    );
                    assert(results_view(out_groups@) =~= results_view(prev_out).push(
                        (p, combo@.map_values(|v: Vec<i128>| v@)),
                    ));
                    assert(combo@.map_values(|v: Vec<i128>| v@) == results_view(
                        seq![(p, combo)],
                    )[0].1);
                    assert forall|j: int|
                        0 <= j < i + 1 implies (#[trigger] results_view(out_groups@)[j]).0
                        == g[j].0 && results_view(out_groups@)[j].1 == seq![mean_of(g[j].1)]
                        + g[j].1 by {
                        if j < i {
                            assert(results_view(out_groups@)[j] == results_view(prev_out)[j]);
                        } else {
                            assert(results_view(out_groups@)[j] == (p, combo@.map_values(
                                |v: Vec<i128>| v@,
                            )));
                        }
                    }
                    assert forall|j: int|
                        0 <= j < work@.len() implies (#[trigger] work@[j]).0 == g[i + 1 + j].0
                        && work@[j].1@.map_values(|v: Vec<i128>| v@) == g[i + 1 + j].1 by {
                    }
                }
            },
        }
        i = i + 1;
    }
    Ok(
        FcsAverageCalculationInput {
            export_data,
            num_acquisitions: num_out,
            correlations,
            enabled_channels,
            bin_width,
            acquisition_time,
            lag_index,
            notes,
            intensities_length,
            g2_correlations: out_groups,
        },
    )
}

} // verus!
