//! The per-channel dataset: for every detector channel, the intensity
//! traces of its acquisitions (repetitions), in acquisition order.
//!
//! The dataset is an association list keyed by channel id, with each key
//! held at most once; the engine reads it through `get` and fills it
//! through `insert_data_into_channel_data`.

use vstd::math::min;
use vstd::prelude::*;

verus! {

/// One channel's traces, one per repetition.
pub struct ChannelEntry {
    pub channel: u8,
    pub repetitions: Vec<Vec<u32>>,
}

/// All channels' traces for one or more acquisitions.
pub struct ChannelDataset {
    pub entries: Vec<ChannelEntry>,
}

/// The mathematical shape of one entry: the channel id and the sequence of
/// traces.
pub open spec fn entry_view(e: ChannelEntry) -> (u8, Seq<Seq<u32>>) {
    (e.channel, e.repetitions@.map_values(|v: Vec<u32>| v@))
}

/// The mathematical shape of the dataset.
pub open spec fn dataset_view(d: ChannelDataset) -> Seq<(u8, Seq<Seq<u32>>)> {
    d.entries@.map_values(|e: ChannelEntry| entry_view(e))
}

/// Index of the entry for channel `c`, or -1 if there is none.
pub open spec fn view_idx(m: Seq<(u8, Seq<Seq<u32>>)>, c: u8) -> int
    decreases m.len(),
{
    if m.len() == 0 {
        -1
    } else if m[0].0 == c {
        0
    } else {
        let r = view_idx(m.drop_first(), c);
        if r == -1 {
            -1
        } else {
            r + 1
        }
    }
}

/// Each channel id appears at most once.
pub open spec fn dataset_wf(d: ChannelDataset) -> bool {
    forall|i: int, j: int|
        0 <= i < j < d.entries@.len() ==> (#[trigger] d.entries@[i]).channel
            != (#[trigger] d.entries@[j]).channel
}

/// `view_idx` finds exactly the first entry with the given channel.
pub proof fn lemma_view_idx(m: Seq<(u8, Seq<Seq<u32>>)>, c: u8)
    ensures
        view_idx(m, c) == -1 ==> forall|i: int| 0 <= i < m.len() ==> (#[trigger] m[i]).0 != c,
        view_idx(m, c) != -1 ==> {
            &&& 0 <= view_idx(m, c) < m.len()
            &&& m[view_idx(m, c)].0 == c
            &&& forall|i: int| 0 <= i < view_idx(m, c) ==> (#[trigger] m[i]).0 != c
        },
    decreases m.len(),
{
    if m.len() == 0 {
    } else if m[0].0 == c {
    } else {
        lemma_view_idx(m.drop_first(), c);
        let r = view_idx(m.drop_first(), c);
        if r == -1 {
            assert forall|i: int| 0 <= i < m.len() implies (#[trigger] m[i]).0 != c by {
                if i > 0 {
                    assert(m.drop_first()[i - 1] == m[i]);
                }
            }
        } else {
            assert(m.drop_first()[r] == m[r + 1]);
            assert forall|i: int| 0 <= i < r + 1 implies (#[trigger] m[i]).0 != c by {
                if i > 0 {
                    assert(m.drop_first()[i - 1] == m[i]);
                }
            }
        }
    }
}

impl ChannelDataset {
    /// An empty dataset.
    pub fn new() -> (d: ChannelDataset)
        ensures
            dataset_view(d) =~= Seq::<(u8, Seq<Seq<u32>>)>::empty(),
            dataset_wf(d),
    {
        ChannelDataset { entries: Vec::new() }
    }

    /// The traces recorded for channel `c`, if any.
    pub fn get(&self, c: u8) -> (r: Option<&Vec<Vec<u32>>>)
        requires
            dataset_wf(*self),
        ensures
            match r {
                Some(reps) => {
                    &&& view_idx(dataset_view(*self), c) >= 0
                    &&& reps@.map_values(|v: Vec<u32>| v@) == dataset_view(*self)[view_idx(
                        dataset_view(*self),
                        c,
                    )].1
                },
                None => view_idx(dataset_view(*self), c) == -1,
            },
    {
        let ghost m = dataset_view(*self);
        proof {
            lemma_view_idx(m, c);
        }
        let mut i: usize = 0;
        while i < self.entries.len()
            invariant
                m == dataset_view(*self),
                i <= self.entries@.len(),
                m.len() == self.entries@.len(),
                forall|j: int| 0 <= j < i ==> (#[trigger] m[j]).0 != c,
                view_idx(m, c) == -1 ==> forall|j: int| 0 <= j < m.len() ==> (
                #[trigger] m[j]).0 != c,
                view_idx(m, c) != -1 ==> {
                    &&& 0 <= view_idx(m, c) < m.len()
                    &&& m[view_idx(m, c)].0 == c
                    &&& forall|j: int| 0 <= j < view_idx(m, c) ==> (#[trigger] m[j]).0 != c
                },
            decreases self.entries@.len() - i,
        {
            if self.entries[i].channel == c {
                proof {
                    assert(m[i as int].0 == c);
                    assert(view_idx(m, c) == i as int);
                }
                return Some(&self.entries[i].repetitions);
            }
            proof {
                assert(m[i as int].0 != c);
            }
            i = i + 1;
        }
        proof {
            if view_idx(m, c) != -1 {
                assert(m[view_idx(m, c)].0 == c);
            }
        }
        None
    }
}

/// The view of `m` after appending `reps` to channel `c`'s entry, creating
/// the entry at the end if the channel is new.
pub open spec fn apply_insert(m: Seq<(u8, Seq<Seq<u32>>)>, c: u8, reps: Seq<Seq<u32>>) -> Seq<
    (u8, Seq<Seq<u32>>),
> {
    let i = view_idx(m, c);
    if i >= 0 {
        m.update(i, (c, m[i].1 + reps))
    } else {
        m.push((c, reps))
    }
}

/// The view of `m` after applying every insert of `list`, first first.
pub open spec fn apply_inserts(
    m: Seq<(u8, Seq<Seq<u32>>)>,
    list: Seq<(u8, Seq<Seq<u32>>)>,
) -> Seq<(u8, Seq<Seq<u32>>)>
    decreases list.len(),
{
    if list.len() == 0 {
        m
    } else {
        apply_insert(apply_inserts(m, list.drop_last()), list.last().0, list.last().1)
    }
}

/// Appends `reps` as further repetitions of channel `c`.
fn push_repetitions(d: &mut ChannelDataset, c: u8, reps: Vec<Vec<u32>>)
    requires
        dataset_wf(*old(d)),
    ensures
        dataset_wf(*final(d)),
        dataset_view(*final(d)) == apply_insert(
            dataset_view(*old(d)),
            c,
            reps@.map_values(|v: Vec<u32>| v@),
        ),
{
    let ghost m = dataset_view(*old(d));
    let ghost reps0 = reps@;
    let ghost reps_view = reps@.map_values(|v: Vec<u32>| v@);
    proof {
        lemma_view_idx(m, c);
    }
    let mut i: usize = 0;
    let n = d.entries.len();
    while i < n
        invariant
            d == old(d),
            dataset_wf(*d),
            m == dataset_view(*d),
            reps@ == reps0,
            reps_view == reps0.map_values(|v: Vec<u32>| v@),
            n == d.entries@.len(),
            i <= n,
            m.len() == n,
            forall|j: int| 0 <= j < i ==> (#[trigger] m[j]).0 != c,
            view_idx(m, c) != -1 ==> {
                &&& 0 <= view_idx(m, c) < m.len()
                &&& m[view_idx(m, c)].0 == c
                &&& forall|j: int| 0 <= j < view_idx(m, c) ==> (#[trigger] m[j]).0 != c
            },
            view_idx(m, c) == -1 ==> forall|j: int| 0 <= j < m.len() ==> (#[trigger] m[j]).0
                != c,
        decreases n - i,
    {
        if d.entries[i].channel == c {
            proof {
                assert(m[i as int].0 == c);
                assert(view_idx(m, c) == i as int);
            }
            let mut e = d.entries.remove(i);
            let ghost e0 = e;
            let mut reps_in = reps;
            let ghost before_reps = e.repetitions@;
            let ghost other0 = reps_in@;
            e.repetitions.append(&mut reps_in);
            let ghost e1 = e;
            let ghost after_remove = d.entries@;
            d.entries.insert(i, e);
            proof {
                assert(e0 == old(d).entries@[i as int]);
                assert(e1.repetitions@ == before_reps + other0);
                assert(before_reps == e0.repetitions@);
                assert(other0 == reps0);
                assert(e1.repetitions@ == e0.repetitions@ + reps0);
                old(d).entries@.remove_ensures(i as int);
                after_remove.insert_ensures(i as int, e1);
                assert(d.entries@[i as int] == e1);
                assert forall|x: int|
                    0 <= x < d.entries@.len() && x != i implies #[trigger] d.entries@[x]
                    == old(d).entries@[x] by {
                    if x < i {
                        assert(d.entries@[x] == after_remove[x]);
                    } else {
                        assert(d.entries@[x] == after_remove[x - 1]);
                        assert(after_remove[x - 1] == old(d).entries@[x]);
                    }
                }
                assert(m[i as int] == entry_view(old(d).entries@[i as int]));
                assert(entry_view(e1).1.len() == m[i as int].1.len() + reps_view.len());
                assert forall|j: int| 0 <= j < entry_view(e1).1.len() implies #[trigger] entry_view(
                    e1,
                ).1[j] == (m[i as int].1 + reps_view)[j] by {
                    assert(entry_view(e1).1[j] == e1.repetitions@[j]@);
                    if j < e0.repetitions@.len() {
                        assert(e1.repetitions@[j] == e0.repetitions@[j]);
                        assert(m[i as int].1[j] == e0.repetitions@[j]@);
                    } else {
                        assert(e1.repetitions@[j] == reps0[j - e0.repetitions@.len()]);
                        assert(reps_view[j - e0.repetitions@.len()] == reps0[j
                            - e0.repetitions@.len()]@);
                    }
                }
                assert(entry_view(e1).1 =~= m[i as int].1 + reps_view);
                assert(entry_view(e1) == (c, m[i as int].1 + reps_view));
                assert(dataset_view(*d).len() == m.len());
                assert forall|x: int|
                    0 <= x < m.len() implies #[trigger] dataset_view(*d)[x] == m.update(
                    i as int,
                    (c, m[i as int].1 + reps_view),
                )[x] by {
                    assert(dataset_view(*d)[x] == entry_view(d.entries@[x]));
                    if x != i {
                        assert(d.entries@[x] == old(d).entries@[x]);
                        assert(m[x] == entry_view(old(d).entries@[x]));
                    }
                }
                assert(dataset_view(*d) =~= m.update(i as int, (c, m[i as int].1 + reps_view)));
                assert forall|x: int, y: int|
                    0 <= x < y < d.entries@.len() implies (#[trigger] d.entries@[x]).channel
                    != (#[trigger] d.entries@[y]).channel by {
                    assert(e1.channel == e0.channel);
                    if x == i {
                        assert(d.entries@[x].channel == e1.channel);
                        assert(d.entries@[y].channel == old(d).entries@[y].channel);
                        assert(old(d).entries@[x as int].channel != old(
                            d,
                        ).entries@[y].channel);
                    } else if y == i {
                        assert(d.entries@[y].channel == e1.channel);
                        assert(d.entries@[x].channel == old(d).entries@[x].channel);
                        assert(old(d).entries@[x].channel != old(d).entries@[y as int].channel);
                    } else {
                        assert(d.entries@[x].channel == old(d).entries@[x].channel);
                        assert(d.entries@[y].channel == old(d).entries@[y].channel);
                        assert(old(d).entries@[x].channel != old(d).entries@[y].channel);
                    }
                }
            }
            return ;
        }
        proof {
            assert(m[i as int].0 != c);
        }
        i = i + 1;
    }
    proof {
        if view_idx(m, c) != -1 {
            assert(m[view_idx(m, c)].0 == c);
        }
    }
    d.entries.push(ChannelEntry { channel: c, repetitions: reps });
    proof {
        assert(dataset_view(*d) =~= m.push((c, reps_view)));
        assert forall|x: int, y: int|
            0 <= x < y < d.entries@.len() implies (#[trigger] d.entries@[x]).channel
            != (#[trigger] d.entries@[y]).channel by {
            if y < d.entries@.len() - 1 {
                assert(old(d).entries@[x].channel == d.entries@[x].channel);
                assert(old(d).entries@[y].channel == d.entries@[y].channel);
            } else {
                assert(d.entries@[y].channel == c);
                assert(old(d).entries@[x].channel == d.entries@[x].channel);
                assert(m[x].0 == d.entries@[x].channel);
            }
        }
    }
}

/// Merges one file's decoded channels into the dataset: for each listed
/// channel, in order, its decoded traces become further repetitions of that
/// channel.
pub fn insert_data_into_channel_data(
    channel_data: &mut ChannelDataset,
    data_to_insert: Vec<(u8, Vec<Vec<u32>>)>,
)
    requires
        dataset_wf(*old(channel_data)),
    ensures
        dataset_wf(*final(channel_data)),
        dataset_view(*final(channel_data)) == apply_inserts(
            dataset_view(*old(channel_data)),
            data_to_insert@.map_values(|p: (u8, Vec<Vec<u32>>)| (p.0, p.1@.map_values(|v: Vec<u32>| v@))),
        ),
{
    let ghost m0 = dataset_view(*old(channel_data));
    let ghost list = data_to_insert@.map_values(
        |p: (u8, Vec<Vec<u32>>)| (p.0, p.1@.map_values(|v: Vec<u32>| v@)),
    );
    let mut work = data_to_insert;
    let n = work.len();
    let mut i: usize = 0;
    while i < n
        invariant
            dataset_wf(*channel_data),
            n == list.len(),
            i <= n,
            work@.len() == n - i,
            forall|j: int|
                0 <= j < work@.len() ==> {
                    &&& (#[trigger] work@[j]).0 == list[i + j].0
                    &&& work@[j].1@.map_values(|v: Vec<u32>| v@) == list[i + j].1
                },
            dataset_view(*channel_data) == apply_inserts(m0, list.subrange(0, i as int)),
        decreases n - i,
    {
        let (c, reps) = work.remove(0);
        let ghost pre = list.subrange(0, i as int);
        push_repetitions(channel_data, c, reps);
        proof {
            assert(list.subrange(0, i + 1).drop_last() =~= pre);
            assert(list.subrange(0, i + 1).last() == list[i as int]);
            assert forall|j: int|
                0 <= j < work@.len() implies (#[trigger] work@[j]).0 == list[i + 1 + j].0
                && work@[j].1@.map_values(|v: Vec<u32>| v@) == list[i + 1 + j].1 by {
            }
        }
        i = i + 1;
    }
    proof {
        assert(list.subrange(0, n as int) =~= list);
    }
}

/// The longest trace held anywhere in the dataset; 0 if there is none.
pub fn calculate_intensities_vector_max_length(data: &ChannelDataset) -> (max: usize)
    ensures
        forall|i: int, r: int|
            0 <= i < dataset_view(*data).len() && 0 <= r < dataset_view(*data)[i].1.len()
                ==> (#[trigger] dataset_view(*data)[i].1[r]).len() <= max,
        max == 0 || exists|i: int, r: int|
            0 <= i < dataset_view(*data).len() && 0 <= r < dataset_view(*data)[i].1.len()
                && (#[trigger] dataset_view(*data)[i].1[r]).len() == max,
{
    let ghost m = dataset_view(*data);
    let mut max: usize = 0;
    let mut i: usize = 0;
    while i < data.entries.len()
        invariant
            m == dataset_view(*data),
            i <= data.entries@.len(),
            m.len() == data.entries@.len(),
            forall|x: int, r: int|
                0 <= x < i && 0 <= r < m[x].1.len() ==> (#[trigger] m[x].1[r]).len() <= max,
            max == 0 || exists|x: int, r: int|
                0 <= x < m.len() && 0 <= r < m[x].1.len() && (#[trigger] m[x].1[r]).len()
                    == max,
        decreases data.entries@.len() - i,
    {
        let reps = &data.entries[i].repetitions;
        let mut r: usize = 0;
        while r < reps.len()
            invariant
                m == dataset_view(*data),
                i < data.entries@.len(),
                m.len() == data.entries@.len(),
                reps@ == data.entries@[i as int].repetitions@,
                r <= reps@.len(),
                m[i as int].1 == reps@.map_values(|v: Vec<u32>| v@),
                forall|x: int, rr: int|
                    0 <= x < i && 0 <= rr < m[x].1.len() ==> (#[trigger] m[x].1[rr]).len()
                        <= max,
                forall|rr: int|
                    0 <= rr < r ==> (#[trigger] m[i as int].1[rr]).len() <= max,
                max == 0 || exists|x: int, rr: int|
                    0 <= x < m.len() && 0 <= rr < m[x].1.len() && (
                    #[trigger] m[x].1[rr]).len() == max,
            decreases reps@.len() - r,
        {
            let len = reps[r].len();
            if len > max {
                max = len;
                proof {
                    assert(m[i as int].1[r as int].len() == max);
                }
            }
            r = r + 1;
        }
        i = i + 1;
    }
    max
}

/// Pads every trace with trailing zeros up to the longest length present,
/// and reports that length.
pub fn adjust_channel_data_lengths(channel_data: &mut ChannelDataset) -> (max: usize)
    requires
        dataset_wf(*old(channel_data)),
    ensures
        dataset_wf(*final(channel_data)),
        forall|i: int, r: int|
            0 <= i < dataset_view(*old(channel_data)).len() && 0 <= r < dataset_view(
                *old(channel_data),
            )[i].1.len() ==> (#[trigger] dataset_view(*old(channel_data))[i].1[r]).len() <= max,
        dataset_view(*final(channel_data)).len() == dataset_view(*old(channel_data)).len(),
        forall|i: int|
            0 <= i < dataset_view(*old(channel_data)).len() ==> {
                &&& (#[trigger] dataset_view(*final(channel_data))[i]).0 == dataset_view(
                    *old(channel_data),
                )[i].0
                &&& dataset_view(*final(channel_data))[i].1.len() == dataset_view(
                    *old(channel_data),
                )[i].1.len()
            },
        forall|i: int, r: int|
            0 <= i < dataset_view(*old(channel_data)).len() && 0 <= r < dataset_view(
                *old(channel_data),
            )[i].1.len() ==> {
                &&& (#[trigger] dataset_view(*final(channel_data))[i].1[r]).len() == max
                &&& dataset_view(*final(channel_data))[i].1[r].subrange(
                    0,
                    dataset_view(*old(channel_data))[i].1[r].len() as int,
                ) == dataset_view(*old(channel_data))[i].1[r]
                &&& forall|x: int|
                    dataset_view(*old(channel_data))[i].1[r].len() <= x < max
                        ==> dataset_view(*final(channel_data))[i].1[r][x] == 0
            },
{
    let max = calculate_intensities_vector_max_length(channel_data);
    let ghost m0 = dataset_view(*old(channel_data));
    let mut i: usize = 0;
    while i < channel_data.entries.len()
        invariant
            dataset_wf(*channel_data),
            m0 == dataset_view(*old(channel_data)),
            channel_data.entries@.len() == m0.len(),
            i <= m0.len(),
            forall|x: int, r: int|
                0 <= x < m0.len() && 0 <= r < m0[x].1.len() ==> (#[trigger] m0[x].1[r]).len()
                    <= max,
            forall|x: int|
                0 <= x < m0.len() ==> {
                    &&& (#[trigger] dataset_view(*channel_data)[x]).0 == m0[x].0
                    &&& dataset_view(*channel_data)[x].1.len() == m0[x].1.len()
                },
            forall|x: int, r: int|
                i <= x < m0.len() && 0 <= r < m0[x].1.len()
                    ==> (#[trigger] dataset_view(*channel_data)[x].1[r]) == m0[x].1[r],
            forall|x: int, r: int|
                0 <= x < i && 0 <= r < m0[x].1.len() ==> {
                    &&& (#[trigger] dataset_view(*channel_data)[x].1[r]).len() == max
                    &&& dataset_view(*channel_data)[x].1[r].subrange(
                        0,
                        m0[x].1[r].len() as int,
                    ) == m0[x].1[r]
                    &&& forall|y: int|
                        m0[x].1[r].len() <= y < max ==> dataset_view(
                            *channel_data,
                        )[x].1[r][y] == 0
                },
        decreases m0.len() - i,
    {
        let ghost pre_entries = channel_data.entries@;
        let ghost pre_view = dataset_view(*channel_data);
        pad_entry(channel_data, i, max, Ghost(m0));
        proof {
            assert forall|x: int|
                0 <= x < m0.len() && x != i implies #[trigger] dataset_view(*channel_data)[x]
                == pre_view[x] by {
                assert(channel_data.entries@[x] == pre_entries[x]);
                assert(dataset_view(*channel_data)[x] == entry_view(channel_data.entries@[x]));
                assert(pre_view[x] == entry_view(pre_entries[x]));
            }
            assert(dataset_view(*channel_data)[i as int].0 == pre_view[i as int].0);
            assert(dataset_view(*channel_data)[i as int].1.len() == pre_view[i as int].1.len());
            assert forall|r: int|
                0 <= r < m0[i as int].1.len() implies {
                &&& (#[trigger] dataset_view(*channel_data)[i as int].1[r]).len() == max
                &&& dataset_view(*channel_data)[i as int].1[r].subrange(
                    0,
                    m0[i as int].1[r].len() as int,
                ) == m0[i as int].1[r]
                &&& forall|y: int|
                    m0[i as int].1[r].len() <= y < max ==> dataset_view(
                        *channel_data,
                    )[i as int].1[r][y] == 0
            } by {
                assert(pre_view[i as int].1[r] == m0[i as int].1[r]);
            }
        }
        i = i + 1;
    }
    max
}

/// Pads every trace of entry `i` with trailing zeros up to `max`.
fn pad_entry(channel_data: &mut ChannelDataset, i: usize, max: usize, Ghost(m0): Ghost<
    Seq<(u8, Seq<Seq<u32>>)>,
>)
    requires
        dataset_wf(*old(channel_data)),
        i < old(channel_data).entries@.len(),
        forall|r: int|
            0 <= r < dataset_view(*old(channel_data))[i as int].1.len() ==> (
            #[trigger] dataset_view(*old(channel_data))[i as int].1[r]).len() <= max,
    ensures
        dataset_wf(*final(channel_data)),
        final(channel_data).entries@.len() == old(channel_data).entries@.len(),
        forall|x: int|
            0 <= x < old(channel_data).entries@.len() && x != i
                ==> (#[trigger] final(channel_data).entries@[x]) == old(
                channel_data,
            ).entries@[x],
        dataset_view(*final(channel_data))[i as int].0 == dataset_view(
            *old(channel_data),
        )[i as int].0,
        dataset_view(*final(channel_data))[i as int].1.len() == dataset_view(
            *old(channel_data),
        )[i as int].1.len(),
        forall|r: int|
            0 <= r < dataset_view(*old(channel_data))[i as int].1.len() ==> {
                &&& (#[trigger] dataset_view(*final(channel_data))[i as int].1[r]).len() == max
                &&& dataset_view(*final(channel_data))[i as int].1[r].subrange(
                    0,
                    dataset_view(*old(channel_data))[i as int].1[r].len() as int,
                ) == dataset_view(*old(channel_data))[i as int].1[r]
                &&& forall|y: int|
                    dataset_view(*old(channel_data))[i as int].1[r].len() <= y < max
                        ==> dataset_view(*final(channel_data))[i as int].1[r][y] == 0
            },
{
    let mut e = channel_data.entries.remove(i);
    let ghost e0 = e;
    let ghost after_remove_entries = channel_data.entries@;
    let ghost old_reps = e.repetitions@.map_values(|v: Vec<u32>| v@);
    proof {
        assert(e0 == old(channel_data).entries@[i as int]);
        assert(dataset_view(*old(channel_data))[i as int] == entry_view(e0));
        assert(old_reps == entry_view(e0).1);
        assert forall|x: int| 0 <= x < old_reps.len() implies (#[trigger] old_reps[x]).len()
            <= max by {
            assert(dataset_view(*old(channel_data))[i as int].1[x] == old_reps[x]);
        }
    }
    let mut r: usize = 0;
    while r < e.repetitions.len()
        invariant
            channel_data.entries@ == after_remove_entries,
            e.repetitions@.len() == old_reps.len(),
            r <= old_reps.len(),
            e.channel == e0.channel,
            forall|x: int| 0 <= x < old_reps.len() ==> (#[trigger] old_reps[x]).len() <= max,
            forall|x: int|
                r <= x < old_reps.len() ==> (#[trigger] e.repetitions@[x])@ == old_reps[x],
            forall|x: int|
                0 <= x < r ==> {
                    &&& (#[trigger] e.repetitions@[x])@.len() == max
                    &&& e.repetitions@[x]@.subrange(0, old_reps[x].len() as int) == old_reps[x]
                    &&& forall|y: int|
                        old_reps[x].len() <= y < max ==> e.repetitions@[x]@[y] == 0
                },
        decreases old_reps.len() - r,
    {
        let ghost reps_b = e.repetitions@;
        let mut trace = e.repetitions.remove(r);
        proof {
            reps_b.remove_ensures(r as int);
            assert(trace == reps_b[r as int]);
            assert(trace@ == old_reps[r as int]);
        }
        let ghost old_trace = trace@;
        while trace.len() < max
            invariant
                old_trace.len() <= trace@.len() <= max,
                trace@.subrange(0, old_trace.len() as int) == old_trace,
                forall|y: int| old_trace.len() <= y < trace@.len() ==> trace@[y] == 0,
                old_trace.len() <= max,
            decreases max - trace@.len(),
        {
            trace.push(0);
            proof {
                assert(trace@.subrange(0, old_trace.len() as int) =~= old_trace);
            }
        }
        let ghost tv = trace;
        let ghost reps_mid = e.repetitions@;
        e.repetitions.insert(r, trace);
        proof {
            reps_mid.insert_ensures(r as int, tv);
            assert(e.repetitions@[r as int] == tv);
            assert(tv@.len() == max);
            assert forall|x: int|
                0 <= x < old_reps.len() && x != r implies #[trigger] e.repetitions@[x]
                == reps_b[x] by {
                if x < r {
                    assert(e.repetitions@[x] == reps_mid[x]);
                    assert(reps_mid[x] == reps_b[x]);
                } else {
                    assert(e.repetitions@[x] == reps_mid[x - 1]);
                    assert(reps_mid[x - 1] == reps_b[x]);
                }
            }
        }
        r = r + 1;
    }
    let ghost e1 = e;
    let ghost pre_insert = channel_data.entries@;
    channel_data.entries.insert(i, e);
    proof {
        old(channel_data).entries@.remove_ensures(i as int);
        pre_insert.insert_ensures(i as int, e1);
        assert(pre_insert == after_remove_entries);
        assert(channel_data.entries@[i as int] == e1);
        assert(channel_data.entries@.len() == old(channel_data).entries@.len());
        assert forall|x: int|
            0 <= x < old(channel_data).entries@.len() && x != i implies (
        #[trigger] channel_data.entries@[x]) == old(channel_data).entries@[x] by {
            if x < i {
                assert(channel_data.entries@[x] == pre_insert[x]);
                assert(pre_insert[x] == old(channel_data).entries@[x]);
            } else {
                assert(channel_data.entries@[x] == pre_insert[x - 1]);
                assert(pre_insert[x - 1] == old(channel_data).entries@[x]);
            }
        }
        assert forall|x: int, y: int|
            0 <= x < y < channel_data.entries@.len() implies (
            #[trigger] channel_data.entries@[x]).channel
            != (#[trigger] channel_data.entries@[y]).channel by {
            assert(e1.channel == e0.channel);
            if x == i {
                assert(channel_data.entries@[x].channel == e1.channel);
                assert(channel_data.entries@[y].channel == old(
                    channel_data,
                ).entries@[y].channel);
                assert(old(channel_data).entries@[x].channel != old(
                    channel_data,
                ).entries@[y].channel);
            } else if y == i {
                assert(channel_data.entries@[y].channel == e1.channel);
                assert(channel_data.entries@[x].channel == old(
                    channel_data,
                ).entries@[x].channel);
                assert(old(channel_data).entries@[x].channel != old(
                    channel_data,
                ).entries@[y].channel);
            } else {
                assert(channel_data.entries@[x].channel == old(
                    channel_data,
                ).entries@[x].channel);
                assert(channel_data.entries@[y].channel == old(
                    channel_data,
                ).entries@[y].channel);
                assert(old(channel_data).entries@[x].channel != old(
                    channel_data,
                ).entries@[y].channel);
            }
        }
        assert(dataset_view(*channel_data)[i as int] == entry_view(e1));
        assert(entry_view(e1).1.len() == old_reps.len());
        assert forall|r2: int|
            0 <= r2 < old_reps.len() implies (#[trigger] entry_view(e1).1[r2])
            == e1.repetitions@[r2]@ by {
        }
        assert(entry_view(e1).0 == e0.channel);
    }
}

/// Pairs each decoded value column with its channel id from the metadata:
/// column `i` of the record stream belongs to channel `channels[i]`. Each
/// column becomes a single new repetition for its channel.
pub fn prepare_data_to_insert(channels: &Vec<u8>, channel_lines: Vec<Vec<u32>>) -> (data: Vec<
    (u8, Vec<Vec<u32>>),
>)
    ensures
        data@.len() == min(channels@.len() as int, channel_lines@.len() as int),
        forall|i: int|
            0 <= i < data@.len() ==> {
                &&& (#[trigger] data@[i]).0 == channels@[i]
                &&& data@[i].1@.len() == 1
                &&& data@[i].1@[0]@ == channel_lines@[i]@
            },
{
    let mut data: Vec<(u8, Vec<Vec<u32>>)> = Vec::new();
    let mut lines = channel_lines;
    let ghost lines0 = lines@;
    let n = if channels.len() < lines.len() {
        channels.len()
    } else {
        lines.len()
    };
    let mut i: usize = 0;
    while i < n
        invariant
            n == min(channels@.len() as int, lines0.len() as int),
            i <= n,
            lines@.len() == lines0.len() - i,
            forall|j: int| 0 <= j < lines@.len() ==> (#[trigger] lines@[j])@ == lines0[i + j]@,
            data@.len() == i,
            forall|j: int|
                0 <= j < i ==> {
                    &&& (#[trigger] data@[j]).0 == channels@[j]
                    &&& data@[j].1@.len() == 1
                    &&& data@[j].1@[0]@ == lines0[j]@
                },
        decreases n - i,
    {
        let line = lines.remove(0);
        let mut one: Vec<Vec<u32>> = Vec::new();
        one.push(line);
        data.push((channels[i], one));
        i = i + 1;
    }
    data
}

} // verus!
