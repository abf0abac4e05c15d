//! Pure logic behind the instrument-file bookkeeping: ordering files by
//! modification time and deriving the expected number of trace records from
//! the acquisition parameters. Directory walking and file-clock queries stay
//! outside the library; callers hand in plain names and timestamps.

use vstd::arithmetic::power::pow;
use vstd::prelude::*;

verus! {

/// A directory entry as the engine sees it: a file name (as raw bytes) and
/// its modification time, expressed as an integer timestamp supplied by the
/// caller (for example nanoseconds since the epoch).
#[derive(Debug, Clone)]
pub struct FileStamp {
    pub name: Vec<u8>,
    pub modified: u64,
}

/// The sequence is ordered most-recently-modified first.
pub open spec fn sorted_most_recent_first(s: Seq<FileStamp>) -> bool {
    forall|i: int, j: int| 0 <= i <= j < s.len() ==> s[i].modified >= s[j].modified
}

/// Orders files by modification time, most recent first. The result holds
/// exactly the given files.
pub fn sort_files_by_modified_time(files: Vec<FileStamp>) -> (sorted: Vec<FileStamp>)
    ensures
        sorted_most_recent_first(sorted@),
        sorted@.to_multiset() == files@.to_multiset(),
{
    let mut work = files;
    let mut out: Vec<FileStamp> = Vec::new();
    proof {
        broadcast use vstd::seq_lib::group_to_multiset_ensures;

        assert(out@.to_multiset().add(work@.to_multiset()) =~~= files@.to_multiset());
    }
    while work.len() > 0
        invariant
            out@.to_multiset().add(work@.to_multiset()) == files@.to_multiset(),
            sorted_most_recent_first(out@),
            forall|k: int, j: int|
                0 <= k < out@.len() && 0 <= j < work@.len() ==> out@[k].modified
                    >= work@[j].modified,
        decreases work.len(),
    {
        let mut m: usize = 0;
        let mut i: usize = 1;
        while i < work.len()
            invariant
                m < i <= work.len() || (i <= work.len() && m == 0),
                m < work.len(),
                work.len() > 0,
                forall|j: int| 0 <= j < i ==> work@[m as int].modified >= work@[j].modified,
            decreases work.len() - i,
        {
            if work[i].modified > work[m].modified {
                m = i;
            }
            i = i + 1;
        }
        let ghost prev_work = work@;
        let ghost prev_out = out@;
        let x = work.remove(m);
        out.push(x);
        proof {
            broadcast use vstd::seq_lib::group_to_multiset_ensures;

            assert(work@.to_multiset() =~~= prev_work.to_multiset().remove(x));
            assert(out@.to_multiset() =~~= prev_out.to_multiset().insert(x));
            assert(prev_work.to_multiset().contains(x));
            assert(out@.to_multiset().add(work@.to_multiset()) =~~= prev_out.to_multiset().add(
                prev_work.to_multiset(),
            ));
        }
    }
    out
}

/// The number of trace records an acquisition is expected to contain: the
/// acquisition time (milliseconds) converted to microseconds, divided by the
/// width of one time bin (microseconds).
pub fn calculate_intensity_entries_num(acquisition_time: u32, bin_width: u32) -> (entries: u64)
    requires
        bin_width > 0,
    ensures
        entries == (acquisition_time * 1000) as int / bin_width as int,
{
    let acquisition_time_u64 = acquisition_time as u64;
    let bin_width_u64 = bin_width as u64;
    let expected_entries = (acquisition_time_u64 * 1000) / bin_width_u64;
    expected_entries
}


/// Nibble `i` (most significant first) of a 128-bit value.
pub open spec fn uuid_nibble(n: u128, i: int) -> int {
    (n as int / pow(16, (31 - i) as nat)) % 16
}

/// A lowercase hex digit.
pub open spec fn lower_hex_digit(h: int) -> u8 {
    if h < 10 {
        (48 + h) as u8
    } else {
        (87 + h) as u8
    }
}

/// The hyphenated lowercase form of a 128-bit value as a UUID: 32 hex
/// digits, most significant first, with hyphens after 8, 12, 16 and 20 of
/// them.
pub open spec fn spec_uuid_hyphenated(n: u128) -> Seq<u8> {
    Seq::new(
        36,
        |i: int|
            if i == 8 || i == 13 || i == 18 || i == 23 {
                45u8
            } else {
                let d = if i < 8 {
                    i
                } else if i < 13 {
                    i - 1
                } else if i < 18 {
                    i - 2
                } else if i < 23 {
                    i - 3
                } else {
                    i - 4
                };
                lower_hex_digit(uuid_nibble(n, d))
            },
    )
}

/// Relies on rand's `random`: draws a uniformly random value. Nothing can
/// be promised of the result.
#[verifier::external_body]
fn random_u128() -> u128 {
    rand::random::<u128>()
}

/// Relies on uuid's `Uuid::from_u128` and its `Display` impl: the value's
/// big-endian bytes written as the hyphenated lowercase hex form.
#[verifier::external_body]
fn uuid_hyphenated_bytes(n: u128) -> (r: Vec<u8>)
    ensures
        r@ == spec_uuid_hyphenated(n),
{
    uuid::Uuid::from_u128(n).to_string().into_bytes()
}

/// A file name of the form `prefix_date.extension`.
pub fn create_flim_file(prefix_file: &Vec<u8>, date: &Vec<u8>, extension: &Vec<u8>) -> (name: Vec<
    u8,
>)
    ensures
        name@ == prefix_file@ + seq![95u8] + date@ + seq![46u8] + extension@,
{
    let mut name: Vec<u8> = Vec::new();
    push_all_bytes(&mut name, prefix_file);
    name.push(95);
    push_all_bytes(&mut name, date);
    name.push(46);
    push_all_bytes(&mut name, extension);
    proof {
        assert(name@ =~= prefix_file@ + seq![95u8] + date@ + seq![46u8] + extension@);
    }
    name
}

/// Appends every byte of `src`.
fn push_all_bytes(out: &mut Vec<u8>, src: &Vec<u8>)
    ensures
        final(out)@ == old(out)@ + src@,
{
    let mut i: usize = 0;
    while i < src.len()
        invariant
            i <= src@.len(),
            out@ == old(out)@ + src@.take(i as int),
        decreases src@.len() - i,
    {
        out.push(src[i]);
        proof {
            assert(src@.take(i + 1).drop_last() =~= src@.take(i as int));
            assert(out@ =~= old(out)@ + src@.take(i + 1));
        }
        i = i + 1;
    }
    proof {
        assert(src@.take(src@.len() as int) =~= src@);
    }
}

/// The name under which one acquisition's record is persisted:
/// `fcs_calc_` followed by a freshly drawn UUID, the date, and the `json`
/// extension.
pub fn record_file_name(date: &Vec<u8>) -> (name: Vec<u8>)
    ensures
        exists|n: u128|
            name@ == seq![
                102u8, 99u8, 115u8, 95u8, 99u8, 97u8, 108u8, 99u8, 95u8,
            ] + spec_uuid_hyphenated(n) + seq![95u8] + date@ + seq![46u8] + seq![
                106u8, 115u8, 111u8, 110u8,
            ],
{
    let n = random_u128();
    let uuid_part = uuid_hyphenated_bytes(n);
    let mut prefix: Vec<u8> = Vec::new();
    prefix.push(102);
    prefix.push(99);
    prefix.push(115);
    prefix.push(95);
    prefix.push(99);
    prefix.push(97);
    prefix.push(108);
    prefix.push(99);
    prefix.push(95);
    push_all_bytes(&mut prefix, &uuid_part);
    let mut ext: Vec<u8> = Vec::new();
    ext.push(106);
    ext.push(115);
    ext.push(111);
    ext.push(110);
    let name = create_flim_file(&prefix, date, &ext);
    proof {
        assert(prefix@ =~= seq![
            102u8, 99u8, 115u8, 95u8, 99u8, 97u8, 108u8, 99u8, 95u8,
        ] + spec_uuid_hyphenated(n));
        assert(name@ =~= seq![
            102u8, 99u8, 115u8, 95u8, 99u8, 97u8, 108u8, 99u8, 95u8,
        ] + spec_uuid_hyphenated(n) + seq![95u8] + date@ + seq![46u8] + seq![
            106u8, 115u8, 111u8, 110u8,
        ]);
    }
    name
}


/// The name begins with the given prefix.
pub open spec fn has_prefix(name: Seq<u8>, prefix: Seq<u8>) -> bool {
    prefix.len() <= name.len() && name.take(prefix.len() as int) == prefix
}

/// Keeps exactly the files whose names begin with the prefix, in their
/// given order.
pub fn filter_files_by_prefix(files: Vec<FileStamp>, prefix: &Vec<u8>) -> (kept: Vec<FileStamp>)
    ensures
        kept@ == files@.filter(|f: FileStamp| has_prefix(f.name@, prefix@)),
{
    let mut kept: Vec<FileStamp> = Vec::new();
    let mut work = files;
    let ghost all = work@;
    let n = work.len();
    let mut i: usize = 0;
    proof {
        reveal(Seq::filter);
        assert(all.take(0) =~= Seq::<FileStamp>::empty());
        assert(kept@ =~= all.take(0).filter(|f: FileStamp| has_prefix(f.name@, prefix@)));
    }
    while i < n
        invariant
            n == all.len(),
            i <= n,
            work@.len() == n - i,
            forall|j: int| 0 <= j < work@.len() ==> work@[j] == all[i + j],
            kept@ == all.take(i as int).filter(|f: FileStamp| has_prefix(f.name@, prefix@)),
        decreases n - i,
    {
        proof {
            assert(work@[0] == all[i as int]);
        }
        let f = work.remove(0);
        let keep = name_has_prefix(&f.name, prefix);
        let ghost pre = all.take(i as int);
        proof {
            reveal(Seq::filter);
            assert(all.take(i + 1).drop_last() =~= pre);
            assert(all.take(i + 1).last() == all[i as int]);
        }
        if keep {
            kept.push(f);
        }
        proof {
            reveal(Seq::filter);
            assert(kept@ =~= all.take(i + 1).filter(|ff: FileStamp| has_prefix(ff.name@, prefix@)));
        }
        i = i + 1;
    }
    proof {
        assert(all.take(n as int) =~= all);
    }
    kept
}

/// Whether a name begins with the prefix, byte for byte.
fn name_has_prefix(name: &Vec<u8>, prefix: &Vec<u8>) -> (r: bool)
    ensures
        r == has_prefix(name@, prefix@),
{
    if prefix.len() > name.len() {
        return false;
    }
    let mut i: usize = 0;
    while i < prefix.len()
        invariant
            prefix@.len() <= name@.len(),
            i <= prefix@.len(),
            forall|j: int| 0 <= j < i ==> name@[j] == prefix@[j],
        decreases prefix@.len() - i,
    {
        if name[i] != prefix[i] {
            proof {
                assert(name@.take(prefix@.len() as int)[i as int] != prefix@[i as int]);
            }
            return false;
        }
        i = i + 1;
    }
    proof {
        assert(name@.take(prefix@.len() as int) =~= prefix@);
    }
    true
}

} // verus!


