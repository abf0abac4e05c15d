//! The exported artifact: the binary envelope that carries the averaged
//! result, and the JSON metadata block inside it.
//!
//! The envelope is the 4-byte tag `FCS1`, a little-endian length and the
//! metadata JSON, then a little-endian length and the payload JSON. The
//! metadata block holds only integers, integer lists and the free-text
//! notes, so the engine builds it byte for byte; parsing the envelope back
//! recovers both blocks exactly.

use vstd::bytes::spec_u32_from_le_bytes;
use vstd::bytes::spec_u32_to_le_bytes;
use vstd::bytes::u32_from_le_bytes;
use vstd::bytes::u32_to_le_bytes;
use vstd::prelude::*;
use vstd::slice::slice_subrange;

verus! {

/// Decimal digits of a non-negative number, most significant first.
pub open spec fn spec_dec(n: int) -> Seq<u8>
    decreases n,
{
    if n < 10 {
        seq![(48 + if n >= 0 { n } else { 0 }) as u8]
    } else {
        spec_dec(n / 10).push((48 + n % 10) as u8)
    }
}

/// A decimal number, written by its digits.
fn push_dec(out: &mut Vec<u8>, n: u64)
    ensures
        final(out)@ == old(out)@ + spec_dec(n as int),
    decreases n,
{
    if n < 10 {
        out.push(48 + n as u8);
        proof {
            assert(out@ =~= old(out)@ + spec_dec(n as int));
        }
    } else {
        push_dec(out, n / 10);
        out.push(48 + (n % 10) as u8);
        proof {
            assert(out@ =~= old(out)@ + spec_dec(n as int));
        }
    }
}

/// A JSON array of numbers.
pub open spec fn spec_num_list(s: Seq<int>) -> Seq<u8>
    decreases s.len(),
{
    if s.len() == 0 {
        seq![91u8, 93u8]
    } else if s.len() == 1 {
        seq![91u8] + spec_dec(s[0]) + seq![93u8]
    } else {
        spec_num_list(s.drop_last()).drop_last() + seq![44u8] + spec_dec(s.last()) + seq![93u8]
    }
}

/// A JSON array of two-number arrays.
pub open spec fn spec_pair_list(s: Seq<(int, int)>) -> Seq<u8>
    decreases s.len(),
{
    if s.len() == 0 {
        seq![91u8, 93u8]
    } else if s.len() == 1 {
        seq![91u8, 91u8] + spec_dec(s[0].0) + seq![44u8] + spec_dec(s[0].1) + seq![93u8, 93u8]
    } else {
        spec_pair_list(s.drop_last()).drop_last() + seq![44u8, 91u8] + spec_dec(s.last().0)
            + seq![44u8] + spec_dec(s.last().1) + seq![93u8, 93u8]
    }
}

/// One note byte in its JSON string form: quote and backslash escaped,
/// control bytes written as a lowercase hex escape.
pub open spec fn spec_esc_byte(b: u8) -> Seq<u8> {
    if b == 34 {
        seq![92u8, 34u8]
    } else if b == 92 {
        seq![92u8, 92u8]
    } else if b < 32 {
        seq![92u8, 117u8, 48u8, 48u8, hex_digit(b as int / 16), hex_digit(b as int % 16)]
    } else {
        seq![b]
    }
}

/// A lowercase hex digit.
pub open spec fn hex_digit(h: int) -> u8 {
    if h < 10 {
        (48 + h) as u8
    } else {
        (87 + h) as u8
    }
}

/// The escaped form of the notes.
pub open spec fn spec_esc(s: Seq<u8>) -> Seq<u8>
    decreases s.len(),
{
    if s.len() == 0 {
        Seq::empty()
    } else {
        spec_esc(s.drop_last()) + spec_esc_byte(s.last())
    }
}

/// The metadata JSON of the exported artifact: fields in alphabetical
/// order, all of them integers, integer lists or the escaped notes.
pub open spec fn spec_metadata_json(
    correlations: Seq<(int, int)>,
    num_acquisitions: int,
    enabled_channels: Seq<int>,
    bin_width: int,
    acquisition_time: int,
    notes: Seq<u8>,
) -> Seq<u8> {
    seq![123u8, 34u8, 97u8, 99u8, 113u8, 117u8, 105u8, 115u8, 105u8, 116u8, 105u8, 111u8, 110u8, 95u8, 116u8, 105u8, 109u8, 101u8, 34u8, 58u8] + spec_dec(acquisition_time) + seq![44u8, 34u8, 98u8, 105u8, 110u8, 95u8, 119u8, 105u8, 100u8, 116u8, 104u8, 34u8, 58u8] + spec_dec(bin_width)
        + seq![44u8, 34u8, 99u8, 111u8, 114u8, 114u8, 101u8, 108u8, 97u8, 116u8, 105u8, 111u8, 110u8, 115u8, 34u8, 58u8] + spec_pair_list(correlations) + seq![44u8, 34u8, 101u8, 110u8, 97u8, 98u8, 108u8, 101u8, 100u8, 95u8, 99u8, 104u8, 97u8, 110u8, 110u8, 101u8, 108u8, 115u8, 34u8, 58u8] + spec_num_list(
        enabled_channels,
    ) + seq![44u8, 34u8, 110u8, 111u8, 116u8, 101u8, 115u8, 34u8, 58u8, 34u8] + spec_esc(notes) + seq![34u8, 44u8, 34u8, 110u8, 117u8, 109u8, 95u8, 97u8, 99u8, 113u8, 117u8, 105u8, 115u8, 105u8, 116u8, 105u8, 111u8, 110u8, 115u8, 34u8, 58u8] + spec_dec(num_acquisitions)
        + seq![125u8]
}

/// Writes the bytes of `{"acquisition_time":`.
fn push_lit_acq(out: &mut Vec<u8>)
    ensures
        final(out)@ == old(out)@ + seq![123u8, 34u8, 97u8, 99u8, 113u8, 117u8, 105u8, 115u8, 105u8, 116u8, 105u8, 111u8, 110u8, 95u8, 116u8, 105u8, 109u8, 101u8, 34u8, 58u8],
{
    out.push(123);
    out.push(34);
    out.push(97);
    out.push(99);
    out.push(113);
    out.push(117);
    out.push(105);
    out.push(115);
    out.push(105);
    out.push(116);
    out.push(105);
    out.push(111);
    out.push(110);
    out.push(95);
    out.push(116);
    out.push(105);
    out.push(109);
    out.push(101);
    out.push(34);
    out.push(58);
    proof {
        assert(out@ =~= old(out)@ + seq![123u8, 34u8, 97u8, 99u8, 113u8, 117u8, 105u8, 115u8, 105u8, 116u8, 105u8, 111u8, 110u8, 95u8, 116u8, 105u8, 109u8, 101u8, 34u8, 58u8]);
    }
}

/// Writes the bytes of `,"bin_width":`.
fn push_lit_bw(out: &mut Vec<u8>)
    ensures
        final(out)@ == old(out)@ + seq![44u8, 34u8, 98u8, 105u8, 110u8, 95u8, 119u8, 105u8, 100u8, 116u8, 104u8, 34u8, 58u8],
{
    out.push(44);
    out.push(34);
    out.push(98);
    out.push(105);
    out.push(110);
    out.push(95);
    out.push(119);
    out.push(105);
    out.push(100);
    out.push(116);
    out.push(104);
    out.push(34);
    out.push(58);
    proof {
        assert(out@ =~= old(out)@ + seq![44u8, 34u8, 98u8, 105u8, 110u8, 95u8, 119u8, 105u8, 100u8, 116u8, 104u8, 34u8, 58u8]);
    }
}

/// Writes the bytes of `,"correlations":`.
fn push_lit_corr(out: &mut Vec<u8>)
    ensures
        final(out)@ == old(out)@ + seq![44u8, 34u8, 99u8, 111u8, 114u8, 114u8, 101u8, 108u8, 97u8, 116u8, 105u8, 111u8, 110u8, 115u8, 34u8, 58u8],
{
    out.push(44);
    out.push(34);
    out.push(99);
    out.push(111);
    out.push(114);
    out.push(114);
    out.push(101);
    out.push(108);
    out.push(97);
    out.push(116);
    out.push(105);
    out.push(111);
    out.push(110);
    out.push(115);
    out.push(34);
    out.push(58);
    proof {
        assert(out@ =~= old(out)@ + seq![44u8, 34u8, 99u8, 111u8, 114u8, 114u8, 101u8, 108u8, 97u8, 116u8, 105u8, 111u8, 110u8, 115u8, 34u8, 58u8]);
    }
}

/// Writes the bytes of `,"enabled_channels":`.
fn push_lit_enab(out: &mut Vec<u8>)
    ensures
        final(out)@ == old(out)@ + seq![44u8, 34u8, 101u8, 110u8, 97u8, 98u8, 108u8, 101u8, 100u8, 95u8, 99u8, 104u8, 97u8, 110u8, 110u8, 101u8, 108u8, 115u8, 34u8, 58u8],
{
    out.push(44);
    out.push(34);
    out.push(101);
    out.push(110);
    out.push(97);
    out.push(98);
    out.push(108);
    out.push(101);
    out.push(100);
    out.push(95);
    out.push(99);
    out.push(104);
    out.push(97);
    out.push(110);
    out.push(110);
    out.push(101);
    out.push(108);
    out.push(115);
    out.push(34);
    out.push(58);
    proof {
        assert(out@ =~= old(out)@ + seq![44u8, 34u8, 101u8, 110u8, 97u8, 98u8, 108u8, 101u8, 100u8, 95u8, 99u8, 104u8, 97u8, 110u8, 110u8, 101u8, 108u8, 115u8, 34u8, 58u8]);
    }
}

/// Writes the bytes of `,"notes":"`.
fn push_lit_notes(out: &mut Vec<u8>)
    ensures
        final(out)@ == old(out)@ + seq![44u8, 34u8, 110u8, 111u8, 116u8, 101u8, 115u8, 34u8, 58u8, 34u8],
{
    out.push(44);
    out.push(34);
    out.push(110);
    out.push(111);
    out.push(116);
    out.push(101);
    out.push(115);
    out.push(34);
    out.push(58);
    out.push(34);
    proof {
        assert(out@ =~= old(out)@ + seq![44u8, 34u8, 110u8, 111u8, 116u8, 101u8, 115u8, 34u8, 58u8, 34u8]);
    }
}

/// Writes the bytes of `","num_acquisitions":`.
fn push_lit_numacq(out: &mut Vec<u8>)
    ensures
        final(out)@ == old(out)@ + seq![34u8, 44u8, 34u8, 110u8, 117u8, 109u8, 95u8, 97u8, 99u8, 113u8, 117u8, 105u8, 115u8, 105u8, 116u8, 105u8, 111u8, 110u8, 115u8, 34u8, 58u8],
{
    out.push(34);
    out.push(44);
    out.push(34);
    out.push(110);
    out.push(117);
    out.push(109);
    out.push(95);
    out.push(97);
    out.push(99);
    out.push(113);
    out.push(117);
    out.push(105);
    out.push(115);
    out.push(105);
    out.push(116);
    out.push(105);
    out.push(111);
    out.push(110);
    out.push(115);
    out.push(34);
    out.push(58);
    proof {
        assert(out@ =~= old(out)@ + seq![34u8, 44u8, 34u8, 110u8, 117u8, 109u8, 95u8, 97u8, 99u8, 113u8, 117u8, 105u8, 115u8, 105u8, 116u8, 105u8, 111u8, 110u8, 115u8, 34u8, 58u8]);
    }
}

/// Writes the bytes of `}`.
fn push_lit_close(out: &mut Vec<u8>)
    ensures
        final(out)@ == old(out)@ + seq![125u8],
{
    out.push(125);
    proof {
        assert(out@ =~= old(out)@ + seq![125u8]);
    }
}

/// The escaped notes, written byte by byte.
fn push_escaped(out: &mut Vec<u8>, notes: &Vec<u8>)
    ensures
        final(out)@ == old(out)@ + spec_esc(notes@),
{
    let mut i: usize = 0;
    while i < notes.len()
        invariant
            i <= notes@.len(),
            out@ == old(out)@ + spec_esc(notes@.take(i as int)),
        decreases notes@.len() - i,
    {
        let ghost pre = notes@.take(i as int);
        let b = notes[i];
        if b == 34 {
            out.push(92);
            out.push(34);
        } else if b == 92 {
            out.push(92);
            out.push(92);
        } else if b < 32 {
            out.push(92);
            out.push(117);
            out.push(48);
            out.push(48);
            let hi = b / 16;
            let lo = b % 16;
            out.push(if hi < 10 { 48 + hi } else { 87 + hi });
            out.push(if lo < 10 { 48 + lo } else { 87 + lo });
        } else {
            out.push(b);
        }
        proof {
            assert(notes@.take(i + 1).drop_last() =~= pre);
            assert(notes@.take(i + 1).last() == b);
            assert(out@ =~= old(out)@ + spec_esc(notes@.take(i + 1)));
        }
        i = i + 1;
    }
    proof {
        assert(notes@.take(notes@.len() as int) =~= notes@);
    }
}

/// A JSON array of numbers, written term by term.
fn push_num_list(out: &mut Vec<u8>, nums: &Vec<usize>)
    ensures
        final(out)@ == old(out)@ + spec_num_list(nums@.map_values(|v: usize| v as int)),
{
    let ghost ns = nums@.map_values(|v: usize| v as int);
    out.push(91);
    if nums.len() == 0 {
        out.push(93);
        proof {
            assert(out@ =~= old(out)@ + spec_num_list(ns));
        }
        return ;
    }
    let mut i: usize = 0;
    while i < nums.len()
        invariant
            ns == nums@.map_values(|v: usize| v as int),
            1 <= nums@.len(),
            i <= nums@.len(),
            i >= 1 ==> out@ == old(out)@ + spec_num_list(ns.take(i as int)).drop_last(),
            i == 0 ==> out@ == old(out)@ + seq![91u8],
        decreases nums@.len() - i,
    {
        if i > 0 {
            out.push(44);
        }
        push_dec(out, nums[i] as u64);
        proof {
            assert(ns.take(i + 1).drop_last() =~= ns.take(i as int));
            assert(ns.take(i + 1).last() == ns[i as int]);
            if i == 0 {
                assert(spec_num_list(ns.take(1)) =~= seq![91u8] + spec_dec(ns[0]) + seq![93u8]);
                assert(out@ =~= old(out)@ + spec_num_list(ns.take(1)).drop_last());
            } else {
                assert(out@ =~= old(out)@ + spec_num_list(ns.take(i + 1)).drop_last());
            }
        }
        i = i + 1;
    }
    out.push(93);
    proof {
        assert(ns.take(ns.len() as int) =~= ns);
        assert(out@ =~= old(out)@ + spec_num_list(ns));
    }
}

/// A JSON array of pairs, written pair by pair.
fn push_pair_list(out: &mut Vec<u8>, pairs: &Vec<(usize, usize)>)
    ensures
        final(out)@ == old(out)@ + spec_pair_list(
            pairs@.map_values(|p: (usize, usize)| (p.0 as int, p.1 as int)),
        ),
{
    let ghost ps = pairs@.map_values(|p: (usize, usize)| (p.0 as int, p.1 as int));
    out.push(91);
    if pairs.len() == 0 {
        out.push(93);
        proof {
            assert(out@ =~= old(out)@ + spec_pair_list(ps));
        }
        return ;
    }
    let mut i: usize = 0;
    while i < pairs.len()
        invariant
            ps == pairs@.map_values(|p: (usize, usize)| (p.0 as int, p.1 as int)),
            1 <= pairs@.len(),
            i <= pairs@.len(),
            i >= 1 ==> out@ == old(out)@ + spec_pair_list(ps.take(i as int)).drop_last(),
            i == 0 ==> out@ == old(out)@ + seq![91u8],
        decreases pairs@.len() - i,
    {
        if i > 0 {
            out.push(44);
        }
        out.push(91);
        push_dec(out, pairs[i].0 as u64);
        out.push(44);
        push_dec(out, pairs[i].1 as u64);
        out.push(93);
        proof {
            assert(ps.take(i + 1).drop_last() =~= ps.take(i as int));
            assert(ps.take(i + 1).last() == ps[i as int]);
            if i == 0 {
                assert(spec_pair_list(ps.take(1)) =~= seq![91u8, 91u8] + spec_dec(ps[0].0)
                    + seq![44u8] + spec_dec(ps[0].1) + seq![93u8, 93u8]);
                assert(out@ =~= old(out)@ + spec_pair_list(ps.take(1)).drop_last());
            } else {
                assert(out@ =~= old(out)@ + spec_pair_list(ps.take(i + 1)).drop_last());
            }
        }
        i = i + 1;
    }
    out.push(93);
    proof {
        assert(ps.take(ps.len() as int) =~= ps);
        assert(out@ =~= old(out)@ + spec_pair_list(ps));
    }
}

/// Builds the metadata JSON of the exported artifact.
pub fn build_metadata_json(
    correlations: &Vec<(usize, usize)>,
    num_acquisitions: usize,
    enabled_channels: &Vec<usize>,
    bin_width: u32,
    acquisition_time: u32,
    notes: &Vec<u8>,
) -> (out: Vec<u8>)
    ensures
        out@ == spec_metadata_json(
            correlations@.map_values(|p: (usize, usize)| (p.0 as int, p.1 as int)),
            num_acquisitions as int,
            enabled_channels@.map_values(|v: usize| v as int),
            bin_width as int,
            acquisition_time as int,
            notes@,
        ),
{
    let mut out: Vec<u8> = Vec::new();
    push_lit_acq(&mut out);
    push_dec(&mut out, acquisition_time as u64);
    push_lit_bw(&mut out);
    push_dec(&mut out, bin_width as u64);
    push_lit_corr(&mut out);
    push_pair_list(&mut out, correlations);
    push_lit_enab(&mut out);
    push_num_list(&mut out, enabled_channels);
    push_lit_notes(&mut out);
    push_escaped(&mut out, notes);
    push_lit_numacq(&mut out);
    push_dec(&mut out, num_acquisitions as u64);
    push_lit_close(&mut out);
    proof {
        assert(out@ =~= spec_metadata_json(
            correlations@.map_values(|p: (usize, usize)| (p.0 as int, p.1 as int)),
            num_acquisitions as int,
            enabled_channels@.map_values(|v: usize| v as int),
            bin_width as int,
            acquisition_time as int,
            notes@,
        ));
    }
    out
}

/// The binary envelope of the exported artifact.
pub open spec fn artifact_bytes(meta: Seq<u8>, payload: Seq<u8>) -> Seq<u8> {
    seq![70u8, 67u8, 83u8, 49u8] + spec_u32_to_le_bytes(meta.len() as u32) + meta
        + spec_u32_to_le_bytes(payload.len() as u32) + payload
}

/// The bytes form a well-built envelope.
pub open spec fn artifact_valid(bytes: Seq<u8>) -> bool {
    &&& bytes.len() >= 12
    &&& bytes[0] == 70 && bytes[1] == 67 && bytes[2] == 83 && bytes[3] == 49
    &&& 12 + spec_u32_from_le_bytes(bytes.subrange(4, 8)) <= bytes.len()
    &&& bytes.len() == 12 + spec_u32_from_le_bytes(bytes.subrange(4, 8))
        + spec_u32_from_le_bytes(
        bytes.subrange(
            8 + spec_u32_from_le_bytes(bytes.subrange(4, 8)) as int,
            12 + spec_u32_from_le_bytes(bytes.subrange(4, 8)) as int,
        ),
    )
}

/// The metadata block of a well-built envelope.
pub open spec fn artifact_meta(bytes: Seq<u8>) -> Seq<u8> {
    bytes.subrange(8, 8 + spec_u32_from_le_bytes(bytes.subrange(4, 8)) as int)
}

/// The payload block of a well-built envelope.
pub open spec fn artifact_payload(bytes: Seq<u8>) -> Seq<u8> {
    bytes.subrange(
        12 + spec_u32_from_le_bytes(bytes.subrange(4, 8)) as int,
        bytes.len() as int,
    )
}

/// Appends every byte of `src`.
fn push_all(out: &mut Vec<u8>, src: &Vec<u8>)
    ensures
        final(out)@ == old(out)@ + src@,
{
    let mut i: usize = 0;
    while i < src.len()
        invariant
            i <= src@.len(),
            out@ == old(out)@ + src@.take(i as int),
        decreases src@.len() - i,
    {
        out.push(src[i]);
        proof {
            assert(src@.take(i + 1).drop_last() =~= src@.take(i as int));
            assert(out@ =~= old(out)@ + src@.take(i + 1));
        }
        i = i + 1;
    }
    proof {
        assert(src@.take(src@.len() as int) =~= src@);
    }
}

/// Serializes the artifact envelope around the two JSON blocks.
pub fn encode_final_artifact(meta: &Vec<u8>, payload: &Vec<u8>) -> (out: Vec<u8>)
    requires
        meta@.len() <= u32::MAX,
        payload@.len() <= u32::MAX,
    ensures
        out@ == artifact_bytes(meta@, payload@),
{
    let mut out: Vec<u8> = Vec::new();
    out.push(70);
    out.push(67);
    out.push(83);
    out.push(49);
    let ml = u32_to_le_bytes(meta.len() as u32);
    push_all(&mut out, &ml);
    push_all(&mut out, meta);
    let pl = u32_to_le_bytes(payload.len() as u32);
    push_all(&mut out, &pl);
    push_all(&mut out, payload);
    proof {
        assert(out@ =~= artifact_bytes(meta@, payload@));
    }
    out
}

/// Parses the artifact envelope back into its two JSON blocks, or reports
/// that the bytes are not a well-built envelope.
pub fn decode_final_artifact(bytes: &Vec<u8>) -> (r: Option<(Vec<u8>, Vec<u8>)>)
    ensures
        match r {
            Some(blocks) => artifact_valid(bytes@) && blocks.0@ == artifact_meta(bytes@)
                && blocks.1@ == artifact_payload(bytes@),
            None => !artifact_valid(bytes@),
        },
{
    let n = bytes.len();
    if n < 12 {
        return None;
    }
    if !(bytes[0] == 70 && bytes[1] == 67 && bytes[2] == 83 && bytes[3] == 49) {
        return None;
    }
    let ml = u32_from_le_bytes(slice_subrange(bytes.as_slice(), 4, 8)) as usize;
    if ml > n - 12 {
        return None;
    }
    let pl = u32_from_le_bytes(slice_subrange(bytes.as_slice(), 8 + ml, 12 + ml)) as usize;
    if n - 12 - ml != pl {
        proof {
            assert(!artifact_valid(bytes@));
        }
        return None;
    }
    let mut meta: Vec<u8> = Vec::new();
    let mut i: usize = 8;
    while i < 8 + ml
        invariant
            n == bytes@.len(),
            8 + ml <= n,
            8 <= i <= 8 + ml,
            meta@ == bytes@.subrange(8, i as int),
        decreases 8 + ml - i,
    {
        meta.push(bytes[i]);
        proof {
            assert(meta@ =~= bytes@.subrange(8, i + 1));
        }
        i = i + 1;
    }
    let mut payload: Vec<u8> = Vec::new();
    let mut j: usize = 12 + ml;
    while j < n
        invariant
            n == bytes@.len(),
            12 + ml <= j <= n,
            payload@ == bytes@.subrange(12 + ml, j as int),
        decreases n - j,
    {
        payload.push(bytes[j]);
        proof {
            assert(payload@ =~= bytes@.subrange(12 + ml, j + 1));
        }
        j = j + 1;
    }
    Some((meta, payload))
}

/// Serializing an artifact and parsing it back yields the same metadata
/// and payload blocks: the envelope is lossless.
pub proof fn lemma_artifact_round_trip(meta: Seq<u8>, payload: Seq<u8>)
    requires
        meta.len() <= u32::MAX,
        payload.len() <= u32::MAX,
    ensures
        artifact_valid(artifact_bytes(meta, payload)),
        artifact_meta(artifact_bytes(meta, payload)) == meta,
        artifact_payload(artifact_bytes(meta, payload)) == payload,
{
    let bytes = artifact_bytes(meta, payload);
    vstd::bytes::lemma_auto_spec_u32_to_from_le_bytes();
    assert(bytes.subrange(4, 8) =~= spec_u32_to_le_bytes(meta.len() as u32));
    assert(spec_u32_from_le_bytes(bytes.subrange(4, 8)) == meta.len());
    assert(bytes.subrange(8 + meta.len() as int, 12 + meta.len() as int)
        =~= spec_u32_to_le_bytes(payload.len() as u32));
    assert(spec_u32_from_le_bytes(
        bytes.subrange(8 + meta.len() as int, 12 + meta.len() as int),
    ) == payload.len());
    assert(artifact_meta(bytes) =~= meta);
    assert(artifact_payload(bytes) =~= payload);
}

} // verus!
