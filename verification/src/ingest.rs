//! Decoding of raw intensity-trace files into per-channel integer traces.
//!
//! A trace file is a 4-byte format tag `IT02`, a little-endian 4-byte
//! metadata length, that many bytes of metadata (see `crate::metadata`),
//! and then fixed-width records: an opaque 8-byte block followed by one
//! little-endian 32-bit count per enabled channel. A trailing record
//! shorter than the record width is dropped. A file with a different
//! format tag decodes to nothing rather than failing.

use crate::dataset::apply_inserts;
use crate::dataset::dataset_view;
use crate::dataset::dataset_wf;
use crate::dataset::insert_data_into_channel_data;
use crate::dataset::prepare_data_to_insert;
use crate::dataset::ChannelDataset;
use crate::metadata::parse_channels;
use crate::metadata::parse_channels_exec;
use vstd::bytes::spec_u32_from_le_bytes;
use vstd::bytes::u32_from_le_bytes;
use vstd::prelude::*;
use vstd::slice::slice_subrange;

verus! {

/// Largest trace file the decoder accepts, in bytes.
pub const MAX_FILE_BYTES: usize = 0x1000_0000;

/// Why one file's ingestion failed. Only these two shapes are reported;
/// a trailing truncated record is tolerated silently.
#[derive(Debug, Clone, Copy, PartialEq, Eq, Structural)]
pub enum IngestError {
    TruncatedFile,
    MalformedMetadata,
}

/// The file starts with the expected format tag `IT02`.
pub open spec fn has_intensity_magic(bytes: Seq<u8>) -> bool {
    &&& bytes.len() >= 4
    &&& bytes[0] == 0x49
    &&& bytes[1] == 0x54
    &&& bytes[2] == 0x30
    &&& bytes[3] == 0x32
}

/// Declared metadata length of the file.
pub open spec fn meta_len_of(bytes: Seq<u8>) -> int {
    spec_u32_from_le_bytes(bytes.subrange(4, 8)) as int
}

/// Width of one record for `k` enabled channels.
pub open spec fn record_size(k: int) -> int {
    8 + 4 * k
}

/// The decoded trace of value column `i` in the record stream `body`: one
/// 32-bit count per complete record, a trailing partial record dropped.
pub open spec fn decoded_line(body: Seq<u8>, k: int, i: int) -> Seq<u32> {
    Seq::new(
        (body.len() as int / record_size(k)) as nat,
        |r: int|
            spec_u32_from_le_bytes(
                body.subrange(
                    r * record_size(k) + 8 + 4 * i,
                    r * record_size(k) + 8 + 4 * i + 4,
                ),
            ),
    )
}

/// The per-channel contribution of one decoded file: channel `channels[i]`
/// gains value column `i` as one new repetition.
pub open spec fn decode_insert_list(channels: Seq<u8>, body: Seq<u8>) -> Seq<
    (u8, Seq<Seq<u32>>),
> {
    Seq::new(
        channels.len(),
        |i: int| (channels[i], seq![decoded_line(body, channels.len() as int, i)]),
    )
}

/// A parsed channel list holds at least one element and no more than its
/// fuel.
proof fn lemma_parse_elems_len(s: Seq<u8>, i: int, fuel: nat)
    ensures
        match crate::metadata::parse_elems(s, i, fuel) {
            Some(r) => 1 <= r.len() <= fuel,
            None => true,
        },
    decreases fuel,
{
    if fuel > 0 && 0 <= i <= s.len() {
        let d = crate::metadata::skip_ws(s, i);
        crate::metadata::lemma_skip_ws_bounds(s, i);
        if d < s.len() && crate::metadata::is_digit(s[d]) {
            let e = crate::metadata::digits_end(s, d);
            crate::metadata::lemma_digits_end_bounds(s, d);
            if crate::metadata::digit_val(s, d, e) <= 255 {
                let t = crate::metadata::skip_ws(s, e);
                crate::metadata::lemma_skip_ws_bounds(s, e);
                if t < s.len() && s[t] == 0x2C {
                    lemma_parse_elems_len(s, t + 1, (fuel - 1) as nat);
                }
            }
        }
    }
}

/// The channel list of a well-formed metadata block is bounded by the
/// block's length plus one.
pub proof fn lemma_parse_channels_len(s: Seq<u8>)
    ensures
        match parse_channels(s) {
            Some(chs) => chs.len() <= s.len() + 1,
            None => true,
        },
{
    let kp = crate::metadata::first_key(s, 0);
    if kp != -1 {
        lemma_parse_elems_len(s, 0, s.len() + 1);
        if parse_channels(s) is Some {
            let c = crate::metadata::skip_ws(s, kp + 10);
            if c < s.len() && s[c] == 0x3A {
                let o = crate::metadata::skip_ws(s, c + 1);
                if o < s.len() && s[o] == 0x5B {
                    let w = crate::metadata::skip_ws(s, o + 1);
                    if w < s.len() && s[w] == 0x5D {
                    } else {
                        lemma_parse_elems_len(s, o + 1, s.len() + 1);
                    }
                }
            }
        }
    }
}

/// Decodes the record stream: one value column per enabled channel.
fn read_channels_data(bytes: &Vec<u8>, data_start: usize, k: usize) -> (lines: Vec<Vec<u32>>)
    requires
        data_start <= bytes@.len(),
        bytes@.len() <= MAX_FILE_BYTES,
        k <= MAX_FILE_BYTES,
    ensures
        lines@.len() == k,
        forall|i: int|
            0 <= i < k ==> (#[trigger] lines@[i])@ == decoded_line(
                bytes@.skip(data_start as int),
                k as int,
                i,
            ),
{
    let ghost body = bytes@.skip(data_start as int);
    let body_len = bytes.len() - data_start;
    let rsize = 8 + 4 * k;
    let n_rec = body_len / rsize;
    proof {
        assert(body.len() == body_len);
        assert(record_size(k as int) == rsize);
        let bl = body_len as int;
        let rs = rsize as int;
        vstd::arithmetic::div_mod::lemma_fundamental_div_mod(bl, rs);
        vstd::arithmetic::div_mod::lemma_mod_bound(bl, rs);
        vstd::arithmetic::mul::lemma_mul_is_commutative(n_rec as int, rs);
        assert(n_rec * rsize <= body_len);
    }
    let mut lines: Vec<Vec<u32>> = Vec::new();
    let mut i: usize = 0;
    while i < k
        invariant
            data_start <= bytes@.len() <= MAX_FILE_BYTES,
            k <= MAX_FILE_BYTES,
            body == bytes@.skip(data_start as int),
            body_len == bytes@.len() - data_start,
            rsize == 8 + 4 * k,
            n_rec == body_len as int / rsize as int,
            n_rec * rsize <= body_len,
            i <= k,
            lines@.len() == i,
            forall|x: int|
                0 <= x < i ==> (#[trigger] lines@[x])@ == decoded_line(body, k as int, x),
        decreases k - i,
    {
        let mut line: Vec<u32> = Vec::new();
        let mut r: usize = 0;
        while r < n_rec
            invariant
                data_start <= bytes@.len() <= MAX_FILE_BYTES,
                k <= MAX_FILE_BYTES,
                i < k,
                body == bytes@.skip(data_start as int),
                body_len == bytes@.len() - data_start,
                rsize == 8 + 4 * k,
                n_rec == body_len as int / rsize as int,
                n_rec * rsize <= body_len,
                r <= n_rec,
                line@.len() == r,
                forall|x: int|
                    0 <= x < r ==> #[trigger] line@[x] == decoded_line(body, k as int, i as int)[x],
            decreases n_rec - r,
        {
            proof {
                assert((r + 1) * rsize <= n_rec * rsize) by (nonlinear_arith)
                    requires
                        r + 1 <= n_rec,
                        rsize >= 0,
                ;
                assert(r * rsize + rsize == (r + 1) * rsize) by (nonlinear_arith);
                assert(r * rsize >= 0) by (nonlinear_arith)
                    requires
                        r >= 0,
                        rsize >= 0,
                ;
            }
            let off = data_start + r * rsize + 8 + 4 * i;
            let v = u32_from_le_bytes(slice_subrange(bytes.as_slice(), off, off + 4));
            proof {
                let ri = r as int;
                let ii = i as int;
                let a = ri * rsize + 8 + 4 * ii;
                assert(bytes@.subrange(off as int, off + 4) =~= body.subrange(a, a + 4));
                assert(decoded_line(body, k as int, ii)[ri] == spec_u32_from_le_bytes(
                    body.subrange(a, a + 4),
                ));
            }
            line.push(v);
            r = r + 1;
        }
        proof {
            assert(line@ =~= decoded_line(body, k as int, i as int));
        }
        lines.push(line);
        i = i + 1;
    }
    lines
}

/// Decodes one intensity-trace file and merges its channels into the
/// dataset. A wrong format tag decodes to nothing (the dataset is left as
/// it was and no error is raised); a file too short for its own header or
/// metadata, or metadata without a readable channel list, rejects the file
/// without touching the dataset.
pub fn process_bin_file(bytes: &Vec<u8>, channel_data: &mut ChannelDataset) -> (r: Result<
    (),
    IngestError,
>)
    requires
        dataset_wf(*old(channel_data)),
        bytes@.len() <= MAX_FILE_BYTES,
    ensures
        dataset_wf(*final(channel_data)),
        bytes@.len() < 4 ==> r == Err::<(), IngestError>(IngestError::TruncatedFile) && *final(channel_data) == *old(channel_data),
        bytes@.len() >= 4 && !has_intensity_magic(bytes@) ==> r == Ok::<(), IngestError>(())
            && *final(channel_data) == *old(channel_data),
        has_intensity_magic(bytes@) && bytes@.len() < 8 ==> r == Err::<(), IngestError>(
            IngestError::TruncatedFile,
        ) && *final(channel_data) == *old(channel_data),
        has_intensity_magic(bytes@) && bytes@.len() >= 8 && 8 + meta_len_of(bytes@)
            > bytes@.len() ==> r == Err::<(), IngestError>(IngestError::TruncatedFile) && *final(channel_data) == *old(channel_data),
        has_intensity_magic(bytes@) && bytes@.len() >= 8 && 8 + meta_len_of(bytes@)
            <= bytes@.len() ==> {
            let meta = bytes@.subrange(8, 8 + meta_len_of(bytes@));
            match parse_channels(meta) {
                None => r == Err::<(), IngestError>(IngestError::MalformedMetadata) && *final(channel_data) == *old(channel_data),
                Some(chs) => r == Ok::<(), IngestError>(()) && dataset_view(*final(channel_data))
                    == apply_inserts(
                    dataset_view(*old(channel_data)),
                    decode_insert_list(chs, bytes@.skip(8 + meta_len_of(bytes@))),
                ),
            }
        },
{
    let n = bytes.len();
    if n < 4 {
        return Err(IngestError::TruncatedFile);
    }
    if !(bytes[0] == 0x49 && bytes[1] == 0x54 && bytes[2] == 0x30 && bytes[3] == 0x32) {
        return Ok(());
    }
    if n < 8 {
        return Err(IngestError::TruncatedFile);
    }
    let l = u32_from_le_bytes(slice_subrange(bytes.as_slice(), 4, 8)) as usize;
    proof {
        assert(l == meta_len_of(bytes@));
    }
    if l > n - 8 {
        return Err(IngestError::TruncatedFile);
    }
    let mut meta: Vec<u8> = Vec::new();
    let mut mi: usize = 0;
    while mi < l
        invariant
            8 + l <= bytes@.len(),
            bytes@.len() <= MAX_FILE_BYTES,
            mi <= l,
            meta@ =~= bytes@.subrange(8, 8 + mi),
        decreases l - mi,
    {
        meta.push(bytes[8 + mi]);
        mi = mi + 1;
    }
    proof {
        assert(meta@ =~= bytes@.subrange(8, 8 + l));
    }
    let chs = match parse_channels_exec(&meta) {
        None => {
            return Err(IngestError::MalformedMetadata);
        },
        Some(c) => c,
    };
    proof {
        lemma_parse_channels_len(meta@);
        assert(chs@.len() <= meta@.len() + 1);
    }
    let k = chs.len();
    let lines = read_channels_data(bytes, 8 + l, k);
    let data = prepare_data_to_insert(&chs, lines);
    let ghost list = data@.map_values(
        |p: (u8, Vec<Vec<u32>>)| (p.0, p.1@.map_values(|v: Vec<u32>| v@)),
    );
    proof {
        assert(list =~~= decode_insert_list(chs@, bytes@.skip(8 + l)));
    }
    insert_data_into_channel_data(channel_data, data);
    Ok(())
}

} // verus!
