//! Decoding of raw intensity-trace files: the format tag, the metadata
//! channel list, record decoding, and the tolerated trailing record.

use fcs_flim::process_bin_file;
use fcs_flim::ChannelDataset;
use fcs_flim::IngestError;

fn file_bytes(metadata: &str, records: &[(u64, &[u32])]) -> Vec<u8> {
    let mut bytes = Vec::new();
    bytes.extend_from_slice(b"IT02");
    bytes.extend_from_slice(&(metadata.len() as u32).to_le_bytes());
    bytes.extend_from_slice(metadata.as_bytes());
    for (header, values) in records {
        bytes.extend_from_slice(&header.to_le_bytes());
        for v in *values {
            bytes.extend_from_slice(&v.to_le_bytes());
        }
    }
    bytes
}

#[test]
fn decodes_two_channels_over_two_records() {
    let bytes = file_bytes(
        "{\"channels\":[0,1]}",
        &[(0, &[10, 20]), (0xDEAD_BEEF, &[30, 40])],
    );
    let mut dataset = ChannelDataset::new();
    process_bin_file(&bytes, &mut dataset).unwrap();
    assert_eq!(dataset.entries.len(), 2);
    assert_eq!(dataset.entries[0].channel, 0);
    assert_eq!(dataset.entries[0].repetitions, vec![vec![10, 30]]);
    assert_eq!(dataset.entries[1].channel, 1);
    assert_eq!(dataset.entries[1].repetitions, vec![vec![20, 40]]);
}

#[test]
fn wrong_magic_decodes_to_nothing_without_error() {
    let mut bytes = file_bytes("{\"channels\":[0]}", &[(0, &[7])]);
    bytes[0] = b'X';
    let mut dataset = ChannelDataset::new();
    let r = process_bin_file(&bytes, &mut dataset);
    assert!(r.is_ok());
    assert_eq!(dataset.entries.len(), 0);
}

#[test]
fn truncated_trailing_record_is_dropped() {
    let mut bytes = file_bytes("{\"channels\":[0,1]}", &[(1, &[10, 20]), (2, &[30, 40])]);
    bytes.extend_from_slice(&[1, 2, 3, 4, 5]);
    let mut dataset = ChannelDataset::new();
    process_bin_file(&bytes, &mut dataset).unwrap();
    assert_eq!(dataset.entries[0].repetitions, vec![vec![10, 30]]);
    assert_eq!(dataset.entries[1].repetitions, vec![vec![20, 40]]);
}

#[test]
fn second_file_appends_a_repetition() {
    let a = file_bytes("{\"channels\":[3]}", &[(0, &[1]), (0, &[2])]);
    let b = file_bytes("{\"channels\":[3]}", &[(0, &[9])]);
    let mut dataset = ChannelDataset::new();
    process_bin_file(&a, &mut dataset).unwrap();
    process_bin_file(&b, &mut dataset).unwrap();
    assert_eq!(dataset.entries.len(), 1);
    assert_eq!(dataset.entries[0].channel, 3);
    assert_eq!(dataset.entries[0].repetitions, vec![vec![1, 2], vec![9]]);
}

#[test]
fn metadata_with_whitespace_and_extra_fields() {
    let bytes = file_bytes(
        "{\"bin_width_micros\":100, \"channels\": [ 2 , 5 ]}",
        &[(0, &[11, 22])],
    );
    let mut dataset = ChannelDataset::new();
    process_bin_file(&bytes, &mut dataset).unwrap();
    assert_eq!(dataset.entries[0].channel, 2);
    assert_eq!(dataset.entries[1].channel, 5);
}

#[test]
fn metadata_without_channel_list_is_malformed() {
    let bytes = file_bytes("{\"other\":1}", &[]);
    let mut dataset = ChannelDataset::new();
    let r = process_bin_file(&bytes, &mut dataset);
    assert_eq!(r.unwrap_err(), IngestError::MalformedMetadata);
}

#[test]
fn channel_id_beyond_a_byte_is_malformed() {
    let bytes = file_bytes("{\"channels\":[300]}", &[]);
    let mut dataset = ChannelDataset::new();
    let r = process_bin_file(&bytes, &mut dataset);
    assert_eq!(r.unwrap_err(), IngestError::MalformedMetadata);
}

#[test]
fn file_shorter_than_its_header_is_truncated() {
    let mut dataset = ChannelDataset::new();
    let r = process_bin_file(&vec![b'I', b'T'], &mut dataset);
    assert_eq!(r.unwrap_err(), IngestError::TruncatedFile);
    let r2 = process_bin_file(&b"IT02\xFF\x00\x00\x00".to_vec(), &mut dataset);
    assert_eq!(r2.unwrap_err(), IngestError::TruncatedFile);
}

#[test]
fn empty_channel_list_decodes_to_nothing() {
    let bytes = file_bytes("{\"channels\":[]}", &[]);
    let mut dataset = ChannelDataset::new();
    process_bin_file(&bytes, &mut dataset).unwrap();
    assert_eq!(dataset.entries.len(), 0);
}
