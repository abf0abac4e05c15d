//! The end-to-end computation pass and the averaging pass on concrete
//! datasets and records.

use fcs_flim::fluorescence_average_correlation_spectroscopy_calc;
use fcs_flim::AggregationError;
use fcs_flim::IngestError;
use fcs_flim::fluorescence_correlation_spectroscopy_calc;
use fcs_flim::ChannelDataset;
use fcs_flim::ChannelEntry;
use fcs_flim::FcsCalculationData;
use fcs_flim::FcsError;

fn two_channel_dataset() -> ChannelDataset {
    ChannelDataset {
        entries: vec![
            ChannelEntry { channel: 0, repetitions: vec![vec![1, 2, 3, 4, 5, 6]] },
            ChannelEntry { channel: 1, repetitions: vec![vec![6, 5, 4, 3, 2, 1]] },
        ],
    }
}

#[test]
fn two_anticorrelated_channels_end_to_end() {
    let dataset = two_channel_dataset();
    let out = fluorescence_correlation_spectroscopy_calc(&vec![(0, 1)], &dataset, 6);
    assert_eq!(out.lag_index[0], 0);
    assert!(out.lag_index.iter().all(|&l| 0 <= l && l <= 5));
    assert!(out.skipped.is_empty());
    assert_eq!(out.g2_correlations.len(), 1);
    let (pair, reps) = &out.g2_correlations[0];
    assert_eq!(*pair, (0, 1));
    assert_eq!(reps.len(), 1);
    assert_eq!(reps[0].len(), out.lag_index.len());
    // g2 at lag 0 is -630/2646, scaled by 2^32 and rounded towards zero.
    assert_eq!(reps[0][0], -((630i128 << 32) / 2646));
    assert!(reps[0][0] < 0);
}

#[test]
fn missing_channel_skips_the_pair_and_keeps_the_rest() {
    let dataset = two_channel_dataset();
    let out = fluorescence_correlation_spectroscopy_calc(
        &vec![(0, 9), (0, 1), (700, 0)],
        &dataset,
        6,
    );
    assert_eq!(out.skipped, vec![(0, 9), (700, 0)]);
    assert_eq!(out.g2_correlations.len(), 1);
    assert_eq!(out.g2_correlations[0].0, (0, 1));
}

#[test]
fn autocorrelation_pair_is_supported() {
    let dataset = two_channel_dataset();
    let out = fluorescence_correlation_spectroscopy_calc(&vec![(0, 0)], &dataset, 6);
    assert_eq!(out.g2_correlations.len(), 1);
    assert!(out.g2_correlations[0].1[0][0] >= 0);
}

fn record_with(reps: Vec<Vec<i128>>) -> FcsCalculationData {
    FcsCalculationData {
        intensities_length: 2,
        correlations: vec![(0, 1)],
        num_acquisitions: 2,
        enabled_channels: vec![0, 1],
        bin_width: 10,
        acquisition_time: 200,
        notes: b"avg".to_vec(),
        export_data: false,
        lag_index: vec![0, 1],
        g2_correlations: vec![((0, 1), reps)],
    }
}

#[test]
fn averaging_two_records_prepends_the_mean() {
    let records = vec![record_with(vec![vec![2, 4]]), record_with(vec![vec![4, 6]])];
    let out = fluorescence_average_correlation_spectroscopy_calc(2, records).unwrap();
    assert_eq!(out.num_acquisitions, 2);
    assert_eq!(out.correlations, vec![(0, 1)]);
    assert_eq!(out.lag_index, vec![0, 1]);
    assert_eq!(out.notes, b"avg".to_vec());
    assert_eq!(out.g2_correlations.len(), 1);
    assert_eq!(out.g2_correlations[0].0, (0, 1));
    assert_eq!(
        out.g2_correlations[0].1,
        vec![vec![3i128, 5], vec![2, 4], vec![4, 6]]
    );
}

#[test]
fn fewer_records_than_requested_is_not_an_error() {
    let records = vec![record_with(vec![vec![8, 10]])];
    let out = fluorescence_average_correlation_spectroscopy_calc(5, records).unwrap();
    // A single repetition is its own mean.
    assert_eq!(
        out.g2_correlations[0].1,
        vec![vec![8i128, 10], vec![8, 10]]
    );
}

#[test]
fn zero_records_is_an_error() {
    let r = fluorescence_average_correlation_spectroscopy_calc(3, Vec::new());
    let e = r.unwrap_err();
    assert_eq!(e, FcsError::NoCalculationsFound);
    assert_eq!(e.describe(), "persistence: no calculations found");
}

#[test]
fn every_error_stage_has_a_description() {
    assert_eq!(
        FcsError::Ingestion(IngestError::TruncatedFile).describe(),
        "ingestion: truncated file"
    );
    assert_eq!(
        FcsError::Ingestion(IngestError::MalformedMetadata).describe(),
        "ingestion: malformed metadata"
    );
    assert_eq!(
        FcsError::Aggregation(AggregationError::LengthMismatch).describe(),
        "aggregation: repetition length mismatch"
    );
}

#[test]
fn record_pair_without_repetitions_is_an_error() {
    let records = vec![record_with(Vec::new())];
    let r = fluorescence_average_correlation_spectroscopy_calc(1, records);
    assert!(matches!(r.unwrap_err(), FcsError::Aggregation(_)));
}
