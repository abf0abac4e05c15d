//! Fluorescence correlation spectroscopy (FCS) post-processing engine.
//!
//! The library ingests raw binary intensity-trace files into per-channel
//! time series, derives a logarithmically spaced lag-time index, computes
//! the normalized g2 correlation function for requested channel pairs, and
//! averages the results of repeated acquisitions. Intensity counts are
//! integers, so every g2 value is held exactly as a rational number, and
//! is flattened to a 32-bit fixed-point integer only for persistence and
//! averaging; the whole numeric pipeline is verified.
//!
//! File and directory handling, clocks and host bindings stay outside the
//! library: callers hand in file bytes, timestamps and plain parameters.

use vstd::prelude::*;

mod aggregate;
mod artifact;
mod average;
mod correlation;
mod dataset;
mod files;
mod ingest;
mod lag;
mod metadata;
mod models;
mod pipeline;
mod rational;

pub use aggregate::calculate_average_correlation;
pub use aggregate::AggregationError;
pub use artifact::build_metadata_json;
pub use artifact::decode_final_artifact;
pub use artifact::encode_final_artifact;
pub use artifact::lemma_artifact_round_trip;
pub use average::fluorescence_average_correlation_spectroscopy_calc;
pub use average::get_gt_serializes_calculation_data;
pub use correlation::calculate_correlation;
pub use correlation::lemma_autocorrelation_at_zero_constant;
pub use correlation::lemma_autocorrelation_at_zero_nonneg;
pub use correlation::lemma_cauchy_schwarz_self;
pub use correlation::MAX_SAMPLE;
pub use correlation::MAX_TRACE_LEN;
pub use dataset::adjust_channel_data_lengths;
pub use dataset::calculate_intensities_vector_max_length;
pub use dataset::insert_data_into_channel_data;
pub use dataset::prepare_data_to_insert;
pub use dataset::ChannelDataset;
pub use dataset::ChannelEntry;
pub use files::calculate_intensity_entries_num;
pub use files::create_flim_file;
pub use files::filter_files_by_prefix;
pub use files::record_file_name;
pub use files::sort_files_by_modified_time;
pub use files::FileStamp;
pub use ingest::process_bin_file;
pub use ingest::IngestError;
pub use ingest::MAX_FILE_BYTES;
pub use lag::calculate_lag_index;
pub use lag::lemma_lag_index_deterministic;
pub use lag::MAX_DATA_LENGTH;
pub use models::Correlation;
pub use models::FcsAverageCalculationInput;
pub use models::FcsCalculationData;
pub use models::FcsError;
pub use models::IntensityData;
pub use models::PostProcessingFCSInput;
pub use pipeline::fluorescence_correlation_spectroscopy_calc;
pub use pipeline::FcsComputeOutput;
pub use rational::G2Value;
pub use rational::G2_SCALE;
pub use rational::G2_SCALED_CAP;

verus! {

} // verus!
