//! Plain data carried across the engine's boundary: host-facing inputs,
//! the persisted per-acquisition record, and the error taxonomy.
//!
//! g2 values appear here in their fixed-point form (see
//! `crate::rational::G2_SCALE`): one integer per lag, `2^32` standing for
//! 1.0. Free-text notes travel as raw bytes.

use crate::aggregate::AggregationError;
use crate::ingest::IngestError;
use vstd::prelude::*;

verus! {

/// One channel's intensity trace as handed over by the host.
#[derive(Debug, Clone)]
pub struct IntensityData {
    pub index: usize,
    pub data: Vec<usize>,
}

impl IntensityData {
    /// Packs an index and a trace.
    pub fn new(index: usize, data: Vec<usize>) -> (r: IntensityData)
        ensures
            r.index == index,
            r.data == data,
    {
        IntensityData { index, data }
    }
}

/// A requested channel pair.
#[derive(Debug, Clone, Copy)]
pub struct Correlation {
    pub intensity1_index: usize,
    pub intensity2_index: usize,
}

/// A host request for one post-processing pass.
#[derive(Debug, Clone)]
pub struct PostProcessingFCSInput {
    pub correlations: Vec<(usize, usize)>,
    pub bin_width_us: usize,
    pub acquisition_time_us: usize,
    pub intensities: Vec<IntensityData>,
}

/// The persisted snapshot of one acquisition's computation.
#[derive(Debug, Clone)]
pub struct FcsCalculationData {
    pub intensities_length: u64,
    pub correlations: Vec<(usize, usize)>,
    pub num_acquisitions: usize,
    pub enabled_channels: Vec<usize>,
    pub bin_width: u32,
    pub acquisition_time: u32,
    pub notes: Vec<u8>,
    pub export_data: bool,
    pub lag_index: Vec<i64>,
    pub g2_correlations: Vec<((usize, usize), Vec<Vec<i128>>)>,
}

/// The outcome of an averaging pass: shared metadata and, per pair, the
/// mean vector followed by the raw repetitions.
#[derive(Debug, Clone)]
pub struct FcsAverageCalculationInput {
    pub export_data: bool,
    pub num_acquisitions: usize,
    pub correlations: Vec<(usize, usize)>,
    pub enabled_channels: Vec<usize>,
    pub bin_width: u32,
    pub acquisition_time: u32,
    pub lag_index: Vec<i64>,
    pub notes: Vec<u8>,
    pub intensities_length: u64,
    pub g2_correlations: Vec<((usize, usize), Vec<Vec<i128>>)>,
}

/// Every failure the engine reports to its caller, by stage.
#[derive(Debug, Clone, Copy, PartialEq, Eq, Structural)]
pub enum FcsError {
    Ingestion(IngestError),
    NoCalculationsFound,
    Aggregation(AggregationError),
}

impl FcsError {
    /// A short description of the failing stage.
    pub fn describe(&self) -> (r: &'static str)
    {
        match self {
            FcsError::Ingestion(IngestError::TruncatedFile) => "ingestion: truncated file",
            FcsError::Ingestion(IngestError::MalformedMetadata) => "ingestion: malformed metadata",
            FcsError::NoCalculationsFound => "persistence: no calculations found",
            FcsError::Aggregation(AggregationError::NoRepetitions) => "aggregation: no repetitions",
            FcsError::Aggregation(AggregationError::LengthMismatch) => "aggregation: repetition length mismatch",
            FcsError::Aggregation(AggregationError::Overflow) => "aggregation: accumulator overflow",
        }
    }
}

} // verus!
