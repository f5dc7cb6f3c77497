//! Pipeline run statistics.
use vstd::prelude::*;

verus! {

/// Statistics gathered during one complete pipeline execution.
#[derive(Debug, Clone, Copy, Default)]
pub struct ProcessingMetrics {
    pub input_bytes: usize,
    pub output_bytes: usize,
    pub rows_processed: usize,
    pub rows_errored: usize,
    pub threads_used: usize,
    pub total_duration_ms: u64,
    pub parse_duration_ms: u64,
    pub write_duration_ms: u64,
}

/// The statistics handed to the Python side after a conversion.
#[derive(Debug, Clone, Copy)]
pub struct ConversionMetrics {
    pub input_bytes: usize,
    pub output_bytes: usize,
    pub rows_processed: usize,
    pub rows_errored: usize,
    pub threads_used: usize,
    pub total_duration_ms: u64,
    pub parse_duration_ms: u64,
    pub write_duration_ms: u64,
}

pub open spec fn conversion_of(m: ProcessingMetrics) -> ConversionMetrics {
    ConversionMetrics {
        input_bytes: m.input_bytes,
        output_bytes: m.output_bytes,
        rows_processed: m.rows_processed,
        rows_errored: m.rows_errored,
        threads_used: m.threads_used,
        total_duration_ms: m.total_duration_ms,
        parse_duration_ms: m.parse_duration_ms,
        write_duration_ms: m.write_duration_ms,
    }
}

impl From<ProcessingMetrics> for ConversionMetrics {
    fn from(m: ProcessingMetrics) -> (res: ConversionMetrics) {
        ConversionMetrics {
            input_bytes: m.input_bytes,
            output_bytes: m.output_bytes,
            rows_processed: m.rows_processed,
            rows_errored: m.rows_errored,
            threads_used: m.threads_used,
            total_duration_ms: m.total_duration_ms,
            parse_duration_ms: m.parse_duration_ms,
            write_duration_ms: m.write_duration_ms,
        }
    }
}

impl vstd::std_specs::convert::FromSpecImpl<ProcessingMetrics> for ConversionMetrics {
    open spec fn obeys_from_spec() -> bool {
        true
    }

    open spec fn from_spec(m: ProcessingMetrics) -> ConversionMetrics {
        conversion_of(m)
    }
}

} // verus!
