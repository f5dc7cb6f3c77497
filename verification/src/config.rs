//! Pipeline configuration.
use vstd::prelude::*;
use vstd::string::StringExecFns;
use crate::codec::{codec_named, codec_of, lowercase, to_lowercase, Compression};

verus! {

/// Full pipeline configuration.
pub struct PipelineConfig {
    pub input_path: String,
    pub output_path: String,
    pub batch_size: usize,
    pub compression: Compression,
    /// Worker threads; 0 means one per available CPU.
    pub num_threads: usize,
    /// Lenient: skip malformed records.
    pub ignore_errors: bool,
    /// Flatten nested JSON objects (`user.id` → `user_id`).
    pub flatten: bool,
    pub limit: Option<usize>,
    /// JSON schema file path (skips auto-inference when set).
    pub schema_path: Option<String>,
    /// Bounded channel depth — number of batches in flight.
    pub channel_depth: usize,
    /// Raw chunk size override (bytes). `None` = 64 MiB default.
    pub chunk_size: Option<usize>,
    /// Where the lines skipped in lenient mode are written, one per line.
    pub dead_letter_path: Option<String>,
}

impl Default for PipelineConfig {
    fn default() -> (res: PipelineConfig)
        ensures
            res.input_path@.len() == 0,
            res.output_path@.len() == 0,
            res.batch_size == 65536,
            res.compression == Compression::Snappy,
            res.num_threads == 0,
            !res.ignore_errors,
            !res.flatten,
            res.limit is None,
            res.schema_path is None,
            res.channel_depth == 8,
            res.chunk_size is None,
            res.dead_letter_path is None,
    {
        PipelineConfig {
            input_path: String::new(),
            output_path: String::new(),
            batch_size: 65536,
            compression: Compression::Snappy,
            num_threads: 0,
            ignore_errors: false,
            flatten: false,
            limit: None,
            schema_path: None,
            channel_depth: 8,
            chunk_size: None,
            dead_letter_path: None,
        }
    }
}

/// Calls `num_cpus::get`, the number of CPUs available to this process,
/// which its documentation promises is at least 1.
#[verifier::external_body]
fn available_cpus() -> (res: usize)
    ensures
        res >= 1,
{
    num_cpus::get()
}

impl PipelineConfig {
    /// The number of worker threads to run: `num_threads`, or one per
    /// available CPU when it is 0.
    pub fn thread_count(&self) -> (res: usize)
        ensures
            self.num_threads != 0 ==> res == self.num_threads,
            res >= 1,
    {
        if self.num_threads == 0 {
            available_cpus()
        } else {
            self.num_threads
        }
    }
}

/// The message of the Python binding for an unknown codec name (already
/// lower-cased).
pub open spec fn unknown_codec_message_py(name: Seq<char>) -> Seq<char> {
    "Unknown compression codec '"@ + name + "'. Options: snappy, gzip, brotli, zstd, lz4, none"@
}

/// The configuration the Python `convert` call runs with: its arguments, and
/// the codec named by `compression`, ignoring case.  An unknown codec name is
/// refused with the binding's message, before anything runs.
#[allow(clippy::too_many_arguments)]
pub fn conversion_config(
    input_path: String,
    output_path: String,
    compression: &str,
    threads: usize,
    batch_size: usize,
    channel_depth: usize,
    ignore_errors: bool,
    flatten: bool,
    limit: Option<usize>,
    schema: Option<String>,
    chunk_size: Option<usize>,
    dead_letter_path: Option<String>,
) -> (res: Result<PipelineConfig, String>)
    ensures
        match codec_named(lowercase(compression@)) {
            Some(c) => res matches Ok(cfg) && {
                &&& cfg.input_path == input_path
                &&& cfg.output_path == output_path
                &&& cfg.batch_size == batch_size
                &&& cfg.compression == c
                &&& cfg.num_threads == threads
                &&& cfg.ignore_errors == ignore_errors
                &&& cfg.flatten == flatten
                &&& cfg.limit == limit
                &&& cfg.schema_path == schema
                &&& cfg.channel_depth == channel_depth
                &&& cfg.chunk_size == chunk_size
                &&& cfg.dead_letter_path == dead_letter_path
            },
            None => res matches Err(m) && m@ == unknown_codec_message_py(lowercase(compression@)),
        },
{
    let lower = to_lowercase(compression);
    match codec_of(lower.as_str()) {
        Some(c) => Ok(
            PipelineConfig {
                input_path,
                output_path,
                batch_size,
                compression: c,
                num_threads: threads,
                ignore_errors,
                flatten,
                limit,
                schema_path: schema,
                channel_depth,
                chunk_size,
                dead_letter_path,
            },
        ),
        None => {
            let mut m = String::from_str("Unknown compression codec '");
            m.append(lower.as_str());
            m.append("'. Options: snappy, gzip, brotli, zstd, lz4, none");
            Err(m)
        },
    }
}

} // verus!
