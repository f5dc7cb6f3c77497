//! Error type of the parq toolchain.
use vstd::prelude::*;

verus! {

#[verifier::external_type_specification]
#[verifier::external_body]
pub struct ExJsonError(serde_json::Error);

#[verifier::external_type_specification]
#[verifier::external_body]
pub struct ExArrowError(arrow::error::ArrowError);

#[verifier::external_type_specification]
#[verifier::external_body]
pub struct ExParquetError(parquet::errors::ParquetError);

#[verifier::external_type_specification]
#[verifier::external_body]
pub struct ExIoError(std::io::Error);

/// Master error enum for the whole pipeline.
#[derive(Debug)]
pub enum ParqError {
    /// An I/O failure.
    Io(std::io::Error),
    /// A line that is not a JSON object (`line` counts from 1).
    JsonParse { line: usize, source: serde_json::Error },
    /// Schema inference saw no parseable record.
    InsufficientData { rows: usize },
    /// A value whose JSON type the column cannot hold (strict mode).
    TypeMismatch { field: String, expected: String, found: String, line: usize },
    /// Arrow refused a batch.
    Arrow(arrow::error::ArrowError),
    /// The Parquet writer failed.
    Parquet(parquet::errors::ParquetError),
    /// A bad option.
    Config(String),
}

} // verus!
