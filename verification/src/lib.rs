//! NDJSON → Parquet conversion: chunking, schema inference, JSON flattening,
//! column building and the JSON run reports, with their contracts.
pub mod chunk;
pub mod error;
pub mod json;
pub mod assoc;
pub mod lines;
pub mod flatten;
pub mod schema;
pub mod integer;
pub mod parser;
pub mod codec;
pub mod config;
pub mod metrics;
pub mod report;
