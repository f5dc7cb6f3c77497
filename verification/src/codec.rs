//! Compression codec names.
use vstd::prelude::*;
use vstd::string::StringExecFns;
use crate::error::ParqError;
use crate::schema::str_eq;

verus! {

/// The Parquet compression codecs parq writes with (default levels).
#[derive(Clone, Copy, Debug, PartialEq, Eq, Structural)]
pub enum Compression {
    Snappy,
    Gzip,
    Brotli,
    Zstd,
    Lz4,
    Uncompressed,
}

/// `str::to_lowercase`: the text in Unicode lower case, as std defines it
/// (a function of the text alone).
pub uninterp spec fn lowercase(s: Seq<char>) -> Seq<char>;

/// Calls `str::to_lowercase`.
#[verifier::external_body]
pub(crate) fn to_lowercase(s: &str) -> (res: String)
    ensures
        res@ == lowercase(s@),
{
    s.to_lowercase()
}

/// The codec a lower-case name stands for.
pub open spec fn codec_named(s: Seq<char>) -> Option<Compression> {
    if s == "snappy"@ {
        Some(Compression::Snappy)
    } else if s == "gzip"@ {
        Some(Compression::Gzip)
    } else if s == "brotli"@ {
        Some(Compression::Brotli)
    } else if s == "zstd"@ {
        Some(Compression::Zstd)
    } else if s == "lz4"@ {
        Some(Compression::Lz4)
    } else if s == "none"@ || s == "uncompressed"@ {
        Some(Compression::Uncompressed)
    } else {
        None
    }
}

/// The message for an unknown codec name (already lower-cased).
pub open spec fn unknown_codec_message(name: Seq<char>) -> Seq<char> {
    "Unknown compression '"@ + name
        + "'. Options: [\"snappy\", \"gzip\", \"brotli\", \"zstd\", \"lz4\", \"none\"]"@
}

/// The codec a lower-case name stands for, if any.
pub fn codec_of(l: &str) -> (res: Option<Compression>)
    ensures
        res == codec_named(l@),
{
    if str_eq(l, "snappy") {
        Some(Compression::Snappy)
    } else if str_eq(l, "gzip") {
        Some(Compression::Gzip)
    } else if str_eq(l, "brotli") {
        Some(Compression::Brotli)
    } else if str_eq(l, "zstd") {
        Some(Compression::Zstd)
    } else if str_eq(l, "lz4") {
        Some(Compression::Lz4)
    } else if str_eq(l, "none") || str_eq(l, "uncompressed") {
        Some(Compression::Uncompressed)
    } else {
        None
    }
}

/// Parse a codec name, ignoring case: `snappy`, `gzip`, `brotli`, `zstd`,
/// `lz4`, `none` (or `uncompressed`).
pub fn parse_compression(s: &str) -> (res: Result<Compression, ParqError>)
    ensures
        match codec_named(lowercase(s@)) {
            Some(c) => res == Ok::<Compression, ParqError>(c),
            None => res matches Err(ParqError::Config(m)) && m@ == unknown_codec_message(
                lowercase(s@),
            ),
        },
{
    let lower = to_lowercase(s);
    match codec_of(lower.as_str()) {
        Some(c) => Ok(c),
        None => {
            let mut m = String::from_str("Unknown compression '");
            m.append(lower.as_str());
            m.append("'. Options: [\"snappy\", \"gzip\", \"brotli\", \"zstd\", \"lz4\", \"none\"]");
            Err(ParqError::Config(m))
        },
    }
}

} // verus!
