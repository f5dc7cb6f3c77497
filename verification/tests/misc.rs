use parq::codec::{parse_compression, Compression};
use parq::config::{conversion_config, PipelineConfig};
use parq::error::ParqError;
use parq::integer::parse_i64;
use parq::lines::{strip_bom, trim_ascii};
use parq::metrics::{ConversionMetrics, ProcessingMetrics};

#[test]
fn compression_names_ignore_case() {
    assert_eq!(parse_compression("snappy").unwrap(), Compression::Snappy);
    assert_eq!(parse_compression("GZIP").unwrap(), Compression::Gzip);
    assert_eq!(parse_compression("Brotli").unwrap(), Compression::Brotli);
    assert_eq!(parse_compression("zStd").unwrap(), Compression::Zstd);
    assert_eq!(parse_compression("LZ4").unwrap(), Compression::Lz4);
    assert_eq!(parse_compression("none").unwrap(), Compression::Uncompressed);
    assert_eq!(parse_compression("Uncompressed").unwrap(), Compression::Uncompressed);
}

#[test]
fn unknown_compression_is_a_config_error() {
    match parse_compression("LZO") {
        Err(ParqError::Config(m)) => assert_eq!(
            m,
            "Unknown compression 'lzo'. Options: [\"snappy\", \"gzip\", \"brotli\", \"zstd\", \"lz4\", \"none\"]"
        ),
        other => panic!("unexpected {other:?}"),
    }
}

#[test]
fn default_config() {
    let c = PipelineConfig::default();
    assert_eq!(c.batch_size, 65_536);
    assert_eq!(c.channel_depth, 8);
    assert_eq!(c.compression, Compression::Snappy);
    assert_eq!(c.num_threads, 0);
    assert!(!c.ignore_errors && !c.flatten);
    assert!(c.limit.is_none() && c.schema_path.is_none() && c.chunk_size.is_none());
    assert!(c.dead_letter_path.is_none());
    assert!(c.input_path.is_empty() && c.output_path.is_empty());
    assert!(c.thread_count() >= 1);
    let c2 = PipelineConfig { num_threads: 3, ..PipelineConfig::default() };
    assert_eq!(c2.thread_count(), 3);
}

#[test]
fn conversion_metrics_copy_fields() {
    let m = ProcessingMetrics {
        input_bytes: 1,
        output_bytes: 2,
        rows_processed: 3,
        rows_errored: 4,
        threads_used: 5,
        total_duration_ms: 6,
        parse_duration_ms: 7,
        write_duration_ms: 8,
    };
    let c = ConversionMetrics::from(m);
    assert_eq!(
        (c.input_bytes, c.output_bytes, c.rows_processed, c.rows_errored, c.threads_used),
        (1, 2, 3, 4, 5)
    );
    assert_eq!((c.total_duration_ms, c.parse_duration_ms, c.write_duration_ms), (6, 7, 8));
}

#[test]
fn bom_and_trim() {
    assert_eq!(strip_bom(b"\xEF\xBB\xBFabc"), b"abc");
    assert_eq!(strip_bom(b"\xEF\xBBabc"), b"\xEF\xBBabc");
    assert_eq!(trim_ascii(b" \t\r\n{}\x0c \n"), b"{}");
    assert_eq!(trim_ascii(b"\x0b{}"), b"\x0b{}");
    assert_eq!(trim_ascii(b"   "), b"");
}

#[test]
fn i64_grammar() {
    assert_eq!(parse_i64("123"), Some(123));
    assert_eq!(parse_i64("-123"), Some(-123));
    assert_eq!(parse_i64("+7"), Some(7));
    assert_eq!(parse_i64("9223372036854775807"), Some(i64::MAX));
    assert_eq!(parse_i64("-9223372036854775808"), Some(i64::MIN));
    assert_eq!(parse_i64("9223372036854775808"), None);
    assert_eq!(parse_i64(""), None);
    assert_eq!(parse_i64("+"), None);
    assert_eq!(parse_i64("1.0"), None);
    assert_eq!(parse_i64("00012"), Some(12));
    for s in ["0", "-1", "+99", "x", "1e3", " 1", "-9223372036854775809", "١٢"] {
        assert_eq!(parse_i64(s), s.parse::<i64>().ok(), "{s}");
    }
}

#[test]
fn conversion_config_carries_arguments() {
    let c = conversion_config(
        "in.jsonl".to_string(),
        "out.parquet".to_string(),
        "ZSTD",
        4,
        100,
        2,
        true,
        true,
        Some(10),
        Some("s.json".to_string()),
        Some(4096),
        Some("bad.jsonl".to_string()),
    )
    .unwrap();
    assert_eq!(c.input_path, "in.jsonl");
    assert_eq!(c.output_path, "out.parquet");
    assert_eq!(c.compression, Compression::Zstd);
    assert_eq!((c.num_threads, c.batch_size, c.channel_depth), (4, 100, 2));
    assert!(c.ignore_errors && c.flatten);
    assert_eq!(c.limit, Some(10));
    assert_eq!(c.schema_path.as_deref(), Some("s.json"));
    assert_eq!(c.chunk_size, Some(4096));
    assert_eq!(c.dead_letter_path.as_deref(), Some("bad.jsonl"));
}

#[test]
fn conversion_config_refuses_unknown_codec() {
    let e = conversion_config(
        String::new(), String::new(), "Snappy2", 0, 65536, 8, false, false, None, None, None, None,
    );
    match e {
        Err(m) => assert_eq!(
            m,
            "Unknown compression codec 'snappy2'. Options: snappy, gzip, brotli, zstd, lz4, none"
        ),
        Ok(_) => panic!("accepted an unknown codec"),
    }
}
