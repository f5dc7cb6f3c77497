use parq::error::ParqError;
use parq::metrics::ProcessingMetrics;
use parq::parser::parse_chunk;
use parq::report::{
    failure_of, failure_report_text, metrics_report_text, push_decimal, push_json_str,
    success_report_text, RunFailure,
};
use parq::schema::{DataType, Field, Schema};

#[test]
fn telemetry_success() {
    assert_eq!(
        success_report_text(5_000_000),
        "{\n  \"status\": \"success\",\n  \"rows_processed\": 5000000\n}"
    );
}

#[test]
fn telemetry_json_parse() {
    let f = RunFailure::JsonParse {
        line: 4820,
        message: "expected value at line 1 column 12".to_string(),
    };
    assert_eq!(
        failure_report_text(&f),
        "{\n  \"status\": \"failed\",\n  \"error_type\": \"JsonParse\",\n  \"details\": {\n    \"line\": 4820,\n    \"message\": \"expected value at line 1 column 12\"\n  }\n}"
    );
}

#[test]
fn telemetry_type_mismatch_from_a_parse() {
    let schema = Schema {
        fields: vec![Field { name: "active".to_string(), data_type: DataType::Boolean, nullable: true }],
    };
    let err = parse_chunk(b"{\"active\": true}\n{\"active\": 123}\n", &schema, 10, false, false, None, &mut None)
        .unwrap_err();
    let f = failure_of(&err, "unused");
    assert_eq!(
        failure_report_text(&f),
        "{\n  \"status\": \"failed\",\n  \"error_type\": \"TypeMismatch\",\n  \"details\": {\n    \"field\": \"active\",\n    \"expected\": \"Boolean\",\n    \"found\": \"Number(123)\",\n    \"line\": 2\n  }\n}"
    );
}

#[test]
fn telemetry_insufficient_data() {
    let f = failure_of(&ParqError::InsufficientData { rows: 0 }, "unused");
    assert_eq!(f, RunFailure::InsufficientData { rows: 0 });
    assert_eq!(
        failure_report_text(&f),
        "{\n  \"status\": \"failed\",\n  \"error_type\": \"InsufficientData\",\n  \"details\": {\n    \"rows\": 0\n  }\n}"
    );
}

#[test]
fn telemetry_generic() {
    let f = failure_of(&ParqError::Config("bad option".to_string()), "Configuration error: bad option");
    assert_eq!(f, RunFailure::Generic { message: "Configuration error: bad option".to_string() });
    let g = RunFailure::Generic { message: "No such file or directory (os error 2)".to_string() };
    assert_eq!(
        failure_report_text(&g),
        "{\n  \"status\": \"failed\",\n  \"error_type\": \"Generic\",\n  \"message\": \"No such file or directory (os error 2)\"\n}"
    );
}

#[test]
fn json_parse_failure_keeps_line_and_message() {
    let schema = Schema { fields: vec![] };
    let err = parse_chunk(b"{}\n{bad\n", &schema, 10, false, false, None, &mut None).unwrap_err();
    match failure_of(&err, "unused") {
        RunFailure::JsonParse { line, message } => {
            assert_eq!(line, 2);
            assert!(message.contains("line 1 column 2"), "{message}");
        }
        other => panic!("unexpected {other:?}"),
    }
}

#[test]
fn strings_are_escaped() {
    let mut out = String::new();
    push_json_str(&mut out, "a\"b\\c\nd\te\u{1}f\u{8}\u{c}\r é\u{1f}");
    assert_eq!(out, "\"a\\\"b\\\\c\\nd\\te\\u0001f\\b\\f\\r é\\u001f\"");
    let mut plain = String::from("x=");
    push_json_str(&mut plain, "plain text");
    assert_eq!(plain, "x=\"plain text\"");
    for s in ["", "\"", "ü\u{7f}\u{0}", "\\\\"] {
        let mut o = String::new();
        push_json_str(&mut o, s);
        let back: String = serde_json::from_str(&o).unwrap();
        assert_eq!(back, s);
    }
}

#[test]
fn decimals() {
    for n in [0u64, 7, 10, 99, 100, 12345, u64::MAX] {
        let mut out = String::from("#");
        push_decimal(&mut out, n);
        assert_eq!(out, format!("#{n}"));
    }
}

#[test]
fn metrics_as_json() {
    let m = ProcessingMetrics {
        input_bytes: 1024,
        output_bytes: 256,
        rows_processed: 10,
        rows_errored: 1,
        threads_used: 4,
        total_duration_ms: 30,
        parse_duration_ms: 20,
        write_duration_ms: 10,
    };
    let text = metrics_report_text(&m);
    assert_eq!(
        text,
        "{\n  \"input_bytes\": 1024,\n  \"output_bytes\": 256,\n  \"rows_processed\": 10,\n  \"rows_errored\": 1,\n  \"threads_used\": 4,\n  \"total_duration_ms\": 30,\n  \"parse_duration_ms\": 20,\n  \"write_duration_ms\": 10\n}"
    );
    let v: serde_json::Value = serde_json::from_str(&text).unwrap();
    assert_eq!(v["rows_processed"], 10);
}
