use parq::error::ParqError;
use parq::schema::{
    datatype_to_str, infer_schema, merge, schema_from_json_text, schema_to_json_string,
    str_to_datatype, DataType, Field, Schema,
};

fn field(name: &str, data_type: DataType, nullable: bool) -> Field {
    Field { name: name.to_string(), data_type, nullable }
}

fn names_and_types(s: &Schema) -> Vec<(String, DataType)> {
    s.fields.iter().map(|f| (f.name.clone(), f.data_type)).collect()
}

#[test]
fn infers_promoted_types_in_first_typed_order() {
    let data = b"{\"a\": null, \"b\": 1}\n{\"a\": 2, \"c\": true}\n{\"a\": 2.5, \"c\": 1, \"d\": \"x\"}\n";
    let s = infer_schema(data, 10_000).unwrap();
    assert_eq!(
        names_and_types(&s),
        vec![
            ("b".to_string(), DataType::Int64),
            ("a".to_string(), DataType::Float64),
            ("c".to_string(), DataType::Int64),
            ("d".to_string(), DataType::Utf8),
        ]
    );
    assert!(s.fields.iter().all(|f| f.nullable));
}

#[test]
fn always_null_keys_get_no_field() {
    let s = infer_schema(b"{\"n\": null, \"k\": false}\n{\"n\": null}\n", 100).unwrap();
    assert_eq!(names_and_types(&s), vec![("k".to_string(), DataType::Boolean)]);
}

#[test]
fn strings_arrays_objects_are_utf8() {
    let s = infer_schema(b"{\"s\": \"x\", \"a\": [1], \"o\": {\"p\": 1}}", 100).unwrap();
    assert_eq!(
        names_and_types(&s),
        vec![
            ("a".to_string(), DataType::Utf8),
            ("o".to_string(), DataType::Utf8),
            ("s".to_string(), DataType::Utf8),
        ]
    );
}

#[test]
fn bom_and_blank_lines_are_skipped() {
    let s = infer_schema(b"\xEF\xBB\xBF{\"x\": 1}\n\n   \n{\"x\": true}\n", 100).unwrap();
    assert_eq!(names_and_types(&s), vec![("x".to_string(), DataType::Int64)]);
}

#[test]
fn sample_size_limits_records_read() {
    let s = infer_schema(b"{\"x\": 1}\n{\"x\": \"text\"}\n", 1).unwrap();
    assert_eq!(names_and_types(&s), vec![("x".to_string(), DataType::Int64)]);
    // Blank lines do not count towards the sample.
    let s = infer_schema(b"\n\n{\"a\":1}\n", 2).unwrap();
    assert_eq!(names_and_types(&s), vec![("a".to_string(), DataType::Int64)]);
    assert!(matches!(infer_schema(b"{\"x\": 1}\n", 0), Err(ParqError::InsufficientData { rows: 0 })));
}

#[test]
fn empty_input_is_insufficient() {
    assert!(matches!(infer_schema(b"", 10), Err(ParqError::InsufficientData { rows: 0 })));
    assert!(matches!(infer_schema(b"  \n\n", 10), Err(ParqError::InsufficientData { rows: 0 })));
}

#[test]
fn lines_that_do_not_parse_are_passed_over() {
    let s = infer_schema(b"{\"a\":1}\nnot json\n", 10).unwrap();
    assert_eq!(names_and_types(&s), vec![("a".to_string(), DataType::Int64)]);
    // Unparsable lines do not use up the sample.
    let s = infer_schema(b"{oops\n{\"b\": true}\n", 1).unwrap();
    assert_eq!(names_and_types(&s), vec![("b".to_string(), DataType::Boolean)]);
    assert!(matches!(infer_schema(b"{oops\nnope\n", 10), Err(ParqError::InsufficientData { rows: 0 })));
}

#[test]
fn bom_and_trailing_bytes_are_ignored() {
    let d = b"{\"a\": 1}\n{\"b\": 2.5}\n";
    let base = names_and_types(&infer_schema(d, 2).unwrap());
    let with_bom = [&b"\xEF\xBB\xBF"[..], &d[..]].concat();
    assert_eq!(names_and_types(&infer_schema(&with_bom, 2).unwrap()), base);
    let with_tail = [&d[..], &b"{\"c\": \"x\"}\n{\"a\": \"s\"}\n"[..]].concat();
    assert_eq!(names_and_types(&infer_schema(&with_tail, 2).unwrap()), base);
}

#[test]
fn non_object_records_count_but_add_no_fields() {
    let s = infer_schema(b"42\n\"s\"\n", 100).unwrap();
    assert!(s.fields.is_empty());
}

#[test]
fn u64_beyond_i64_is_float() {
    let s = infer_schema(b"{\"big\": 18446744073709551615}", 10).unwrap();
    assert_eq!(names_and_types(&s), vec![("big".to_string(), DataType::Float64)]);
}

#[test]
fn merge_follows_promotion_chain() {
    let chain = [DataType::Null, DataType::Boolean, DataType::Int64, DataType::Float64, DataType::Utf8];
    for (i, a) in chain.iter().enumerate() {
        for (j, b) in chain.iter().enumerate() {
            assert_eq!(merge(a, b), chain[i.max(j)]);
        }
    }
    assert_eq!(merge(&DataType::Int32, &DataType::Int64), DataType::Utf8);
    assert_eq!(merge(&DataType::Null, &DataType::Date32), DataType::Date32);
    assert_eq!(merge(&DataType::Date32, &DataType::Date32), DataType::Date32);
}

#[test]
fn type_names_round_trip() {
    let all = [
        DataType::Boolean, DataType::Int8, DataType::Int16, DataType::Int32, DataType::Int64,
        DataType::UInt8, DataType::UInt16, DataType::UInt32, DataType::UInt64, DataType::Float32,
        DataType::Float64, DataType::Date32, DataType::Utf8,
    ];
    for t in all {
        assert_eq!(str_to_datatype(datatype_to_str(&t)), t);
    }
    assert_eq!(datatype_to_str(&DataType::Null), "Utf8");
    assert_eq!(datatype_to_str(&DataType::Timestamp), "Utf8");
    assert_eq!(str_to_datatype("Timestamp"), DataType::Timestamp);
    assert_eq!(str_to_datatype("int64"), DataType::Utf8);
    assert_eq!(str_to_datatype(""), DataType::Utf8);
}

#[test]
fn schema_file_format_is_read() {
    let text = "\u{feff}[\n {\"name\": \"id\", \"type\": \"Int64\", \"nullable\": false},\n {\"name\": \"score\", \"type\": \"Float64\"},\n {\"type\": \"Nope\"},\n 7\n]";
    let s = schema_from_json_text(text).unwrap();
    assert_eq!(
        s.fields,
        vec![
            field("id", DataType::Int64, false),
            field("score", DataType::Float64, true),
            field("unknown", DataType::Utf8, true),
            field("unknown", DataType::Utf8, true),
        ]
    );
}

#[test]
fn schema_file_must_be_an_array() {
    assert!(schema_from_json_text("{\"name\": \"id\"}").is_err());
    assert!(schema_from_json_text("[").is_err());
    assert_eq!(schema_from_json_text("[]").unwrap().fields, vec![]);
}

#[test]
fn schema_is_written_pretty() {
    let s = Schema { fields: vec![field("id", DataType::Int64, false), field("t", DataType::Timestamp, true)] };
    let text = schema_to_json_string(&s);
    assert_eq!(
        text,
        "[\n  {\n    \"name\": \"id\",\n    \"nullable\": false,\n    \"type\": \"Int64\"\n  },\n  {\n    \"name\": \"t\",\n    \"nullable\": true,\n    \"type\": \"Utf8\"\n  }\n]"
    );
    assert_eq!(schema_to_json_string(&Schema { fields: vec![] }), "[]");
}

#[test]
fn written_schema_reads_back() {
    let s = Schema {
        fields: vec![
            field("a \"quoted\" name", DataType::UInt16, false),
            field("b", DataType::Boolean, true),
            field("c", DataType::Date32, true),
        ],
    };
    let back = schema_from_json_text(&schema_to_json_string(&s)).unwrap();
    assert_eq!(back, s);
    let with_bom = format!("\u{feff}{}", schema_to_json_string(&s));
    assert_eq!(schema_from_json_text(&with_bom).unwrap(), s);
    let v: serde_json::Value = serde_json::from_str(&schema_to_json_string(&s)).unwrap();
    assert_eq!(v[1], serde_json::from_str::<serde_json::Value>(r#"{"name":"b","type":"Boolean","nullable":true}"#).unwrap());
}
