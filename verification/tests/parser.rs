use parq::error::ParqError;
use parq::parser::{limit_after_chunk, parse_chunk, parse_chunk_lines, Batch, Column, DeadLetterSink, IntCell};
use parq::schema::{DataType, Field, Schema};

fn schema(fields: &[(&str, DataType, bool)]) -> Schema {
    Schema {
        fields: fields
            .iter()
            .map(|(n, t, nullable)| Field { name: n.to_string(), data_type: *t, nullable: *nullable })
            .collect(),
    }
}

fn s(x: &str) -> Option<String> {
    Some(x.to_string())
}

#[test]
fn columns_follow_field_types() {
    let sc = schema(&[
        ("b", DataType::Boolean, true),
        ("i", DataType::Int32, true),
        ("f", DataType::Float64, true),
        ("t", DataType::Utf8, true),
        ("n", DataType::Null, true),
    ]);
    let data = b"{\"b\": true, \"i\": 7, \"f\": 1.5, \"t\": \"x\", \"n\": 1}\n{\"b\": null, \"i\": \"42\", \"f\": \"2.5\", \"t\": 3}\n{\"i\": 2.9, \"f\": 4, \"t\": [1, 2]}\n";
    let (batches, ok, skipped) = parse_chunk(data, &sc, 100, false, false, None, &mut None).unwrap();
    assert_eq!((ok, skipped), (3, 0));
    assert_eq!(
        batches,
        vec![Batch {
            columns: vec![
                Column::Bool(vec![Some(true), None, None]),
                Column::Int64(vec![
                    Some(IntCell::Exact(7)),
                    Some(IntCell::Exact(42)),
                    Some(IntCell::FromFloat("2.9".to_string())),
                ]),
                Column::Float64(vec![s("1.5"), s("2.5"), s("4")]),
                Column::Utf8(vec![s("x"), s("3"), s("[1,2]")]),
                Column::Null(3),
            ],
            rows: 3,
        }]
    );
}

#[test]
fn int_strings_follow_i64_grammar() {
    let sc = schema(&[("i", DataType::Int64, true)]);
    let data = b"{\"i\": \"+5\"}\n{\"i\": \"-0\"}\n{\"i\": \" 5\"}\n{\"i\": \"9223372036854775808\"}\n{\"i\": \"-9223372036854775808\"}\n{\"i\": true}\n{\"i\": \"-\"}\n";
    let (batches, ok, _) = parse_chunk(data, &sc, 100, false, false, None, &mut None).unwrap();
    assert_eq!(ok, 7);
    assert_eq!(
        batches[0].columns[0],
        Column::Int64(vec![
            Some(IntCell::Exact(5)),
            Some(IntCell::Exact(0)),
            None,
            None,
            Some(IntCell::Exact(i64::MIN)),
            None,
            None,
        ])
    );
}

#[test]
fn batches_close_every_batch_size_rows() {
    let sc = schema(&[("x", DataType::Int64, true)]);
    let data = b"{\"x\":1}\n{\"x\":2}\n{\"x\":3}\n{\"x\":4}\n{\"x\":5}\n";
    let (batches, ok, _) = parse_chunk(data, &sc, 2, false, false, None, &mut None).unwrap();
    assert_eq!(ok, 5);
    let rows: Vec<usize> = batches.iter().map(|b| b.rows).collect();
    assert_eq!(rows, vec![2, 2, 1]);
    let (batches0, _, _) = parse_chunk(data, &sc, 0, false, false, None, &mut None).unwrap();
    assert_eq!(batches0.len(), 5);
    assert!(batches0.iter().all(|b| b.rows == 1));
}

#[test]
fn limit_stops_reading() {
    let sc = schema(&[("x", DataType::Int64, true)]);
    let data = b"{\"x\":1}\n{\"x\":2}\nnot json\n";
    let (batches, ok, skipped) = parse_chunk(data, &sc, 10, false, false, Some(2), &mut None).unwrap();
    assert_eq!((ok, skipped), (2, 0));
    assert_eq!(batches[0].rows, 2);
    let (batches, ok, _) = parse_chunk(data, &sc, 10, false, false, Some(0), &mut None).unwrap();
    assert_eq!(ok, 0);
    assert!(batches.is_empty());
}

#[test]
fn strict_mode_reports_line_numbers() {
    let sc = schema(&[("x", DataType::Int64, true)]);
    let err = parse_chunk(b"{\"x\":1}\n\n{bad\n", &sc, 10, false, false, None, &mut None).unwrap_err();
    assert!(matches!(err, ParqError::JsonParse { line: 3, .. }));
    let err = parse_chunk(b"[1]\n", &sc, 10, false, false, None, &mut None).unwrap_err();
    assert!(matches!(err, ParqError::JsonParse { line: 1, .. }));
}

#[test]
fn strict_bool_column_refuses_other_values() {
    let sc = schema(&[("b", DataType::Boolean, true)]);
    let err = parse_chunk(b"{\"b\": true}\n{\"b\": \"yes\\n\"}\n", &sc, 10, false, false, None, &mut None).unwrap_err();
    match err {
        ParqError::TypeMismatch { field, expected, found, line } => {
            assert_eq!(field, "b");
            assert_eq!(expected, "Boolean");
            assert_eq!(found, "String(\"yes\\n\")");
            assert_eq!(line, 2);
        }
        other => panic!("unexpected {other:?}"),
    }
    let err = parse_chunk(b"{\"b\": 12}\n", &sc, 10, false, false, None, &mut None).unwrap_err();
    assert!(matches!(err, ParqError::TypeMismatch { ref found, .. } if found == "Number(12)"));
    let err = parse_chunk(b"{\"b\": [true]}\n", &sc, 10, false, false, None, &mut None).unwrap_err();
    assert!(matches!(err, ParqError::TypeMismatch { ref found, .. } if found == "Array [Bool(true)]"));
}

#[test]
fn lenient_mode_skips_and_sets_aside() {
    let sc = schema(&[("b", DataType::Boolean, true)]);
    let data = b"{\"b\": true}\n  not json  \n[1]\n{\"b\": 5}\n";
    let (res, dead) = parse_chunk_lines(data, &sc, 10, true, false, None);
    let (batches, ok, skipped) = res.unwrap();
    assert_eq!((ok, skipped), (2, 2));
    assert_eq!(batches[0].columns[0], Column::Bool(vec![Some(true), None]));
    assert_eq!(dead, vec![b"not json".to_vec(), b"[1]".to_vec()]);
}

#[test]
fn dead_letters_go_to_channel() {
    let sc = schema(&[("x", DataType::Int64, true)]);
    let (tx, rx) = crossbeam_channel::unbounded::<Vec<u8>>();
    let mut sink = Some(DeadLetterSink::new(tx));
    let (_, ok, skipped) = parse_chunk(b"oops\n{\"x\":1}\n{\n", &sc, 10, true, false, None, &mut sink).unwrap();
    assert_eq!((ok, skipped), (1, 2));
    drop(sink);
    let got: Vec<Vec<u8>> = rx.iter().collect();
    assert_eq!(got, vec![b"oops".to_vec(), b"{".to_vec()]);
}

#[test]
fn flatten_before_column_lookup() {
    let sc = schema(&[("user_id", DataType::Int64, true), ("tags", DataType::Utf8, true)]);
    let data = b"{\"user\": {\"id\": 9}, \"tags\": [\"a\", \"b\"]}\n";
    let (batches, _, _) = parse_chunk(data, &sc, 10, false, true, None, &mut None).unwrap();
    assert_eq!(batches[0].columns[0], Column::Int64(vec![Some(IntCell::Exact(9))]));
    assert_eq!(batches[0].columns[1], Column::Utf8(vec![s("[\"a\",\"b\"]")]));
    let (batches, _, _) = parse_chunk(data, &sc, 10, false, false, None, &mut None).unwrap();
    assert_eq!(batches[0].columns[0], Column::Int64(vec![None]));
}

#[test]
fn objects_and_bools_render_as_json_text() {
    let sc = schema(&[("o", DataType::Date32, true)]);
    let data = b"{\"o\": {\"z\": 1, \"a\": [true]}}\n{\"o\": false}\n";
    let (batches, _, _) = parse_chunk(data, &sc, 10, false, false, None, &mut None).unwrap();
    assert_eq!(batches[0].columns[0], Column::Utf8(vec![s("{\"a\":[true],\"z\":1}"), s("false")]));
}

#[test]
fn empty_chunk_has_no_batches() {
    let sc = schema(&[("x", DataType::Int64, true)]);
    let (batches, ok, skipped) = parse_chunk(b"", &sc, 10, false, false, None, &mut None).unwrap();
    assert!(batches.is_empty());
    assert_eq!((ok, skipped), (0, 0));
}

#[test]
fn empty_schema_counts_rows() {
    let sc = schema(&[]);
    let (batches, ok, _) = parse_chunk(b"{}\n{\"a\":1}\n", &sc, 10, false, false, None, &mut None).unwrap();
    assert_eq!(ok, 2);
    assert_eq!(batches, vec![Batch { columns: vec![], rows: 2 }]);
}

#[test]
fn skipped_lines_reach_the_dead_letter_channel() {
    let sc = schema(&[("id", DataType::Int64, true)]);
    let data = b"{\"id\":1}\nbad\n[1,2]\n\n{\"id\":2}\n";
    let (tx, rx) = crossbeam_channel::unbounded();
    let mut sink = Some(DeadLetterSink::new(tx));
    let (batches, ok, skipped) = parse_chunk(data, &sc, 10, true, false, None, &mut sink).unwrap();
    assert_eq!((ok, skipped), (2, 2));
    assert_eq!(batches.len(), 1);
    assert_eq!(batches[0].columns[0], Column::Int64(vec![Some(IntCell::Exact(1)), Some(IntCell::Exact(2))]));
    drop(sink);
    let got: Vec<Vec<u8>> = rx.iter().collect();
    assert_eq!(got, vec![b"bad".to_vec(), b"[1,2]".to_vec()]);

    let (tx, rx) = crossbeam_channel::unbounded();
    let mut sink = Some(DeadLetterSink::new(tx));
    assert!(parse_chunk(b"{\"id\":1}\nbad\n", &sc, 10, false, false, None, &mut sink).is_err());
    drop(sink);
    assert_eq!(rx.iter().count(), 0);
}

#[test]
fn limit_carries_across_chunks() {
    let sc = schema(&[("x", DataType::Int64, true)]);
    let chunks: [&[u8]; 3] = [b"{\"x\":1}\n{\"x\":2}\n", b"{\"x\":3}\n{\"x\":4}\n", b"{\"x\":5}\n"];
    let mut left = 3usize;
    let mut kept = 0usize;
    for c in chunks {
        if left == 0 {
            break;
        }
        let (_, rows, _) = parse_chunk(c, &sc, 10, false, false, Some(left), &mut None).unwrap();
        kept += rows;
        left = limit_after_chunk(left, rows);
    }
    assert_eq!((kept, left), (3, 0));
    assert_eq!(limit_after_chunk(5, 2), 3);
    assert_eq!(limit_after_chunk(2, 2), 0);
}
