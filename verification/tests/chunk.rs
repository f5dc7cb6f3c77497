use parq::chunk::{count_lines, fixed_chunks, offset_after_n_lines, snap_to_newline, CHUNK_SIZE_BYTES};

fn ndjson(rows: usize) -> Vec<u8> {
    (0..rows)
        .flat_map(|i| format!("{{\"id\":{i}}}\n").into_bytes())
        .collect()
}

#[test]
fn lossless_for_multiple_chunk_sizes() {
    let data = ndjson(50_000);
    for cs in [64, 512, 4096, 1 << 20] {
        let chunks = fixed_chunks(&data, Some(cs));
        let rebuilt: Vec<u8> = chunks.iter().flat_map(|c| c.iter().copied()).collect();
        assert_eq!(rebuilt, data, "chunk_size={cs}");
    }
}

#[test]
fn no_chunk_splits_mid_line() {
    let data = ndjson(1_000);
    let end_ptr = data.as_ptr_range().end;
    for chunk in fixed_chunks(&data, Some(128)) {
        if chunk.as_ptr_range().end != end_ptr {
            assert_eq!(*chunk.last().unwrap(), b'\n');
        }
    }
}

#[test]
fn empty_input() {
    assert!(fixed_chunks(b"", None).is_empty());
}

#[test]
fn no_trailing_newline() {
    let data = b"a\nb\nno_newline";
    let chunks = fixed_chunks(data, Some(4));
    let rebuilt: Vec<u8> = chunks.iter().flat_map(|c| c.iter().copied()).collect();
    assert_eq!(&rebuilt, data as &[u8]);
}

#[test]
fn chunks_are_cut_one_window_past_their_start() {
    let data = b"aaaa\nbb\ncccccc\nd";
    let chunks = fixed_chunks(data, Some(3));
    let expected: Vec<&[u8]> = vec![b"aaaa\n", b"bb\ncccccc\n", b"d"];
    assert_eq!(chunks, expected);
}

#[test]
fn zero_chunk_size_acts_as_one() {
    let data = b"x\ny\nz";
    assert_eq!(fixed_chunks(data, Some(0)), fixed_chunks(data, Some(1)));
    let expected: Vec<&[u8]> = vec![b"x\n", b"y\n", b"z"];
    assert_eq!(fixed_chunks(data, Some(1)), expected);
}

#[test]
fn small_input_is_one_chunk_by_default() {
    let data = ndjson(10);
    let chunks = fixed_chunks(&data, None);
    assert_eq!(chunks.len(), 1);
    assert_eq!(chunks[0], &data[..]);
    assert_eq!(CHUNK_SIZE_BYTES, 64 * 1024 * 1024);
}

#[test]
fn chunk_newlines_add_up() {
    let data = ndjson(777);
    let chunks = fixed_chunks(&data, Some(100));
    let total: usize = chunks.iter().map(|c| count_lines(c)).sum();
    assert_eq!(total, count_lines(&data));
    assert_eq!(total, 777);
}

#[test]
fn snap_finds_byte_after_next_newline() {
    let data = b"ab\ncd\nef";
    assert_eq!(snap_to_newline(data, 0), 3);
    assert_eq!(snap_to_newline(data, 2), 3);
    assert_eq!(snap_to_newline(data, 3), 6);
    assert_eq!(snap_to_newline(data, 6), 8);
    assert_eq!(snap_to_newline(data, 100), 8);
}

#[test]
fn count_lines_counts_newlines() {
    assert_eq!(count_lines(b""), 0);
    assert_eq!(count_lines(b"no newline"), 0);
    assert_eq!(count_lines(b"a\n\nb\n"), 3);
}

#[test]
fn offset_after_lines() {
    let data = b"l1\nl2\nl3\ntail";
    assert_eq!(offset_after_n_lines(data, 1), 3);
    assert_eq!(offset_after_n_lines(data, 2), 6);
    assert_eq!(offset_after_n_lines(data, 3), 9);
    assert_eq!(offset_after_n_lines(data, 4), data.len());
    assert_eq!(offset_after_n_lines(data, 0), 0);
    assert_eq!(offset_after_n_lines(b"a\nb\n", 0), 0);
    assert_eq!(offset_after_n_lines(b"", 5), 0);
}
