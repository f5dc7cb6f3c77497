//! Machine-readable reports: the JSON that `--machine-telemetry` prints when
//! a run ends, and the run statistics printed as JSON in quiet mode.
//!
//! The texts are pretty-printed JSON objects (two-space indent); strings are
//! escaped as JSON requires (`"`, `\` and control characters).
use vstd::prelude::*;
use vstd::string::{StrSliceExecFns, StringExecFns};
use crate::error::ParqError;
use crate::metrics::ProcessingMetrics;

verus! {

/// The lower-case hexadecimal digit for `d < 16`.
pub open spec fn hex_digit(d: nat) -> char {
    if d < 10 {
        (48 + d) as char
    } else {
        (87 + d) as char
    }
}

/// The decimal digits of `n`, most significant first.
pub open spec fn decimal(n: nat) -> Seq<char>
    decreases n,
{
    if n < 10 {
        seq![hex_digit(n)]
    } else {
        decimal(n / 10).push(hex_digit(n % 10))
    }
}

/// A character that JSON strings cannot hold as it is.
pub open spec fn needs_escape(c: char) -> bool {
    c == '"' || c == '\\' || (c as u32) < 0x20
}

/// How one character is written inside a JSON string.
pub open spec fn json_escape_char(c: char) -> Seq<char> {
    if c == '"' {
        seq!['\\', '"']
    } else if c == '\\' {
        seq!['\\', '\\']
    } else if c == '\n' {
        seq!['\\', 'n']
    } else if c == '\r' {
        seq!['\\', 'r']
    } else if c == '\t' {
        seq!['\\', 't']
    } else if (c as u32) == 8 {
        seq!['\\', 'b']
    } else if (c as u32) == 12 {
        seq!['\\', 'f']
    } else if (c as u32) < 0x20 {
        seq!['\\', 'u', '0', '0', hex_digit((c as nat) / 16), hex_digit((c as nat) % 16)]
    } else {
        seq![c]
    }
}

/// The characters of `s` escaped for a JSON string.
pub open spec fn json_escape(s: Seq<char>) -> Seq<char>
    decreases s.len(),
{
    if s.len() == 0 {
        Seq::empty()
    } else {
        json_escape(s.drop_last()) + json_escape_char(s.last())
    }
}

/// `s` as a JSON string literal.
pub open spec fn json_str(s: Seq<char>) -> Seq<char> {
    seq!['"'] + json_escape(s) + seq!['"']
}

proof fn lemma_json_escape_concat(a: Seq<char>, b: Seq<char>)
    ensures
        json_escape(a + b) == json_escape(a) + json_escape(b),
    decreases b.len(),
{
    if b.len() == 0 {
        assert(a + b =~= a);
        assert(json_escape(b) =~= Seq::<char>::empty());
        assert(json_escape(a) + json_escape(b) =~= json_escape(a));
    } else {
        lemma_json_escape_concat(a, b.drop_last());
        assert((a + b).drop_last() =~= a + b.drop_last());
        assert((a + b).last() == b.last());
    }
}

proof fn lemma_json_escape_plain(s: Seq<char>)
    requires
        forall|j: int| 0 <= j < s.len() ==> !needs_escape(#[trigger] s[j]),
    ensures
        json_escape(s) == s,
    decreases s.len(),
{
    if s.len() > 0 {
        lemma_json_escape_plain(s.drop_last());
        assert(!needs_escape(s[s.len() - 1]));
        assert(s.drop_last().push(s.last()) =~= s);
    }
}

proof fn lemma_json_escape_one(c: char)
    ensures
        json_escape(seq![c]) == json_escape_char(c),
{
    let s = seq![c];
    assert(s.drop_last() =~= Seq::<char>::empty());
    assert(json_escape(s.drop_last()) =~= Seq::<char>::empty());
    assert(json_escape(s) =~= json_escape_char(c));
}

/// The digit character for `d < 16` as a string.
fn digit_str(d: u32) -> (res: &'static str)
    requires
        d < 16,
    ensures
        res@ == seq![hex_digit(d as nat)],
{
    if d == 0 {
        proof { reveal_strlit("0"); }
        "0"
    } else if d == 1 {
        proof { reveal_strlit("1"); }
        "1"
    } else if d == 2 {
        proof { reveal_strlit("2"); }
        "2"
    } else if d == 3 {
        proof { reveal_strlit("3"); }
        "3"
    } else if d == 4 {
        proof { reveal_strlit("4"); }
        "4"
    } else if d == 5 {
        proof { reveal_strlit("5"); }
        "5"
    } else if d == 6 {
        proof { reveal_strlit("6"); }
        "6"
    } else if d == 7 {
        proof { reveal_strlit("7"); }
        "7"
    } else if d == 8 {
        proof { reveal_strlit("8"); }
        "8"
    } else if d == 9 {
        proof { reveal_strlit("9"); }
        "9"
    } else if d == 10 {
        proof { reveal_strlit("a"); }
        "a"
    } else if d == 11 {
        proof { reveal_strlit("b"); }
        "b"
    } else if d == 12 {
        proof { reveal_strlit("c"); }
        "c"
    } else if d == 13 {
        proof { reveal_strlit("d"); }
        "d"
    } else if d == 14 {
        proof { reveal_strlit("e"); }
        "e"
    } else {
        proof { reveal_strlit("f"); }
        "f"
    }
}

/// Append the decimal digits of `n`.
pub fn push_decimal(out: &mut String, n: u64)
    ensures
        final(out)@ == old(out)@ + decimal(n as nat),
    decreases n,
{
    if n >= 10 {
        push_decimal(out, n / 10);
    }
    let d = (n % 10) as u32;
    out.append(digit_str(d));
}

/// Append the JSON escape of a character that needs one.
fn push_escape(out: &mut String, c: char)
    requires
        needs_escape(c),
    ensures
        final(out)@ == old(out)@ + json_escape_char(c),
{
    if c == '"' {
        proof { reveal_strlit("\\\""); }
        out.append("\\\"");
    } else if c == '\\' {
        proof { reveal_strlit("\\\\"); }
        out.append("\\\\");
    } else if c == '\n' {
        proof { reveal_strlit("\\n"); }
        out.append("\\n");
    } else if c == '\r' {
        proof { reveal_strlit("\\r"); }
        out.append("\\r");
    } else if c == '\t' {
        proof { reveal_strlit("\\t"); }
        out.append("\\t");
    } else if (c as u32) == 8 {
        proof { reveal_strlit("\\b"); }
        out.append("\\b");
    } else if (c as u32) == 12 {
        proof { reveal_strlit("\\f"); }
        out.append("\\f");
    } else {
        let code = c as u32;
        proof { reveal_strlit("\\u00"); }
        out.append("\\u00");
        out.append(digit_str(code / 16));
        out.append(digit_str(code % 16));
        assert(json_escape_char(c) =~= seq!['\\', 'u', '0', '0'] + seq![hex_digit((c as nat) / 16)]
            + seq![hex_digit((c as nat) % 16)]);
    }
}

fn char_needs_escape(c: char) -> (res: bool)
    ensures
        res == needs_escape(c),
{
    c == '"' || c == '\\' || (c as u32) < 0x20
}

/// Append `s` as a JSON string literal.
pub fn push_json_str(out: &mut String, s: &str)
    ensures
        final(out)@ == old(out)@ + json_str(s@),
{
    let ghost start = out@;
    proof { reveal_strlit("\""); }
    out.append("\"");
    let n = s.unicode_len();
    let mut seg: usize = 0;
    let mut i: usize = 0;
    for c in it: s.chars()
        invariant
            n == s@.len(),
            it.seq() == s@,
            i == it.index(),
            seg <= i <= s@.len(),
            out@ == start + seq!['"'] + json_escape(s@.take(seg as int)),
            forall|j: int| seg <= j < i ==> !needs_escape(#[trigger] s@[j]),
    {
        if char_needs_escape(c) {
            let plain = s.substring_char(seg, i);
            proof {
                assert forall|j: int| 0 <= j < plain@.len() implies !needs_escape(#[trigger] plain@[j]) by {
                    assert(plain@[j] == s@[seg + j]);
                }
                lemma_json_escape_plain(plain@);
                assert(s@.take(seg as int) + plain@ =~= s@.take(i as int));
                lemma_json_escape_concat(s@.take(seg as int), plain@);
                assert(s@.take(i as int) + seq![c] =~= s@.take(i + 1));
                lemma_json_escape_concat(s@.take(i as int), seq![c]);
                lemma_json_escape_one(c);
            }
            out.append(plain);
            push_escape(out, c);
            seg = i + 1;
        }
        i = i + 1;
    }
    let rest = s.substring_char(seg, i);
    proof {
        assert forall|j: int| 0 <= j < rest@.len() implies !needs_escape(#[trigger] rest@[j]) by {
            assert(rest@[j] == s@[seg + j]);
        }
        lemma_json_escape_plain(rest@);
        assert(s@.take(seg as int) + rest@ =~= s@);
        lemma_json_escape_concat(s@.take(seg as int), rest@);
    }
    out.append(rest);
    out.append("\"");
}

/// How a run failed, as the machine telemetry reports it.
#[derive(Debug, PartialEq)]
pub enum RunFailure {
    /// A line that is not JSON, with the parser's message.
    JsonParse { line: usize, message: String },
    /// A value that its column cannot hold.
    TypeMismatch { field: String, expected: String, found: String, line: usize },
    /// No record to infer a schema from.
    InsufficientData { rows: usize },
    /// Any other failure, by its message.
    Generic { message: String },
}

/// The telemetry of a successful run.
pub open spec fn success_report(rows: nat) -> Seq<char> {
    "{\n  \"status\": \"success\",\n  \"rows_processed\": "@ + decimal(rows) + "\n}"@
}

/// The telemetry of a failed run.
pub open spec fn failure_report(f: RunFailure) -> Seq<char> {
    match f {
        RunFailure::JsonParse { line, message } => "{\n  \"status\": \"failed\",\n  \"error_type\": \"JsonParse\",\n  \"details\": {\n    \"line\": "@
            + decimal(line as nat) + ",\n    \"message\": "@ + json_str(message@) + "\n  }\n}"@,
        RunFailure::TypeMismatch { field, expected, found, line } =>
            "{\n  \"status\": \"failed\",\n  \"error_type\": \"TypeMismatch\",\n  \"details\": {\n    \"field\": "@
            + json_str(field@) + ",\n    \"expected\": "@ + json_str(expected@) + ",\n    \"found\": "@
            + json_str(found@) + ",\n    \"line\": "@ + decimal(line as nat) + "\n  }\n}"@,
        RunFailure::InsufficientData { rows } =>
            "{\n  \"status\": \"failed\",\n  \"error_type\": \"InsufficientData\",\n  \"details\": {\n    \"rows\": "@
            + decimal(rows as nat) + "\n  }\n}"@,
        RunFailure::Generic { message } => "{\n  \"status\": \"failed\",\n  \"error_type\": \"Generic\",\n  \"message\": "@
            + json_str(message@) + "\n}"@,
    }
}

/// The telemetry printed when a run succeeds.
pub fn success_report_text(rows_processed: usize) -> (res: String)
    ensures
        res@ == success_report(rows_processed as nat),
{
    let mut out = String::from_str("{\n  \"status\": \"success\",\n  \"rows_processed\": ");
    push_decimal(&mut out, rows_processed as u64);
    out.append("\n}");
    out
}

/// The telemetry printed when a run fails.
pub fn failure_report_text(f: &RunFailure) -> (res: String)
    ensures
        res@ == failure_report(*f),
{
    match f {
        RunFailure::JsonParse { line, message } => {
            let mut out = String::from_str(
                "{\n  \"status\": \"failed\",\n  \"error_type\": \"JsonParse\",\n  \"details\": {\n    \"line\": ",
            );
            push_decimal(&mut out, *line as u64);
            out.append(",\n    \"message\": ");
            push_json_str(&mut out, message.as_str());
            out.append("\n  }\n}");
            out
        },
        RunFailure::TypeMismatch { field, expected, found, line } => {
            let mut out = String::from_str(
                "{\n  \"status\": \"failed\",\n  \"error_type\": \"TypeMismatch\",\n  \"details\": {\n    \"field\": ",
            );
            push_json_str(&mut out, field.as_str());
            out.append(",\n    \"expected\": ");
            push_json_str(&mut out, expected.as_str());
            out.append(",\n    \"found\": ");
            push_json_str(&mut out, found.as_str());
            out.append(",\n    \"line\": ");
            push_decimal(&mut out, *line as u64);
            out.append("\n  }\n}");
            out
        },
        RunFailure::InsufficientData { rows } => {
            let mut out = String::from_str(
                "{\n  \"status\": \"failed\",\n  \"error_type\": \"InsufficientData\",\n  \"details\": {\n    \"rows\": ",
            );
            push_decimal(&mut out, *rows as u64);
            out.append("\n  }\n}");
            out
        },
        RunFailure::Generic { message } => {
            let mut out = String::from_str(
                "{\n  \"status\": \"failed\",\n  \"error_type\": \"Generic\",\n  \"message\": ",
            );
            push_json_str(&mut out, message.as_str());
            out.append("\n}");
            out
        },
    }
}

/// Calls the `Display` of `serde_json::Error` (`to_string`): the parser's
/// description of the error with its line and column.  Nothing is stated of
/// the text.
#[verifier::external_body]
fn json_error_message(e: &serde_json::Error) -> String {
    e.to_string()
}

/// The telemetry view of an error of the library; `display` is how the error
/// reads as a whole, used for the failures that the telemetry reports by
/// message alone.
pub fn failure_of(e: &ParqError, display: &str) -> (res: RunFailure)
    ensures
        match *e {
            ParqError::JsonParse { line, .. } => res matches RunFailure::JsonParse { line: l, .. } && l
                == line,
            ParqError::TypeMismatch { field, expected, found, line } => res matches RunFailure::TypeMismatch {
                field: f,
                expected: x,
                found: g,
                line: l,
            } && f@ == field@ && x@ == expected@ && g@ == found@ && l == line,
            ParqError::InsufficientData { rows } => res == RunFailure::InsufficientData { rows },
            _ => res matches RunFailure::Generic { message } && message@ == display@,
        },
{
    match e {
        ParqError::JsonParse { line, source } => RunFailure::JsonParse {
            line: *line,
            message: json_error_message(source),
        },
        ParqError::TypeMismatch { field, expected, found, line } => RunFailure::TypeMismatch {
            field: field.clone(),
            expected: expected.clone(),
            found: found.clone(),
            line: *line,
        },
        ParqError::InsufficientData { rows } => RunFailure::InsufficientData { rows: *rows },
        _ => RunFailure::Generic { message: display.to_string() },
    }
}

/// The statistics of a run as a JSON object, one member per counter.
pub open spec fn metrics_report(m: ProcessingMetrics) -> Seq<char> {
    "{\n  \"input_bytes\": "@ + decimal(m.input_bytes as nat) + ",\n  \"output_bytes\": "@ + decimal(
        m.output_bytes as nat,
    ) + ",\n  \"rows_processed\": "@ + decimal(m.rows_processed as nat) + ",\n  \"rows_errored\": "@
        + decimal(m.rows_errored as nat) + ",\n  \"threads_used\": "@ + decimal(m.threads_used as nat)
        + ",\n  \"total_duration_ms\": "@ + decimal(m.total_duration_ms as nat)
        + ",\n  \"parse_duration_ms\": "@ + decimal(m.parse_duration_ms as nat)
        + ",\n  \"write_duration_ms\": "@ + decimal(m.write_duration_ms as nat) + "\n}"@
}

/// The statistics of a run as JSON (what quiet mode prints).
pub fn metrics_report_text(m: &ProcessingMetrics) -> (res: String)
    ensures
        res@ == metrics_report(*m),
{
    let mut out = String::from_str("{\n  \"input_bytes\": ");
    push_decimal(&mut out, m.input_bytes as u64);
    out.append(",\n  \"output_bytes\": ");
    push_decimal(&mut out, m.output_bytes as u64);
    out.append(",\n  \"rows_processed\": ");
    push_decimal(&mut out, m.rows_processed as u64);
    out.append(",\n  \"rows_errored\": ");
    push_decimal(&mut out, m.rows_errored as u64);
    out.append(",\n  \"threads_used\": ");
    push_decimal(&mut out, m.threads_used as u64);
    out.append(",\n  \"total_duration_ms\": ");
    push_decimal(&mut out, m.total_duration_ms);
    out.append(",\n  \"parse_duration_ms\": ");
    push_decimal(&mut out, m.parse_duration_ms);
    out.append(",\n  \"write_duration_ms\": ");
    push_decimal(&mut out, m.write_duration_ms);
    out.append("\n}");
    out
}

} // verus!
