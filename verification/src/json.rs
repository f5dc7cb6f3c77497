//! The JSON values that the pipeline reads, as plain data.
//!
//! Parsing is done by `serde_json`; a parsed document is handed to the rest of
//! the library as a [`JsonValue`], which keeps what the logic reads: scalars,
//! object entries in the parser's order, and serde_json's own renderings
//! (compact JSON text and `Debug` text) of arrays and objects.
use vstd::prelude::*;

verus! {

/// serde_json's renderings of a value: `to_string()` and `{:?}`.
#[derive(Debug, PartialEq)]
pub struct Rendered {
    pub compact: String,
    pub debug: String,
}

/// A JSON number: its text (serde_json's `Display`) and its value as `i64`
/// when it is an integer in range (serde_json's `as_i64`).
#[derive(Debug, PartialEq)]
pub struct JsonNumber {
    pub text: String,
    pub integer: Option<i64>,
}

/// One `"key": value` member of an object.
#[derive(Debug, PartialEq)]
pub struct JsonEntry {
    pub key: String,
    pub value: JsonValue,
}

/// A parsed JSON value.
#[derive(Debug, PartialEq)]
pub enum JsonValue {
    Null,
    Bool(bool),
    Number(JsonNumber),
    String(String),
    /// Arrays are only ever rendered, never looked into.
    Array(Rendered),
    Object(Vec<JsonEntry>, Rendered),
}

/// The mathematical model of a [`JsonValue`].
pub enum JsonView {
    Null,
    Bool(bool),
    Number { text: Seq<char>, integer: Option<i64> },
    String(Seq<char>),
    Array { compact: Seq<char>, debug: Seq<char> },
    Object { entries: Seq<(Seq<char>, JsonView)>, compact: Seq<char>, debug: Seq<char> },
}

pub open spec fn json_view(v: &JsonValue) -> JsonView
    decreases v,
{
    match v {
        JsonValue::Null => JsonView::Null,
        JsonValue::Bool(b) => JsonView::Bool(*b),
        JsonValue::Number(n) => JsonView::Number { text: n.text@, integer: n.integer },
        JsonValue::String(s) => JsonView::String(s@),
        JsonValue::Array(r) => JsonView::Array { compact: r.compact@, debug: r.debug@ },
        JsonValue::Object(es, r) => JsonView::Object {
            entries: Seq::new(
                es@.len(),
                |i: int|
                    if 0 <= i < es@.len() {
                        proof {
                            assert(decreases_to!(es => es@));
                            assert(decreases_to!(es@ => es@[i]));
                            assert(decreases_to!(es@[i] => es@[i].value));
                        }
                        (es@[i].key@, json_view(&es@[i].value))
                    } else {
                        (Seq::empty(), JsonView::Null)
                    },
            ),
            compact: r.compact@,
            debug: r.debug@,
        },
    }
}

impl View for JsonValue {
    type V = JsonView;

    open spec fn view(&self) -> JsonView {
        json_view(self)
    }
}

/// The model of a list of object members.
pub open spec fn entries_view(es: Seq<JsonEntry>) -> Seq<(Seq<char>, JsonView)> {
    es.map_values(|e: JsonEntry| (e.key@, e.value@))
}

/// The model of a list of object members.
pub proof fn lemma_object_entries(es: &Vec<JsonEntry>, r: &Rendered)
    ensures
        json_view(&JsonValue::Object(*es, *r)) == (JsonView::Object {
            entries: entries_view(es@),
            compact: r.compact@,
            debug: r.debug@,
        }),
{
    let v = JsonValue::Object(*es, *r);
    if let JsonView::Object { entries, .. } = json_view(&v) {
        assert(entries =~= entries_view(es@));
    }
}

#[verifier::external_type_specification]
#[verifier::external_body]
pub struct ExSerdeValue(serde_json::Value);

/// What `serde_json::from_slice::<serde_json::Value>` yields for `bytes`, as
/// a [`JsonView`] (`None` when it reports an error).
pub uninterp spec fn parsed_json(bytes: Seq<u8>) -> Option<JsonView>;

/// What `serde_json::from_str::<Vec<serde_json::Value>>` yields for `text`.
pub uninterp spec fn parsed_json_list(text: Seq<char>) -> Option<Seq<JsonView>>;

/// The text of `format!("{:?}", s)` for a `str`.
pub uninterp spec fn debug_str(s: Seq<char>) -> Seq<char>;

/// Turns a `serde_json::Value` into the library's value, one variant for one,
/// keeping the crate's renderings of arrays and objects.
#[verifier::external_body]
fn json_from_serde(v: serde_json::Value) -> JsonValue {
    let rendered = Rendered { compact: v.to_string(), debug: format!("{:?}", v) };
    match v {
        serde_json::Value::Null => JsonValue::Null,
        serde_json::Value::Bool(b) => JsonValue::Bool(b),
        serde_json::Value::Number(n) => JsonValue::Number(
            JsonNumber { text: n.to_string(), integer: n.as_i64() },
        ),
        serde_json::Value::String(s) => JsonValue::String(s),
        serde_json::Value::Array(_) => JsonValue::Array(rendered),
        serde_json::Value::Object(m) => JsonValue::Object(
            m.into_iter().map(|(key, x)| JsonEntry { key, value: json_from_serde(x) }).collect(),
            rendered,
        ),
    }
}

/// Calls `serde_json::from_slice::<serde_json::Value>`; the result is the one
/// named by [`parsed_json`].
#[verifier::external_body]
pub(crate) fn parse_json(bytes: &[u8]) -> (res: Result<JsonValue, serde_json::Error>)
    ensures
        res is Ok <==> parsed_json(bytes@) is Some,
        res matches Ok(v) ==> parsed_json(bytes@) == Some(v@),
{
    serde_json::from_slice::<serde_json::Value>(bytes).map(json_from_serde)
}

/// Calls `serde_json::from_str::<Vec<serde_json::Value>>`; the result is the
/// one named by [`parsed_json_list`].
#[verifier::external_body]
pub(crate) fn parse_json_list(text: &str) -> (res: Result<Vec<JsonValue>, serde_json::Error>)
    ensures
        res is Ok <==> parsed_json_list(text@) is Some,
        res matches Ok(vs) ==> parsed_json_list(text@) == Some(vs@.map_values(|v: JsonValue| v@)),
{
    serde_json::from_str::<Vec<serde_json::Value>>(text).map(
        |vs| vs.into_iter().map(json_from_serde).collect(),
    )
}

/// The error serde_json reports for the input `!`: what a line that is valid
/// JSON but not an object is reported with.
#[verifier::external_body]
pub(crate) fn not_an_object_error() -> serde_json::Error {
    serde_json::from_str::<serde_json::Value>("!").unwrap_err()
}

/// `format!("{:?}", s)` for a `str`.
#[verifier::external_body]
pub(crate) fn str_debug(s: &str) -> (res: String)
    ensures
        res@ == debug_str(s@),
{
    format!("{:?}", s)
}

} // verus!
