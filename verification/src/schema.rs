//! Column types, schemas, and schema inference.
//!
//! Each field's type is promoted upward as wider values are encountered
//! across the sample window:
//!
//! ```text
//!  Null → Boolean → Int64 → Float64 → Utf8   (ceiling)
//! ```
use vstd::prelude::*;
use vstd::string::{StrSliceExecFns, StringExecFns};
use crate::assoc::{assoc_get, assoc_put, key_pos, keys_distinct, lemma_key_pos, lemma_key_pos_is, lemma_put_distinct};
use crate::error::ParqError;
use crate::flatten::object_get;
use crate::json::{entries_view, lemma_object_entries, parse_json, parse_json_list, parsed_json, parsed_json_list, JsonEntry, JsonValue, JsonView};
use crate::lines::{has_bom, lemma_split_lines_concat, next_line, split_lines, strip_bom, strip_bom_spec, trim_ascii, trim_ascii_spec};
use crate::chunk::NEWLINE;

verus! {

/// The column types a schema can name.
#[derive(Clone, Copy, Debug, PartialEq, Eq, Structural)]
pub enum DataType {
    Null,
    Boolean,
    Int8,
    Int16,
    Int32,
    Int64,
    UInt8,
    UInt16,
    UInt32,
    UInt64,
    Float32,
    Float64,
    Date32,
    /// Microsecond timestamps without a time zone.
    Timestamp,
    Utf8,
}

/// A named column.
#[derive(Debug, PartialEq)]
pub struct Field {
    pub name: String,
    pub data_type: DataType,
    pub nullable: bool,
}

/// An ordered list of fields.
#[derive(Debug, PartialEq)]
pub struct Schema {
    pub fields: Vec<Field>,
}

/// The model of a field: name, type, nullability.
pub type FieldView = (Seq<char>, DataType, bool);

pub open spec fn field_view(f: Field) -> FieldView {
    (f.name@, f.data_type, f.nullable)
}

pub open spec fn fields_view(fs: Seq<Field>) -> Seq<FieldView> {
    fs.map_values(|f: Field| field_view(f))
}

impl View for Schema {
    type V = Seq<FieldView>;

    open spec fn view(&self) -> Seq<FieldView> {
        fields_view(self.fields@)
    }
}

/// The name that `datatype_to_str` gives a type.
pub open spec fn datatype_name(dt: DataType) -> Seq<char> {
    match dt {
        DataType::Boolean => "Boolean"@,
        DataType::Int8 => "Int8"@,
        DataType::Int16 => "Int16"@,
        DataType::Int32 => "Int32"@,
        DataType::Int64 => "Int64"@,
        DataType::UInt8 => "UInt8"@,
        DataType::UInt16 => "UInt16"@,
        DataType::UInt32 => "UInt32"@,
        DataType::UInt64 => "UInt64"@,
        DataType::Float32 => "Float32"@,
        DataType::Float64 => "Float64"@,
        DataType::Date32 => "Date32"@,
        _ => "Utf8"@,
    }
}

/// The type that `str_to_datatype` reads from a name; unknown names are `Utf8`.
pub open spec fn datatype_named(s: Seq<char>) -> DataType {
    if s == "Boolean"@ {
        DataType::Boolean
    } else if s == "Int8"@ {
        DataType::Int8
    } else if s == "Int16"@ {
        DataType::Int16
    } else if s == "Int32"@ {
        DataType::Int32
    } else if s == "Int64"@ {
        DataType::Int64
    } else if s == "UInt8"@ {
        DataType::UInt8
    } else if s == "UInt16"@ {
        DataType::UInt16
    } else if s == "UInt32"@ {
        DataType::UInt32
    } else if s == "UInt64"@ {
        DataType::UInt64
    } else if s == "Float32"@ {
        DataType::Float32
    } else if s == "Float64"@ {
        DataType::Float64
    } else if s == "Date32"@ {
        DataType::Date32
    } else if s == "Timestamp"@ {
        DataType::Timestamp
    } else {
        DataType::Utf8
    }
}

/// Text equality of two string slices.
pub fn str_eq(a: &str, b: &str) -> (res: bool)
    ensures
        res == (a@ == b@),
{
    String::from_str(a) == String::from_str(b)
}

/// The type named by `s` in parq's schema format; unknown names are `Utf8`.
pub fn str_to_datatype(s: &str) -> (res: DataType)
    ensures
        res == datatype_named(s@),
{
    if str_eq(s, "Boolean") {
        DataType::Boolean
    } else if str_eq(s, "Int8") {
        DataType::Int8
    } else if str_eq(s, "Int16") {
        DataType::Int16
    } else if str_eq(s, "Int32") {
        DataType::Int32
    } else if str_eq(s, "Int64") {
        DataType::Int64
    } else if str_eq(s, "UInt8") {
        DataType::UInt8
    } else if str_eq(s, "UInt16") {
        DataType::UInt16
    } else if str_eq(s, "UInt32") {
        DataType::UInt32
    } else if str_eq(s, "UInt64") {
        DataType::UInt64
    } else if str_eq(s, "Float32") {
        DataType::Float32
    } else if str_eq(s, "Float64") {
        DataType::Float64
    } else if str_eq(s, "Date32") {
        DataType::Date32
    } else if str_eq(s, "Timestamp") {
        DataType::Timestamp
    } else {
        DataType::Utf8
    }
}

/// The name of a type in parq's schema format (`Null` and `Timestamp` are
/// written as `Utf8`).
pub fn datatype_to_str(dt: &DataType) -> (res: &'static str)
    ensures
        res@ == datatype_name(*dt),
{
    match dt {
        DataType::Boolean => "Boolean",
        DataType::Int8 => "Int8",
        DataType::Int16 => "Int16",
        DataType::Int32 => "Int32",
        DataType::Int64 => "Int64",
        DataType::UInt8 => "UInt8",
        DataType::UInt16 => "UInt16",
        DataType::UInt32 => "UInt32",
        DataType::UInt64 => "UInt64",
        DataType::Float32 => "Float32",
        DataType::Float64 => "Float64",
        DataType::Date32 => "Date32",
        _ => "Utf8",
    }
}

/// The least type that holds both `a` and `b`.
pub open spec fn merge_spec(a: DataType, b: DataType) -> DataType {
    if a == b {
        a
    } else {
        match (a, b) {
            (DataType::Null, x) => x,
            (x, DataType::Null) => x,
            (DataType::Boolean, DataType::Int64) => DataType::Int64,
            (DataType::Int64, DataType::Boolean) => DataType::Int64,
            (DataType::Boolean, DataType::Float64) => DataType::Float64,
            (DataType::Float64, DataType::Boolean) => DataType::Float64,
            (DataType::Int64, DataType::Float64) => DataType::Float64,
            (DataType::Float64, DataType::Int64) => DataType::Float64,
            _ => DataType::Utf8,
        }
    }
}

/// The type a single JSON value asks for.
pub open spec fn value_type_spec(v: JsonView) -> DataType {
    match v {
        JsonView::Null => DataType::Null,
        JsonView::Bool(_) => DataType::Boolean,
        JsonView::Number { integer, .. } => if integer is Some {
            DataType::Int64
        } else {
            DataType::Float64
        },
        _ => DataType::Utf8,
    }
}

/// The least type that holds both `a` and `b`.
pub fn merge(a: &DataType, b: &DataType) -> (res: DataType)
    ensures
        res == merge_spec(*a, *b),
{
    if *a == *b {
        return *a;
    }
    match (*a, *b) {
        (DataType::Null, x) => x,
        (x, DataType::Null) => x,
        (DataType::Boolean, DataType::Int64) => DataType::Int64,
        (DataType::Int64, DataType::Boolean) => DataType::Int64,
        (DataType::Boolean, DataType::Float64) => DataType::Float64,
        (DataType::Float64, DataType::Boolean) => DataType::Float64,
        (DataType::Int64, DataType::Float64) => DataType::Float64,
        (DataType::Float64, DataType::Int64) => DataType::Float64,
        _ => DataType::Utf8,
    }
}

/// The type a single JSON value asks for.
pub fn value_type(v: &JsonValue) -> (res: DataType)
    ensures
        res == value_type_spec(v@),
{
    match v {
        JsonValue::Null => DataType::Null,
        JsonValue::Bool(_) => DataType::Boolean,
        JsonValue::Number(n) => if n.integer.is_some() {
            DataType::Int64
        } else {
            DataType::Float64
        },
        _ => DataType::Utf8,
    }
}

/// `current` widened to hold `value`.
pub fn promote(current: &DataType, value: &JsonValue) -> (res: DataType)
    ensures
        res == merge_spec(*current, value_type_spec(value@)),
{
    merge(current, &value_type(value))
}

/// Law: `merge` is commutative.
pub proof fn lemma_merge_commutative(a: DataType, b: DataType)
    ensures
        merge_spec(a, b) == merge_spec(b, a),
{
}

/// Law: `merge` is associative, so the type inferred for a field does not
/// depend on how its values are grouped.
pub proof fn lemma_merge_associative(a: DataType, b: DataType, c: DataType)
    ensures
        merge_spec(merge_spec(a, b), c) == merge_spec(a, merge_spec(b, c)),
{
}

/// Law: `merge` is idempotent, `Null` is its identity and `Utf8` absorbs
/// every type: the promotion hierarchy has `Null` at the bottom and `Utf8` as
/// its ceiling.
pub proof fn lemma_merge_bounds(a: DataType)
    ensures
        merge_spec(a, a) == a,
        merge_spec(DataType::Null, a) == a,
        merge_spec(a, DataType::Null) == a,
        merge_spec(DataType::Utf8, a) == DataType::Utf8,
        merge_spec(a, DataType::Utf8) == DataType::Utf8,
{
}

/// Law: writing a type's name and reading it back gives the type again, for
/// every type but `Null` and `Timestamp` (both written as `Utf8`).
pub proof fn lemma_datatype_name_roundtrip(dt: DataType)
    requires
        dt != DataType::Null,
        dt != DataType::Timestamp,
    ensures
        datatype_named(datatype_name(dt)) == dt,
{
    reveal_strlit("Boolean");
    reveal_strlit("Int8");
    reveal_strlit("Int16");
    reveal_strlit("Int32");
    reveal_strlit("Int64");
    reveal_strlit("UInt8");
    reveal_strlit("UInt16");
    reveal_strlit("UInt32");
    reveal_strlit("UInt64");
    reveal_strlit("Float32");
    reveal_strlit("Float64");
    reveal_strlit("Date32");
    reveal_strlit("Timestamp");
    reveal_strlit("Utf8");
    let n = datatype_name(dt);
    assert(n.len() > 0);
    match dt {
        DataType::Int8 => { assert(n[0] != "Utf8"@[0]); assert(n[3] != "Int16"@[3]); },
        DataType::Int16 => { assert(n[3] != "Int32"@[3]); },
        DataType::Int32 => { assert(n[3] != "Int16"@[3]); },
        DataType::Int64 => { assert(n[3] != "Int16"@[3]); assert(n[3] != "Int32"@[3]); },
        DataType::UInt8 => { assert(n[0] != "Int16"@[0]); },
        DataType::UInt16 => { assert(n[4] != "UInt32"@[4]); },
        DataType::UInt32 => { assert(n[4] != "UInt16"@[4]); },
        DataType::UInt64 => { assert(n[4] != "UInt16"@[4]); assert(n[4] != "UInt32"@[4]); },
        DataType::Float32 => { assert(n[0] != "Boolean"@[0]); },
        DataType::Float64 => { assert(n[0] != "Boolean"@[0]); assert(n[5] != "Float32"@[5]); },
        DataType::Date32 => { assert(n[0] != "UInt16"@[0]); },
        DataType::Utf8 => { assert(n[0] != "Int8"@[0]); },
        _ => {},
    }
}

/// Law: every type is written under its own name in parq's schema format
/// (`Null` and `Timestamp` are written as `Utf8`), and every name of the
/// format reads as the type it names; unknown names read as `Utf8`.
pub proof fn lemma_type_names()
    ensures
        datatype_name(DataType::Boolean) == "Boolean"@,
        datatype_name(DataType::Int8) == "Int8"@,
        datatype_name(DataType::Int16) == "Int16"@,
        datatype_name(DataType::Int32) == "Int32"@,
        datatype_name(DataType::Int64) == "Int64"@,
        datatype_name(DataType::UInt8) == "UInt8"@,
        datatype_name(DataType::UInt16) == "UInt16"@,
        datatype_name(DataType::UInt32) == "UInt32"@,
        datatype_name(DataType::UInt64) == "UInt64"@,
        datatype_name(DataType::Float32) == "Float32"@,
        datatype_name(DataType::Float64) == "Float64"@,
        datatype_name(DataType::Date32) == "Date32"@,
        datatype_name(DataType::Utf8) == "Utf8"@,
        datatype_name(DataType::Null) == "Utf8"@,
        datatype_name(DataType::Timestamp) == "Utf8"@,
        datatype_named("Boolean"@) == DataType::Boolean,
        datatype_named("Int8"@) == DataType::Int8,
        datatype_named("Int16"@) == DataType::Int16,
        datatype_named("Int32"@) == DataType::Int32,
        datatype_named("Int64"@) == DataType::Int64,
        datatype_named("UInt8"@) == DataType::UInt8,
        datatype_named("UInt16"@) == DataType::UInt16,
        datatype_named("UInt32"@) == DataType::UInt32,
        datatype_named("UInt64"@) == DataType::UInt64,
        datatype_named("Float32"@) == DataType::Float32,
        datatype_named("Float64"@) == DataType::Float64,
        datatype_named("Date32"@) == DataType::Date32,
        datatype_named("Timestamp"@) == DataType::Timestamp,
        datatype_named("Utf8"@) == DataType::Utf8,
        datatype_named("Null"@) == DataType::Utf8,
{
    lemma_datatype_name_roundtrip(DataType::Boolean);
    lemma_datatype_name_roundtrip(DataType::Int8);
    lemma_datatype_name_roundtrip(DataType::Int16);
    lemma_datatype_name_roundtrip(DataType::Int32);
    lemma_datatype_name_roundtrip(DataType::Int64);
    lemma_datatype_name_roundtrip(DataType::UInt8);
    lemma_datatype_name_roundtrip(DataType::UInt16);
    lemma_datatype_name_roundtrip(DataType::UInt32);
    lemma_datatype_name_roundtrip(DataType::UInt64);
    lemma_datatype_name_roundtrip(DataType::Float32);
    lemma_datatype_name_roundtrip(DataType::Float64);
    lemma_datatype_name_roundtrip(DataType::Date32);
    lemma_datatype_name_roundtrip(DataType::Utf8);
    reveal_strlit("Boolean");
    reveal_strlit("Int8");
    reveal_strlit("Int16");
    reveal_strlit("Int32");
    reveal_strlit("Int64");
    reveal_strlit("UInt8");
    reveal_strlit("UInt16");
    reveal_strlit("UInt32");
    reveal_strlit("UInt64");
    reveal_strlit("Float32");
    reveal_strlit("Float64");
    reveal_strlit("Date32");
    reveal_strlit("Timestamp");
    reveal_strlit("Utf8");
    reveal_strlit("Null");
    assert("Null"@[0] != "Int8"@[0]);
    assert("Null"@[0] != "Utf8"@[0]);
    assert("Timestamp"@.len() != "Boolean"@.len());
    assert("Timestamp"@.len() != "Int8"@.len());
    assert("Timestamp"@.len() != "Int16"@.len());
    assert("Timestamp"@.len() != "Int32"@.len());
    assert("Timestamp"@.len() != "Int64"@.len());
    assert("Timestamp"@.len() != "UInt8"@.len());
    assert("Timestamp"@.len() != "UInt16"@.len());
    assert("Timestamp"@.len() != "UInt32"@.len());
    assert("Timestamp"@.len() != "UInt64"@.len());
    assert("Timestamp"@.len() != "Float32"@.len());
    assert("Timestamp"@.len() != "Float64"@.len());
    assert("Timestamp"@.len() != "Date32"@.len());
}

/// Law: the type a value asks for depends only on its JSON kind — `null`
/// asks for `Null`, a boolean for `Boolean`, a number for `Int64` when it is
/// an `i64` and `Float64` otherwise, and every string, array and object for
/// `Utf8` — so a field that is given a string is `Utf8` from then on,
/// whatever type it had.
pub proof fn lemma_value_kinds()
    ensures
        value_type_spec(JsonView::Null) == DataType::Null,
        forall|b: bool| value_type_spec(JsonView::Bool(b)) == DataType::Boolean,
        forall|text: Seq<char>, i: i64|
            value_type_spec(JsonView::Number { text, integer: Some(i) }) == DataType::Int64,
        forall|text: Seq<char>|
            value_type_spec(JsonView::Number { text, integer: None }) == DataType::Float64,
        forall|s: Seq<char>| value_type_spec(JsonView::String(s)) == DataType::Utf8,
        forall|c: Seq<char>, d: Seq<char>|
            value_type_spec(JsonView::Array { compact: c, debug: d }) == DataType::Utf8,
        forall|e: Seq<(Seq<char>, JsonView)>, c: Seq<char>, d: Seq<char>|
            value_type_spec(JsonView::Object { entries: e, compact: c, debug: d }) == DataType::Utf8,
        forall|t: DataType, s: Seq<char>|
            merge_spec(t, value_type_spec(JsonView::String(s))) == DataType::Utf8,
{
}

/// What schema inference has learned so far: the current type of every key
/// seen (in first-seen order), the keys in the order they first got a
/// non-`Null` type, and the number of records read.
pub struct InferState {
    pub types: Seq<(Seq<char>, DataType)>,
    pub order: Seq<Seq<char>>,
    pub rows: nat,
}

pub open spec fn observe_entry(st: InferState, e: (Seq<char>, JsonView)) -> InferState {
    let cur = match assoc_get(st.types, e.0) {
        Some(t) => t,
        None => DataType::Null,
    };
    let promoted = merge_spec(cur, value_type_spec(e.1));
    InferState {
        types: assoc_put(st.types, e.0, promoted),
        order: if cur == DataType::Null && promoted != DataType::Null {
            st.order.push(e.0)
        } else {
            st.order
        },
        rows: st.rows,
    }
}

pub open spec fn observe_entries(st: InferState, es: Seq<(Seq<char>, JsonView)>) -> InferState
    decreases es.len(),
{
    if es.len() == 0 {
        st
    } else {
        observe_entry(observe_entries(st, es.drop_last()), es.last())
    }
}

/// One parsed record: an object's members are observed; every record counts.
pub open spec fn observe_record_spec(st: InferState, v: JsonView) -> InferState {
    let st2 = match v {
        JsonView::Object { entries, .. } => observe_entries(st, entries),
        _ => st,
    };
    InferState { rows: st2.rows + 1, ..st2 }
}

/// One line of the input: once `sample` records have been read nothing more
/// is looked at; blank lines and lines that are not JSON are passed over.
pub open spec fn infer_step(st: InferState, line: Seq<u8>, sample: nat) -> InferState {
    if st.rows >= sample {
        st
    } else {
        let t = trim_ascii_spec(line);
        if t.len() == 0 {
            st
        } else {
            match parsed_json(t) {
                None => st,
                Some(v) => observe_record_spec(st, v),
            }
        }
    }
}

pub open spec fn infer_start() -> InferState {
    InferState { types: Seq::empty(), order: Seq::empty(), rows: 0 }
}

pub open spec fn infer_lines(lines: Seq<Seq<u8>>, sample: nat) -> InferState
    decreases lines.len(),
{
    if lines.len() == 0 {
        infer_start()
    } else {
        infer_step(infer_lines(lines.drop_last(), sample), lines.last(), sample)
    }
}

/// The fields inferred from a final state: the keys that got a non-`Null`
/// type, in that order, all nullable.
pub open spec fn inferred_fields(st: InferState) -> Seq<FieldView> {
    st.order.map_values(
        |name: Seq<char>|
            (
                name,
                match assoc_get(st.types, name) {
                    Some(t) => t,
                    None => DataType::Utf8,
                },
                true,
            ),
    )
}

/// How schema inference ends.
pub enum InferOutcome {
    Fields(Seq<FieldView>),
    NoRecords,
}

/// The state after reading the lines of the BOM-stripped data.
pub open spec fn infer_state(data: Seq<u8>, sample: nat) -> InferState {
    infer_lines(split_lines(strip_bom_spec(data)), sample)
}

pub open spec fn infer_outcome(data: Seq<u8>, sample_size: nat) -> InferOutcome {
    let st = infer_state(data, sample_size);
    if st.rows == 0 {
        InferOutcome::NoRecords
    } else {
        InferOutcome::Fields(inferred_fields(st))
    }
}

/// Types inference can produce.
pub open spec fn is_chain_type(t: DataType) -> bool {
    t == DataType::Null || t == DataType::Boolean || t == DataType::Int64 || t == DataType::Float64
        || t == DataType::Utf8
}

/// The invariant of an inference state.
pub open spec fn infer_wf(st: InferState) -> bool {
    &&& keys_distinct(st.types)
    &&& forall|i: int| 0 <= i < st.types.len() ==> is_chain_type(#[trigger] st.types[i].1)
    &&& forall|i: int, j: int| 0 <= i < j < st.order.len() ==> st.order[i] != st.order[j]
    &&& forall|i: int|
        0 <= i < st.order.len() ==> match assoc_get(st.types, #[trigger] st.order[i]) {
            Some(t) => t != DataType::Null,
            None => false,
        }
}

/// Collects field types record by record (the state of [`infer_schema`]).
pub struct SchemaBuilder {
    types: Vec<(String, DataType)>,
    order: Vec<String>,
    rows: usize,
}

pub open spec fn types_view(v: Seq<(String, DataType)>) -> Seq<(Seq<char>, DataType)> {
    v.map_values(|p: (String, DataType)| (p.0@, p.1))
}

impl View for SchemaBuilder {
    type V = InferState;

    closed spec fn view(&self) -> InferState {
        InferState {
            types: types_view(self.types@),
            order: self.order@.map_values(|s: String| s@),
            rows: self.rows as nat,
        }
    }
}

fn find_type(types: &Vec<(String, DataType)>, key: &String) -> (res: Option<usize>)
    ensures
        match res {
            Some(i) => i < types@.len() && key_pos(types_view(types@), key@) == Some(i as nat),
            None => key_pos(types_view(types@), key@) is None,
        },
{
    let ghost s = types_view(types@);
    let mut j: usize = 0;
    while j < types.len()
        invariant
            j <= types@.len(),
            s == types_view(types@),
            forall|t: int| 0 <= t < j ==> s[t].0 != key@,
        decreases types@.len() - j,
    {
        if types[j].0 == *key {
            proof {
                lemma_key_pos_is(s, key@, j as int);
            }
            return Some(j);
        }
        j += 1;
    }
    proof {
        lemma_key_pos(s, key@);
        if let Some(i) = key_pos(s, key@) {
            assert(s[i as int].0 != key@);
        }
    }
    None
}

proof fn lemma_observe_entry_wf(st: InferState, e: (Seq<char>, JsonView))
    requires
        infer_wf(st),
    ensures
        infer_wf(observe_entry(st, e)),
{
    let cur = match assoc_get(st.types, e.0) {
        Some(t) => t,
        None => DataType::Null,
    };
    let promoted = merge_spec(cur, value_type_spec(e.1));
    let t2 = assoc_put(st.types, e.0, promoted);
    let st2 = observe_entry(st, e);
    lemma_key_pos(st.types, e.0);
    lemma_put_distinct(st.types, e.0, promoted);
    lemma_key_pos(t2, e.0);
    assert forall|i: int| 0 <= i < t2.len() implies is_chain_type(#[trigger] t2[i].1) by {
        match key_pos(st.types, e.0) {
            Some(p) => if i != p {
                assert(t2[i] == st.types[i]);
            },
            None => if i < st.types.len() {
                assert(t2[i] == st.types[i]);
            },
        }
    }
    assert forall|i: int| 0 <= i < st2.order.len() implies match assoc_get(
        t2,
        #[trigger] st2.order[i],
    ) {
        Some(t) => t != DataType::Null,
        None => false,
    } by {
        let name = st2.order[i];
        if name != e.0 {
            lemma_key_pos(st.types, name);
            lemma_key_pos(t2, name);
            assert(i < st.order.len());
            assert(st.order[i] == name);
            let p = key_pos(st.types, name)->0;
            lemma_key_pos_is(t2, name, p as int);
        }
    }
    assert forall|i: int, j: int|
        0 <= i < j < st2.order.len() implies st2.order[i] != st2.order[j] by {
        if j == st.order.len() {
            assert(st.order[i] == st2.order[i]);
            assert(assoc_get(st.types, st.order[i]) != None::<DataType>);
        }
    }
}

proof fn lemma_observe_entries_wf(st: InferState, es: Seq<(Seq<char>, JsonView)>)
    requires
        infer_wf(st),
    ensures
        infer_wf(observe_entries(st, es)),
        observe_entries(st, es).rows == st.rows,
    decreases es.len(),
{
    if es.len() > 0 {
        lemma_observe_entries_wf(st, es.drop_last());
        lemma_observe_entry_wf(observe_entries(st, es.drop_last()), es.last());
    }
}

impl SchemaBuilder {
    /// The builder's invariant.
    pub closed spec fn wf(&self) -> bool {
        infer_wf(self@)
    }

    /// A builder that has seen nothing.
    pub fn new() -> (res: SchemaBuilder)
        ensures
            res@ == infer_start(),
            res.wf(),
    {
        let res = SchemaBuilder { types: Vec::new(), order: Vec::new(), rows: 0 };
        proof {
            assert(res@.types =~= Seq::<(Seq<char>, DataType)>::empty());
            assert(res@.order =~= Seq::<Seq<char>>::empty());
        }
        res
    }

    /// The number of records observed.
    pub fn rows(&self) -> (res: usize)
        ensures
            res == self@.rows,
    {
        self.rows
    }

    fn observe_entry(&mut self, key: &String, value: &JsonValue)
        requires
            old(self).wf(),
        ensures
            final(self)@ == observe_entry(old(self)@, (key@, value@)),
            final(self).wf(),
    {
        let ghost st = self@;
        let pos = find_type(&self.types, key);
        let cur = match pos {
            Some(i) => self.types[i].1,
            None => DataType::Null,
        };
        let promoted = promote(&cur, value);
        if cur == DataType::Null && promoted != DataType::Null {
            self.order.push(key.clone());
        }
        match pos {
            Some(i) => {
                self.types.set(i, (key.clone(), promoted));
            },
            None => {
                self.types.push((key.clone(), promoted));
            },
        }
        proof {
            let target = observe_entry(st, (key@, value@));
            assert(self@.types =~= target.types);
            assert(self@.order =~= target.order);
            lemma_observe_entry_wf(st, (key@, value@));
        }
    }

    /// Observe one parsed record.
    pub fn observe_record(&mut self, value: &JsonValue)
        requires
            old(self).wf(),
            old(self)@.rows < usize::MAX,
        ensures
            final(self)@ == observe_record_spec(old(self)@, value@),
            final(self)@.rows == old(self)@.rows + 1,
            final(self).wf(),
    {
        let ghost st = self@;
        if let JsonValue::Object(es, r) = value {
            proof {
                lemma_object_entries(es, r);
            }
            let ghost ev = entries_view(es@);
            let mut i: usize = 0;
            proof {
                assert(ev.take(0) =~= Seq::<(Seq<char>, JsonView)>::empty());
            }
            while i < es.len()
                invariant
                    i <= es@.len(),
                    ev == entries_view(es@),
                    self.wf(),
                    self@ == observe_entries(st, ev.take(i as int)),
                decreases es@.len() - i,
            {
                proof {
                    assert(ev.take(i + 1).drop_last() =~= ev.take(i as int));
                }
                self.observe_entry(&es[i].key, &es[i].value);
                i += 1;
            }
            proof {
                assert(ev.take(es@.len() as int) =~= ev);
            }
        }
        proof {
            if let JsonView::Object { entries, .. } = value@ {
                lemma_observe_entries_wf(st, entries);
            }
        }
        self.rows = self.rows + 1;
    }

    /// The schema inferred so far, or `InsufficientData` when no record was
    /// observed.
    pub fn finish(self) -> (res: Result<Schema, ParqError>)
        requires
            self.wf(),
        ensures
            match res {
                Ok(schema) => self@.rows > 0 && schema@ == inferred_fields(self@),
                Err(ParqError::InsufficientData { rows }) => self@.rows == 0 && rows == 0,
                Err(_) => false,
            },
    {
        if self.rows == 0 {
            return Err(ParqError::InsufficientData { rows: 0 });
        }
        let ghost st = self@;
        let mut fields: Vec<Field> = Vec::new();
        let mut i: usize = 0;
        while i < self.order.len()
            invariant
                i <= self.order@.len(),
                st == self@,
                infer_wf(st),
                fields_view(fields@) == inferred_fields(st).take(i as int),
            decreases self.order@.len() - i,
        {
            let name = &self.order[i];
            let pos = find_type(&self.types, name);
            proof {
                assert(st.order[i as int] == name@);
            }
            let dt = match pos {
                Some(p) => self.types[p].1,
                None => DataType::Utf8,
            };
            proof {
                assert(st.types == types_view(self.types@));
                assert(dt == match assoc_get(st.types, name@) {
                    Some(t) => t,
                    None => DataType::Utf8,
                });
                assert(inferred_fields(st)[i as int] == (name@, dt, true));
            }
            let ghost before = fields_view(fields@);
            fields.push(Field { name: name.clone(), data_type: dt, nullable: true });
            proof {
                assert(fields_view(fields@) =~= before.push((name@, dt, true)));
                assert(fields_view(fields@) =~= inferred_fields(st).take(i + 1));
            }
            i += 1;
        }
        proof {
            assert(inferred_fields(st).take(self.order@.len() as int) =~= inferred_fields(st));
        }
        Ok(Schema { fields })
    }
}

proof fn lemma_inferred_fields_laws(st: InferState)
    requires
        infer_wf(st),
    ensures
        forall|i: int, j: int|
            0 <= i < j < inferred_fields(st).len() ==> inferred_fields(st)[i].0 != inferred_fields(
                st,
            )[j].0,
        forall|i: int|
            0 <= i < inferred_fields(st).len() ==> {
                let t = #[trigger] inferred_fields(st)[i].1;
                &&& is_chain_type(t)
                &&& t != DataType::Null
                &&& inferred_fields(st)[i].2
            },
{
    let f = inferred_fields(st);
    assert forall|i: int| 0 <= i < f.len() implies {
        let t = #[trigger] f[i].1;
        &&& is_chain_type(t)
        &&& t != DataType::Null
        &&& f[i].2
    } by {
        let name = st.order[i];
        assert(f[i] == (name, match assoc_get(st.types, name) {
            Some(t) => t,
            None => DataType::Utf8,
        }, true));
        lemma_key_pos(st.types, name);
        let p = key_pos(st.types, name)->0;
        assert(is_chain_type(st.types[p as int].1));
    }
}

proof fn lemma_sample_full_sticks(a: Seq<Seq<u8>>, b: Seq<Seq<u8>>, sample: nat)
    requires
        infer_lines(a, sample).rows >= sample,
    ensures
        infer_lines(a + b, sample) == infer_lines(a, sample),
    decreases b.len(),
{
    if b.len() == 0 {
        assert(a + b =~= a);
    } else {
        lemma_sample_full_sticks(a, b.drop_last(), sample);
        assert((a + b).drop_last() =~= a + b.drop_last());
    }
}

proof fn lemma_infer_lines_wf(lines: Seq<Seq<u8>>, sample: nat)
    ensures
        infer_wf(infer_lines(lines, sample)),
        infer_lines(lines, sample).rows <= lines.len(),
        infer_lines(lines, sample).rows <= sample,
    decreases lines.len(),
{
    if lines.len() > 0 {
        lemma_infer_lines_wf(lines.drop_last(), sample);
        let st = infer_lines(lines.drop_last(), sample);
        if let Some(JsonView::Object { entries, .. }) = parsed_json(trim_ascii_spec(lines.last())) {
            lemma_observe_entries_wf(st, entries);
        }
    }
}

/// How many leading records the pipeline samples when it infers a schema.
pub const INFER_SAMPLE_RECORDS: usize = 10000;

/// Infer a schema from up to `sample_size` records at the start of `data`
/// (after a UTF-8 byte-order mark, if any).
///
/// Blank lines and lines that are not JSON are passed over and do not count
/// toward the sample.  Each key of the object records becomes a nullable
/// field, in the order in which it first got a non-`Null` type, with the
/// least type that holds all of its values (`Null → Boolean → Int64 →
/// Float64 → Utf8`).  Keys that are only ever `null` get no field.  The only
/// error is `InsufficientData`, when no record parses.
pub fn infer_schema(data: &[u8], sample_size: usize) -> (res: Result<Schema, ParqError>)
    requires
        data@.len() <= isize::MAX,
    ensures
        match res {
            Ok(schema) => infer_outcome(data@, sample_size as nat) == InferOutcome::Fields(schema@),
            Err(ParqError::InsufficientData { rows }) => rows == 0 && infer_outcome(
                data@,
                sample_size as nat,
            ) == InferOutcome::NoRecords,
            Err(_) => false,
        },
        res matches Ok(schema) ==> {
            &&& forall|i: int, j: int| 0 <= i < j < schema@.len() ==> schema@[i].0 != schema@[j].0
            &&& forall|i: int|
                0 <= i < schema@.len() ==> {
                    let t = #[trigger] schema@[i].1;
                    &&& is_chain_type(t)
                    &&& t != DataType::Null
                    &&& schema@[i].2
                }
        },
{
    let d = strip_bom(data);
    let ghost lines = split_lines(d@);
    let ghost sample = sample_size as nat;
    let mut builder = SchemaBuilder::new();
    let mut start: usize = 0;
    let mut more = true;
    let ghost mut done: Seq<Seq<u8>> = Seq::empty();
    proof {
        assert(d@.skip(0) =~= d@);
        assert(lines =~= done + split_lines(d@.skip(0)));
    }
    while more && builder.rows() < sample_size
        invariant
            d@ == strip_bom_spec(data@),
            d@.len() <= isize::MAX,
            lines == split_lines(d@),
            sample == sample_size as nat,
            more ==> start <= d@.len() && done.len() <= start && lines == done + split_lines(
                d@.skip(start as int),
            ),
            !more ==> lines == done,
            infer_lines(done, sample) == builder@,
            builder.wf(),
            builder@.rows <= sample_size,
        decreases (if more { d@.len() + 1 - start } else { 0 }),
    {
        let (line, next) = next_line(d, start);
        let ghost prev = done;
        proof {
            done = done.push(line@);
            assert(done.drop_last() =~= prev);
        }
        let t = trim_ascii(line);
        if t.len() > 0 {
            match parse_json(t) {
                Ok(v) => {
                    builder.observe_record(&v);
                },
                Err(_) => {},
            }
        }
        match next {
            Some(n) => {
                proof {
                    assert(lines == prev + (seq![line@] + split_lines(d@.skip(n as int))));
                    assert(lines =~= done + split_lines(d@.skip(n as int)));
                }
                start = n;
            },
            None => {
                proof {
                    assert(lines =~= done);
                }
                more = false;
            },
        }
    }
    proof {
        if more {
            let rest = lines.subrange(done.len() as int, lines.len() as int);
            assert(lines =~= done + rest);
            lemma_sample_full_sticks(done, rest, sample);
        }
        assert(infer_state(data@, sample) == builder@);
        lemma_infer_lines_wf(done, sample);
        lemma_inferred_fields_laws(builder@);
    }
    let res = builder.finish();
    res
}

/// Law: a UTF-8 byte-order mark in front of data that has none does not
/// change what inference finds.
pub proof fn lemma_infer_ignores_bom(d: Seq<u8>, sample_size: nat)
    requires
        !has_bom(d),
    ensures
        infer_outcome(seq![0xEFu8, 0xBBu8, 0xBFu8] + d, sample_size) == infer_outcome(d, sample_size),
{
    let b = seq![0xEFu8, 0xBBu8, 0xBFu8] + d;
    assert(has_bom(b));
    assert(b.skip(3) =~= d);
}

/// Once the sample is full within `d` (which ends with a newline), whatever
/// bytes follow do not change what inference finds.
proof fn lemma_infer_ignores_after(d: Seq<u8>, t: Seq<u8>, sample_size: nat)
    requires
        d.len() > 0,
        d.last() == NEWLINE,
        infer_state(d, sample_size).rows >= sample_size,
    ensures
        infer_outcome(d + t, sample_size) == infer_outcome(d, sample_size),
{
    let s = strip_bom_spec(d);
    let dt = d + t;
    if has_bom(d) {
        assert(has_bom(dt));
        assert(dt.skip(3) =~= s + t);
        assert(d.len() > 3);
    } else {
        if d.len() >= 3 {
            assert(dt[0] == d[0] && dt[1] == d[1] && dt[2] == d[2]);
        } else {
            assert(dt[d.len() - 1] == NEWLINE);
        }
        assert(!has_bom(dt));
        assert(s + t == dt);
    }
    assert(strip_bom_spec(dt) == s + t);
    assert(s.last() == NEWLINE);
    lemma_split_lines_concat(s, t);
    let l = split_lines(s);
    assert(l.drop_last().push(l.last()) =~= l);
    assert(infer_lines(l, sample_size) == infer_lines(l.drop_last(), sample_size));
    lemma_sample_full_sticks(l.drop_last(), split_lines(t), sample_size);
}

/// Law: when the sample is already full within the first `k` bytes of `d`,
/// which end with a newline, bytes appended to `d` do not change what
/// inference finds.
pub proof fn lemma_infer_ignores_rest(d: Seq<u8>, k: int, t: Seq<u8>, sample_size: nat)
    requires
        0 < k <= d.len(),
        d[k - 1] == NEWLINE,
        infer_state(d.take(k), sample_size).rows >= sample_size,
    ensures
        infer_outcome(d + t, sample_size) == infer_outcome(d, sample_size),
{
    let p = d.take(k);
    let q = d.skip(k);
    assert(p + q =~= d);
    assert(p + (q + t) =~= d + t);
    assert(p.last() == d[k - 1]);
    lemma_infer_ignores_after(p, q, sample_size);
    lemma_infer_ignores_after(p, q + t, sample_size);
}

/// The text with a leading U+FEFF (byte-order mark) removed.
pub open spec fn strip_feff(text: Seq<char>) -> Seq<char> {
    if text.len() > 0 && text[0] == '\u{feff}' {
        text.skip(1)
    } else {
        text
    }
}

/// The member `k` of `v` when `v` is an object (what `v[k]` reads).
pub open spec fn member(v: JsonView, k: Seq<char>) -> Option<JsonView> {
    match v {
        JsonView::Object { entries, .. } => assoc_get(entries, k),
        _ => None,
    }
}

/// One entry of parq's schema format: `name` (default `unknown`), `type`
/// (default `Utf8`), `nullable` (default `true`).
pub open spec fn schema_entry_field(e: JsonView) -> FieldView {
    let name = match member(e, "name"@) {
        Some(JsonView::String(s)) => s,
        _ => "unknown"@,
    };
    let ty = match member(e, "type"@) {
        Some(JsonView::String(s)) => s,
        _ => "Utf8"@,
    };
    let nullable = match member(e, "nullable"@) {
        Some(JsonView::Bool(b)) => b,
        _ => true,
    };
    (name, datatype_named(ty), nullable)
}

/// The schema that a text in parq's schema format describes; `None` when the
/// text is not a JSON array.
pub open spec fn schema_from_json_spec(text: Seq<char>) -> Option<Seq<FieldView>> {
    match parsed_json_list(strip_feff(text)) {
        Some(vs) => Some(vs.map_values(|e: JsonView| schema_entry_field(e))),
        None => None,
    }
}

fn member_of<'a>(v: &'a JsonValue, key: &str) -> (res: Option<&'a JsonValue>)
    ensures
        match res {
            Some(m) => member(v@, key@) == Some(m@),
            None => member(v@, key@) is None,
        },
{
    match v {
        JsonValue::Object(es, r) => {
            proof {
                lemma_object_entries(es, r);
            }
            let k = String::from_str(key);
            object_get(es, &k)
        },
        _ => None,
    }
}

fn schema_entry(e: &JsonValue) -> (res: Field)
    ensures
        field_view(res) == schema_entry_field(e@),
{
    let name = match member_of(e, "name") {
        Some(JsonValue::String(s)) => s.clone(),
        _ => String::from_str("unknown"),
    };
    let ty = match member_of(e, "type") {
        Some(JsonValue::String(s)) => str_to_datatype(s.as_str()),
        _ => str_to_datatype("Utf8"),
    };
    let nullable = match member_of(e, "nullable") {
        Some(JsonValue::Bool(b)) => *b,
        _ => true,
    };
    Field { name, data_type: ty, nullable }
}

/// Read a schema in parq's schema format (the text of a schema file):
///
/// ```json
/// [
///   { "name": "id",    "type": "Int64",   "nullable": false },
///   { "name": "score", "type": "Float64", "nullable": true  }
/// ]
/// ```
pub fn schema_from_json_text(content: &str) -> (res: Result<Schema, serde_json::Error>)
    ensures
        match res {
            Ok(schema) => schema_from_json_spec(content@) == Some(schema@),
            Err(_) => schema_from_json_spec(content@) is None,
        },
{
    let n = content.unicode_len();
    let clean: &str = if n > 0 && content.get_char(0) == '\u{feff}' {
        content.substring_char(1, n)
    } else {
        content
    };
    assert(clean@ == strip_feff(content@));
    let entries = match parse_json_list(clean) {
        Ok(v) => v,
        Err(e) => return Err(e),
    };
    let ghost ev = entries@.map_values(|v: JsonValue| v@);
    let mut fields: Vec<Field> = Vec::new();
    let mut i: usize = 0;
    while i < entries.len()
        invariant
            i <= entries@.len(),
            ev == entries@.map_values(|v: JsonValue| v@),
            fields_view(fields@) == ev.take(i as int).map_values(|e: JsonView| schema_entry_field(e)),
        decreases entries@.len() - i,
    {
        let f = schema_entry(&entries[i]);
        let ghost before = fields_view(fields@);
        let ghost fv = field_view(f);
        fields.push(f);
        proof {
            assert(ev[i as int] == entries@[i as int]@);
            assert(fields_view(fields@) =~= before.push(fv));
            assert(fields_view(fields@) =~= ev.take(i + 1).map_values(
                |e: JsonView| schema_entry_field(e),
            ));
        }
        i += 1;
    }
    proof {
        assert(ev.take(entries@.len() as int) =~= ev);
    }
    Ok(Schema { fields })
}

/// A member value of a JSON object to be written.
pub enum JsonLeaf {
    Str(String),
    Bool(bool),
}

/// The value a written member reads back as.
pub open spec fn leaf_json(l: JsonLeaf) -> JsonView {
    match l {
        JsonLeaf::Str(s) => JsonView::String(s@),
        JsonLeaf::Bool(b) => JsonView::Bool(b),
    }
}

pub open spec fn object_view(o: Seq<(String, JsonLeaf)>) -> Seq<(Seq<char>, JsonView)> {
    o.map_values(|m: (String, JsonLeaf)| (m.0@, leaf_json(m.1)))
}

pub open spec fn objects_view(os: Seq<Vec<(String, JsonLeaf)>>) -> Seq<Seq<(Seq<char>, JsonView)>> {
    os.map_values(|o: Vec<(String, JsonLeaf)>| object_view(o@))
}

/// Text order of keys: character by character, by code point (the order of
/// `String`'s `Ord`).
pub open spec fn key_lt(a: Seq<char>, b: Seq<char>) -> bool
    decreases a.len(),
{
    if b.len() == 0 {
        false
    } else if a.len() == 0 {
        true
    } else if a[0] != b[0] {
        (a[0] as u32) < (b[0] as u32)
    } else {
        key_lt(a.drop_first(), b.drop_first())
    }
}

/// The members' keys are strictly ascending.
pub open spec fn keys_ascending(es: Seq<(Seq<char>, JsonView)>) -> bool {
    forall|j: int, k: int| 0 <= j < k < es.len() ==> key_lt(es[j].0, es[k].0)
}

/// serde_json's `to_string_pretty` of an array of objects with these
/// members.
pub uninterp spec fn pretty_objects_json(objects: Seq<Seq<(Seq<char>, JsonView)>>) -> Seq<char>;

/// Calls `serde_json::to_string_pretty` on the JSON array whose elements are
/// objects made member by member from `objects` (each a `serde_json::Map`,
/// which keeps its keys sorted).  Serialising a `serde_json::Value` never
/// fails.  The text starts with `[`, and `serde_json::from_str` reads it back
/// as one object per element; where an element's keys are strictly
/// ascending, the object read back has exactly that element's members, in
/// that order.
#[verifier::external_body]
fn to_pretty_json(objects: Vec<Vec<(String, JsonLeaf)>>) -> (res: String)
    ensures
        res@ == pretty_objects_json(objects_view(objects@)),
        res@.len() > 0 && res@[0] == '[',
        parsed_json_list(res@) matches Some(vs) && vs.len() == objects@.len() && forall|i: int|
            0 <= i < vs.len() ==> (#[trigger] vs[i] is Object && (keys_ascending(
                objects_view(objects@)[i],
            ) ==> vs[i]->Object_entries == objects_view(objects@)[i])),
{
    let doc: Vec<serde_json::Value> = objects.into_iter().map(|o| serde_json::Value::Object(
        o.into_iter().map(|(k, v)| (k, match v {
            JsonLeaf::Str(s) => serde_json::Value::String(s),
            JsonLeaf::Bool(b) => serde_json::Value::Bool(b),
        })).collect(),
    )).collect();
    serde_json::to_string_pretty(&doc).unwrap_or_default()
}

/// The members of the object written for one field: `name`, `nullable`,
/// `type` (in the sorted order in which they are written and read back).
pub open spec fn written_members(f: (Seq<char>, Seq<char>, bool)) -> Seq<(Seq<char>, JsonView)> {
    seq![("name"@, JsonView::String(f.0)), ("nullable"@, JsonView::Bool(f.2)), ("type"@, JsonView::String(f.1))]
}

proof fn lemma_written_keys_ascending(f: (Seq<char>, Seq<char>, bool))
    ensures
        keys_ascending(written_members(f)),
{
    reveal_strlit("name");
    reveal_strlit("nullable");
    reveal_strlit("type");
    let n = "name"@;
    let u = "nullable"@;
    let t = "type"@;
    assert(n.drop_first()[0] == 'a');
    assert(u.drop_first()[0] == 'u');
    assert(key_lt(n.drop_first(), u.drop_first()));
    assert(key_lt(n, u));
    assert(key_lt(n, t));
    assert(key_lt(u, t));
}

/// The object written for one field.
fn field_object(f: &Field) -> (res: Vec<(String, JsonLeaf)>)
    ensures
        object_view(res@) == written_members((f.name@, datatype_name(f.data_type), f.nullable)),
{
    let mut o: Vec<(String, JsonLeaf)> = Vec::new();
    o.push((String::from_str("name"), JsonLeaf::Str(f.name.clone())));
    o.push((String::from_str("nullable"), JsonLeaf::Bool(f.nullable)));
    o.push((String::from_str("type"), JsonLeaf::Str(String::from_str(datatype_to_str(&f.data_type)))));
    assert(object_view(o@) =~= written_members((f.name@, datatype_name(f.data_type), f.nullable)));
    o
}

/// The triples that describe a schema in parq's schema format.
pub open spec fn schema_triples(fields: Seq<FieldView>) -> Seq<(Seq<char>, Seq<char>, bool)> {
    fields.map_values(|f: FieldView| (f.0, datatype_name(f.1), f.2))
}

/// The schema-file text is read back as the schema it was written from.
pub open spec fn reads_back(text: Seq<char>, fields: Seq<FieldView>) -> bool {
    schema_from_json_spec(text) == Some(
        fields.map_values(|f: FieldView| (f.0, datatype_named(datatype_name(f.1)), f.2)),
    )
}

/// The objects written for a schema, one per field.
pub open spec fn schema_objects(fields: Seq<FieldView>) -> Seq<Seq<(Seq<char>, JsonView)>> {
    schema_triples(fields).map_values(|t: (Seq<char>, Seq<char>, bool)| written_members(t))
}

/// What the schema-file text reads back as: a JSON array with one object per
/// field, in field order, with the members `name`, `nullable` and `type`.
pub open spec fn reads_as_objects(text: Seq<char>, fields: Seq<FieldView>) -> bool {
    parsed_json_list(text) matches Some(vs) && vs.len() == fields.len() && forall|i: int|
        0 <= i < vs.len() ==> (#[trigger] vs[i] matches JsonView::Object { entries, .. } && entries
            == written_members(schema_triples(fields)[i]))
}

/// Serialise a schema to parq's JSON schema format (pretty-printed).
///
/// The text is a JSON array (it starts with `[`) of one object per field,
/// `{"name", "nullable", "type"}`.  Reading it back gives the same schema,
/// but for `Null` and `Timestamp` fields, which are written (and read back)
/// as `Utf8`.
pub fn schema_to_json_string(schema: &Schema) -> (res: String)
    ensures
        res@ == pretty_objects_json(schema_objects(schema@)),
        res@.len() > 0 && res@[0] == '[',
        reads_as_objects(res@, schema@),
        reads_back(res@, schema@),
{
    let mut objects: Vec<Vec<(String, JsonLeaf)>> = Vec::new();
    let mut i: usize = 0;
    while i < schema.fields.len()
        invariant
            i <= schema.fields@.len(),
            objects_view(objects@) == schema_objects(schema@).take(i as int),
        decreases schema.fields@.len() - i,
    {
        let f = &schema.fields[i];
        let o = field_object(f);
        let ghost before = objects@;
        objects.push(o);
        proof {
            assert(schema@[i as int] == field_view(*f));
            assert(objects_view(objects@) =~= objects_view(before).push(object_view(o@)));
            assert(objects_view(objects@) =~= schema_objects(schema@).take(i + 1));
        }
        i += 1;
    }
    proof {
        assert(schema_objects(schema@).take(schema.fields@.len() as int) =~= schema_objects(schema@));
    }
    let ghost ov = objects_view(objects@);
    let res = to_pretty_json(objects);
    proof {
        let tv = schema_triples(schema@);
        let vs = parsed_json_list(res@)->0;
        assert forall|i: int| 0 <= i < vs.len() implies (#[trigger] vs[i] matches JsonView::Object {
            entries,
            ..
        } && entries == written_members(tv[i])) by {
            lemma_written_keys_ascending(tv[i]);
            assert(ov[i] == written_members(tv[i]));
        }
        assert(strip_feff(res@) == res@);
        lemma_reads_back(res@, schema@, tv);
    }
    res
}

/// Law: a schema without `Null` or `Timestamp` fields, written with
/// `schema_to_json_string` and read with `schema_from_json_text`, comes back
/// unchanged, also when the text is preceded by a byte-order mark (U+FEFF).
pub proof fn lemma_schema_text_round_trip(text: Seq<char>, fields: Seq<FieldView>)
    requires
        reads_back(text, fields),
        text.len() > 0 && text[0] == '[',
        forall|i: int|
            0 <= i < fields.len() ==> (#[trigger] fields[i]).1 != DataType::Null && fields[i].1
                != DataType::Timestamp,
    ensures
        schema_from_json_spec(text) == Some(fields),
        schema_from_json_spec(seq!['\u{feff}'] + text) == Some(fields),
{
    let want = fields.map_values(|f: FieldView| (f.0, datatype_named(datatype_name(f.1)), f.2));
    assert forall|i: int| 0 <= i < fields.len() implies want[i] == fields[i] by {
        lemma_datatype_name_roundtrip(fields[i].1);
    }
    assert(want =~= fields);
    assert((seq!['\u{feff}'] + text).skip(1) =~= text);
    assert(strip_feff(text) == text);
}

proof fn lemma_member_of_written(f: (Seq<char>, Seq<char>, bool), entries: Seq<(Seq<char>, JsonView)>)
    requires
        entries == written_members(f),
    ensures
        assoc_get(entries, "name"@) == Some(JsonView::String(f.0)),
        assoc_get(entries, "type"@) == Some(JsonView::String(f.1)),
        assoc_get(entries, "nullable"@) == Some(JsonView::Bool(f.2)),
{
    reveal_strlit("name");
    reveal_strlit("nullable");
    reveal_strlit("type");
    assert("name"@[2] != "nullable"@[2]);
    assert("type"@[0] != "name"@[0]);
    assert("type"@[0] != "nullable"@[0]);
    assert(entries.drop_first().drop_first()[0].0 == "type"@);
    lemma_key_pos_is(entries, "name"@, 0);
    lemma_key_pos_is(entries, "nullable"@, 1);
    lemma_key_pos_is(entries, "type"@, 2);
}

/// The text written for a schema reads back as that schema (up to the types
/// written as `Utf8`).
proof fn lemma_reads_back(text: Seq<char>, fields: Seq<FieldView>, tv: Seq<(Seq<char>, Seq<char>, bool)>)
    requires
        tv == schema_triples(fields),
        strip_feff(text) == text,
        parsed_json_list(text) matches Some(vs) && vs.len() == tv.len() && forall|i: int|
            0 <= i < vs.len() ==> (#[trigger] vs[i] matches JsonView::Object { entries, .. }
                && entries == written_members(tv[i])),
    ensures
        reads_back(text, fields),
{
    let vs = parsed_json_list(text)->0;
    let got = vs.map_values(|e: JsonView| schema_entry_field(e));
    let want = fields.map_values(|f: FieldView| (f.0, datatype_named(datatype_name(f.1)), f.2));
    assert forall|i: int| 0 <= i < got.len() implies got[i] == want[i] by {
        let entries = vs[i]->Object_entries;
        assert(tv[i] == (fields[i].0, datatype_name(fields[i].1), fields[i].2));
        lemma_member_of_written(tv[i], entries);
    }
    assert(got =~= want);
}

} // verus!
