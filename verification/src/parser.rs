//! NDJSON chunk → column batches.
//!
//! | Mode    | `ignore_errors` | Behaviour                                     |
//! |---------|-----------------|-----------------------------------------------|
//! | Strict  | `false`         | first bad line → error                        |
//! | Lenient | `true`          | bad line counted as skipped and set aside     |
//!
//! Column values follow the schema's field types: booleans, 64-bit integers,
//! 64-bit floats (kept as the decimal text they are read from, converted where
//! floating point is available), strings, or all-null columns.
use vstd::prelude::*;
use vstd::slice::slice_to_vec;
use vstd::string::StringExecFns;
use vstd::utf8::encode_utf8;
use crate::assoc::assoc_get;
use crate::error::ParqError;
use crate::flatten::{flatten_object, flatten_spec, object_get};
use crate::integer::{parse_i64, parse_i64_spec};
use crate::json::{debug_str, entries_view, lemma_object_entries, not_an_object_error, parse_json, parsed_json, str_debug, JsonEntry, JsonValue, JsonView};
use crate::lines::{next_line, split_lines, trim_ascii, trim_ascii_spec};
use crate::schema::{DataType, Field, FieldView, Schema, fields_view};

verus! {

/// A cell of an integer column.
#[derive(Debug, PartialEq)]
pub enum IntCell {
    /// The integer itself.
    Exact(i64),
    /// A JSON number that is not an `i64`: the column holds its floating-point
    /// value cast to `i64` (saturating, truncating toward zero); kept here as
    /// the number's text.
    FromFloat(String),
}

/// The cells of one column of a batch.  `None` is a null cell.
#[derive(Debug, PartialEq)]
pub enum Column {
    /// A column of type `Null`: only its length.
    Null(usize),
    Bool(Vec<Option<bool>>),
    Int64(Vec<Option<IntCell>>),
    /// Each cell is the text of a 64-bit float; a text that does not read
    /// as a float is a null cell.
    Float64(Vec<Option<String>>),
    Utf8(Vec<Option<String>>),
}

pub enum IntCellView {
    Exact(i64),
    FromFloat(Seq<char>),
}

pub enum ColumnView {
    Null(nat),
    Bool(Seq<Option<bool>>),
    Int64(Seq<Option<IntCellView>>),
    Float64(Seq<Option<Seq<char>>>),
    Utf8(Seq<Option<Seq<char>>>),
}

pub open spec fn int_cell_view(c: IntCell) -> IntCellView {
    match c {
        IntCell::Exact(i) => IntCellView::Exact(i),
        IntCell::FromFloat(t) => IntCellView::FromFloat(t@),
    }
}

pub open spec fn opt_text(c: Option<String>) -> Option<Seq<char>> {
    match c {
        Some(s) => Some(s@),
        None => None,
    }
}

pub open spec fn column_view(c: Column) -> ColumnView {
    match c {
        Column::Null(n) => ColumnView::Null(n as nat),
        Column::Bool(v) => ColumnView::Bool(v@),
        Column::Int64(v) => ColumnView::Int64(
            v@.map_values(
                |c: Option<IntCell>|
                    match c {
                        Some(x) => Some(int_cell_view(x)),
                        None => None,
                    },
            ),
        ),
        Column::Float64(v) => ColumnView::Float64(v@.map_values(|c: Option<String>| opt_text(c))),
        Column::Utf8(v) => ColumnView::Utf8(v@.map_values(|c: Option<String>| opt_text(c))),
    }
}

impl View for Column {
    type V = ColumnView;

    open spec fn view(&self) -> ColumnView {
        column_view(*self)
    }
}

pub open spec fn columns_view(cs: Seq<Column>) -> Seq<ColumnView> {
    cs.map_values(|c: Column| c@)
}

/// A batch of rows: one column per schema field, and the number of rows.
#[derive(Debug, PartialEq)]
pub struct Batch {
    pub columns: Vec<Column>,
    pub rows: usize,
}

impl View for Batch {
    type V = (Seq<ColumnView>, nat);

    open spec fn view(&self) -> (Seq<ColumnView>, nat) {
        (columns_view(self.columns@), self.rows as nat)
    }
}

pub open spec fn column_len(c: ColumnView) -> nat {
    match c {
        ColumnView::Null(n) => n,
        ColumnView::Bool(v) => v.len(),
        ColumnView::Int64(v) => v.len(),
        ColumnView::Float64(v) => v.len(),
        ColumnView::Utf8(v) => v.len(),
    }
}

/// The empty column for a field type: integer types share the `Int64`
/// column, float types the `Float64` column, and every other type but
/// `Null` and `Boolean` is read as text.
pub open spec fn new_column_spec(dt: DataType) -> ColumnView {
    match dt {
        DataType::Null => ColumnView::Null(0),
        DataType::Boolean => ColumnView::Bool(Seq::empty()),
        DataType::Int8 | DataType::Int16 | DataType::Int32 | DataType::Int64 | DataType::UInt8
        | DataType::UInt16 | DataType::UInt32 | DataType::UInt64 => ColumnView::Int64(Seq::empty()),
        DataType::Float32 | DataType::Float64 => ColumnView::Float64(Seq::empty()),
        _ => ColumnView::Utf8(Seq::empty()),
    }
}

pub open spec fn fresh_columns(fields: Seq<FieldView>) -> Seq<ColumnView> {
    fields.map_values(|f: FieldView| new_column_spec(f.1))
}

/// serde_json's `to_string()` of a value that is neither a string nor null.
pub open spec fn compact_text(v: JsonView) -> Seq<char> {
    match v {
        JsonView::Bool(b) => if b {
            "true"@
        } else {
            "false"@
        },
        JsonView::Number { text, .. } => text,
        JsonView::Array { compact, .. } => compact,
        JsonView::Object { compact, .. } => compact,
        _ => Seq::empty(),
    }
}

/// serde_json's `{:?}` of a value that is neither a boolean nor null.
pub open spec fn debug_text(v: JsonView) -> Seq<char> {
    match v {
        JsonView::Number { text, .. } => "Number("@ + text + ")"@,
        JsonView::String(s) => "String("@ + debug_str(s) + ")"@,
        JsonView::Array { debug, .. } => debug,
        JsonView::Object { debug, .. } => debug,
        _ => Seq::empty(),
    }
}

/// Appending one value (absent: `None`) to a column; `Err` carries the
/// rendering of a value that a strict boolean column refuses.
pub open spec fn append_cell(c: ColumnView, v: Option<JsonView>, ignore: bool) -> Result<
    ColumnView,
    Seq<char>,
> {
    match c {
        ColumnView::Null(n) => Ok(ColumnView::Null(n + 1)),
        ColumnView::Bool(cs) => match v {
            Some(JsonView::Bool(b)) => Ok(ColumnView::Bool(cs.push(Some(b)))),
            Some(JsonView::Null) | None => Ok(ColumnView::Bool(cs.push(None))),
            Some(other) => if ignore {
                Ok(ColumnView::Bool(cs.push(None)))
            } else {
                Err(debug_text(other))
            },
        },
        ColumnView::Int64(cs) => match v {
            Some(JsonView::Number { text, integer }) => Ok(
                ColumnView::Int64(
                    cs.push(
                        Some(
                            match integer {
                                Some(i) => IntCellView::Exact(i),
                                None => IntCellView::FromFloat(text),
                            },
                        ),
                    ),
                ),
            ),
            Some(JsonView::String(s)) => Ok(
                ColumnView::Int64(
                    cs.push(
                        match parse_i64_spec(encode_utf8(s)) {
                            Some(i) => Some(IntCellView::Exact(i)),
                            None => None,
                        },
                    ),
                ),
            ),
            _ => Ok(ColumnView::Int64(cs.push(None))),
        },
        ColumnView::Float64(cs) => match v {
            Some(JsonView::Number { text, .. }) => Ok(ColumnView::Float64(cs.push(Some(text)))),
            Some(JsonView::String(s)) => Ok(ColumnView::Float64(cs.push(Some(s)))),
            _ => Ok(ColumnView::Float64(cs.push(None))),
        },
        ColumnView::Utf8(cs) => match v {
            Some(JsonView::String(s)) => Ok(ColumnView::Utf8(cs.push(Some(s)))),
            Some(JsonView::Null) | None => Ok(ColumnView::Utf8(cs.push(None))),
            Some(other) => Ok(ColumnView::Utf8(cs.push(Some(compact_text(other))))),
        },
    }
}

/// Appending a record's values to the first `k` columns, field by field.
pub open spec fn append_row_upto(
    cols: Seq<ColumnView>,
    fields: Seq<FieldView>,
    obj: Seq<(Seq<char>, JsonView)>,
    ignore: bool,
    k: nat,
) -> Result<Seq<ColumnView>, (Seq<char>, Seq<char>)>
    decreases k,
{
    if k == 0 {
        Ok(cols)
    } else {
        match append_row_upto(cols, fields, obj, ignore, (k - 1) as nat) {
            Err(e) => Err(e),
            Ok(cs) => match append_cell(cs[k - 1], assoc_get(obj, fields[k - 1].0), ignore) {
                Ok(c) => Ok(cs.update(k - 1, c)),
                Err(found) => Err((fields[k - 1].0, found)),
            },
        }
    }
}

/// Appending one record to every column.
pub open spec fn append_row_spec(
    cols: Seq<ColumnView>,
    fields: Seq<FieldView>,
    obj: Seq<(Seq<char>, JsonView)>,
    ignore: bool,
) -> Result<Seq<ColumnView>, (Seq<char>, Seq<char>)> {
    append_row_upto(cols, fields, obj, ignore, fields.len())
}

/// The `TypeMismatch` error of a value refused by the boolean column of
/// field `name`.
pub open spec fn is_mismatch(e: ParqError, name: Seq<char>, found: Seq<char>, line: nat) -> bool {
    match e {
        ParqError::TypeMismatch { field, expected, found: f, line: l } => {
            &&& field@ == name
            &&& expected@ == "Boolean"@
            &&& f@ == found
            &&& l == line
        },
        _ => false,
    }
}

impl Column {
    /// An empty column for a field type.
    pub fn new(dtype: DataType) -> (res: Column)
        ensures
            res@ == new_column_spec(dtype),
    {
        match dtype {
            DataType::Null => Column::Null(0),
            DataType::Boolean => Column::Bool(Vec::new()),
            DataType::Int8 | DataType::Int16 | DataType::Int32 | DataType::Int64 | DataType::UInt8
            | DataType::UInt16 | DataType::UInt32 | DataType::UInt64 => {
                let v: Vec<Option<IntCell>> = Vec::new();
                proof {
                    assert(column_view(Column::Int64(v)) == ColumnView::Int64(
                        Seq::<Option<IntCellView>>::empty(),
                    )) by {
                        assert(v@.map_values(
                            |c: Option<IntCell>|
                                match c {
                                    Some(x) => Some(int_cell_view(x)),
                                    None => None,
                                },
                        ) =~= Seq::<Option<IntCellView>>::empty());
                    }
                }
                Column::Int64(v)
            },
            DataType::Float32 | DataType::Float64 => {
                let v: Vec<Option<String>> = Vec::new();
                proof {
                    assert(v@.map_values(|c: Option<String>| opt_text(c)) =~= Seq::<
                        Option<Seq<char>>,
                    >::empty());
                }
                Column::Float64(v)
            },
            _ => {
                let v: Vec<Option<String>> = Vec::new();
                proof {
                    assert(v@.map_values(|c: Option<String>| opt_text(c)) =~= Seq::<
                        Option<Seq<char>>,
                    >::empty());
                }
                Column::Utf8(v)
            },
        }
    }

    /// The number of cells.
    pub fn len(&self) -> (res: usize)
        ensures
            res == column_len(self@),
    {
        match self {
            Column::Null(n) => *n,
            Column::Bool(v) => v.len(),
            Column::Int64(v) => v.len(),
            Column::Float64(v) => v.len(),
            Column::Utf8(v) => v.len(),
        }
    }

    /// Append one value (`None`: the field is absent from the record).
    /// A boolean column refuses a value that is neither a boolean nor null
    /// with a `TypeMismatch` naming `field` and `line`, unless
    /// `ignore_errors` is set, in which case it appends a null.
    pub fn append(&mut self, val: Option<&JsonValue>, field: &str, line: usize, ignore_errors: bool) -> (res:
        Result<(), ParqError>)
        requires
            column_len(old(self)@) < usize::MAX,
        ensures
            match append_cell(
                old(self)@,
                match val {
                    Some(v) => Some(v@),
                    None => None,
                },
                ignore_errors,
            ) {
                Ok(c) => res is Ok && final(self)@ == c,
                Err(found) => res matches Err(e) && is_mismatch(e, field@, found, line as nat),
            },
            res is Err ==> final(self)@ == old(self)@,
    {
        match self {
            Column::Null(n) => {
                *n = *n + 1;
                Ok(())
            },
            Column::Bool(cells) => match val {
                Some(JsonValue::Bool(b)) => {
                    cells.push(Some(*b));
                    Ok(())
                },
                Some(JsonValue::Null) | None => {
                    cells.push(None);
                    Ok(())
                },
                Some(other) => {
                    if ignore_errors {
                        cells.push(None);
                        Ok(())
                    } else {
                        let found = debug_of(other);
                        Err(
                            ParqError::TypeMismatch {
                                field: field.to_string(),
                                expected: String::from_str("Boolean"),
                                found,
                                line,
                            },
                        )
                    }
                },
            },
            Column::Int64(cells) => {
                let ghost before = cells@;
                let cell = match val {
                    Some(JsonValue::Number(n)) => match n.integer {
                        Some(i) => Some(IntCell::Exact(i)),
                        None => Some(IntCell::FromFloat(n.text.clone())),
                    },
                    Some(JsonValue::String(s)) => match parse_i64(s.as_str()) {
                        Some(i) => Some(IntCell::Exact(i)),
                        None => None,
                    },
                    _ => None,
                };
                cells.push(cell);
                proof {
                    assert(cells@ =~= before.push(cell));
                    let f = |c: Option<IntCell>|
                        match c {
                            Some(x) => Some(int_cell_view(x)),
                            None => None,
                        };
                    assert(cells@.map_values(f) =~= before.map_values(f).push(f(cell)));
                }
                Ok(())
            },
            Column::Float64(cells) => {
                let ghost before = cells@;
                let cell = match val {
                    Some(JsonValue::Number(n)) => Some(n.text.clone()),
                    Some(JsonValue::String(s)) => Some(s.clone()),
                    _ => None,
                };
                cells.push(cell);
                proof {
                    assert(cells@ =~= before.push(cell));
                    assert(cells@.map_values(|c: Option<String>| opt_text(c)) =~= before.map_values(
                        |c: Option<String>| opt_text(c),
                    ).push(opt_text(cell)));
                }
                Ok(())
            },
            Column::Utf8(cells) => {
                let ghost before = cells@;
                let cell = match val {
                    Some(JsonValue::String(s)) => Some(s.clone()),
                    Some(JsonValue::Null) | None => None,
                    Some(other) => Some(compact_of(other)),
                };
                cells.push(cell);
                proof {
                    assert(cells@ =~= before.push(cell));
                    assert(cells@.map_values(|c: Option<String>| opt_text(c)) =~= before.map_values(
                        |c: Option<String>| opt_text(c),
                    ).push(opt_text(cell)));
                }
                Ok(())
            },
        }
    }
}

/// serde_json's `to_string()` of a value that is neither a string nor null.
fn compact_of(v: &JsonValue) -> (res: String)
    ensures
        res@ == compact_text(v@),
{
    match v {
        JsonValue::Bool(b) => if *b {
            String::from_str("true")
        } else {
            String::from_str("false")
        },
        JsonValue::Number(n) => n.text.clone(),
        JsonValue::Array(r) => r.compact.clone(),
        JsonValue::Object(es, r) => {
            proof {
                lemma_object_entries(es, r);
            }
            r.compact.clone()
        },
        _ => String::new(),
    }
}

/// serde_json's `{:?}` of a value that is neither a boolean nor null.
fn debug_of(v: &JsonValue) -> (res: String)
    ensures
        res@ == debug_text(v@),
{
    match v {
        JsonValue::Number(n) => {
            let mut out = String::from_str("Number(");
            out.append(n.text.as_str());
            out.append(")");
            out
        },
        JsonValue::String(s) => {
            let mut out = String::from_str("String(");
            let d = str_debug(s.as_str());
            out.append(d.as_str());
            out.append(")");
            out
        },
        JsonValue::Array(r) => r.debug.clone(),
        JsonValue::Object(es, r) => {
            proof {
                lemma_object_entries(es, r);
            }
            r.debug.clone()
        },
        _ => String::new(),
    }
}

proof fn lemma_append_row_upto(
    cols: Seq<ColumnView>,
    fields: Seq<FieldView>,
    obj: Seq<(Seq<char>, JsonView)>,
    ignore: bool,
    k: nat,
)
    requires
        k <= cols.len(),
    ensures
        append_row_upto(cols, fields, obj, ignore, k) matches Ok(cs) ==> {
            &&& cs.len() == cols.len()
            &&& forall|j: int| k <= j < cols.len() ==> cs[j] == cols[j]
            &&& forall|j: int|
                0 <= j < k ==> column_len(#[trigger] cs[j]) == column_len(cols[j]) + 1
        },
    decreases k,
{
    if k > 0 {
        lemma_append_row_upto(cols, fields, obj, ignore, (k - 1) as nat);
    }
}

/// Append one record (an object's members) to the columns of the current
/// batch, field by field in schema order.  The first refused value ends the
/// row with a `TypeMismatch` error (strict boolean columns only).
pub fn append_row(
    columns: &mut Vec<Column>,
    fields: &Vec<Field>,
    obj: &Vec<JsonEntry>,
    line: usize,
    ignore_errors: bool,
) -> (res: Result<(), ParqError>)
    requires
        old(columns)@.len() == fields@.len(),
        forall|j: int| 0 <= j < old(columns)@.len() ==> column_len(#[trigger] old(columns)@[j]@) < usize::MAX,
    ensures
        match append_row_spec(columns_view(old(columns)@), fields_view(fields@), entries_view(obj@), ignore_errors) {
            Ok(cs) => res is Ok && columns_view(final(columns)@) == cs,
            Err((name, found)) => res matches Err(e) && is_mismatch(e, name, found, line as nat),
        },
{
    let ghost orig = columns_view(columns@);
    let ghost fv = fields_view(fields@);
    let ghost ov = entries_view(obj@);
    let mut i: usize = 0;
    while i < fields.len()
        invariant
            i <= fields@.len(),
            columns@.len() == fields@.len(),
            orig.len() == fields@.len(),
            orig == columns_view(old(columns)@),
            fv == fields_view(fields@),
            ov == entries_view(obj@),
            append_row_upto(orig, fv, ov, ignore_errors, i as nat) == Ok::<Seq<ColumnView>, (Seq<char>, Seq<char>)>(columns_view(columns@)),
            forall|j: int| i <= j < columns@.len() ==> columns@[j]@ == orig[j],
            forall|j: int| 0 <= j < orig.len() ==> column_len(#[trigger] orig[j]) < usize::MAX,
        decreases fields@.len() - i,
    {
        let val = object_get(obj, &fields[i].name);
        let ghost before = columns_view(columns@);
        proof {
            assert(fv[i as int].0 == fields@[i as int].name@);
            assert(before[i as int] == orig[i as int]);
        }
        let ghost vv = match val {
            Some(v) => Some(v@),
            None => None,
        };
        proof {
            assert(vv == assoc_get(ov, fv[i as int].0));
        }
        let r = columns[i].append(val, fields[i].name.as_str(), line, ignore_errors);
        proof {
            assert(append_row_upto(orig, fv, ov, ignore_errors, (i + 1) as nat) == match append_cell(
                before[i as int],
                vv,
                ignore_errors,
            ) {
                Ok(c) => Ok(before.update(i as int, c)),
                Err(found) => Err((fv[i as int].0, found)),
            });
        }
        match r {
            Ok(()) => {
                proof {
                    assert(columns_view(columns@) =~= before.update(i as int, columns@[i as int]@));
                }
            },
            Err(e) => {
                proof {
                    lemma_append_row_err(orig, fv, ov, ignore_errors, (i + 1) as nat);
                }
                return Err(e);
            },
        }
        i += 1;
    }
    Ok(())
}

proof fn lemma_append_row_err(
    cols: Seq<ColumnView>,
    fields: Seq<FieldView>,
    obj: Seq<(Seq<char>, JsonView)>,
    ignore: bool,
    k: nat,
)
    requires
        k <= fields.len(),
        append_row_upto(cols, fields, obj, ignore, k) is Err,
    ensures
        append_row_spec(cols, fields, obj, ignore) == append_row_upto(cols, fields, obj, ignore, k),
    decreases fields.len() - k,
{
    if k < fields.len() {
        lemma_append_row_err(cols, fields, obj, ignore, k + 1);
    }
}

/// The settings of a chunk parse.
pub struct ChunkParams {
    pub fields: Seq<FieldView>,
    pub batch_size: nat,
    pub ignore: bool,
    pub flatten: bool,
    pub limit: Option<usize>,
}

/// The state of a chunk parse: finished batches, the current batch's columns
/// and row count, rows kept and skipped, lines read, and the lines set aside.
pub struct ChunkState {
    pub batches: Seq<(Seq<ColumnView>, nat)>,
    pub cols: Seq<ColumnView>,
    pub batch_rows: nat,
    pub ok: nat,
    pub skip: nat,
    pub line_no: nat,
    pub dead: Seq<Seq<u8>>,
}

/// Why a chunk parse stops (strict mode only).
pub enum ChunkError {
    /// A line that is not a JSON object, at this line number.
    JsonParse(nat),
    /// A refused boolean value: the field's name, the value's rendering and
    /// the line number.
    Mismatch(Seq<char>, Seq<char>, nat),
}

pub open spec fn chunk_start(p: ChunkParams) -> ChunkState {
    ChunkState {
        batches: Seq::empty(),
        cols: fresh_columns(p.fields),
        batch_rows: 0,
        ok: 0,
        skip: 0,
        line_no: 0,
        dead: Seq::empty(),
    }
}

pub open spec fn limit_reached(p: ChunkParams, st: ChunkState) -> bool {
    match p.limit {
        Some(l) => st.ok >= l,
        None => false,
    }
}

/// A skipped line (lenient mode): counted and set aside.
pub open spec fn skip_line(st: ChunkState, t: Seq<u8>) -> ChunkState {
    ChunkState { skip: st.skip + 1, dead: st.dead.push(t), ..st }
}

/// A record appended as a row; the batch is closed once it holds
/// `batch_size` rows.
pub open spec fn record_step(p: ChunkParams, st: ChunkState, obj: Seq<(Seq<char>, JsonView)>) -> Result<
    ChunkState,
    ChunkError,
> {
    let row = if p.flatten {
        flatten_spec(obj, "_"@)
    } else {
        obj
    };
    match append_row_spec(st.cols, p.fields, row, p.ignore) {
        Err((name, found)) => Err(ChunkError::Mismatch(name, found, st.line_no)),
        Ok(cs) => {
            let br = st.batch_rows + 1;
            if br >= p.batch_size {
                Ok(
                    ChunkState {
                        batches: st.batches.push((cs, br)),
                        cols: fresh_columns(p.fields),
                        batch_rows: 0,
                        ok: st.ok + 1,
                        ..st
                    },
                )
            } else {
                Ok(ChunkState { cols: cs, batch_rows: br, ok: st.ok + 1, ..st })
            }
        },
    }
}

/// One line of the chunk.
pub open spec fn chunk_step(p: ChunkParams, st: ChunkState, line: Seq<u8>) -> Result<
    ChunkState,
    ChunkError,
> {
    let st1 = ChunkState { line_no: st.line_no + 1, ..st };
    if limit_reached(p, st) {
        Ok(st1)
    } else {
        let t = trim_ascii_spec(line);
        if t.len() == 0 {
            Ok(st1)
        } else {
            match parsed_json(t) {
                Some(JsonView::Object { entries, .. }) => record_step(p, st1, entries),
                _ => if p.ignore {
                    Ok(skip_line(st1, t))
                } else {
                    Err(ChunkError::JsonParse(st1.line_no))
                },
            }
        }
    }
}

pub open spec fn chunk_lines(p: ChunkParams, lines: Seq<Seq<u8>>) -> Result<ChunkState, ChunkError>
    decreases lines.len(),
{
    if lines.len() == 0 {
        Ok(chunk_start(p))
    } else {
        match chunk_lines(p, lines.drop_last()) {
            Ok(st) => chunk_step(p, st, lines.last()),
            Err(e) => Err(e),
        }
    }
}

/// The batches of a finished parse: the open batch is closed if not empty.
pub open spec fn final_batches(st: ChunkState) -> Seq<(Seq<ColumnView>, nat)> {
    if st.batch_rows > 0 {
        st.batches.push((st.cols, st.batch_rows))
    } else {
        st.batches
    }
}

/// What parsing a chunk yields: batches, rows kept, rows skipped.
pub open spec fn chunk_outcome(p: ChunkParams, data: Seq<u8>) -> Result<
    (Seq<(Seq<ColumnView>, nat)>, nat, nat),
    ChunkError,
> {
    match chunk_lines(p, split_lines(data)) {
        Ok(st) => Ok((final_batches(st), st.ok, st.skip)),
        Err(e) => Err(e),
    }
}

/// The lines a chunk parse sets aside (lenient mode), trimmed.
pub open spec fn chunk_dead_letters(p: ChunkParams, data: Seq<u8>) -> Seq<Seq<u8>> {
    match chunk_lines(p, split_lines(data)) {
        Ok(st) => st.dead,
        Err(_) => Seq::empty(),
    }
}

/// The number of rows of a full batch: `batch_size`, or 1 when it is 0.
pub open spec fn batch_cap(p: ChunkParams) -> nat {
    if p.batch_size == 0 {
        1
    } else {
        p.batch_size
    }
}

/// Every column of a batch holds `n` cells.
pub open spec fn batch_has_rows(b: Seq<ColumnView>, n: nat) -> bool {
    forall|j: int| 0 <= j < b.len() ==> column_len(#[trigger] b[j]) == n
}

/// The total number of rows of a list of batches.
pub open spec fn sum_rows(bs: Seq<(Seq<ColumnView>, nat)>) -> nat
    decreases bs.len(),
{
    if bs.len() == 0 {
        0
    } else {
        sum_rows(bs.drop_last()) + bs.last().1
    }
}

/// What the batches of a parse look like: one column per field, every
/// column as long as the batch's row count, each batch full except the last,
/// which holds at least one row; the rows add up to the rows kept; strict
/// parses skip nothing; a limit is never exceeded.
pub open spec fn batches_law(p: ChunkParams, bs: Seq<(Seq<ColumnView>, nat)>, ok: nat, skip: nat) -> bool {
    &&& forall|k: int|
        0 <= k < bs.len() ==> {
            &&& (#[trigger] bs[k]).0.len() == p.fields.len()
            &&& 1 <= bs[k].1 <= batch_cap(p)
            &&& batch_has_rows(bs[k].0, bs[k].1)
        }
    &&& forall|k: int| 0 <= k < bs.len() - 1 ==> (#[trigger] bs[k]).1 == batch_cap(p)
    &&& ok == sum_rows(bs)
    &&& !p.ignore ==> skip == 0
    &&& (p.limit matches Some(l) ==> ok <= l)
}

/// The invariant of a chunk parse.
pub open spec fn chunk_wf(p: ChunkParams, st: ChunkState) -> bool {
    &&& st.cols.len() == p.fields.len()
    &&& forall|j: int| 0 <= j < st.cols.len() ==> column_len(#[trigger] st.cols[j]) == st.batch_rows
    &&& st.batch_rows <= st.ok
    &&& st.ok + st.skip <= st.line_no
    &&& forall|k: int|
        0 <= k < st.batches.len() ==> {
            &&& (#[trigger] st.batches[k]).0.len() == p.fields.len()
            &&& st.batches[k].1 == batch_cap(p)
            &&& batch_has_rows(st.batches[k].0, st.batches[k].1)
        }
    &&& st.batch_rows < batch_cap(p)
    &&& st.ok == sum_rows(st.batches) + st.batch_rows
    &&& st.dead.len() == st.skip
    &&& !p.ignore ==> st.skip == 0
    &&& (p.limit matches Some(l) ==> st.ok <= l)
}

pub open spec fn chunk_params(
    schema: Seq<FieldView>,
    batch_size: usize,
    ignore: bool,
    flatten: bool,
    limit: Option<usize>,
) -> ChunkParams {
    ChunkParams { fields: schema, batch_size: batch_size as nat, ignore, flatten, limit }
}

pub open spec fn batches_view(bs: Seq<Batch>) -> Seq<(Seq<ColumnView>, nat)> {
    bs.map_values(|b: Batch| b@)
}

pub open spec fn bytes_view(ls: Seq<Vec<u8>>) -> Seq<Seq<u8>> {
    ls.map_values(|l: Vec<u8>| l@)
}

proof fn lemma_fresh_columns_wf(fields: Seq<FieldView>)
    ensures
        fresh_columns(fields).len() == fields.len(),
        forall|j: int| 0 <= j < fields.len() ==> column_len(#[trigger] fresh_columns(fields)[j]) == 0,
{
}

proof fn lemma_error_sticks(p: ChunkParams, a: Seq<Seq<u8>>, b: Seq<Seq<u8>>)
    requires
        chunk_lines(p, a) is Err,
    ensures
        chunk_lines(p, a + b) == chunk_lines(p, a),
    decreases b.len(),
{
    if b.len() == 0 {
        assert(a + b =~= a);
    } else {
        lemma_error_sticks(p, a, b.drop_last());
        assert((a + b).drop_last() =~= a + b.drop_last());
    }
}

proof fn lemma_limit_sticks(p: ChunkParams, a: Seq<Seq<u8>>, b: Seq<Seq<u8>>, st: ChunkState)
    requires
        chunk_lines(p, a) == Ok::<ChunkState, ChunkError>(st),
        limit_reached(p, st),
    ensures
        chunk_lines(p, a + b) == Ok::<ChunkState, ChunkError>(ChunkState { line_no: st.line_no + b.len(), ..st }),
    decreases b.len(),
{
    if b.len() == 0 {
        assert(a + b =~= a);
    } else {
        lemma_limit_sticks(p, a, b.drop_last(), st);
        assert((a + b).drop_last() =~= a + b.drop_last());
    }
}

proof fn lemma_chunk_step_wf(p: ChunkParams, st: ChunkState, line: Seq<u8>)
    requires
        chunk_wf(p, st),
    ensures
        chunk_step(p, st, line) matches Ok(st2) ==> chunk_wf(p, st2) && st2.line_no == st.line_no + 1,
        p.ignore ==> chunk_step(p, st, line) is Ok,
{
    let st1 = ChunkState { line_no: st.line_no + 1, ..st };
    let t = trim_ascii_spec(line);
    if !limit_reached(p, st) && t.len() > 0 {
        if let Some(JsonView::Object { entries, .. }) = parsed_json(t) {
            let row = if p.flatten {
                flatten_spec(entries, "_"@)
            } else {
                entries
            };
            lemma_append_row_upto(st1.cols, p.fields, row, p.ignore, p.fields.len());
            lemma_append_row_lenient(st1.cols, p.fields, row, p.ignore, p.fields.len());
            lemma_fresh_columns_wf(p.fields);
            if let Ok(cs) = append_row_spec(st1.cols, p.fields, row, p.ignore) {
                let br = st1.batch_rows + 1;
                if br >= p.batch_size {
                    let st2 = chunk_step(p, st, line)->Ok_0;
                    assert(st2.batches == st.batches.push((cs, br)));
                    assert(st.batches.push((cs, br)).drop_last() =~= st.batches);
                    assert forall|k: int| 0 <= k < st2.batches.len() implies {
                        &&& (#[trigger] st2.batches[k]).0.len() == p.fields.len()
                        &&& st2.batches[k].1 == batch_cap(p)
                        &&& batch_has_rows(st2.batches[k].0, st2.batches[k].1)
                    } by {
                        if k < st.batches.len() {
                            assert(st2.batches[k] == st.batches[k]);
                        }
                    }
                }
            }
        }
    }
}

proof fn lemma_append_row_lenient(
    cols: Seq<ColumnView>,
    fields: Seq<FieldView>,
    obj: Seq<(Seq<char>, JsonView)>,
    ignore: bool,
    k: nat,
)
    ensures
        ignore ==> append_row_upto(cols, fields, obj, ignore, k) is Ok,
    decreases k,
{
    if k > 0 {
        lemma_append_row_lenient(cols, fields, obj, ignore, (k - 1) as nat);
    }
}

proof fn lemma_chunk_lines_wf(p: ChunkParams, lines: Seq<Seq<u8>>)
    ensures
        chunk_lines(p, lines) matches Ok(st) ==> chunk_wf(p, st),
        p.ignore ==> chunk_lines(p, lines) is Ok,
    decreases lines.len(),
{
    if lines.len() == 0 {
        lemma_fresh_columns_wf(p.fields);
    } else {
        lemma_chunk_lines_wf(p, lines.drop_last());
        if let Ok(st) = chunk_lines(p, lines.drop_last()) {
            lemma_chunk_step_wf(p, st, lines.last());
        }
    }
}

proof fn lemma_final_batches_law(p: ChunkParams, st: ChunkState)
    requires
        chunk_wf(p, st),
    ensures
        batches_law(p, final_batches(st), st.ok, st.skip),
{
    let bs = final_batches(st);
    if st.batch_rows > 0 {
        assert(bs.drop_last() =~= st.batches);
        assert forall|k: int| 0 <= k < bs.len() implies {
            &&& (#[trigger] bs[k]).0.len() == p.fields.len()
            &&& 1 <= bs[k].1 <= batch_cap(p)
            &&& batch_has_rows(bs[k].0, bs[k].1)
        } by {
            if k < st.batches.len() {
                assert(bs[k] == st.batches[k]);
            }
        }
        assert forall|k: int| 0 <= k < bs.len() - 1 implies (#[trigger] bs[k]).1 == batch_cap(p) by {
            assert(bs[k] == st.batches[k]);
        }
    } else {
        assert forall|k: int| 0 <= k < bs.len() implies {
            &&& (#[trigger] bs[k]).0.len() == p.fields.len()
            &&& 1 <= bs[k].1 <= batch_cap(p)
            &&& batch_has_rows(bs[k].0, bs[k].1)
        } by {
            assert(bs[k] == st.batches[k]);
        }
    }
}

/// Empty columns for the fields of a schema.
pub fn new_columns(fields: &Vec<Field>) -> (res: Vec<Column>)
    ensures
        columns_view(res@) == fresh_columns(fields_view(fields@)),
{
    let mut cols: Vec<Column> = Vec::new();
    let mut i: usize = 0;
    while i < fields.len()
        invariant
            i <= fields@.len(),
            columns_view(cols@) == fresh_columns(fields_view(fields@)).take(i as int),
        decreases fields@.len() - i,
    {
        let c = Column::new(fields[i].data_type);
        let ghost before = columns_view(cols@);
        cols.push(c);
        proof {
            assert(columns_view(cols@) =~= before.push(c@));
            assert(columns_view(cols@) =~= fresh_columns(fields_view(fields@)).take(i + 1));
        }
        i += 1;
    }
    proof {
        assert(fresh_columns(fields_view(fields@)).take(fields@.len() as int) =~= fresh_columns(
            fields_view(fields@),
        ));
    }
    cols
}

/// The numbers that a finished parse reports, without the line count.
pub open spec fn settle(st: ChunkState) -> (Seq<(Seq<ColumnView>, nat)>, nat, nat, Seq<Seq<u8>>) {
    (final_batches(st), st.ok, st.skip, st.dead)
}

/// What a chunk parse returns, given its settings and bytes: the batches,
/// rows kept and skipped of [`chunk_outcome`], or its error; together with the
/// properties of [`batches_law`]; lenient parses never fail.
pub open spec fn chunk_result(
    p: ChunkParams,
    data: Seq<u8>,
    res: Result<(Vec<Batch>, usize, usize), ParqError>,
) -> bool {
    &&& match chunk_outcome(p, data) {
        Ok((bs, ok, skip)) => res matches Ok((batches, o, s)) && batches_view(batches@) == bs && o
            == ok && s == skip,
        Err(ChunkError::JsonParse(l)) => res matches Err(ParqError::JsonParse { line, .. }) && line
            == l,
        Err(ChunkError::Mismatch(n, f, l)) => res matches Err(e) && is_mismatch(e, n, f, l),
    }
    &&& res matches Ok((batches, o, s)) ==> batches_law(p, batches_view(batches@), o as nat, s as nat)
    &&& p.ignore ==> res is Ok
}

/// Parse the NDJSON lines of one chunk into batches of columns, one column
/// per field of `schema`.
///
/// Each line is trimmed of ASCII whitespace; blank lines are passed over.
/// Once `limit` rows have been kept, the rest of the chunk is not read.
/// A line that is not a JSON object is an error (`JsonParse`, with its line
/// number), or, when `ignore_errors` is set, a skipped line that is returned
/// among the set-aside lines.  Objects are flattened with `_` when
/// `flatten_json` is set.  A batch is closed every `batch_size` rows (every
/// row when `batch_size` is 0), and the last, partial one at the end.
///
/// Returns the outcome — `(batches, rows kept, rows skipped)` — and the
/// set-aside lines.
pub fn parse_chunk_lines(
    data: &[u8],
    schema: &Schema,
    batch_size: usize,
    ignore_errors: bool,
    flatten_json: bool,
    limit: Option<usize>,
) -> (res: (Result<(Vec<Batch>, usize, usize), ParqError>, Vec<Vec<u8>>))
    requires
        data@.len() <= isize::MAX,
    ensures
        chunk_result(chunk_params(schema@, batch_size, ignore_errors, flatten_json, limit), data@, res.0),
        bytes_view(res.1@) == chunk_dead_letters(
            chunk_params(schema@, batch_size, ignore_errors, flatten_json, limit),
            data@,
        ),
{
    let fields = &schema.fields;
    let ghost p = chunk_params(schema@, batch_size, ignore_errors, flatten_json, limit);
    let ghost lines = split_lines(data@);
    let mut batches: Vec<Batch> = Vec::new();
    let mut cols = new_columns(fields);
    let mut batch_rows: usize = 0;
    let mut ok: usize = 0;
    let mut skip: usize = 0;
    let mut line_no: usize = 0;
    let mut dead: Vec<Vec<u8>> = Vec::new();
    let mut start: usize = 0;
    let mut more = true;
    let ghost mut done: Seq<Seq<u8>> = Seq::empty();
    proof {
        assert(data@.skip(0) =~= data@);
        assert(lines =~= done + split_lines(data@.skip(0)));
        assert(batches_view(batches@) =~= Seq::<(Seq<ColumnView>, nat)>::empty());
        assert(bytes_view(dead@) =~= Seq::<Seq<u8>>::empty());
        lemma_fresh_columns_wf(p.fields);
    }
    while more
        invariant
            data@.len() <= isize::MAX,
            p == chunk_params(schema@, batch_size, ignore_errors, flatten_json, limit),
            fields == &schema.fields,
            lines == split_lines(data@),
            line_no == done.len(),
            ({
                let st = ChunkState {
                    batches: batches_view(batches@),
                    cols: columns_view(cols@),
                    batch_rows: batch_rows as nat,
                    ok: ok as nat,
                    skip: skip as nat,
                    line_no: line_no as nat,
                    dead: bytes_view(dead@),
                };
                &&& chunk_wf(p, st)
                &&& more ==> {
                    &&& start <= data@.len()
                    &&& done.len() <= start
                    &&& lines == done + split_lines(data@.skip(start as int))
                    &&& chunk_lines(p, done) == Ok::<ChunkState, ChunkError>(st)
                }
                &&& !more ==> (chunk_lines(p, lines) matches Ok(fs) && settle(fs) == settle(st))
            }),
        decreases (if more { data@.len() + 1 - start } else { 0 }),
    {
        let ghost st0 = ChunkState {
            batches: batches_view(batches@),
            cols: columns_view(cols@),
            batch_rows: batch_rows as nat,
            ok: ok as nat,
            skip: skip as nat,
            line_no: line_no as nat,
            dead: bytes_view(dead@),
        };
        let (line, next) = next_line(data, start);
        let ghost prev = done;
        let ghost rest = match next {
            Some(n) => split_lines(data@.skip(n as int)),
            None => Seq::<Seq<u8>>::empty(),
        };
        proof {
            done = done.push(line@);
            assert(done.drop_last() =~= prev);
            assert(lines =~= done + rest);
            lemma_chunk_step_wf(p, st0, line@);
        }
        line_no = line_no + 1;
        let stop = match limit {
            Some(lim) => ok >= lim,
            None => false,
        };
        if stop {
            proof {
                lemma_limit_sticks(p, prev, seq![line@] + rest, st0);
                assert(prev + (seq![line@] + rest) =~= lines);
            }
            more = false;
        } else {
            let t = trim_ascii(line);
            if t.len() > 0 {
                let parsed = parse_json(t);
                match parsed {
                    Ok(JsonValue::Object(es, r)) => {
                        proof {
                            lemma_object_entries(&es, &r);
                        }
                        let row = if flatten_json {
                            flatten_object(&es, "_")
                        } else {
                            es
                        };
                        let ghost before = columns_view(cols@);
                        proof {
                            assert forall|j: int| 0 <= j < cols@.len() implies column_len(
                                #[trigger] cols@[j]@,
                            ) < usize::MAX by {
                                assert(before[j] == cols@[j]@);
                            }
                        }
                        match append_row(&mut cols, fields, &row, line_no, ignore_errors) {
                            Err(e) => {
                                proof {
                                    lemma_error_sticks(p, done, rest);
                                }
                                return (Err(e), Vec::new());
                            },
                            Ok(()) => {},
                        }
                        proof {
                            lemma_append_row_upto(before, p.fields, entries_view(row@), ignore_errors, p.fields.len());
                        }
                        batch_rows = batch_rows + 1;
                        ok = ok + 1;
                        if batch_rows >= batch_size {
                            let ghost closed = columns_view(cols@);
                            batches.push(Batch { columns: cols, rows: batch_rows });
                            cols = new_columns(fields);
                            proof {
                                assert(batches_view(batches@) =~= st0.batches.push((closed, batch_rows as nat)));
                            }
                            batch_rows = 0;
                        }
                    },
                    _ => {
                        if ignore_errors {
                            skip = skip + 1;
                            let ghost before = bytes_view(dead@);
                            dead.push(slice_to_vec(t));
                            proof {
                                assert(bytes_view(dead@) =~= before.push(t@));
                            }
                        } else {
                            let source = match parsed {
                                Err(e) => e,
                                Ok(_) => not_an_object_error(),
                            };
                            proof {
                                lemma_error_sticks(p, done, rest);
                            }
                            return (Err(ParqError::JsonParse { line: line_no, source }), Vec::new());
                        }
                    },
                }
            }
            match next {
                Some(n) => {
                    start = n;
                },
                None => {
                    proof {
                        assert(lines =~= done);
                    }
                    more = false;
                },
            }
        }
    }
    proof {
        lemma_chunk_lines_wf(p, lines);
        lemma_chunk_lines_wf(p, done);
    }
    let ghost st_end = ChunkState {
        batches: batches_view(batches@),
        cols: columns_view(cols@),
        batch_rows: batch_rows as nat,
        ok: ok as nat,
        skip: skip as nat,
        line_no: line_no as nat,
        dead: bytes_view(dead@),
    };
    if batch_rows > 0 {
        let ghost open_cols = columns_view(cols@);
        batches.push(Batch { columns: cols, rows: batch_rows });
        proof {
            assert(batches_view(batches@) =~= st_end.batches.push((open_cols, batch_rows as nat)));
        }
    }
    proof {
        lemma_final_batches_law(p, st_end);
    }
    (Ok((batches, ok, skip)), dead)
}

#[verifier::external_type_specification]
#[verifier::external_body]
#[verifier::reject_recursive_types(T)]
pub struct ExSender<T>(crossbeam_channel::Sender<T>);

/// Where lenient parses hand their skipped lines: a channel sender, with a
/// record of every line handed to it.
pub struct DeadLetterSink {
    tx: crossbeam_channel::Sender<Vec<u8>>,
    sent: Ghost<Seq<Seq<u8>>>,
}

impl DeadLetterSink {
    /// The lines handed to the sender so far, in order.
    pub closed spec fn sent(&self) -> Seq<Seq<u8>> {
        self.sent@
    }

    /// A sink over `tx` that has sent nothing yet.
    pub fn new(tx: crossbeam_channel::Sender<Vec<u8>>) -> (res: DeadLetterSink)
        ensures
            res.sent() == Seq::<Seq<u8>>::empty(),
    {
        DeadLetterSink { tx, sent: Ghost(Seq::empty()) }
    }

    /// Calls `crossbeam_channel::Sender::send` with `line` and drops its
    /// result (an error only says that the receiving side is gone); the line
    /// is added to the record of what was handed over.  On a full bounded
    /// channel the call waits for room; nothing here states when it returns
    /// or whether a receiver takes the line.
    #[verifier::external_body]
    pub(crate) fn send(&mut self, line: Vec<u8>)
        ensures
            final(self).sent() == old(self).sent().push(line@),
    {
        let _ = self.tx.send(line);
    }
}

/// Parse one chunk (many NDJSON lines) into batches; see
/// [`parse_chunk_lines`].  In lenient mode each skipped line (trimmed) is
/// handed, in order, to the dead-letter sink when one is given; in strict
/// mode nothing is.
///
/// Returns `(batches, rows_ok, rows_skipped)`.
pub fn parse_chunk(
    data: &[u8],
    schema: &Schema,
    batch_size: usize,
    ignore_errors: bool,
    flatten_json: bool,
    limit: Option<usize>,
    dead_letters: &mut Option<DeadLetterSink>,
) -> (res: Result<(Vec<Batch>, usize, usize), ParqError>)
    requires
        data@.len() <= isize::MAX,
    ensures
        chunk_result(chunk_params(schema@, batch_size, ignore_errors, flatten_json, limit), data@, res),
        final(dead_letters).is_some() == old(dead_letters).is_some(),
        old(dead_letters).is_some() ==> final(dead_letters).unwrap().sent() == old(
            dead_letters,
        ).unwrap().sent() + chunk_dead_letters(
            chunk_params(schema@, batch_size, ignore_errors, flatten_json, limit),
            data@,
        ),
        !ignore_errors ==> chunk_dead_letters(
            chunk_params(schema@, batch_size, ignore_errors, flatten_json, limit),
            data@,
        ) == Seq::<Seq<u8>>::empty(),
{
    let ghost p = chunk_params(schema@, batch_size, ignore_errors, flatten_json, limit);
    let (res, dead) = parse_chunk_lines(data, schema, batch_size, ignore_errors, flatten_json, limit);
    proof {
        lemma_chunk_lines_wf(p, split_lines(data@));
        if !ignore_errors {
            assert(chunk_dead_letters(p, data@) =~= Seq::<Seq<u8>>::empty());
        }
    }
    match dead_letters {
        Some(sink) => {
            let ghost s0 = sink.sent();
            let mut i: usize = 0;
            while i < dead.len()
                invariant
                    i <= dead@.len(),
                    sink.sent() == s0 + bytes_view(dead@).take(i as int),
                decreases dead@.len() - i,
            {
                proof {
                    assert(bytes_view(dead@).take(i + 1) =~= bytes_view(dead@).take(i as int).push(dead@[i as int]@));
                }
                sink.send(dead[i].clone());
                i += 1;
            }
            proof {
                assert(bytes_view(dead@).take(dead@.len() as int) =~= bytes_view(dead@));
            }
        },
        None => {},
    }
    res
}

/// The rows still wanted after a chunk kept `rows` of the `left` wanted
/// (a run with a row limit reads its chunks in order, each with the rows
/// still wanted; it stops when none are).
pub fn limit_after_chunk(left: usize, rows: usize) -> (r: usize)
    requires
        rows <= left,
    ensures
        r == left - rows,
{
    left - rows
}

/// The total of a list of row counts.
pub open spec fn total_rows(recs: Seq<nat>) -> nat
    decreases recs.len(),
{
    if recs.len() == 0 {
        0
    } else {
        recs[0] + total_rows(recs.drop_first())
    }
}

/// The rows kept from chunks offering `recs` rows, in order, when `left`
/// are wanted: each chunk keeps as many as it offers, up to those still
/// wanted.
pub open spec fn kept_rows(left: nat, recs: Seq<nat>) -> nat
    decreases recs.len(),
{
    if recs.len() == 0 {
        0
    } else {
        let k = if recs[0] < left {
            recs[0]
        } else {
            left
        };
        k + kept_rows((left - k) as nat, recs.drop_first())
    }
}

/// Law: reading chunks in order under a limit of `n` rows keeps the first
/// `n` rows of the run, or all of them when there are fewer: `min(n, total)`.
pub proof fn lemma_limit_across_chunks(n: nat, recs: Seq<nat>)
    ensures
        kept_rows(n, recs) == if total_rows(recs) < n {
            total_rows(recs)
        } else {
            n
        },
    decreases recs.len(),
{
    if recs.len() > 0 {
        let k = if recs[0] < n {
            recs[0]
        } else {
            n
        };
        lemma_limit_across_chunks((n - k) as nat, recs.drop_first());
    }
}

/// The same settings without a row limit.
pub open spec fn unlimited(p: ChunkParams) -> ChunkParams {
    ChunkParams { limit: None, ..p }
}

proof fn lemma_limit_prefix(p: ChunkParams, lines: Seq<Seq<u8>>, l: usize)
    requires
        p.limit == Some(l),
        chunk_lines(unlimited(p), lines) is Ok,
    ensures
        chunk_lines(p, lines) is Ok,
        ({
            let u = chunk_lines(unlimited(p), lines)->Ok_0;
            let v = chunk_lines(p, lines)->Ok_0;
            (u.ok <= l && v == u) || (v.ok == l && u.ok >= l)
        }),
    decreases lines.len(),
{
    if lines.len() > 0 {
        let a = lines.drop_last();
        let x = lines.last();
        lemma_limit_prefix(p, a, l);
        let u = chunk_lines(unlimited(p), a)->Ok_0;
        let v = chunk_lines(p, a)->Ok_0;
        if v == u && u.ok < l {
            assert(!limit_reached(p, v));
            assert(!limit_reached(unlimited(p), u));
            assert(chunk_step(p, v, x) == chunk_step(unlimited(p), u, x));
        }
    }
}

/// Law: a chunk parse limited to `l` rows keeps the first `l` of the rows
/// that the same parse without a limit keeps (all of them when there are
/// fewer): `min(l, rows)`.
pub proof fn lemma_limit_keeps_first_rows(p: ChunkParams, data: Seq<u8>, l: usize)
    requires
        p.limit == Some(l),
        chunk_outcome(unlimited(p), data) is Ok,
    ensures
        chunk_outcome(p, data) matches Ok((_, ok, _)) && ok == (if chunk_outcome(
            unlimited(p),
            data,
        )->Ok_0.1 < l {
            chunk_outcome(unlimited(p), data)->Ok_0.1
        } else {
            l as nat
        }),
{
    lemma_limit_prefix(p, split_lines(data), l);
}

/// Law: in every column, an explicit JSON `null` and an absent field both
/// add exactly one null cell (a `Null` column just grows by one), in strict
/// and lenient mode alike.
pub proof fn lemma_null_is_null_cell(c: ColumnView, ignore: bool)
    ensures
        append_cell(c, Some(JsonView::Null), ignore) == append_cell(c, None, ignore),
        match c {
            ColumnView::Null(n) => append_cell(c, None, ignore) == Ok::<ColumnView, Seq<char>>(
                ColumnView::Null(n + 1),
            ),
            ColumnView::Bool(cs) => append_cell(c, None, ignore) == Ok::<ColumnView, Seq<char>>(
                ColumnView::Bool(cs.push(None)),
            ),
            ColumnView::Int64(cs) => append_cell(c, None, ignore) == Ok::<ColumnView, Seq<char>>(
                ColumnView::Int64(cs.push(None)),
            ),
            ColumnView::Float64(cs) => append_cell(c, None, ignore) == Ok::<ColumnView, Seq<char>>(
                ColumnView::Float64(cs.push(None)),
            ),
            ColumnView::Utf8(cs) => append_cell(c, None, ignore) == Ok::<ColumnView, Seq<char>>(
                ColumnView::Utf8(cs.push(None)),
            ),
        },
{
}

/// Law: what one value becomes in each kind of column.  A boolean column
/// keeps booleans and, for any other value, appends a null in lenient mode
/// and refuses it (with its rendering) in strict mode; an integer column keeps
/// `i64` numbers and strings that read as `i64`, other numbers as their text;
/// a float column keeps the text of numbers and strings; a text column keeps
/// strings as they are and other values as their JSON text.  Every accepted
/// value adds exactly one cell.
pub proof fn lemma_cells(cs_b: Seq<Option<bool>>, cs_i: Seq<Option<IntCellView>>, cs_t: Seq<Option<Seq<char>>>, v: JsonView, ignore: bool)
    ensures
        v matches JsonView::Bool(b) ==> append_cell(ColumnView::Bool(cs_b), Some(v), ignore) == Ok::<ColumnView, Seq<char>>(ColumnView::Bool(cs_b.push(Some(b)))),
        !(v is Bool) && !(v is Null) && ignore ==> append_cell(ColumnView::Bool(cs_b), Some(v), ignore) == Ok::<ColumnView, Seq<char>>(ColumnView::Bool(cs_b.push(None))),
        !(v is Bool) && !(v is Null) && !ignore ==> append_cell(ColumnView::Bool(cs_b), Some(v), ignore) == Err::<ColumnView, Seq<char>>(debug_text(v)),
        v matches JsonView::Number { integer: Some(i), .. } ==> append_cell(ColumnView::Int64(cs_i), Some(v), ignore) == Ok::<ColumnView, Seq<char>>(ColumnView::Int64(cs_i.push(Some(IntCellView::Exact(i))))),
        v matches JsonView::Number { text, integer: None } ==> append_cell(ColumnView::Int64(cs_i), Some(v), ignore) == Ok::<ColumnView, Seq<char>>(ColumnView::Int64(cs_i.push(Some(IntCellView::FromFloat(text))))),
        v matches JsonView::String(s) ==> append_cell(ColumnView::Int64(cs_i), Some(v), ignore) == Ok::<ColumnView, Seq<char>>(ColumnView::Int64(cs_i.push(
            match parse_i64_spec(encode_utf8(s)) { Some(i) => Some(IntCellView::Exact(i)), None => None },
        ))),
        v matches JsonView::Number { text, .. } ==> append_cell(ColumnView::Float64(cs_t), Some(v), ignore) == Ok::<ColumnView, Seq<char>>(ColumnView::Float64(cs_t.push(Some(text)))),
        v matches JsonView::String(s) ==> append_cell(ColumnView::Float64(cs_t), Some(v), ignore) == Ok::<ColumnView, Seq<char>>(ColumnView::Float64(cs_t.push(Some(s)))),
        v matches JsonView::String(s) ==> append_cell(ColumnView::Utf8(cs_t), Some(v), ignore) == Ok::<ColumnView, Seq<char>>(ColumnView::Utf8(cs_t.push(Some(s)))),
        v matches JsonView::Bool(b) ==> append_cell(ColumnView::Utf8(cs_t), Some(v), ignore) == Ok::<ColumnView, Seq<char>>(ColumnView::Utf8(cs_t.push(Some(if b { "true"@ } else { "false"@ })))),
        v matches JsonView::Number { text, .. } ==> append_cell(ColumnView::Utf8(cs_t), Some(v), ignore) == Ok::<ColumnView, Seq<char>>(ColumnView::Utf8(cs_t.push(Some(text)))),
        v matches JsonView::Array { compact, .. } ==> append_cell(ColumnView::Utf8(cs_t), Some(v), ignore) == Ok::<ColumnView, Seq<char>>(ColumnView::Utf8(cs_t.push(Some(compact)))),
        v matches JsonView::Object { compact, .. } ==> append_cell(ColumnView::Utf8(cs_t), Some(v), ignore) == Ok::<ColumnView, Seq<char>>(ColumnView::Utf8(cs_t.push(Some(compact)))),
{
}

} // verus!
