//! JSON tables that are read row by row from the head of an input.
//!
//! What has arrived of the input is handed in as a growing list of bytes, and
//! `ended` says that nothing more will come. Reading answers `None` where more of
//! the input is needed.

use vstd::prelude::*;
use vstd::slice::*;

use crate::adapter::OpenedTable;
use crate::delimited_table;
use crate::json_lazy::{self, define};
use crate::json_rows::{
    self, EntryModel, FlatCell, FlatModel, FlatRow, FlatRowModel, OBJECT_DETECTION_MAX_BYTES,
    OBJECT_DETECTION_MAX_ENTRIES, ObjectEntry, PathModel, flatten_document, flatten_keyed_entry,
    flatten_row,
};
use crate::json_scan::{self, JsonError, JsonErrorModel, skip_whitespace};
use crate::json_schema::{self, JsonSchema, SchemaModel, SchemaStep, find_path};
use crate::json_select::{self, detect_keyed_object, flatten_object_record, project_object_entries};
use crate::json_value::{self, Json, JsonValue, parse_next_json, pass_json};
use crate::options::{
    self, InputFormat, JsonPointer, ObjectMode, ObjectModeResolution, OpenOptions,
    ResolvedObjectMode, SchemaScan, SelectedValueShape, SourceOptionErrorModel,
    resolve_selected_shape,
};
use crate::table::{
    self, CellModel, CellValue, DeltaModel, Row, RowCount, RowId, SchemaDelta, SourceGeneration,
};
use crate::text::{self, contains_text, parse_usize, same};

verus! {

// ---------------------------------------------------------------------------
// Taking parts of the input
// ---------------------------------------------------------------------------

/// What was taken and the position behind it, or that more input is needed.
pub type Taken<T> = Result<Option<(T, usize)>, JsonError>;

/// The next byte that is no white space, with its position.
pub open spec fn peeked(bytes: Seq<u8>, at: int, ended: bool) -> Option<Option<(u8, int)>> {
    let n = json_scan::solid(bytes, at);
    if n < bytes.len() {
        Some(Some((bytes[n], n)))
    } else if ended {
        Some(None)
    } else {
        None
    }
}

/// One given byte, after white space.
pub open spec fn byte_taken(bytes: Seq<u8>, at: int, ended: bool, expected: u8) -> Result<
    Option<int>,
    JsonErrorModel,
> {
    match peeked(bytes, at, ended) {
        None => Ok(None),
        Some(Some((b, n))) if b == expected => Ok(Some(n + 1)),
        Some(_) => Err(JsonErrorModel::Expected(expected as char)),
    }
}

/// White space as JSON has it: no form feed.
pub open spec fn is_blank(b: u8) -> bool {
    b == 0x20 || b == 0x09 || b == 0x0a || b == 0x0d
}

/// The first position from `at` on that holds no JSON white space, or the end.
pub open spec fn behind_blanks(bytes: Seq<u8>, at: int) -> int
    decreases bytes.len() - at,
{
    if 0 <= at < bytes.len() && is_blank(bytes[at]) {
        behind_blanks(bytes, at + 1)
    } else {
        at
    }
}

/// The next string.
pub open spec fn key_taken(bytes: Seq<u8>, at: int, ended: bool) -> Result<
    Option<(Seq<char>, int)>,
    JsonErrorModel,
> {
    let start = behind_blanks(bytes, at);
    let (found, length) = json_value::json_next(bytes.skip(at));
    if start >= bytes.len() {
        if ended {
            Err(JsonErrorModel::ExpectedString)
        } else {
            Ok(None)
        }
    } else if bytes[start] != 0x22 {
        Err(JsonErrorModel::ExpectedKey)
    } else {
        match found {
            Some(Ok(Json::Text(key))) => Ok(Some((key, at + length))),
            Some(Err(fault)) => if !ended && fault.eof {
                Ok(None)
            } else {
                Err(JsonErrorModel::Json(fault))
            },
            _ => Err(JsonErrorModel::ExpectedKey),
        }
    }
}

/// Whether a value that begins with this byte shows its own end.
pub open spec fn shows_end(b: u8) -> bool {
    b == 0x22 || b == 0x5b || b == 0x7b
}

/// The next value. One that does not show its own end is complete only where
/// something follows it.
pub open spec fn value_taken(bytes: Seq<u8>, at: int, ended: bool) -> Result<
    Option<(Json, int)>,
    JsonErrorModel,
> {
    let (found, length) = json_value::json_next(bytes.skip(at));
    let end = at + length;
    match found {
        Some(Ok(value)) => if !ended && end >= bytes.len() && !(json_scan::solid(bytes, at) < bytes.len()
            && shows_end(bytes[json_scan::solid(bytes, at)])) {
            Ok(None)
        } else {
            Ok(Some((value, end)))
        },
        Some(Err(fault)) => if !ended && fault.eof {
            Ok(None)
        } else {
            Err(JsonErrorModel::Json(fault))
        },
        None => if ended {
            Err(JsonErrorModel::ExpectedValue)
        } else {
            Ok(None)
        },
    }
}

/// Whether passing over a value fails, and not for want of input.
pub open spec fn passing_fails(bytes: Seq<u8>) -> bool {
    json_value::json_passed(bytes).0 matches Some(Err(fault)) && !fault.eof
}

/// The position behind the next value, whatever it is. A fault is certain while
/// more may come only if it would stand with one more digit: a number that breaks
/// off counts as wrong, and not as unfinished.
pub open spec fn value_passed(bytes: Seq<u8>, at: int, ended: bool) -> Result<
    Option<int>,
    JsonErrorModel,
> {
    let rest = bytes.skip(at);
    let (found, length) = json_value::json_passed(rest);
    let end = at + length;
    match found {
        Some(Ok(_)) => if !ended && end >= bytes.len() && !(json_scan::solid(bytes, at) < bytes.len()
            && shows_end(bytes[json_scan::solid(bytes, at)])) {
            Ok(None)
        } else {
            Ok(Some(end))
        },
        Some(Err(fault)) => if !ended && (fault.eof || !passing_fails(rest.push(0x30))) {
            Ok(None)
        } else {
            Err(JsonErrorModel::Json(fault))
        },
        None => if ended {
            Err(JsonErrorModel::ExpectedValue)
        } else {
            Ok(None)
        },
    }
}

/// The separator before a part, and the white space before the first.
pub open spec fn comma_taken(bytes: Seq<u8>, at: int, ended: bool, first: bool) -> Result<
    Option<int>,
    JsonErrorModel,
> {
    if first {
        Ok(Some(json_scan::solid(bytes, at)))
    } else {
        byte_taken(bytes, at, ended, 0x2c)
    }
}

/// The next entry of an object, or its end.
pub open spec fn entry_taken(
    bytes: Seq<u8>,
    at: int,
    ended: bool,
    first: bool,
    seen: Seq<Seq<char>>,
) -> Result<Option<(Option<EntryModel>, int)>, JsonErrorModel> {
    match peeked(bytes, at, ended) {
        None => Ok(None),
        Some(Some((0x7d, n))) => Ok(Some((None, n + 1))),
        Some(_) => match comma_taken(bytes, at, ended, first) {
            Err(e) => Err(e),
            Ok(None) => Ok(None),
            Ok(Some(start)) => match key_taken(bytes, start, ended) {
                Err(e) => Err(e),
                Ok(None) => Ok(None),
                Ok(Some((key, key_end))) => if seen.contains(key) {
                    Err(JsonErrorModel::DuplicateKey(key))
                } else {
                    match byte_taken(bytes, key_end, ended, 0x3a) {
                        Err(e) => Err(e),
                        Ok(None) => Ok(None),
                        Ok(Some(colon)) => match value_taken(bytes, colon, ended) {
                            Err(e) => Err(e),
                            Ok(None) => Ok(None),
                            Ok(Some((value, end))) => Ok(
                                Some(
                                    (
                                        Some(
                                            EntryModel {
                                                key,
                                                value,
                                                encoded_len: (end - json_scan::solid(bytes, start)) as u64,
                                            },
                                        ),
                                        end,
                                    ),
                                ),
                            ),
                        },
                    }
                },
            },
        },
    }
}

/// The next item of an array, or its end.
pub open spec fn item_taken(bytes: Seq<u8>, at: int, ended: bool, first: bool) -> Result<
    Option<(Option<Json>, int)>,
    JsonErrorModel,
> {
    match peeked(bytes, at, ended) {
        None => Ok(None),
        Some(Some((0x5d, n))) => Ok(Some((None, n + 1))),
        Some(_) => match comma_taken(bytes, at, ended, first) {
            Err(e) => Err(e),
            Ok(None) => Ok(None),
            Ok(Some(start)) => match value_taken(bytes, start, ended) {
                Err(e) => Err(e),
                Ok(None) => Ok(None),
                Ok(Some((value, end))) => Ok(Some((Some(value), end))),
            },
        },
    }
}

/// The next document of a stream, or its end.
pub open spec fn document_taken(bytes: Seq<u8>, at: int, ended: bool) -> Result<
    Option<(Option<Json>, int)>,
    JsonErrorModel,
> {
    match peeked(bytes, at, ended) {
        None => Ok(None),
        Some(None) => Ok(Some((None, at))),
        Some(Some((_, n))) => match value_taken(bytes, n, ended) {
            Err(e) => Err(e),
            Ok(None) => Ok(None),
            Ok(Some((value, end))) => Ok(Some((Some(value), end))),
        },
    }
}

fn peek(bytes: &[u8], at: usize, ended: bool) -> (r: Option<Option<(u8, usize)>>)
    requires
        at <= bytes@.len(),
    ensures
        match (r, peeked(bytes@, at as int, ended)) {
            (None, None) => true,
            (Some(None), Some(None)) => true,
            (Some(Some((b, n))), Some(Some((c, m)))) => b == c && n == m && at <= n < bytes@.len()
                && n < usize::MAX,
            _ => false,
        },
{
    match skip_whitespace(bytes, at) {
        Some(n) => {
            assert(n < bytes.len());
            Some(Some((bytes[n], n)))
        },
        None => if ended {
            Some(None)
        } else {
            None
        },
    }
}

fn take_byte(bytes: &[u8], at: usize, ended: bool, expected: u8) -> (r: Result<
    Option<usize>,
    JsonError,
>)
    requires
        at <= bytes@.len(),
    ensures
        match (r, byte_taken(bytes@, at as int, ended, expected)) {
            (Ok(Some(n)), Ok(Some(m))) => n == m && at < n <= bytes@.len(),
            (Ok(None), Ok(None)) => true,
            (Err(e), Err(m)) => e@ == m,
            _ => false,
        },
{
    match peek(bytes, at, ended) {
        None => Ok(None),
        Some(Some((b, n))) if b == expected => Ok(Some(n + 1)),
        Some(_) => Err(JsonError::Expected(expected as char)),
    }
}

fn skip_blanks(bytes: &[u8], at: usize) -> (r: usize)
    requires
        at <= bytes@.len(),
    ensures
        r == behind_blanks(bytes@, at as int),
        at <= r <= bytes@.len(),
{
    let mut i: usize = at;
    while i < bytes.len() && (bytes[i] == 0x20 || bytes[i] == 0x09 || bytes[i] == 0x0a || bytes[i]
        == 0x0d)
        invariant
            at <= i <= bytes@.len(),
            behind_blanks(bytes@, at as int) == behind_blanks(bytes@, i as int),
        decreases bytes@.len() - i,
    {
        i = i + 1;
    }
    i
}

fn take_key(bytes: &[u8], at: usize, ended: bool) -> (r: Taken<String>)
    requires
        at <= bytes@.len(),
    ensures
        match (r, key_taken(bytes@, at as int, ended)) {
            (Ok(Some((key, n))), Ok(Some((model, m)))) => key@ == model && n == m && at < n
                <= bytes@.len(),
            (Ok(None), Ok(None)) => true,
            (Err(e), Err(m)) => e@ == m,
            _ => false,
        },
{
    let start: usize = skip_blanks(bytes, at);
    if start >= bytes.len() {
        return if ended {
            Err(JsonError::ExpectedString)
        } else {
            Ok(None)
        };
    }
    if bytes[start] != 0x22 {
        return Err(JsonError::ExpectedKey);
    }
    assert(bytes@.subrange(at as int, bytes@.len() as int) =~= bytes@.skip(at as int));
    let (found, length) = parse_next_json(slice_subrange(bytes, at, bytes.len()));
    match found {
        Some(Ok(JsonValue::Text(key))) => Ok(Some((key, at + length))),
        Some(Err(fault)) => if !ended && fault.eof {
            Ok(None)
        } else {
            Err(JsonError::Json(fault))
        },
        _ => Err(JsonError::ExpectedKey),
    }
}

fn take_value(bytes: &[u8], at: usize, ended: bool) -> (r: Taken<JsonValue>)
    requires
        at <= bytes@.len(),
    ensures
        match (r, value_taken(bytes@, at as int, ended)) {
            (Ok(Some((value, n))), Ok(Some((model, m)))) => value@ == model && n == m && at < n
                <= bytes@.len(),
            (Ok(None), Ok(None)) => true,
            (Err(e), Err(m)) => e@ == m,
            _ => false,
        },
{
    assert(bytes@.subrange(at as int, bytes@.len() as int) =~= bytes@.skip(at as int));
    let (found, length) = parse_next_json(slice_subrange(bytes, at, bytes.len()));
    let end: usize = at + length;
    match found {
        Some(Ok(value)) => {
            let delimited = match skip_whitespace(bytes, at) {
                Some(n) => bytes[n] == 0x22 || bytes[n] == 0x5b || bytes[n] == 0x7b,
                None => false,
            };
            if !ended && end >= bytes.len() && !delimited {
                Ok(None)
            } else {
                Ok(Some((value, end)))
            }
        },
        Some(Err(fault)) => if !ended && fault.eof {
            Ok(None)
        } else {
            Err(JsonError::Json(fault))
        },
        None => if ended {
            Err(JsonError::ExpectedValue)
        } else {
            Ok(None)
        },
    }
}

fn with_digit(bytes: &[u8]) -> (r: Vec<u8>)
    ensures
        r@ == bytes@.push(0x30),
{
    let mut out: Vec<u8> = Vec::new();
    let mut i: usize = 0;
    assert(out@ =~= bytes@.take(0));
    while i < bytes.len()
        invariant
            i <= bytes@.len(),
            out@ == bytes@.take(i as int),
        decreases bytes@.len() - i,
    {
        out.push(bytes[i]);
        i = i + 1;
        assert(out@ =~= bytes@.take(i as int));
    }
    assert(bytes@.take(bytes@.len() as int) =~= bytes@);
    out.push(0x30);
    out
}

fn pass_value(bytes: &[u8], at: usize, ended: bool) -> (r: Result<Option<usize>, JsonError>)
    requires
        at <= bytes@.len(),
    ensures
        match (r, value_passed(bytes@, at as int, ended)) {
            (Ok(Some(n)), Ok(Some(m))) => n == m && at < n <= bytes@.len(),
            (Ok(None), Ok(None)) => true,
            (Err(e), Err(m)) => e@ == m,
            _ => false,
        },
{
    assert(bytes@.subrange(at as int, bytes@.len() as int) =~= bytes@.skip(at as int));
    let rest = slice_subrange(bytes, at, bytes.len());
    let (found, length) = pass_json(rest);
    let end: usize = at + length;
    match found {
        Some(Ok(_)) => {
            let delimited = match skip_whitespace(bytes, at) {
                Some(n) => bytes[n] == 0x22 || bytes[n] == 0x5b || bytes[n] == 0x7b,
                None => false,
            };
            if !ended && end >= bytes.len() && !delimited {
                Ok(None)
            } else {
                Ok(Some(end))
            }
        },
        Some(Err(fault)) => {
            let certain = ended || !fault.eof && match pass_json(with_digit(rest).as_slice()).0 {
                Some(Err(still)) => !still.eof,
                _ => false,
            };
            if certain {
                Err(JsonError::Json(fault))
            } else {
                Ok(None)
            }
        },
        None => if ended {
            Err(JsonError::ExpectedValue)
        } else {
            Ok(None)
        },
    }
}

fn take_comma(bytes: &[u8], at: usize, ended: bool, first: bool) -> (r: Result<
    Option<usize>,
    JsonError,
>)
    requires
        at <= bytes@.len(),
    ensures
        match (r, comma_taken(bytes@, at as int, ended, first)) {
            (Ok(Some(n)), Ok(Some(m))) => n == m && at <= n <= bytes@.len(),
            (Ok(None), Ok(None)) => true,
            (Err(e), Err(m)) => e@ == m,
            _ => false,
        },
{
    if first {
        Ok(
            Some(
                match skip_whitespace(bytes, at) {
                    Some(n) => n,
                    None => bytes.len(),
                },
            ),
        )
    } else {
        take_byte(bytes, at, ended, 0x2c)
    }
}

/// A key that a colon follows ends behind the quote that it begins with.
proof fn lemma_key_is_behind(bytes: Seq<u8>, at: int, end: int)
    requires
        0 <= at <= end <= bytes.len(),
        behind_blanks(bytes, at) < bytes.len(),
        bytes[behind_blanks(bytes, at)] == 0x22,
        json_scan::solid(bytes, end) < bytes.len(),
        bytes[json_scan::solid(bytes, end)] == 0x3a,
    ensures
        json_scan::solid(bytes, at) <= end,
    decreases bytes.len() - at,
{
    if is_blank(bytes[at]) {
        if end > at {
            lemma_key_is_behind(bytes, at + 1, end);
        } else {
            lemma_blanks_are_space(bytes, at);
        }
    }
}

proof fn lemma_blanks_are_space(bytes: Seq<u8>, at: int)
    requires
        0 <= at <= bytes.len(),
        behind_blanks(bytes, at) < bytes.len(),
        !json_scan::is_space(bytes[behind_blanks(bytes, at)]),
    ensures
        json_scan::solid(bytes, at) == behind_blanks(bytes, at),
    decreases bytes.len() - at,
{
    if at < bytes.len() && is_blank(bytes[at]) {
        lemma_blanks_are_space(bytes, at + 1);
    }
}

fn take_entry(
    bytes: &[u8],
    at: usize,
    ended: bool,
    first: bool,
    seen: &Vec<String>,
) -> (r: Taken<Option<ObjectEntry>>)
    requires
        at <= bytes@.len(),
    ensures
        match (r, entry_taken(bytes@, at as int, ended, first, text::views(seen@))) {
            (Ok(Some((Some(entry), n))), Ok(Some((Some(model), m)))) => entry@ == model && n == m
                && at < n <= bytes@.len(),
            (Ok(Some((None, n))), Ok(Some((None, m)))) => n == m && at < n <= bytes@.len(),
            (Ok(None), Ok(None)) => true,
            (Err(e), Err(m)) => e@ == m,
            _ => false,
        },
{
    match peek(bytes, at, ended) {
        None => {
            return Ok(None);
        },
        Some(Some((0x7d, n))) => {
            return Ok(Some((None, n + 1)));
        },
        Some(_) => {},
    }
    let start: usize = match take_comma(bytes, at, ended, first) {
        Err(e) => {
            return Err(e);
        },
        Ok(None) => {
            return Ok(None);
        },
        Ok(Some(n)) => n,
    };
    let (key, key_end) = match take_key(bytes, start, ended) {
        Err(e) => {
            return Err(e);
        },
        Ok(None) => {
            return Ok(None);
        },
        Ok(Some(found)) => found,
    };
    if contains_text(seen, &key) {
        return Err(JsonError::DuplicateKey(key));
    }
    let colon: usize = match take_byte(bytes, key_end, ended, 0x3a) {
        Err(e) => {
            return Err(e);
        },
        Ok(None) => {
            return Ok(None);
        },
        Ok(Some(n)) => n,
    };
    match take_value(bytes, colon, ended) {
        Err(e) => Err(e),
        Ok(None) => Ok(None),
        Ok(Some((value, end))) => {
            proof {
                json_scan::lemma_solid(bytes@, start as int);
                lemma_key_is_behind(bytes@, start as int, key_end as int);
            }
            let begin: usize = match skip_whitespace(bytes, start) {
                Some(n) => n,
                None => start,
            };
            assert(begin == json_scan::solid(bytes@, start as int));
            let encoded_len: u64 = (end - begin) as u64;
            Ok(Some((Some(ObjectEntry { key, value, encoded_len }), end)))
        },
    }
}

fn take_item(bytes: &[u8], at: usize, ended: bool, first: bool) -> (r: Taken<Option<JsonValue>>)
    requires
        at <= bytes@.len(),
    ensures
        match (r, item_taken(bytes@, at as int, ended, first)) {
            (Ok(Some((Some(value), n))), Ok(Some((Some(model), m)))) => value@ == model && n == m
                && at < n <= bytes@.len(),
            (Ok(Some((None, n))), Ok(Some((None, m)))) => n == m && at < n <= bytes@.len(),
            (Ok(None), Ok(None)) => true,
            (Err(e), Err(m)) => e@ == m,
            _ => false,
        },
{
    match peek(bytes, at, ended) {
        None => {
            return Ok(None);
        },
        Some(Some((0x5d, n))) => {
            return Ok(Some((None, n + 1)));
        },
        Some(_) => {},
    }
    let start: usize = match take_comma(bytes, at, ended, first) {
        Err(e) => {
            return Err(e);
        },
        Ok(None) => {
            return Ok(None);
        },
        Ok(Some(n)) => n,
    };
    match take_value(bytes, start, ended) {
        Err(e) => Err(e),
        Ok(None) => Ok(None),
        Ok(Some((value, end))) => Ok(Some((Some(value), end))),
    }
}

fn take_document(bytes: &[u8], at: usize, ended: bool) -> (r: Taken<Option<JsonValue>>)
    requires
        at <= bytes@.len(),
    ensures
        match (r, document_taken(bytes@, at as int, ended)) {
            (Ok(Some((Some(value), n))), Ok(Some((Some(model), m)))) => value@ == model && n == m
                && at < n <= bytes@.len(),
            (Ok(Some((None, n))), Ok(Some((None, m)))) => n == m && n == at,
            (Ok(None), Ok(None)) => true,
            (Err(e), Err(m)) => e@ == m,
            _ => false,
        },
{
    match peek(bytes, at, ended) {
        None => Ok(None),
        Some(None) => Ok(Some((None, at))),
        Some(Some((_, n))) => match take_value(bytes, n, ended) {
            Err(e) => Err(e),
            Ok(None) => Ok(None),
            Ok(Some((value, end))) => Ok(Some((Some(value), end))),
        },
    }
}

// ---------------------------------------------------------------------------
// Reading row by row
// ---------------------------------------------------------------------------

/// What the rows of a preview are: the items of an array, the entries of an
/// object, the documents of a stream, or one record.
#[derive(Debug, Clone, Copy, PartialEq, Eq, Structural)]
pub enum Shape {
    Array,
    Entries,
    Documents,
    Record,
}

/// A table that is read row by row.
#[derive(Debug, PartialEq)]
pub struct SequentialJson {
    pub shape: Shape,
    pub live_input: bool,
    pub first: bool,
    pub pending: Vec<FlatRow>,
    pub taken_pending: usize,
    pub seen: Vec<String>,
    pub schema: JsonSchema,
    pub rows: Vec<Vec<CellValue>>,
    pub present: Vec<Vec<usize>>,
    pub pointer: Option<JsonPointer>,
    pub eof: bool,
    pub at: usize,
}

/// The model of a table that is read row by row.
pub struct SequentialModel {
    pub shape: Shape,
    pub first: bool,
    pub pending: Seq<FlatRowModel>,
    pub seen: Seq<Seq<char>>,
    pub schema: SchemaModel,
    pub rows: Seq<Seq<CellModel>>,
    pub present: Seq<Seq<usize>>,
    pub path: PathModel,
    pub eof: bool,
    pub at: int,
}

/// The places of columns for each row.
pub open spec fn place_lists(v: Seq<Vec<usize>>) -> Seq<Seq<usize>> {
    Seq::new(v.len(), |i: int| v[i]@)
}

impl View for SequentialJson {
    type V = SequentialModel;

    open spec fn view(&self) -> SequentialModel {
        SequentialModel {
            shape: self.shape,
            first: self.first,
            pending: json_rows::flat_row_views(self.pending@).skip(self.taken_pending as int),
            seen: text::views(self.seen@),
            schema: self.schema@,
            rows: delimited_table::cell_rows(self.rows@),
            present: place_lists(self.present@),
            path: json_rows::path_model(self.pointer),
            eof: self.eof,
            at: self.at as int,
        }
    }
}

/// The cells of a row in their columns, the first `n` of them; a later cell
/// replaces an earlier one of the same path.
pub open spec fn placed(cells: Seq<FlatModel>, n: int, paths: Seq<Seq<char>>) -> Seq<CellModel>
    decreases n,
{
    if n <= 0 || n > cells.len() {
        Seq::new(paths.len(), |i: int| CellModel::Null)
    } else {
        placed(cells, n - 1, paths).update(
            json_schema::path_place(paths, cells[n - 1].path, 0),
            cells[n - 1].value,
        )
    }
}

/// The columns in which a row has cells.
pub open spec fn places(cells: Seq<FlatModel>, paths: Seq<Seq<char>>) -> Seq<usize> {
    Seq::new(cells.len(), |i: int| json_schema::path_place(paths, cells[i].path, 0) as usize)
}

/// The table with one more row.
pub open spec fn row_added(table: SequentialModel, delta: DeltaModel, row: FlatRowModel) -> (
    SequentialModel,
    DeltaModel,
) {
    let step = json_schema::row_observed(SchemaStep { schema: table.schema, delta }, row);
    (
        SequentialModel {
            schema: step.schema,
            rows: table.rows.push(
                placed(row.cells, row.cells.len() as int, step.schema.paths),
            ),
            present: table.present.push(places(row.cells, step.schema.paths)),
            ..table
        },
        step.delta,
    )
}

/// What taking the next row comes to.
pub enum RowStep {
    More,
    Fail(JsonErrorModel),
    End(SequentialModel),
    Row(SequentialModel, FlatRowModel),
}

/// Takes the next row: one that is waiting, or one from the input.
pub open spec fn next_flat(table: SequentialModel, bytes: Seq<u8>, ended: bool) -> RowStep {
    if table.pending.len() > 0 {
        RowStep::Row(
            SequentialModel { pending: table.pending.skip(1), ..table },
            table.pending[0],
        )
    } else if table.eof {
        RowStep::End(table)
    } else {
        match table.shape {
            Shape::Record => RowStep::End(SequentialModel { eof: true, ..table }),
            Shape::Entries => match entry_taken(
                bytes,
                table.at,
                ended,
                table.first,
                table.seen,
            ) {
                Err(e) => RowStep::Fail(e),
                Ok(None) => RowStep::More,
                Ok(Some((None, next))) => RowStep::End(
                    SequentialModel { eof: true, at: next, ..table },
                ),
                Ok(Some((Some(entry), next))) => RowStep::Row(
                    SequentialModel {
                        first: false,
                        seen: table.seen.push(entry.key),
                        at: next,
                        ..table
                    },
                    json_rows::keyed_row(entry.key, entry.value, entry.encoded_len),
                ),
            },
            Shape::Array => match item_taken(bytes, table.at, ended, table.first) {
                Err(e) => RowStep::Fail(e),
                Ok(None) => RowStep::More,
                Ok(Some((None, next))) => RowStep::End(
                    SequentialModel { eof: true, at: next, ..table },
                ),
                Ok(Some((Some(value), next))) => RowStep::Row(
                    SequentialModel { first: false, at: next, ..table },
                    json_rows::flat_row(value),
                ),
            },
            Shape::Documents => match document_taken(bytes, table.at, ended) {
                Err(e) => RowStep::Fail(e),
                Ok(None) => RowStep::More,
                Ok(Some((None, next))) => RowStep::End(
                    SequentialModel { eof: true, at: next, ..table },
                ),
                Ok(Some((Some(document), next))) => match json_rows::document_row(document, table.path) {
                    Err(e) => RowStep::Fail(e),
                    Ok(row) => RowStep::Row(SequentialModel { at: next, ..table }, row),
                },
            },
        }
    }
}

impl SequentialJson {
    /// What is kept for each row goes together, and what was read is behind `at`.
    pub open spec fn well_formed(self) -> bool {
        &&& self.schema@.well_formed()
        &&& self.taken_pending <= self.pending@.len()
        &&& self.present@.len() == self.rows@.len()
    }

    /// Takes the next row, if the input has one; `None` asks for more input.
    pub fn next_flat(&mut self, bytes: &[u8], ended: bool) -> (r: Result<
        Option<Option<FlatRow>>,
        JsonError,
    >)
        requires
            old(self).well_formed(),
            old(self).at <= bytes@.len(),
        ensures
            final(self).well_formed(),
            final(self).at <= bytes@.len(),
            final(self).live_input == old(self).live_input,
            final(self).schema == old(self).schema,
            final(self).rows == old(self).rows,
            final(self).present == old(self).present,
            match (r, next_flat(old(self)@, bytes@, ended)) {
                (Err(e), RowStep::Fail(m)) => e@ == m && final(self)@ == old(self)@,
                (Ok(None), RowStep::More) => final(self)@ == old(self)@,
                (Ok(Some(None)), RowStep::End(table)) => final(self)@ == table,
                (Ok(Some(Some(row))), RowStep::Row(table, m)) => {
                    &&& row@ == m
                    &&& final(self)@ == table
                    &&& (final(self).at > old(self).at || final(self).pending@.len()
                        - final(self).taken_pending < old(self).pending@.len()
                        - old(self).taken_pending)
                    &&& final(self).pending@.len() == old(self).pending@.len()
                    &&& final(self).at >= old(self).at
                    &&& final(self).taken_pending >= old(self).taken_pending
                },
                _ => false,
            },
    {
        let ghost all = json_rows::flat_row_views(self.pending@);
        if self.taken_pending < self.pending.len() {
            let row = self.pending[self.taken_pending].clone();
            let ghost waiting = all.skip(self.taken_pending as int);
            self.taken_pending = self.taken_pending + 1;
            assert(waiting.skip(1) =~= all.skip(self.taken_pending as int));
            assert(waiting[0] == row@);
            return Ok(Some(Some(row)));
        }
        assert(self@.pending.len() == 0);
        if self.eof {
            return Ok(Some(None));
        }
        match self.shape {
            Shape::Record => {
                self.eof = true;
                Ok(Some(None))
            },
            Shape::Entries => {
                match take_entry(bytes, self.at, ended, self.first, &self.seen) {
                    Err(e) => Err(e),
                    Ok(None) => Ok(None),
                    Ok(Some((None, next))) => {
                        self.eof = true;
                        self.at = next;
                        Ok(Some(None))
                    },
                    Ok(Some((Some(entry), next))) => {
                        let row = flatten_keyed_entry(&entry.key, &entry.value, entry.encoded_len);
                        self.first = false;
                        proof {
                            text::lemma_views_push(self.seen@, entry.key);
                        }
                        self.seen.push(entry.key);
                        self.at = next;
                        Ok(Some(Some(row)))
                    },
                }
            },
            Shape::Array => {
                match take_item(bytes, self.at, ended, self.first) {
                    Err(e) => Err(e),
                    Ok(None) => Ok(None),
                    Ok(Some((None, next))) => {
                        self.eof = true;
                        self.at = next;
                        Ok(Some(None))
                    },
                    Ok(Some((Some(value), next))) => {
                        self.first = false;
                        self.at = next;
                        Ok(Some(Some(flatten_row(&value))))
                    },
                }
            },
            Shape::Documents => {
                match take_document(bytes, self.at, ended) {
                    Err(e) => Err(e),
                    Ok(None) => Ok(None),
                    Ok(Some((None, next))) => {
                        self.eof = true;
                        self.at = next;
                        Ok(Some(None))
                    },
                    Ok(Some((Some(document), next))) => match flatten_document(
                        &document,
                        &self.pointer,
                    ) {
                        Err(e) => Err(e),
                        Ok(row) => {
                            self.at = next;
                            Ok(Some(Some(row)))
                        },
                    },
                }
            },
        }
    }

    fn place_cells(&self, cells: &Vec<FlatCell>) -> (r: (Vec<CellValue>, Vec<usize>))
        requires
            self.schema@.well_formed(),
            forall|i: int|
                0 <= i < cells@.len() ==> json_schema::path_place(
                    self.schema@.paths,
                    (#[trigger] cells@[i]).path@,
                    0,
                ) < self.schema@.paths.len(),
        ensures
            table::cell_views(r.0@) == placed(
                json_rows::flat_views(cells@),
                cells@.len() as int,
                self.schema@.paths,
            ),
            r.1@ == places(json_rows::flat_views(cells@), self.schema@.paths),
    {
        let ghost all = json_rows::flat_views(cells@);
        let ghost paths = self.schema@.paths;
        let mut row: Vec<CellValue> = Vec::new();
        while row.len() < self.schema.paths.len()
            invariant
                row@.len() <= self.schema.paths@.len(),
                forall|k: int| 0 <= k < row@.len() ==> (#[trigger] row@[k])@ == CellModel::Null,
            decreases self.schema.paths@.len() - row@.len(),
        {
            row.push(CellValue::Null);
        }
        assert(table::cell_views(row@) =~= placed(all, 0, paths));
        let mut present: Vec<usize> = Vec::new();
        let mut i: usize = 0;
        while i < cells.len()
            invariant
                i <= cells@.len(),
                all == json_rows::flat_views(cells@),
                paths == text::views(self.schema.paths@),
                row@.len() == paths.len(),
                forall|k: int|
                    0 <= k < cells@.len() ==> json_schema::path_place(
                        paths,
                        (#[trigger] cells@[k]).path@,
                        0,
                    ) < paths.len(),
                table::cell_views(row@) == placed(all, i as int, paths),
                present@.len() == i,
                forall|k: int|
                    0 <= k < i ==> #[trigger] present@[k] == json_schema::path_place(paths, all[k].path, 0),
            decreases cells@.len() - i,
        {
            let at: usize = find_path(&self.schema.paths, &cells[i].path);
            assert(all[i as int] == cells@[i as int]@);
            let ghost before = table::cell_views(row@);
            let cell = cells[i].value.clone();
            assert(table::cell_views(row@.update(at as int, cell)) =~= before.update(
                at as int,
                cell@,
            ));
            row.set(at, cell);
            present.push(at);
            i = i + 1;
        }
        assert(present@ =~= places(all, paths));
        (row, present)
    }

    fn add_row(&mut self, row: &FlatRow, delta: &mut SchemaDelta)
        requires
            old(self).well_formed(),
        ensures
            final(self).well_formed(),
            (final(self)@, final(delta)@) == row_added(old(self)@, old(delta)@, row@),
            final(self).live_input == old(self).live_input,
            final(self).pending == old(self).pending,
            final(self).taken_pending == old(self).taken_pending,
            final(self).at == old(self).at,
            final(self).rows@.len() == old(self).rows@.len() + 1,
    {
        let ghost begin = SchemaStep { schema: self.schema@, delta: delta@ };
        self.schema.observe_into(row, delta);
        proof {
            json_schema::lemma_cells_held(begin, row@.cells, row@.cells.len() as int);
            assert forall|i: int| 0 <= i < row.cells@.len() implies json_schema::path_place(
                self.schema@.paths,
                (#[trigger] row.cells@[i]).path@,
                0,
            ) < self.schema@.paths.len() by {
                assert(row@.cells[i] == row.cells@[i]@);
            }
        }
        let (cells, present) = self.place_cells(&row.cells);
        let ghost rows = delimited_table::cell_rows(self.rows@);
        let ghost lists = place_lists(self.present@);
        assert(delimited_table::cell_rows(self.rows@.push(cells)) =~= rows.push(table::cell_views(cells@)));
        assert(place_lists(self.present@.push(present)) =~= lists.push(present@));
        self.rows.push(cells);
        self.present.push(present);
    }

    /// The number of rows, as far as it is known.
    pub fn row_count(&self) -> (r: RowCount)
        ensures
            r == self.known_count(),
    {
        if self.eof && self.taken_pending >= self.pending.len() {
            RowCount::Exact(self.rows.len())
        } else {
            RowCount::AtLeast(self.rows.len())
        }
    }

    /// The number of rows, as far as it is known.
    pub open spec fn known_count(self) -> RowCount {
        if self.eof && self.taken_pending >= self.pending@.len() {
            RowCount::Exact(self.rows@.len() as usize)
        } else {
            RowCount::AtLeast(self.rows@.len() as usize)
        }
    }
}

/// How reading on came out: the wanted row is there or the input has ended, more
/// input is needed, or something was refused.
pub enum Reading {
    Done,
    More,
    Fail(JsonErrorModel),
}

/// What reading up to a row comes to.
pub struct ReadModel {
    pub table: SequentialModel,
    pub delta: DeltaModel,
    pub scanned: u64,
    pub reading: Reading,
}

/// Whether a step went on: a waiting row was taken, or something was read.
pub open spec fn went_on(before: SequentialModel, after: SequentialModel, len: int) -> bool {
    ||| before.at < after.at <= len && after.pending.len() <= before.pending.len()
    ||| before.at == after.at && after.pending.len() < before.pending.len()
}

/// Takes rows until the one at `index` is there.
pub open spec fn read_through(
    table: SequentialModel,
    delta: DeltaModel,
    scanned: u64,
    bytes: Seq<u8>,
    ended: bool,
    index: usize,
) -> ReadModel
    decreases bytes.len() - table.at, table.pending.len(),
{
    if table.rows.len() > index {
        ReadModel { table, delta, scanned, reading: Reading::Done }
    } else {
        match next_flat(table, bytes, ended) {
            RowStep::More => ReadModel { table, delta, scanned, reading: Reading::More },
            RowStep::Fail(e) => ReadModel { table, delta, scanned, reading: Reading::Fail(e) },
            RowStep::End(after) => ReadModel {
                table: after,
                delta,
                scanned,
                reading: Reading::Done,
            },
            RowStep::Row(after, row) => {
                let (grown, learnt) = row_added(after, delta, row);
                let size = scanned.saturating_add(row.source_bytes);
                if went_on(table, grown, bytes.len() as int) {
                    read_through(grown, learnt, size, bytes, ended, index)
                } else {
                    ReadModel { table: grown, delta: learnt, scanned: size, reading: Reading::Done }
                }
            },
        }
    }
}

/// How far a table was read: all that was wanted, or all that has arrived.
#[derive(Debug, Clone, Copy, PartialEq, Eq, Structural)]
pub enum Progress {
    Done { scanned: u64 },
    More { scanned: u64 },
}

impl SequentialJson {
    /// Reads until the row at `index` is there. What is learnt of the columns is
    /// appended to `delta`, and `scanned` counts on.
    pub fn read_through(
        &mut self,
        bytes: &[u8],
        ended: bool,
        index: usize,
        delta: &mut SchemaDelta,
        scanned: u64,
    ) -> (r: Result<Progress, JsonError>)
        requires
            old(self).well_formed(),
            old(self).at <= bytes@.len(),
        ensures
            final(self).well_formed(),
            final(self).at <= bytes@.len(),
            final(self).live_input == old(self).live_input,
            ({
                let read = read_through(
                    old(self)@,
                    old(delta)@,
                    scanned,
                    bytes@,
                    ended,
                    index,
                );
                &&& final(self)@ == read.table
                &&& match (r, read.reading) {
                    (Err(e), Reading::Fail(m)) => e@ == m && final(delta)@ == read.delta,
                    (Ok(Progress::More { scanned: n }), Reading::More) => n == read.scanned
                        && final(delta)@ == read.delta,
                    (Ok(Progress::Done { scanned: n }), Reading::Done) => n == read.scanned
                        && final(delta)@ == (DeltaModel {
                        completed: final(self)@.eof && final(self)@.pending.len() == 0,
                        ..read.delta
                    }),
                    _ => false,
                }
            }),
    {
        let ghost begin = (self@, delta@);
        let mut size: u64 = scanned;
        while self.rows.len() <= index
            invariant
                self.well_formed(),
                self.at <= bytes@.len(),
                self.live_input == old(self).live_input,
                begin == (old(self)@, old(delta)@),
                read_through(begin.0, begin.1, scanned, bytes@, ended, index) == read_through(
                    self@,
                    delta@,
                    size,
                    bytes@,
                    ended,
                    index,
                ),
            decreases bytes@.len() - self.at, self.pending@.len() - self.taken_pending,
        {
            let ghost prior = self@;
            match self.next_flat(bytes, ended) {
                Err(e) => {
                    return Err(e);
                },
                Ok(None) => {
                    return Ok(Progress::More { scanned: size });
                },
                Ok(Some(None)) => {
                    delta.completed = self.eof && self.taken_pending >= self.pending.len();
                    return Ok(Progress::Done { scanned: size });
                },
                Ok(Some(Some(row))) => {
                    self.add_row(&row, delta);
                    size = size.saturating_add(row.source_bytes);
                    assert(went_on(prior, self@, bytes@.len() as int));
                },
            }
        }
        delta.completed = self.eof && self.taken_pending >= self.pending.len();
        Ok(Progress::Done { scanned: size })
    }

    /// The row at some place, as wide as the columns known by now.
    pub fn row(&self, index: usize) -> (r: Option<Row>)
        requires
            self.well_formed(),
        ensures
            r is Some <==> index < self.rows@.len(),
            r matches Some(row) ==> {
                &&& row.id == (RowId { generation: self.schema.generation, ordinal: index as u64 })
                &&& table::cell_views(row.cells@) == widened(
                    self@.rows[index as int],
                    self@.schema.columns.len(),
                )
            },
    {
        if index >= self.rows.len() {
            return None;
        }
        let known = &self.rows[index];
        let width: usize = self.schema.columns.len();
        let mut cells: Vec<CellValue> = Vec::new();
        while cells.len() < width
            invariant
                known == self.rows@[index as int],
                cells@.len() <= width,
                forall|k: int|
                    0 <= k < cells@.len() ==> (#[trigger] cells@[k])@ == if k < known@.len() {
                        known@[k]@
                    } else {
                        CellModel::Null
                    },
            decreases width - cells@.len(),
        {
            let at: usize = cells.len();
            if at < known.len() {
                cells.push(known[at].clone());
            } else {
                cells.push(CellValue::Null);
            }
        }
        assert(self@.rows[index as int] == table::cell_views(known@));
        assert(table::cell_views(cells@) =~= widened(self@.rows[index as int], width as nat));
        Some(
            Row {
                id: RowId { generation: self.schema.generation, ordinal: index as u64 },
                cells,
            },
        )
    }

    /// The columns in which the row at some place has cells.
    pub fn present_columns(&self, index: usize) -> (r: Option<Vec<usize>>)
        requires
            self.well_formed(),
        ensures
            r is Some <==> index < self.rows@.len(),
            r matches Some(places) ==> places@ == self@.present[index as int],
    {
        if index < self.present.len() {
            Some(self.present[index].clone())
        } else {
            None
        }
    }
}

/// A row with missing values up to a width, and cut off at it.
pub open spec fn widened(row: Seq<CellModel>, width: nat) -> Seq<CellModel> {
    Seq::new(
        width,
        |i: int|
            if i < row.len() {
                row[i]
            } else {
                CellModel::Null
            },
    )
}

// ---------------------------------------------------------------------------
// Opening
// ---------------------------------------------------------------------------

/// The entries that were read of an object.
pub struct EntriesModel {
    pub entries: Seq<EntryModel>,
    pub at: int,
    pub first: bool,
    pub eof: bool,
}

/// Whether another entry is read: no more than `most`, and not when the entries so
/// far take as much room as is looked at. Without a limit, all are read.
pub open spec fn reads_entry(entries: nat, size: u64, most: Option<usize>) -> bool {
    most matches Some(n) ==> entries < n && size < OBJECT_DETECTION_MAX_BYTES
}

/// Reads entries of an object.
pub open spec fn entries_read(
    read: EntriesModel,
    size: u64,
    bytes: Seq<u8>,
    ended: bool,
    most: Option<usize>,
) -> Result<Option<EntriesModel>, JsonErrorModel>
    decreases bytes.len() - read.at,
{
    if read.eof || !reads_entry(read.entries.len(), size, most) {
        Ok(Some(read))
    } else {
        match entry_taken(bytes, read.at, ended, read.first, json_select::entry_keys(read.entries)) {
            Err(e) => Err(e),
            Ok(None) => Ok(None),
            Ok(Some((None, next))) => Ok(Some(EntriesModel { at: next, eof: true, ..read })),
            Ok(Some((Some(entry), next))) => {
                let longer = EntriesModel {
                    entries: read.entries.push(entry),
                    at: next,
                    first: false,
                    eof: false,
                };
                if read.at < next <= bytes.len() {
                    entries_read(
                        longer,
                        size.saturating_add(entry.encoded_len),
                        bytes,
                        ended,
                        most,
                    )
                } else {
                    Ok(Some(longer))
                }
            },
        }
    }
}

struct EntriesRead {
    entries: Vec<ObjectEntry>,
    seen: Vec<String>,
    at: usize,
    first: bool,
    eof: bool,
}

impl EntriesRead {
    spec fn model(self) -> EntriesModel {
        EntriesModel {
            entries: json_rows::entry_views(self.entries@),
            at: self.at as int,
            first: self.first,
            eof: self.eof,
        }
    }

    spec fn well_formed(self) -> bool {
        text::views(self.seen@) == json_select::entry_keys(json_rows::entry_views(self.entries@))
    }
}

fn read_entries_on(
    start: EntriesRead,
    bytes: &[u8],
    ended: bool,
    most: Option<usize>,
) -> (r: Result<Option<EntriesRead>, JsonError>)
    requires
        start.well_formed(),
        start.at <= bytes@.len(),
    ensures
        match (r, entries_read(start.model(), 0, bytes@, ended, most)) {
            (Ok(Some(after)), Ok(Some(m))) => after.well_formed() && after.model() == m && after.at
                <= bytes@.len(),
            (Ok(None), Ok(None)) => true,
            (Err(e), Err(m)) => e@ == m,
            _ => false,
        },
{
    let ghost begin = start.model();
    let mut read = start;
    let mut size: u64 = 0;
    loop
        invariant
            begin == start.model(),
            read.well_formed(),
            read.at <= bytes@.len(),
            entries_read(begin, 0, bytes@, ended, most) == entries_read(
                read.model(),
                size,
                bytes@,
                ended,
                most,
            ),
        decreases bytes@.len() - read.at,
    {
        let wanted = match most {
            Some(n) => read.entries.len() < n && size < OBJECT_DETECTION_MAX_BYTES,
            None => true,
        };
        if read.eof || !wanted {
            return Ok(Some(read));
        }
        match take_entry(bytes, read.at, ended, read.first, &read.seen) {
            Err(e) => {
                return Err(e);
            },
            Ok(None) => {
                return Ok(None);
            },
            Ok(Some((None, next))) => {
                read.at = next;
                read.eof = true;
                return Ok(Some(read));
            },
            Ok(Some((Some(entry), next))) => {
                let ghost known = json_rows::entry_views(read.entries@);
                let key = entry.key.clone();
                proof {
                    text::lemma_views_push(read.seen@, key);
                    assert(json_rows::entry_views(read.entries@.push(entry)) =~= known.push(entry@));
                    assert(json_select::entry_keys(known.push(entry@)) =~= json_select::entry_keys(known).push(entry@.key));
                }
                size = size.saturating_add(entry.encoded_len);
                read.seen.push(key);
                read.entries.push(entry);
                read.at = next;
                read.first = false;
            },
        }
    }
}

/// How an object is taken in a preview: the entries that were read, and the mode.
pub open spec fn preview_object(
    bytes: Seq<u8>,
    at: int,
    ended: bool,
    mode: ObjectMode,
    most: usize,
) -> Result<Option<(EntriesModel, ResolvedObjectMode)>, JsonErrorModel> {
    let fresh = EntriesModel { entries: Seq::empty(), at, first: true, eof: false };
    let head = if mode is Auto {
        entries_read(fresh, 0, bytes, ended, Some(most))
    } else {
        Ok(Some(fresh))
    };
    match head {
        Err(e) => Err(e),
        Ok(None) => Ok(None),
        Ok(Some(read)) => {
            let resolved = options::object_mode_for(mode, mode is Auto && json_rows::entries_are_keyed(read.entries));
            if resolved is Record {
                match entries_read(read, 0, bytes, ended, None) {
                    Err(e) => Err(e),
                    Ok(None) => Ok(None),
                    Ok(Some(all)) => Ok(Some((all, resolved))),
                }
            } else {
                Ok(Some((read, resolved)))
            }
        },
    }
}

/// How many entries of an object are looked at in a preview: few, unless all
/// columns are wanted.
pub open spec fn preview_sample(preview: bool, scan: SchemaScan) -> usize {
    if preview && scan !is Full {
        3
    } else {
        OBJECT_DETECTION_MAX_ENTRIES
    }
}

/// The position behind a byte-order mark.
pub open spec fn after_mark(bytes: Seq<u8>) -> int {
    if bytes.len() >= 3 && bytes[0] == 0xef && bytes[1] == 0xbb && bytes[2] == 0xbf {
        3
    } else {
        0
    }
}

/// Where the value that a path selects begins, from `at` on. What stands before it
/// is read on the way, and a fault in that is a fault of the path.
pub open spec fn path_taken(bytes: Seq<u8>, at: int, ended: bool, keys: Seq<Seq<char>>) -> Result<
    Option<int>,
    JsonErrorModel,
>
    decreases keys.len(), 1int, 0int,
{
    if keys.len() == 0 {
        Ok(Some(at))
    } else {
        match peeked(bytes, at, ended) {
            None => Ok(None),
            Some(Some((0x7b, n))) => member_found(bytes, n + 1, ended, true, keys),
            Some(Some((0x5b, n))) => match text::unsigned_value(keys[0], usize::MAX as nat) {
                None => Err(JsonErrorModel::NotAnIndex),
                Some(target) => item_found(bytes, n + 1, ended, true, keys, target),
            },
            Some(_) => Err(JsonErrorModel::NotFound),
        }
    }
}

/// The value that a path selects among the members of an object, read from `at`.
pub open spec fn member_found(
    bytes: Seq<u8>,
    at: int,
    ended: bool,
    first: bool,
    keys: Seq<Seq<char>>,
) -> Result<Option<int>, JsonErrorModel>
    decreases keys.len(), 0int, bytes.len() - at,
    when keys.len() > 0
{
    match peeked(bytes, at, ended) {
        None => Ok(None),
        Some(Some((0x7d, _))) => Err(JsonErrorModel::NotFound),
        Some(_) => match comma_taken(bytes, at, ended, first) {
            Err(e) => Err(e),
            Ok(None) => Ok(None),
            Ok(Some(start)) => match key_taken(bytes, start, ended) {
                Err(e) => Err(e),
                Ok(None) => Ok(None),
                Ok(Some((key, key_end))) => match byte_taken(bytes, key_end, ended, 0x3a) {
                    Err(e) => Err(e),
                    Ok(None) => Ok(None),
                    Ok(Some(colon)) => if key == keys[0] {
                        path_taken(bytes, colon, ended, keys.drop_first())
                    } else {
                        match value_passed(bytes, colon, ended) {
                            Err(e) => Err(e),
                            Ok(None) => Ok(None),
                            Ok(Some(end)) => if at < end <= bytes.len() {
                                member_found(bytes, end, ended, false, keys)
                            } else {
                                Err(JsonErrorModel::NotFound)
                            },
                        }
                    },
                },
            },
        },
    }
}

/// The value that a path selects among the items of an array, read from `at`, where
/// `left` items come before the selected one.
pub open spec fn item_found(
    bytes: Seq<u8>,
    at: int,
    ended: bool,
    first: bool,
    keys: Seq<Seq<char>>,
    left: nat,
) -> Result<Option<int>, JsonErrorModel>
    decreases keys.len(), 0int, left,
    when keys.len() > 0
{
    match peeked(bytes, at, ended) {
        None => Ok(None),
        Some(Some((0x5d, _))) => Err(JsonErrorModel::NotFound),
        Some(_) => match comma_taken(bytes, at, ended, first) {
            Err(e) => Err(e),
            Ok(None) => Ok(None),
            Ok(Some(start)) => if left == 0 {
                path_taken(bytes, start, ended, keys.drop_first())
            } else {
                match value_passed(bytes, start, ended) {
                    Err(e) => Err(e),
                    Ok(None) => Ok(None),
                    Ok(Some(end)) => item_found(bytes, end, ended, false, keys, (left - 1) as nat),
                }
            },
        },
    }
}

fn find_member(
    bytes: &[u8],
    at: usize,
    ended: bool,
    keys: &Vec<String>,
    from: usize,
) -> (r: Result<Option<usize>, JsonError>)
    requires
        at <= bytes@.len(),
        from < keys@.len(),
    ensures
        match (r, member_found(bytes@, at as int, ended, true, text::views(keys@).skip(from as int))) {
            (Ok(Some(n)), Ok(Some(m))) => n == m && n <= bytes@.len(),
            (Ok(None), Ok(None)) => true,
            (Err(e), Err(m)) => e@ == m,
            _ => false,
        },
    decreases keys@.len() - from, 0int,
{
    let ghost path = text::views(keys@).skip(from as int);
    assert(path[0] == keys@[from as int]@);
    assert(path.drop_first() =~= text::views(keys@).skip(from + 1));
    let mut here: usize = at;
    let mut first = true;
    loop
        invariant
            here <= bytes@.len(),
            from < keys.len(),
            path == text::views(keys@).skip(from as int),
            path[0] == keys@[from as int]@,
            path.drop_first() == text::views(keys@).skip(from + 1),
            member_found(bytes@, at as int, ended, true, path) == member_found(
                bytes@,
                here as int,
                ended,
                first,
                path,
            ),
        decreases bytes@.len() - here,
    {
        match peek(bytes, here, ended) {
            None => {
                return Ok(None);
            },
            Some(Some((0x7d, _))) => {
                return Err(JsonError::NotFound);
            },
            Some(_) => {},
        }
        let start: usize = match take_comma(bytes, here, ended, first) {
            Err(e) => {
                return Err(e);
            },
            Ok(None) => {
                return Ok(None);
            },
            Ok(Some(n)) => n,
        };
        let (key, key_end) = match take_key(bytes, start, ended) {
            Err(e) => {
                return Err(e);
            },
            Ok(None) => {
                return Ok(None);
            },
            Ok(Some(found)) => found,
        };
        let colon: usize = match take_byte(bytes, key_end, ended, 0x3a) {
            Err(e) => {
                return Err(e);
            },
            Ok(None) => {
                return Ok(None);
            },
            Ok(Some(n)) => n,
        };
        if same(&key, &keys[from]) {
            return find_path_start(bytes, colon, ended, keys, from + 1);
        }
        match pass_value(bytes, colon, ended) {
            Err(e) => {
                return Err(e);
            },
            Ok(None) => {
                return Ok(None);
            },
            Ok(Some(end)) => {
                here = end;
                first = false;
            },
        }
    }
}

fn find_item(
    bytes: &[u8],
    at: usize,
    ended: bool,
    keys: &Vec<String>,
    from: usize,
    target: usize,
) -> (r: Result<Option<usize>, JsonError>)
    requires
        at <= bytes@.len(),
        from < keys@.len(),
    ensures
        match (
            r,
            item_found(
                bytes@,
                at as int,
                ended,
                true,
                text::views(keys@).skip(from as int),
                target as nat,
            ),
        ) {
            (Ok(Some(n)), Ok(Some(m))) => n == m && n <= bytes@.len(),
            (Ok(None), Ok(None)) => true,
            (Err(e), Err(m)) => e@ == m,
            _ => false,
        },
    decreases keys@.len() - from, 0int,
{
    let ghost path = text::views(keys@).skip(from as int);
    assert(path.drop_first() =~= text::views(keys@).skip(from + 1));
    let mut here: usize = at;
    let mut left: usize = target;
    let mut first = true;
    loop
        invariant
            here <= bytes@.len(),
            from < keys.len(),
            path == text::views(keys@).skip(from as int),
            path.drop_first() == text::views(keys@).skip(from + 1),
            item_found(bytes@, at as int, ended, true, path, target as nat) == item_found(
                bytes@,
                here as int,
                ended,
                first,
                path,
                left as nat,
            ),
        decreases left,
    {
        match peek(bytes, here, ended) {
            None => {
                return Ok(None);
            },
            Some(Some((0x5d, _))) => {
                return Err(JsonError::NotFound);
            },
            Some(_) => {},
        }
        let start: usize = match take_comma(bytes, here, ended, first) {
            Err(e) => {
                return Err(e);
            },
            Ok(None) => {
                return Ok(None);
            },
            Ok(Some(n)) => n,
        };
        if left == 0 {
            return find_path_start(bytes, start, ended, keys, from + 1);
        }
        match pass_value(bytes, start, ended) {
            Err(e) => {
                return Err(e);
            },
            Ok(None) => {
                return Ok(None);
            },
            Ok(Some(end)) => {
                here = end;
                left = left - 1;
                first = false;
            },
        }
    }
}

fn find_path_start(
    bytes: &[u8],
    at: usize,
    ended: bool,
    keys: &Vec<String>,
    from: usize,
) -> (r: Result<Option<usize>, JsonError>)
    requires
        at <= bytes@.len(),
        from <= keys@.len(),
    ensures
        match (r, path_taken(bytes@, at as int, ended, text::views(keys@).skip(from as int))) {
            (Ok(Some(n)), Ok(Some(m))) => n == m && n <= bytes@.len(),
            (Ok(None), Ok(None)) => true,
            (Err(e), Err(m)) => e@ == m,
            _ => false,
        },
    decreases keys@.len() - from, 1int,
{
    if from == keys.len() {
        return Ok(Some(at));
    }
    assert(text::views(keys@).skip(from as int)[0] == keys@[from as int]@);
    match peek(bytes, at, ended) {
        None => Ok(None),
        Some(Some((0x7b, n))) => find_member(bytes, n + 1, ended, keys, from),
        Some(Some((0x5b, n))) => match parse_usize(&keys[from]) {
            None => Err(JsonError::NotAnIndex),
            Some(target) => find_item(bytes, n + 1, ended, keys, from, target),
        },
        Some(_) => Err(JsonError::NotFound),
    }
}

/// Where the rows of a preview begin, and what they are.
pub open spec fn preview_start(
    bytes: Seq<u8>,
    ended: bool,
    format: InputFormat,
    keys: Seq<Seq<char>>,
) -> Result<Option<(Shape, int)>, JsonErrorModel> {
    if format is Ndjson {
        Ok(Some((Shape::Documents, after_mark(bytes))))
    } else {
        let path = if format is Json {
            keys
        } else {
            Seq::empty()
        };
        match path_taken(bytes, after_mark(bytes), ended, path) {
            Err(e) => Err(e),
            Ok(None) => Ok(None),
            Ok(Some(at)) => match peeked(bytes, at, ended) {
                None => Ok(None),
                Some(Some((0x5b, n))) => Ok(Some((Shape::Array, n + 1))),
                Some(Some((0x7b, n))) => Ok(Some((Shape::Entries, n + 1))),
                Some(_) => Err(JsonErrorModel::NotTabular(None)),
            },
        }
    }
}

fn find_preview_start(
    bytes: &[u8],
    ended: bool,
    format: InputFormat,
    pointer: &Option<JsonPointer>,
) -> (r: Taken<Shape>)
    ensures
        match (r, preview_start(bytes@, ended, format, json_scan::keys_of(*pointer))) {
            (Ok(Some((shape, n))), Ok(Some((model, m)))) => shape == model && n == m && n
                <= bytes@.len(),
            (Ok(None), Ok(None)) => true,
            (Err(e), Err(m)) => e@ == m,
            _ => false,
        },
{
    let begin: usize = if bytes.len() >= 3 && bytes[0] == 0xef && bytes[1] == 0xbb && bytes[2]
        == 0xbf {
        3
    } else {
        0
    };
    if format == InputFormat::Ndjson {
        return Ok(Some((Shape::Documents, begin)));
    }
    let none: Vec<String> = Vec::new();
    assert(text::views(none@).skip(0) =~= Seq::<Seq<char>>::empty());
    let found = match pointer {
        Some(path) if format == InputFormat::Json => {
            let keys = path.segments();
            assert(text::views(keys@).skip(0) =~= text::views(keys@));
            find_path_start(bytes, begin, ended, keys, 0)
        },
        _ => find_path_start(bytes, begin, ended, &none, 0),
    };
    let at: usize = match found {
        Err(e) => {
            return Err(e);
        },
        Ok(None) => {
            return Ok(None);
        },
        Ok(Some(n)) => n,
    };
    match peek(bytes, at, ended) {
        None => Ok(None),
        Some(Some((0x5b, n))) => Ok(Some((Shape::Array, n + 1))),
        Some(Some((0x7b, n))) => Ok(Some((Shape::Entries, n + 1))),
        Some(_) => Err(JsonError::NotTabular(None)),
    }
}

/// A preview before its first row is read, with the mode of an object and what is
/// to be said of it.
pub struct PreviewModel {
    pub table: SequentialModel,
    pub object_mode: Option<ObjectModeResolution>,
    pub warnings: Seq<Seq<char>>,
}

/// What a preview begins with.
pub open spec fn preview_opened(
    bytes: Seq<u8>,
    ended: bool,
    format: InputFormat,
    path: PathModel,
    options: OpenOptions,
    generation: SourceGeneration,
) -> Result<Option<PreviewModel>, JsonErrorModel> {
    let mode = options.object_mode;
    match preview_start(bytes, ended, format, path.keys) {
        Err(e) => Err(e),
        Ok(None) => Ok(None),
        Ok(Some((shape, at))) => {
            let fresh = SequentialModel {
                shape,
                first: true,
                pending: Seq::empty(),
                seen: Seq::empty(),
                schema: SchemaModel::blank(generation),
                rows: Seq::empty(),
                present: Seq::empty(),
                path,
                eof: false,
                at,
            };
            match shape {
                Shape::Entries => match preview_object(
                    bytes,
                    at,
                    ended,
                    mode,
                    preview_sample(options.preview, options.schema_scan),
                ) {
                    Err(e) => Err(e),
                    Ok(None) => Ok(None),
                    Ok(Some((read, resolved))) => Ok(
                        Some(
                            PreviewModel {
                                table: SequentialModel {
                                    shape: if resolved is Record {
                                        Shape::Record
                                    } else {
                                        Shape::Entries
                                    },
                                    first: read.first,
                                    pending: if resolved is Record {
                                        seq![json_select::record_row(read.entries)]
                                    } else {
                                        json_select::entry_rows(read.entries)
                                    },
                                    seen: json_select::entry_keys(read.entries),
                                    eof: read.eof,
                                    at: read.at,
                                    ..fresh
                                },
                                object_mode: Some(
                                    ObjectModeResolution { requested: mode, resolved },
                                ),
                                warnings: Seq::empty(),
                            },
                        ),
                    ),
                },
                Shape::Array => if json_select::mode_refused(mode, options.object_mode_origin) {
                    Err(
                        JsonErrorModel::Options(
                            SourceOptionErrorModel::ObjectModeRequiresObject { mode },
                        ),
                    )
                } else {
                    Ok(
                        Some(
                            PreviewModel {
                                table: fresh,
                                object_mode: None,
                                warnings: match json_select::shape_warning(mode, SelectedValueShape::Array) {
                                    Some(warning) => seq![warning],
                                    None => Seq::empty(),
                                },
                            },
                        ),
                    )
                },
                _ => Ok(
                    Some(PreviewModel { table: fresh, object_mode: None, warnings: Seq::empty() }),
                ),
            }
        },
    }
}

fn read_preview_object(
    bytes: &[u8],
    at: usize,
    ended: bool,
    mode: ObjectMode,
    most: usize,
) -> (r: Result<Option<(EntriesRead, ResolvedObjectMode)>, JsonError>)
    requires
        at <= bytes@.len(),
    ensures
        match (r, preview_object(bytes@, at as int, ended, mode, most)) {
            (Ok(Some((read, resolved))), Ok(Some((m, model)))) => read.well_formed() && read.model()
                == m && resolved == model && read.at <= bytes@.len(),
            (Ok(None), Ok(None)) => true,
            (Err(e), Err(m)) => e@ == m,
            _ => false,
        },
{
    let fresh = EntriesRead {
        entries: Vec::new(),
        seen: Vec::new(),
        at,
        first: true,
        eof: false,
    };
    assert(json_rows::entry_views(fresh.entries@) =~= Seq::<EntryModel>::empty());
    assert(text::views(fresh.seen@) =~= json_select::entry_keys(json_rows::entry_views(fresh.entries@)));
    let head = if mode == ObjectMode::Auto {
        match read_entries_on(fresh, bytes, ended, Some(most)) {
            Err(e) => {
                return Err(e);
            },
            Ok(None) => {
                return Ok(None);
            },
            Ok(Some(read)) => read,
        }
    } else {
        fresh
    };
    let entries = match mode {
        ObjectMode::Auto => detect_keyed_object(&head.entries),
        ObjectMode::Entries => true,
        ObjectMode::Record => false,
    };
    if entries {
        return Ok(Some((head, ResolvedObjectMode::Entries)));
    }
    match read_entries_on(head, bytes, ended, None) {
        Err(e) => Err(e),
        Ok(None) => Ok(None),
        Ok(Some(read)) => Ok(Some((read, ResolvedObjectMode::Record))),
    }
}

fn begin_preview(
    bytes: &[u8],
    ended: bool,
    live_input: bool,
    format: InputFormat,
    options: &OpenOptions,
    generation: SourceGeneration,
) -> (r: Result<
    Option<(SequentialJson, Option<ObjectModeResolution>, Vec<String>)>,
    JsonError,
>)
    ensures
        match (
            r,
            preview_opened(
                bytes@,
                ended,
                format,
                json_rows::path_model(options.json_path),
                *options,
                generation,
            ),
        ) {
            (Ok(Some((table, mode, warnings))), Ok(Some(m))) => {
                &&& table.well_formed()
                &&& table@ == m.table
                &&& table.at <= bytes@.len()
                &&& table.live_input == live_input
                &&& mode == m.object_mode
                &&& text::views(warnings@) == m.warnings
            },
            (Ok(None), Ok(None)) => true,
            (Err(e), Err(m)) => e@ == m,
            _ => false,
        },
{
    let (shape, at) = match find_preview_start(bytes, ended, format, &options.json_path) {
        Err(e) => {
            return Err(e);
        },
        Ok(None) => {
            return Ok(None);
        },
        Ok(Some(found)) => found,
    };
    assert(json_rows::path_model(options.json_path).keys == json_scan::keys_of(options.json_path));
    let mut warnings: Vec<String> = Vec::new();
    assert(text::views(warnings@) =~= Seq::<Seq<char>>::empty());
    let mut table = SequentialJson {
        shape,
        live_input,
        first: true,
        pending: Vec::new(),
        taken_pending: 0,
        seen: Vec::new(),
        schema: JsonSchema::new(generation),
        rows: Vec::new(),
        present: Vec::new(),
        pointer: match &options.json_path {
            Some(path) => Some(path.clone()),
            None => None,
        },
        eof: false,
        at,
    };
    proof {
        assert(json_rows::flat_row_views(table.pending@).skip(0) =~= Seq::<FlatRowModel>::empty());
        assert(text::views(table.seen@) =~= Seq::<Seq<char>>::empty());
        assert(delimited_table::cell_rows(table.rows@) =~= Seq::<Seq<CellModel>>::empty());
        assert(place_lists(table.present@) =~= Seq::<Seq<usize>>::empty());
    }
    match shape {
        Shape::Entries => {
            let most: usize = if options.preview && options.schema_scan != SchemaScan::Full {
                3
            } else {
                OBJECT_DETECTION_MAX_ENTRIES
            };
            let (read, resolved) = match read_preview_object(
                bytes,
                at,
                ended,
                options.object_mode,
                most,
            ) {
                Err(e) => {
                    return Err(e);
                },
                Ok(None) => {
                    return Ok(None);
                },
                Ok(Some(found)) => found,
            };
            match resolved {
                ResolvedObjectMode::Record => {
                    let mut rows: Vec<FlatRow> = Vec::new();
                    rows.push(flatten_object_record(&read.entries));
                    assert(json_rows::flat_row_views(rows@).skip(0) =~= seq![
                        json_select::record_row(json_rows::entry_views(read.entries@)),
                    ]);
                    table.pending = rows;
                    table.shape = Shape::Record;
                },
                ResolvedObjectMode::Entries => {
                    table.pending = project_object_entries(&read.entries);
                    assert(json_rows::flat_row_views(table.pending@).skip(0) =~= json_select::entry_rows(
                        json_rows::entry_views(read.entries@),
                    ));
                },
            }
            table.seen = read.seen;
            table.first = read.first;
            table.eof = read.eof;
            table.at = read.at;
            Ok(
                Some(
                    (
                        table,
                        Some(ObjectModeResolution { requested: options.object_mode, resolved }),
                        warnings,
                    ),
                ),
            )
        },
        Shape::Array => {
            match resolve_selected_shape(
                SelectedValueShape::Array,
                options.object_mode,
                options.object_mode_origin,
                false,
            ) {
                Err(e) => Err(JsonError::Options(e)),
                Ok(resolution) => {
                    if let Some(warning) = resolution.warning {
                        warnings.push(warning);
                        assert(text::views(warnings@) =~= seq![warning@]);
                    }
                    Ok(Some((table, None, warnings)))
                },
            }
        },
        _ => Ok(Some((table, None, warnings))),
    }
}

/// The first row that has to be there before a preview is shown: the last one
/// where all columns are wanted and nothing narrows the rows, else the first.
pub open spec fn preview_target(options: OpenOptions) -> usize {
    if options.schema_scan is Full && options.limit is None && options.source_filters@.len() == 0 {
        usize::MAX
    } else {
        0
    }
}

/// The preview once its first rows were read.
pub open spec fn preview_read(
    opened: PreviewModel,
    bytes: Seq<u8>,
    ended: bool,
    options: OpenOptions,
) -> ReadModel {
    read_through(
        opened.table,
        DeltaModel::nothing(),
        0,
        bytes,
        ended,
        preview_target(options),
    )
}

/// Opens a preview on what has arrived of an input; `None` asks for more of it.
pub fn open_preview(
    bytes: &[u8],
    ended: bool,
    live_input: bool,
    display_name: String,
    format: InputFormat,
    options: &OpenOptions,
    generation: SourceGeneration,
) -> (r: Result<Option<OpenedTable<SequentialJson>>, JsonError>)
    ensures
        match preview_opened(
            bytes@,
            ended,
            format,
            json_rows::path_model(options.json_path),
            *options,
            generation,
        ) {
            Err(m) => r matches Err(e) && e@ == m,
            Ok(None) => r matches Ok(None),
            Ok(Some(opened)) => {
                let read = preview_read(opened, bytes@, ended, *options);
                match (r, read.reading) {
                    (Err(e), Reading::Fail(m)) => e@ == m,
                    (Ok(None), Reading::More) => true,
                    (Ok(Some(table)), Reading::Done) => {
                        &&& table.generation == generation
                        &&& table.store.well_formed()
                        &&& table.store.live_input == live_input
                        &&& table.store@ == (SequentialModel {
                            schema: json_schema::with_labels(read.table.schema),
                            ..read.table
                        })
                        &&& json_lazy::defines(
                            table.definition,
                            generation,
                            json_schema::with_labels(read.table.schema).columns,
                            read.table.eof && read.table.pending.len() == 0,
                            display_name,
                        )
                        &&& table.object_mode == opened.object_mode
                        &&& text::views(table.warnings@) == opened.warnings
                    },
                    _ => false,
                }
            },
        },
{
    let (mut store, object_mode, warnings) = match begin_preview(
        bytes,
        ended,
        live_input,
        format,
        options,
        generation,
    ) {
        Err(e) => {
            return Err(e);
        },
        Ok(None) => {
            return Ok(None);
        },
        Ok(Some(opened)) => opened,
    };
    let target: usize = if options.schema_scan == SchemaScan::Full && options.limit.is_none()
        && options.source_filters.len() == 0 {
        usize::MAX
    } else {
        0
    };
    let mut delta = SchemaDelta::default();
    match store.read_through(bytes, ended, target, &mut delta, 0) {
        Err(e) => {
            return Err(e);
        },
        Ok(Progress::More { .. }) => {
            return Ok(None);
        },
        Ok(Progress::Done { .. }) => {},
    }
    store.schema.assign_initial_labels();
    let done = store.eof && store.taken_pending >= store.pending.len();
    let definition = define(&store.schema, generation, done, display_name);
    Ok(Some(OpenedTable { generation, definition, store, object_mode, warnings }))
}

// ---------------------------------------------------------------------------
// Laws
// ---------------------------------------------------------------------------

proof fn lemma_row_added_keeps(table: SequentialModel, delta: DeltaModel, row: FlatRowModel)
    requires
        table.schema.well_formed(),
    ensures
        row_added(table, delta, row).0.schema.well_formed(),
        json_schema::extends(table.schema, row_added(table, delta, row).0.schema),
{
    json_schema::lemma_cells_extend(
        SchemaStep { schema: table.schema, delta },
        row.cells,
        row.cells.len() as int,
    );
}

/// However far a preview is read, the rows and the columns that were there stay in
/// their places, and no column is renamed.
pub proof fn reading_on_keeps_rows(
    table: SequentialModel,
    delta: DeltaModel,
    scanned: u64,
    bytes: Seq<u8>,
    ended: bool,
    index: usize,
)
    requires
        table.schema.well_formed(),
    ensures
        ({
            let after = read_through(table, delta, scanned, bytes, ended, index).table;
            &&& after.schema.well_formed()
            &&& json_schema::extends(table.schema, after.schema)
            &&& table.rows.len() <= after.rows.len()
            &&& after.rows.take(table.rows.len() as int) == table.rows
        }),
    decreases bytes.len() - table.at, table.pending.len(),
{
    let paths = table.schema.paths;
    assert(paths.take(paths.len() as int) =~= paths);
    assert(table.rows.take(table.rows.len() as int) =~= table.rows);
    if table.rows.len() <= index {
        if let RowStep::Row(after, row) = next_flat(table, bytes, ended) {
            let (grown, learnt) = row_added(after, delta, row);
            lemma_row_added_keeps(after, delta, row);
            assert(grown.rows.take(table.rows.len() as int) =~= table.rows);
            if went_on(table, grown, bytes.len() as int) {
                let size = scanned.saturating_add(row.source_bytes);
                reading_on_keeps_rows(grown, learnt, size, bytes, ended, index);
                let last = read_through(grown, learnt, size, bytes, ended, index).table;
                assert(last.rows.take(table.rows.len() as int) =~= last.rows.take(
                    grown.rows.len() as int,
                ).take(table.rows.len() as int));
                json_schema::lemma_extends_transitive(table.schema, grown.schema, last.schema);
            }
        }
    }
}

// ---------------------------------------------------------------------------
// Laws of the parts
// ---------------------------------------------------------------------------

/// A look finds the next byte that is no white space; where none has come it waits,
/// unless none can come.
pub proof fn looks_wait_for_more(bytes: Seq<u8>, at: int)
    requires
        0 <= at <= bytes.len(),
    ensures
        json_scan::solid(bytes, at) < bytes.len() ==> forall|ended: bool| #[trigger]
            peeked(bytes, at, ended) == Some(
                Some((bytes[json_scan::solid(bytes, at)], json_scan::solid(bytes, at))),
            ),
        json_scan::solid(bytes, at) == bytes.len() ==> peeked(bytes, at, true) == Some(
            None::<(u8, int)>,
        ) && peeked(bytes, at, false) is None,
{
    json_scan::lemma_solid(bytes, at);
}

/// A sign is taken where it is the next byte, refused where another is, and waited for
/// where none has come.
pub proof fn signs_are_taken_or_refused(bytes: Seq<u8>, at: int, expected: u8, ended: bool)
    requires
        0 <= at <= bytes.len(),
    ensures
        ({
            let n = json_scan::solid(bytes, at);
            let taken = byte_taken(bytes, at, ended, expected);
            &&& n < bytes.len() && bytes[n] == expected ==> taken == Ok::<
                Option<int>,
                JsonErrorModel,
            >(Some(n + 1))
            &&& n < bytes.len() && bytes[n] != expected ==> taken == Err::<
                Option<int>,
                JsonErrorModel,
            >(JsonErrorModel::Expected(expected as char))
            &&& n == bytes.len() && ended ==> taken is Err
            &&& n == bytes.len() && !ended ==> taken == Ok::<Option<int>, JsonErrorModel>(None)
            &&& comma_taken(bytes, at, ended, true) == Ok::<Option<int>, JsonErrorModel>(Some(n))
            &&& comma_taken(bytes, at, ended, false) == byte_taken(bytes, at, ended, ',' as u8)
        }),
{
    json_scan::lemma_solid(bytes, at);
}

/// A value that reaches to the end of what has come is taken only where it shows its own
/// end or nothing more can come; a fault of breaking off is waited out.
pub proof fn values_wait_for_their_end(bytes: Seq<u8>, at: int)
    requires
        0 <= at <= bytes.len(),
    ensures
        ({
            let (found, length) = json_value::json_next(bytes.skip(at));
            let n = json_scan::solid(bytes, at);
            let shown = n < bytes.len() && (bytes[n] == '"' as u8 || bytes[n] == '[' as u8
                || bytes[n] == '{' as u8);
            &&& found matches Some(Ok(value)) ==> {
                &&& value_taken(bytes, at, true) == Ok::<Option<(Json, int)>, JsonErrorModel>(
                    Some((value, at + length)),
                )
                &&& shown || at + length < bytes.len() ==> value_taken(bytes, at, false)
                    == value_taken(bytes, at, true)
                &&& !shown && at + length >= bytes.len() ==> value_taken(bytes, at, false) == Ok::<
                    Option<(Json, int)>,
                    JsonErrorModel,
                >(None)
            }
            &&& found matches Some(Err(fault)) ==> {
                &&& value_taken(bytes, at, true) is Err
                &&& fault.eof ==> value_taken(bytes, at, false) == Ok::<
                    Option<(Json, int)>,
                    JsonErrorModel,
                >(None)
                &&& !fault.eof ==> value_taken(bytes, at, false) is Err
            }
            &&& found is None ==> value_taken(bytes, at, true) is Err && value_taken(
                bytes,
                at,
                false,
            ) == Ok::<Option<(Json, int)>, JsonErrorModel>(None)
        }),
{
}

/// A closing bracket ends the items of an array, and a closing brace the entries of an
/// object; anything else is one more, behind a comma unless it is the first.
pub proof fn brackets_end_their_parts(
    bytes: Seq<u8>,
    at: int,
    ended: bool,
    first: bool,
    seen: Seq<Seq<char>>,
)
    requires
        0 <= at <= bytes.len(),
        json_scan::solid(bytes, at) < bytes.len(),
    ensures
        ({
            let n = json_scan::solid(bytes, at);
            let item = item_taken(bytes, at, ended, first);
            let entry = entry_taken(bytes, at, ended, first, seen);
            &&& bytes[n] == ']' as u8 ==> item == Ok::<Option<(Option<Json>, int)>, JsonErrorModel>(
                Some((None, n + 1)),
            )
            &&& bytes[n] == '}' as u8 ==> entry == Ok::<
                Option<(Option<EntryModel>, int)>,
                JsonErrorModel,
            >(Some((None, n + 1)))
            &&& bytes[n] != ']' as u8 && !first && bytes[n] != ',' as u8 ==> item is Err
            &&& bytes[n] != '}' as u8 && !first && bytes[n] != ',' as u8 ==> entry is Err
            &&& item matches Ok(Some((None, _))) ==> bytes[n] == ']' as u8
            &&& entry matches Ok(Some((None, _))) ==> bytes[n] == '}' as u8
            &&& entry matches Ok(Some((Some(e), _))) ==> !seen.contains(e.key)
        }),
{
    json_scan::lemma_solid(bytes, at);
}

/// A row has its cells in the columns of their paths and nothing in the others.
pub proof fn cells_are_placed_by_their_paths(
    cells: Seq<FlatModel>,
    n: int,
    paths: Seq<Seq<char>>,
)
    requires
        0 <= n < cells.len(),
        forall|k: int| 0 <= k <= n ==> paths.contains((#[trigger] cells[k]).path),
    ensures
        placed(cells, 0, paths).len() == paths.len(),
        forall|i: int| 0 <= i < paths.len() ==> (#[trigger] placed(cells, 0, paths)[i]) is Null,
        ({
            let at = json_schema::path_place(paths, cells[n].path, 0);
            &&& 0 <= at < paths.len()
            &&& paths[at] == cells[n].path
            &&& placed(cells, n + 1, paths).len() == paths.len()
            &&& placed(cells, n + 1, paths)[at] == cells[n].value
            &&& forall|i: int|
                0 <= i < paths.len() && i != at ==> #[trigger] placed(cells, n + 1, paths)[i]
                    == placed(cells, n, paths)[i]
            &&& places(cells, paths)[n] == at as usize
            &&& places(cells, paths).len() == cells.len()
        }),
{
    assert(paths.contains(cells[n].path));
    let k = choose|k: int| 0 <= k < paths.len() && paths[k] == cells[n].path;
    lemma_path_known(paths, cells[n].path, 0, k);
    lemma_placed_width(cells, n, paths);
}

proof fn lemma_path_known(paths: Seq<Seq<char>>, path: Seq<char>, from: int, k: int)
    requires
        0 <= from <= k < paths.len(),
        paths[k] == path,
    ensures
        from <= json_schema::path_place(paths, path, from) <= k,
        paths[json_schema::path_place(paths, path, from)] == path,
    decreases k - from,
{
    if paths[from] != path {
        lemma_path_known(paths, path, from + 1, k);
    }
}

proof fn lemma_placed_width(cells: Seq<FlatModel>, n: int, paths: Seq<Seq<char>>)
    requires
        0 <= n <= cells.len(),
        forall|k: int| 0 <= k < n ==> paths.contains((#[trigger] cells[k]).path),
    ensures
        placed(cells, n, paths).len() == paths.len(),
    decreases n,
{
    if n > 0 {
        lemma_placed_width(cells, n - 1, paths);
        let path = cells[n - 1].path;
        let k = choose|k: int| 0 <= k < paths.len() && paths[k] == path;
        lemma_path_known(paths, path, 0, k);
    }
}

/// Rows that were read ahead come first, in their order, and take nothing from the input.
pub proof fn pending_rows_come_first(table: SequentialModel, bytes: Seq<u8>, ended: bool)
    ensures
        table.pending.len() > 0 ==> match next_flat(table, bytes, ended) {
            RowStep::Row(after, row) => row == table.pending[0] && after.pending
                == table.pending.skip(1) && after.at == table.at && after.eof == table.eof,
            _ => false,
        },
        table.pending.len() == 0 && table.eof ==> next_flat(table, bytes, ended) == RowStep::End(
            table,
        ),
        table.pending.len() == 0 && !table.eof && table.shape is Record ==> match next_flat(
            table,
            bytes,
            ended,
        ) {
            RowStep::End(after) => after.eof && after.at == table.at,
            _ => false,
        },
{
}

/// Each shape takes its own parts: items give their rows, entries theirs with the key in
/// front, and documents what their path selects.
pub proof fn shapes_take_their_parts(table: SequentialModel, bytes: Seq<u8>, ended: bool)
    requires
        table.pending.len() == 0,
        !table.eof,
    ensures
        next_flat(table, bytes, ended) matches RowStep::Row(after, row) ==> {
            &&& table.shape is Array ==> item_taken(bytes, table.at, ended, table.first) is Ok
                && match item_taken(bytes, table.at, ended, table.first)->Ok_0 {
                Some((Some(value), next)) => row == json_rows::flat_row(value) && after.at == next
                    && !after.first,
                _ => false,
            }
            &&& table.shape is Entries ==> match entry_taken(
                bytes,
                table.at,
                ended,
                table.first,
                table.seen,
            ) {
                Ok(Some((Some(entry), next))) => row == json_rows::keyed_row(
                    entry.key,
                    entry.value,
                    entry.encoded_len,
                ) && after.at == next && after.seen == table.seen.push(entry.key),
                _ => false,
            }
            &&& table.shape is Documents ==> match document_taken(bytes, table.at, ended) {
                Ok(Some((Some(document), next))) => json_rows::document_row(document, table.path)
                    == Ok::<FlatRowModel, JsonErrorModel>(row) && after.at == next,
                _ => false,
            }
        },
{
}

/// A row that is read before a column came has nothing in it.
pub proof fn earlier_rows_lack_later_columns(row: Seq<CellModel>, width: nat, i: int)
    requires
        0 <= i < width,
    ensures
        widened(row, width).len() == width,
        i < row.len() ==> widened(row, width)[i] == row[i],
        i >= row.len() ==> widened(row, width)[i] is Null,
{
}

/// A preview looks at three entries and a table at sixty-four, and a full scan looks at as
/// many as a table; the mark in front of UTF-8 is passed over.
pub proof fn previews_look_at_few_entries(rest: Seq<u8>)
    ensures
        preview_sample(true, SchemaScan::Default) == 3,
        preview_sample(false, SchemaScan::Default) == 64,
        preview_sample(true, SchemaScan::Full) == 64,
        preview_sample(false, SchemaScan::Full) == 64,
        after_mark(seq![0xefu8, 0xbbu8, 0xbfu8] + rest) == 3,
        rest.len() < 3 || rest[0] != 0xef ==> after_mark(rest) == 0,
{
    let marked = seq![0xefu8, 0xbbu8, 0xbfu8] + rest;
    assert(marked[0] == 0xef && marked[1] == 0xbb && marked[2] == 0xbf);
}

/// Entries are read until there are enough of them or they are large enough, or all of
/// them where no number is given.
pub proof fn entries_are_read_up_to_a_number(
    read: EntriesModel,
    size: u64,
    bytes: Seq<u8>,
    ended: bool,
    most: usize,
)
    ensures
        reads_entry(read.entries.len(), size, None),
        reads_entry(read.entries.len(), size, Some(most)) <==> read.entries.len() < most && size
            < OBJECT_DETECTION_MAX_BYTES,
        read.eof ==> entries_read(read, size, bytes, ended, None) == Ok::<
            Option<EntriesModel>,
            JsonErrorModel,
        >(Some(read)),
        read.entries.len() >= most ==> entries_read(read, size, bytes, ended, Some(most)) == Ok::<
            Option<EntriesModel>,
            JsonErrorModel,
        >(Some(read)),
{
}

/// A preview of lines begins at their beginning; one of a document where its path leads,
/// behind the bracket of an array or the brace of an object, and nothing else is a table.
pub proof fn previews_begin_at_the_container(
    bytes: Seq<u8>,
    ended: bool,
    keys: Seq<Seq<char>>,
    at: int,
    n: int,
)
    ensures
        preview_start(bytes, ended, InputFormat::Ndjson, keys) == Ok::<
            Option<(Shape, int)>,
            JsonErrorModel,
        >(Some((Shape::Documents, after_mark(bytes)))),
        path_taken(bytes, after_mark(bytes), ended, keys) == Ok::<Option<int>, JsonErrorModel>(
            Some(at),
        ) && peeked(bytes, at, ended) == Some(Some(('[' as u8, n))) ==> preview_start(
            bytes,
            ended,
            InputFormat::Json,
            keys,
        ) == Ok::<Option<(Shape, int)>, JsonErrorModel>(Some((Shape::Array, n + 1))),
        path_taken(bytes, after_mark(bytes), ended, keys) == Ok::<Option<int>, JsonErrorModel>(
            Some(at),
        ) && peeked(bytes, at, ended) == Some(Some(('{' as u8, n))) ==> preview_start(
            bytes,
            ended,
            InputFormat::Json,
            keys,
        ) == Ok::<Option<(Shape, int)>, JsonErrorModel>(Some((Shape::Entries, n + 1))),
        path_taken(bytes, at, ended, Seq::empty()) == Ok::<Option<int>, JsonErrorModel>(Some(at)),
{
}

/// A preview reads on to its end where all columns are asked for and nothing else cuts
/// the rows, and otherwise to its first row.
pub proof fn full_previews_read_everything(options: OpenOptions)
    ensures
        preview_target(options) == usize::MAX <==> options.schema_scan is Full && options.limit
            is None && options.source_filters@.len() == 0,
        preview_target(options) == usize::MAX || preview_target(options) == 0,
{
}

/// Reading through stops at the row that is wanted, waits where the input does, and tells
/// a fault with what was read before it.
pub proof fn reading_through_stops_at_its_row(
    table: SequentialModel,
    delta: DeltaModel,
    scanned: u64,
    bytes: Seq<u8>,
    ended: bool,
    index: usize,
)
    ensures
        ({
            let read = read_through(table, delta, scanned, bytes, ended, index);
            let step = next_flat(table, bytes, ended);
            &&& table.rows.len() > index ==> read.table == table && read.reading is Done
                && read.scanned == scanned
            &&& table.rows.len() <= index && step is More ==> read.table == table && read.reading
                is More
            &&& table.rows.len() <= index && step is Fail ==> read.table == table && read.reading
                == Reading::Fail(step->Fail_0)
            &&& table.rows.len() <= index && step is End ==> read.reading is Done && read.table
                == step->End_0
        }),
{
}

/// A key is a text in quotes; what begins otherwise is none, and one that breaks off is
/// waited for.
pub proof fn keys_are_quoted_texts(bytes: Seq<u8>, at: int, ended: bool)
    requires
        0 <= at <= bytes.len(),
    ensures
        ({
            let start = behind_blanks(bytes, at);
            let (found, length) = json_value::json_next(bytes.skip(at));
            let taken = key_taken(bytes, at, ended);
            &&& start < bytes.len() && bytes[start] != '"' as u8 ==> taken == Err::<
                Option<(Seq<char>, int)>,
                JsonErrorModel,
            >(JsonErrorModel::ExpectedKey)
            &&& start >= bytes.len() && ended ==> taken is Err
            &&& start >= bytes.len() && !ended ==> taken == Ok::<
                Option<(Seq<char>, int)>,
                JsonErrorModel,
            >(None)
            &&& taken matches Ok(Some((key, end))) ==> found == Some(
                Ok::<Json, crate::json_value::FaultModel>(Json::Text(key)),
            ) && end == at + length && bytes[start] == '"' as u8
        }),
        at < bytes.len() && bytes[at] == ' ' as u8 ==> behind_blanks(bytes, at) == behind_blanks(
            bytes,
            at + 1,
        ),
        at < bytes.len() && bytes[at] > ' ' as u8 ==> behind_blanks(bytes, at) == at,
{
}

/// A value is passed over by its text alone, waited for as one that is taken is, and what
/// comes behind it is where it ends.
pub proof fn values_are_passed_over(bytes: Seq<u8>, at: int)
    requires
        0 <= at <= bytes.len(),
    ensures
        ({
            let (found, length) = json_value::json_passed(bytes.skip(at));
            &&& found matches Some(Ok(_)) ==> value_passed(bytes, at, true) == Ok::<
                Option<int>,
                JsonErrorModel,
            >(Some(at + length))
            &&& found matches Some(Ok(_)) ==> (at + length < bytes.len() ==> value_passed(
                bytes,
                at,
                false,
            ) == Ok::<Option<int>, JsonErrorModel>(Some(at + length)))
            &&& found matches Some(Err(fault)) ==> value_passed(bytes, at, true) == Err::<
                Option<int>,
                JsonErrorModel,
            >(JsonErrorModel::Json(fault))
            &&& found matches Some(Err(fault)) ==> (fault.eof ==> value_passed(bytes, at, false)
                == Ok::<Option<int>, JsonErrorModel>(None))
            &&& found is None ==> value_passed(bytes, at, true) is Err
            &&& found is None ==> value_passed(bytes, at, false) == Ok::<
                Option<int>,
                JsonErrorModel,
            >(None)
        }),
{
}

/// A row is added behind the others, with its cells in the columns that it is known by.
pub proof fn rows_are_added_behind(table: SequentialModel, delta: DeltaModel, row: FlatRowModel)
    ensures
        ({
            let (next, told) = row_added(table, delta, row);
            let step = json_schema::row_observed(
                SchemaStep { schema: table.schema, delta },
                row,
            );
            &&& next.rows.drop_last() == table.rows
            &&& next.rows.len() == table.rows.len() + 1
            &&& next.rows.last() == placed(row.cells, row.cells.len() as int, step.schema.paths)
            &&& next.schema == step.schema
            &&& told == step.delta
            &&& next.at == table.at
            &&& next.eof == table.eof
        }),
{
    let next = match row_added(table, delta, row) {
        (next, _) => next,
    };
    assert(next.rows.drop_last() =~= table.rows);
}

/// A member is searched for by its name, and the first of that name is followed; the end
/// of the object is told.
pub proof fn members_are_followed_by_name(
    bytes: Seq<u8>,
    at: int,
    ended: bool,
    first: bool,
    keys: Seq<Seq<char>>,
    start: int,
    key: Seq<char>,
    key_end: int,
    colon: int,
)
    requires
        keys.len() > 0,
        comma_taken(bytes, at, ended, first) == Ok::<Option<int>, JsonErrorModel>(Some(start)),
        key_taken(bytes, start, ended) == Ok::<Option<(Seq<char>, int)>, JsonErrorModel>(
            Some((key, key_end)),
        ),
        byte_taken(bytes, key_end, ended, ':' as u8) == Ok::<Option<int>, JsonErrorModel>(
            Some(colon),
        ),
        peeked(bytes, at, ended) is Some,
        !(peeked(bytes, at, ended)->0 matches Some((0x7d, _))),
    ensures
        key == keys[0] ==> member_found(bytes, at, ended, first, keys) == path_taken(
            bytes,
            colon,
            ended,
            keys.drop_first(),
        ),
        key != keys[0] ==> match value_passed(bytes, colon, ended) {
            Ok(Some(end)) => at < end <= bytes.len() ==> member_found(
                bytes,
                at,
                ended,
                first,
                keys,
            ) == member_found(bytes, end, ended, false, keys),
            Ok(None) => member_found(bytes, at, ended, first, keys) == Ok::<
                Option<int>,
                JsonErrorModel,
            >(None),
            Err(e) => member_found(bytes, at, ended, first, keys) == Err::<
                Option<int>,
                JsonErrorModel,
            >(e),
        },
{
}

/// Items are counted off from the first, and the one of the number is followed.
pub proof fn items_are_counted_off(
    bytes: Seq<u8>,
    at: int,
    ended: bool,
    first: bool,
    keys: Seq<Seq<char>>,
    left: nat,
    start: int,
)
    requires
        keys.len() > 0,
        comma_taken(bytes, at, ended, first) == Ok::<Option<int>, JsonErrorModel>(Some(start)),
        peeked(bytes, at, ended) is Some,
        !(peeked(bytes, at, ended)->0 matches Some((0x5d, _))),
    ensures
        item_found(bytes, at, ended, first, keys, 0) == path_taken(
            bytes,
            start,
            ended,
            keys.drop_first(),
        ),
        value_passed(bytes, start, ended) matches Ok(Some(end)) ==> item_found(
            bytes,
            at,
            ended,
            first,
            keys,
            left + 1,
        ) == item_found(bytes, end, ended, false, keys, left),
{
}

/// A path is followed through braces by name and through brackets by number, and nowhere
/// else.
pub proof fn paths_lead_through_containers(
    bytes: Seq<u8>,
    at: int,
    ended: bool,
    keys: Seq<Seq<char>>,
    n: int,
)
    requires
        keys.len() > 0,
    ensures
        peeked(bytes, at, ended) == Some(Some(('{' as u8, n))) ==> path_taken(
            bytes,
            at,
            ended,
            keys,
        ) == member_found(bytes, n + 1, ended, true, keys),
        peeked(bytes, at, ended) == Some(Some(('[' as u8, n))) && text::unsigned_value(
            keys[0],
            usize::MAX as nat,
        ) is Some ==> path_taken(bytes, at, ended, keys) == item_found(
            bytes,
            n + 1,
            ended,
            true,
            keys,
            text::unsigned_value(keys[0], usize::MAX as nat)->0,
        ),
        peeked(bytes, at, ended) == Some(Some(('[' as u8, n))) && text::unsigned_value(
            keys[0],
            usize::MAX as nat,
        ) is None ==> path_taken(bytes, at, ended, keys) == Err::<Option<int>, JsonErrorModel>(
            JsonErrorModel::NotAnIndex,
        ),
        peeked(bytes, at, ended) == Some(Some(('"' as u8, n))) ==> path_taken(
            bytes,
            at,
            ended,
            keys,
        ) == Err::<Option<int>, JsonErrorModel>(JsonErrorModel::NotFound),
{
}

/// An object is previewed in the mode that is asked for, or in the one that its first
/// entries look like; a record is read whole, and of entries only those that were looked
/// at.
pub proof fn objects_are_previewed_in_their_mode(
    bytes: Seq<u8>,
    at: int,
    ended: bool,
    most: usize,
)
    ensures
        preview_object(bytes, at, ended, ObjectMode::Entries, most) == Ok::<
            Option<(EntriesModel, ResolvedObjectMode)>,
            JsonErrorModel,
        >(
            Some(
                (
                    EntriesModel { entries: Seq::empty(), at, first: true, eof: false },
                    ResolvedObjectMode::Entries,
                ),
            ),
        ),
        preview_object(bytes, at, ended, ObjectMode::Record, most) matches Ok(Some((_, mode)))
            ==> mode is Record,
        ({
            let fresh = EntriesModel { entries: Seq::empty(), at, first: true, eof: false };
            let seen = entries_read(fresh, 0, bytes, ended, Some(most));
            let auto = preview_object(bytes, at, ended, ObjectMode::Auto, most);
            &&& seen matches Ok(Some(read)) ==> (json_rows::entries_are_keyed(read.entries) ==> auto
                == Ok::<Option<(EntriesModel, ResolvedObjectMode)>, JsonErrorModel>(
                Some((read, ResolvedObjectMode::Entries)),
            ))
            &&& seen matches Ok(Some(read)) ==> (!json_rows::entries_are_keyed(read.entries) ==> (
            auto matches Ok(Some((_, mode))) ==> mode is Record))
            &&& seen matches Ok(None) ==> auto == Ok::<
                Option<(EntriesModel, ResolvedObjectMode)>,
                JsonErrorModel,
            >(None)
        }),
{
}

/// A preview opens with nothing read of an array or of lines, and with what it looked at
/// of an object: its one row as a record, or the rows of its entries.
pub proof fn previews_open_with_what_was_looked_at(
    bytes: Seq<u8>,
    ended: bool,
    format: InputFormat,
    path: PathModel,
    options: OpenOptions,
    generation: SourceGeneration,
)
    ensures
        preview_opened(bytes, ended, format, path, options, generation) matches Ok(Some(opened))
            ==> {
            let table = opened.table;
            &&& table.rows.len() == 0
            &&& table.path == path
            &&& table.schema.columns.len() == 0
            &&& table.shape is Array || table.shape is Documents ==> table.pending.len() == 0
                && opened.object_mode is None && !table.eof
            &&& table.shape is Record ==> table.pending.len() == 1
                && opened.object_mode->0.resolved is Record
            &&& table.shape is Entries ==> table.pending.len() == table.seen.len()
                && opened.object_mode->0.resolved is Entries
            &&& opened.object_mode is Some ==> opened.object_mode->0.requested
                == options.object_mode
            &&& format is Ndjson ==> table.shape is Documents
            &&& table.shape is Array && options.object_mode is Auto ==> opened.warnings.len() == 0
            &&& table.shape is Array && options.object_mode !is Auto ==> opened.warnings.len() == 1
                && options.object_mode_origin is SavedView
        },
{
}

} // verus!
