//! Selecting the table in a JSON text.

use vstd::prelude::*;
use vstd::slice::*;

use crate::json_rows::{
    self, EntryModel, FlatRow, FlatRowModel, OBJECT_DETECTION_MAX_BYTES,
    OBJECT_DETECTION_MAX_ENTRIES, ObjectEntry, PartStep, PathModel, flatten_keyed_entry,
    flatten_row, parse_ndjson_rows, read_array_rows, read_entries, values_are_keyed_object,
};
use crate::json_scan::{
    self, JsonError, JsonErrorModel, locate_json_pointer, read_non_whitespace, skip_json_value,
    skip_whitespace,
};
use crate::json_value::{self, Json, JsonValue, parse_json};
use crate::options::{
    self, InputFormat, JsonPointer, ObjectMode, ObjectModeOrigin, ObjectModeResolution,
    OpenOptions, ResolvedObjectMode, SelectedTableShape, SelectedValueShape,
    SourceOptionErrorModel, resolve_selected_shape,
};
use crate::text::{self, same};

verus! {

/// The rows that were read, how an object was taken, and what is to be said of it.
#[derive(Debug, PartialEq)]
pub struct ParsedJsonRows {
    pub rows: Vec<FlatRow>,
    pub object_mode: Option<ObjectModeResolution>,
    pub warnings: Vec<String>,
}

/// The model of rows that were read.
pub struct ParsedModel {
    pub rows: Seq<FlatRowModel>,
    pub object_mode: Option<ObjectModeResolution>,
    pub warnings: Seq<Seq<char>>,
}

impl View for ParsedJsonRows {
    type V = ParsedModel;

    open spec fn view(&self) -> ParsedModel {
        ParsedModel {
            rows: json_rows::flat_row_views(self.rows@),
            object_mode: self.object_mode,
            warnings: text::views(self.warnings@),
        }
    }
}

/// The model of a parse.
pub open spec fn parsed_result(r: Result<ParsedJsonRows, JsonError>) -> Result<
    ParsedModel,
    JsonErrorModel,
> {
    match r {
        Ok(parsed) => Ok(parsed@),
        Err(e) => Err(e@),
    }
}

/// Rows alone, with nothing to be said of them.
pub open spec fn plain_rows(rows: Result<Seq<FlatRowModel>, JsonErrorModel>) -> Result<
    ParsedModel,
    JsonErrorModel,
> {
    match rows {
        Ok(rows) => Ok(ParsedModel { rows, object_mode: None, warnings: Seq::empty() }),
        Err(e) => Err(e),
    }
}

/// The keys of a list of entries.
pub open spec fn entry_keys(entries: Seq<EntryModel>) -> Seq<Seq<char>> {
    Seq::new(entries.len(), |i: int| entries[i].key)
}

/// The first of the first `n` keys that came before.
pub open spec fn repeated_key(keys: Seq<Seq<char>>, n: int) -> Option<Seq<char>>
    decreases n,
{
    if n <= 0 || n > keys.len() {
        None
    } else {
        match repeated_key(keys, n - 1) {
            Some(key) => Some(key),
            None => if keys.take(n - 1).contains(keys[n - 1]) {
                Some(keys[n - 1])
            } else {
                None
            },
        }
    }
}

/// Keys that do not repeat are distinct.
pub proof fn unrepeated_keys_are_distinct(keys: Seq<Seq<char>>)
    ensures
        repeated_key(keys, keys.len() as int) is None <==> keys.no_duplicates(),
{
    lemma_unrepeated(keys, keys.len() as int);
    assert(keys.take(keys.len() as int) =~= keys);
}

proof fn lemma_unrepeated(keys: Seq<Seq<char>>, n: int)
    requires
        0 <= n <= keys.len(),
    ensures
        repeated_key(keys, n) is None <==> keys.take(n).no_duplicates(),
    decreases n,
{
    if n > 0 {
        lemma_unrepeated(keys, n - 1);
        let before = keys.take(n - 1);
        let now = keys.take(n);
        if now.no_duplicates() {
            assert forall|i: int, j: int| 0 <= i < before.len() && 0 <= j < before.len() && i
                != j implies before[i] != before[j] by {
                assert(now[i] != now[j]);
            }
            if before.contains(keys[n - 1]) {
                let i = choose|i: int| 0 <= i < before.len() && before[i] == keys[n - 1];
                assert(now[i] == now[n - 1]);
            }
        }
        if before.no_duplicates() && !before.contains(keys[n - 1]) {
            assert forall|i: int, j: int| 0 <= i < now.len() && 0 <= j < now.len() && i
                != j implies now[i] != now[j] by {
                if i < n - 1 && j < n - 1 {
                    assert(before[i] != before[j]);
                } else if i == n - 1 {
                    assert(before[j] == now[j]);
                } else {
                    assert(before[i] == now[i]);
                }
            }
        }
    }
}

/// The members that entries make up.
pub open spec fn entry_members(entries: Seq<EntryModel>) -> Seq<(Seq<char>, Json)> {
    Seq::new(entries.len(), |i: int| (entries[i].key, entries[i].value))
}

/// The one row of an object that is taken as a record.
pub open spec fn record_row(entries: Seq<EntryModel>) -> FlatRowModel {
    json_rows::flat_row(Json::Object(entry_members(entries)))
}

/// The rows of an object that is taken entry by entry.
pub open spec fn entry_rows(entries: Seq<EntryModel>) -> Seq<FlatRowModel> {
    Seq::new(
        entries.len(),
        |i: int| json_rows::keyed_row(entries[i].key, entries[i].value, entries[i].encoded_len),
    )
}

/// Whether a mode that was asked for rules out a value that is no object.
pub open spec fn mode_refused(mode: ObjectMode, origin: ObjectModeOrigin) -> bool {
    mode !is Auto && origin !is SavedView
}

/// What is said of a mode on a value that is no object.
pub open spec fn shape_warning(mode: ObjectMode, selected: SelectedValueShape) -> Option<Seq<char>> {
    if mode is Auto {
        None
    } else {
        Some(options::ignored_mode_warning(mode, selected))
    }
}

/// The table that the entries of an object give.
pub open spec fn object_table(entries: Seq<EntryModel>, mode: ObjectMode) -> Result<
    ParsedModel,
    JsonErrorModel,
> {
    match repeated_key(entry_keys(entries), entries.len() as int) {
        Some(key) => Err(JsonErrorModel::DuplicateKey(key)),
        None => {
            let resolved = options::object_mode_for(mode, mode is Auto && json_rows::entries_are_keyed(entries));
            Ok(
                ParsedModel {
                    rows: match resolved {
                        ResolvedObjectMode::Record => seq![record_row(entries)],
                        ResolvedObjectMode::Entries => entry_rows(entries),
                    },
                    object_mode: Some(ObjectModeResolution { requested: mode, resolved }),
                    warnings: Seq::empty(),
                },
            )
        },
    }
}

/// The table of the value that begins at `at`.
pub open spec fn value_table(
    bytes: Seq<u8>,
    at: int,
    mode: ObjectMode,
    origin: ObjectModeOrigin,
) -> Result<ParsedModel, JsonErrorModel> {
    if bytes[at] == 0x7b {
        match json_rows::object_entries(bytes, at + 1) {
            Err(e) => Err(e),
            Ok(entries) => object_table(entries, mode),
        }
    } else if mode_refused(mode, origin) {
        Err(JsonErrorModel::Options(SourceOptionErrorModel::ObjectModeRequiresObject { mode }))
    } else if bytes[at] == 0x5b {
        match json_rows::array_rows(bytes, at + 1) {
            Err(e) => Err(e),
            Ok(rows) => Ok(
                ParsedModel {
                    rows,
                    object_mode: None,
                    warnings: match shape_warning(mode, SelectedValueShape::Array) {
                        Some(warning) => seq![warning],
                        None => Seq::empty(),
                    },
                },
            ),
        }
    } else {
        Err(JsonErrorModel::NotTabular(shape_warning(mode, SelectedValueShape::Scalar)))
    }
}

/// The table of the value that a path selects in one JSON text.
pub open spec fn document_table(
    bytes: Seq<u8>,
    keys: Seq<Seq<char>>,
    mode: ObjectMode,
    origin: ObjectModeOrigin,
) -> Result<ParsedModel, JsonErrorModel> {
    match json_value::json_read(bytes) {
        Err(e) => Err(JsonErrorModel::Json(e)),
        Ok(_) => match json_scan::located(bytes, 0, keys) {
            Err(e) => Err(e),
            Ok(at) => value_table(bytes, at, mode, origin),
        },
    }
}

/// The rows of an array that are complete so far: those that something follows.
pub open spec fn complete_rows(bytes: Seq<u8>, at: int) -> Result<Seq<FlatRowModel>, JsonErrorModel>
    decreases bytes.len() - at,
    when 0 <= at <= bytes.len()
{
    proof {
        json_rows::lemma_item_step(bytes, at);
    }
    match json_rows::item_step(bytes, at) {
        Err(_) => Ok(Seq::empty()),
        Ok(PartStep::End(_)) => Ok(Seq::empty()),
        Ok(PartStep::Part { start, end, next, last }) => match json_value::json_read(
            bytes.subrange(start, end),
        ) {
            Err(e) => Err(JsonErrorModel::Json(e)),
            Ok(value) => if last {
                Ok(seq![json_rows::flat_row(value)])
            } else {
                json_rows::prepend(seq![json_rows::flat_row(value)], complete_rows(bytes, next))
            },
        },
    }
}

/// The rows that a text which breaks off has so far: those of the selected array.
pub open spec fn partial_rows(bytes: Seq<u8>, keys: Seq<Seq<char>>) -> Result<
    Seq<FlatRowModel>,
    JsonErrorModel,
> {
    match json_scan::located(bytes, 0, keys) {
        Err(_) => Ok(Seq::empty()),
        Ok(at) => if bytes[at] == 0x5b {
            complete_rows(bytes, at + 1)
        } else {
            Ok(Seq::empty())
        },
    }
}

/// The position behind the last line feed, or zero.
pub open spec fn lines_end(bytes: Seq<u8>) -> int
    decreases bytes.len(),
{
    if bytes.len() == 0 {
        0
    } else if bytes.last() == 0x0a {
        bytes.len() as int
    } else {
        lines_end(bytes.drop_last())
    }
}

/// The table of what has arrived of a source.
pub open spec fn available_table(
    bytes: Seq<u8>,
    complete: bool,
    format: InputFormat,
    path: PathModel,
    mode: ObjectMode,
    origin: ObjectModeOrigin,
) -> Result<ParsedModel, JsonErrorModel> {
    match format {
        InputFormat::Ndjson => if complete {
            plain_rows(json_rows::stream_rows(json_value::json_stream(bytes), path))
        } else if lines_end(bytes) == 0 {
            plain_rows(Ok(Seq::empty()))
        } else {
            plain_rows(json_rows::stream_rows(json_value::json_stream(bytes.take(lines_end(bytes))), path))
        },
        InputFormat::Json => {
            let table = document_table(bytes, path.keys, mode, origin);
            match table {
                Err(JsonErrorModel::Json(fault)) => if !complete && fault.eof {
                    plain_rows(partial_rows(bytes, path.keys))
                } else {
                    table
                },
                _ => table,
            }
        },
        _ => Err(JsonErrorModel::WrongFormat),
    }
}

fn find_repeated(entries: &Vec<ObjectEntry>) -> (r: Option<String>)
    ensures
        text::opt_view(r) == repeated_key(entry_keys(json_rows::entry_views(entries@)), entries@.len() as int),
{
    let ghost keys = entry_keys(json_rows::entry_views(entries@));
    let mut i: usize = 0;
    while i < entries.len()
        invariant
            i <= entries@.len(),
            keys == entry_keys(json_rows::entry_views(entries@)),
            repeated_key(keys, i as int) is None,
        decreases entries@.len() - i,
    {
        assert(keys[i as int] == entries@[i as int].key@);
        let mut j: usize = 0;
        while j < i
            invariant
                j <= i < entries@.len(),
                keys == entry_keys(json_rows::entry_views(entries@)),
                keys[i as int] == entries@[i as int].key@,
                repeated_key(keys, i as int) is None,
                forall|k: int| 0 <= k < j ==> keys[k] != keys[i as int],
            decreases i - j,
        {
            assert(keys[j as int] == entries@[j as int].key@);
            if same(&entries[j].key, &entries[i].key) {
                let ghost before = keys.take(i as int);
                assert(before[j as int] == keys[i as int]);
                proof {
                    lemma_repeated_stays(keys, i + 1, keys.len() as int);
                }
                return Some(entries[i].key.clone());
            }
            j = j + 1;
        }
        assert(!keys.take(i as int).contains(keys[i as int]));
        i = i + 1;
    }
    None
}

proof fn lemma_repeated_stays(keys: Seq<Seq<char>>, n: int, m: int)
    requires
        0 <= n <= m <= keys.len(),
        repeated_key(keys, n) is Some,
    ensures
        repeated_key(keys, m) == repeated_key(keys, n),
    decreases m,
{
    if n < m {
        lemma_repeated_stays(keys, n, m - 1);
    }
}

/// Refuses entries of which two have the same key.
pub fn ensure_unique_object_entries(entries: &Vec<ObjectEntry>) -> (r: Result<(), JsonError>)
    ensures
        match (r, repeated_key(entry_keys(json_rows::entry_views(entries@)), entries@.len() as int)) {
            (Ok(_), None) => true,
            (Err(e), Some(key)) => e@ == JsonErrorModel::DuplicateKey(key),
            _ => false,
        },
{
    match find_repeated(entries) {
        Some(key) => Err(JsonError::DuplicateKey(key)),
        None => Ok(()),
    }
}

/// The values at the head of an object by which it is told how to take it.
pub fn detection_sample(entries: &Vec<ObjectEntry>) -> (r: Vec<JsonValue>)
    ensures
        json_value::json_views(r@) == json_rows::entry_values(json_rows::entry_views(entries@)).take(
            json_rows::sample_size(json_rows::entry_views(entries@), 0, 0),
        ),
{
    let ghost all = json_rows::entry_views(entries@);
    let mut sampled: Vec<JsonValue> = Vec::new();
    let mut bytes: u64 = 0;
    let mut i: usize = 0;
    assert(json_value::json_views(sampled@) =~= json_rows::entry_values(all).take(0));
    while i < entries.len() && i < OBJECT_DETECTION_MAX_ENTRIES
        invariant
            i <= entries@.len(),
            i <= OBJECT_DETECTION_MAX_ENTRIES,
            all == json_rows::entry_views(entries@),
            json_value::json_views(sampled@) == json_rows::entry_values(all).take(i as int),
            json_rows::sample_size(all, 0, 0) == json_rows::sample_size(all, i as int, bytes),
        decreases entries@.len() - i,
    {
        let value = entries[i].value.clone();
        let ghost before = json_value::json_views(sampled@);
        assert(json_value::json_views(sampled@.push(value)) =~= before.push(value@));
        sampled.push(value);
        assert(json_value::json_views(sampled@) =~= json_rows::entry_values(all).take(i + 1));
        bytes = bytes.saturating_add(entries[i].encoded_len);
        i = i + 1;
        if bytes >= OBJECT_DETECTION_MAX_BYTES {
            return sampled;
        }
    }
    sampled
}

/// Whether the entries at the head of an object make it a map of entries.
pub fn detect_keyed_object(entries: &Vec<ObjectEntry>) -> (r: bool)
    ensures
        r == json_rows::entries_are_keyed(json_rows::entry_views(entries@)),
{
    values_are_keyed_object(&detection_sample(entries))
}

/// The one row of an object that is taken as a record.
pub fn flatten_object_record(entries: &Vec<ObjectEntry>) -> (r: FlatRow)
    ensures
        r@ == record_row(json_rows::entry_views(entries@)),
{
    let mut members: Vec<(String, JsonValue)> = Vec::new();
    let mut i: usize = 0;
    while i < entries.len()
        invariant
            i <= entries@.len(),
            members@.len() == i,
            forall|k: int|
                0 <= k < i ==> (#[trigger] members@[k]).0@ == entries@[k].key@ && members@[k].1@
                    == entries@[k].value@,
        decreases entries@.len() - i,
    {
        members.push((entries[i].key.clone(), entries[i].value.clone()));
        i = i + 1;
    }
    assert(json_value::member_views(members@) =~= entry_members(json_rows::entry_views(entries@)));
    proof {
        json_value::lemma_object_model(members);
    }
    flatten_row(&JsonValue::Object(members))
}

/// The rows of an object that is taken entry by entry.
pub fn project_object_entries(entries: &Vec<ObjectEntry>) -> (r: Vec<FlatRow>)
    ensures
        json_rows::flat_row_views(r@) == entry_rows(json_rows::entry_views(entries@)),
{
    let mut rows: Vec<FlatRow> = Vec::new();
    let mut i: usize = 0;
    while i < entries.len()
        invariant
            i <= entries@.len(),
            rows@.len() == i,
            forall|k: int|
                0 <= k < i ==> (#[trigger] rows@[k])@ == json_rows::keyed_row(
                    entries@[k].key@,
                    entries@[k].value@,
                    entries@[k].encoded_len,
                ),
        decreases entries@.len() - i,
    {
        rows.push(
            flatten_keyed_entry(&entries[i].key, &entries[i].value, entries[i].encoded_len),
        );
        i = i + 1;
    }
    assert(json_rows::flat_row_views(rows@) =~= entry_rows(json_rows::entry_views(entries@)));
    rows
}

/// The table that the entries of an object give.
pub fn table_from_entries(
    entries: &Vec<ObjectEntry>,
    mode: ObjectMode,
    origin: ObjectModeOrigin,
) -> (r: Result<ParsedJsonRows, JsonError>)
    ensures
        parsed_result(r) == object_table(json_rows::entry_views(entries@), mode),
{
    match ensure_unique_object_entries(entries) {
        Ok(_) => {},
        Err(e) => {
            return Err(e);
        },
    }
    let auto_entries = mode == ObjectMode::Auto && detect_keyed_object(entries);
    match resolve_selected_shape(SelectedValueShape::Object, mode, origin, auto_entries) {
        Err(e) => Err(JsonError::Options(e)),
        Ok(shape) => {
            let rows = match shape.table_shape {
                Some(SelectedTableShape::ObjectEntries) => project_object_entries(entries),
                _ => {
                    let mut rows: Vec<FlatRow> = Vec::new();
                    rows.push(flatten_object_record(entries));
                    assert(json_rows::flat_row_views(rows@) =~= seq![record_row(json_rows::entry_views(entries@))]);
                    rows
                },
            };
            let warnings: Vec<String> = Vec::new();
            assert(text::views(warnings@) =~= Seq::<Seq<char>>::empty());
            Ok(ParsedJsonRows { rows, object_mode: shape.object_mode, warnings })
        },
    }
}

/// The table of the value that begins at `at`.
pub fn table_at(
    bytes: &[u8],
    at: usize,
    mode: ObjectMode,
    origin: ObjectModeOrigin,
) -> (r: Result<ParsedJsonRows, JsonError>)
    requires
        at < bytes@.len(),
    ensures
        parsed_result(r) == value_table(bytes@, at as int, mode, origin),
{
    if bytes[at] == 0x7b {
        return match read_entries(bytes, at + 1) {
            Err(e) => Err(e),
            Ok(entries) => table_from_entries(&entries, mode, origin),
        };
    }
    if bytes[at] == 0x5b {
        return match resolve_selected_shape(SelectedValueShape::Array, mode, origin, false) {
            Err(e) => Err(JsonError::Options(e)),
            Ok(shape) => match read_array_rows(bytes, at + 1) {
                Err(e) => Err(e),
                Ok(rows) => {
                    let mut warnings: Vec<String> = Vec::new();
                    assert(text::views(warnings@) =~= Seq::<Seq<char>>::empty());
                    if let Some(warning) = shape.warning {
                        warnings.push(warning);
                        assert(text::views(warnings@) =~= seq![warning@]);
                    }
                    Ok(ParsedJsonRows { rows, object_mode: None, warnings })
                },
            },
        };
    }
    match resolve_selected_shape(SelectedValueShape::Scalar, mode, origin, false) {
        Err(e) => Err(JsonError::Options(e)),
        Ok(shape) => Err(JsonError::NotTabular(shape.warning)),
    }
}

/// The table of the value that a path selects in one JSON text.
pub fn parse_json_rows_with_options(
    bytes: &[u8],
    pointer: &Option<JsonPointer>,
    options: &OpenOptions,
) -> (r: Result<ParsedJsonRows, JsonError>)
    ensures
        parsed_result(r) == document_table(
            bytes@,
            json_scan::keys_of(*pointer),
            options.object_mode,
            options.object_mode_origin,
        ),
{
    match parse_json(bytes) {
        Err(e) => Err(JsonError::Json(e)),
        Ok(_) => match locate_json_pointer(bytes, pointer) {
            Err(e) => Err(e),
            Ok(at) => table_at(bytes, at, options.object_mode, options.object_mode_origin),
        },
    }
}

fn read_complete_rows(bytes: &[u8], at: usize) -> (r: Result<Vec<FlatRow>, JsonError>)
    requires
        at <= bytes@.len(),
    ensures
        json_rows::rows_result(r) == complete_rows(bytes@, at as int),
{
    let mut rows: Vec<FlatRow> = Vec::new();
    let mut here: usize = at;
    assert(complete_rows(bytes@, at as int) == json_rows::prepend(
        json_rows::flat_row_views(rows@),
        complete_rows(bytes@, here as int),
    )) by {
        if let Ok(all) = complete_rows(bytes@, at as int) {
            assert(json_rows::flat_row_views(rows@) + all =~= all);
        }
    }
    loop
        invariant
            here <= bytes@.len(),
            complete_rows(bytes@, at as int) == json_rows::prepend(
                json_rows::flat_row_views(rows@),
                complete_rows(bytes@, here as int),
            ),
        decreases bytes@.len() - here,
    {
        let ghost before = json_rows::flat_row_views(rows@);
        proof {
            json_rows::lemma_item_step(bytes@, here as int);
            assert(before + Seq::<FlatRowModel>::empty() =~= before);
        }
        let start: usize = match skip_whitespace(bytes, here) {
            Some(n) => n,
            None => {
                return Ok(rows);
            },
        };
        if bytes[start] == 0x5d {
            return Ok(rows);
        }
        let (from, end) = match skip_json_value(bytes, start) {
            Ok(range) => range,
            Err(_) => {
                return Ok(rows);
            },
        };
        let (next, last) = match read_non_whitespace(bytes, end) {
            Some((0x2c, next)) => (next, false),
            Some((0x5d, next)) => (next, true),
            _ => {
                return Ok(rows);
            },
        };
        let value = match parse_json(slice_subrange(bytes, from, end)) {
            Ok(value) => value,
            Err(e) => {
                return Err(JsonError::Json(e));
            },
        };
        let row = flatten_row(&value);
        assert(json_rows::flat_row_views(rows@.push(row)) =~= before + seq![row@]);
        rows.push(row);
        if last {
            return Ok(rows);
        }
        proof {
            if let Ok(rest) = complete_rows(bytes@, next as int) {
                assert(before + (seq![row@] + rest) =~= (before + seq![row@]) + rest);
            }
        }
        here = next;
    }
}

/// The rows that a text which breaks off has so far.
pub fn parse_partial_json_rows(bytes: &[u8], pointer: &Option<JsonPointer>) -> (r: Result<
    Vec<FlatRow>,
    JsonError,
>)
    ensures
        json_rows::rows_result(r) == partial_rows(bytes@, json_scan::keys_of(*pointer)),
{
    let none: Vec<FlatRow> = Vec::new();
    assert(json_rows::flat_row_views(none@) =~= Seq::<FlatRowModel>::empty());
    match locate_json_pointer(bytes, pointer) {
        Err(_) => Ok(none),
        Ok(at) => if bytes[at] == 0x5b {
            read_complete_rows(bytes, at + 1)
        } else {
            Ok(none)
        },
    }
}

fn find_lines_end(bytes: &[u8]) -> (r: usize)
    ensures
        r == lines_end(bytes@),
        r <= bytes@.len(),
{
    let mut n: usize = bytes.len();
    assert(bytes@.take(n as int) =~= bytes@);
    while n > 0
        invariant
            n <= bytes@.len(),
            lines_end(bytes@) == lines_end(bytes@.take(n as int)),
        decreases n,
    {
        assert(bytes@.take(n as int).last() == bytes@[n - 1]);
        if bytes[n - 1] == 0x0a {
            return n;
        }
        assert(bytes@.take(n as int).drop_last() =~= bytes@.take(n - 1));
        n = n - 1;
    }
    0
}

fn plain_parse(rows: Result<Vec<FlatRow>, JsonError>) -> (r: Result<ParsedJsonRows, JsonError>)
    ensures
        parsed_result(r) == plain_rows(json_rows::rows_result(rows)),
{
    match rows {
        Err(e) => Err(e),
        Ok(rows) => {
            let warnings: Vec<String> = Vec::new();
            assert(text::views(warnings@) =~= Seq::<Seq<char>>::empty());
            Ok(ParsedJsonRows { rows, object_mode: None, warnings })
        },
    }
}

/// The table of what has arrived of a source.
pub fn parse_available_json_rows(
    bytes: &[u8],
    complete: bool,
    format: InputFormat,
    pointer: &Option<JsonPointer>,
    options: &OpenOptions,
) -> (r: Result<ParsedJsonRows, JsonError>)
    ensures
        parsed_result(r) == available_table(
            bytes@,
            complete,
            format,
            json_rows::path_model(*pointer),
            options.object_mode,
            options.object_mode_origin,
        ),
{
    match format {
        InputFormat::Ndjson => {
            if complete {
                return plain_parse(parse_ndjson_rows(bytes, pointer));
            }
            let end: usize = find_lines_end(bytes);
            if end == 0 {
                let none: Vec<FlatRow> = Vec::new();
                assert(json_rows::flat_row_views(none@) =~= Seq::<FlatRowModel>::empty());
                return plain_parse(Ok(none));
            }
            assert(bytes@.subrange(0, end as int) =~= bytes@.take(end as int));
            plain_parse(parse_ndjson_rows(slice_subrange(bytes, 0, end), pointer))
        },
        InputFormat::Json => {
            match parse_json_rows_with_options(bytes, pointer, options) {
                Ok(parsed) => Ok(parsed),
                Err(JsonError::Json(fault)) => if !complete && fault.eof {
                    plain_parse(parse_partial_json_rows(bytes, pointer))
                } else {
                    Err(JsonError::Json(fault))
                },
                Err(e) => Err(e),
            }
        },
        _ => Err(JsonError::WrongFormat),
    }
}

/// A key is repeated exactly where two entries have it, and it is the first that comes a
/// second time.
pub proof fn repeated_keys_come_twice(keys: Seq<Seq<char>>, n: int, i: int)
    requires
        0 <= n <= keys.len(),
        0 <= i < n,
    ensures
        repeated_key(keys, n) is None ==> !keys.take(i).contains(keys[i]),
        keys.take(i).contains(keys[i]) && repeated_key(keys, i) is None ==> repeated_key(keys, n)
            == Some(keys[i]),
        repeated_key(keys, i) is Some ==> repeated_key(keys, n) == repeated_key(keys, i),
    decreases n,
{
    if i < n - 1 {
        repeated_keys_come_twice(keys, n - 1, i);
    }
}

/// An object whose keys are told apart is one row as a record and a row for each entry as
/// entries, as it is asked for or looks; a repeated key is refused.
pub proof fn objects_are_read_in_their_mode(entries: Seq<EntryModel>, i: int)
    requires
        repeated_key(entry_keys(entries), entries.len() as int) is None,
        0 <= i < entries.len(),
    ensures
        ({
            let record = object_table(entries, ObjectMode::Record);
            &&& record is Ok
            &&& record->Ok_0.rows.len() == 1
            &&& record->Ok_0.rows[0].cells == json_rows::flat_members(
                entry_members(entries),
                entries.len() as int,
                Seq::empty(),
            )
            &&& record->Ok_0.object_mode->0.resolved is Record
            &&& record->Ok_0.warnings.len() == 0
        }),
        ({
            let rows = object_table(entries, ObjectMode::Entries);
            &&& rows is Ok
            &&& rows->Ok_0.rows.len() == entries.len()
            &&& rows->Ok_0.rows[i] == json_rows::keyed_row(
                entries[i].key,
                entries[i].value,
                entries[i].encoded_len,
            )
            &&& rows->Ok_0.object_mode->0.resolved is Entries
            &&& rows->Ok_0.warnings.len() == 0
        }),
        ({
            let auto = object_table(entries, ObjectMode::Auto);
            &&& auto is Ok
            &&& auto->Ok_0.object_mode->0.requested is Auto
            &&& auto->Ok_0.rows == if json_rows::entries_are_keyed(entries) {
                object_table(entries, ObjectMode::Entries)->Ok_0.rows
            } else {
                object_table(entries, ObjectMode::Record)->Ok_0.rows
            }
        }),
{
}

/// An object with a repeated key is refused in every mode.
pub proof fn repeated_keys_are_refused(entries: Seq<EntryModel>, mode: ObjectMode, key: Seq<char>)
    requires
        repeated_key(entry_keys(entries), entries.len() as int) == Some(key),
    ensures
        object_table(entries, mode) == Err::<ParsedModel, JsonErrorModel>(
            JsonErrorModel::DuplicateKey(key),
        ),
{
}

/// What begins with a brace is read as an object and what begins with a bracket as rows;
/// anything else is no table, and a mode is refused for both unless a view asked for it.
pub proof fn values_are_read_by_their_beginning(
    bytes: Seq<u8>,
    at: int,
    mode: ObjectMode,
    origin: ObjectModeOrigin,
)
    requires
        0 <= at < bytes.len(),
    ensures
        bytes[at] == '{' as u8 && json_rows::object_entries(bytes, at + 1) is Ok ==> value_table(
            bytes,
            at,
            mode,
            origin,
        ) == object_table(json_rows::object_entries(bytes, at + 1)->Ok_0, mode),
        bytes[at] == '[' as u8 && mode is Auto && json_rows::array_rows(bytes, at + 1) is Ok ==> {
            let table = value_table(bytes, at, mode, origin);
            &&& table is Ok
            &&& table->Ok_0.rows == json_rows::array_rows(bytes, at + 1)->Ok_0
            &&& table->Ok_0.warnings.len() == 0
            &&& table->Ok_0.object_mode is None
        },
        bytes[at] == '[' as u8 && mode !is Auto && origin is SavedView && json_rows::array_rows(
            bytes,
            at + 1,
        ) is Ok ==> value_table(bytes, at, mode, origin) is Ok && value_table(
            bytes,
            at,
            mode,
            origin,
        )->Ok_0.warnings.len() == 1,
        bytes[at] != '{' as u8 && mode !is Auto && origin !is SavedView ==> value_table(
            bytes,
            at,
            mode,
            origin,
        ) == Err::<ParsedModel, JsonErrorModel>(
            JsonErrorModel::Options(SourceOptionErrorModel::ObjectModeRequiresObject { mode }),
        ),
        bytes[at] != '{' as u8 && bytes[at] != '[' as u8 && mode is Auto ==> value_table(
            bytes,
            at,
            mode,
            origin,
        ) == Err::<ParsedModel, JsonErrorModel>(JsonErrorModel::NotTabular(None)),
{
}

/// Whole lines reach to behind the last line feed.
pub proof fn whole_lines_end_at_a_line_feed(a: Seq<u8>, b: Seq<u8>)
    requires
        forall|i: int| 0 <= i < b.len() ==> #[trigger] b[i] != '\n' as u8,
    ensures
        lines_end(a.push('\n' as u8) + b) == a.len() + 1,
        lines_end(b) == 0,
    decreases b.len(),
{
    let whole = a.push('\n' as u8) + b;
    if b.len() == 0 {
        assert(whole =~= a.push('\n' as u8));
    } else {
        let front = b.drop_last();
        assert forall|i: int| 0 <= i < front.len() implies #[trigger] front[i] != '\n' as u8 by {
            assert(b[i] != '\n' as u8);
        }
        whole_lines_end_at_a_line_feed(a, front);
        assert(whole.drop_last() =~= a.push('\n' as u8) + front);
        assert(b[b.len() - 1] != '\n' as u8);
        assert(whole.last() == b.last());
    }
}

/// Of an input that is still coming only whole lines are read, and of a document that
/// breaks off the rows that are whole; once all has come, a fault is told.
pub proof fn coming_inputs_are_read_as_far_as_they_are_whole(
    bytes: Seq<u8>,
    path: PathModel,
    mode: ObjectMode,
    origin: ObjectModeOrigin,
)
    ensures
        lines_end(bytes) == 0 ==> available_table(
            bytes,
            false,
            InputFormat::Ndjson,
            path,
            mode,
            origin,
        ) == plain_rows(Ok(Seq::empty())),
        lines_end(bytes) > 0 ==> available_table(
            bytes,
            false,
            InputFormat::Ndjson,
            path,
            mode,
            origin,
        ) == available_table(
            bytes.take(lines_end(bytes)),
            true,
            InputFormat::Ndjson,
            path,
            mode,
            origin,
        ),
        document_table(bytes, path.keys, mode, origin) is Ok ==> available_table(
            bytes,
            false,
            InputFormat::Json,
            path,
            mode,
            origin,
        ) == document_table(bytes, path.keys, mode, origin),
        available_table(bytes, true, InputFormat::Json, path, mode, origin) == document_table(
            bytes,
            path.keys,
            mode,
            origin,
        ),
        json_value::json_read(bytes) matches Err(fault) ==> (fault.eof ==> available_table(
            bytes,
            false,
            InputFormat::Json,
            path,
            mode,
            origin,
        ) == plain_rows(partial_rows(bytes, path.keys))),
        json_value::json_read(bytes) matches Err(fault) ==> (!fault.eof ==> available_table(
            bytes,
            false,
            InputFormat::Json,
            path,
            mode,
            origin,
        ) is Err),
        available_table(bytes, true, InputFormat::Delimited, path, mode, origin) is Err,
{
}

} // verus!
