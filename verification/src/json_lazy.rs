//! Tables over large JSON files, of which only positions are kept.
//!
//! A file is handed in as its bytes with a hash of samples of it. A table takes
//! nothing from a file that is no longer the one it was opened on.

use vstd::prelude::*;
use vstd::slice::*;

use crate::adapter::OpenedTable;
use crate::json_rows::{
    self, FlatRow, FlatRowModel, OBJECT_DETECTION_MAX_BYTES, OBJECT_DETECTION_MAX_ENTRIES,
    PathModel, flatten_document, flatten_keyed_entry, flatten_row, resolve_pointer,
    values_are_keyed_object,
};
use crate::json_scan::{
    self, JsonError, JsonErrorModel, expect_json_byte, locate_json_pointer, read_json_string,
    read_non_whitespace, skip_json_value, skip_whitespace,
};
use crate::json_schema::{self, JsonSchema, SchemaModel, SchemaStep, typed_row_from_flat};
use crate::json_select;
use crate::json_table::{self, JsonTableStore, open_json_rows_with_metadata};
use crate::json_value::{self, Json, JsonValue, parse_first_json, parse_json, parse_next_json};
use crate::options::{
    self, JsonPointer, ObjectMode, ObjectModeResolution, OpenOptions, ResolvedObjectMode,
    SchemaScan, SelectedTableShape, SelectedValueShape, SourceOptionErrorModel,
    resolve_selected_shape,
};
use crate::table::{
    self, ColumnModel, DeltaModel, IndexProgress, RelationMetadata, Row, RowCount, RowId,
    SchemaDelta, SchemaState, SourceGeneration, TableDefinition, clone_columns,
};
use crate::text::{self, same};

verus! {

/// What a file is known again by: its length and a hash of samples of it.
#[derive(Debug, Clone, Copy, PartialEq, Eq, Structural)]
pub struct JsonSourceFingerprint {
    pub len: usize,
    pub sample_hash: u64,
}

/// Whether the bytes are those of the file that is known by a fingerprint.
pub open spec fn same_source(known: JsonSourceFingerprint, bytes: Seq<u8>, sample_hash: u64) -> bool {
    known.len == bytes.len() && known.sample_hash == sample_hash
}

/// The fingerprint of a file with the given bytes.
pub fn json_source_fingerprint(bytes: &[u8], sample_hash: u64) -> (r: JsonSourceFingerprint)
    ensures
        same_source(r, bytes@, sample_hash),
{
    JsonSourceFingerprint { len: bytes.len(), sample_hash }
}

fn is_same_source(known: JsonSourceFingerprint, bytes: &[u8], sample_hash: u64) -> (r: bool)
    ensures
        r == same_source(known, bytes@, sample_hash),
{
    known.len == bytes.len() && known.sample_hash == sample_hash
}

// ---------------------------------------------------------------------------
// Objects
// ---------------------------------------------------------------------------

/// Where an entry of an object stands.
#[derive(Debug, PartialEq, Eq)]
pub struct KeyedObjectOffset {
    pub key: String,
    pub value_start: usize,
    pub value_end: usize,
    pub source_bytes: u64,
}

/// The model of the place of an entry.
pub struct OffsetModel {
    pub key: Seq<char>,
    pub value_start: int,
    pub value_end: int,
    pub source_bytes: u64,
}

impl View for KeyedObjectOffset {
    type V = OffsetModel;

    open spec fn view(&self) -> OffsetModel {
        OffsetModel {
            key: self.key@,
            value_start: self.value_start as int,
            value_end: self.value_end as int,
            source_bytes: self.source_bytes,
        }
    }
}

/// The models of the places of entries.
pub open spec fn offset_views(v: Seq<KeyedObjectOffset>) -> Seq<OffsetModel> {
    Seq::new(v.len(), |i: int| v[i]@)
}

/// The keys of entries.
pub open spec fn offset_keys(v: Seq<OffsetModel>) -> Seq<Seq<char>> {
    Seq::new(v.len(), |i: int| v[i].key)
}

/// What comes next in an object.
pub enum EntryStep {
    Fail(JsonErrorModel),
    End(int),
    Entry { place: OffsetModel, value: Json, next: int, last: bool },
}

/// What comes next in an object, read from `at`. An entry is refused where its
/// key came before, and where its value cannot be read.
pub open spec fn next_entry(bytes: Seq<u8>, at: int, seen: Seq<Seq<char>>) -> EntryStep {
    let start = json_scan::solid(bytes, at);
    if start >= bytes.len() {
        EntryStep::Fail(JsonErrorModel::UnterminatedSelectedObject)
    } else if bytes[start] == 0x7d {
        EntryStep::End(start + 1)
    } else {
        match json_scan::key_at(bytes, start) {
            Err(e) => EntryStep::Fail(e),
            Ok((key, key_end)) => if seen.contains(key) {
                EntryStep::Fail(JsonErrorModel::DuplicateKey(key))
            } else {
                match json_scan::next_byte(bytes, key_end) {
                    Some((0x3a, colon)) => match json_scan::value_range(bytes, colon) {
                        Err(e) => EntryStep::Fail(e),
                        Ok((value_start, value_end)) => match json_value::json_first(bytes.skip(value_start)) {
                            Err(e) => EntryStep::Fail(JsonErrorModel::Json(e)),
                            Ok(value) => {
                                let place = OffsetModel {
                                    key,
                                    value_start,
                                    value_end,
                                    source_bytes: (value_end - start) as u64,
                                };
                                match json_scan::next_byte(bytes, value_end) {
                                    Some((0x2c, next)) => EntryStep::Entry {
                                        place,
                                        value,
                                        next,
                                        last: false,
                                    },
                                    Some((0x7d, next)) => EntryStep::Entry {
                                        place,
                                        value,
                                        next,
                                        last: true,
                                    },
                                    _ => EntryStep::Fail(JsonErrorModel::SelectedObjectSeparator),
                                }
                            },
                        },
                    },
                    _ => EntryStep::Fail(JsonErrorModel::Syntax),
                }
            },
        }
    }
}

/// Steps through an object go forward, stay within the bytes, and give each key
/// once.
pub proof fn lemma_next_entry(bytes: Seq<u8>, at: int, seen: Seq<Seq<char>>)
    requires
        0 <= at <= bytes.len(),
    ensures
        next_entry(bytes, at, seen) matches EntryStep::End(next) ==> at < next <= bytes.len(),
        next_entry(bytes, at, seen) matches EntryStep::Entry { place, next, .. } ==> {
            &&& at < place.value_start < place.value_end < next <= bytes.len()
            &&& !seen.contains(place.key)
        },
{
    json_scan::lemma_solid(bytes, at);
    let start = json_scan::solid(bytes, at);
    if start < bytes.len() {
        json_scan::lemma_key_at(bytes, start);
        if let Ok((_, key_end)) = json_scan::key_at(bytes, start) {
            json_scan::lemma_next_byte(bytes, key_end);
            if let Some((_, colon)) = json_scan::next_byte(bytes, key_end) {
                json_scan::lemma_value_range(bytes, colon);
                if let Ok((_, end)) = json_scan::value_range(bytes, colon) {
                    json_scan::lemma_next_byte(bytes, end);
                }
            }
        }
    }
}

/// A table over the entries of a large object.
#[derive(Debug, PartialEq)]
pub struct LazyJsonObjectTable {
    pub generation: SourceGeneration,
    pub entries: Vec<KeyedObjectOffset>,
    pub schema: JsonSchema,
    pub scan_offset: usize,
    pub bytes_scanned: u64,
    pub eof: bool,
    pub fingerprint: JsonSourceFingerprint,
}

/// The model of a table over an object.
pub struct LazyObjectModel {
    pub entries: Seq<OffsetModel>,
    pub schema: SchemaModel,
    pub scan_offset: int,
    pub bytes_scanned: u64,
    pub eof: bool,
}

impl LazyObjectModel {
    /// The places of the entries are within a file of the given length, and no
    /// two have the same key.
    pub open spec fn well_formed(self, len: int) -> bool {
        &&& self.schema.well_formed()
        &&& 0 <= self.scan_offset <= len
        &&& offset_keys(self.entries).no_duplicates()
        &&& forall|i: int|
            0 <= i < self.entries.len() ==> 0 <= (#[trigger] self.entries[i]).value_start
                < self.entries[i].value_end <= len
    }
}

/// A table over an object, what was learnt, and what came of the last step.
pub struct ObjectStep {
    pub table: LazyObjectModel,
    pub delta: DeltaModel,
    pub found: Result<Option<Json>, JsonErrorModel>,
}

/// Reads one entry further. Nothing changes where it is refused.
pub open spec fn object_advanced(
    table: LazyObjectModel,
    delta: DeltaModel,
    bytes: Seq<u8>,
) -> ObjectStep {
    match next_entry(bytes, table.scan_offset, offset_keys(table.entries)) {
        EntryStep::Fail(e) => ObjectStep { table, delta, found: Err(e) },
        EntryStep::End(next) => ObjectStep {
            table: LazyObjectModel { scan_offset: next, eof: true, ..table },
            delta: DeltaModel { completed: true, ..delta },
            found: Ok(None),
        },
        EntryStep::Entry { place, value, next, last } => {
            let row = json_rows::keyed_row(place.key, value, place.source_bytes);
            let step = json_schema::row_observed(SchemaStep { schema: table.schema, delta }, row);
            ObjectStep {
                table: LazyObjectModel {
                    entries: table.entries.push(place),
                    schema: step.schema,
                    scan_offset: next,
                    bytes_scanned: table.bytes_scanned.saturating_add(place.source_bytes),
                    eof: last,
                },
                delta: DeltaModel { completed: step.delta.completed || last, ..step.delta },
                found: Ok(Some(value)),
            }
        },
    }
}

/// Whether more entries are wanted: the target is not there yet, and the limit of
/// bytes is not reached.
pub open spec fn wants_more(
    eof: bool,
    rows: nat,
    scanned: u64,
    target: Option<usize>,
    limit: Option<u64>,
) -> bool {
    &&& !eof
    &&& target matches Some(n) ==> rows <= n
    &&& limit matches Some(n) ==> scanned < n
}

/// Reads entries for as long as more are wanted, or up to the first that is refused.
pub open spec fn object_indexed(
    table: LazyObjectModel,
    delta: DeltaModel,
    bytes: Seq<u8>,
    target: Option<usize>,
    limit: Option<u64>,
) -> (LazyObjectModel, DeltaModel, Option<JsonErrorModel>)
    decreases bytes.len() - table.scan_offset,
    when 0 <= table.scan_offset <= bytes.len()
{
    if !wants_more(table.eof, table.entries.len(), table.bytes_scanned, target, limit) {
        (table, delta, None)
    } else {
        proof {
            lemma_next_entry(bytes, table.scan_offset, offset_keys(table.entries));
        }
        let step = object_advanced(table, delta, bytes);
        match step.found {
            Err(e) => (table, delta, Some(e)),
            Ok(_) => object_indexed(step.table, step.delta, bytes, target, limit),
        }
    }
}

impl View for LazyJsonObjectTable {
    type V = LazyObjectModel;

    open spec fn view(&self) -> LazyObjectModel {
        LazyObjectModel {
            entries: offset_views(self.entries@),
            schema: self.schema@,
            scan_offset: self.scan_offset as int,
            bytes_scanned: self.bytes_scanned,
            eof: self.eof,
        }
    }
}

fn wants(eof: bool, rows: usize, scanned: u64, target: Option<usize>, limit: Option<u64>) -> (r: bool)
    ensures
        r == wants_more(eof, rows as nat, scanned, target, limit),
{
    let short = match target {
        Some(n) => rows <= n,
        None => true,
    };
    let within = match limit {
        Some(n) => scanned < n,
        None => true,
    };
    !eof && short && within
}

/// The number of rows that an index says of its source.
pub open spec fn indexed_count(eof: bool, rows: nat) -> RowCount {
    if eof {
        RowCount::Exact(rows as usize)
    } else if rows == 0 {
        RowCount::Unknown
    } else {
        RowCount::AtLeast(rows as usize)
    }
}

fn count_rows(eof: bool, rows: usize) -> (r: RowCount)
    ensures
        r == indexed_count(eof, rows as nat),
{
    if eof {
        RowCount::Exact(rows)
    } else if rows == 0 {
        RowCount::Unknown
    } else {
        RowCount::AtLeast(rows)
    }
}

impl LazyJsonObjectTable {
    /// The table is as its fingerprint says.
    pub open spec fn well_formed(self) -> bool {
        self@.well_formed(self.fingerprint.len as int)
    }

    /// A table over the object whose opening brace stands at `at`.
    pub fn new(bytes: &[u8], at: usize, sample_hash: u64, generation: SourceGeneration) -> (r:
        LazyJsonObjectTable)
        requires
            at < bytes@.len(),
        ensures
            r.well_formed(),
            r.generation == generation,
            same_source(r.fingerprint, bytes@, sample_hash),
            r@ == (LazyObjectModel {
                entries: Seq::empty(),
                schema: SchemaModel::blank(generation),
                scan_offset: at + 1,
                bytes_scanned: 0,
                eof: false,
            }),
    {
        let len: usize = bytes.len();
        assert(at < len);
        let r = LazyJsonObjectTable {
            generation,
            entries: Vec::new(),
            schema: JsonSchema::new(generation),
            scan_offset: at + 1,
            bytes_scanned: 0,
            eof: false,
            fingerprint: json_source_fingerprint(bytes, sample_hash),
        };
        assert(offset_views(r.entries@) =~= Seq::<OffsetModel>::empty());
        r
    }

    fn has_key(&self, key: &str) -> (r: bool)
        ensures
            r == offset_keys(self@.entries).contains(key@),
    {
        let ghost keys = offset_keys(self@.entries);
        let mut i: usize = 0;
        while i < self.entries.len()
            invariant
                i <= self.entries@.len(),
                keys == offset_keys(self@.entries),
                forall|k: int| 0 <= k < i ==> keys[k] != key@,
            decreases self.entries@.len() - i,
        {
            assert(keys[i as int] == self.entries@[i as int].key@);
            if same(&self.entries[i].key, key) {
                return true;
            }
            i = i + 1;
        }
        false
    }

    /// Reads one entry further.
    pub fn index_next(&mut self, bytes: &[u8], sample_hash: u64, delta: &mut SchemaDelta) -> (r:
        Result<Option<JsonValue>, JsonError>)
        requires
            old(self).well_formed(),
        ensures
            final(self).well_formed(),
            final(self).generation == old(self).generation,
            final(self).fingerprint == old(self).fingerprint,
            old(self).eof ==> r == Ok::<Option<JsonValue>, JsonError>(None) && final(self)@
                == old(self)@ && final(delta)@ == old(delta)@,
            !old(self).eof && !same_source(old(self).fingerprint, bytes@, sample_hash) ==> r
                == Err::<Option<JsonValue>, JsonError>(JsonError::SourceChanged) && final(self)@
                == old(self)@ && final(delta)@ == old(delta)@,
            !old(self).eof && same_source(old(self).fingerprint, bytes@, sample_hash) ==> {
                let step = object_advanced(old(self)@, old(delta)@, bytes@);
                &&& final(self)@ == step.table
                &&& final(delta)@ == step.delta
                &&& match (r, step.found) {
                    (Ok(Some(v)), Ok(Some(m))) => v@ == m,
                    (Ok(None), Ok(None)) => true,
                    (Err(e), Err(m)) => e@ == m,
                    _ => false,
                }
            },
    {
        if self.eof {
            return Ok(None);
        }
        if !is_same_source(self.fingerprint, bytes, sample_hash) {
            return Err(JsonError::SourceChanged);
        }
        proof {
            lemma_next_entry(bytes@, self.scan_offset as int, offset_keys(self@.entries));
        }
        let start: usize = match skip_whitespace(bytes, self.scan_offset) {
            Some(n) => n,
            None => {
                return Err(JsonError::UnterminatedSelectedObject);
            },
        };
        if bytes[start] == 0x7d {
            self.scan_offset = start + 1;
            self.eof = true;
            delta.completed = true;
            return Ok(None);
        }
        let (key, key_end) = match read_json_string(bytes, start) {
            Ok(found) => found,
            Err(e) => {
                return Err(e);
            },
        };
        if self.has_key(&key) {
            return Err(JsonError::DuplicateKey(key));
        }
        let colon: usize = match expect_json_byte(bytes, key_end, 0x3a) {
            Ok(n) => n,
            Err(e) => {
                return Err(e);
            },
        };
        let (value_start, value_end) = match skip_json_value(bytes, colon) {
            Ok(range) => range,
            Err(e) => {
                return Err(e);
            },
        };
        assert(bytes@.subrange(value_start as int, bytes@.len() as int) =~= bytes@.skip(
            value_start as int,
        ));
        let value = match parse_first_json(slice_subrange(bytes, value_start, bytes.len())) {
            Ok(value) => value,
            Err(e) => {
                return Err(JsonError::Json(e));
            },
        };
        let (next, last) = match read_non_whitespace(bytes, value_end) {
            Some((0x2c, next)) => (next, false),
            Some((0x7d, next)) => (next, true),
            _ => {
                return Err(JsonError::SelectedObjectSeparator);
            },
        };
        let source_bytes: u64 = (value_end - start) as u64;
        let flat = flatten_keyed_entry(&key, &value, source_bytes);
        self.schema.observe_into(&flat, delta);
        if last {
            delta.completed = true;
        }
        let place = KeyedObjectOffset { key, value_start, value_end, source_bytes };
        let ghost before = offset_views(self.entries@);
        assert(offset_views(self.entries@.push(place)) =~= before.push(place@));
        assert(offset_keys(before.push(place@)) =~= offset_keys(before).push(place@.key));
        self.entries.push(place);
        self.scan_offset = next;
        self.bytes_scanned = self.bytes_scanned.saturating_add(source_bytes);
        self.eof = last;
        Ok(Some(value))
    }

    /// Reads entries until the one at `target` is there, the limit of bytes is
    /// reached, or the object ends.
    pub fn index_until(
        &mut self,
        bytes: &[u8],
        sample_hash: u64,
        target: Option<usize>,
        byte_limit: Option<u64>,
    ) -> (r: Result<SchemaDelta, JsonError>)
        requires
            old(self).well_formed(),
        ensures
            final(self).well_formed(),
            final(self).generation == old(self).generation,
            final(self).fingerprint == old(self).fingerprint,
            ({
                let wanted = wants_more(
                    old(self).eof,
                    old(self).entries@.len(),
                    old(self).bytes_scanned,
                    target,
                    byte_limit,
                );
                let known = same_source(old(self).fingerprint, bytes@, sample_hash);
                &&& !wanted ==> final(self)@ == old(self)@ && (r matches Ok(delta) && delta@
                    == DeltaModel::nothing())
                &&& wanted && !known ==> final(self)@ == old(self)@ && (r matches Err(e) && e@
                    == JsonErrorModel::SourceChanged)
                &&& wanted && known ==> {
                    let (table, delta, fault) = object_indexed(
                        old(self)@,
                        DeltaModel::nothing(),
                        bytes@,
                        target,
                        byte_limit,
                    );
                    &&& final(self)@ == table
                    &&& match (r, fault) {
                        (Ok(d), None) => d@ == delta,
                        (Err(e), Some(m)) => e@ == m,
                        _ => false,
                    }
                }
            }),
    {
        let mut delta = SchemaDelta::default();
        let ghost begin = self@;
        let ghost known = same_source(self.fingerprint, bytes@, sample_hash);
        while wants(self.eof, self.entries.len(), self.bytes_scanned, target, byte_limit)
            invariant
                self.well_formed(),
                begin == old(self)@,
                self.generation == old(self).generation,
                self.fingerprint == old(self).fingerprint,
                known == same_source(self.fingerprint, bytes@, sample_hash),
                !known ==> self@ == begin && delta@ == DeltaModel::nothing(),
                !wants_more(begin.eof, begin.entries.len(), begin.bytes_scanned, target, byte_limit)
                    ==> self@ == begin && delta@ == DeltaModel::nothing(),
                known ==> object_indexed(begin, DeltaModel::nothing(), bytes@, target, byte_limit)
                    == object_indexed(self@, delta@, bytes@, target, byte_limit),
            decreases self.fingerprint.len - self.scan_offset,
        {
            proof {
                if known {
                    lemma_next_entry(bytes@, self.scan_offset as int, offset_keys(self@.entries));
                }
            }
            match self.index_next(bytes, sample_hash, &mut delta) {
                Ok(_) => {},
                Err(e) => {
                    return Err(e);
                },
            }
        }
        Ok(delta)
    }

    /// The values at the head of the object by which it is told how to take it.
    pub fn index_detection_sample(&mut self, bytes: &[u8], sample_hash: u64) -> (r: Result<
        Vec<JsonValue>,
        JsonError,
    >)
        requires
            old(self).well_formed(),
            same_source(old(self).fingerprint, bytes@, sample_hash),
        ensures
            final(self).well_formed(),
            final(self).generation == old(self).generation,
            final(self).fingerprint == old(self).fingerprint,
            ({
                let (table, values, fault) = sampled(old(self)@, Seq::empty(), bytes@);
                &&& final(self)@ == table
                &&& match (r, fault) {
                    (Ok(v), None) => json_value::json_views(v@) == values,
                    (Err(e), Some(m)) => e@ == m,
                    _ => false,
                }
            }),
    {
        let mut values: Vec<JsonValue> = Vec::new();
        let ghost begin = self@;
        assert(json_value::json_views(values@) =~= Seq::<Json>::empty());
        while values.len() < OBJECT_DETECTION_MAX_ENTRIES && self.bytes_scanned
            < OBJECT_DETECTION_MAX_BYTES && !self.eof
            invariant
                self.well_formed(),
                self.generation == old(self).generation,
                self.fingerprint == old(self).fingerprint,
                same_source(self.fingerprint, bytes@, sample_hash),
                begin == old(self)@,
                sampled(begin, Seq::empty(), bytes@) == sampled(
                    self@,
                    json_value::json_views(values@),
                    bytes@,
                ),
            decreases self.fingerprint.len - self.scan_offset,
        {
            proof {
                lemma_next_entry(bytes@, self.scan_offset as int, offset_keys(self@.entries));
            }
            let mut delta = SchemaDelta::default();
            match self.index_next(bytes, sample_hash, &mut delta) {
                Ok(Some(value)) => {
                    assert(json_value::json_views(values@.push(value)) =~= json_value::json_views(values@).push(value@));
                    values.push(value);
                },
                Ok(None) => {},
                Err(e) => {
                    return Err(e);
                },
            }
        }
        Ok(values)
    }

    fn read_value(&self, bytes: &[u8], sample_hash: u64, index: usize) -> (r: Result<
        JsonValue,
        JsonError,
    >)
        requires
            self.well_formed(),
            index < self.entries@.len(),
        ensures
            match (r, self.value_at(bytes@, sample_hash, index as int)) {
                (Ok(v), Ok(m)) => v@ == m,
                (Err(e), Err(m)) => e@ == m,
                _ => false,
            },
    {
        if !is_same_source(self.fingerprint, bytes, sample_hash) {
            return Err(JsonError::SourceChanged);
        }
        let place = &self.entries[index];
        assert(self@.entries[index as int] == place@);
        match parse_json(slice_subrange(bytes, place.value_start, place.value_end)) {
            Ok(value) => Ok(value),
            Err(e) => Err(JsonError::Json(e)),
        }
    }

    /// The value of the entry at some place.
    pub open spec fn value_at(self, bytes: Seq<u8>, sample_hash: u64, index: int) -> Result<
        Json,
        JsonErrorModel,
    > {
        if !same_source(self.fingerprint, bytes, sample_hash) {
            Err(JsonErrorModel::SourceChanged)
        } else {
            entry_value(self@.entries[index], bytes)
        }
    }

    /// The row at some place, if it was indexed.
    pub fn typed_row(&self, bytes: &[u8], sample_hash: u64, index: usize) -> (r: Result<
        Option<Row>,
        JsonError,
    >)
        requires
            self.well_formed(),
        ensures
            index >= self.entries@.len() ==> r == Ok::<Option<Row>, JsonError>(None),
            index < self.entries@.len() ==> match (
                r,
                self.value_at(bytes@, sample_hash, index as int),
            ) {
                (Ok(Some(row)), Ok(value)) => {
                    let place = self@.entries[index as int];
                    &&& row.id == (RowId { generation: self.generation, ordinal: index as u64 })
                    &&& table::cell_views(row.cells@) == json_schema::typed_cells(
                        json_rows::keyed_row(place.key, value, place.source_bytes).cells,
                        self.schema@.columns,
                    )
                },
                (Err(e), Err(m)) => e@ == m,
                _ => false,
            },
    {
        if index >= self.entries.len() {
            return Ok(None);
        }
        match self.read_value(bytes, sample_hash, index) {
            Err(e) => Err(e),
            Ok(value) => {
                assert(self@.entries[index as int] == self.entries@[index as int]@);
                let flat = flatten_keyed_entry(
                    &self.entries[index].key,
                    &value,
                    self.entries[index].source_bytes,
                );
                Ok(Some(typed_row_from_flat(self.generation, index, &flat, &self.schema)))
            },
        }
    }

    /// The number of rows, as far as it is known.
    pub fn row_count(&self) -> (r: RowCount)
        ensures
            r == indexed_count(self.eof, self.entries@.len()),
    {
        count_rows(self.eof, self.entries.len())
    }

    /// Reads up to the entry at `index`.
    pub fn ensure_indexed_through(&mut self, bytes: &[u8], sample_hash: u64, index: usize) -> (r:
        Result<IndexProgress, JsonError>)
        requires
            old(self).well_formed(),
        ensures
            final(self).well_formed(),
            final(self).generation == old(self).generation,
            final(self).fingerprint == old(self).fingerprint,
            ({
                let wanted = !old(self).eof && old(self).entries@.len() <= index;
                let known = same_source(old(self).fingerprint, bytes@, sample_hash);
                &&& !wanted ==> final(self)@ == old(self)@ && r is Ok
                &&& wanted && !known ==> final(self)@ == old(self)@ && (r matches Err(e) && e@
                    == JsonErrorModel::SourceChanged)
                &&& wanted && known ==> {
                    let (table, delta, fault) = object_indexed(
                        old(self)@,
                        DeltaModel::nothing(),
                        bytes@,
                        Some(index),
                        None,
                    );
                    &&& final(self)@ == table
                    &&& match (r, fault) {
                        (Ok(progress), None) => progress.schema_delta@ == delta,
                        (Err(e), Some(m)) => e@ == m,
                        _ => false,
                    }
                }
                &&& r matches Ok(progress) ==> {
                    &&& progress.row_count == indexed_count(
                        final(self).eof,
                        final(self).entries@.len(),
                    )
                    &&& progress.bytes_scanned == final(self).bytes_scanned
                    &&& !wanted ==> progress.schema_delta@ == DeltaModel::nothing()
                }
            }),
    {
        match self.index_until(bytes, sample_hash, Some(index), None) {
            Err(e) => Err(e),
            Ok(schema_delta) => Ok(
                IndexProgress {
                    row_count: self.row_count(),
                    schema_delta,
                    bytes_scanned: self.bytes_scanned,
                },
            ),
        }
    }

    /// The row that the whole object makes when it is taken as a record.
    pub fn flattened_object_record(&self, bytes: &[u8], sample_hash: u64) -> (r: Result<
        FlatRow,
        JsonError,
    >)
        requires
            self.well_formed(),
        ensures
            !same_source(self.fingerprint, bytes@, sample_hash) ==> (r matches Err(e) && e@
                == JsonErrorModel::SourceChanged),
            same_source(self.fingerprint, bytes@, sample_hash) ==> match (
                r,
                values_read(self@.entries, bytes@, self.entries@.len() as int),
            ) {
                (Ok(row), Ok(values)) => row@ == json_rows::flat_row(
                    Json::Object(members_of(self@.entries, values)),
                ),
                (Err(e), Err(m)) => e@ == m,
                _ => false,
            },
    {
        if !is_same_source(self.fingerprint, bytes, sample_hash) {
            return Err(JsonError::SourceChanged);
        }
        let ghost mut values: Seq<Json> = Seq::empty();
        let mut members: Vec<(String, JsonValue)> = Vec::new();
        let mut i: usize = 0;
        assert(json_value::member_views(members@) =~= members_of(self@.entries, values));
        while i < self.entries.len()
            invariant
                self.well_formed(),
                i <= self.entries@.len(),
                values.len() == i,
                json_value::member_views(members@) == members_of(self@.entries, values),
                same_source(self.fingerprint, bytes@, sample_hash),
                values_read(self@.entries, bytes@, i as int) == Ok::<Seq<Json>, JsonErrorModel>(
                    values,
                ),
            decreases self.entries@.len() - i,
        {
            assert(self@.entries[i as int] == self.entries@[i as int]@);
            match self.read_value(bytes, sample_hash, i) {
                Ok(value) => {
                    let ghost longer = values.push(value@);
                    let member = (self.entries[i].key.clone(), value);
                    assert(json_value::member_views(members@.push(member)) =~= json_value::member_views(members@).push(
                        (member.0@, member.1@),
                    ));
                    assert(members_of(self@.entries, longer) =~= members_of(
                        self@.entries,
                        values,
                    ).push((self@.entries[i as int].key, value@)));
                    members.push(member);
                    proof {
                        values = longer;
                    }
                },
                Err(e) => {
                    proof {
                        lemma_values_fail(
                            self@.entries,
                            bytes@,
                            i + 1,
                            self.entries@.len() as int,
                        );
                    }
                    return Err(e);
                },
            }
            i = i + 1;
        }
        proof {
            json_value::lemma_object_model(members);
        }
        Ok(flatten_row(&JsonValue::Object(members)))
    }
}

/// The value of the entry at a place.
pub open spec fn entry_value(place: OffsetModel, bytes: Seq<u8>) -> Result<Json, JsonErrorModel> {
    match json_value::json_read(bytes.subrange(place.value_start, place.value_end)) {
        Ok(value) => Ok(value),
        Err(e) => Err(JsonErrorModel::Json(e)),
    }
}

/// The values of the first `n` entries, up to the first that cannot be read.
pub open spec fn values_read(entries: Seq<OffsetModel>, bytes: Seq<u8>, n: int) -> Result<
    Seq<Json>,
    JsonErrorModel,
>
    decreases n,
{
    if n <= 0 {
        Ok(Seq::empty())
    } else {
        match values_read(entries, bytes, n - 1) {
            Err(e) => Err(e),
            Ok(values) => match entry_value(entries[n - 1], bytes) {
                Err(e) => Err(e),
                Ok(value) => Ok(values.push(value)),
            },
        }
    }
}

proof fn lemma_values_fail(entries: Seq<OffsetModel>, bytes: Seq<u8>, n: int, m: int)
    requires
        0 <= n <= m,
        values_read(entries, bytes, n) is Err,
    ensures
        values_read(entries, bytes, m) == values_read(entries, bytes, n),
    decreases m,
{
    if n < m {
        lemma_values_fail(entries, bytes, n, m - 1);
    }
}

/// The members that entries and their values make up.
pub open spec fn members_of(entries: Seq<OffsetModel>, values: Seq<Json>) -> Seq<(Seq<char>, Json)> {
    Seq::new(values.len(), |i: int| (entries[i].key, values[i]))
}

/// Reads the entries by which an object is told: up to a number of values, a
/// number of bytes, or the end.
pub open spec fn sampled(table: LazyObjectModel, values: Seq<Json>, bytes: Seq<u8>) -> (
    LazyObjectModel,
    Seq<Json>,
    Option<JsonErrorModel>,
)
    decreases bytes.len() - table.scan_offset,
    when 0 <= table.scan_offset <= bytes.len()
{
    if values.len() >= OBJECT_DETECTION_MAX_ENTRIES || table.bytes_scanned
        >= OBJECT_DETECTION_MAX_BYTES || table.eof {
        (table, values, None)
    } else {
        proof {
            lemma_next_entry(bytes, table.scan_offset, offset_keys(table.entries));
        }
        let step = object_advanced(table, DeltaModel::nothing(), bytes);
        match step.found {
            Err(e) => (table, values, Some(e)),
            Ok(Some(value)) => sampled(step.table, values.push(value), bytes),
            Ok(None) => sampled(step.table, values, bytes),
        }
    }
}

// ---------------------------------------------------------------------------
// Arrays
// ---------------------------------------------------------------------------

/// A table over the items of a large array.
#[derive(Debug, PartialEq)]
pub struct LazyJsonArrayTable {
    pub generation: SourceGeneration,
    pub offsets: Vec<usize>,
    pub schema: JsonSchema,
    pub scan_offset: usize,
    pub bytes_scanned: u64,
    pub eof: bool,
    pub fingerprint: JsonSourceFingerprint,
}

/// The model of a table over an array.
pub struct LazyArrayModel {
    pub offsets: Seq<usize>,
    pub schema: SchemaModel,
    pub scan_offset: int,
    pub bytes_scanned: u64,
    pub eof: bool,
}

impl LazyArrayModel {
    /// The places of the items are within a file of the given length.
    pub open spec fn well_formed(self, len: int) -> bool {
        &&& self.schema.well_formed()
        &&& 0 <= self.scan_offset <= len
        &&& forall|i: int| 0 <= i < self.offsets.len() ==> (#[trigger] self.offsets[i]) < len
    }
}

/// Reads one item further. An item that something unexpected follows is kept, but
/// nothing behind it is read.
pub open spec fn array_advanced(table: LazyArrayModel, delta: DeltaModel, bytes: Seq<u8>) -> (
    LazyArrayModel,
    DeltaModel,
    Option<JsonErrorModel>,
) {
    let start = json_scan::solid(bytes, table.scan_offset);
    if start >= bytes.len() {
        (table, delta, Some(JsonErrorModel::UnterminatedSelectedArray))
    } else if bytes[start] == 0x5d {
        (
            LazyArrayModel { scan_offset: start + 1, eof: true, ..table },
            DeltaModel { completed: true, ..delta },
            None,
        )
    } else {
        match json_scan::value_range(bytes, start) {
            Err(e) => (table, delta, Some(e)),
            Ok((_, end)) => match json_value::json_first(bytes.skip(start)) {
                Err(e) => (table, delta, Some(JsonErrorModel::Json(e))),
                Ok(value) => {
                    let step = json_schema::row_observed(
                        SchemaStep { schema: table.schema, delta },
                        json_rows::flat_row(value),
                    );
                    let grown = LazyArrayModel {
                        offsets: table.offsets.push(start as usize),
                        schema: step.schema,
                        bytes_scanned: table.bytes_scanned.saturating_add((end - start) as u64),
                        ..table
                    };
                    match json_scan::next_byte(bytes, end) {
                        Some((0x2c, next)) => (
                            LazyArrayModel { scan_offset: next, ..grown },
                            step.delta,
                            None,
                        ),
                        Some((0x5d, next)) => (
                            LazyArrayModel { scan_offset: next, eof: true, ..grown },
                            DeltaModel { completed: true, ..step.delta },
                            None,
                        ),
                        _ => (grown, step.delta, Some(JsonErrorModel::SelectedArraySeparator)),
                    }
                },
            },
        }
    }
}

proof fn lemma_array_advanced(table: LazyArrayModel, delta: DeltaModel, bytes: Seq<u8>)
    requires
        0 <= table.scan_offset <= bytes.len(),
    ensures
        array_advanced(table, delta, bytes).2 is None ==> table.scan_offset < array_advanced(
            table,
            delta,
            bytes,
        ).0.scan_offset <= bytes.len(),
{
    json_scan::lemma_solid(bytes, table.scan_offset);
    let start = json_scan::solid(bytes, table.scan_offset);
    if start < bytes.len() {
        json_scan::lemma_value_range(bytes, start);
        if let Ok((_, end)) = json_scan::value_range(bytes, start) {
            json_scan::lemma_next_byte(bytes, end);
        }
    }
}

/// Reads items for as long as more are wanted, or up to the first fault.
pub open spec fn array_indexed(
    table: LazyArrayModel,
    delta: DeltaModel,
    bytes: Seq<u8>,
    target: Option<usize>,
    limit: Option<u64>,
) -> (LazyArrayModel, DeltaModel, Option<JsonErrorModel>)
    decreases bytes.len() - table.scan_offset,
    when 0 <= table.scan_offset <= bytes.len()
    via array_indexed_ends
{
    if !wants_more(table.eof, table.offsets.len(), table.bytes_scanned, target, limit) {
        (table, delta, None)
    } else {
        let step = array_advanced(table, delta, bytes);
        match step.2 {
            Some(e) => (step.0, step.1, Some(e)),
            None => array_indexed(step.0, step.1, bytes, target, limit),
        }
    }
}

#[via_fn]
proof fn array_indexed_ends(
    table: LazyArrayModel,
    delta: DeltaModel,
    bytes: Seq<u8>,
    target: Option<usize>,
    limit: Option<u64>,
) {
    lemma_array_advanced(table, delta, bytes);
}

impl View for LazyJsonArrayTable {
    type V = LazyArrayModel;

    open spec fn view(&self) -> LazyArrayModel {
        LazyArrayModel {
            offsets: self.offsets@,
            schema: self.schema@,
            scan_offset: self.scan_offset as int,
            bytes_scanned: self.bytes_scanned,
            eof: self.eof,
        }
    }
}

impl LazyJsonArrayTable {
    /// The table is as its fingerprint says.
    pub open spec fn well_formed(self) -> bool {
        self@.well_formed(self.fingerprint.len as int)
    }

    /// A table over the array whose opening bracket stands at `at`.
    pub fn new(bytes: &[u8], at: usize, sample_hash: u64, generation: SourceGeneration) -> (r:
        LazyJsonArrayTable)
        requires
            at < bytes@.len(),
        ensures
            r.well_formed(),
            r.generation == generation,
            same_source(r.fingerprint, bytes@, sample_hash),
            r@ == (LazyArrayModel {
                offsets: Seq::empty(),
                schema: SchemaModel::blank(generation),
                scan_offset: at + 1,
                bytes_scanned: 0,
                eof: false,
            }),
    {
        let len: usize = bytes.len();
        assert(at < len);
        LazyJsonArrayTable {
            generation,
            offsets: Vec::new(),
            schema: JsonSchema::new(generation),
            scan_offset: at + 1,
            bytes_scanned: 0,
            eof: false,
            fingerprint: json_source_fingerprint(bytes, sample_hash),
        }
    }

    fn index_next(&mut self, bytes: &[u8], delta: &mut SchemaDelta) -> (r: Result<(), JsonError>)
        requires
            old(self).well_formed(),
            old(self).fingerprint.len == bytes@.len(),
        ensures
            final(self).well_formed(),
            final(self).generation == old(self).generation,
            final(self).fingerprint == old(self).fingerprint,
            ({
                let step = array_advanced(old(self)@, old(delta)@, bytes@);
                &&& final(self)@ == step.0
                &&& final(delta)@ == step.1
                &&& match (r, step.2) {
                    (Ok(_), None) => true,
                    (Err(e), Some(m)) => e@ == m,
                    _ => false,
                }
            }),
    {
        let start: usize = match skip_whitespace(bytes, self.scan_offset) {
            Some(n) => n,
            None => {
                return Err(JsonError::UnterminatedSelectedArray);
            },
        };
        if bytes[start] == 0x5d {
            self.scan_offset = start + 1;
            self.eof = true;
            delta.completed = true;
            return Ok(());
        }
        proof {
            json_scan::lemma_solid_stays(bytes@, self.scan_offset as int);
        }
        let (_, end) = match skip_json_value(bytes, start) {
            Ok(range) => range,
            Err(e) => {
                return Err(e);
            },
        };
        assert(bytes@.subrange(start as int, bytes@.len() as int) =~= bytes@.skip(start as int));
        let value = match parse_first_json(slice_subrange(bytes, start, bytes.len())) {
            Ok(value) => value,
            Err(e) => {
                return Err(JsonError::Json(e));
            },
        };
        let flat = flatten_row(&value);
        self.schema.observe_into(&flat, delta);
        self.offsets.push(start);
        self.bytes_scanned = self.bytes_scanned.saturating_add((end - start) as u64);
        match read_non_whitespace(bytes, end) {
            Some((0x2c, next)) => {
                self.scan_offset = next;
                Ok(())
            },
            Some((0x5d, next)) => {
                self.scan_offset = next;
                self.eof = true;
                delta.completed = true;
                Ok(())
            },
            _ => Err(JsonError::SelectedArraySeparator),
        }
    }

    /// Reads items until the one at `target` is there, the limit of bytes is
    /// reached, or the array ends.
    pub fn index_until(
        &mut self,
        bytes: &[u8],
        sample_hash: u64,
        target: Option<usize>,
        byte_limit: Option<u64>,
    ) -> (r: Result<SchemaDelta, JsonError>)
        requires
            old(self).well_formed(),
        ensures
            final(self).well_formed(),
            final(self).generation == old(self).generation,
            final(self).fingerprint == old(self).fingerprint,
            ({
                let wanted = wants_more(
                    old(self).eof,
                    old(self).offsets@.len(),
                    old(self).bytes_scanned,
                    target,
                    byte_limit,
                );
                let known = same_source(old(self).fingerprint, bytes@, sample_hash);
                &&& !wanted ==> final(self)@ == old(self)@ && (r matches Ok(delta) && delta@
                    == DeltaModel::nothing())
                &&& wanted && !known ==> final(self)@ == old(self)@ && (r matches Err(e) && e@
                    == JsonErrorModel::SourceChanged)
                &&& wanted && known ==> {
                    let (table, delta, fault) = array_indexed(
                        old(self)@,
                        DeltaModel::nothing(),
                        bytes@,
                        target,
                        byte_limit,
                    );
                    &&& final(self)@ == table
                    &&& match (r, fault) {
                        (Ok(d), None) => d@ == delta,
                        (Err(e), Some(m)) => e@ == m,
                        _ => false,
                    }
                }
            }),
    {
        let mut delta = SchemaDelta::default();
        if !wants(self.eof, self.offsets.len(), self.bytes_scanned, target, byte_limit) {
            return Ok(delta);
        }
        if !is_same_source(self.fingerprint, bytes, sample_hash) {
            return Err(JsonError::SourceChanged);
        }
        let ghost begin = self@;
        while wants(self.eof, self.offsets.len(), self.bytes_scanned, target, byte_limit)
            invariant
                self.well_formed(),
                begin == old(self)@,
                wants_more(begin.eof, begin.offsets.len(), begin.bytes_scanned, target, byte_limit),
                self.generation == old(self).generation,
                self.fingerprint == old(self).fingerprint,
                same_source(self.fingerprint, bytes@, sample_hash),
                array_indexed(begin, DeltaModel::nothing(), bytes@, target, byte_limit)
                    == array_indexed(self@, delta@, bytes@, target, byte_limit),
            decreases self.fingerprint.len - self.scan_offset,
        {
            proof {
                lemma_array_advanced(self@, delta@, bytes@);
            }
            match self.index_next(bytes, &mut delta) {
                Ok(_) => {},
                Err(e) => {
                    return Err(e);
                },
            }
        }
        Ok(delta)
    }

    /// The value of the item at some place.
    pub open spec fn value_at(self, bytes: Seq<u8>, sample_hash: u64, index: int) -> Result<
        Json,
        JsonErrorModel,
    > {
        if !same_source(self.fingerprint, bytes, sample_hash) {
            Err(JsonErrorModel::SourceChanged)
        } else {
            match json_value::json_first(bytes.skip(self.offsets@[index] as int)) {
                Ok(value) => Ok(value),
                Err(e) => Err(JsonErrorModel::Json(e)),
            }
        }
    }

    /// The row at some place, if it was indexed.
    pub fn typed_row(&self, bytes: &[u8], sample_hash: u64, index: usize) -> (r: Result<
        Option<Row>,
        JsonError,
    >)
        requires
            self.well_formed(),
        ensures
            index >= self.offsets@.len() ==> r == Ok::<Option<Row>, JsonError>(None),
            index < self.offsets@.len() ==> match (
                r,
                self.value_at(bytes@, sample_hash, index as int),
            ) {
                (Ok(Some(row)), Ok(value)) => {
                    &&& row.id == (RowId { generation: self.generation, ordinal: index as u64 })
                    &&& table::cell_views(row.cells@) == json_schema::typed_cells(
                        json_rows::flat_row(value).cells,
                        self.schema@.columns,
                    )
                },
                (Err(e), Err(m)) => e@ == m,
                _ => false,
            },
    {
        if index >= self.offsets.len() {
            return Ok(None);
        }
        if !is_same_source(self.fingerprint, bytes, sample_hash) {
            return Err(JsonError::SourceChanged);
        }
        let offset: usize = self.offsets[index];
        assert(self@.offsets[index as int] == offset);
        assert(bytes@.subrange(offset as int, bytes@.len() as int) =~= bytes@.skip(offset as int));
        match parse_first_json(slice_subrange(bytes, offset, bytes.len())) {
            Err(e) => Err(JsonError::Json(e)),
            Ok(value) => {
                let flat = flatten_row(&value);
                Ok(Some(typed_row_from_flat(self.generation, index, &flat, &self.schema)))
            },
        }
    }

    /// The number of rows, as far as it is known.
    pub fn row_count(&self) -> (r: RowCount)
        ensures
            r == indexed_count(self.eof, self.offsets@.len()),
    {
        count_rows(self.eof, self.offsets.len())
    }
}

// ---------------------------------------------------------------------------
// Document streams
// ---------------------------------------------------------------------------

/// A table over the documents of a large stream.
#[derive(Debug, PartialEq)]
pub struct LazyNdjsonTable {
    pub generation: SourceGeneration,
    pub pointer: Option<JsonPointer>,
    pub offsets: Vec<usize>,
    pub schema: JsonSchema,
    pub scan_offset: usize,
    pub eof: bool,
    pub fingerprint: JsonSourceFingerprint,
}

/// The model of a table over a stream of documents.
pub struct LazyStreamModel {
    pub path: PathModel,
    pub offsets: Seq<usize>,
    pub schema: SchemaModel,
    pub scan_offset: int,
    pub eof: bool,
}

impl LazyStreamModel {
    /// The places of the documents are within a file of the given length.
    pub open spec fn well_formed(self, len: int) -> bool {
        &&& self.schema.well_formed()
        &&& 0 <= self.scan_offset <= len
        &&& forall|i: int| 0 <= i < self.offsets.len() ==> (#[trigger] self.offsets[i]) <= len
    }
}

/// Reads one document further. Nothing changes where it is refused.
pub open spec fn stream_advanced(table: LazyStreamModel, delta: DeltaModel, bytes: Seq<u8>) -> (
    LazyStreamModel,
    DeltaModel,
    Option<JsonErrorModel>,
) {
    let (found, end) = json_value::json_next(bytes.skip(table.scan_offset));
    match found {
        None => (
            LazyStreamModel { scan_offset: table.scan_offset + end, eof: true, ..table },
            DeltaModel { completed: delta.completed || table.schema.columns.len() > 0, ..delta },
            None,
        ),
        Some(Err(e)) => (table, delta, Some(JsonErrorModel::Json(e))),
        Some(Ok(document)) => match json_rows::document_row(document, table.path) {
            Err(e) => (table, delta, Some(e)),
            Ok(row) => {
                let step = json_schema::row_observed(SchemaStep { schema: table.schema, delta }, row);
                (
                    LazyStreamModel {
                        offsets: table.offsets.push(table.scan_offset as usize),
                        schema: step.schema,
                        scan_offset: table.scan_offset + end,
                        ..table
                    },
                    step.delta,
                    None,
                )
            },
        },
    }
}

/// Reads documents for as long as more are wanted, or up to the first that is
/// refused. A document takes room, so that each begins behind the last.
pub open spec fn stream_indexed(
    table: LazyStreamModel,
    delta: DeltaModel,
    bytes: Seq<u8>,
    target: Option<usize>,
    limit: Option<u64>,
) -> (LazyStreamModel, DeltaModel, Option<JsonErrorModel>)
    decreases bytes.len() - table.scan_offset,
{
    if !wants_more(table.eof, table.offsets.len(), table.scan_offset as u64, target, limit) {
        (table, delta, None)
    } else {
        let step = stream_advanced(table, delta, bytes);
        if step.2 is None && !step.0.eof && table.scan_offset < step.0.scan_offset <= bytes.len() {
            stream_indexed(step.0, step.1, bytes, target, limit)
        } else {
            step
        }
    }
}

impl View for LazyNdjsonTable {
    type V = LazyStreamModel;

    open spec fn view(&self) -> LazyStreamModel {
        LazyStreamModel {
            path: json_rows::path_model(self.pointer),
            offsets: self.offsets@,
            schema: self.schema@,
            scan_offset: self.scan_offset as int,
            eof: self.eof,
        }
    }
}

impl LazyNdjsonTable {
    /// The table is as its fingerprint says.
    pub open spec fn well_formed(self) -> bool {
        self@.well_formed(self.fingerprint.len as int)
    }

    /// A table over the documents of a file.
    pub fn new(
        bytes: &[u8],
        pointer: &Option<JsonPointer>,
        sample_hash: u64,
        generation: SourceGeneration,
    ) -> (r: LazyNdjsonTable)
        ensures
            r.well_formed(),
            r.generation == generation,
            same_source(r.fingerprint, bytes@, sample_hash),
            r@ == (LazyStreamModel {
                path: json_rows::path_model(*pointer),
                offsets: Seq::empty(),
                schema: SchemaModel::blank(generation),
                scan_offset: 0,
                eof: false,
            }),
    {
        LazyNdjsonTable {
            generation,
            pointer: match pointer {
                Some(path) => Some(path.clone()),
                None => None,
            },
            offsets: Vec::new(),
            schema: JsonSchema::new(generation),
            scan_offset: 0,
            eof: false,
            fingerprint: json_source_fingerprint(bytes, sample_hash),
        }
    }

    fn index_next(&mut self, bytes: &[u8], delta: &mut SchemaDelta) -> (r: Result<(), JsonError>)
        requires
            old(self).well_formed(),
            old(self).fingerprint.len == bytes@.len(),
        ensures
            final(self).well_formed(),
            final(self).generation == old(self).generation,
            final(self).fingerprint == old(self).fingerprint,
            r is Ok ==> final(self).eof || final(self).scan_offset > old(self).scan_offset,
            ({
                let step = stream_advanced(old(self)@, old(delta)@, bytes@);
                &&& final(self)@ == step.0
                &&& final(delta)@ == step.1
                &&& match (r, step.2) {
                    (Ok(_), None) => true,
                    (Err(e), Some(m)) => e@ == m,
                    _ => false,
                }
            }),
    {
        let at: usize = self.scan_offset;
        assert(bytes@.subrange(at as int, bytes@.len() as int) =~= bytes@.skip(at as int));
        let (found, end) = parse_next_json(slice_subrange(bytes, at, bytes.len()));
        match found {
            None => {
                self.scan_offset = at + end;
                self.eof = true;
                if self.schema.columns.len() > 0 {
                    delta.completed = true;
                }
                Ok(())
            },
            Some(Err(e)) => Err(JsonError::Json(e)),
            Some(Ok(document)) => match flatten_document(&document, &self.pointer) {
                Err(e) => Err(e),
                Ok(flat) => {
                    self.schema.observe_into(&flat, delta);
                    self.offsets.push(at);
                    self.scan_offset = at + end;
                    Ok(())
                },
            },
        }
    }

    /// Reads documents until the one at `target` is there, the limit of bytes is
    /// reached, or the stream ends.
    pub fn index_until(
        &mut self,
        bytes: &[u8],
        sample_hash: u64,
        target: Option<usize>,
        byte_limit: Option<u64>,
    ) -> (r: Result<SchemaDelta, JsonError>)
        requires
            old(self).well_formed(),
        ensures
            final(self).well_formed(),
            final(self).generation == old(self).generation,
            final(self).fingerprint == old(self).fingerprint,
            ({
                let wanted = wants_more(
                    old(self).eof,
                    old(self).offsets@.len(),
                    old(self).scan_offset as u64,
                    target,
                    byte_limit,
                );
                let known = same_source(old(self).fingerprint, bytes@, sample_hash);
                &&& !wanted ==> final(self)@ == old(self)@ && (r matches Ok(delta) && delta@
                    == DeltaModel::nothing())
                &&& wanted && !known ==> final(self)@ == old(self)@ && (r matches Err(e) && e@
                    == JsonErrorModel::SourceChanged)
                &&& wanted && known ==> {
                    let (table, delta, fault) = stream_indexed(
                        old(self)@,
                        DeltaModel::nothing(),
                        bytes@,
                        target,
                        byte_limit,
                    );
                    &&& final(self)@ == table
                    &&& match (r, fault) {
                        (Ok(d), None) => d@ == delta,
                        (Err(e), Some(m)) => e@ == m,
                        _ => false,
                    }
                }
            }),
    {
        let mut delta = SchemaDelta::default();
        if !wants(self.eof, self.offsets.len(), self.scan_offset as u64, target, byte_limit) {
            return Ok(delta);
        }
        if !is_same_source(self.fingerprint, bytes, sample_hash) {
            return Err(JsonError::SourceChanged);
        }
        let ghost begin = self@;
        while wants(self.eof, self.offsets.len(), self.scan_offset as u64, target, byte_limit)
            invariant
                self.well_formed(),
                begin == old(self)@,
                wants_more(
                    begin.eof,
                    begin.offsets.len(),
                    begin.scan_offset as u64,
                    target,
                    byte_limit,
                ),
                self.generation == old(self).generation,
                self.fingerprint == old(self).fingerprint,
                same_source(self.fingerprint, bytes@, sample_hash),
                stream_indexed(begin, DeltaModel::nothing(), bytes@, target, byte_limit)
                    == stream_indexed(self@, delta@, bytes@, target, byte_limit),
            decreases self.fingerprint.len - self.scan_offset,
        {
            let ghost prior = self@;
            match self.index_next(bytes, &mut delta) {
                Ok(_) => {},
                Err(e) => {
                    return Err(e);
                },
            }
            if self.eof {
                return Ok(delta);
            }
            assert(prior.scan_offset < self.scan_offset <= bytes@.len());
        }
        Ok(delta)
    }

    /// The row of the document at some place.
    pub open spec fn row_at(self, bytes: Seq<u8>, sample_hash: u64, index: int) -> Result<
        FlatRowModel,
        JsonErrorModel,
    > {
        if !same_source(self.fingerprint, bytes, sample_hash) {
            Err(JsonErrorModel::SourceChanged)
        } else {
            match json_value::json_first(bytes.skip(self.offsets@[index] as int)) {
                Ok(document) => match json_rows::selected(document, self@.path.keys) {
                    Some(value) => Ok(json_rows::flat_row(value)),
                    None => Err(JsonErrorModel::PathMissing(self@.path.text)),
                },
                Err(e) => Err(JsonErrorModel::Json(e)),
            }
        }
    }

    /// The row at some place, if it was indexed.
    pub fn typed_row(&self, bytes: &[u8], sample_hash: u64, index: usize) -> (r: Result<
        Option<Row>,
        JsonError,
    >)
        requires
            self.well_formed(),
        ensures
            index >= self.offsets@.len() ==> r == Ok::<Option<Row>, JsonError>(None),
            index < self.offsets@.len() ==> match (
                r,
                self.row_at(bytes@, sample_hash, index as int),
            ) {
                (Ok(Some(row)), Ok(flat)) => {
                    &&& row.id == (RowId { generation: self.generation, ordinal: index as u64 })
                    &&& table::cell_views(row.cells@) == json_schema::typed_cells(flat.cells, self.schema@.columns)
                },
                (Err(e), Err(m)) => e@ == m,
                _ => false,
            },
    {
        if index >= self.offsets.len() {
            return Ok(None);
        }
        if !is_same_source(self.fingerprint, bytes, sample_hash) {
            return Err(JsonError::SourceChanged);
        }
        let offset: usize = self.offsets[index];
        assert(self@.offsets[index as int] == offset);
        assert(bytes@.subrange(offset as int, bytes@.len() as int) =~= bytes@.skip(offset as int));
        match parse_first_json(slice_subrange(bytes, offset, bytes.len())) {
            Err(e) => Err(JsonError::Json(e)),
            Ok(document) => match resolve_pointer(&document, &self.pointer) {
                Err(e) => Err(e),
                Ok(value) => {
                    let flat = flatten_row(value);
                    Ok(Some(typed_row_from_flat(self.generation, index, &flat, &self.schema)))
                },
            },
        }
    }

    /// The number of rows, as far as it is known.
    pub fn row_count(&self) -> (r: RowCount)
        ensures
            r == indexed_count(self.eof, self.offsets@.len()),
    {
        count_rows(self.eof, self.offsets.len())
    }
}

// ---------------------------------------------------------------------------
// Opening
// ---------------------------------------------------------------------------

/// A table over a large JSON text, by the shape of the value it was opened on.
#[derive(Debug, PartialEq)]
pub enum LazyJsonTable {
    Items(OpenedTable<LazyJsonArrayTable>),
    Entries(OpenedTable<LazyJsonObjectTable>),
    Record(OpenedTable<JsonTableStore>),
}

/// How many bytes are read before a table is shown.
pub open spec fn scan_limit(scan: SchemaScan, limit: u64) -> u64 {
    match scan {
        SchemaScan::Full => u64::MAX,
        SchemaScan::Default => limit,
    }
}

fn limit_of(options: &OpenOptions) -> (r: u64)
    ensures
        r == scan_limit(options.schema_scan, options.schema_scan_bytes),
{
    match options.schema_scan {
        SchemaScan::Full => u64::MAX,
        SchemaScan::Default => options.schema_scan_bytes,
    }
}

/// The definition of a table with the columns of a schema, which are all there are
/// once the source was read to its end.
pub open spec fn defines(
    definition: TableDefinition,
    generation: SourceGeneration,
    columns: Seq<ColumnModel>,
    eof: bool,
    display_name: String,
) -> bool {
    &&& definition.generation == generation
    &&& table::column_views(definition.columns@) == columns
    &&& definition.schema_state == if eof {
        SchemaState::Complete
    } else {
        SchemaState::Provisional
    }
    &&& definition.relation.name == display_name
    &&& definition.relation.display_name == display_name
    &&& definition.relation.header_visible
}

pub(crate) fn define(
    schema: &JsonSchema,
    generation: SourceGeneration,
    eof: bool,
    display_name: String,
) -> (r: TableDefinition)
    ensures
        defines(r, generation, schema@.columns, eof, display_name),
{
    TableDefinition {
        generation,
        columns: clone_columns(&schema.columns),
        schema_state: if eof {
            SchemaState::Complete
        } else {
            SchemaState::Provisional
        },
        relation: RelationMetadata::implicit(display_name, true),
    }
}

/// A table over an array, before anything was read.
pub open spec fn fresh_array(at: int, generation: SourceGeneration) -> LazyArrayModel {
    LazyArrayModel {
        offsets: Seq::empty(),
        schema: SchemaModel::blank(generation),
        scan_offset: at + 1,
        bytes_scanned: 0,
        eof: false,
    }
}

/// What opening an array comes to: the items are read up to the limit of bytes,
/// and the columns found by then get their first labels.
pub open spec fn array_opening(
    r: Result<OpenedTable<LazyJsonArrayTable>, JsonError>,
    bytes: Seq<u8>,
    at: int,
    sample_hash: u64,
    display_name: String,
    options: OpenOptions,
    warnings: Seq<Seq<char>>,
    generation: SourceGeneration,
) -> bool {
    let (table, _, fault) = array_indexed(
        fresh_array(at, generation),
        DeltaModel::nothing(),
        bytes,
        None,
        Some(scan_limit(options.schema_scan, options.schema_scan_bytes)),
    );
    match (r, fault) {
        (Err(e), Some(m)) => e@ == m,
        (Ok(opened), None) => {
            &&& opened.generation == generation
            &&& opened.store.well_formed()
            &&& opened.store.generation == generation
            &&& same_source(opened.store.fingerprint, bytes, sample_hash)
            &&& opened.store@ == (LazyArrayModel { schema: json_schema::with_labels(table.schema), ..table })
            &&& defines(
                opened.definition,
                generation,
                json_schema::with_labels(table.schema).columns,
                table.eof,
                display_name,
            )
            &&& opened.object_mode is None
            &&& text::views(opened.warnings@) == warnings
        },
        _ => false,
    }
}

/// Opens the array whose opening bracket stands at `at`.
pub fn open_lazy_json_array(
    bytes: &[u8],
    at: usize,
    sample_hash: u64,
    display_name: String,
    options: &OpenOptions,
    warnings: Vec<String>,
    generation: SourceGeneration,
) -> (r: Result<OpenedTable<LazyJsonArrayTable>, JsonError>)
    requires
        at < bytes@.len(),
    ensures
        array_opening(
            r,
            bytes@,
            at as int,
            sample_hash,
            display_name,
            *options,
            text::views(warnings@),
            generation,
        ),
{
    let mut store = LazyJsonArrayTable::new(bytes, at, sample_hash, generation);
    match store.index_until(bytes, sample_hash, None, Some(limit_of(options))) {
        Ok(_) => {},
        Err(e) => {
            return Err(e);
        },
    }
    store.schema.assign_initial_labels();
    let definition = define(&store.schema, generation, store.eof, display_name);
    Ok(OpenedTable { generation, definition, store, object_mode: None, warnings })
}

/// A table over an object, before anything was read.
pub open spec fn fresh_object(at: int, generation: SourceGeneration) -> LazyObjectModel {
    LazyObjectModel {
        entries: Seq::empty(),
        schema: SchemaModel::blank(generation),
        scan_offset: at + 1,
        bytes_scanned: 0,
        eof: false,
    }
}

/// The table over an object once it is told how to take it: the entries at its
/// head were read for that only where the mode is automatic.
pub open spec fn object_told(at: int, mode: ObjectMode, bytes: Seq<u8>, generation: SourceGeneration) -> (
    LazyObjectModel,
    ResolvedObjectMode,
    Option<JsonErrorModel>,
) {
    let fresh = fresh_object(at, generation);
    if mode is Auto {
        let (table, values, fault) = sampled(fresh, Seq::empty(), bytes);
        (table, options::object_mode_for(mode, json_rows::is_keyed(values)), fault)
    } else {
        (fresh, options::object_mode_for(mode, false), None)
    }
}

fn tell_object(
    bytes: &[u8],
    at: usize,
    sample_hash: u64,
    mode: ObjectMode,
    generation: SourceGeneration,
) -> (r: Result<(LazyJsonObjectTable, bool), JsonError>)
    requires
        at < bytes@.len(),
    ensures
        ({
            let (table, resolved, fault) = object_told(at as int, mode, bytes@, generation);
            match (r, fault) {
                (Err(e), Some(m)) => e@ == m,
                (Ok((store, auto_entries)), None) => {
                    &&& store.well_formed()
                    &&& store.generation == generation
                    &&& same_source(store.fingerprint, bytes@, sample_hash)
                    &&& store@ == table
                    &&& options::object_mode_for(mode, auto_entries) == resolved
                },
                _ => false,
            }
        }),
{
    let mut store = LazyJsonObjectTable::new(bytes, at, sample_hash, generation);
    if mode == ObjectMode::Auto {
        match store.index_detection_sample(bytes, sample_hash) {
            Err(e) => Err(e),
            Ok(values) => {
                let auto_entries = values_are_keyed_object(&values);
                Ok((store, auto_entries))
            },
        }
    } else {
        Ok((store, false))
    }
}

/// The row of an object that is taken as a record.
pub open spec fn record_read(entries: Seq<OffsetModel>, bytes: Seq<u8>) -> Result<
    FlatRowModel,
    JsonErrorModel,
> {
    match values_read(entries, bytes, entries.len() as int) {
        Ok(values) => Ok(json_rows::flat_row(Json::Object(members_of(entries, values)))),
        Err(e) => Err(e),
    }
}

/// The row of an object that is taken as a record, once all of it was read.
pub open spec fn object_record(table: LazyObjectModel, bytes: Seq<u8>) -> Result<
    FlatRowModel,
    JsonErrorModel,
> {
    let (read, _, fault) = object_indexed(
        table,
        DeltaModel::nothing(),
        bytes,
        None,
        Some(u64::MAX),
    );
    match fault {
        Some(e) => Err(e),
        None => record_read(read.entries, bytes),
    }
}

fn read_record(store: LazyJsonObjectTable, bytes: &[u8], sample_hash: u64) -> (r: Result<
    FlatRow,
    JsonError,
>)
    requires
        store.well_formed(),
        same_source(store.fingerprint, bytes@, sample_hash),
    ensures
        match (r, object_record(store@, bytes@)) {
            (Ok(row), Ok(m)) => row@ == m,
            (Err(e), Err(m)) => e@ == m,
            _ => false,
        },
{
    let mut store = store;
    match store.index_until(bytes, sample_hash, None, Some(u64::MAX)) {
        Ok(_) => {},
        Err(e) => {
            return Err(e);
        },
    }
    store.flattened_object_record(bytes, sample_hash)
}

/// What opening an object comes to: it is told how to take it, and is then read
/// whole as one record, or entry by entry up to the limit of bytes.
pub open spec fn object_opening(
    r: Result<LazyJsonTable, JsonError>,
    bytes: Seq<u8>,
    at: int,
    sample_hash: u64,
    display_name: String,
    options: OpenOptions,
    generation: SourceGeneration,
) -> bool {
    let (told, resolved, told_fault) = object_told(
        at,
        options.object_mode,
        bytes,
        generation,
    );
    let limit = scan_limit(options.schema_scan, options.schema_scan_bytes);
    let (table, _, fault) = object_indexed(
        told,
        DeltaModel::nothing(),
        bytes,
        None,
        Some(limit),
    );
    let resolution = Some(
        ObjectModeResolution { requested: options.object_mode, resolved },
    );
    match r {
        Err(e) => if told_fault is Some {
            e@ == told_fault->0
        } else if resolved is Record {
            object_record(told, bytes) == Err::<FlatRowModel, JsonErrorModel>(e@)
        } else {
            fault == Some(e@)
        },
        Ok(LazyJsonTable::Items(_)) => false,
        Ok(LazyJsonTable::Record(opened)) => {
            &&& told_fault is None
            &&& resolved is Record
            &&& object_record(told, bytes) == Ok::<FlatRowModel, JsonErrorModel>(
                opened.store.rows@[0]@,
            )
            &&& opened.generation == generation
            &&& opened.store.rows@.len() == 1
            &&& opened.store.well_formed()
            &&& opened.store.generation == generation
            &&& opened.store.indexed_rows == 1
            &&& ({
                let shown = json_table::opened_schema(
                    generation,
                    json_rows::flat_row_views(opened.store.rows@),
                    1,
                );
                &&& opened.store.schema@ == shown.step.schema
                &&& opened.store.bytes_scanned == shown.bytes
            })
            &&& defines(
                opened.definition,
                generation,
                opened.store.schema@.columns,
                true,
                display_name,
            )
            &&& opened.object_mode == resolution
            &&& opened.warnings@.len() == 0
        },
        Ok(LazyJsonTable::Entries(opened)) => {
            &&& told_fault is None
            &&& resolved is Entries
            &&& fault is None
            &&& opened.generation == generation
            &&& opened.store.well_formed()
            &&& opened.store.generation == generation
            &&& same_source(opened.store.fingerprint, bytes, sample_hash)
            &&& opened.store@ == (LazyObjectModel {
                schema: json_schema::with_labels(table.schema),
                ..table
            })
            &&& defines(
                opened.definition,
                generation,
                json_schema::with_labels(table.schema).columns,
                table.eof,
                display_name,
            )
            &&& opened.object_mode == resolution
            &&& opened.warnings@.len() == 0
        },
    }
}

/// Opens the object whose opening brace stands at `at`: as one record, or entry by
/// entry.
pub fn open_lazy_json_object(
    bytes: &[u8],
    at: usize,
    sample_hash: u64,
    display_name: String,
    options: &OpenOptions,
    generation: SourceGeneration,
) -> (r: Result<LazyJsonTable, JsonError>)
    requires
        at < bytes@.len(),
    ensures
        object_opening(r, bytes@, at as int, sample_hash, display_name, *options, generation),
{
    let (mut store, auto_entries) = match tell_object(
        bytes,
        at,
        sample_hash,
        options.object_mode,
        generation,
    ) {
        Ok(told) => told,
        Err(e) => {
            return Err(e);
        },
    };
    let shape = match resolve_selected_shape(
        SelectedValueShape::Object,
        options.object_mode,
        options.object_mode_origin,
        auto_entries,
    ) {
        Ok(shape) => shape,
        Err(e) => {
            return Err(JsonError::Options(e));
        },
    };
    match shape.table_shape {
        Some(SelectedTableShape::ObjectRecord) => {
            let row = match read_record(store, bytes, sample_hash) {
                Ok(row) => row,
                Err(e) => {
                    return Err(e);
                },
            };
            let mut rows: Vec<FlatRow> = Vec::new();
            rows.push(row);
            proof {
                let all = json_rows::flat_row_views(rows@);
                assert(json_table::initial_rows(all, options.schema_scan, options.schema_scan_bytes) == 1) by {
                    reveal_with_fuel(json_table::first_rows, 2);
                }
            }
            Ok(
                LazyJsonTable::Record(
                    open_json_rows_with_metadata(
                        rows,
                        display_name,
                        options,
                        shape.object_mode,
                        Vec::new(),
                        generation,
                    ),
                ),
            )
        },
        _ => {
            match store.index_until(bytes, sample_hash, None, Some(limit_of(options))) {
                Ok(_) => {},
                Err(e) => {
                    return Err(e);
                },
            }
            store.schema.assign_initial_labels();
            let definition = define(&store.schema, generation, store.eof, display_name);
            Ok(
                LazyJsonTable::Entries(
                    OpenedTable {
                        generation,
                        definition,
                        store,
                        object_mode: shape.object_mode,
                        warnings: Vec::new(),
                    },
                ),
            )
        },
    }
}

/// Opens the value that a path selects in a large JSON text.
pub fn open_lazy_json(
    bytes: &[u8],
    sample_hash: u64,
    display_name: String,
    options: &OpenOptions,
    generation: SourceGeneration,
) -> (r: Result<LazyJsonTable, JsonError>)
    ensures
        match json_scan::located(bytes@, 0, json_scan::keys_of(options.json_path)) {
            Err(m) => r matches Err(e) && e@ == m,
            Ok(at) => {
                let refused = bytes@[at] != 0x7b && json_select::mode_refused(
                    options.object_mode,
                    options.object_mode_origin,
                );
                let scalar = bytes@[at] != 0x7b && bytes@[at] != 0x5b;
                &&& refused ==> (r matches Err(e) && e@ == JsonErrorModel::Options(
                    SourceOptionErrorModel::ObjectModeRequiresObject { mode: options.object_mode },
                ))
                &&& scalar && !refused ==> (r matches Err(e) && e@ == JsonErrorModel::NotTabular(
                    json_select::shape_warning(options.object_mode, SelectedValueShape::Scalar),
                ))
                &&& bytes@[at] == 0x7b ==> object_opening(
                    r,
                    bytes@,
                    at,
                    sample_hash,
                    display_name,
                    *options,
                    generation,
                )
                &&& bytes@[at] == 0x5b && !refused ==> {
                    let warnings = match json_select::shape_warning(
                        options.object_mode,
                        SelectedValueShape::Array,
                    ) {
                        Some(warning) => seq![warning],
                        None => Seq::empty(),
                    };
                    match r {
                        Ok(LazyJsonTable::Items(opened)) => array_opening(
                            Ok(opened),
                            bytes@,
                            at,
                            sample_hash,
                            display_name,
                            *options,
                            warnings,
                            generation,
                        ),
                        Ok(_) => false,
                        Err(e) => array_opening(
                            Err(e),
                            bytes@,
                            at,
                            sample_hash,
                            display_name,
                            *options,
                            warnings,
                            generation,
                        ),
                    }
                }
            },
        },
{
    let at: usize = match locate_json_pointer(bytes, &options.json_path) {
        Ok(at) => at,
        Err(e) => {
            return Err(e);
        },
    };
    if bytes[at] == 0x7b {
        return open_lazy_json_object(bytes, at, sample_hash, display_name, options, generation);
    }
    let selected = if bytes[at] == 0x5b {
        SelectedValueShape::Array
    } else {
        SelectedValueShape::Scalar
    };
    let shape = match resolve_selected_shape(
        selected,
        options.object_mode,
        options.object_mode_origin,
        false,
    ) {
        Ok(shape) => shape,
        Err(e) => {
            return Err(JsonError::Options(e));
        },
    };
    if bytes[at] != 0x5b {
        return Err(JsonError::NotTabular(shape.warning));
    }
    let mut warnings: Vec<String> = Vec::new();
    assert(text::views(warnings@) =~= Seq::<Seq<char>>::empty());
    if let Some(warning) = shape.warning {
        warnings.push(warning);
        assert(text::views(warnings@) =~= seq![warning@]);
    }
    match open_lazy_json_array(
        bytes,
        at,
        sample_hash,
        display_name,
        options,
        warnings,
        generation,
    ) {
        Ok(opened) => Ok(LazyJsonTable::Items(opened)),
        Err(e) => Err(e),
    }
}

/// A table over a stream of documents, before anything was read.
pub open spec fn fresh_stream(path: PathModel, generation: SourceGeneration) -> LazyStreamModel {
    LazyStreamModel {
        path,
        offsets: Seq::empty(),
        schema: SchemaModel::blank(generation),
        scan_offset: 0,
        eof: false,
    }
}

/// Opens a large stream of documents.
pub fn open_lazy_ndjson(
    bytes: &[u8],
    sample_hash: u64,
    display_name: String,
    options: &OpenOptions,
    generation: SourceGeneration,
) -> (r: Result<OpenedTable<LazyNdjsonTable>, JsonError>)
    ensures
        ({
            let limit = scan_limit(options.schema_scan, options.schema_scan_bytes);
            let fresh = fresh_stream(json_rows::path_model(options.json_path), generation);
            let (table, _, fault) = stream_indexed(
                fresh,
                DeltaModel::nothing(),
                bytes@,
                None,
                Some(limit),
            );
            match (r, fault) {
                (Err(e), Some(m)) => e@ == m,
                (Ok(opened), None) => {
                    &&& opened.generation == generation
                    &&& opened.store.well_formed()
                    &&& opened.store.generation == generation
                    &&& same_source(opened.store.fingerprint, bytes@, sample_hash)
                    &&& opened.store@ == (LazyStreamModel {
                        schema: json_schema::with_labels(table.schema),
                        ..table
                    })
                    &&& defines(
                        opened.definition,
                        generation,
                        json_schema::with_labels(table.schema).columns,
                        table.eof,
                        display_name,
                    )
                    &&& opened.object_mode is None
                    &&& opened.warnings@.len() == 0
                },
                _ => false,
            }
        }),
{
    let mut store = LazyNdjsonTable::new(bytes, &options.json_path, sample_hash, generation);
    let limit: u64 = limit_of(options);
    match store.index_until(bytes, sample_hash, None, Some(limit)) {
        Ok(_) => {},
        Err(e) => {
            return Err(e);
        },
    }
    store.schema.assign_initial_labels();
    let definition = define(&store.schema, generation, store.eof, display_name);
    Ok(OpenedTable { generation, definition, store, object_mode: None, warnings: Vec::new() })
}

// ---------------------------------------------------------------------------
// Laws
// ---------------------------------------------------------------------------

/// An entry that is refused, for a repeated key among other things, leaves the
/// table as it was.
pub proof fn refused_entries_change_nothing(
    table: LazyObjectModel,
    delta: DeltaModel,
    bytes: Seq<u8>,
)
    ensures
        object_advanced(table, delta, bytes).found is Err ==> object_advanced(
            table,
            delta,
            bytes,
        ).table == table && object_advanced(table, delta, bytes).delta == delta,
{
}

/// However far an object is read, no key is listed twice, and what was listed
/// stays in its place.
pub proof fn reading_on_keeps_entries(
    table: LazyObjectModel,
    delta: DeltaModel,
    bytes: Seq<u8>,
    target: Option<usize>,
    limit: Option<u64>,
)
    requires
        table.well_formed(bytes.len() as int),
    ensures
        ({
            let after = object_indexed(table, delta, bytes, target, limit).0;
            &&& after.well_formed(bytes.len() as int)
            &&& table.entries.len() <= after.entries.len()
            &&& after.entries.take(table.entries.len() as int) == table.entries
            &&& json_schema::extends(table.schema, after.schema)
        }),
    decreases bytes.len() - table.scan_offset,
{
    let paths = table.schema.paths;
    assert(paths.take(paths.len() as int) =~= paths);
    assert(table.entries.take(table.entries.len() as int) =~= table.entries);
    if wants_more(table.eof, table.entries.len(), table.bytes_scanned, target, limit) {
        lemma_next_entry(bytes, table.scan_offset, offset_keys(table.entries));
        let step = object_advanced(table, delta, bytes);
        if step.found is Ok {
            let next = step.table;
            if let EntryStep::Entry { place, value, .. } = next_entry(
                bytes,
                table.scan_offset,
                offset_keys(table.entries),
            ) {
                let row = json_rows::keyed_row(place.key, value, place.source_bytes);
                json_schema::lemma_cells_extend(
                    SchemaStep { schema: table.schema, delta },
                    row.cells,
                    row.cells.len() as int,
                );
                assert(offset_keys(next.entries) =~= offset_keys(table.entries).push(place.key));
            }
            reading_on_keeps_entries(next, step.delta, bytes, target, limit);
            let after = object_indexed(next, step.delta, bytes, target, limit).0;
            assert(after.entries.take(table.entries.len() as int) =~= after.entries.take(
                next.entries.len() as int,
            ).take(table.entries.len() as int));
            assert(next.entries.take(table.entries.len() as int) =~= table.entries);
            json_schema::lemma_extends_transitive(table.schema, next.schema, after.schema);
        }
    }
}

/// A file is the same as before where its length and the hash of its sample are.
pub proof fn files_are_known_by_length_and_hash(
    known: JsonSourceFingerprint,
    bytes: Seq<u8>,
    sample_hash: u64,
)
    ensures
        same_source(known, bytes, sample_hash) <==> known.len == bytes.len() && known.sample_hash
            == sample_hash,
        bytes.len() != known.len ==> !same_source(known, bytes, sample_hash),
        sample_hash != known.sample_hash ==> !same_source(known, bytes, sample_hash),
{
}

/// A repeated key is refused, the end of the object ends its entries, and an entry is the
/// last where the object ends behind it.
pub proof fn entries_are_told_by_their_signs(bytes: Seq<u8>, at: int, seen: Seq<Seq<char>>)
    requires
        0 <= at <= bytes.len(),
    ensures
        ({
            let start = json_scan::solid(bytes, at);
            let step = next_entry(bytes, at, seen);
            &&& start >= bytes.len() ==> step == EntryStep::Fail(
                JsonErrorModel::UnterminatedSelectedObject,
            )
            &&& start < bytes.len() && bytes[start] == '}' as u8 ==> step == EntryStep::End(
                start + 1,
            )
            &&& step matches EntryStep::Entry { place, value, next, last } ==> {
                &&& !seen.contains(place.key)
                &&& json_value::json_first(bytes.skip(place.value_start)) == Ok::<
                    Json,
                    crate::json_value::FaultModel,
                >(value)
                &&& json_scan::next_byte(bytes, place.value_end) == Some(
                    (
                        if last {
                            '}' as u8
                        } else {
                            ',' as u8
                        },
                        next,
                    ),
                )
                &&& json_scan::key_at(bytes, start) is Ok
                &&& place.source_bytes == (place.value_end - start) as u64
            }
        }),
{
}

/// Reading on stops at the end, behind the row that is wanted, and where enough was
/// scanned, and at nothing else.
pub proof fn reading_stops_when_there_is_enough(
    rows: nat,
    scanned: u64,
    target: usize,
    limit: u64,
)
    ensures
        !wants_more(true, rows, scanned, None, None),
        wants_more(false, rows, scanned, None, None),
        wants_more(false, rows, scanned, Some(target), None) <==> rows <= target,
        wants_more(false, rows, scanned, None, Some(limit)) <==> scanned < limit,
        wants_more(false, rows, scanned, Some(target), Some(limit)) <==> rows <= target && scanned
            < limit,
{
}

/// A count is exact once all was read, and before that at least what was, where anything
/// was.
pub proof fn counts_are_exact_at_the_end(rows: usize)
    ensures
        indexed_count(true, rows as nat) == RowCount::Exact(rows),
        rows > 0 ==> indexed_count(false, rows as nat) == RowCount::AtLeast(rows),
        indexed_count(false, 0) is Unknown,
{
}

/// Each entry that is read is one row more, with its key in front, and notes its place.
pub proof fn entries_become_rows(
    table: LazyObjectModel,
    delta: DeltaModel,
    bytes: Seq<u8>,
    place: OffsetModel,
    value: Json,
    next: int,
    last: bool,
)
    requires
        next_entry(bytes, table.scan_offset, offset_keys(table.entries)) == (EntryStep::Entry {
            place,
            value,
            next,
            last,
        }),
    ensures
        ({
            let step = object_advanced(table, delta, bytes);
            &&& step.table.entries == table.entries.push(place)
            &&& step.table.scan_offset == next
            &&& step.table.eof == last
            &&& step.found == Ok::<Option<Json>, JsonErrorModel>(Some(value))
            &&& step.table.schema == json_schema::row_observed(
                SchemaStep { schema: table.schema, delta },
                json_rows::keyed_row(place.key, value, place.source_bytes),
            ).schema
            &&& table.bytes_scanned + place.source_bytes <= u64::MAX ==> step.table.bytes_scanned
                == table.bytes_scanned + place.source_bytes
            &&& last ==> step.delta.completed
        }),
{
}

/// Reading an object on ends where nothing more is wanted, and what a fault leaves behind
/// is what was read before it.
pub proof fn objects_are_read_entry_by_entry(
    table: LazyObjectModel,
    delta: DeltaModel,
    bytes: Seq<u8>,
    target: Option<usize>,
    limit: Option<u64>,
)
    requires
        0 <= table.scan_offset <= bytes.len(),
    ensures
        !wants_more(table.eof, table.entries.len(), table.bytes_scanned, target, limit)
            ==> object_indexed(table, delta, bytes, target, limit) == (
            table,
            delta,
            None::<JsonErrorModel>,
        ),
        wants_more(table.eof, table.entries.len(), table.bytes_scanned, target, limit) ==> match (
        object_advanced(table, delta, bytes)).found {
            Err(e) => object_indexed(table, delta, bytes, target, limit) == (table, delta, Some(e)),
            Ok(_) => {
                let step = object_advanced(table, delta, bytes);
                object_indexed(table, delta, bytes, target, limit) == object_indexed(
                    step.table,
                    step.delta,
                    bytes,
                    target,
                    limit,
                )
            },
        },
{
    lemma_next_entry(bytes, table.scan_offset, offset_keys(table.entries));
}

/// The value of an entry is read where the entry noted it, and the values of a record in
/// their order, the first fault deciding.
pub proof fn values_are_read_where_they_stand(
    entries: Seq<OffsetModel>,
    bytes: Seq<u8>,
    n: int,
    i: int,
)
    requires
        0 <= i < n <= entries.len(),
    ensures
        values_read(entries, bytes, n) matches Ok(values) ==> values.len() == n
            && json_value::json_read(
            bytes.subrange(entries[i].value_start, entries[i].value_end),
        ) == Ok::<Json, crate::json_value::FaultModel>(values[i]),
        json_value::json_read(bytes.subrange(entries[i].value_start, entries[i].value_end)) is Err
            ==> values_read(entries, bytes, n) is Err,
        values_read(entries, bytes, n) matches Ok(values) ==> members_of(entries, values).len()
            == values.len() && members_of(entries, values)[i] == (entries[i].key, values[i]),
    decreases n,
{
    if i < n - 1 {
        values_are_read_where_they_stand(entries, bytes, n - 1, i);
    } else if n > 1 {
        values_are_read_where_they_stand(entries, bytes, n - 1, 0);
    }
}

/// A full scan has no limit, and any other the one that it is given.
pub proof fn full_scans_have_no_limit(limit: u64)
    ensures
        scan_limit(SchemaScan::Full, limit) == u64::MAX,
        scan_limit(SchemaScan::Default, limit) == limit,
{
}

/// Tables begin behind the bracket of their container, or at the beginning of the file,
/// with nothing read.
pub proof fn tables_begin_with_nothing_read(at: int, path: PathModel, generation: SourceGeneration)
    ensures
        fresh_array(at, generation).scan_offset == at + 1,
        fresh_array(at, generation).offsets.len() == 0,
        !fresh_array(at, generation).eof,
        fresh_object(at, generation).scan_offset == at + 1,
        fresh_object(at, generation).entries.len() == 0,
        !fresh_object(at, generation).eof,
        fresh_stream(path, generation).scan_offset == 0,
        fresh_stream(path, generation).offsets.len() == 0,
        fresh_stream(path, generation).path == path,
        !fresh_stream(path, generation).eof,
{
}

/// A mode that is asked for decides how an object is read before anything of it is; only
/// where none is asked for is it read to see what it looks like.
pub proof fn asked_modes_need_no_sample(
    at: int,
    bytes: Seq<u8>,
    generation: SourceGeneration,
)
    requires
        0 <= at < bytes.len(),
    ensures
        object_told(at, ObjectMode::Record, bytes, generation) == (
            fresh_object(at, generation),
            ResolvedObjectMode::Record,
            None::<JsonErrorModel>,
        ),
        object_told(at, ObjectMode::Entries, bytes, generation) == (
            fresh_object(at, generation),
            ResolvedObjectMode::Entries,
            None::<JsonErrorModel>,
        ),
        ({
            let (_, values, fault) = sampled(fresh_object(at, generation), Seq::empty(), bytes);
            let (_, resolved, told) = object_told(at, ObjectMode::Auto, bytes, generation);
            &&& told == fault
            &&& resolved is Entries <==> json_rows::is_keyed(values)
        }),
{
}

/// An item of an array notes where it begins and adds its row; the closing bracket ends
/// the array.
pub proof fn items_note_where_they_begin(table: LazyArrayModel, delta: DeltaModel, bytes: Seq<u8>)
    requires
        0 <= table.scan_offset <= bytes.len(),
    ensures
        ({
            let start = json_scan::solid(bytes, table.scan_offset);
            let (next, told, fault) = array_advanced(table, delta, bytes);
            &&& start >= bytes.len() ==> fault == Some(JsonErrorModel::UnterminatedSelectedArray)
            &&& start < bytes.len() && bytes[start] == ']' as u8 ==> next.eof && next.offsets
                == table.offsets && fault is None && told.completed
            &&& fault is None && !(start < bytes.len() && bytes[start] == ']' as u8)
                ==> next.offsets == table.offsets.push(start as usize)
            &&& fault is Some ==> next.eof == table.eof
            &&& next.offsets.len() > table.offsets.len() ==> next.schema
                == json_schema::row_observed(
                SchemaStep { schema: table.schema, delta },
                json_rows::flat_row(json_value::json_first(bytes.skip(start))->Ok_0),
            ).schema
        }),
{
}

/// A document of a stream notes where it begins and adds the row of what its path
/// selects; where none follows the stream has ended.
pub proof fn documents_note_where_they_begin(
    table: LazyStreamModel,
    delta: DeltaModel,
    bytes: Seq<u8>,
)
    ensures
        ({
            let found = json_value::json_next(bytes.skip(table.scan_offset));
            let (next, _, fault) = stream_advanced(table, delta, bytes);
            &&& found.0 is None ==> next.eof && next.offsets == table.offsets && fault is None
            &&& found.0 is Some && fault is None ==> next.offsets == table.offsets.push(
                table.scan_offset as usize,
            ) && next.eof == table.eof
            &&& fault is None ==> next.scan_offset == table.scan_offset + found.1
            &&& fault is Some ==> next == table
            &&& found.0 matches Some(Ok(document)) ==> (fault is None
                <==> json_rows::document_row(document, table.path) is Ok)
        }),
{
}

/// An array and a stream are read on one by one, until there is enough or a fault is
/// found.
pub proof fn arrays_and_streams_are_read_one_by_one(
    array: LazyArrayModel,
    stream: LazyStreamModel,
    delta: DeltaModel,
    bytes: Seq<u8>,
    target: Option<usize>,
    limit: Option<u64>,
)
    requires
        0 <= array.scan_offset <= bytes.len(),
    ensures
        !wants_more(array.eof, array.offsets.len(), array.bytes_scanned, target, limit)
            ==> array_indexed(array, delta, bytes, target, limit) == (
            array,
            delta,
            None::<JsonErrorModel>,
        ),
        wants_more(array.eof, array.offsets.len(), array.bytes_scanned, target, limit) ==> {
            let (next, told, fault) = array_advanced(array, delta, bytes);
            array_indexed(array, delta, bytes, target, limit) == match fault {
                Some(e) => (next, told, Some(e)),
                None => array_indexed(next, told, bytes, target, limit),
            }
        },
        !wants_more(
            stream.eof,
            stream.offsets.len(),
            stream.scan_offset as u64,
            target,
            limit,
        ) ==> stream_indexed(stream, delta, bytes, target, limit) == (
            stream,
            delta,
            None::<JsonErrorModel>,
        ),
        wants_more(
            stream.eof,
            stream.offsets.len(),
            stream.scan_offset as u64,
            target,
            limit,
        ) && (stream_advanced(stream, delta, bytes) matches (_, _, Some(_))) ==> stream_indexed(
            stream,
            delta,
            bytes,
            target,
            limit,
        ) == stream_advanced(stream, delta, bytes),
{
    lemma_array_advanced(array, delta, bytes);
}

/// A record is read whole before it is a row, and its members stand in their order.
pub proof fn records_are_read_whole(entries: Seq<OffsetModel>, bytes: Seq<u8>)
    ensures
        values_read(entries, bytes, entries.len() as int) matches Ok(values) ==> record_read(
            entries,
            bytes,
        ) == Ok::<FlatRowModel, JsonErrorModel>(
            json_rows::flat_row(Json::Object(members_of(entries, values))),
        ),
        values_read(entries, bytes, entries.len() as int) matches Err(e) ==> record_read(
            entries,
            bytes,
        ) == Err::<FlatRowModel, JsonErrorModel>(e),
{
}

/// A table is complete where its end was read and provisional before, and shows its
/// header under the name that it is given.
pub proof fn definitions_tell_what_is_known(
    definition: TableDefinition,
    generation: SourceGeneration,
    columns: Seq<ColumnModel>,
    eof: bool,
    display_name: String,
)
    requires
        defines(definition, generation, columns, eof, display_name),
    ensures
        definition.schema_state is Complete <==> eof,
        definition.schema_state is Provisional <==> !eof,
        definition.relation.header_visible,
        definition.relation.display_name == display_name,
        definition.relation.name == display_name,
        table::column_views(definition.columns@) == columns,
        definition.generation == generation,
{
}

/// An object that is opened as a record has one row, that of all its members; as entries
/// it has what was read of them, and both tell how the object was read.
pub proof fn objects_open_in_their_mode(
    r: Result<LazyJsonTable, JsonError>,
    bytes: Seq<u8>,
    at: int,
    sample_hash: u64,
    display_name: String,
    options: OpenOptions,
    generation: SourceGeneration,
)
    requires
        0 <= at < bytes.len(),
        object_opening(r, bytes, at, sample_hash, display_name, options, generation),
    ensures
        options.object_mode is Record ==> !(r matches Ok(LazyJsonTable::Entries(_))),
        options.object_mode is Entries ==> !(r matches Ok(LazyJsonTable::Record(_))),
        r matches Ok(LazyJsonTable::Record(opened)) ==> opened.store.rows@.len() == 1
            && opened.object_mode is Some && opened.object_mode->0.resolved is Record
            && opened.object_mode->0.requested == options.object_mode
            && opened.definition.schema_state is Complete,
        r matches Ok(LazyJsonTable::Entries(opened)) ==> opened.object_mode is Some
            && opened.object_mode->0.resolved is Entries && opened.object_mode->0.requested
            == options.object_mode && (opened.definition.schema_state is Complete
            <==> opened.store.eof) && opened.store.schema@.labels_assigned,
        !(r matches Ok(LazyJsonTable::Items(_))),
{
    asked_modes_need_no_sample(at, bytes, generation);
}

/// An array that is opened has read its items up to the limit of the scan, and has labels.
pub proof fn arrays_open_with_labels(
    r: Result<OpenedTable<LazyJsonArrayTable>, JsonError>,
    bytes: Seq<u8>,
    at: int,
    sample_hash: u64,
    display_name: String,
    options: OpenOptions,
    warnings: Seq<Seq<char>>,
    generation: SourceGeneration,
)
    requires
        array_opening(r, bytes, at, sample_hash, display_name, options, warnings, generation),
    ensures
        r matches Ok(opened) ==> {
            &&& opened.object_mode is None
            &&& text::views(opened.warnings@) == warnings
            &&& opened.store.schema@.labels_assigned
            &&& opened.store.fingerprint.len == bytes.len()
            &&& opened.store.fingerprint.sample_hash == sample_hash
            &&& opened.definition.schema_state is Complete <==> opened.store.eof
            &&& table::column_views(opened.definition.columns@) == opened.store.schema@.columns
        },
{
}

} // verus!
