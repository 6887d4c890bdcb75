//! Tables of JSON rows that are all at hand, or that arrive with a stream.

use vstd::prelude::*;

use crate::adapter::OpenedTable;
use crate::delimited_table::{InMemoryTable, Snapshot};
use crate::json_rows::{self, FlatModel, FlatRow, FlatRowModel};
use crate::json_scan::{JsonError, JsonErrorModel};
use crate::json_schema::{self, JsonSchema, SchemaModel, SchemaStep, typed_row_from_flat};
use crate::json_select::{self, ParsedModel, parse_available_json_rows};
use crate::json_value::Json;
use crate::options::{
    self, InputFormat, JsonPointer, ObjectMode, ObjectModeResolution, OpenOptions, SchemaScan,
    SourceOptionError, SourceOptionErrorModel,
};
use crate::source::InputSource;
use crate::table::{
    self, CellValue, DeltaModel, IndexProgress, RelationMetadata, Row, RowCount, RowId,
    SchemaDelta, SchemaState, SourceGeneration, TableDefinition, clone_columns,
};
use crate::text::{self, contains_text};

verus! {

// ---------------------------------------------------------------------------
// Observing rows
// ---------------------------------------------------------------------------

/// A schema with its changes, and the size of the rows that were observed.
pub struct IndexState {
    pub step: SchemaStep,
    pub bytes: u64,
}

/// What observing the rows from `from` up to `to` does.
pub open spec fn rows_observed(
    state: IndexState,
    rows: Seq<FlatRowModel>,
    from: int,
    to: int,
) -> IndexState
    decreases to - from,
{
    if from < 0 || to <= from || to > rows.len() {
        state
    } else {
        let before = rows_observed(state, rows, from, to - 1);
        IndexState {
            step: json_schema::row_observed(before.step, rows[to - 1]),
            bytes: before.bytes.saturating_add(rows[to - 1].source_bytes),
        }
    }
}

/// How many rows are observed at first, from the `i`-th on when the ones before
/// it took `bytes`: the row that reaches the limit is the last.
pub open spec fn first_rows(rows: Seq<FlatRowModel>, i: int, bytes: u64, limit: u64) -> int
    decreases rows.len() - i,
{
    if i < 0 || i >= rows.len() {
        i
    } else {
        let taken = bytes.saturating_add(rows[i].source_bytes);
        if taken >= limit {
            i + 1
        } else {
            first_rows(rows, i + 1, taken, limit)
        }
    }
}

/// How many rows are observed before a table is shown: all, or as many as fit.
pub open spec fn initial_rows(rows: Seq<FlatRowModel>, scan: SchemaScan, limit: u64) -> int {
    match scan {
        SchemaScan::Full => rows.len() as int,
        SchemaScan::Default => first_rows(rows, 0, 0, limit),
    }
}

fn count_initial(rows: &Vec<FlatRow>, scan: SchemaScan, limit: u64) -> (r: usize)
    ensures
        r == initial_rows(json_rows::flat_row_views(rows@), scan, limit),
        r <= rows@.len(),
{
    let ghost all = json_rows::flat_row_views(rows@);
    match scan {
        SchemaScan::Full => rows.len(),
        SchemaScan::Default => {
            let mut i: usize = 0;
            let mut bytes: u64 = 0;
            while i < rows.len()
                invariant
                    i <= rows@.len(),
                    scan is Default,
                    all == json_rows::flat_row_views(rows@),
                    first_rows(all, 0, 0, limit) == first_rows(all, i as int, bytes, limit),
                decreases rows@.len() - i,
            {
                bytes = bytes.saturating_add(rows[i].source_bytes);
                i = i + 1;
                if bytes >= limit {
                    return i;
                }
            }
            i
        },
    }
}

fn observe_rows(
    schema: &mut JsonSchema,
    delta: &mut SchemaDelta,
    bytes: u64,
    rows: &Vec<FlatRow>,
    from: usize,
    to: usize,
) -> (r: u64)
    requires
        old(schema)@.well_formed(),
        from <= to <= rows@.len(),
    ensures
        final(schema)@.well_formed(),
        (IndexState {
            step: SchemaStep { schema: final(schema)@, delta: final(delta)@ },
            bytes: r,
        }) == rows_observed(
            IndexState { step: SchemaStep { schema: old(schema)@, delta: old(delta)@ }, bytes },
            json_rows::flat_row_views(rows@),
            from as int,
            to as int,
        ),
{
    let ghost all = json_rows::flat_row_views(rows@);
    let ghost begin = IndexState {
        step: SchemaStep { schema: schema@, delta: delta@ },
        bytes,
    };
    let mut total: u64 = bytes;
    let mut i: usize = from;
    while i < to
        invariant
            from <= i <= to <= rows@.len(),
            all == json_rows::flat_row_views(rows@),
            schema@.well_formed(),
            (IndexState {
                step: SchemaStep { schema: schema@, delta: delta@ },
                bytes: total,
            }) == rows_observed(begin, all, from as int, i as int),
        decreases to - i,
    {
        assert(all[i as int] == rows@[i as int]@);
        schema.observe_into(&rows[i], delta);
        total = total.saturating_add(rows[i].source_bytes);
        i = i + 1;
    }
    total
}

// ---------------------------------------------------------------------------
// Rows at hand
// ---------------------------------------------------------------------------

/// A table of rows that are all at hand, of which the first were observed.
#[derive(Debug, PartialEq)]
pub struct JsonTableStore {
    pub generation: SourceGeneration,
    pub rows: Vec<FlatRow>,
    pub schema: JsonSchema,
    pub indexed_rows: usize,
    pub bytes_scanned: u64,
    pub complete: bool,
}

impl JsonTableStore {
    /// The observed rows are rows of the table; when all were, this is known.
    pub open spec fn well_formed(self) -> bool {
        &&& self.schema@.well_formed()
        &&& self.indexed_rows <= self.rows@.len()
        &&& self.complete == (self.indexed_rows == self.rows@.len())
    }

    /// The state of its index, with the given changes.
    pub open spec fn index(self, delta: DeltaModel) -> IndexState {
        IndexState {
            step: SchemaStep { schema: self.schema@, delta },
            bytes: self.bytes_scanned,
        }
    }

    /// How many rows are observed once the row at `index` is wanted.
    pub open spec fn target(self, index: usize) -> int {
        let wanted = if index.saturating_add(1) < self.rows@.len() {
            index.saturating_add(1) as int
        } else {
            self.rows@.len() as int
        };
        if wanted > self.indexed_rows {
            wanted
        } else {
            self.indexed_rows as int
        }
    }

    /// The number of rows.
    pub fn row_count(&self) -> (r: RowCount)
        ensures
            r == RowCount::Exact(self.rows@.len() as usize),
    {
        RowCount::Exact(self.rows.len())
    }

    /// The number of columns known so far.
    pub fn column_count(&self) -> (r: usize)
        ensures
            r == self.schema@.columns.len(),
    {
        self.schema.columns.len()
    }

    /// The row at some place, with its values in the columns known so far.
    pub fn typed_row(&self, index: usize) -> (r: Option<Row>)
        ensures
            r is Some <==> index < self.rows@.len(),
            r matches Some(row) ==> {
                &&& row.id == (RowId { generation: self.generation, ordinal: index as u64 })
                &&& table::cell_views(row.cells@) == json_schema::typed_cells(
                    self.rows@[index as int]@.cells,
                    self.schema@.columns,
                )
            },
    {
        if index < self.rows.len() {
            Some(typed_row_from_flat(self.generation, index, &self.rows[index], &self.schema))
        } else {
            None
        }
    }

    /// Observes the rows up to the one at `index`.
    pub fn ensure_indexed_through(&mut self, index: usize) -> (r: IndexProgress)
        requires
            old(self).well_formed(),
        ensures
            final(self).well_formed(),
            final(self).generation == old(self).generation,
            final(self).rows == old(self).rows,
            final(self).indexed_rows == old(self).target(index),
            r.row_count == RowCount::Exact(old(self).rows@.len() as usize),
            r.bytes_scanned == final(self).bytes_scanned,
            ({
                let after = rows_observed(
                    old(self).index(DeltaModel::nothing()),
                    json_rows::flat_row_views(old(self).rows@),
                    old(self).indexed_rows as int,
                    old(self).target(index),
                );
                &&& final(self).schema@ == after.step.schema
                &&& final(self).bytes_scanned == after.bytes
                &&& r.schema_delta@ == (DeltaModel {
                    completed: final(self).complete && !old(self).complete,
                    ..after.step.delta
                })
            }),
    {
        let wanted: usize = if index.saturating_add(1) < self.rows.len() {
            index.saturating_add(1)
        } else {
            self.rows.len()
        };
        let mut delta = SchemaDelta::default();
        let ghost begin = self.index(DeltaModel::nothing());
        let ghost all = json_rows::flat_row_views(self.rows@);
        if wanted > self.indexed_rows {
            self.bytes_scanned = observe_rows(
                &mut self.schema,
                &mut delta,
                self.bytes_scanned,
                &self.rows,
                self.indexed_rows,
                wanted,
            );
            self.indexed_rows = wanted;
        }
        proof {
            lemma_completed_stays(begin, all, old(self).indexed_rows as int, self.indexed_rows as int);
        }
        if self.indexed_rows == self.rows.len() && !self.complete {
            self.complete = true;
            delta.completed = true;
        }
        IndexProgress {
            row_count: RowCount::Exact(self.rows.len()),
            schema_delta: delta,
            bytes_scanned: self.bytes_scanned,
        }
    }

    /// The row at some place, once it was observed.
    pub fn row(&mut self, index: usize) -> (r: Option<Row>)
        requires
            old(self).well_formed(),
        ensures
            final(self).well_formed(),
            final(self).generation == old(self).generation,
            final(self).rows == old(self).rows,
            final(self).indexed_rows == old(self).target(index),
            ({
                let after = rows_observed(
                    old(self).index(DeltaModel::nothing()),
                    json_rows::flat_row_views(old(self).rows@),
                    old(self).indexed_rows as int,
                    old(self).target(index),
                );
                &&& final(self).schema@ == after.step.schema
                &&& final(self).bytes_scanned == after.bytes
            }),
            r is Some <==> index < old(self).rows@.len(),
            r matches Some(row) ==> {
                &&& row.id == (RowId { generation: old(self).generation, ordinal: index as u64 })
                &&& table::cell_views(row.cells@) == json_schema::typed_cells(
                    old(self).rows@[index as int]@.cells,
                    final(self).schema@.columns,
                )
            },
    {
        let _ = self.ensure_indexed_through(index);
        self.typed_row(index)
    }

    /// All rows, once all were observed.
    pub fn materialize(&mut self) -> (r: InMemoryTable)
        requires
            old(self).well_formed(),
        ensures
            final(self).well_formed(),
            final(self).generation == old(self).generation,
            final(self).rows == old(self).rows,
            final(self).complete,
            ({
                let after = rows_observed(
                    old(self).index(DeltaModel::nothing()),
                    json_rows::flat_row_views(old(self).rows@),
                    old(self).indexed_rows as int,
                    old(self).rows@.len() as int,
                );
                &&& final(self).schema@ == after.step.schema
                &&& final(self).bytes_scanned == after.bytes
            }),
            r.generation == old(self).generation,
            r.rows@.len() == old(self).rows@.len(),
            forall|i: int|
                0 <= i < r.rows@.len() ==> table::cell_views((#[trigger] r.rows@[i])@) == json_schema::typed_cells(
                    old(self).rows@[i]@.cells,
                    final(self).schema@.columns,
                ),
    {
        let _ = self.ensure_indexed_through(usize::MAX);
        let mut rows: Vec<Vec<CellValue>> = Vec::new();
        let mut i: usize = 0;
        while i < self.rows.len()
            invariant
                i <= self.rows@.len(),
                rows@.len() == i,
                forall|k: int|
                    0 <= k < i ==> table::cell_views((#[trigger] rows@[k])@) == json_schema::typed_cells(
                        self.rows@[k]@.cells,
                        self.schema@.columns,
                    ),
            decreases self.rows@.len() - i,
        {
            let row = typed_row_from_flat(self.generation, i, &self.rows[i], &self.schema);
            rows.push(row.cells);
            i = i + 1;
        }
        InMemoryTable { generation: self.generation, rows }
    }
}

proof fn lemma_cells_keep_completed(step: SchemaStep, cells: Seq<FlatModel>, n: int)
    ensures
        json_schema::cells_observed(step, cells, n).delta.completed == step.delta.completed,
    decreases n,
{
    if 0 < n <= cells.len() {
        lemma_cells_keep_completed(step, cells, n - 1);
    }
}

proof fn lemma_completed_stays(state: IndexState, rows: Seq<FlatRowModel>, from: int, to: int)
    ensures
        rows_observed(state, rows, from, to).step.delta.completed == state.step.delta.completed,
    decreases to - from,
{
    if 0 <= from < to <= rows.len() {
        lemma_completed_stays(state, rows, from, to - 1);
        let before = rows_observed(state, rows, from, to - 1);
        lemma_cells_keep_completed(
            before.step,
            rows[to - 1].cells,
            rows[to - 1].cells.len() as int,
        );
    }
}

/// The columns a table of the given rows is shown with at first.
pub open spec fn opened_schema(
    generation: SourceGeneration,
    rows: Seq<FlatRowModel>,
    count: int,
) -> IndexState {
    let state = rows_observed(
        IndexState { step: json_schema::unchanged(SchemaModel::blank(generation)), bytes: 0 },
        rows,
        0,
        count,
    );
    IndexState {
        step: SchemaStep { schema: json_schema::with_labels(state.step.schema), delta: state.step.delta },
        bytes: state.bytes,
    }
}

/// Opens rows as a table: the first rows are observed for its columns.
pub fn open_json_rows_with_metadata(
    rows: Vec<FlatRow>,
    display_name: String,
    options: &OpenOptions,
    object_mode: Option<ObjectModeResolution>,
    warnings: Vec<String>,
    generation: SourceGeneration,
) -> (r: OpenedTable<JsonTableStore>)
    ensures
        r.generation == generation,
        r.definition.generation == generation,
        r.definition.relation.name == display_name,
        r.definition.relation.display_name == display_name,
        r.definition.relation.header_visible,
        r.object_mode == object_mode,
        r.warnings == warnings,
        r.store.well_formed(),
        r.store.generation == generation,
        r.store.rows == rows,
        ({
            let all = json_rows::flat_row_views(rows@);
            let count = initial_rows(all, options.schema_scan, options.schema_scan_bytes);
            let opened = opened_schema(generation, all, count);
            &&& r.store.indexed_rows == count
            &&& r.store.schema@ == opened.step.schema
            &&& r.store.bytes_scanned == opened.bytes
            &&& table::column_views(r.definition.columns@) == opened.step.schema.columns
            &&& r.definition.schema_state == if count == rows@.len() {
                SchemaState::Complete
            } else {
                SchemaState::Provisional
            }
        }),
{
    let ghost all = json_rows::flat_row_views(rows@);
    let count: usize = count_initial(&rows, options.schema_scan, options.schema_scan_bytes);
    let mut schema = JsonSchema::new(generation);
    let mut delta = SchemaDelta::default();
    let bytes_scanned: u64 = observe_rows(&mut schema, &mut delta, 0, &rows, 0, count);
    schema.assign_initial_labels();
    let complete = count == rows.len();
    let definition = TableDefinition {
        generation,
        columns: clone_columns(&schema.columns),
        schema_state: if complete {
            SchemaState::Complete
        } else {
            SchemaState::Provisional
        },
        relation: RelationMetadata::implicit(display_name, true),
    };
    let store = JsonTableStore {
        generation,
        rows,
        schema,
        indexed_rows: count,
        bytes_scanned,
        complete,
    };
    OpenedTable { generation, definition, store, object_mode, warnings }
}

/// Opens rows as a table, with nothing to be said of them.
pub fn open_json_rows(
    rows: Vec<FlatRow>,
    display_name: String,
    options: &OpenOptions,
    generation: SourceGeneration,
) -> (r: OpenedTable<JsonTableStore>)
    ensures
        r.generation == generation,
        r.definition.generation == generation,
        r.definition.relation.name == display_name,
        r.definition.relation.display_name == display_name,
        r.definition.relation.header_visible,
        r.object_mode is None,
        r.warnings@.len() == 0,
        r.store.well_formed(),
        r.store.generation == generation,
        r.store.rows == rows,
        ({
            let all = json_rows::flat_row_views(rows@);
            let count = initial_rows(all, options.schema_scan, options.schema_scan_bytes);
            let opened = opened_schema(generation, all, count);
            &&& r.store.indexed_rows == count
            &&& r.store.schema@ == opened.step.schema
            &&& r.store.bytes_scanned == opened.bytes
            &&& table::column_views(r.definition.columns@) == opened.step.schema.columns
            &&& r.definition.schema_state == if count == rows@.len() {
                SchemaState::Complete
            } else {
                SchemaState::Provisional
            }
        }),
{
    open_json_rows_with_metadata(rows, display_name, options, None, Vec::new(), generation)
}

// ---------------------------------------------------------------------------
// Streams
// ---------------------------------------------------------------------------

/// A table of rows that arrive with a stream.
#[derive(Debug, PartialEq)]
pub struct StreamingJsonTable {
    pub generation: SourceGeneration,
    pub format: InputFormat,
    pub pointer: Option<JsonPointer>,
    pub options: OpenOptions,
    pub rows: Vec<FlatRow>,
    pub schema: JsonSchema,
    pub indexed_rows: usize,
    pub bytes_scanned: u64,
    pub last_bytes: usize,
    pub input_complete: bool,
    pub schema_complete: bool,
    pub object_mode: Option<ObjectModeResolution>,
    pub warnings: Vec<String>,
}

/// What is known of a stream: its rows, how they were taken, and how much of it
/// has arrived.
pub struct StreamModel {
    pub rows: Seq<FlatRowModel>,
    pub object_mode: Option<ObjectModeResolution>,
    pub warnings: Seq<Seq<char>>,
    pub last_bytes: nat,
    pub complete: bool,
}

/// Adds the first `n` warnings that were not given yet.
pub open spec fn with_warnings(known: Seq<Seq<char>>, new: Seq<Seq<char>>, n: int) -> Seq<Seq<char>>
    decreases n,
{
    if n <= 0 || n > new.len() {
        known
    } else {
        let before = with_warnings(known, new, n - 1);
        if before.contains(new[n - 1]) {
            before
        } else {
            before.push(new[n - 1])
        }
    }
}

/// What is known of a stream once something has been read of what arrived. Rows
/// that were read never become fewer.
pub open spec fn stream_read(model: StreamModel, parsed: ParsedModel, bytes: nat, complete: bool) -> StreamModel {
    StreamModel {
        rows: if parsed.rows.len() >= model.rows.len() {
            parsed.rows
        } else {
            model.rows
        },
        object_mode: if parsed.object_mode is Some {
            parsed.object_mode
        } else {
            model.object_mode
        },
        warnings: with_warnings(model.warnings, parsed.warnings, parsed.warnings.len() as int),
        last_bytes: bytes,
        complete,
    }
}

/// What is known of a stream before any of it was read.
pub open spec fn no_stream() -> StreamModel {
    StreamModel {
        rows: Seq::empty(),
        object_mode: None,
        warnings: Seq::empty(),
        last_bytes: usize::MAX as nat,
        complete: false,
    }
}

impl StreamingJsonTable {
    /// What is known of the stream.
    pub open spec fn stream(self) -> StreamModel {
        StreamModel {
            rows: json_rows::flat_row_views(self.rows@),
            object_mode: self.object_mode,
            warnings: text::views(self.warnings@),
            last_bytes: self.last_bytes as nat,
            complete: self.input_complete,
        }
    }

    /// The observed rows are rows of the table.
    pub open spec fn well_formed(self) -> bool {
        &&& self.schema@.well_formed()
        &&& self.indexed_rows <= self.rows@.len()
    }

    /// The state of its index, with the given changes.
    pub open spec fn index(self, delta: DeltaModel) -> IndexState {
        IndexState {
            step: SchemaStep { schema: self.schema@, delta },
            bytes: self.bytes_scanned,
        }
    }

    /// Nothing but what is known of the stream has changed.
    pub open spec fn same_index(self, other: StreamingJsonTable) -> bool {
        &&& self.generation == other.generation
        &&& self.format == other.format
        &&& self.pointer == other.pointer
        &&& self.options == other.options
        &&& self.schema == other.schema
        &&& self.indexed_rows == other.indexed_rows
        &&& self.bytes_scanned == other.bytes_scanned
        &&& self.schema_complete == other.schema_complete
    }

    /// What is known of the stream once what has arrived was looked at.
    pub open spec fn refreshed(self, bytes: Seq<u8>, complete: bool) -> Result<
        StreamModel,
        JsonErrorModel,
    > {
        if bytes.len() == self.last_bytes && complete == self.input_complete {
            Ok(self.stream())
        } else {
            match json_select::available_table(
                bytes,
                complete,
                self.format,
                json_rows::path_model(self.pointer),
                self.options.object_mode,
                self.options.object_mode_origin,
            ) {
                Err(e) => Err(e),
                Ok(parsed) => Ok(stream_read(self.stream(), parsed, bytes.len(), complete)),
            }
        }
    }

    /// Looks at what has arrived. Nothing changes when it cannot be read.
    pub fn refresh_rows(&mut self, snapshot: &Snapshot) -> (r: Result<(), JsonError>)
        requires
            old(self).well_formed(),
        ensures
            final(self).well_formed(),
            final(self).same_index(*old(self)),
            match (r, old(self).refreshed(snapshot.bytes@, snapshot.complete)) {
                (Ok(_), Ok(m)) => final(self).stream() == m,
                (Err(e), Err(m)) => e@ == m && final(self).stream() == old(self).stream(),
                _ => false,
            },
    {
        if snapshot.bytes.len() == self.last_bytes && snapshot.complete == self.input_complete {
            return Ok(());
        }
        let parsed = match parse_available_json_rows(
            snapshot.bytes.as_slice(),
            snapshot.complete,
            self.format,
            &self.pointer,
            &self.options,
        ) {
            Ok(parsed) => parsed,
            Err(e) => {
                return Err(e);
            },
        };
        let ghost model = parsed@;
        if parsed.rows.len() >= self.rows.len() {
            self.rows = parsed.rows;
        }
        if parsed.object_mode.is_some() {
            self.object_mode = parsed.object_mode;
        }
        let warnings = parsed.warnings;
        let ghost known = text::views(self.warnings@);
        let ghost new = text::views(warnings@);
        let mut i: usize = 0;
        while i < warnings.len()
            invariant
                i <= warnings@.len(),
                new == text::views(warnings@),
                text::views(self.warnings@) == with_warnings(known, new, i as int),
                self.well_formed(),
                self.same_index(*old(self)),
                self.last_bytes == old(self).last_bytes,
                self.input_complete == old(self).input_complete,
                json_rows::flat_row_views(self.rows@) == (if model.rows.len() >= old(self).rows@.len() {
                    model.rows
                } else {
                    json_rows::flat_row_views(old(self).rows@)
                }),
                self.object_mode == (if model.object_mode is Some {
                    model.object_mode
                } else {
                    old(self).object_mode
                }),
            decreases warnings@.len() - i,
        {
            let warning = warnings[i].clone();
            assert(new[i as int] == warning@);
            if !contains_text(&self.warnings, &warning) {
                proof {
                    text::lemma_views_push(self.warnings@, warning);
                }
                self.warnings.push(warning);
            }
            i = i + 1;
        }
        self.last_bytes = snapshot.bytes.len();
        self.input_complete = snapshot.complete;
        Ok(())
    }

    /// The number of rows, as far as it is known.
    pub fn row_count(&self) -> (r: RowCount)
        ensures
            r == self.known_count(),
    {
        if self.input_complete {
            RowCount::Exact(self.rows.len())
        } else if self.rows.len() == 0 {
            RowCount::Unknown
        } else {
            RowCount::AtLeast(self.rows.len())
        }
    }

    /// The number of rows, as far as it is known.
    pub open spec fn known_count(self) -> RowCount {
        if self.input_complete {
            RowCount::Exact(self.rows@.len() as usize)
        } else if self.rows@.len() == 0 {
            RowCount::Unknown
        } else {
            RowCount::AtLeast(self.rows@.len() as usize)
        }
    }

    /// The row at some place, with its values in the columns known so far.
    pub fn row(&self, index: usize) -> (r: Option<Row>)
        ensures
            r is Some <==> index < self.rows@.len(),
            r matches Some(row) ==> {
                &&& row.id == (RowId { generation: self.generation, ordinal: index as u64 })
                &&& table::cell_views(row.cells@) == json_schema::typed_cells(
                    self.rows@[index as int]@.cells,
                    self.schema@.columns,
                )
            },
    {
        if index < self.rows.len() {
            Some(typed_row_from_flat(self.generation, index, &self.rows[index], &self.schema))
        } else {
            None
        }
    }

    /// How many rows are observed once the row at `index` is wanted: while the
    /// stream goes on, all that have arrived.
    pub open spec fn target(self, index: usize) -> int {
        let wanted = if self.input_complete && index.saturating_add(1) < self.rows@.len() {
            index.saturating_add(1) as int
        } else {
            self.rows@.len() as int
        };
        if wanted > self.indexed_rows {
            wanted
        } else {
            self.indexed_rows as int
        }
    }

    /// Looks at what has arrived, and observes the rows up to the one at `index`.
    pub fn ensure_indexed_through(&mut self, snapshot: &Snapshot, index: usize) -> (r: Result<
        IndexProgress,
        JsonError,
    >)
        requires
            old(self).well_formed(),
        ensures
            final(self).well_formed(),
            final(self).generation == old(self).generation,
            final(self).format == old(self).format,
            final(self).pointer == old(self).pointer,
            final(self).options == old(self).options,
            match (r, old(self).refreshed(snapshot.bytes@, snapshot.complete)) {
                (Err(e), Err(m)) => {
                    &&& e@ == m
                    &&& final(self).stream() == old(self).stream()
                    &&& final(self).same_index(*old(self))
                },
                (Ok(progress), Ok(m)) => {
                    let after = rows_observed(
                        old(self).index(DeltaModel::nothing()),
                        m.rows,
                        old(self).indexed_rows as int,
                        final(self).indexed_rows as int,
                    );
                    &&& final(self).stream() == m
                    &&& final(self).indexed_rows == (StreamingJsonTable {
                        indexed_rows: old(self).indexed_rows,
                        ..*final(self)
                    }).target(index)
                    &&& final(self).schema@ == after.step.schema
                    &&& final(self).bytes_scanned == after.bytes
                    &&& final(self).schema_complete == (old(self).schema_complete || (m.complete
                        && final(self).indexed_rows == m.rows.len()))
                    &&& progress.row_count == final(self).known_count()
                    &&& progress.bytes_scanned == after.bytes
                    &&& progress.schema_delta@ == (DeltaModel {
                        completed: final(self).schema_complete && !old(self).schema_complete,
                        ..after.step.delta
                    })
                },
                _ => false,
            },
    {
        match self.refresh_rows(snapshot) {
            Ok(_) => {},
            Err(e) => {
                return Err(e);
            },
        }
        let ghost begin = self.index(DeltaModel::nothing());
        let ghost all = json_rows::flat_row_views(self.rows@);
        let wanted: usize = if self.input_complete && index.saturating_add(1) < self.rows.len() {
            index.saturating_add(1)
        } else {
            self.rows.len()
        };
        let mut delta = SchemaDelta::default();
        if wanted > self.indexed_rows {
            self.bytes_scanned = observe_rows(
                &mut self.schema,
                &mut delta,
                self.bytes_scanned,
                &self.rows,
                self.indexed_rows,
                wanted,
            );
            self.indexed_rows = wanted;
        }
        proof {
            lemma_completed_stays(begin, all, old(self).indexed_rows as int, self.indexed_rows as int);
        }
        if self.input_complete && self.indexed_rows == self.rows.len() && !self.schema_complete {
            self.schema_complete = true;
            delta.completed = true;
        }
        Ok(
            IndexProgress {
                row_count: self.row_count(),
                schema_delta: delta,
                bytes_scanned: self.bytes_scanned,
            },
        )
    }
}

/// Opens a stream of which something may have arrived. With a full scan, the
/// snapshot is that of the whole stream.
pub fn open_streaming_json(
    snapshot: &Snapshot,
    display_name: String,
    format: InputFormat,
    options: &OpenOptions,
    generation: SourceGeneration,
) -> (r: Result<OpenedTable<StreamingJsonTable>, JsonError>)
    requires
        snapshot.bytes@.len() < usize::MAX,
    ensures
        match (
            r,
            json_select::available_table(
                snapshot.bytes@,
                snapshot.complete,
                format,
                json_rows::path_model(options.json_path),
                options.object_mode,
                options.object_mode_origin,
            ),
        ) {
            (Err(e), Err(m)) => e@ == m,
            (Ok(table), Ok(parsed)) => {
                let count = initial_rows(
                    parsed.rows,
                    options.schema_scan,
                    options.schema_scan_bytes,
                );
                let opened = opened_schema(generation, parsed.rows, count);
                &&& table.generation == generation
                &&& table.definition.generation == generation
                &&& table.definition.relation.name == display_name
                &&& table.definition.relation.display_name == display_name
                &&& table.definition.relation.header_visible
                &&& table::column_views(table.definition.columns@) == opened.step.schema.columns
                &&& table.definition.schema_state == if snapshot.complete && count
                    == parsed.rows.len() {
                    SchemaState::Complete
                } else {
                    SchemaState::Provisional
                }
                &&& table.object_mode == parsed.object_mode
                &&& text::views(table.warnings@) == with_warnings(
                    Seq::empty(),
                    parsed.warnings,
                    parsed.warnings.len() as int,
                )
                &&& table.store.well_formed()
                &&& table.store.generation == generation
                &&& table.store.format == format
                &&& json_rows::path_model(table.store.pointer) == json_rows::path_model(
                    options.json_path,
                )
                &&& options::same_options(table.store.options, *options)
                &&& table.store.stream() == stream_read(
                    no_stream(),
                    parsed,
                    snapshot.bytes@.len(),
                    snapshot.complete,
                )
                &&& table.store.indexed_rows == count
                &&& table.store.schema@ == opened.step.schema
                &&& table.store.bytes_scanned == opened.bytes
                &&& table.store.schema_complete == (snapshot.complete && count
                    == parsed.rows.len())
            },
            _ => false,
        },
{
    let mut store = StreamingJsonTable {
        generation,
        format,
        pointer: match &options.json_path {
            Some(path) => Some(path.clone()),
            None => None,
        },
        options: options.clone(),
        rows: Vec::new(),
        schema: JsonSchema::new(generation),
        indexed_rows: 0,
        bytes_scanned: 0,
        last_bytes: usize::MAX,
        input_complete: false,
        schema_complete: false,
        object_mode: None,
        warnings: Vec::new(),
    };
    assert(json_rows::flat_row_views(store.rows@) =~= Seq::<FlatRowModel>::empty());
    assert(text::views(store.warnings@) =~= Seq::<Seq<char>>::empty());
    match store.refresh_rows(snapshot) {
        Ok(_) => {},
        Err(e) => {
            return Err(e);
        },
    }
    let count: usize = count_initial(&store.rows, options.schema_scan, options.schema_scan_bytes);
    let mut delta = SchemaDelta::default();
    store.bytes_scanned = observe_rows(
        &mut store.schema,
        &mut delta,
        0,
        &store.rows,
        0,
        count,
    );
    store.indexed_rows = count;
    store.schema.assign_initial_labels();
    store.schema_complete = store.input_complete && count == store.rows.len();
    let definition = TableDefinition {
        generation,
        columns: clone_columns(&store.schema.columns),
        schema_state: if store.schema_complete {
            SchemaState::Complete
        } else {
            SchemaState::Provisional
        },
        relation: RelationMetadata::implicit(display_name, true),
    };
    let warnings = store.warnings.clone();
    assert(text::views(warnings@) =~= text::views(store.warnings@));
    let object_mode = store.object_mode;
    Ok(OpenedTable { generation, definition, store, object_mode, warnings })
}

// ---------------------------------------------------------------------------
// Choosing a reader
// ---------------------------------------------------------------------------

/// How a JSON source is read: row by row for a preview, as it arrives, over
/// positions in a large file, or whole.
#[derive(Debug, Clone, Copy, PartialEq, Eq, Structural)]
pub enum JsonReader {
    Preview,
    Streaming,
    LazyDocument,
    LazyStream,
    Document,
    Stream,
}

/// How a JSON source is read, by what it is and, for a file, by its length.
pub open spec fn json_reader(
    source: InputSource,
    file_len: u64,
    format: InputFormat,
    options: OpenOptions,
) -> Result<JsonReader, JsonErrorModel> {
    if options.fault() is Some {
        Err(JsonErrorModel::Options(options.fault()->0))
    } else if format is Ndjson && options.object_mode !is Auto {
        Err(
            JsonErrorModel::Options(
                SourceOptionErrorModel::ObjectModeRequiresObject { mode: options.object_mode },
            ),
        )
    } else if options.preview {
        Ok(JsonReader::Preview)
    } else if source is StreamingStdin {
        Ok(JsonReader::Streaming)
    } else {
        let large = source is Path && file_len >= options.lazy_threshold_bytes;
        match format {
            InputFormat::Json => Ok(
                if large {
                    JsonReader::LazyDocument
                } else {
                    JsonReader::Document
                },
            ),
            InputFormat::Ndjson => Ok(
                if large {
                    JsonReader::LazyStream
                } else {
                    JsonReader::Stream
                },
            ),
            _ => Err(JsonErrorModel::WrongFormat),
        }
    }
}

/// Chooses how a JSON source is read.
pub fn choose_json_reader(
    source: &InputSource,
    file_len: u64,
    format: InputFormat,
    options: &OpenOptions,
) -> (r: Result<JsonReader, JsonError>)
    ensures
        match (r, json_reader(*source, file_len, format, *options)) {
            (Ok(reader), Ok(m)) => reader == m,
            (Err(e), Err(m)) => e@ == m,
            _ => false,
        },
{
    match options.validate() {
        Ok(_) => {},
        Err(e) => {
            return Err(JsonError::Options(e));
        },
    }
    if format == InputFormat::Ndjson && options.object_mode != ObjectMode::Auto {
        return Err(
            JsonError::Options(
                SourceOptionError::ObjectModeRequiresObject { mode: options.object_mode },
            ),
        );
    }
    if options.preview {
        return Ok(JsonReader::Preview);
    }
    let large = match source {
        InputSource::StreamingStdin => {
            return Ok(JsonReader::Streaming);
        },
        InputSource::Path(_) => file_len >= options.lazy_threshold_bytes,
        _ => false,
    };
    match format {
        InputFormat::Json => Ok(
            if large {
                JsonReader::LazyDocument
            } else {
                JsonReader::Document
            },
        ),
        InputFormat::Ndjson => Ok(
            if large {
                JsonReader::LazyStream
            } else {
                JsonReader::Stream
            },
        ),
        _ => Err(JsonError::WrongFormat),
    }
}

// ---------------------------------------------------------------------------
// Laws
// ---------------------------------------------------------------------------

/// Observing rows in two parts comes to the same as observing them at once.
pub proof fn observing_in_parts(
    state: IndexState,
    rows: Seq<FlatRowModel>,
    from: int,
    middle: int,
    to: int,
)
    requires
        0 <= from <= middle <= to <= rows.len(),
    ensures
        rows_observed(rows_observed(state, rows, from, middle), rows, middle, to) == rows_observed(
            state,
            rows,
            from,
            to,
        ),
    decreases to - middle,
{
    if middle < to {
        observing_in_parts(state, rows, from, middle, to - 1);
    }
}

/// However a stream is read, rows that were there do not go away.
pub proof fn streamed_rows_never_shrink(
    model: StreamModel,
    parsed: ParsedModel,
    bytes: nat,
    complete: bool,
)
    ensures
        stream_read(model, parsed, bytes, complete).rows.len() >= model.rows.len(),
{
}

/// A stream gives no warning twice.
pub proof fn stream_warnings_are_distinct(known: Seq<Seq<char>>, new: Seq<Seq<char>>, n: int)
    requires
        known.no_duplicates(),
        0 <= n <= new.len(),
    ensures
        with_warnings(known, new, n).no_duplicates(),
    decreases n,
{
    if n > 0 {
        stream_warnings_are_distinct(known, new, n - 1);
    }
}

/// Observing rows removes no column, moves none and renames none.
pub proof fn observing_rows_only_extends(
    state: IndexState,
    rows: Seq<FlatRowModel>,
    from: int,
    to: int,
)
    requires
        state.step.schema.well_formed(),
        0 <= from <= to <= rows.len(),
    ensures
        rows_observed(state, rows, from, to).step.schema.well_formed(),
        json_schema::extends(state.step.schema, rows_observed(state, rows, from, to).step.schema),
    decreases to - from,
{
    if from < to {
        observing_rows_only_extends(state, rows, from, to - 1);
        let before = rows_observed(state, rows, from, to - 1);
        let row = rows[to - 1];
        json_schema::lemma_cells_extend(before.step, row.cells, row.cells.len() as int);
        json_schema::lemma_extends_transitive(
            state.step.schema,
            before.step.schema,
            json_schema::row_observed(before.step, row).schema,
        );
    } else {
        let paths = state.step.schema.paths;
        assert(paths.take(paths.len() as int) =~= paths);
    }
}

/// Each row that is indexed adds its size and what it tells of the columns, and an empty
/// stretch adds nothing.
pub proof fn rows_are_observed_one_by_one(
    state: IndexState,
    rows: Seq<FlatRowModel>,
    from: int,
    to: int,
)
    requires
        0 <= from <= to < rows.len(),
    ensures
        rows_observed(state, rows, from, from) == state,
        rows_observed(state, rows, from, to + 1).step == json_schema::row_observed(
            rows_observed(state, rows, from, to).step,
            rows[to],
        ),
        rows_observed(state, rows, from, to).bytes + rows[to].source_bytes <= u64::MAX
            ==> rows_observed(state, rows, from, to + 1).bytes == rows_observed(
            state,
            rows,
            from,
            to,
        ).bytes + rows[to].source_bytes,
{
}

/// A full scan looks at every row; any other stops behind the row with which the limit is
/// reached, and looks at one row at least.
pub proof fn scans_stop_at_their_limit(rows: Seq<FlatRowModel>, i: int, bytes: u64, limit: u64)
    requires
        0 <= i < rows.len(),
    ensures
        initial_rows(rows, SchemaScan::Full, limit) == rows.len(),
        initial_rows(rows, SchemaScan::Default, limit) == first_rows(rows, 0, 0, limit),
        i < first_rows(rows, i, bytes, limit) <= rows.len(),
        bytes + rows[i].source_bytes >= limit ==> first_rows(rows, i, bytes, limit) == i + 1,
        bytes + rows[i].source_bytes < limit && i + 1 < rows.len() ==> first_rows(
            rows,
            i,
            bytes,
            limit,
        ) == first_rows(rows, i + 1, (bytes + rows[i].source_bytes) as u64, limit),
    decreases rows.len() - i,
{
    let taken = bytes.saturating_add(rows[i].source_bytes);
    if taken < limit && i + 1 < rows.len() {
        scans_stop_at_their_limit(rows, i + 1, taken, limit);
    } else if taken < limit {
        assert(first_rows(rows, i + 1, taken, limit) == i + 1);
    }
}

/// A table that is opened has seen its first rows in their order and has labels.
pub proof fn opened_tables_have_labels(
    generation: SourceGeneration,
    rows: Seq<FlatRowModel>,
    count: int,
)
    ensures
        ({
            let blank = IndexState {
                step: json_schema::unchanged(SchemaModel::blank(generation)),
                bytes: 0,
            };
            let seen = rows_observed(blank, rows, 0, count);
            let opened = opened_schema(generation, rows, count);
            &&& opened.step.schema.labels_assigned
            &&& opened.step.schema.columns.len() == seen.step.schema.columns.len()
            &&& opened.step.schema.paths == seen.step.schema.paths
            &&& opened.bytes == seen.bytes
        }),
{
}

/// A warning is added behind those that are known, unless it is one of them.
pub proof fn warnings_are_added_once(known: Seq<Seq<char>>, new: Seq<Seq<char>>, n: int)
    requires
        0 <= n < new.len(),
    ensures
        with_warnings(known, new, 0) == known,
        with_warnings(known, new, n).contains(new[n]) ==> with_warnings(known, new, n + 1)
            == with_warnings(known, new, n),
        !with_warnings(known, new, n).contains(new[n]) ==> with_warnings(known, new, n + 1)
            == with_warnings(known, new, n).push(new[n]),
        with_warnings(known, new, n + 1).contains(new[n]),
{
    let before = with_warnings(known, new, n);
    if !before.contains(new[n]) {
        assert(before.push(new[n]).last() == new[n]);
    }
}

/// Reading a stream takes the new rows where they are as many at least, and a mode that
/// was found, and notes how far the input reached.
pub proof fn streams_take_what_was_read(
    model: StreamModel,
    parsed: ParsedModel,
    bytes: nat,
    complete: bool,
)
    ensures
        ({
            let next = stream_read(model, parsed, bytes, complete);
            &&& parsed.rows.len() >= model.rows.len() ==> next.rows == parsed.rows
            &&& parsed.rows.len() < model.rows.len() ==> next.rows == model.rows
            &&& parsed.object_mode is Some ==> next.object_mode == parsed.object_mode
            &&& parsed.object_mode is None ==> next.object_mode == model.object_mode
            &&& next.last_bytes == bytes
            &&& next.complete == complete
        }),
        no_stream().rows.len() == 0,
        !no_stream().complete,
{
}

/// A preview is read as one, a stream as it comes, and a large file by its index; the
/// rest is read whole, documents and streams of them in their own way.
pub proof fn json_readers_suit_their_input(
    source: InputSource,
    file_len: u64,
    format: InputFormat,
    options: OpenOptions,
)
    requires
        options.fault() is None,
        options.object_mode is Auto || format is Json,
        format is Json || format is Ndjson,
    ensures
        ({
            let reader = json_reader(source, file_len, format, options);
            let whole = !options.preview && source !is StreamingStdin;
            let large = source is Path && options.lazy_threshold_bytes <= file_len;
            &&& reader is Ok
            &&& reader->Ok_0 is Preview <==> options.preview
            &&& reader->Ok_0 is Streaming <==> !options.preview && source is StreamingStdin
            &&& reader->Ok_0 is LazyDocument <==> whole && format is Json && large
            &&& reader->Ok_0 is Document <==> whole && format is Json && !large
            &&& reader->Ok_0 is LazyStream <==> whole && format is Ndjson && large
            &&& reader->Ok_0 is Stream <==> whole && format is Ndjson && !large
        }),
{
}

/// Faulty options are told first, and a mode for objects is refused for lines.
pub proof fn json_readers_refuse_faulty_options(
    source: InputSource,
    file_len: u64,
    format: InputFormat,
    options: OpenOptions,
)
    ensures
        options.fault() matches Some(fault) ==> json_reader(source, file_len, format, options)
            == Err::<JsonReader, JsonErrorModel>(JsonErrorModel::Options(fault)),
        options.fault() is None && format is Ndjson && options.object_mode !is Auto ==> json_reader(
            source,
            file_len,
            format,
            options,
        ) is Err,
{
}

/// A stream has as many rows as were read once it has ended, and at least as many before.
pub proof fn streams_count_what_was_read(table: StreamingJsonTable)
    requires
        table.rows@.len() <= usize::MAX,
    ensures
        table.input_complete ==> table.known_count() == RowCount::Exact(table.rows@.len() as usize),
        !table.input_complete && table.rows@.len() > 0 ==> table.known_count() == RowCount::AtLeast(
            table.rows@.len() as usize,
        ),
        !table.input_complete && table.rows@.len() == 0 ==> table.known_count() is Unknown,
{
}

} // verus!
