//! The tables as sources of rows that can be walked over.

use vstd::prelude::*;

use crate::delimited_table::{self, InMemoryTable, Snapshot, StreamingDelimitedTable};
use crate::encoding::{self, IngestError, IngestErrorModel};
use crate::json_lazy::{
    self, JsonSourceFingerprint, LazyArrayModel, LazyJsonArrayTable, LazyJsonObjectTable,
    LazyNdjsonTable, LazyObjectModel, LazyStreamModel,
};
use crate::json_rows::{self, FlatRowModel};
use crate::json_scan::{JsonError, JsonErrorModel};
use crate::json_schema::{self, SchemaModel, SchemaStep};
use crate::json_table::{self, IndexState, JsonTableStore, StreamingJsonTable};
use crate::json_value;
use crate::table::{
    self, CellModel, CellValue, DeltaModel, Row, RowId, ScanProgress, ScanRequest,
    SourceGeneration,
};
use crate::text;
use crate::walks::{self, RowModel, RowSource, RowVisitor, VisitModel, scan_rows};

verus! {

// ---------------------------------------------------------------------------
// Pages of rows
// ---------------------------------------------------------------------------

/// A row as it was visited, and whether the walk was stopped there.
#[derive(Debug, PartialEq, Eq)]
pub struct VisitedRow {
    pub index: usize,
    pub row: Row,
    pub stop: bool,
}

/// The rows that were visited, of which a walk may add no more than fit.
#[derive(Debug, PartialEq, Eq)]
pub struct RowPage {
    pub limit: usize,
    pub rows: Vec<VisitedRow>,
}

impl RowPage {
    /// A page without rows.
    pub fn new(limit: usize) -> (r: RowPage)
        ensures
            r.limit == limit,
            r.rows@.len() == 0,
            r.visits() =~= Seq::<VisitModel>::empty(),
    {
        RowPage { limit, rows: Vec::new() }
    }
}

impl RowVisitor for RowPage {
    open spec fn visits(&self) -> Seq<VisitModel> {
        Seq::new(
            self.rows@.len(),
            |i: int|
                VisitModel {
                    index: self.rows@[i].index as int,
                    row: walks::row_model(self.rows@[i].row),
                    stop: self.rows@[i].stop,
                },
        )
    }

    /// Keeps the row, and stops once the page is full.
    fn visit(&mut self, index: usize, row: &Row) -> (stop: bool)
        ensures
            stop == (old(self).rows@.len() + 1 >= old(self).limit),
            final(self).limit == old(self).limit,
    {
        let stop = self.limit == 0 || self.rows.len() >= self.limit - 1;
        let cells = row.cells.clone();
        assert(cells@ =~= row.cells@);
        let kept = Row { id: row.id, cells };
        assert(walks::row_model(kept) == walks::row_model(*row));
        let visited = VisitedRow { index, row: kept, stop };
        let ghost before = self.visits();
        self.rows.push(visited);
        assert(self.visits() =~= before.push(
            VisitModel { index: index as int, row: walks::row_model(*row), stop },
        ));
        stop
    }
}

// ---------------------------------------------------------------------------
// Rows at hand
// ---------------------------------------------------------------------------

/// What decides about the rows of a table whose rows are at hand.
pub struct JsonStoreState {
    pub generation: SourceGeneration,
    pub rows: Seq<FlatRowModel>,
    pub schema: SchemaModel,
    pub bytes: u64,
    pub indexed: int,
}

/// How many rows are observed once the row at `index` is wanted.
pub open spec fn rows_wanted(state: JsonStoreState, index: usize) -> int {
    let wanted = if index + 1 < state.rows.len() {
        index + 1
    } else {
        state.rows.len() as int
    };
    if wanted > state.indexed {
        wanted
    } else {
        state.indexed
    }
}

impl RowSource<()> for JsonTableStore {
    type State = JsonStoreState;

    type Fault = JsonError;

    type FaultView = JsonErrorModel;

    open spec fn state(&self) -> JsonStoreState {
        JsonStoreState {
            generation: self.generation,
            rows: json_rows::flat_row_views(self.rows@),
            schema: self.schema@,
            bytes: self.bytes_scanned,
            indexed: self.indexed_rows as int,
        }
    }

    open spec fn ready(&self) -> bool {
        self.well_formed()
    }

    open spec fn fault_model(fault: JsonError) -> JsonErrorModel {
        fault@
    }

    /// The row is observed before it is given out.
    open spec fn fetched(state: JsonStoreState, input: (), index: usize) -> (
        JsonStoreState,
        Result<Option<RowModel>, JsonErrorModel>,
    ) {
        let target = rows_wanted(state, index);
        let after = json_table::rows_observed(
            IndexState {
                step: SchemaStep { schema: state.schema, delta: DeltaModel::nothing() },
                bytes: state.bytes,
            },
            state.rows,
            state.indexed,
            target,
        );
        let row = if index < state.rows.len() {
            Some(
                RowModel {
                    id: RowId { generation: state.generation, ordinal: index as u64 },
                    cells: json_schema::typed_cells(state.rows[index as int].cells, after.step.schema.columns),
                },
            )
        } else {
            None
        };
        (
            JsonStoreState {
                schema: after.step.schema,
                bytes: after.bytes,
                indexed: target,
                ..state
            },
            Ok(row),
        )
    }

    open spec fn ends_at(state: JsonStoreState, at: usize) -> bool {
        at >= state.rows.len()
    }

    fn fetch(&mut self, input: &(), index: usize) -> (r: Result<Option<Row>, JsonError>) {
        let len: usize = self.rows.len();
        let ghost before = self.state();
        assert(self.target(index) == rows_wanted(before, index));
        let _ = self.ensure_indexed_through(index);
        let row = self.typed_row(index);
        assert(index < len ==> before.rows[index as int] == self.rows@[index as int]@);
        Ok(row)
    }

    fn has_ended(&self, at: usize) -> (r: bool) {
        at >= self.rows.len()
    }
}

// ---------------------------------------------------------------------------
// Large files
// ---------------------------------------------------------------------------

/// A file as it is now: its bytes, and a hash of samples of it.
pub struct FileView<'a> {
    pub bytes: &'a [u8],
    pub sample_hash: u64,
}

/// What decides about the rows of a table over a file.
pub struct LazyState<M> {
    pub generation: SourceGeneration,
    pub fingerprint: JsonSourceFingerprint,
    pub table: M,
}

/// A row of a table over a file, as far as its values could be read.
pub open spec fn lazy_row(
    generation: SourceGeneration,
    index: usize,
    flat: Result<FlatRowModel, JsonErrorModel>,
    schema: SchemaModel,
) -> Result<Option<RowModel>, JsonErrorModel> {
    match flat {
        Err(e) => Err(e),
        Ok(row) => Ok(
            Some(
                RowModel {
                    id: RowId { generation, ordinal: index as u64 },
                    cells: json_schema::typed_cells(row.cells, schema.columns),
                },
            ),
        ),
    }
}

/// The row at a place of a table over an object, if it was indexed.
pub open spec fn object_row(state: LazyState<LazyObjectModel>, bytes: Seq<u8>, known: bool, index: usize) -> Result<
    Option<RowModel>,
    JsonErrorModel,
> {
    if index >= state.table.entries.len() {
        Ok(None)
    } else {
        let entry = state.table.entries[index as int];
        lazy_row(
            state.generation,
            index,
            if !known {
                Err(JsonErrorModel::SourceChanged)
            } else {
                match json_lazy::entry_value(entry, bytes) {
                    Ok(value) => Ok(json_rows::keyed_row(entry.key, value, entry.source_bytes)),
                    Err(e) => Err(e),
                }
            },
            state.table.schema,
        )
    }
}

impl<'a> RowSource<FileView<'a>> for LazyJsonObjectTable {
    type State = LazyState<LazyObjectModel>;

    type Fault = JsonError;

    type FaultView = JsonErrorModel;

    open spec fn state(&self) -> LazyState<LazyObjectModel> {
        LazyState { generation: self.generation, fingerprint: self.fingerprint, table: self@ }
    }

    open spec fn ready(&self) -> bool {
        self.well_formed()
    }

    open spec fn fault_model(fault: JsonError) -> JsonErrorModel {
        fault@
    }

    /// Entries are read up to the one that is wanted, which is then read again.
    open spec fn fetched(state: LazyState<LazyObjectModel>, input: FileView<'a>, index: usize) -> (
        LazyState<LazyObjectModel>,
        Result<Option<RowModel>, JsonErrorModel>,
    ) {
        let known = json_lazy::same_source(state.fingerprint, input.bytes@, input.sample_hash);
        if state.table.eof || state.table.entries.len() > index {
            (state, object_row(state, input.bytes@, known, index))
        } else if !known {
            (state, Err(JsonErrorModel::SourceChanged))
        } else {
            let (table, delta, fault) = json_lazy::object_indexed(
                state.table,
                DeltaModel::nothing(),
                input.bytes@,
                Some(index),
                None,
            );
            let after = LazyState { table, ..state };
            match fault {
                Some(e) => (after, Err(e)),
                None => (after, object_row(after, input.bytes@, known, index)),
            }
        }
    }

    open spec fn ends_at(state: LazyState<LazyObjectModel>, at: usize) -> bool {
        state.table.eof && at >= state.table.entries.len()
    }

    fn fetch(&mut self, input: &FileView<'a>, index: usize) -> (r: Result<Option<Row>, JsonError>) {
        match self.ensure_indexed_through(input.bytes, input.sample_hash, index) {
            Err(e) => Err(e),
            Ok(_) => {
                let known: usize = self.entries.len();
                assert(known <= usize::MAX);
                self.typed_row(input.bytes, input.sample_hash, index)
            },
        }
    }

    fn has_ended(&self, at: usize) -> (r: bool) {
        self.eof && at >= self.entries.len()
    }
}

/// The row at a place of a table over an array, if it was indexed.
pub open spec fn array_row(state: LazyState<LazyArrayModel>, bytes: Seq<u8>, known: bool, index: usize) -> Result<
    Option<RowModel>,
    JsonErrorModel,
> {
    if index >= state.table.offsets.len() {
        Ok(None)
    } else {
        lazy_row(
            state.generation,
            index,
            if !known {
                Err(JsonErrorModel::SourceChanged)
            } else {
                match json_value::json_first(bytes.skip(state.table.offsets[index as int] as int)) {
                    Ok(value) => Ok(json_rows::flat_row(value)),
                    Err(e) => Err(JsonErrorModel::Json(e)),
                }
            },
            state.table.schema,
        )
    }
}

impl<'a> RowSource<FileView<'a>> for LazyJsonArrayTable {
    type State = LazyState<LazyArrayModel>;

    type Fault = JsonError;

    type FaultView = JsonErrorModel;

    open spec fn state(&self) -> LazyState<LazyArrayModel> {
        LazyState { generation: self.generation, fingerprint: self.fingerprint, table: self@ }
    }

    open spec fn ready(&self) -> bool {
        self.well_formed()
    }

    open spec fn fault_model(fault: JsonError) -> JsonErrorModel {
        fault@
    }

    /// Items are read up to the one that is wanted, which is then read again.
    open spec fn fetched(state: LazyState<LazyArrayModel>, input: FileView<'a>, index: usize) -> (
        LazyState<LazyArrayModel>,
        Result<Option<RowModel>, JsonErrorModel>,
    ) {
        let known = json_lazy::same_source(state.fingerprint, input.bytes@, input.sample_hash);
        if state.table.eof || state.table.offsets.len() > index {
            (state, array_row(state, input.bytes@, known, index))
        } else if !known {
            (state, Err(JsonErrorModel::SourceChanged))
        } else {
            let (table, delta, fault) = json_lazy::array_indexed(
                state.table,
                DeltaModel::nothing(),
                input.bytes@,
                Some(index),
                None,
            );
            let after = LazyState { table, ..state };
            match fault {
                Some(e) => (after, Err(e)),
                None => (after, array_row(after, input.bytes@, known, index)),
            }
        }
    }

    open spec fn ends_at(state: LazyState<LazyArrayModel>, at: usize) -> bool {
        state.table.eof && at >= state.table.offsets.len()
    }

    fn fetch(&mut self, input: &FileView<'a>, index: usize) -> (r: Result<Option<Row>, JsonError>) {
        match self.index_until(input.bytes, input.sample_hash, Some(index), None) {
            Err(e) => Err(e),
            Ok(_) => {
                let known: usize = self.offsets.len();
                assert(known <= usize::MAX);
                self.typed_row(input.bytes, input.sample_hash, index)
            },
        }
    }

    fn has_ended(&self, at: usize) -> (r: bool) {
        self.eof && at >= self.offsets.len()
    }
}

/// The row at a place of a table over documents, if it was indexed.
pub open spec fn document_row_at(state: LazyState<LazyStreamModel>, bytes: Seq<u8>, known: bool, index: usize) -> Result<
    Option<RowModel>,
    JsonErrorModel,
> {
    if index >= state.table.offsets.len() {
        Ok(None)
    } else {
        lazy_row(
            state.generation,
            index,
            if !known {
                Err(JsonErrorModel::SourceChanged)
            } else {
                match json_value::json_first(bytes.skip(state.table.offsets[index as int] as int)) {
                    Ok(document) => match json_rows::selected(document, state.table.path.keys) {
                        Some(value) => Ok(json_rows::flat_row(value)),
                        None => Err(JsonErrorModel::PathMissing(state.table.path.text)),
                    },
                    Err(e) => Err(JsonErrorModel::Json(e)),
                }
            },
            state.table.schema,
        )
    }
}

impl<'a> RowSource<FileView<'a>> for LazyNdjsonTable {
    type State = LazyState<LazyStreamModel>;

    type Fault = JsonError;

    type FaultView = JsonErrorModel;

    open spec fn state(&self) -> LazyState<LazyStreamModel> {
        LazyState { generation: self.generation, fingerprint: self.fingerprint, table: self@ }
    }

    open spec fn ready(&self) -> bool {
        self.well_formed()
    }

    open spec fn fault_model(fault: JsonError) -> JsonErrorModel {
        fault@
    }

    /// Documents are read up to the one that is wanted, which is then read again.
    open spec fn fetched(state: LazyState<LazyStreamModel>, input: FileView<'a>, index: usize) -> (
        LazyState<LazyStreamModel>,
        Result<Option<RowModel>, JsonErrorModel>,
    ) {
        let known = json_lazy::same_source(state.fingerprint, input.bytes@, input.sample_hash);
        if state.table.eof || state.table.offsets.len() > index {
            (state, document_row_at(state, input.bytes@, known, index))
        } else if !known {
            (state, Err(JsonErrorModel::SourceChanged))
        } else {
            let (table, delta, fault) = json_lazy::stream_indexed(
                state.table,
                DeltaModel::nothing(),
                input.bytes@,
                Some(index),
                None,
            );
            let after = LazyState { table, ..state };
            match fault {
                Some(e) => (after, Err(e)),
                None => (after, document_row_at(after, input.bytes@, known, index)),
            }
        }
    }

    open spec fn ends_at(state: LazyState<LazyStreamModel>, at: usize) -> bool {
        state.table.eof && at >= state.table.offsets.len()
    }

    fn fetch(&mut self, input: &FileView<'a>, index: usize) -> (r: Result<Option<Row>, JsonError>) {
        match self.index_until(input.bytes, input.sample_hash, Some(index), None) {
            Err(e) => Err(e),
            Ok(_) => {
                let known: usize = self.offsets.len();
                assert(known <= usize::MAX);
                self.typed_row(input.bytes, input.sample_hash, index)
            },
        }
    }

    fn has_ended(&self, at: usize) -> (r: bool) {
        self.eof && at >= self.offsets.len()
    }
}

// ---------------------------------------------------------------------------
// Whole tables
// ---------------------------------------------------------------------------

/// The cells of the first `n` rows, up to the first that cannot be read.
pub open spec fn gathered(
    rows: spec_fn(int) -> Result<Option<RowModel>, JsonErrorModel>,
    n: int,
) -> Result<Seq<Seq<CellModel>>, JsonErrorModel>
    decreases n,
{
    if n <= 0 {
        Ok(Seq::empty())
    } else {
        match gathered(rows, n - 1) {
            Err(e) => Err(e),
            Ok(before) => match rows(n - 1) {
                Ok(Some(row)) => Ok(before.push(row.cells)),
                Ok(None) => Ok(before),
                Err(e) => Err(e),
            },
        }
    }
}

/// The cells of a table in memory, or why there is none.
pub open spec fn whole_table(r: Result<InMemoryTable, JsonError>) -> Result<
    Seq<Seq<CellModel>>,
    JsonErrorModel,
> {
    match r {
        Ok(table) => Ok(delimited_table::cell_rows(table.rows@)),
        Err(e) => Err(e@),
    }
}

proof fn lemma_gathered_fault(
    rows: spec_fn(int) -> Result<Option<RowModel>, JsonErrorModel>,
    i: int,
    n: int,
)
    requires
        0 <= i <= n,
        gathered(rows, i) is Err,
    ensures
        gathered(rows, n) == gathered(rows, i),
    decreases n,
{
    if i < n {
        lemma_gathered_fault(rows, i, n - 1);
    }
}

/// What comes of reading a whole table over an object: all of it is indexed, and
/// then every row is read with all columns.
pub open spec fn object_materialized(state: LazyState<LazyObjectModel>, bytes: Seq<u8>, known: bool) -> (
    LazyState<LazyObjectModel>,
    Result<Seq<Seq<CellModel>>, JsonErrorModel>,
) {
    if !json_lazy::wants_more(state.table.eof, state.table.entries.len(), state.table.bytes_scanned, None, Some(u64::MAX)) {
        (
            state,
            gathered(|i: int| object_row(state, bytes, known, i as usize), state.table.entries.len() as int),
        )
    } else if !known {
        (state, Err(JsonErrorModel::SourceChanged))
    } else {
        let (table, delta, fault) = json_lazy::object_indexed(
            state.table,
            DeltaModel::nothing(),
            bytes,
            None,
            Some(u64::MAX),
        );
        let after = LazyState { table, ..state };
        match fault {
            Some(e) => (after, Err(e)),
            None => (
                after,
                gathered(|i: int| object_row(after, bytes, known, i as usize), table.entries.len() as int),
            ),
        }
    }
}

impl LazyJsonObjectTable {
    /// All rows, once all were indexed.
    pub fn materialize(&mut self, bytes: &[u8], sample_hash: u64) -> (r: Result<
        InMemoryTable,
        JsonError,
    >)
        requires
            old(self).well_formed(),
        ensures
            final(self).well_formed(),
            r matches Ok(table) ==> table.generation == old(self).generation,
            ({
                let whole = object_materialized(
                    lazy_object(*old(self)),
                    bytes@,
                    json_lazy::same_source(old(self).fingerprint, bytes@, sample_hash),
                );
                &&& lazy_object(*final(self)) == whole.0
                &&& whole_table(r) == whole.1
            }),
    {
        let ghost known = json_lazy::same_source(self.fingerprint, bytes@, sample_hash);
        match self.index_until(bytes, sample_hash, None, Some(u64::MAX)) {
            Err(e) => {
                return Err(e);
            },
            Ok(_) => {},
        }
        let ghost state = lazy_object(*self);
        let ghost row_of = |i: int| object_row(state, bytes@, known, i as usize);
        let len: usize = self.entries.len();
        let ghost goal = object_materialized(
            lazy_object(*old(self)),
            bytes@,
            json_lazy::same_source(old(self).fingerprint, bytes@, sample_hash),
        );
        assert(goal == (state, gathered(row_of, len as int)));
        let mut rows: Vec<Vec<CellValue>> = Vec::new();
        assert(delimited_table::cell_rows(rows@) =~= Seq::<Seq<CellModel>>::empty());
        let mut i: usize = 0;
        while i < len
            invariant
                i <= len,
                len == self.entries@.len(),
                self.well_formed(),
                state == lazy_object(*self),
                known == json_lazy::same_source(self.fingerprint, bytes@, sample_hash),
                row_of == (|i: int| object_row(state, bytes@, known, i as usize)),
                goal == (state, gathered(row_of, len as int)),
                goal == object_materialized(
                    lazy_object(*old(self)),
                    bytes@,
                    json_lazy::same_source(old(self).fingerprint, bytes@, sample_hash),
                ),
                self.generation == old(self).generation,
                gathered(row_of, i as int) == Ok::<Seq<Seq<CellModel>>, JsonErrorModel>(
                    delimited_table::cell_rows(rows@),
                ),
            decreases len - i,
        {
            assert(row_of(i as int) == object_row(state, bytes@, known, i));
            match self.typed_row(bytes, sample_hash, i) {
                Err(e) => {
                    proof {
                        assert(gathered(row_of, i + 1) == Err::<Seq<Seq<CellModel>>, JsonErrorModel>(
                            e@,
                        ));
                        lemma_gathered_fault(row_of, i + 1, len as int);
                    }
                    return Err(e);
                },
                Ok(None) => {},
                Ok(Some(row)) => {
                    let ghost before = rows@;
                    rows.push(row.cells);
                    assert(delimited_table::cell_rows(rows@) =~= delimited_table::cell_rows(before).push(table::cell_views(row.cells@)));
                },
            }
            i = i + 1;
        }
        Ok(InMemoryTable { generation: self.generation, rows })
    }
}

/// What decides about the rows of a table over an object.
pub open spec fn lazy_object(table: LazyJsonObjectTable) -> LazyState<LazyObjectModel> {
    LazyState { generation: table.generation, fingerprint: table.fingerprint, table: table@ }
}

/// What comes of reading a whole table over an array: all of it is indexed, and
/// then every row is read with all columns.
pub open spec fn array_materialized(state: LazyState<LazyArrayModel>, bytes: Seq<u8>, known: bool) -> (
    LazyState<LazyArrayModel>,
    Result<Seq<Seq<CellModel>>, JsonErrorModel>,
) {
    if !json_lazy::wants_more(state.table.eof, state.table.offsets.len(), state.table.bytes_scanned, None, Some(u64::MAX)) {
        (
            state,
            gathered(|i: int| array_row(state, bytes, known, i as usize), state.table.offsets.len() as int),
        )
    } else if !known {
        (state, Err(JsonErrorModel::SourceChanged))
    } else {
        let (table, delta, fault) = json_lazy::array_indexed(
            state.table,
            DeltaModel::nothing(),
            bytes,
            None,
            Some(u64::MAX),
        );
        let after = LazyState { table, ..state };
        match fault {
            Some(e) => (after, Err(e)),
            None => (
                after,
                gathered(|i: int| array_row(after, bytes, known, i as usize), table.offsets.len() as int),
            ),
        }
    }
}

impl LazyJsonArrayTable {
    /// All rows, once all were indexed.
    pub fn materialize(&mut self, bytes: &[u8], sample_hash: u64) -> (r: Result<
        InMemoryTable,
        JsonError,
    >)
        requires
            old(self).well_formed(),
        ensures
            final(self).well_formed(),
            r matches Ok(table) ==> table.generation == old(self).generation,
            ({
                let whole = array_materialized(
                    lazy_array(*old(self)),
                    bytes@,
                    json_lazy::same_source(old(self).fingerprint, bytes@, sample_hash),
                );
                &&& lazy_array(*final(self)) == whole.0
                &&& whole_table(r) == whole.1
            }),
    {
        let ghost known = json_lazy::same_source(self.fingerprint, bytes@, sample_hash);
        match self.index_until(bytes, sample_hash, None, Some(u64::MAX)) {
            Err(e) => {
                return Err(e);
            },
            Ok(_) => {},
        }
        let ghost state = lazy_array(*self);
        let ghost row_of = |i: int| array_row(state, bytes@, known, i as usize);
        let len: usize = self.offsets.len();
        let ghost goal = array_materialized(
            lazy_array(*old(self)),
            bytes@,
            json_lazy::same_source(old(self).fingerprint, bytes@, sample_hash),
        );
        assert(goal == (state, gathered(row_of, len as int)));
        let mut rows: Vec<Vec<CellValue>> = Vec::new();
        assert(delimited_table::cell_rows(rows@) =~= Seq::<Seq<CellModel>>::empty());
        let mut i: usize = 0;
        while i < len
            invariant
                i <= len,
                len == self.offsets@.len(),
                self.well_formed(),
                state == lazy_array(*self),
                known == json_lazy::same_source(self.fingerprint, bytes@, sample_hash),
                row_of == (|i: int| array_row(state, bytes@, known, i as usize)),
                goal == (state, gathered(row_of, len as int)),
                goal == array_materialized(
                    lazy_array(*old(self)),
                    bytes@,
                    json_lazy::same_source(old(self).fingerprint, bytes@, sample_hash),
                ),
                self.generation == old(self).generation,
                gathered(row_of, i as int) == Ok::<Seq<Seq<CellModel>>, JsonErrorModel>(
                    delimited_table::cell_rows(rows@),
                ),
            decreases len - i,
        {
            assert(row_of(i as int) == array_row(state, bytes@, known, i));
            match self.typed_row(bytes, sample_hash, i) {
                Err(e) => {
                    proof {
                        assert(gathered(row_of, i + 1) == Err::<Seq<Seq<CellModel>>, JsonErrorModel>(
                            e@,
                        ));
                        lemma_gathered_fault(row_of, i + 1, len as int);
                    }
                    return Err(e);
                },
                Ok(None) => {},
                Ok(Some(row)) => {
                    let ghost before = rows@;
                    rows.push(row.cells);
                    assert(delimited_table::cell_rows(rows@) =~= delimited_table::cell_rows(before).push(table::cell_views(row.cells@)));
                },
            }
            i = i + 1;
        }
        Ok(InMemoryTable { generation: self.generation, rows })
    }
}

/// What decides about the rows of a table over an array.
pub open spec fn lazy_array(table: LazyJsonArrayTable) -> LazyState<LazyArrayModel> {
    LazyState { generation: table.generation, fingerprint: table.fingerprint, table: table@ }
}

/// What comes of reading a whole table over documents: all of it is indexed, and
/// then every row is read with all columns.
pub open spec fn stream_materialized(state: LazyState<LazyStreamModel>, bytes: Seq<u8>, known: bool) -> (
    LazyState<LazyStreamModel>,
    Result<Seq<Seq<CellModel>>, JsonErrorModel>,
) {
    if !json_lazy::wants_more(state.table.eof, state.table.offsets.len(), state.table.scan_offset as u64, None, Some(u64::MAX)) {
        (
            state,
            gathered(|i: int| document_row_at(state, bytes, known, i as usize), state.table.offsets.len() as int),
        )
    } else if !known {
        (state, Err(JsonErrorModel::SourceChanged))
    } else {
        let (table, delta, fault) = json_lazy::stream_indexed(
            state.table,
            DeltaModel::nothing(),
            bytes,
            None,
            Some(u64::MAX),
        );
        let after = LazyState { table, ..state };
        match fault {
            Some(e) => (after, Err(e)),
            None => (
                after,
                gathered(|i: int| document_row_at(after, bytes, known, i as usize), table.offsets.len() as int),
            ),
        }
    }
}

impl LazyNdjsonTable {
    /// All rows, once all were indexed.
    pub fn materialize(&mut self, bytes: &[u8], sample_hash: u64) -> (r: Result<
        InMemoryTable,
        JsonError,
    >)
        requires
            old(self).well_formed(),
        ensures
            final(self).well_formed(),
            r matches Ok(table) ==> table.generation == old(self).generation,
            ({
                let whole = stream_materialized(
                    lazy_stream(*old(self)),
                    bytes@,
                    json_lazy::same_source(old(self).fingerprint, bytes@, sample_hash),
                );
                &&& lazy_stream(*final(self)) == whole.0
                &&& whole_table(r) == whole.1
            }),
    {
        let ghost known = json_lazy::same_source(self.fingerprint, bytes@, sample_hash);
        match self.index_until(bytes, sample_hash, None, Some(u64::MAX)) {
            Err(e) => {
                return Err(e);
            },
            Ok(_) => {},
        }
        let ghost state = lazy_stream(*self);
        let ghost row_of = |i: int| document_row_at(state, bytes@, known, i as usize);
        let len: usize = self.offsets.len();
        let ghost goal = stream_materialized(
            lazy_stream(*old(self)),
            bytes@,
            json_lazy::same_source(old(self).fingerprint, bytes@, sample_hash),
        );
        assert(goal == (state, gathered(row_of, len as int)));
        let mut rows: Vec<Vec<CellValue>> = Vec::new();
        assert(delimited_table::cell_rows(rows@) =~= Seq::<Seq<CellModel>>::empty());
        let mut i: usize = 0;
        while i < len
            invariant
                i <= len,
                len == self.offsets@.len(),
                self.well_formed(),
                state == lazy_stream(*self),
                known == json_lazy::same_source(self.fingerprint, bytes@, sample_hash),
                row_of == (|i: int| document_row_at(state, bytes@, known, i as usize)),
                goal == (state, gathered(row_of, len as int)),
                goal == stream_materialized(
                    lazy_stream(*old(self)),
                    bytes@,
                    json_lazy::same_source(old(self).fingerprint, bytes@, sample_hash),
                ),
                self.generation == old(self).generation,
                gathered(row_of, i as int) == Ok::<Seq<Seq<CellModel>>, JsonErrorModel>(
                    delimited_table::cell_rows(rows@),
                ),
            decreases len - i,
        {
            assert(row_of(i as int) == document_row_at(state, bytes@, known, i));
            match self.typed_row(bytes, sample_hash, i) {
                Err(e) => {
                    proof {
                        assert(gathered(row_of, i + 1) == Err::<Seq<Seq<CellModel>>, JsonErrorModel>(
                            e@,
                        ));
                        lemma_gathered_fault(row_of, i + 1, len as int);
                    }
                    return Err(e);
                },
                Ok(None) => {},
                Ok(Some(row)) => {
                    let ghost before = rows@;
                    rows.push(row.cells);
                    assert(delimited_table::cell_rows(rows@) =~= delimited_table::cell_rows(before).push(table::cell_views(row.cells@)));
                },
            }
            i = i + 1;
        }
        Ok(InMemoryTable { generation: self.generation, rows })
    }
}

/// What decides about the rows of a table over documents.
pub open spec fn lazy_stream(table: LazyNdjsonTable) -> LazyState<LazyStreamModel> {
    LazyState { generation: table.generation, fingerprint: table.fingerprint, table: table@ }
}

// ---------------------------------------------------------------------------
// Streams
// ---------------------------------------------------------------------------

/// Whether a visitor who had made the visits `before` was shown the rows of a
/// walk over `rows`, one after the other, up to the one at which it stopped.
pub open spec fn shows_rows(
    before: Seq<VisitModel>,
    after: Seq<VisitModel>,
    rows: Seq<RowModel>,
    request: ScanRequest,
    progress: ScanProgress,
) -> bool {
    let made = after.skip(before.len() as int);
    &&& before.len() <= after.len()
    &&& before == after.take(before.len() as int)
    &&& made.len() == progress.visited
    &&& forall|k: int|
        #![trigger made[k]]
        0 <= k < made.len() ==> {
            &&& made[k].index == walks::walk_place(request, k)
            &&& 0 <= made[k].index < rows.len()
            &&& made[k].row == rows[made[k].index]
            &&& made[k].stop ==> k == made.len() - 1
        }
    &&& progress == table::scan_outcome(
        request,
        rows.len(),
        true,
        if made.len() > 0 && made.last().stop {
            Some(made.len())
        } else {
            None
        },
    )
}

/// The rows of a stream of JSON that have arrived.
pub open spec fn json_stream_rows(table: StreamingJsonTable) -> Seq<RowModel> {
    Seq::new(
        table.rows@.len(),
        |i: int|
            RowModel {
                id: RowId { generation: table.generation, ordinal: i as u64 },
                cells: json_schema::typed_cells(table.rows@[i]@.cells, table.schema@.columns),
            },
    )
}

impl RowSource<()> for StreamingJsonTable {
    type State = StreamingJsonTable;

    type Fault = JsonError;

    type FaultView = JsonErrorModel;

    open spec fn state(&self) -> StreamingJsonTable {
        *self
    }

    open spec fn ready(&self) -> bool {
        true
    }

    open spec fn fault_model(fault: JsonError) -> JsonErrorModel {
        fault@
    }

    open spec fn fetched(state: StreamingJsonTable, input: (), index: usize) -> (
        StreamingJsonTable,
        Result<Option<RowModel>, JsonErrorModel>,
    ) {
        let rows = json_stream_rows(state);
        (
            state,
            Ok(
                if index < rows.len() {
                    Some(rows[index as int])
                } else {
                    None
                },
            ),
        )
    }

    open spec fn ends_at(state: StreamingJsonTable, at: usize) -> bool {
        at >= state.rows@.len()
    }

    fn fetch(&mut self, input: &(), index: usize) -> (r: Result<Option<Row>, JsonError>) {
        let known: usize = self.rows.len();
        assert(known <= usize::MAX);
        Ok(self.row(index))
    }

    fn has_ended(&self, at: usize) -> (r: bool) {
        at >= self.rows.len()
    }
}

impl StreamingJsonTable {
    /// Looks at what has arrived and shows the rows of a walk to a visitor, who
    /// sees nothing where what has arrived cannot be read.
    pub fn scan_rows<V: RowVisitor>(
        &mut self,
        snapshot: &Snapshot,
        request: ScanRequest,
        visitor: &mut V,
    ) -> (r: Result<ScanProgress, JsonError>)
        requires
            old(self).well_formed(),
        ensures
            final(self).well_formed(),
            final(self).same_index(*old(self)),
            match (r, old(self).refreshed(snapshot.bytes@, snapshot.complete)) {
                (Ok(progress), Ok(m)) => {
                    &&& final(self).stream() == m
                    &&& shows_rows(
                        old(visitor).visits(),
                        final(visitor).visits(),
                        json_stream_rows(*final(self)),
                        request,
                        progress,
                    )
                },
                (Err(e), Err(m)) => {
                    &&& e@ == m
                    &&& final(self).stream() == old(self).stream()
                    &&& final(visitor).visits() == old(visitor).visits()
                },
                _ => false,
            },
    {
        match self.refresh_rows(snapshot) {
            Ok(_) => {},
            Err(e) => {
                return Err(e);
            },
        }
        let known: usize = self.rows.len();
        let ghost mid = *self;
        let ghost rows = json_stream_rows(mid);
        assert(walks::has_rows::<(), StreamingJsonTable>(mid, (), rows));
        let ghost before = visitor.visits();
        let r = scan_rows::<(), StreamingJsonTable, V>(self, &(), request, visitor);
        proof {
            walks::walks_show_the_rows_at_hand::<(), StreamingJsonTable>(
                mid,
                *self,
                (),
                rows,
                request,
                visitor.visits().skip(before.len() as int),
                walks::walk_result::<(), StreamingJsonTable>(r),
            );
        }
        r
    }
}

/// The rows of a stream of delimited text that have been read.
pub open spec fn text_stream_rows(table: StreamingDelimitedTable) -> Seq<RowModel> {
    Seq::new(
        table.rows@.len(),
        |i: int|
            RowModel {
                id: RowId { generation: table.generation, ordinal: i as u64 },
                cells: delimited_table::text_cells(text::views(table.rows@[i]@)),
            },
    )
}

impl RowSource<()> for StreamingDelimitedTable {
    type State = StreamingDelimitedTable;

    type Fault = IngestError;

    type FaultView = IngestErrorModel;

    open spec fn state(&self) -> StreamingDelimitedTable {
        *self
    }

    open spec fn ready(&self) -> bool {
        true
    }

    open spec fn fault_model(fault: IngestError) -> IngestErrorModel {
        fault@
    }

    open spec fn fetched(state: StreamingDelimitedTable, input: (), index: usize) -> (
        StreamingDelimitedTable,
        Result<Option<RowModel>, IngestErrorModel>,
    ) {
        let rows = text_stream_rows(state);
        (
            state,
            Ok(
                if index < rows.len() {
                    Some(rows[index as int])
                } else {
                    None
                },
            ),
        )
    }

    open spec fn ends_at(state: StreamingDelimitedTable, at: usize) -> bool {
        at >= state.rows@.len()
    }

    fn fetch(&mut self, input: &(), index: usize) -> (r: Result<Option<Row>, IngestError>) {
        let known: usize = self.rows.len();
        assert(known <= usize::MAX);
        assert(index < known ==> self@.rows[index as int] == text::views(self.rows@[index as int]@));
        Ok(self.row(index))
    }

    fn has_ended(&self, at: usize) -> (r: bool) {
        at >= self.rows.len()
    }
}

impl StreamingDelimitedTable {
    /// Looks at what has arrived and shows the rows of a walk to a visitor, who
    /// sees nothing where what has arrived cannot be read.
    pub fn scan_rows<V: RowVisitor>(
        &mut self,
        snapshot: &Snapshot,
        locale: &Option<String>,
        request: ScanRequest,
        visitor: &mut V,
    ) -> (r: Result<ScanProgress, IngestError>)
        requires
            old(self)@.well_formed(),
            old(self)@.parsed_bytes <= snapshot.bytes@.len(),
            snapshot.bytes@.len() <= encoding::max_input(),
        ensures
            final(self)@.well_formed(),
            final(self)@.parsed_bytes <= snapshot.bytes@.len(),
            final(self).display_name == old(self).display_name,
            final(self)@ == delimited_table::refreshed(
                old(self)@,
                snapshot.bytes@,
                snapshot.complete,
                text::opt_view(*locale),
            ).0,
            match (
                r,
                delimited_table::refreshed(old(self)@, snapshot.bytes@, snapshot.complete, text::opt_view(*locale)).1,
            ) {
                (Ok(progress), Ok(_)) => shows_rows(
                    old(visitor).visits(),
                    final(visitor).visits(),
                    text_stream_rows(*final(self)),
                    request,
                    progress,
                ),
                (Err(e), Err(m)) => {
                    &&& e@ == m
                    &&& final(visitor).visits() == old(visitor).visits()
                },
                _ => false,
            },
    {
        match self.refresh(snapshot, locale) {
            Ok(_) => {},
            Err(e) => {
                return Err(e);
            },
        }
        let known: usize = self.rows.len();
        let ghost mid = *self;
        let ghost rows = text_stream_rows(mid);
        assert(walks::has_rows::<(), StreamingDelimitedTable>(mid, (), rows));
        let ghost before = visitor.visits();
        let r = scan_rows::<(), StreamingDelimitedTable, V>(self, &(), request, visitor);
        proof {
            walks::walks_show_the_rows_at_hand::<(), StreamingDelimitedTable>(
                mid,
                *self,
                (),
                rows,
                request,
                visitor.visits().skip(before.len() as int),
                walks::walk_result::<(), StreamingDelimitedTable>(r),
            );
        }
        r
    }
}

impl StreamingJsonTable {
    /// All rows that have arrived, with the columns known so far.
    pub fn materialize(&self) -> (r: InMemoryTable)
        ensures
            r.generation == self.generation,
            delimited_table::cell_rows(r.rows@) == json_stream_rows(*self).map_values(|row: RowModel| row.cells),
    {
        let mut rows: Vec<Vec<CellValue>> = Vec::new();
        let mut i: usize = 0;
        while i < self.rows.len()
            invariant
                i <= self.rows@.len(),
                rows@.len() == i,
                forall|k: int|
                    0 <= k < i ==> table::cell_views((#[trigger] rows@[k])@) == json_stream_rows(
                        *self,
                    )[k].cells,
            decreases self.rows@.len() - i,
        {
            if let Some(row) = self.row(i) {
                rows.push(row.cells);
            }
            i = i + 1;
        }
        assert(delimited_table::cell_rows(rows@) =~= json_stream_rows(*self).map_values(
            |row: RowModel| row.cells,
        ));
        InMemoryTable { generation: self.generation, rows }
    }
}

// ---------------------------------------------------------------------------
// Laws
// ---------------------------------------------------------------------------

/// A row is indexed as far as it is wanted, never further than there are rows, and what
/// was indexed stays so.
pub proof fn rows_are_indexed_as_far_as_wanted(state: JsonStoreState, index: usize)
    requires
        0 <= state.indexed <= state.rows.len(),
    ensures
        state.indexed <= rows_wanted(state, index) <= state.rows.len(),
        index < state.rows.len() ==> rows_wanted(state, index) > index,
        index < state.indexed ==> rows_wanted(state, index) == state.indexed,
        state.indexed <= index < state.rows.len() ==> rows_wanted(state, index) == index + 1,
        index >= state.rows.len() ==> rows_wanted(state, index) == state.rows.len(),
{
}

/// A row is numbered by its place and shows its cells in the columns; a fault is handed on.
pub proof fn rows_are_numbered_by_their_place(
    generation: SourceGeneration,
    index: usize,
    row: FlatRowModel,
    e: JsonErrorModel,
    schema: SchemaModel,
)
    ensures
        lazy_row(generation, index, Err(e), schema) == Err::<Option<RowModel>, JsonErrorModel>(e),
        ({
            let shown = lazy_row(generation, index, Ok(row), schema);
            &&& shown is Ok && shown->Ok_0 is Some
            &&& shown->Ok_0->0.id.ordinal == index
            &&& shown->Ok_0->0.id.generation == generation
            &&& shown->Ok_0->0.cells == json_schema::typed_cells(row.cells, schema.columns)
        }),
{
}

/// A row of an object that was read is that of its entry, its key in front; there is none
/// behind the last, and a file that changed is told.
pub proof fn object_rows_are_those_of_their_entries(
    state: LazyState<LazyObjectModel>,
    bytes: Seq<u8>,
    index: usize,
)
    ensures
        index >= state.table.entries.len() ==> forall|known: bool| #[trigger]
            object_row(state, bytes, known, index) == Ok::<Option<RowModel>, JsonErrorModel>(None),
        index < state.table.entries.len() ==> {
            let entry = state.table.entries[index as int];
            &&& object_row(state, bytes, false, index) == Err::<Option<RowModel>, JsonErrorModel>(
                JsonErrorModel::SourceChanged,
            )
            &&& json_value::json_read(bytes.subrange(entry.value_start, entry.value_end)) matches Ok(
                value,
            ) ==> object_row(state, bytes, true, index) is Ok && object_row(
                state,
                bytes,
                true,
                index,
            )->Ok_0->0.cells == json_schema::typed_cells(
                json_rows::keyed_row(entry.key, value, entry.source_bytes).cells,
                state.table.schema.columns,
            )
        },
{
}

/// A row of an array that was read is that of the item at its place.
pub proof fn array_rows_are_those_of_their_items(
    state: LazyState<LazyArrayModel>,
    bytes: Seq<u8>,
    index: usize,
)
    ensures
        index >= state.table.offsets.len() ==> forall|known: bool| #[trigger]
            array_row(state, bytes, known, index) == Ok::<Option<RowModel>, JsonErrorModel>(None),
        index < state.table.offsets.len() ==> {
            let at = state.table.offsets[index as int] as int;
            &&& array_row(state, bytes, false, index) == Err::<Option<RowModel>, JsonErrorModel>(
                JsonErrorModel::SourceChanged,
            )
            &&& json_value::json_first(bytes.skip(at)) matches Ok(value) ==> array_row(
                state,
                bytes,
                true,
                index,
            ) is Ok && array_row(state, bytes, true, index)->Ok_0->0.cells
                == json_schema::typed_cells(
                json_rows::flat_row(value).cells,
                state.table.schema.columns,
            )
        },
{
}

/// A row of a stream that was read is what the path selects in the document at its place.
pub proof fn document_rows_are_those_of_their_documents(
    state: LazyState<LazyStreamModel>,
    bytes: Seq<u8>,
    index: usize,
)
    ensures
        index >= state.table.offsets.len() ==> forall|known: bool| #[trigger]
            document_row_at(state, bytes, known, index) == Ok::<Option<RowModel>, JsonErrorModel>(
                None,
            ),
        index < state.table.offsets.len() ==> {
            let found = json_value::json_first(
                bytes.skip(state.table.offsets[index as int] as int),
            );
            let shown = document_row_at(state, bytes, true, index);
            &&& document_row_at(state, bytes, false, index) == Err::<
                Option<RowModel>,
                JsonErrorModel,
            >(JsonErrorModel::SourceChanged)
            &&& found matches Ok(document) ==> match json_rows::selected(
                document,
                state.table.path.keys,
            ) {
                Some(value) => shown is Ok && shown->Ok_0->0.cells == json_schema::typed_cells(
                    json_rows::flat_row(value).cells,
                    state.table.schema.columns,
                ),
                None => shown == Err::<Option<RowModel>, JsonErrorModel>(
                    JsonErrorModel::PathMissing(state.table.path.text),
                ),
            }
        },
{
}

/// Rows are gathered in their order, and the first fault ends it.
pub proof fn rows_are_gathered_in_order(
    rows: spec_fn(int) -> Result<Option<RowModel>, JsonErrorModel>,
    n: int,
    row: RowModel,
    e: JsonErrorModel,
)
    requires
        0 <= n,
    ensures
        gathered(rows, 0) == Ok::<Seq<Seq<CellModel>>, JsonErrorModel>(Seq::empty()),
        gathered(rows, n) matches Ok(before) ==> {
            &&& rows(n) == Ok::<Option<RowModel>, JsonErrorModel>(Some(row)) ==> gathered(
                rows,
                n + 1,
            ) == Ok::<Seq<Seq<CellModel>>, JsonErrorModel>(before.push(row.cells))
            &&& rows(n) == Err::<Option<RowModel>, JsonErrorModel>(e) ==> gathered(rows, n + 1)
                == Err::<Seq<Seq<CellModel>>, JsonErrorModel>(e)
        },
        gathered(rows, n) is Err ==> gathered(rows, n + 1) == gathered(rows, n),
{
}

/// A stream shows its rows under their numbers: those of JSON in the columns, those of
/// text as they are.
pub proof fn streams_number_their_rows(
    json: StreamingJsonTable,
    plain: StreamingDelimitedTable,
    i: int,
    k: int,
)
    ensures
        0 <= i < json.rows@.len() ==> json_stream_rows(json)[i].id.ordinal == i as u64
            && json_stream_rows(json)[i].cells == json_schema::typed_cells(
            json.rows@[i]@.cells,
            json.schema@.columns,
        ),
        json_stream_rows(json).len() == json.rows@.len(),
        text_stream_rows(plain).len() == plain.rows@.len(),
        0 <= i < plain.rows@.len() ==> text_stream_rows(plain)[i].id.ordinal == i as u64,
        0 <= i < plain.rows@.len() && 0 <= k < plain.rows@[i]@.len() ==> text_stream_rows(
            plain,
        )[i].cells[k] == CellModel::Text(plain.rows@[i]@[k]@),
{
}

/// A table that was read to its end is gathered from the rows that it has, and changes
/// nothing; a file that changed before that is told.
pub proof fn whole_tables_are_gathered_from_their_rows(
    object: LazyState<LazyObjectModel>,
    array: LazyState<LazyArrayModel>,
    stream: LazyState<LazyStreamModel>,
    bytes: Seq<u8>,
    known: bool,
)
    ensures
        object.table.eof ==> object_materialized(object, bytes, known) == (
            object,
            gathered(
                |i: int| object_row(object, bytes, known, i as usize),
                object.table.entries.len() as int,
            ),
        ),
        array.table.eof ==> array_materialized(array, bytes, known) == (
            array,
            gathered(
                |i: int| array_row(array, bytes, known, i as usize),
                array.table.offsets.len() as int,
            ),
        ),
        stream.table.eof ==> stream_materialized(stream, bytes, known) == (
            stream,
            gathered(
                |i: int| document_row_at(stream, bytes, known, i as usize),
                stream.table.offsets.len() as int,
            ),
        ),
        !object.table.eof && object.table.bytes_scanned < u64::MAX ==> object_materialized(
            object,
            bytes,
            false,
        ) == (
            object,
            Err::<Seq<Seq<CellModel>>, JsonErrorModel>(JsonErrorModel::SourceChanged),
        ),
        !array.table.eof && array.table.bytes_scanned < u64::MAX ==> array_materialized(
            array,
            bytes,
            false,
        ) == (array, Err::<Seq<Seq<CellModel>>, JsonErrorModel>(JsonErrorModel::SourceChanged)),
{
}

} // verus!
