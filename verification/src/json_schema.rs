//! Columns that are discovered row by row, and the labels they get.

use vstd::prelude::*;
use vstd::string::*;

use crate::json_rows::{self, FlatCell, FlatModel, FlatRow, FlatRowModel};
use crate::json_value::{self, quote_json};
use crate::options::{self, JsonPointer, StructuredPath};
use crate::table::{
    self, CellModel, CellValue, ColumnDefinition, ColumnId, ColumnModel, ColumnSourceIdentity,
    DeltaModel, IdentityModel, LogicalType, Row, RowId, SchemaDelta, SourceGeneration,
    TypeOrigin, TypeWidening, clone_columns,
};
use crate::text::{
    self, chars_of, concat2, concat3, contains_text, decimal_of_usize, same, starts_with_char,
};

verus! {

// ---------------------------------------------------------------------------
// Labels
// ---------------------------------------------------------------------------

/// What `char::is_alphanumeric` says of a character.
pub uninterp spec fn is_alphanumeric(c: char) -> bool;

/// `char::is_alphanumeric`: whether a character has one of the Unicode
/// properties Alphabetic and Numeric. Which characters have them is left to it.
#[verifier::external_body]
fn alphanumeric(c: char) -> (r: bool)
    ensures
        r == is_alphanumeric(c),
{
    c.is_alphanumeric()
}

/// Whether a character may stand in a label as it is.
pub open spec fn is_plain(c: char) -> bool {
    is_alphanumeric(c) || c == '_' || c == '-'
}

/// A key as part of a label: as it is, or as a JSON string in brackets.
pub open spec fn friendly(key: Seq<char>) -> Seq<char> {
    if key.len() > 0 && forall|i: int| 0 <= i < key.len() ==> is_plain(#[trigger] key[i]) {
        key
    } else {
        "["@ + json_value::json_quoted(key) + "]"@
    }
}

/// The parts of a label for a path: its keys, or the text if it is no pointer.
pub open spec fn label_parts(path: Seq<char>) -> Seq<Seq<char>> {
    match options::pointer_keys(path) {
        Some(keys) => Seq::new(keys.len(), |i: int| friendly(keys[i])),
        None => seq![path],
    }
}

/// Parts of a label put together: a dot before each but the first and but those
/// in brackets.
pub open spec fn glued(parts: Seq<Seq<char>>) -> Seq<char>
    decreases parts.len(),
{
    if parts.len() == 0 {
        Seq::empty()
    } else {
        let before = glued(parts.drop_last());
        let part = parts.last();
        if before.len() > 0 && !(part.len() > 0 && part[0] == '[') {
            before.push('.') + part
        } else {
            before + part
        }
    }
}

/// The label made of the last `depth` parts.
pub open spec fn label_suffix(parts: Seq<Seq<char>>, depth: int) -> Seq<char> {
    let start = if parts.len() > depth {
        parts.len() - depth
    } else {
        0
    };
    let label = glued(parts.skip(start));
    if label.len() == 0 {
        "value"@
    } else {
        label
    }
}

/// The greatest depth a label is tried at.
pub open spec fn label_depth(parts: Seq<Seq<char>>) -> int {
    if parts.len() == 0 {
        1
    } else {
        parts.len() as int
    }
}

/// How many of the first `n` paths have the given label at the given depth.
pub open spec fn label_uses(paths: Seq<Seq<char>>, n: int, depth: int, label: Seq<char>) -> nat
    decreases n,
{
    if n <= 0 || n > paths.len() {
        0
    } else {
        label_uses(paths, n - 1, depth, label) + if label_suffix(label_parts(paths[n - 1]), depth)
            == label {
            1nat
        } else {
            0nat
        }
    }
}

/// The shortest label from `depth` on that at most one of the paths has.
pub open spec fn unique_label_from(path: Seq<char>, paths: Seq<Seq<char>>, depth: int) -> Seq<char>
    decreases label_depth(label_parts(path)) - depth + 1,
{
    let parts = label_parts(path);
    if depth > label_depth(parts) {
        path
    } else {
        let label = label_suffix(parts, depth);
        if label_uses(paths, paths.len() as int, depth, label) <= 1 {
            label
        } else {
            unique_label_from(path, paths, depth + 1)
        }
    }
}

/// The shortest label of a path that at most one of the paths has.
pub open spec fn unique_label(path: Seq<char>, paths: Seq<Seq<char>>) -> Seq<char> {
    unique_label_from(path, paths, 1)
}

/// The shortest label from `depth` on that is not in use.
pub open spec fn free_label_from(path: Seq<char>, used: Seq<Seq<char>>, depth: int) -> Seq<char>
    decreases label_depth(label_parts(path)) - depth + 1,
{
    let parts = label_parts(path);
    if depth > label_depth(parts) {
        path
    } else {
        let label = label_suffix(parts, depth);
        if !used.contains(label) {
            label
        } else {
            free_label_from(path, used, depth + 1)
        }
    }
}

/// The shortest label of a path that is not in use.
pub open spec fn free_label(path: Seq<char>, used: Seq<Seq<char>>) -> Seq<char> {
    free_label_from(path, used, 1)
}

/// A key as part of a label.
pub fn friendly_segment(key: &str) -> (r: String)
    ensures
        r@ == friendly(key@),
{
    let v = chars_of(key);
    let mut plain = v.len() > 0;
    let mut i: usize = 0;
    while i < v.len()
        invariant
            i <= v@.len(),
            v@ == key@,
            plain == (v@.len() > 0 && forall|k: int| 0 <= k < i ==> is_plain(#[trigger] key@[k])),
        decreases v@.len() - i,
    {
        if !(alphanumeric(v[i]) || v[i] == '_' || v[i] == '-') {
            assert(!is_plain(key@[i as int]));
            plain = false;
        }
        i = i + 1;
    }
    if plain {
        key.to_owned()
    } else {
        concat3("[", &quote_json(key), "]")
    }
}

/// The parts of a label for a path.
pub fn label_segments(path: &str) -> (r: Vec<String>)
    ensures
        text::views(r@) == label_parts(path@),
{
    let mut parts: Vec<String> = Vec::new();
    match JsonPointer::parse(path) {
        Ok(pointer) => {
            let keys = pointer.segments();
            let mut i: usize = 0;
            while i < keys.len()
                invariant
                    i <= keys@.len(),
                    parts@.len() == i,
                    forall|k: int| 0 <= k < i ==> (#[trigger] parts@[k])@ == friendly(keys@[k]@),
                decreases keys@.len() - i,
            {
                parts.push(friendly_segment(&keys[i]));
                i = i + 1;
            }
            assert(text::views(parts@) =~= label_parts(path@));
        },
        Err(_) => {
            parts.push(path.to_owned());
            assert(text::views(parts@) =~= seq![path@]);
        },
    }
    parts
}

/// The label made of the last `depth` parts.
pub fn join_label_suffix(parts: &Vec<String>, depth: usize) -> (r: String)
    ensures
        r@ == label_suffix(text::views(parts@), depth as int),
{
    let ghost all = text::views(parts@);
    let start: usize = parts.len().saturating_sub(depth);
    let ghost tail = all.skip(start as int);
    let mut label = String::new();
    let mut empty = true;
    let mut i: usize = start;
    assert(tail.take(0) =~= Seq::<Seq<char>>::empty());
    while i < parts.len()
        invariant
            start <= i <= parts@.len(),
            all == text::views(parts@),
            tail == all.skip(start as int),
            label@ == glued(tail.take(i - start)),
            empty == (label@.len() == 0),
        decreases parts@.len() - i,
    {
        let ghost now = tail.take(i - start + 1);
        assert(now.drop_last() =~= tail.take(i - start));
        assert(now.last() == parts@[i as int]@);
        if !empty && !starts_with_char(&parts[i], '[') {
            label.push('.');
        }
        label.append(&parts[i]);
        if !parts[i].as_str().is_empty() {
            empty = false;
        }
        i = i + 1;
    }
    assert(tail.take(parts@.len() - start) =~= tail);
    if empty {
        "value".to_owned()
    } else {
        label
    }
}

fn count_label(paths: &Vec<String>, depth: usize, label: &str) -> (r: usize)
    ensures
        r == label_uses(text::views(paths@), paths@.len() as int, depth as int, label@),
{
    let ghost all = text::views(paths@);
    let mut count: usize = 0;
    let mut i: usize = 0;
    while i < paths.len()
        invariant
            i <= paths.len(),
            all == text::views(paths@),
            count <= i,
            count == label_uses(all, i as int, depth as int, label@),
        decreases paths@.len() - i,
    {
        let other = join_label_suffix(&label_segments(&paths[i]), depth);
        if same(&other, label) {
            count = count + 1;
        }
        i = i + 1;
    }
    count
}

/// The shortest label of a path that at most one of the paths has.
pub fn shortest_unique_label(path: &str, paths: &Vec<String>) -> (r: String)
    ensures
        r@ == unique_label(path@, text::views(paths@)),
{
    let parts = label_segments(path);
    let most: usize = if parts.len() == 0 {
        1
    } else {
        parts.len()
    };
    let mut depth: usize = 1;
    loop
        invariant
            text::views(parts@) == label_parts(path@),
            most == label_depth(text::views(parts@)),
            1 <= depth <= most,
            unique_label(path@, text::views(paths@)) == unique_label_from(
                path@,
                text::views(paths@),
                depth as int,
            ),
        decreases most - depth,
    {
        let label = join_label_suffix(&parts, depth);
        if count_label(paths, depth, &label) <= 1 {
            return label;
        }
        if depth == most {
            assert(unique_label_from(path@, text::views(paths@), depth + 1) == path@);
            return path.to_owned();
        }
        depth = depth + 1;
    }
}

/// The shortest label of a path that is not in use.
pub fn shortest_nonconflicting_label(path: &str, used: &Vec<String>) -> (r: String)
    ensures
        r@ == free_label(path@, text::views(used@)),
{
    let parts = label_segments(path);
    let most: usize = if parts.len() == 0 {
        1
    } else {
        parts.len()
    };
    let mut depth: usize = 1;
    loop
        invariant
            text::views(parts@) == label_parts(path@),
            most == label_depth(text::views(parts@)),
            1 <= depth <= most,
            free_label(path@, text::views(used@)) == free_label_from(path@, text::views(used@), depth as int),
        decreases most - depth,
    {
        let label = join_label_suffix(&parts, depth);
        if !contains_text(used, &label) {
            return label;
        }
        if depth == most {
            assert(free_label_from(path@, text::views(used@), depth + 1) == path@);
            return path.to_owned();
        }
        depth = depth + 1;
    }
}

// ---------------------------------------------------------------------------
// Schemas
// ---------------------------------------------------------------------------

/// The columns of rows that were observed, each with the path it stands for.
#[derive(Debug, PartialEq)]
pub struct JsonSchema {
    pub generation: SourceGeneration,
    pub columns: Vec<ColumnDefinition>,
    pub paths: Vec<String>,
    pub labels_assigned: bool,
}

/// The model of a schema.
pub struct SchemaModel {
    pub generation: SourceGeneration,
    pub columns: Seq<ColumnModel>,
    pub paths: Seq<Seq<char>>,
    pub labels_assigned: bool,
}

impl View for JsonSchema {
    type V = SchemaModel;

    open spec fn view(&self) -> SchemaModel {
        SchemaModel {
            generation: self.generation,
            columns: table::column_views(self.columns@),
            paths: text::views(self.paths@),
            labels_assigned: self.labels_assigned,
        }
    }
}

impl Clone for JsonSchema {
    fn clone(&self) -> (r: Self)
        ensures
            r@ == self@,
    {
        let paths = self.paths.clone();
        assert(text::views(paths@) =~= text::views(self.paths@));
        JsonSchema {
            generation: self.generation,
            columns: clone_columns(&self.columns),
            paths,
            labels_assigned: self.labels_assigned,
        }
    }
}

/// The place of the first equal path from `from` on, or the number of paths.
pub open spec fn path_place(paths: Seq<Seq<char>>, path: Seq<char>, from: int) -> int
    decreases paths.len() - from,
{
    if from < 0 || from >= paths.len() {
        paths.len() as int
    } else if paths[from] == path {
        from
    } else {
        path_place(paths, path, from + 1)
    }
}

/// The labels of columns.
pub open spec fn column_labels(columns: Seq<ColumnModel>) -> Seq<Seq<char>> {
    Seq::new(columns.len(), |i: int| columns[i].display_name)
}

/// The column that a cell adds.
pub open spec fn new_column(schema: SchemaModel, cell: FlatModel) -> ColumnModel {
    ColumnModel {
        id: ColumnId {
            generation: schema.generation,
            ordinal: schema.columns.len() as u32,
        },
        identity: cell.identity,
        display_name: if schema.labels_assigned {
            free_label(cell.path, column_labels(schema.columns))
        } else {
            cell.path
        },
        declared_type: None,
        source_type: cell.value.kind(),
        type_origin: TypeOrigin::Inferred,
    }
}

/// A schema and what has changed in it.
pub struct SchemaStep {
    pub schema: SchemaModel,
    pub delta: DeltaModel,
}

/// What one cell changes: the type of its column is widened, or a column is added.
pub open spec fn cell_observed(step: SchemaStep, cell: FlatModel) -> SchemaStep {
    let schema = step.schema;
    let at = path_place(schema.paths, cell.path, 0);
    if at < schema.paths.len() {
        let column = schema.columns[at];
        let wider = column.source_type.join(cell.value.kind());
        if wider == column.source_type {
            step
        } else {
            SchemaStep {
                schema: SchemaModel {
                    columns: schema.columns.update(
                        at,
                        ColumnModel { source_type: wider, ..column },
                    ),
                    ..schema
                },
                delta: DeltaModel {
                    widened: step.delta.widened.push(
                        TypeWidening { column: column.id, source_type: wider },
                    ),
                    ..step.delta
                },
            }
        }
    } else {
        let column = new_column(schema, cell);
        SchemaStep {
            schema: SchemaModel {
                columns: schema.columns.push(column),
                paths: schema.paths.push(cell.path),
                ..schema
            },
            delta: DeltaModel { added: step.delta.added.push(column), ..step.delta },
        }
    }
}

/// What the first `n` cells of a row change.
pub open spec fn cells_observed(step: SchemaStep, cells: Seq<FlatModel>, n: int) -> SchemaStep
    decreases n,
{
    if n <= 0 || n > cells.len() {
        step
    } else {
        cell_observed(cells_observed(step, cells, n - 1), cells[n - 1])
    }
}

/// What a row changes in a schema, after the changes of a step.
pub open spec fn row_observed(step: SchemaStep, row: FlatRowModel) -> SchemaStep {
    cells_observed(step, row.cells, row.cells.len() as int)
}

/// A schema in which nothing has changed.
pub open spec fn unchanged(schema: SchemaModel) -> SchemaStep {
    SchemaStep { schema, delta: DeltaModel::nothing() }
}

/// What observing a row does to a schema.
pub open spec fn observed(schema: SchemaModel, row: FlatRowModel) -> SchemaStep {
    row_observed(unchanged(schema), row)
}

impl SchemaModel {
    /// Each column stands for one path, and no path for two columns.
    pub open spec fn well_formed(self) -> bool {
        &&& self.paths.len() == self.columns.len()
        &&& self.paths.no_duplicates()
    }

    /// A schema without columns.
    pub open spec fn blank(generation: SourceGeneration) -> SchemaModel {
        SchemaModel {
            generation,
            columns: Seq::empty(),
            paths: Seq::empty(),
            labels_assigned: false,
        }
    }
}

/// The place of a path is its only one.
pub proof fn lemma_path_place(paths: Seq<Seq<char>>, path: Seq<char>, from: int)
    requires
        0 <= from <= paths.len(),
    ensures
        from <= path_place(paths, path, from) <= paths.len(),
        path_place(paths, path, from) < paths.len() ==> paths[path_place(paths, path, from)]
            == path,
        forall|i: int| from <= i < path_place(paths, path, from) ==> paths[i] != path,
    decreases paths.len() - from,
{
    if from < paths.len() && paths[from] != path {
        lemma_path_place(paths, path, from + 1);
    }
}

pub(crate) fn find_path(paths: &Vec<String>, path: &str) -> (r: usize)
    ensures
        r == path_place(text::views(paths@), path@, 0),
        r <= paths@.len(),
{
    let ghost all = text::views(paths@);
    let mut i: usize = 0;
    while i < paths.len()
        invariant
            i <= paths@.len(),
            all == text::views(paths@),
            path_place(all, path@, 0) == path_place(all, path@, i as int),
        decreases paths@.len() - i,
    {
        if same(&paths[i], path) {
            return i;
        }
        i = i + 1;
    }
    i
}

fn labels_of(columns: &Vec<ColumnDefinition>) -> (r: Vec<String>)
    ensures
        text::views(r@) == column_labels(table::column_views(columns@)),
{
    let mut labels: Vec<String> = Vec::new();
    let mut i: usize = 0;
    while i < columns.len()
        invariant
            i <= columns@.len(),
            labels@.len() == i,
            forall|k: int| 0 <= k < i ==> (#[trigger] labels@[k])@ == columns@[k].display_name@,
        decreases columns@.len() - i,
    {
        labels.push(columns[i].display_name.clone());
        i = i + 1;
    }
    assert(text::views(labels@) =~= column_labels(table::column_views(columns@)));
    labels
}

impl JsonSchema {
    /// A schema without columns.
    pub fn new(generation: SourceGeneration) -> (r: JsonSchema)
        ensures
            r@ == SchemaModel::blank(generation),
            r@.well_formed(),
    {
        let r = JsonSchema {
            generation,
            columns: Vec::new(),
            paths: Vec::new(),
            labels_assigned: false,
        };
        assert(table::column_views(r.columns@) =~= Seq::<ColumnModel>::empty());
        assert(text::views(r.paths@) =~= Seq::<Seq<char>>::empty());
        r
    }

    fn widen_column(&mut self, at: usize, wider: LogicalType)
        requires
            at < old(self).columns@.len(),
        ensures
            final(self)@ == (SchemaModel {
                columns: old(self)@.columns.update(
                    at as int,
                    ColumnModel { source_type: wider, ..old(self)@.columns[at as int] },
                ),
                ..old(self)@
            }),
    {
        let ghost before = table::column_views(self.columns@);
        let mut column = self.columns[at].clone();
        column.source_type = wider;
        self.columns.set(at, column);
        assert(table::column_views(self.columns@) =~= before.update(
            at as int,
            ColumnModel { source_type: wider, ..before[at as int] },
        ));
    }

    fn add_column(&mut self, cell: &FlatCell) -> (r: ColumnDefinition)
        ensures
            r@ == new_column(old(self)@, cell@),
            final(self)@ == (SchemaModel {
                columns: old(self)@.columns.push(new_column(old(self)@, cell@)),
                paths: old(self)@.paths.push(cell@.path),
                ..old(self)@
            }),
    {
        let ordinal: usize = self.columns.len();
        let display_name = if self.labels_assigned {
            shortest_nonconflicting_label(&cell.path, &labels_of(&self.columns))
        } else {
            cell.path.clone()
        };
        let column = ColumnDefinition {
            id: ColumnId {
                generation: self.generation,
                ordinal: #[verifier::truncate]
                (ordinal as u32),
            },
            source_identity: cell.identity.clone(),
            display_name,
            source_declared_type: None,
            source_type: cell.value.logical_type(),
            type_origin: TypeOrigin::Inferred,
        };
        let ghost before = table::column_views(self.columns@);
        let copy = column.clone();
        assert(table::column_views(self.columns@.push(copy)) =~= before.push(column@));
        self.columns.push(copy);
        proof {
            text::lemma_views_push(self.paths@, cell.path);
        }
        self.paths.push(cell.path.clone());
        column
    }

    /// Takes a row into account: columns are added for new paths, and the types
    /// of known ones are widened. What has changed is appended to `delta`.
    pub fn observe_into(&mut self, row: &FlatRow, delta: &mut SchemaDelta)
        requires
            old(self)@.well_formed(),
        ensures
            final(self)@.well_formed(),
            (SchemaStep { schema: final(self)@, delta: final(delta)@ }) == row_observed(
                SchemaStep { schema: old(self)@, delta: old(delta)@ },
                row@,
            ),
    {
        let ghost begin = SchemaStep { schema: self@, delta: delta@ };
        let ghost cells = row@.cells;
        let mut i: usize = 0;
        while i < row.cells.len()
            invariant
                i <= row.cells@.len(),
                cells == json_rows::flat_views(row.cells@),
                self@.well_formed(),
                (SchemaStep { schema: self@, delta: delta@ }) == cells_observed(
                    begin,
                    cells,
                    i as int,
                ),
            decreases row.cells@.len() - i,
        {
            let ghost prior = SchemaStep { schema: self@, delta: delta@ };
            let cell = &row.cells[i];
            assert(cells[i as int] == cell@);
            let at: usize = find_path(&self.paths, &cell.path);
            proof {
                lemma_path_place(self@.paths, cell.path@, 0);
            }
            if at < self.paths.len() {
                let known = self.columns[at].source_type;
                assert(known == self@.columns[at as int].source_type);
                let wider = known.widen(cell.value.logical_type());
                if wider != known {
                    let widening = TypeWidening { column: self.columns[at].id, source_type: wider };
                    self.widen_column(at, wider);
                    delta.widened_types.push(widening);
                }
            } else {
                let column = self.add_column(cell);
                assert(self@.paths =~= prior.schema.paths.push(cell@.path));
                assert(table::column_views(delta.added_columns@.push(column)) =~= table::column_views(
                    delta.added_columns@,
                ).push(column@));
                delta.added_columns.push(column);
            }
            assert((SchemaStep { schema: self@, delta: delta@ }) == cell_observed(prior, cell@));
            i = i + 1;
        }
    }

    /// Takes a row into account, and says what has changed.
    pub fn observe(&mut self, row: &FlatRow) -> (r: SchemaDelta)
        requires
            old(self)@.well_formed(),
        ensures
            final(self)@.well_formed(),
            (SchemaStep { schema: final(self)@, delta: r@ }) == observed(old(self)@, row@),
    {
        let mut delta = SchemaDelta::default();
        self.observe_into(row, &mut delta);
        delta
    }
}

// ---------------------------------------------------------------------------
// First labels
// ---------------------------------------------------------------------------

/// The structured paths among the first `n` columns.
pub open spec fn structured_paths(columns: Seq<ColumnModel>, n: int) -> Seq<Seq<char>>
    decreases n,
{
    if n <= 0 || n > columns.len() {
        Seq::empty()
    } else {
        match columns[n - 1].identity {
            IdentityModel::StructuredPath(path) => structured_paths(columns, n - 1).push(path),
            _ => structured_paths(columns, n - 1),
        }
    }
}

/// The label that a structured path gets among those of all columns.
pub open spec fn structured_label(columns: Seq<ColumnModel>, path: Seq<char>) -> Seq<char> {
    unique_label(path, structured_paths(columns, columns.len() as int))
}

/// Whether a column stands for a path whose label is `name`.
pub open spec fn is_called_name(columns: Seq<ColumnModel>, i: int) -> bool {
    match columns[i].identity {
        IdentityModel::StructuredPath(path) => structured_label(columns, path) == "name"@,
        _ => false,
    }
}

/// Whether one of the first `n` columns is labelled `name`.
pub open spec fn name_is_used(columns: Seq<ColumnModel>, n: int) -> bool {
    exists|i: int| 0 <= i < n && #[trigger] is_called_name(columns, i)
}

/// The place of the first column that holds the keys of an object's entries.
pub open spec fn key_column(columns: Seq<ColumnModel>, from: int) -> int
    decreases columns.len() - from,
{
    if from < 0 || from >= columns.len() {
        columns.len() as int
    } else if columns[from].identity is ObjectKey {
        from
    } else {
        key_column(columns, from + 1)
    }
}

/// The label that a column gets at first: the shortest one that tells its path
/// from the others; for the keys of entries `name`, or `_key` where a member has
/// that label.
pub open spec fn first_label(columns: Seq<ColumnModel>, i: int) -> Seq<char> {
    match columns[i].identity {
        IdentityModel::Positional(n) => "Column "@ + text::decimal(n.saturating_add(1) as nat),
        IdentityModel::StructuredPath(path) => structured_label(columns, path),
        IdentityModel::Delimited { .. } => Seq::empty(),
        IdentityModel::RelationColumn { name, .. } => name,
        IdentityModel::ObjectKey => if i == key_column(columns, 0) {
            if name_is_used(columns, columns.len() as int) {
                "_key"@
            } else {
                "name"@
            }
        } else {
            columns[i].display_name
        },
    }
}

/// The columns with their first labels.
pub open spec fn labelled(columns: Seq<ColumnModel>) -> Seq<ColumnModel> {
    Seq::new(
        columns.len(),
        |i: int| ColumnModel { display_name: first_label(columns, i), ..columns[i] },
    )
}

/// The schema with its first labels.
pub open spec fn with_labels(schema: SchemaModel) -> SchemaModel {
    SchemaModel { columns: labelled(schema.columns), labels_assigned: true, ..schema }
}

fn paths_of(columns: &Vec<ColumnDefinition>) -> (r: Vec<String>)
    ensures
        text::views(r@) == structured_paths(table::column_views(columns@), columns@.len() as int),
{
    let ghost all = table::column_views(columns@);
    let mut paths: Vec<String> = Vec::new();
    let mut i: usize = 0;
    assert(text::views(paths@) =~= Seq::<Seq<char>>::empty());
    while i < columns.len()
        invariant
            i <= columns@.len(),
            all == table::column_views(columns@),
            text::views(paths@) == structured_paths(all, i as int),
        decreases columns@.len() - i,
    {
        assert(all[i as int] == columns@[i as int]@);
        match &columns[i].source_identity {
            ColumnSourceIdentity::StructuredPath(path) => {
                let text = path.as_str().to_owned();
                proof {
                    text::lemma_views_push(paths@, text);
                }
                paths.push(text);
            },
            _ => {},
        }
        i = i + 1;
    }
    paths
}

fn find_key_column(columns: &Vec<ColumnDefinition>) -> (r: usize)
    ensures
        r == key_column(table::column_views(columns@), 0),
        r <= columns@.len(),
{
    let ghost all = table::column_views(columns@);
    let mut i: usize = 0;
    while i < columns.len()
        invariant
            i <= columns@.len(),
            all == table::column_views(columns@),
            key_column(all, 0) == key_column(all, i as int),
        decreases columns@.len() - i,
    {
        assert(all[i as int] == columns@[i as int]@);
        match &columns[i].source_identity {
            ColumnSourceIdentity::ObjectKey => {
                return i;
            },
            _ => {},
        }
        i = i + 1;
    }
    i
}

fn uses_name(columns: &Vec<ColumnDefinition>, paths: &Vec<String>) -> (r: bool)
    requires
        text::views(paths@) == structured_paths(table::column_views(columns@), columns@.len() as int),
    ensures
        r == name_is_used(table::column_views(columns@), columns@.len() as int),
{
    let ghost all = table::column_views(columns@);
    let mut i: usize = 0;
    while i < columns.len()
        invariant
            i <= columns@.len(),
            all == table::column_views(columns@),
            text::views(paths@) == structured_paths(all, all.len() as int),
            !name_is_used(all, i as int),
        decreases columns@.len() - i,
    {
        assert(all[i as int] == columns@[i as int]@);
        match &columns[i].source_identity {
            ColumnSourceIdentity::StructuredPath(path) => {
                let label = shortest_unique_label(path.as_str(), paths);
                if same(&label, "name") {
                    assert(is_called_name(all, i as int));
                    assert(name_is_used(all, all.len() as int));
                    return true;
                }
            },
            _ => {},
        }
        assert(!name_is_used(all, i + 1));
        i = i + 1;
    }
    false
}

impl JsonSchema {
    /// Gives every column its first label.
    pub fn assign_initial_labels(&mut self)
        ensures
            final(self)@ == with_labels(old(self)@),
    {
        let ghost all = table::column_views(self.columns@);
        let paths = paths_of(&self.columns);
        let used = uses_name(&self.columns, &paths);
        let key: usize = find_key_column(&self.columns);
        let mut columns: Vec<ColumnDefinition> = Vec::new();
        let mut i: usize = 0;
        while i < self.columns.len()
            invariant
                i <= self.columns@.len(),
                self@ == old(self)@,
                all == table::column_views(self.columns@),
                text::views(paths@) == structured_paths(all, all.len() as int),
                used == name_is_used(all, all.len() as int),
                key == key_column(all, 0),
                columns@.len() == i,
                forall|k: int|
                    0 <= k < i ==> (#[trigger] columns@[k])@ == (ColumnModel {
                        display_name: first_label(all, k),
                        ..all[k]
                    }),
            decreases self.columns@.len() - i,
        {
            let mut column = self.columns[i].clone();
            assert(all[i as int] == self.columns@[i as int]@);
            let label = match &self.columns[i].source_identity {
                ColumnSourceIdentity::Positional(n) => concat2(
                    "Column ",
                    &decimal_of_usize(n.saturating_add(1)),
                ),
                ColumnSourceIdentity::StructuredPath(path) => shortest_unique_label(
                    path.as_str(),
                    &paths,
                ),
                ColumnSourceIdentity::Delimited { .. } => {
                    let empty = String::new();
                    assert(empty@ =~= Seq::<char>::empty());
                    empty
                },
                ColumnSourceIdentity::RelationColumn { name, .. } => name.clone(),
                ColumnSourceIdentity::ObjectKey => if i == key {
                    if used {
                        "_key".to_owned()
                    } else {
                        "name".to_owned()
                    }
                } else {
                    self.columns[i].display_name.clone()
                },
            };
            column.display_name = label;
            columns.push(column);
            i = i + 1;
        }
        self.columns = columns;
        assert(table::column_views(self.columns@) =~= labelled(all));
        self.labels_assigned = true;
    }
}

// ---------------------------------------------------------------------------
// Rows
// ---------------------------------------------------------------------------

/// The value of the last of the first `n` cells with the given path.
pub open spec fn cell_at_path(cells: Seq<FlatModel>, n: int, path: Seq<char>) -> CellModel
    decreases n,
{
    if n <= 0 || n > cells.len() {
        CellModel::Null
    } else if cells[n - 1].path == path {
        cells[n - 1].value
    } else {
        cell_at_path(cells, n - 1, path)
    }
}

/// The value of the first cell from `from` on with the given position.
pub open spec fn cell_at_position(cells: Seq<FlatModel>, from: int, position: usize) -> CellModel
    decreases cells.len() - from,
{
    if from < 0 || from >= cells.len() {
        CellModel::Null
    } else if cells[from].identity == IdentityModel::Positional(position) {
        cells[from].value
    } else {
        cell_at_position(cells, from + 1, position)
    }
}

/// The value of a row in a column: by the column's path, or by its position
/// where it has no path. What a row lacks is missing.
pub open spec fn cell_in_column(cells: Seq<FlatModel>, column: ColumnModel) -> CellModel {
    let path = match column.identity.key() {
        Some(path) => path,
        None => Seq::empty(),
    };
    if path.len() > 0 {
        cell_at_path(cells, cells.len() as int, path)
    } else {
        match column.identity {
            IdentityModel::Positional(position) => cell_at_position(cells, 0, position),
            _ => CellModel::Null,
        }
    }
}

/// The values of a row in all columns.
pub open spec fn typed_cells(cells: Seq<FlatModel>, columns: Seq<ColumnModel>) -> Seq<CellModel> {
    Seq::new(columns.len(), |i: int| cell_in_column(cells, columns[i]))
}

fn find_cell(cells: &Vec<FlatCell>, path: &str) -> (r: CellValue)
    ensures
        r@ == cell_at_path(json_rows::flat_views(cells@), cells@.len() as int, path@),
{
    let ghost all = json_rows::flat_views(cells@);
    let mut n: usize = cells.len();
    while n > 0
        invariant
            n <= cells@.len(),
            all == json_rows::flat_views(cells@),
            cell_at_path(all, all.len() as int, path@) == cell_at_path(all, n as int, path@),
        decreases n,
    {
        if same(&cells[n - 1].path, path) {
            return cells[n - 1].value.clone();
        }
        n = n - 1;
    }
    CellValue::Null
}

fn find_position(cells: &Vec<FlatCell>, position: usize) -> (r: CellValue)
    ensures
        r@ == cell_at_position(json_rows::flat_views(cells@), 0, position),
{
    let ghost all = json_rows::flat_views(cells@);
    let mut i: usize = 0;
    while i < cells.len()
        invariant
            i <= cells@.len(),
            all == json_rows::flat_views(cells@),
            cell_at_position(all, 0, position) == cell_at_position(all, i as int, position),
        decreases cells@.len() - i,
    {
        assert(all[i as int] == cells@[i as int]@);
        match &cells[i].identity {
            ColumnSourceIdentity::Positional(n) => if *n == position {
                return cells[i].value.clone();
            },
            _ => {},
        }
        i = i + 1;
    }
    CellValue::Null
}

/// The row with its values in the columns of a schema.
pub fn typed_row_from_flat(
    generation: SourceGeneration,
    index: usize,
    raw: &FlatRow,
    schema: &JsonSchema,
) -> (r: Row)
    ensures
        r.id == (RowId { generation, ordinal: index as u64 }),
        table::cell_views(r.cells@) == typed_cells(raw@.cells, schema@.columns),
{
    let mut cells: Vec<CellValue> = Vec::new();
    let mut i: usize = 0;
    while i < schema.columns.len()
        invariant
            i <= schema.columns@.len(),
            cells@.len() == i,
            forall|k: int|
                0 <= k < i ==> (#[trigger] cells@[k])@ == cell_in_column(
                    raw@.cells,
                    schema.columns@[k]@,
                ),
        decreases schema.columns@.len() - i,
    {
        let column = &schema.columns[i];
        let known = match column.source_identity.canonical_key() {
            Some(path) => if path.is_empty() {
                None
            } else {
                Some(path)
            },
            None => None,
        };
        let cell = match known {
            Some(path) => find_cell(&raw.cells, path),
            None => match &column.source_identity {
                ColumnSourceIdentity::Positional(position) => find_position(&raw.cells, *position),
                _ => CellValue::Null,
            },
        };
        cells.push(cell);
        i = i + 1;
    }
    assert(table::cell_views(cells@) =~= typed_cells(raw@.cells, schema@.columns));
    Row { id: RowId { generation, ordinal: index as u64 }, cells }
}

// ---------------------------------------------------------------------------
// Laws
// ---------------------------------------------------------------------------

/// Whether every column of a schema is still a column of a later one, in its
/// place and under its label, with a type that holds the same values.
pub open spec fn extends(earlier: SchemaModel, later: SchemaModel) -> bool {
    &&& earlier.columns.len() <= later.columns.len()
    &&& earlier.paths == later.paths.take(earlier.paths.len() as int)
    &&& forall|i: int|
        0 <= i < earlier.columns.len() ==> {
            let a = #[trigger] earlier.columns[i];
            let b = later.columns[i];
            &&& a.id == b.id
            &&& a.identity == b.identity
            &&& a.display_name == b.display_name
            &&& b.source_type.join(a.source_type) == b.source_type
        }
}

proof fn lemma_cell_extends(step: SchemaStep, cell: FlatModel)
    requires
        step.schema.well_formed(),
    ensures
        cell_observed(step, cell).schema.well_formed(),
        extends(step.schema, cell_observed(step, cell).schema),
{
    let schema = step.schema;
    let after = cell_observed(step, cell).schema;
    lemma_path_place(schema.paths, cell.path, 0);
    assert(after.paths.take(schema.paths.len() as int) =~= schema.paths);
}

/// What extends an extension of a schema extends it.
pub proof fn lemma_extends_transitive(a: SchemaModel, b: SchemaModel, c: SchemaModel)
    requires
        a.well_formed(),
        b.well_formed(),
        c.well_formed(),
        extends(a, b),
        extends(b, c),
    ensures
        extends(a, c),
{
    assert(c.paths.take(a.paths.len() as int) =~= b.paths.take(a.paths.len() as int));
    assert forall|i: int| 0 <= i < a.columns.len() implies {
        let x = #[trigger] a.columns[i];
        let y = c.columns[i];
        &&& x.id == y.id
        &&& x.identity == y.identity
        &&& x.display_name == y.display_name
        &&& y.source_type.join(x.source_type) == y.source_type
    } by {
        let x = b.columns[i];
    }
}

/// Observing some cells of a row only extends a schema.
pub proof fn lemma_cells_extend(step: SchemaStep, cells: Seq<FlatModel>, n: int)
    requires
        step.schema.well_formed(),
        0 <= n <= cells.len(),
    ensures
        cells_observed(step, cells, n).schema.well_formed(),
        extends(step.schema, cells_observed(step, cells, n).schema),
    decreases n,
{
    if n > 0 {
        lemma_cells_extend(step, cells, n - 1);
        let before = cells_observed(step, cells, n - 1);
        lemma_cell_extends(before, cells[n - 1]);
        lemma_extends_transitive(
            step.schema,
            before.schema,
            cells_observed(step, cells, n).schema,
        );
    } else {
        assert(step.schema.paths.take(step.schema.paths.len() as int) =~= step.schema.paths);
    }
}

/// Observing a row removes no column, moves none and renames none, and narrows no
/// type.
pub proof fn observing_only_extends(schema: SchemaModel, row: FlatRowModel)
    requires
        schema.well_formed(),
    ensures
        observed(schema, row).schema.well_formed(),
        extends(schema, observed(schema, row).schema),
{
    lemma_cells_extend(unchanged(schema), row.cells, row.cells.len() as int);
}

/// Whether a schema has a column for a cell whose type holds its value.
pub open spec fn holds_cell(schema: SchemaModel, cell: FlatModel) -> bool {
    let at = path_place(schema.paths, cell.path, 0);
    &&& at < schema.paths.len()
    &&& schema.columns[at].source_type.join(cell.value.kind()) == schema.columns[at].source_type
}

proof fn lemma_place_stays(earlier: SchemaModel, later: SchemaModel, path: Seq<char>)
    requires
        earlier.well_formed(),
        later.well_formed(),
        extends(earlier, later),
        path_place(earlier.paths, path, 0) < earlier.paths.len(),
    ensures
        path_place(later.paths, path, 0) == path_place(earlier.paths, path, 0),
{
    lemma_path_place(earlier.paths, path, 0);
    lemma_path_place(later.paths, path, 0);
    let at = path_place(earlier.paths, path, 0);
    assert(later.paths[at] == earlier.paths[at]);
}

proof fn lemma_held_stays(earlier: SchemaModel, later: SchemaModel, cell: FlatModel)
    requires
        earlier.well_formed(),
        later.well_formed(),
        extends(earlier, later),
        holds_cell(earlier, cell),
    ensures
        holds_cell(later, cell),
{
    lemma_place_stays(earlier, later, cell.path);
    lemma_path_place(earlier.paths, cell.path, 0);
    let at = path_place(earlier.paths, cell.path, 0);
    let a = earlier.columns[at].source_type;
    let b = later.columns[at].source_type;
    let k = cell.value.kind();
    assert(b.join(a) == b && a.join(k) == a ==> b.join(k) == b);
}

proof fn lemma_cell_held(step: SchemaStep, cell: FlatModel)
    requires
        step.schema.well_formed(),
    ensures
        holds_cell(cell_observed(step, cell).schema, cell),
{
    let schema = step.schema;
    let after = cell_observed(step, cell).schema;
    lemma_cell_extends(step, cell);
    lemma_path_place(schema.paths, cell.path, 0);
    lemma_path_place(after.paths, cell.path, 0);
    let at = path_place(schema.paths, cell.path, 0);
    assert(after.paths[at] == cell.path);
    let k = cell.value.kind();
    assert(k.join(k) == k);
    if at < schema.paths.len() {
        let t = schema.columns[at].source_type;
        assert(t.join(k).join(k) == t.join(k));
    }
}

/// A schema has columns for the cells that it observed.
pub proof fn lemma_cells_held(step: SchemaStep, cells: Seq<FlatModel>, n: int)
    requires
        step.schema.well_formed(),
        0 <= n <= cells.len(),
    ensures
        forall|i: int|
            0 <= i < n ==> holds_cell(cells_observed(step, cells, n).schema, #[trigger] cells[i]),
    decreases n,
{
    if n > 0 {
        lemma_cells_held(step, cells, n - 1);
        lemma_cells_extend(step, cells, n - 1);
        let before = cells_observed(step, cells, n - 1);
        lemma_cell_extends(before, cells[n - 1]);
        lemma_cell_held(before, cells[n - 1]);
        let now = cells_observed(step, cells, n).schema;
        assert forall|i: int| 0 <= i < n implies holds_cell(now, #[trigger] cells[i]) by {
            if i < n - 1 {
                lemma_held_stays(before.schema, now, cells[i]);
            }
        }
    }
}

proof fn lemma_held_changes_nothing(step: SchemaStep, cells: Seq<FlatModel>, n: int)
    requires
        0 <= n <= cells.len(),
        forall|i: int| 0 <= i < cells.len() ==> holds_cell(step.schema, #[trigger] cells[i]),
    ensures
        cells_observed(step, cells, n) == step,
    decreases n,
{
    if n > 0 {
        lemma_held_changes_nothing(step, cells, n - 1);
        assert(holds_cell(step.schema, cells[n - 1]));
    }
}

/// A row that was observed teaches nothing when it comes again.
pub proof fn observing_again_changes_nothing(schema: SchemaModel, row: FlatRowModel)
    requires
        schema.well_formed(),
    ensures
        observed(observed(schema, row).schema, row) == unchanged(observed(schema, row).schema),
{
    let n = row.cells.len() as int;
    lemma_cells_held(unchanged(schema), row.cells, n);
    lemma_held_changes_nothing(unchanged(observed(schema, row).schema), row.cells, n);
}

/// Every cell of a row that was observed has a column whose type holds its value.
pub proof fn observed_cells_have_columns(schema: SchemaModel, row: FlatRowModel, i: int)
    requires
        schema.well_formed(),
        0 <= i < row.cells.len(),
    ensures
        ({
            let after = observed(schema, row).schema;
            let at = path_place(after.paths, row.cells[i].path, 0);
            &&& 0 <= at < after.columns.len()
            &&& after.columns[at].source_type.join(row.cells[i].value.kind())
                == after.columns[at].source_type
        }),
{
    let after = observed(schema, row).schema;
    lemma_cells_held(unchanged(schema), row.cells, row.cells.len() as int);
    lemma_cells_extend(unchanged(schema), row.cells, row.cells.len() as int);
    lemma_path_place(after.paths, row.cells[i].path, 0);
    assert(holds_cell(after, row.cells[i]));
}

/// A key of letters, digits, low lines and minus signs stands for itself in a label; any
/// other stands in brackets and quotes.
pub proof fn keys_are_shown_plainly_or_quoted(key: Seq<char>, i: int)
    ensures
        key.len() > 0 && (forall|k: int|
            0 <= k < key.len() ==> is_alphanumeric(#[trigger] key[k]) || key[k] == '_' || key[k]
                == '-') ==> friendly(key) == key,
        0 <= i < key.len() && !is_alphanumeric(key[i]) && key[i] != '_' && key[i] != '-'
            ==> friendly(key) == seq!['['] + json_value::json_quoted(key) + seq![']'],
        friendly(Seq::empty()) == seq!['['] + json_value::json_quoted(Seq::empty()) + seq![']'],
{
    reveal_strlit("[");
    reveal_strlit("]");
    assert("["@ =~= seq!['[']);
    assert("]"@ =~= seq![']']);
    if key.len() > 0 && (forall|k: int|
        0 <= k < key.len() ==> is_alphanumeric(#[trigger] key[k]) || key[k] == '_' || key[k]
            == '-') {
        assert forall|k: int| 0 <= k < key.len() implies is_plain(#[trigger] key[k]) by {}
    }
    if 0 <= i < key.len() && !is_alphanumeric(key[i]) && key[i] != '_' && key[i] != '-' {
        assert(!is_plain(key[i]));
    }
}

/// Parts of a label are put together with dots, but none stands before a bracket or at
/// the beginning.
pub proof fn parts_are_put_together_with_dots(parts: Seq<Seq<char>>, part: Seq<char>)
    ensures
        glued(Seq::empty()) == Seq::<char>::empty(),
        glued(seq![part]) == part,
        glued(parts).len() > 0 && (part.len() == 0 || part[0] != '[') ==> glued(parts.push(part))
            == glued(parts).push('.') + part,
        part.len() > 0 && part[0] == '[' ==> glued(parts.push(part)) == glued(parts) + part,
        glued(parts).len() == 0 ==> glued(parts.push(part)) == part,
{
    assert(parts.push(part).drop_last() =~= parts);
    let none = Seq::<Seq<char>>::empty();
    assert(seq![part].drop_last() =~= none);
    assert(glued(none) =~= Seq::<char>::empty());
    assert(Seq::<char>::empty() + part =~= part);
    if glued(parts).len() == 0 {
        assert(glued(parts) + part =~= part);
    }
}

/// A label is made of the last parts of a path, as many as its depth says, and is a word
/// of its own where they come to nothing.
pub proof fn labels_are_made_of_last_parts(parts: Seq<Seq<char>>, depth: int)
    requires
        0 <= depth,
    ensures
        depth >= parts.len() && glued(parts).len() > 0 ==> label_suffix(parts, depth) == glued(
            parts,
        ),
        depth < parts.len() && glued(parts.skip(parts.len() - depth)).len() > 0 ==> label_suffix(
            parts,
            depth,
        ) == glued(parts.skip(parts.len() - depth)),
        label_suffix(Seq::empty(), depth) == seq!['v', 'a', 'l', 'u', 'e'],
        label_suffix(parts, depth).len() > 0,
{
    reveal_strlit("value");
    assert("value"@ =~= seq!['v', 'a', 'l', 'u', 'e']);
    assert(parts.skip(0) =~= parts);
    let none = Seq::<Seq<char>>::empty();
    assert(none.skip(0) =~= none);
    assert(glued(none).len() == 0);
}

/// A label for a new column is none that is used already, or else the whole path.
pub proof fn new_labels_are_free(path: Seq<char>, used: Seq<Seq<char>>, depth: int)
    requires
        depth >= 1,
    ensures
        !used.contains(free_label_from(path, used, depth)) || free_label_from(path, used, depth)
            == path,
        depth <= label_depth(label_parts(path)) && !used.contains(
            label_suffix(label_parts(path), depth),
        ) ==> free_label_from(path, used, depth) == label_suffix(label_parts(path), depth),
        depth <= label_depth(label_parts(path)) && used.contains(
            label_suffix(label_parts(path), depth),
        ) ==> free_label_from(path, used, depth) == free_label_from(path, used, depth + 1),
        free_label(path, used) == free_label_from(path, used, 1),
    decreases label_depth(label_parts(path)) - depth + 1,
{
    if depth <= label_depth(label_parts(path)) {
        new_labels_are_free(path, used, depth + 1);
    }
}

/// A column is called by the fewest last parts of its path that no other path shares at
/// that depth.
pub proof fn labels_are_as_short_as_can_be(path: Seq<char>, paths: Seq<Seq<char>>, depth: int)
    requires
        depth >= 1,
    ensures
        depth <= label_depth(label_parts(path)) && label_uses(
            paths,
            paths.len() as int,
            depth,
            label_suffix(label_parts(path), depth),
        ) <= 1 ==> unique_label_from(path, paths, depth) == label_suffix(label_parts(path), depth),
        depth <= label_depth(label_parts(path)) && label_uses(
            paths,
            paths.len() as int,
            depth,
            label_suffix(label_parts(path), depth),
        ) > 1 ==> unique_label_from(path, paths, depth) == unique_label_from(
            path,
            paths,
            depth + 1,
        ),
        depth > label_depth(label_parts(path)) ==> unique_label_from(path, paths, depth) == path,
        unique_label(path, paths) == unique_label_from(path, paths, 1),
{
}

/// A new path adds one column at the end, with the type of its cell, and is told; a known
/// one at most widens the type of its column, to hold both, and that is told.
pub proof fn new_paths_add_columns(step: SchemaStep, cell: FlatModel)
    requires
        step.schema.well_formed(),
    ensures
        !step.schema.paths.contains(cell.path) ==> {
            let next = cell_observed(step, cell);
            &&& next.schema.paths == step.schema.paths.push(cell.path)
            &&& next.schema.columns.len() == step.schema.columns.len() + 1
            &&& next.schema.columns.drop_last() == step.schema.columns
            &&& next.schema.columns.last().source_type == cell.value.kind()
            &&& next.schema.columns.last().identity == cell.identity
            &&& next.schema.columns.last().id.ordinal == step.schema.columns.len() as u32
            &&& next.schema.columns.last().type_origin is Inferred
            &&& !step.schema.labels_assigned ==> next.schema.columns.last().display_name
                == cell.path
            &&& next.delta.added == step.delta.added.push(next.schema.columns.last())
            &&& next.delta.widened == step.delta.widened
        },
        step.schema.paths.contains(cell.path) ==> {
            let next = cell_observed(step, cell);
            &&& next.schema.paths == step.schema.paths
            &&& next.schema.columns.len() == step.schema.columns.len()
            &&& next.delta.added == step.delta.added
        },
{
    lemma_path_place(step.schema.paths, cell.path, 0);
    let paths = step.schema.paths;
    let at = path_place(paths, cell.path, 0);
    lemma_place_known(paths, cell.path, 0);
    if !paths.contains(cell.path) {
        let next = cell_observed(step, cell);
        assert(next.schema.columns.drop_last() =~= step.schema.columns);
    }
}

proof fn lemma_place_known(paths: Seq<Seq<char>>, path: Seq<char>, from: int)
    requires
        0 <= from <= paths.len(),
    ensures
        path_place(paths, path, from) < paths.len() ==> from <= path_place(paths, path, from)
            && paths[path_place(paths, path, from)] == path,
        path_place(paths, path, from) >= paths.len() ==> forall|k: int|
            from <= k < paths.len() ==> #[trigger] paths[k] != path,
    decreases paths.len() - from,
{
    if from < paths.len() && paths[from] != path {
        lemma_place_known(paths, path, from + 1);
    }
}

/// A known column becomes as wide as its type and that of the cell together, and no other
/// column changes.
pub proof fn known_columns_only_widen(step: SchemaStep, cell: FlatModel, at: int, other: int)
    requires
        step.schema.well_formed(),
        0 <= at < step.schema.paths.len(),
        0 <= other < step.schema.paths.len(),
        step.schema.paths[at] == cell.path,
    ensures
        cell_observed(step, cell).schema.columns[at].source_type
            == step.schema.columns[at].source_type.join(cell.value.kind()),
        cell_observed(step, cell).schema.columns[at].id == step.schema.columns[at].id,
        other != at ==> cell_observed(step, cell).schema.columns[other]
            == step.schema.columns[other],
        cell_observed(step, cell).delta.widened == step.delta.widened || cell_observed(
            step,
            cell,
        ).delta.widened == step.delta.widened.push(
            TypeWidening {
                column: step.schema.columns[at].id,
                source_type: step.schema.columns[at].source_type.join(cell.value.kind()),
            },
        ),
{
    lemma_place_known(step.schema.paths, cell.path, 0);
    let found = path_place(step.schema.paths, cell.path, 0);
    assert(found < step.schema.paths.len());
    assert(found == at);
}

/// Positions are called by their number from one, columns of a relation by their name,
/// and the keys of entries by a word, or by another where a column is called so.
pub proof fn first_labels_go_by_identity(columns: Seq<ColumnModel>, i: int)
    requires
        0 <= i < columns.len(),
    ensures
        columns[i].identity matches IdentityModel::Positional(n) ==> (n < usize::MAX ==> first_label(
            columns,
            i,
        ) == "Column "@ + text::decimal((n + 1) as nat)),
        columns[i].identity matches IdentityModel::RelationColumn { name, .. } ==> first_label(
            columns,
            i,
        ) == name,
        columns[i].identity is ObjectKey && (forall|k: int|
            0 <= k < i ==> !((#[trigger] columns[k]).identity is ObjectKey)) && !name_is_used(
            columns,
            columns.len() as int,
        ) ==> first_label(columns, i) == seq!['n', 'a', 'm', 'e'],
        columns[i].identity is ObjectKey && (forall|k: int|
            0 <= k < i ==> !((#[trigger] columns[k]).identity is ObjectKey)) && name_is_used(
            columns,
            columns.len() as int,
        ) ==> first_label(columns, i) == seq!['_', 'k', 'e', 'y'],
        labelled(columns).len() == columns.len(),
        labelled(columns)[i].display_name == first_label(columns, i),
        labelled(columns)[i].id == columns[i].id,
        labelled(columns)[i].source_type == columns[i].source_type,
{
    reveal_strlit("name");
    reveal_strlit("_key");
    assert("name"@ =~= seq!['n', 'a', 'm', 'e']);
    assert("_key"@ =~= seq!['_', 'k', 'e', 'y']);
    if columns[i].identity is ObjectKey && (forall|k: int|
        0 <= k < i ==> !((#[trigger] columns[k]).identity is ObjectKey)) {
        lemma_key_column(columns, 0, i);
    }
}

proof fn lemma_key_column(columns: Seq<ColumnModel>, from: int, i: int)
    requires
        0 <= from <= i < columns.len(),
        columns[i].identity is ObjectKey,
        forall|k: int| 0 <= k < i ==> !((#[trigger] columns[k]).identity is ObjectKey),
    ensures
        key_column(columns, from) == i,
    decreases i - from,
{
    if from < i {
        assert(!(columns[from].identity is ObjectKey));
        lemma_key_column(columns, from + 1, i);
    }
}

/// A row shows in each column the cell of that column's path, the last where there are
/// several, or of its position, and nothing where it has none.
pub proof fn cells_stand_in_the_column_of_their_path(
    cells: Seq<FlatModel>,
    column: ColumnModel,
    i: int,
    path: Seq<char>,
    position: usize,
)
    requires
        0 <= i < cells.len(),
        path.len() > 0,
    ensures
        column.identity == IdentityModel::StructuredPath(path) && cells[i].path == path && (forall|
            k: int,
        |
            i < k < cells.len() ==> (#[trigger] cells[k]).path != path) ==> cell_in_column(
            cells,
            column,
        ) == cells[i].value,
        column.identity == IdentityModel::StructuredPath(path) && (forall|k: int|
            0 <= k < cells.len() ==> (#[trigger] cells[k]).path != path) ==> cell_in_column(
            cells,
            column,
        ) is Null,
        column.identity == IdentityModel::Positional(position) && cells[i].identity
            == IdentityModel::Positional(position) && (forall|k: int|
            0 <= k < i ==> (#[trigger] cells[k]).identity != IdentityModel::Positional(position))
            ==> cell_in_column(cells, column) == cells[i].value,
        column.identity == IdentityModel::Positional(position) && (forall|k: int|
            0 <= k < cells.len() ==> (#[trigger] cells[k]).identity != IdentityModel::Positional(
                position,
            )) ==> cell_in_column(cells, column) is Null,
{
    lemma_path_cell(cells, cells.len() as int, path, i);
    lemma_position_cell(cells, 0, position, i);
}

proof fn lemma_path_cell(cells: Seq<FlatModel>, n: int, path: Seq<char>, i: int)
    requires
        0 <= n <= cells.len(),
        0 <= i < cells.len(),
    ensures
        i < n && cells[i].path == path && (forall|k: int|
            i < k < cells.len() ==> (#[trigger] cells[k]).path != path) ==> cell_at_path(
            cells,
            n,
            path,
        ) == cells[i].value,
        (forall|k: int| 0 <= k < cells.len() ==> (#[trigger] cells[k]).path != path)
            ==> cell_at_path(cells, n, path) is Null,
    decreases n,
{
    if n > 0 {
        lemma_path_cell(cells, n - 1, path, i);
    }
}

proof fn lemma_position_cell(cells: Seq<FlatModel>, from: int, position: usize, i: int)
    requires
        0 <= from <= cells.len(),
        0 <= i < cells.len(),
    ensures
        from <= i && cells[i].identity == IdentityModel::Positional(position) && (forall|k: int|
            0 <= k < i ==> (#[trigger] cells[k]).identity != IdentityModel::Positional(position))
            ==> cell_at_position(cells, from, position) == cells[i].value,
        (forall|k: int|
            0 <= k < cells.len() ==> (#[trigger] cells[k]).identity != IdentityModel::Positional(
                position,
            )) ==> cell_at_position(cells, from, position) is Null,
    decreases cells.len() - from,
{
    if from < cells.len() {
        lemma_position_cell(cells, from + 1, position, i);
    }
}

/// A column that comes behind labelled ones gets a label that none of them has, or its
/// path; columns are labelled all at once and keep everything else.
pub proof fn late_columns_get_free_labels(schema: SchemaModel, cell: FlatModel)
    ensures
        schema.labels_assigned ==> new_column(schema, cell).display_name == cell.path || forall|
            i: int,
        |
            0 <= i < schema.columns.len() ==> (#[trigger] schema.columns[i]).display_name
                != new_column(schema, cell).display_name,
        with_labels(schema).labels_assigned,
        with_labels(schema).columns.len() == schema.columns.len(),
        with_labels(schema).paths == schema.paths,
        with_labels(schema).generation == schema.generation,
{
    if schema.labels_assigned {
        let used = column_labels(schema.columns);
        new_labels_are_free(cell.path, used, 1);
        let label = new_column(schema, cell).display_name;
        if label != cell.path {
            assert forall|i: int| 0 <= i < schema.columns.len() implies (
            #[trigger] schema.columns[i]).display_name != label by {
                assert(used[i] == schema.columns[i].display_name);
            }
        }
    }
}

/// The paths that labels are told apart by are those of the columns that have one, in
/// their order.
pub proof fn paths_are_those_of_the_columns(columns: Seq<ColumnModel>, n: int)
    requires
        0 <= n < columns.len(),
    ensures
        structured_paths(columns, 0).len() == 0,
        columns[n].identity matches IdentityModel::StructuredPath(path) ==> structured_paths(
            columns,
            n + 1,
        ) == structured_paths(columns, n).push(path),
        !(columns[n].identity is StructuredPath) ==> structured_paths(columns, n + 1)
            == structured_paths(columns, n),
{
}

/// The cells of a row are observed one by one, in their order.
pub proof fn cells_are_observed_in_order(step: SchemaStep, cells: Seq<FlatModel>, n: int)
    requires
        0 <= n < cells.len(),
    ensures
        cells_observed(step, cells, 0) == step,
        cells_observed(step, cells, n + 1) == cell_observed(
            cells_observed(step, cells, n),
            cells[n],
        ),
{
}

/// A label is counted for each path that gives it at that depth.
pub proof fn labels_are_counted_by_path(
    paths: Seq<Seq<char>>,
    n: int,
    depth: int,
    label: Seq<char>,
)
    requires
        0 <= n < paths.len(),
    ensures
        label_uses(paths, 0, depth, label) == 0,
        label_suffix(label_parts(paths[n]), depth) == label ==> label_uses(
            paths,
            n + 1,
            depth,
            label,
        ) == label_uses(paths, n, depth, label) + 1,
        label_suffix(label_parts(paths[n]), depth) != label ==> label_uses(
            paths,
            n + 1,
            depth,
            label,
        ) == label_uses(paths, n, depth, label),
{
}

} // verus!
