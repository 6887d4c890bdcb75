//! Plain data shared by the readers, the view and the output: column and table
//! definitions, cell values, row counts and source queries.

use vstd::prelude::*;

use crate::options::{JsonPointer, StructuredPath};
use crate::text::{self, concat3, decimal_of_usize, join, same};

verus! {

/// A positive number of rows.
#[derive(Debug, Clone, Copy, PartialEq, Eq, Structural)]
pub struct RowLimit {
    rows: usize,
}

impl RowLimit {
    /// The number of rows.
    pub closed spec fn value(self) -> usize {
        self.rows
    }

    #[verifier::type_invariant]
    spec fn positive(self) -> bool {
        self.rows > 0
    }

    /// A limit of `rows`, unless that is zero.
    pub fn new(rows: usize) -> (r: Option<RowLimit>)
        ensures
            match r {
                Some(limit) => rows > 0 && limit.value() == rows,
                None => rows == 0,
            },
    {
        if rows == 0 {
            None
        } else {
            Some(RowLimit { rows })
        }
    }

    /// The number of rows.
    pub fn get(&self) -> (r: usize)
        ensures
            r == self.value(),
            r > 0,
    {
        proof {
            use_type_invariant(self);
        }
        self.rows
    }
}

/// The direction of a sort.
#[derive(Debug, Clone, Copy, PartialEq, Eq, Structural)]
pub enum SortDirection {
    Ascending,
    Descending,
}

/// Where missing values sort.
#[derive(Debug, Clone, Copy, PartialEq, Eq, Structural)]
pub enum NullPlacement {
    First,
    Last,
}

/// The comparison of a source filter.
#[derive(Debug, Clone, Copy, PartialEq, Eq, Structural)]
pub enum SourceFilterOperator {
    Equal,
    NotEqual,
    LessThan,
    LessThanOrEqual,
    GreaterThan,
    GreaterThanOrEqual,
    Contains,
    Prefix,
    IsNull,
    IsNotNull,
}

impl SourceFilterOperator {
    /// Whether the comparison needs a value to compare with.
    pub open spec fn needs_operand(self) -> bool {
        !(self is IsNull || self is IsNotNull)
    }

    /// The name shown to a reader.
    pub open spec fn name(self) -> Seq<char> {
        match self {
            SourceFilterOperator::Equal => "equal"@,
            SourceFilterOperator::NotEqual => "not equal"@,
            SourceFilterOperator::LessThan => "less than"@,
            SourceFilterOperator::LessThanOrEqual => "less than or equal"@,
            SourceFilterOperator::GreaterThan => "greater than"@,
            SourceFilterOperator::GreaterThanOrEqual => "greater than or equal"@,
            SourceFilterOperator::Contains => "contains"@,
            SourceFilterOperator::Prefix => "prefix"@,
            SourceFilterOperator::IsNull => "is null"@,
            SourceFilterOperator::IsNotNull => "is not null"@,
        }
    }

    /// Whether the comparison needs a value to compare with.
    pub fn requires_operand(self) -> (r: bool)
        ensures
            r == self.needs_operand(),
    {
        !matches!(self, SourceFilterOperator::IsNull | SourceFilterOperator::IsNotNull)
    }

    /// The name shown to a reader.
    pub fn label(self) -> (r: &'static str)
        ensures
            r@ == self.name(),
    {
        match self {
            SourceFilterOperator::Equal => "equal",
            SourceFilterOperator::NotEqual => "not equal",
            SourceFilterOperator::LessThan => "less than",
            SourceFilterOperator::LessThanOrEqual => "less than or equal",
            SourceFilterOperator::GreaterThan => "greater than",
            SourceFilterOperator::GreaterThanOrEqual => "greater than or equal",
            SourceFilterOperator::Contains => "contains",
            SourceFilterOperator::Prefix => "prefix",
            SourceFilterOperator::IsNull => "is null",
            SourceFilterOperator::IsNotNull => "is not null",
        }
    }
}

/// The value of a source filter. A floating-point value is kept as its numeral.
#[derive(Debug, PartialEq, Eq)]
pub enum SourceOperand {
    Boolean(bool),
    Integer(i64),
    Float(String),
    Text(String),
}

/// The model of a source operand.
pub enum OperandModel {
    Boolean(bool),
    Integer(i64),
    Float(Seq<char>),
    Text(Seq<char>),
}

impl View for SourceOperand {
    type V = OperandModel;

    open spec fn view(&self) -> OperandModel {
        match self {
            SourceOperand::Boolean(b) => OperandModel::Boolean(*b),
            SourceOperand::Integer(n) => OperandModel::Integer(*n),
            SourceOperand::Float(s) => OperandModel::Float(s@),
            SourceOperand::Text(s) => OperandModel::Text(s@),
        }
    }
}

impl Clone for SourceOperand {
    fn clone(&self) -> (r: Self)
        ensures
            r == *self,
    {
        match self {
            SourceOperand::Boolean(b) => SourceOperand::Boolean(*b),
            SourceOperand::Integer(n) => SourceOperand::Integer(*n),
            SourceOperand::Float(s) => SourceOperand::Float(s.clone()),
            SourceOperand::Text(s) => SourceOperand::Text(s.clone()),
        }
    }
}

/// How wide the columns of a view are drawn.
#[derive(Debug, Clone, Copy, PartialEq, Eq, Structural)]
pub enum ColumnWidthMode {
    Mode,
    Max,
    Fixed(u16),
}

/// How a column is aligned.
#[derive(Debug, Clone, Copy, PartialEq, Eq, Structural)]
pub enum ColumnAlignment {
    Left,
    Right,
}

/// One reading of a source; identities from different readings never mix.
#[derive(Debug, Clone, Copy, PartialEq, Eq, Structural)]
pub struct SourceGeneration {
    pub number: u64,
}

/// A column of one reading of a source.
#[derive(Debug, Clone, Copy, PartialEq, Eq, Structural)]
pub struct ColumnId {
    pub generation: SourceGeneration,
    pub ordinal: u32,
}

/// A row of one reading of a source.
#[derive(Debug, Clone, Copy, PartialEq, Eq, Structural)]
pub struct RowId {
    pub generation: SourceGeneration,
    pub ordinal: u64,
}

/// The type of the values of a column.
#[derive(Debug, Clone, Copy, PartialEq, Eq, Structural)]
pub enum LogicalType {
    Null,
    Boolean,
    Integer,
    Float,
    Text,
    Json,
}

impl LogicalType {
    /// The narrowest type that holds the values of both: missing values fit
    /// anywhere, integers fit among floats, and other mixtures are text.
    pub open spec fn join(self, other: LogicalType) -> LogicalType {
        if self == other || other is Null {
            self
        } else if self is Null {
            other
        } else if (self is Integer && other is Float) || (self is Float && other is Integer) {
            LogicalType::Float
        } else {
            LogicalType::Text
        }
    }

    /// The narrowest type that holds the values of both.
    pub fn widen(self, other: LogicalType) -> (r: LogicalType)
        ensures
            r == self.join(other),
    {
        if self == other || other == LogicalType::Null {
            self
        } else if self == LogicalType::Null {
            other
        } else if (self == LogicalType::Integer && other == LogicalType::Float) || (self
            == LogicalType::Float && other == LogicalType::Integer) {
            LogicalType::Float
        } else {
            LogicalType::Text
        }
    }
}

/// Widening is idempotent, commutative and keeps what was already widened.
pub proof fn widening_is_a_join(a: LogicalType, b: LogicalType)
    ensures
        a.join(a) == a,
        a.join(b) == b.join(a),
        a.join(b).join(a) == a.join(b),
        a.join(b).join(b) == a.join(b),
{
}

/// The value of a cell. A floating-point value is kept as its numeral.
#[derive(Debug, PartialEq, Eq)]
pub enum CellValue {
    Null,
    Boolean(bool),
    Integer(i64),
    Float(String),
    Text(String),
    Json(String),
}

/// The model of a cell value.
pub enum CellModel {
    Null,
    Boolean(bool),
    Integer(i64),
    Float(Seq<char>),
    Text(Seq<char>),
    Json(Seq<char>),
}

impl View for CellValue {
    type V = CellModel;

    open spec fn view(&self) -> CellModel {
        match self {
            CellValue::Null => CellModel::Null,
            CellValue::Boolean(b) => CellModel::Boolean(*b),
            CellValue::Integer(n) => CellModel::Integer(*n),
            CellValue::Float(s) => CellModel::Float(s@),
            CellValue::Text(s) => CellModel::Text(s@),
            CellValue::Json(s) => CellModel::Json(s@),
        }
    }
}

impl CellModel {
    /// The type of the value.
    pub open spec fn kind(self) -> LogicalType {
        match self {
            CellModel::Null => LogicalType::Null,
            CellModel::Boolean(_) => LogicalType::Boolean,
            CellModel::Integer(_) => LogicalType::Integer,
            CellModel::Float(_) => LogicalType::Float,
            CellModel::Text(_) => LogicalType::Text,
            CellModel::Json(_) => LogicalType::Json,
        }
    }
}

impl CellValue {
    /// The type of the value.
    pub fn logical_type(&self) -> (r: LogicalType)
        ensures
            r == self@.kind(),
    {
        match self {
            CellValue::Null => LogicalType::Null,
            CellValue::Boolean(_) => LogicalType::Boolean,
            CellValue::Integer(_) => LogicalType::Integer,
            CellValue::Float(_) => LogicalType::Float,
            CellValue::Text(_) => LogicalType::Text,
            CellValue::Json(_) => LogicalType::Json,
        }
    }
}

impl Clone for CellValue {
    fn clone(&self) -> (r: Self)
        ensures
            r == *self,
    {
        match self {
            CellValue::Null => CellValue::Null,
            CellValue::Boolean(b) => CellValue::Boolean(*b),
            CellValue::Integer(n) => CellValue::Integer(*n),
            CellValue::Float(s) => CellValue::Float(s.clone()),
            CellValue::Text(s) => CellValue::Text(s.clone()),
            CellValue::Json(s) => CellValue::Json(s.clone()),
        }
    }
}

/// The models of a list of cells.
pub open spec fn cell_views(v: Seq<CellValue>) -> Seq<CellModel> {
    Seq::new(v.len(), |i: int| v[i]@)
}

/// A row of typed cells.
#[derive(Debug, PartialEq, Eq)]
pub struct Row {
    pub id: RowId,
    pub cells: Vec<CellValue>,
}

/// How many rows a source has, as far as is known.
#[derive(Debug, Clone, Copy, PartialEq, Eq, Structural)]
pub enum RowCount {
    Exact(usize),
    AtLeast(usize),
    Unknown,
}

/// Whether all columns of a table are known.
#[derive(Debug, Clone, Copy, PartialEq, Eq, Structural)]
pub enum SchemaState {
    Complete,
    Provisional,
}

/// Whether the type of a column was declared or inferred from its values.
#[derive(Debug, Clone, Copy, PartialEq, Eq, Structural)]
pub enum TypeOrigin {
    Declared,
    Inferred,
}

/// What a column is in its source.
#[allow(inconsistent_fields)]
#[derive(Debug, PartialEq, Eq)]
pub enum ColumnSourceIdentity {
    Delimited { ordinal: usize, name: Option<String> },
    StructuredPath(JsonPointer),
    Positional(usize),
    ObjectKey,
    RelationColumn { relation: String, ordinal: usize, name: String },
}

/// The model of a column identity.
#[allow(inconsistent_fields)]
pub enum IdentityModel {
    Delimited { ordinal: usize, name: Option<Seq<char>> },
    StructuredPath(Seq<char>),
    Positional(usize),
    ObjectKey,
    RelationColumn { relation: Seq<char>, ordinal: usize, name: Seq<char> },
}

impl View for ColumnSourceIdentity {
    type V = IdentityModel;

    open spec fn view(&self) -> IdentityModel {
        match self {
            ColumnSourceIdentity::Delimited { ordinal, name } => IdentityModel::Delimited {
                ordinal: *ordinal,
                name: text::opt_view(*name),
            },
            ColumnSourceIdentity::StructuredPath(path) => IdentityModel::StructuredPath(path@),
            ColumnSourceIdentity::Positional(n) => IdentityModel::Positional(*n),
            ColumnSourceIdentity::ObjectKey => IdentityModel::ObjectKey,
            ColumnSourceIdentity::RelationColumn { relation, ordinal, name } =>
                IdentityModel::RelationColumn {
                relation: relation@,
                ordinal: *ordinal,
                name: name@,
            },
        }
    }
}

impl Clone for ColumnSourceIdentity {
    fn clone(&self) -> (r: Self)
        ensures
            r@ == self@,
    {
        match self {
            ColumnSourceIdentity::Delimited { ordinal, name } => ColumnSourceIdentity::Delimited {
                ordinal: *ordinal,
                name: name.clone(),
            },
            ColumnSourceIdentity::StructuredPath(path) => ColumnSourceIdentity::StructuredPath(
                path.clone(),
            ),
            ColumnSourceIdentity::Positional(n) => ColumnSourceIdentity::Positional(*n),
            ColumnSourceIdentity::ObjectKey => ColumnSourceIdentity::ObjectKey,
            ColumnSourceIdentity::RelationColumn { relation, ordinal, name } =>
                ColumnSourceIdentity::RelationColumn {
                relation: relation.clone(),
                ordinal: *ordinal,
                name: name.clone(),
            },
        }
    }
}

impl IdentityModel {
    /// The key under which saved views know the column, where its source has names for columns.
    pub open spec fn key(self) -> Option<Seq<char>> {
        match self {
            IdentityModel::StructuredPath(path) => Some(path),
            IdentityModel::ObjectKey => Some("@key"@),
            IdentityModel::RelationColumn { name, .. } => Some(name),
            _ => None,
        }
    }
}

impl ColumnSourceIdentity {
    /// The key under which saved views know the column.
    pub fn canonical_key(&self) -> (r: Option<&str>)
        ensures
            text::opt_str_view(r) == self@.key(),
    {
        match self {
            ColumnSourceIdentity::StructuredPath(path) => Some(path.as_str()),
            ColumnSourceIdentity::ObjectKey => Some("@key"),
            ColumnSourceIdentity::RelationColumn { name, .. } => Some(name.as_str()),
            _ => None,
        }
    }
}

/// A column of a table.
#[derive(Debug, PartialEq, Eq)]
pub struct ColumnDefinition {
    pub id: ColumnId,
    pub source_identity: ColumnSourceIdentity,
    pub display_name: String,
    pub source_declared_type: Option<String>,
    pub source_type: LogicalType,
    pub type_origin: TypeOrigin,
}

/// The model of a column.
pub struct ColumnModel {
    pub id: ColumnId,
    pub identity: IdentityModel,
    pub display_name: Seq<char>,
    pub declared_type: Option<Seq<char>>,
    pub source_type: LogicalType,
    pub type_origin: TypeOrigin,
}

impl View for ColumnDefinition {
    type V = ColumnModel;

    open spec fn view(&self) -> ColumnModel {
        ColumnModel {
            id: self.id,
            identity: self.source_identity@,
            display_name: self.display_name@,
            declared_type: text::opt_view(self.source_declared_type),
            source_type: self.source_type,
            type_origin: self.type_origin,
        }
    }
}

impl Clone for ColumnDefinition {
    fn clone(&self) -> (r: Self)
        ensures
            r@ == self@,
    {
        ColumnDefinition {
            id: self.id,
            source_identity: self.source_identity.clone(),
            display_name: self.display_name.clone(),
            source_declared_type: self.source_declared_type.clone(),
            source_type: self.source_type,
            type_origin: self.type_origin,
        }
    }
}

/// The models of a list of columns.
pub open spec fn column_views(v: Seq<ColumnDefinition>) -> Seq<ColumnModel> {
    Seq::new(v.len(), |i: int| v[i]@)
}

/// A copy of a list of columns.
pub fn clone_columns(v: &Vec<ColumnDefinition>) -> (r: Vec<ColumnDefinition>)
    ensures
        column_views(r@) == column_views(v@),
{
    clone_columns_from(v, 0)
}

/// A copy of the columns from `from` on.
pub fn clone_columns_from(v: &Vec<ColumnDefinition>, from: usize) -> (r: Vec<ColumnDefinition>)
    requires
        from <= v@.len(),
    ensures
        column_views(r@) == column_views(v@).skip(from as int),
{
    let mut r: Vec<ColumnDefinition> = Vec::new();
    let mut i: usize = from;
    while i < v.len()
        invariant
            from <= i <= v.len(),
            r@.len() == i - from,
            forall|k: int| 0 <= k < i - from ==> (#[trigger] r@[k])@ == v@[from + k]@,
        decreases v.len() - i,
    {
        r.push(v[i].clone());
        i = i + 1;
    }
    assert(column_views(r@) =~= column_views(v@).skip(from as int));
    r
}

/// What is known of the relation that a table shows.
#[derive(Debug, PartialEq, Eq)]
pub struct RelationMetadata {
    pub name: String,
    pub display_name: String,
    pub header_visible: bool,
}

impl Clone for RelationMetadata {
    fn clone(&self) -> (r: Self)
        ensures
            r == *self,
    {
        RelationMetadata {
            name: self.name.clone(),
            display_name: self.display_name.clone(),
            header_visible: self.header_visible,
        }
    }
}

impl RelationMetadata {
    /// The one relation of a source that is a single table.
    pub fn implicit(display_name: String, header_visible: bool) -> (r: RelationMetadata)
        ensures
            r.name == display_name,
            r.display_name == display_name,
            r.header_visible == header_visible,
    {
        RelationMetadata { name: display_name.clone(), display_name, header_visible }
    }
}

/// A table: its columns, whether they are all known, and its relation.
#[derive(Debug, PartialEq, Eq)]
pub struct TableDefinition {
    pub generation: SourceGeneration,
    pub columns: Vec<ColumnDefinition>,
    pub schema_state: SchemaState,
    pub relation: RelationMetadata,
}

/// How many of the first `n` columns are relation columns with the given name.
pub open spec fn name_count(columns: Seq<ColumnModel>, n: int, name: Seq<char>) -> nat
    decreases n,
{
    if n <= 0 {
        0
    } else {
        name_count(columns, n - 1, name) + if columns[n - 1].identity matches
            IdentityModel::RelationColumn { name: other, .. } && other == name {
            1nat
        } else {
            0nat
        }
    }
}

/// The key under which saved views know column `index` of a table. Relation
/// columns that share a name are told apart by their occurrence, as in `name#2`.
pub open spec fn column_key(columns: Seq<ColumnModel>, index: int) -> Option<Seq<char>> {
    if index < 0 || index >= columns.len() {
        None
    } else {
        match columns[index].identity {
            IdentityModel::RelationColumn { name, .. } => if name_count(
                columns,
                columns.len() as int,
                name,
            ) <= 1 {
                Some(name)
            } else {
                Some(name + "#"@ + text::decimal(name_count(columns, index + 1, name)))
            },
            other => other.key(),
        }
    }
}

/// How many of the first `n` columns are relation columns with the given name.
fn count_name(columns: &Vec<ColumnDefinition>, n: usize, name: &str) -> (r: usize)
    requires
        n <= columns@.len(),
    ensures
        r == name_count(column_views(columns@), n as int, name@),
{
    let mut count: usize = 0;
    let mut i: usize = 0;
    while i < n
        invariant
            i <= n <= columns@.len(),
            count <= i,
            count == name_count(column_views(columns@), i as int, name@),
        decreases n - i,
    {
        assert(column_views(columns@)[i as int] == columns@[i as int]@);
        if let ColumnSourceIdentity::RelationColumn { name: other, .. } =
            &columns[i].source_identity {
            if same(other, name) {
                count = count + 1;
            }
        }
        i = i + 1;
    }
    count
}

impl TableDefinition {
    /// The key under which saved views know a column of the table.
    pub fn canonical_column_key(&self, index: usize) -> (r: Option<String>)
        ensures
            text::opt_view(r) == column_key(column_views(self.columns@), index as int),
    {
        if index >= self.columns.len() {
            return None;
        }
        assert(column_views(self.columns@)[index as int] == self.columns@[index as int]@);
        match &self.columns[index].source_identity {
            ColumnSourceIdentity::RelationColumn { name, .. } => {
                if count_name(&self.columns, self.columns.len(), name) <= 1 {
                    Some(name.clone())
                } else {
                    let n: usize = count_name(&self.columns, index + 1, name);
                    Some(concat3(name, "#", &decimal_of_usize(n)))
                }
            },
            other => match other.canonical_key() {
                Some(key) => Some(key.to_owned()),
                None => None,
            },
        }
    }
}

/// A column whose type was widened.
#[derive(Debug, Clone, Copy, PartialEq, Eq, Structural)]
pub struct TypeWidening {
    pub column: ColumnId,
    pub source_type: LogicalType,
}

/// What reading further taught about the columns of a table.
#[derive(Debug, PartialEq, Eq)]
pub struct SchemaDelta {
    pub added_columns: Vec<ColumnDefinition>,
    pub widened_types: Vec<TypeWidening>,
    pub completed: bool,
}

/// The model of a schema delta.
pub struct DeltaModel {
    pub added: Seq<ColumnModel>,
    pub widened: Seq<TypeWidening>,
    pub completed: bool,
}

impl View for SchemaDelta {
    type V = DeltaModel;

    open spec fn view(&self) -> DeltaModel {
        DeltaModel {
            added: column_views(self.added_columns@),
            widened: self.widened_types@,
            completed: self.completed,
        }
    }
}

impl DeltaModel {
    /// Nothing was learnt.
    pub open spec fn nothing() -> DeltaModel {
        DeltaModel { added: Seq::empty(), widened: Seq::empty(), completed: false }
    }
}

impl Default for SchemaDelta {
    fn default() -> (r: Self)
        ensures
            r@ == DeltaModel::nothing(),
    {
        let r = SchemaDelta {
            added_columns: Vec::new(),
            widened_types: Vec::new(),
            completed: false,
        };
        assert(column_views(r.added_columns@) =~= Seq::<ColumnModel>::empty());
        r
    }
}

/// How far a source has been read.
#[derive(Debug, PartialEq, Eq)]
pub struct IndexProgress {
    pub row_count: RowCount,
    pub schema_delta: SchemaDelta,
    pub bytes_scanned: u64,
}

// ---------------------------------------------------------------------------
// Walking over rows
// ---------------------------------------------------------------------------

/// Which way a walk over rows goes.
#[derive(Debug, Clone, Copy, PartialEq, Eq, Structural)]
pub enum ScanDirection {
    Forward,
    Reverse,
}

/// A walk over at most `max_rows` rows, beginning at row `start`.
#[derive(Debug, Clone, Copy, PartialEq, Eq, Structural)]
pub struct ScanRequest {
    pub start: usize,
    pub direction: ScanDirection,
    pub max_rows: usize,
}

/// What a walk over rows came to: the rows visited, where to go on, and whether
/// there is nothing more in that direction.
#[derive(Debug, Clone, Copy, PartialEq, Eq, Structural)]
pub struct ScanProgress {
    pub visited: usize,
    pub next: Option<usize>,
    pub reached_end: bool,
}

/// How many rows a walk meets if nobody stops it, with `rows` rows there.
pub open spec fn scan_extent(request: ScanRequest, rows: nat) -> nat {
    let there = if request.start >= rows {
        0
    } else {
        match request.direction {
            ScanDirection::Forward => (rows - request.start) as nat,
            ScanDirection::Reverse => (request.start + 1) as nat,
        }
    };
    if there < request.max_rows {
        there
    } else {
        request.max_rows as nat
    }
}

/// What a walk comes to. The visitor may stop it at its `stop`th row. A walk
/// backwards that visits row zero has reached the end; any other walk has when
/// it stands behind the last row of an input that is `ended`.
pub open spec fn scan_outcome(
    request: ScanRequest,
    rows: nat,
    ended: bool,
    stop: Option<nat>,
) -> ScanProgress {
    let n = scan_extent(request, rows);
    match stop {
        Some(k) if 1 <= k <= n => ScanProgress { visited: k as usize, next: None, reached_end: false },
        _ => if request.direction is Reverse && n > request.start {
            ScanProgress { visited: n as usize, next: None, reached_end: true }
        } else {
            let at = if request.direction is Forward {
                request.start + n
            } else {
                request.start - n
            };
            if ended && at >= rows {
                ScanProgress { visited: n as usize, next: None, reached_end: true }
            } else {
                ScanProgress { visited: n as usize, next: Some(at as usize), reached_end: false }
            }
        },
    }
}

/// The next step of a walk over rows.
#[derive(Debug, Clone, Copy, PartialEq, Eq, Structural)]
pub enum ScanStep {
    /// Visit this row.
    Visit(usize),
    /// The walk is over.
    Done(ScanProgress),
}

/// A walk never visits more rows than asked for, nor rows that are not there.
pub proof fn scans_stay_within_bounds(
    request: ScanRequest,
    rows: nat,
    ended: bool,
    stop: Option<nat>,
)
    requires
        rows <= usize::MAX,
    ensures
        scan_outcome(request, rows, ended, stop).visited <= request.max_rows,
        scan_outcome(request, rows, ended, stop).visited <= rows,
        scan_outcome(request, rows, ended, stop).reached_end ==> scan_outcome(
            request,
            rows,
            ended,
            stop,
        ).next is None,
{
}

/// A walk can be made in parts: going on where the first part ended visits
/// exactly the rows that one longer walk would have visited after it.
pub proof fn walks_can_be_made_in_parts(
    request: ScanRequest,
    more: usize,
    rows: nat,
    ended: bool,
)
    requires
        rows <= usize::MAX,
        request.max_rows + more <= usize::MAX,
    ensures
        ({
            let longer = ScanRequest {
                max_rows: (request.max_rows + more) as usize,
                ..request
            };
            let first = scan_outcome(request, rows, ended, None);
            let whole = scan_outcome(longer, rows, ended, None);
            match first.next {
                Some(place) => {
                    let second = scan_outcome(
                        ScanRequest { start: place, max_rows: more, ..request },
                        rows,
                        ended,
                        None,
                    );
                    &&& first.visited + second.visited == whole.visited
                    &&& second.next == whole.next
                    &&& second.reached_end == whole.reached_end
                },
                None => first == whole,
            }
        }),
{
}

/// Where a walk over an input that is read once stands after `n` rows, if it can
/// stand there.
pub open spec fn place_after(request: ScanRequest, n: int) -> Option<usize> {
    match request.direction {
        ScanDirection::Forward => if request.start + n <= usize::MAX {
            Some((request.start + n) as usize)
        } else {
            None
        },
        ScanDirection::Reverse => if n <= request.start {
            Some((request.start - n) as usize)
        } else {
            None
        },
    }
}

/// What a walk over an input that is read once comes to. It can go on after a
/// stop; it has reached the end where there is no further row.
pub open spec fn sequential_outcome(
    request: ScanRequest,
    rows: nat,
    stop: Option<nat>,
) -> ScanProgress {
    let n = scan_extent(request, rows);
    let (visited, next) = match stop {
        Some(k) if 1 <= k <= n => (k, place_after(request, k as int)),
        _ => if n == request.max_rows {
            (n, place_after(request, n as int))
        } else {
            (n, None)
        },
    };
    ScanProgress { visited: visited as usize, next, reached_end: next is None }
}

/// A walk over an input that is read once.
#[derive(Debug, Clone, Copy, PartialEq, Eq, Structural)]
pub struct SequentialScan {
    pub request: ScanRequest,
    pub next: Option<usize>,
    pub visited: usize,
}

impl SequentialScan {
    /// The walk has made `visited` steps and stands at the row after them.
    pub open spec fn on_course(self) -> bool {
        &&& self.visited <= self.request.max_rows
        &&& self.next == place_after(self.request, self.visited as int)
    }

    /// A walk that begins.
    pub fn begin(request: ScanRequest) -> (r: SequentialScan)
        ensures
            r.on_course(),
            r.request == request,
            r.visited == 0,
    {
        SequentialScan { request, next: Some(request.start), visited: 0 }
    }

    /// The row that has to be read before the next step, if the walk goes on.
    pub fn wanted(&self) -> (r: Option<usize>)
        ensures
            r == (if self.visited < self.request.max_rows {
                self.next
            } else {
                None
            }),
    {
        if self.visited < self.request.max_rows {
            self.next
        } else {
            None
        }
    }

    /// Whether to visit another row, with `rows` rows there: the wanted one is
    /// among them unless the input has ended.
    pub fn step(&self, rows: usize) -> (r: ScanStep)
        requires
            self.on_course(),
            self.visited <= scan_extent(self.request, rows as nat),
        ensures
            match r {
                ScanStep::Visit(row) => {
                    &&& self.visited < scan_extent(self.request, rows as nat)
                    &&& self.next == Some(row)
                    &&& row < rows
                },
                ScanStep::Done(progress) => {
                    &&& self.visited == scan_extent(self.request, rows as nat)
                    &&& progress == sequential_outcome(self.request, rows as nat, None)
                },
            },
    {
        if self.visited < self.request.max_rows {
            if let Some(row) = self.next {
                if row < rows {
                    return ScanStep::Visit(row);
                }
            }
            return ScanStep::Done(
                ScanProgress { visited: self.visited, next: None, reached_end: true },
            );
        }
        ScanStep::Done(
            ScanProgress {
                visited: self.visited,
                next: self.next,
                reached_end: self.next.is_none(),
            },
        )
    }

    /// After a row was visited, unless the visitor stopped there.
    pub fn visit(&mut self, rows: usize, stop: bool) -> (r: Option<ScanProgress>)
        requires
            old(self).on_course(),
            old(self).visited < scan_extent(old(self).request, rows as nat),
        ensures
            final(self).request == old(self).request,
            final(self).on_course(),
            final(self).visited == old(self).visited + 1,
            r is Some <==> stop,
            r matches Some(progress) ==> progress == sequential_outcome(
                old(self).request,
                rows as nat,
                Some((old(self).visited + 1) as nat),
            ),
    {
        self.next = match self.next {
            None => None,
            Some(row) => match self.request.direction {
                ScanDirection::Forward => row.checked_add(1),
                ScanDirection::Reverse => row.checked_sub(1),
            },
        };
        self.visited = self.visited + 1;
        if stop {
            Some(
                ScanProgress {
                    visited: self.visited,
                    next: self.next,
                    reached_end: self.next.is_none(),
                },
            )
        } else {
            None
        }
    }
}

/// A walk over an input that is read once meets the rows that any other walk
/// meets, and a walk that somebody stopped can go on behind the last row.
pub proof fn stopped_walks_can_go_on(request: ScanRequest, rows: nat, stop: nat)
    requires
        rows <= usize::MAX,
        1 <= stop <= scan_extent(request, rows),
    ensures
        ({
            let first = sequential_outcome(request, rows, Some(stop));
            let whole = sequential_outcome(request, rows, None);
            &&& whole.visited == scan_outcome(request, rows, true, None).visited
            &&& first.visited == stop
            &&& match first.next {
                Some(place) => {
                    let rest = sequential_outcome(
                        ScanRequest {
                            start: place,
                            max_rows: (request.max_rows - stop) as usize,
                            ..request
                        },
                        rows,
                        None,
                    );
                    &&& first.visited + rest.visited == whole.visited
                    &&& rest.next == whole.next
                },
                None => first.visited == whole.visited,
            }
        }),
{
}

// ---------------------------------------------------------------------------
// Source queries
// ---------------------------------------------------------------------------

/// What a source filter looks at.
#[derive(Debug, Clone, Copy, PartialEq, Eq, Structural)]
pub enum SourceFilterScope {
    WholeRecord,
    Column(ColumnId),
}

/// A filter that a source applies.
#[derive(Debug, PartialEq, Eq)]
pub struct SourceFilter {
    pub scope: SourceFilterScope,
    pub operator: SourceFilterOperator,
    pub operand: Option<SourceOperand>,
}

impl Clone for SourceFilter {
    fn clone(&self) -> (r: Self)
        ensures
            r == *self,
    {
        SourceFilter {
            scope: self.scope,
            operator: self.operator,
            operand: self.operand.clone(),
        }
    }
}

/// A sort that a source applies.
#[derive(Debug, Clone, Copy, PartialEq, Eq, Structural)]
pub struct SourceSort {
    pub column: ColumnId,
    pub direction: SortDirection,
}

/// What a source is asked for. A limit of the largest size means none.
#[derive(Debug, PartialEq, Eq)]
pub struct SourceQuery {
    pub generation: SourceGeneration,
    pub limit: usize,
    pub filters: Vec<SourceFilter>,
    pub order_by: Vec<SourceSort>,
    pub native_query: Option<String>,
}

/// The model of a source query.
pub struct QueryModel {
    pub generation: SourceGeneration,
    pub limit: usize,
    pub filters: Seq<SourceFilter>,
    pub order_by: Seq<SourceSort>,
    pub native_query: Option<Seq<char>>,
}

impl View for SourceQuery {
    type V = QueryModel;

    open spec fn view(&self) -> QueryModel {
        QueryModel {
            generation: self.generation,
            limit: self.limit,
            filters: self.filters@,
            order_by: self.order_by@,
            native_query: text::opt_view(self.native_query),
        }
    }
}

impl Clone for SourceQuery {
    fn clone(&self) -> (r: Self)
        ensures
            r@ == self@,
    {
        let filters = self.filters.clone();
        let order_by = self.order_by.clone();
        assert(filters@ =~= self.filters@);
        assert(order_by@ =~= self.order_by@);
        SourceQuery {
            generation: self.generation,
            limit: self.limit,
            filters,
            order_by,
            native_query: self.native_query.clone(),
        }
    }
}

/// Why a name does not stand for a column.
#[derive(Debug, Clone, Copy, PartialEq, Eq, Structural)]
pub enum ColumnFault {
    Unknown,
    Ambiguous,
}

/// The first column from `from` on that saved views know by `key`, or the number of columns.
pub open spec fn key_position(columns: Seq<ColumnModel>, from: int, key: Seq<char>) -> int
    decreases columns.len() - from,
{
    if from >= columns.len() {
        columns.len() as int
    } else if column_key(columns, from) == Some(key) {
        from
    } else {
        key_position(columns, from + 1, key)
    }
}

/// How many of the first `n` columns are labelled `key`.
pub open spec fn label_count(columns: Seq<ColumnModel>, n: int, key: Seq<char>) -> nat
    decreases n,
{
    if n <= 0 {
        0
    } else {
        label_count(columns, n - 1, key) + if columns[n - 1].display_name == key {
            1nat
        } else {
            0nat
        }
    }
}

/// The last of the first `n` columns that is labelled `key`, or -1.
pub open spec fn label_position(columns: Seq<ColumnModel>, n: int, key: Seq<char>) -> int
    decreases n,
{
    if n <= 0 {
        -1
    } else if columns[n - 1].display_name == key {
        n - 1
    } else {
        label_position(columns, n - 1, key)
    }
}

/// The column that a name stands for: the one with that key, else the only one
/// with that label.
pub open spec fn column_named(columns: Seq<ColumnModel>, key: Seq<char>) -> Result<
    int,
    ColumnFault,
> {
    let n = columns.len() as int;
    let at = key_position(columns, 0, key);
    if at < n {
        Ok(at)
    } else if label_count(columns, n, key) == 1 {
        Ok(label_position(columns, n, key))
    } else if label_count(columns, n, key) == 0 {
        Err(ColumnFault::Unknown)
    } else {
        Err(ColumnFault::Ambiguous)
    }
}

impl TableDefinition {
    /// The place of the column that a name stands for.
    pub fn find_column(&self, key: &str) -> (r: Result<usize, ColumnFault>)
        ensures
            match r {
                Ok(i) => column_named(column_views(self.columns@), key@) == Ok::<int, ColumnFault>(
                    i as int,
                ) && i < self.columns@.len(),
                Err(e) => column_named(column_views(self.columns@), key@) == Err::<
                    int,
                    ColumnFault,
                >(e),
            },
    {
        let ghost model = column_views(self.columns@);
        let mut i: usize = 0;
        while i < self.columns.len()
            invariant
                i <= self.columns@.len(),
                model == column_views(self.columns@),
                key_position(model, 0, key@) == key_position(model, i as int, key@),
            decreases self.columns@.len() - i,
        {
            let found = match self.canonical_column_key(i) {
                Some(k) => same(&k, key),
                None => false,
            };
            if found {
                return Ok(i);
            }
            i = i + 1;
        }
        let mut count: usize = 0;
        let mut last: usize = 0;
        let mut j: usize = 0;
        while j < self.columns.len()
            invariant
                j <= self.columns@.len(),
                model == column_views(self.columns@),
                count == label_count(model, j as int, key@),
                count <= j,
                count > 0 ==> last == label_position(model, j as int, key@) && last < j,
            decreases self.columns@.len() - j,
        {
            assert(model[j as int] == self.columns@[j as int]@);
            if same(&self.columns[j].display_name, key) {
                count = count + 1;
                last = j;
            }
            j = j + 1;
        }
        if count == 1 {
            Ok(last)
        } else if count == 0 {
            Err(ColumnFault::Unknown)
        } else {
            Err(ColumnFault::Ambiguous)
        }
    }
}

/// The columns of a relation with a name among the first `n`.
pub open spec fn names_before(columns: Seq<ColumnModel>, n: int, name: Seq<char>) -> Set<int> {
    Set::new(
        |i: int|
            0 <= i < n && i < columns.len() && (columns[i].identity matches
                IdentityModel::RelationColumn { name: other, .. } && other == name),
    )
}

/// The type of a cell is that of its value, and two values of different kinds have
/// different types.
pub proof fn cells_have_the_type_of_their_value(b: bool, n: i64, s: Seq<char>)
    ensures
        CellModel::Null.kind() is Null,
        CellModel::Boolean(b).kind() is Boolean,
        CellModel::Integer(n).kind() is Integer,
        CellModel::Float(s).kind() is Float,
        CellModel::Text(s).kind() is Text,
        CellModel::Json(s).kind() is Json,
{
}

/// Missing values leave a type as it is, whole numbers and others make others, and any
/// two further types make text.
pub proof fn types_widen_to_hold_both(a: LogicalType, b: LogicalType)
    ensures
        LogicalType::Null.join(a) == a,
        a.join(LogicalType::Null) == a,
        a.join(a) == a,
        LogicalType::Integer.join(LogicalType::Float) is Float,
        LogicalType::Float.join(LogicalType::Integer) is Float,
        a != b && !(a is Null) && !(b is Null) && !(a is Integer && b is Float) && !(a is Float && b
            is Integer) ==> a.join(b) is Text,
{
}

/// Every operator takes a value but the two that test for missing ones.
pub proof fn null_tests_take_no_value(operator: SourceFilterOperator)
    ensures
        !SourceFilterOperator::IsNull.needs_operand(),
        !SourceFilterOperator::IsNotNull.needs_operand(),
        operator !is IsNull && operator !is IsNotNull ==> operator.needs_operand(),
{
}

/// Operators are called by their own names.
pub proof fn operators_have_their_names()
    ensures
        SourceFilterOperator::Equal.name() == "equal"@,
        SourceFilterOperator::NotEqual.name() == "not equal"@,
        SourceFilterOperator::LessThan.name() == "less than"@,
        SourceFilterOperator::LessThanOrEqual.name() == "less than or equal"@,
        SourceFilterOperator::GreaterThan.name() == "greater than"@,
        SourceFilterOperator::GreaterThanOrEqual.name() == "greater than or equal"@,
        SourceFilterOperator::Contains.name() == "contains"@,
        SourceFilterOperator::Prefix.name() == "prefix"@,
        SourceFilterOperator::IsNull.name() == "is null"@,
        SourceFilterOperator::IsNotNull.name() == "is not null"@,
{
}

/// A column of a record goes by its path, the column of the keys by a sign of its own,
/// and one that is known by its place alone has no key.
pub proof fn columns_go_by_their_identity(
    path: Seq<char>,
    relation: Seq<char>,
    ordinal: usize,
    label: Option<Seq<char>>,
)
    ensures
        IdentityModel::StructuredPath(path).key() == Some(path),
        IdentityModel::ObjectKey.key() == Some(seq!['@', 'k', 'e', 'y']),
        IdentityModel::Positional(ordinal).key() is None,
        (IdentityModel::Delimited { ordinal, name: label }).key() is None,
        (IdentityModel::RelationColumn { relation, ordinal, name: path }).key() == Some(path),
{
    reveal_strlit("@key");
    assert("@key"@ =~= seq!['@', 'k', 'e', 'y']);
}

/// A name that one column of a relation has is its key; where several have it, each is
/// told apart by its number among them.
pub proof fn shared_names_are_numbered(columns: Seq<ColumnModel>, index: int, name: Seq<char>)
    requires
        0 <= index < columns.len(),
        columns[index].identity matches IdentityModel::RelationColumn { name: other, .. } && other
            == name,
    ensures
        names_before(columns, columns.len() as int, name).len() == 1 ==> column_key(columns, index)
            == Some(name),
        names_before(columns, columns.len() as int, name).len() > 1 ==> column_key(columns, index)
            == Some(
            name.push('#') + text::decimal(names_before(columns, index + 1, name).len()),
        ),
{
    reveal_strlit("#");
    assert(name + "#"@ =~= name.push('#'));
    lemma_names_before(columns, columns.len() as int, name);
    lemma_names_before(columns, index + 1, name);
}

proof fn lemma_names_before(columns: Seq<ColumnModel>, n: int, name: Seq<char>)
    requires
        0 <= n <= columns.len(),
    ensures
        names_before(columns, n, name).finite(),
        names_before(columns, n, name).len() == name_count(columns, n, name),
    decreases n,
{
    let now = names_before(columns, n, name);
    if n > 0 {
        lemma_names_before(columns, n - 1, name);
        let before = names_before(columns, n - 1, name);
        if columns[n - 1].identity matches IdentityModel::RelationColumn { name: other, .. } && other
            == name {
            assert(now =~= before.insert(n - 1));
        } else {
            assert(now =~= before);
        }
    } else {
        assert(now =~= Set::empty());
    }
}

/// A key finds the first column with that key; where there is none, a label that one
/// column has finds it, a label of several is ambiguous, and anything else is unknown.
pub proof fn keys_find_before_labels(columns: Seq<ColumnModel>, key: Seq<char>, i: int)
    requires
        0 <= i < columns.len(),
    ensures
        column_key(columns, i) == Some(key) ==> {
            let found = column_named(columns, key);
            found is Ok && 0 <= found->Ok_0 <= i && column_key(columns, found->Ok_0) == Some(key)
        },
        (forall|k: int| 0 <= k < columns.len() ==> #[trigger] column_key(columns, k) != Some(key))
            && columns[i].display_name == key && (forall|k: int|
            0 <= k < columns.len() && k != i ==> (#[trigger] columns[k]).display_name != key)
            ==> column_named(columns, key) == Ok::<int, ColumnFault>(i),
        column_named(columns, key) == Err::<int, ColumnFault>(ColumnFault::Unknown) ==> column_key(
            columns,
            i,
        ) != Some(key) && columns[i].display_name != key,
        column_named(columns, key) == Err::<int, ColumnFault>(ColumnFault::Ambiguous) ==> column_key(
            columns,
            i,
        ) != Some(key),
        column_named(columns, key) matches Ok(at) ==> 0 <= at < columns.len() && (column_key(
            columns,
            at,
        ) == Some(key) || columns[at].display_name == key),
{
    lemma_key_position(columns, 0, key, i);
    lemma_labels(columns, columns.len() as int, key, i);
}

proof fn lemma_key_position(columns: Seq<ColumnModel>, from: int, key: Seq<char>, i: int)
    requires
        0 <= from <= columns.len(),
        0 <= i < columns.len(),
    ensures
        from <= key_position(columns, from, key) <= columns.len(),
        key_position(columns, from, key) < columns.len() ==> column_key(
            columns,
            key_position(columns, from, key),
        ) == Some(key),
        from <= i && column_key(columns, i) == Some(key) ==> key_position(columns, from, key) <= i,
    decreases columns.len() - from,
{
    if from < columns.len() && column_key(columns, from) != Some(key) {
        lemma_key_position(columns, from + 1, key, i);
    }
}

proof fn lemma_labels(columns: Seq<ColumnModel>, n: int, key: Seq<char>, i: int)
    requires
        0 <= n <= columns.len(),
        0 <= i < columns.len(),
    ensures
        label_count(columns, n, key) > 0 ==> 0 <= label_position(columns, n, key) < n
            && columns[label_position(columns, n, key)].display_name == key,
        i < n && columns[i].display_name == key ==> label_count(columns, n, key) > 0,
        (forall|k: int|
            0 <= k < columns.len() && k != i ==> (#[trigger] columns[k]).display_name != key)
            ==> label_count(columns, n, key) == if i < n && columns[i].display_name == key {
            1nat
        } else {
            0
        },
    decreases n,
{
    if n > 0 {
        lemma_labels(columns, n - 1, key, i);
    }
}

/// A walk goes to the end of the rows in its direction, or as far as it is asked to go.
pub proof fn walks_go_in_their_direction(start: usize, max_rows: usize, rows: nat)
    ensures
        start >= rows ==> scan_extent(
            ScanRequest { start, direction: ScanDirection::Forward, max_rows },
            rows,
        ) == 0 && scan_extent(
            ScanRequest { start, direction: ScanDirection::Reverse, max_rows },
            rows,
        ) == 0,
        start < rows && start + max_rows <= rows ==> scan_extent(
            ScanRequest { start, direction: ScanDirection::Forward, max_rows },
            rows,
        ) == max_rows,
        start < rows && start + max_rows > rows ==> scan_extent(
            ScanRequest { start, direction: ScanDirection::Forward, max_rows },
            rows,
        ) == rows - start,
        start < rows && max_rows <= start + 1 ==> scan_extent(
            ScanRequest { start, direction: ScanDirection::Reverse, max_rows },
            rows,
        ) == max_rows,
        start < rows && max_rows > start + 1 ==> scan_extent(
            ScanRequest { start, direction: ScanDirection::Reverse, max_rows },
            rows,
        ) == start + 1,
{
}

/// A walk that is stopped has no place to go on from and has not reached an end; one
/// that is not goes on behind the last row that it saw, and has reached the end where
/// no row follows that could still come.
pub proof fn walks_tell_where_to_go_on(
    start: usize,
    max_rows: usize,
    rows: nat,
    ended: bool,
    k: nat,
)
    requires
        start < rows <= usize::MAX,
        0 < max_rows,
    ensures
        ({
            let forward = ScanRequest { start, direction: ScanDirection::Forward, max_rows };
            let n = scan_extent(forward, rows);
            let seen = scan_outcome(forward, rows, ended, None);
            let stopped = scan_outcome(forward, rows, ended, Some(k));
            &&& seen.visited == n
            &&& ended && start + n == rows ==> seen.reached_end && seen.next is None
            &&& start + n < rows ==> !seen.reached_end && seen.next == Some((start + n) as usize)
            &&& !ended ==> !seen.reached_end && seen.next == Some((start + n) as usize)
            &&& 1 <= k <= n ==> stopped.visited == k && stopped.next is None && !stopped.reached_end
            &&& k == 0 || k > n ==> stopped == seen
        }),
        ({
            let back = ScanRequest { start, direction: ScanDirection::Reverse, max_rows };
            let n = scan_extent(back, rows);
            let seen = scan_outcome(back, rows, ended, None);
            &&& seen.visited == n
            &&& n == start + 1 ==> seen.reached_end && seen.next is None
            &&& n <= start ==> !seen.reached_end && seen.next == Some((start - n) as usize)
        }),
{
}

/// A walk over an input that is read once has come to its end where fewer rows were there
/// than it was to see; otherwise it goes on at the next row in its direction.
pub proof fn single_walks_end_where_rows_end(start: usize, max_rows: usize, rows: nat)
    requires
        rows <= usize::MAX,
        start < rows,
    ensures
        ({
            let request = ScanRequest { start, direction: ScanDirection::Forward, max_rows };
            let seen = sequential_outcome(request, rows, None);
            &&& start + max_rows <= rows ==> seen.visited == max_rows && seen.next == Some(
                (start + max_rows) as usize,
            ) && !seen.reached_end
            &&& start + max_rows > rows ==> seen.visited == rows - start && seen.next is None
                && seen.reached_end
        }),
        ({
            let request = ScanRequest { start, direction: ScanDirection::Reverse, max_rows };
            let seen = sequential_outcome(request, rows, None);
            &&& max_rows <= start ==> seen.visited == max_rows && seen.next == Some(
                (start - max_rows) as usize,
            ) && !seen.reached_end
            &&& max_rows > start ==> seen.visited == start + 1 && seen.next is None
                && seen.reached_end
        }),
{
}

} // verus!
