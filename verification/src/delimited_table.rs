//! Tables of delimited text: header detection, in-memory tables, and a table
//! that grows while its input is still arriving.

use vstd::prelude::*;

use crate::delimited::{
    self, as_slice, pad_row, parse_decoded_rows, parse_rows, sniff_delimiter, widest_row,
};
use crate::encoding::{
    self, DecodedModel, IngestError, IngestErrorModel, decode_input, normalize_encoding_label,
};
use crate::options::{ParseModel, ParseOptions, Quoting};
use crate::table::{
    self, CellModel, CellValue, ColumnDefinition, ColumnId, ColumnModel, ColumnSourceIdentity,
    DeltaModel, IdentityModel, IndexProgress, LogicalType, RelationMetadata, Row, RowCount,
    RowId, SchemaDelta, SchemaState, SourceGeneration, TableDefinition, TypeOrigin, TypeWidening,
    clone_columns, clone_columns_from,
};
use crate::text::{self, concat2, decimal_of_usize, parses_as_float, starts_with};

verus! {

// ---------------------------------------------------------------------------
// Headers and columns
// ---------------------------------------------------------------------------

/// Whether the first row is a header: there are further rows, and none of its
/// cells reads as a number.
pub open spec fn has_header(rows: Seq<Seq<Seq<char>>>) -> bool {
    rows.len() > 1 && forall|i: int| 0 <= i < rows[0].len() ==> !text::is_float(#[trigger] rows[0][i])
}

/// The column of delimited text at some place. One without a name is called by
/// its place, counted from one.
pub open spec fn delimited_column_model(
    generation: SourceGeneration,
    ordinal: usize,
    name: Option<Seq<char>>,
) -> ColumnModel {
    ColumnModel {
        id: ColumnId { generation, ordinal: ordinal as u32 },
        identity: IdentityModel::Delimited { ordinal, name },
        display_name: match name {
            Some(n) => if n.len() > 0 {
                n
            } else {
                "Column "@ + text::decimal((ordinal + 1) as nat)
            },
            None => "Column "@ + text::decimal((ordinal + 1) as nat),
        },
        declared_type: None,
        source_type: LogicalType::Text,
        type_origin: TypeOrigin::Declared,
    }
}

/// The name that a header gives to a column.
pub open spec fn header_name(rows: Seq<Seq<Seq<char>>>, ordinal: int) -> Option<Seq<char>> {
    if has_header(rows) && ordinal < rows[0].len() {
        Some(rows[0][ordinal])
    } else {
        None
    }
}

/// The columns of rows: as many as the longest row has cells.
pub open spec fn delimited_columns(
    generation: SourceGeneration,
    rows: Seq<Seq<Seq<char>>>,
) -> Seq<ColumnModel> {
    Seq::new(
        delimited::widest(rows),
        |i: int| delimited_column_model(generation, i as usize, header_name(rows, i)),
    )
}

/// The number of header rows: one or none.
pub open spec fn header_row_count(rows: Seq<Seq<Seq<char>>>) -> nat {
    if has_header(rows) {
        1
    } else {
        0
    }
}

/// The column of delimited text at some place.
pub fn delimited_column(
    generation: SourceGeneration,
    ordinal: usize,
    name: Option<String>,
) -> (r: ColumnDefinition)
    requires
        ordinal < usize::MAX,
    ensures
        r@ == delimited_column_model(generation, ordinal, text::opt_view(name)),
{
    let generated = concat2("Column ", &decimal_of_usize(ordinal + 1));
    let display_name = match &name {
        Some(n) => if n.as_str().is_empty() {
            generated
        } else {
            n.clone()
        },
        None => generated,
    };
    ColumnDefinition {
        id: ColumnId { generation, ordinal: #[verifier::truncate] (ordinal as u32) },
        source_identity: ColumnSourceIdentity::Delimited { ordinal, name },
        display_name,
        source_declared_type: None,
        source_type: LogicalType::Text,
        type_origin: TypeOrigin::Declared,
    }
}

/// Whether the first row is a header.
fn detect_header(rows: &Vec<Vec<String>>) -> (r: bool)
    ensures
        r == has_header(text::row_views(rows@)),
{
    let ghost model = text::row_views(rows@);
    if rows.len() <= 1 {
        return false;
    }
    let first = &rows[0];
    assert(model[0] == text::views(first@));
    let mut i: usize = 0;
    while i < first.len()
        invariant
            i <= first.len(),
            model == text::row_views(rows@),
            model.len() > 1,
            model[0] == text::views(first@),
            forall|k: int| 0 <= k < i ==> !text::is_float(#[trigger] model[0][k]),
        decreases first.len() - i,
    {
        assert(model[0][i as int] == first@[i as int]@);
        if parses_as_float(&first[i]) {
            return false;
        }
        i = i + 1;
    }
    true
}

/// Reads the columns of rows, and how many of the rows are a header.
pub fn delimited_definition(
    generation: SourceGeneration,
    rows: &Vec<Vec<String>>,
    display_name: String,
) -> (r: (TableDefinition, usize))
    ensures
        r.0.generation == generation,
        table::column_views(r.0.columns@) == delimited_columns(generation, text::row_views(rows@)),
        r.0.schema_state is Complete,
        r.0.relation.name == display_name,
        r.0.relation.display_name == display_name,
        r.0.relation.header_visible == has_header(text::row_views(rows@)),
        r.1 == header_row_count(text::row_views(rows@)),
{
    let ghost model = text::row_views(rows@);
    let header = detect_header(rows);
    let count: usize = widest_row(rows);
    let mut columns: Vec<ColumnDefinition> = Vec::new();
    let mut i: usize = 0;
    while i < count
        invariant
            i <= count,
            count == delimited::widest(model),
            model == text::row_views(rows@),
            header == has_header(model),
            columns@.len() == i,
            forall|k: int|
                0 <= k < i ==> (#[trigger] columns@[k])@ == delimited_column_model(
                    generation,
                    k as usize,
                    header_name(model, k),
                ),
        decreases count - i,
    {
        let name = if header && i < rows[0].len() {
            assert(model[0] == text::views(rows@[0]@));
            Some(rows[0][i].clone())
        } else {
            None
        };
        assert(header ==> model[0].len() == rows@[0]@.len());
        assert(text::opt_view(name) == header_name(model, i as int));
        columns.push(delimited_column(generation, i, name));
        i = i + 1;
    }
    assert(table::column_views(columns@) =~= delimited_columns(generation, model));
    let relation = RelationMetadata::implicit(display_name, header);
    (
        TableDefinition { generation, columns, schema_state: SchemaState::Complete, relation },
        if header {
            1
        } else {
            0
        },
    )
}

// ---------------------------------------------------------------------------
// In-memory tables
// ---------------------------------------------------------------------------

/// A table whose rows are all in memory.
#[derive(Debug, PartialEq, Eq)]
pub struct InMemoryTable {
    pub generation: SourceGeneration,
    pub rows: Vec<Vec<CellValue>>,
}

/// The models of the cells of each row.
pub open spec fn cell_rows(rows: Seq<Vec<CellValue>>) -> Seq<Seq<CellModel>> {
    Seq::new(rows.len(), |i: int| table::cell_views(rows[i]@))
}

/// Cells of plain text.
pub open spec fn text_cells(row: Seq<Seq<char>>) -> Seq<CellModel> {
    Seq::new(row.len(), |i: int| CellModel::Text(row[i]))
}

/// The rows of text from row `from` on, as text cells.
pub open spec fn text_rows_from(rows: Seq<Seq<Seq<char>>>, from: int) -> Seq<Seq<CellModel>> {
    Seq::new((rows.len() - from) as nat, |i: int| text_cells(rows[from + i]))
}

/// Cells of plain text.
pub fn text_row(row: &Vec<String>) -> (r: Vec<CellValue>)
    ensures
        table::cell_views(r@) == text_cells(text::views(row@)),
{
    let mut cells: Vec<CellValue> = Vec::new();
    let mut i: usize = 0;
    while i < row.len()
        invariant
            i <= row.len(),
            cells@.len() == i,
            forall|k: int| 0 <= k < i ==> (#[trigger] cells@[k])@ == CellModel::Text(row@[k]@),
        decreases row.len() - i,
    {
        cells.push(CellValue::Text(row[i].clone()));
        i = i + 1;
    }
    assert(table::cell_views(cells@) =~= text_cells(text::views(row@)));
    cells
}

impl InMemoryTable {
    /// The number of rows.
    pub fn row_count(&self) -> (r: RowCount)
        ensures
            r == RowCount::Exact(self.rows@.len() as usize),
    {
        RowCount::Exact(self.rows.len())
    }

    /// The row at some place.
    pub fn row(&self, index: usize) -> (r: Option<Row>)
        ensures
            r is Some <==> index < self.rows@.len(),
            r matches Some(row) ==> {
                &&& row.id == (RowId { generation: self.generation, ordinal: index as u64 })
                &&& table::cell_views(row.cells@) == table::cell_views(self.rows@[index as int]@)
            },
    {
        if index < self.rows.len() {
            let cells = self.rows[index].clone();
            assert(cells@ =~= self.rows@[index as int]@);
            Some(Row { id: RowId { generation: self.generation, ordinal: index as u64 }, cells })
        } else {
            None
        }
    }
}

/// Rows of text from row `from` on, as a table.
pub fn text_table(generation: SourceGeneration, rows: &Vec<Vec<String>>, from: usize) -> (r:
    InMemoryTable)
    requires
        from <= rows@.len(),
    ensures
        r.generation == generation,
        cell_rows(r.rows@) == text_rows_from(text::row_views(rows@), from as int),
{
    let ghost model = text::row_views(rows@);
    let mut out: Vec<Vec<CellValue>> = Vec::new();
    let mut i: usize = from;
    while i < rows.len()
        invariant
            from <= i <= rows.len(),
            model == text::row_views(rows@),
            out@.len() == i - from,
            forall|k: int|
                0 <= k < i - from ==> table::cell_views((#[trigger] out@[k])@) == text_cells(
                    model[from + k],
                ),
        decreases rows.len() - i,
    {
        assert(model[i as int] == text::views(rows@[i as int]@));
        out.push(text_row(&rows[i]));
        i = i + 1;
    }
    assert(cell_rows(out@) =~= text_rows_from(model, from as int));
    InMemoryTable { generation, rows: out }
}

// ---------------------------------------------------------------------------
// Complete records
// ---------------------------------------------------------------------------

/// How many quotes stand before position `n`, where quotes count at all.
pub open spec fn quotes_before(bytes: Seq<u8>, n: int, quote: u8, quoting: bool) -> nat
    decreases n,
{
    if n <= 0 || !quoting {
        0
    } else {
        quotes_before(bytes, n - 1, quote, quoting) + if bytes[n - 1] == quote {
            1nat
        } else {
            0nat
        }
    }
}

/// Whether the byte at `k` ends a record: a line feed, or a carriage return with
/// another line after it, that stands outside quotes.
pub open spec fn ends_record(bytes: Seq<u8>, k: int, quote: u8, quoting: bool) -> bool {
    &&& !(quoting && bytes[k] == quote)
    &&& quotes_before(bytes, k, quote, quoting) % 2 == 0
    &&& bytes[k] == 0x0a || (bytes[k] == 0x0d && k + 1 < bytes.len() && bytes[k + 1] != 0x0a)
}

/// The end of the last record that ends within the first `n` bytes.
pub open spec fn last_record_end(bytes: Seq<u8>, n: int, quote: u8, quoting: bool) -> int
    decreases n,
{
    if n <= 0 {
        0
    } else if ends_record(bytes, n - 1, quote, quoting) {
        n
    } else {
        last_record_end(bytes, n - 1, quote, quoting)
    }
}

/// The part of an input that holds whole records: all of it once the input is
/// complete, else up to the last record end.
pub open spec fn complete_prefix(
    bytes: Seq<u8>,
    quote: u8,
    quoting: bool,
    complete: bool,
) -> int {
    if complete {
        bytes.len() as int
    } else {
        last_record_end(bytes, bytes.len() as int, quote, quoting)
    }
}

proof fn lemma_last_record_end(bytes: Seq<u8>, n: int, quote: u8, quoting: bool)
    requires
        0 <= n <= bytes.len(),
    ensures
        0 <= last_record_end(bytes, n, quote, quoting) <= n,
        last_record_end(bytes, n, quote, quoting) > 0 ==> ends_record(
            bytes,
            last_record_end(bytes, n, quote, quoting) - 1,
            quote,
            quoting,
        ),
        forall|k: int|
            last_record_end(bytes, n, quote, quoting) <= k < n ==> !ends_record(
                bytes,
                k,
                quote,
                quoting,
            ),
    decreases n,
{
    if n > 0 && !ends_record(bytes, n - 1, quote, quoting) {
        lemma_last_record_end(bytes, n - 1, quote, quoting);
    }
}

/// The part of an input that holds whole records.
pub fn complete_delimited_prefix(bytes: &[u8], quote: u8, quoting: bool, complete: bool) -> (r:
    usize)
    ensures
        r == complete_prefix(bytes@, quote, quoting, complete),
        r <= bytes@.len(),
{
    let mut in_quotes = false;
    let mut last: usize = 0;
    let mut index: usize = 0;
    while index < bytes.len()
        invariant
            index <= bytes.len(),
            last <= index,
            in_quotes == (quotes_before(bytes@, index as int, quote, quoting) % 2 == 1),
            last == last_record_end(bytes@, index as int, quote, quoting),
        decreases bytes.len() - index,
    {
        let byte: u8 = bytes[index];
        if quoting && byte == quote {
            if in_quotes && index + 1 < bytes.len() && bytes[index + 1] == quote {
                proof {
                    assert(quotes_before(bytes@, index + 2, quote, quoting) == quotes_before(
                        bytes@,
                        index + 1,
                        quote,
                        quoting,
                    ) + 1);
                    assert(last_record_end(bytes@, index + 2, quote, quoting) == last_record_end(
                        bytes@,
                        index + 1,
                        quote,
                        quoting,
                    ));
                }
                index = index + 2;
                continue ;
            }
            in_quotes = !in_quotes;
        } else if !in_quotes && (byte == 0x0a || (byte == 0x0d && index + 1 < bytes.len()
            && bytes[index + 1] != 0x0a)) {
            last = index + 1;
        }
        index = index + 1;
    }
    if complete {
        bytes.len()
    } else {
        last
    }
}

/// The whole records of an unfinished input end at a record end outside quotes,
/// and nothing after them ends a record: no record is split and none is left out.
pub proof fn complete_prefix_keeps_records_whole(bytes: Seq<u8>, quote: u8, quoting: bool)
    ensures
        ({
            let n = complete_prefix(bytes, quote, quoting, false);
            &&& 0 <= n <= bytes.len()
            &&& n > 0 ==> ends_record(bytes, n - 1, quote, quoting)
            &&& quotes_before(bytes, n, quote, quoting) % 2 == 0
            &&& forall|k: int| n <= k < bytes.len() ==> !ends_record(bytes, k, quote, quoting)
        }),
{
    lemma_last_record_end(bytes, bytes.len() as int, quote, quoting);
}

/// The whole records of an input stay whole when more of it arrives. A carriage
/// return at the very end ends a record only once the next byte is known, so
/// what was held back may grow but what was given out never shrinks.
pub proof fn complete_prefix_only_grows(a: Seq<u8>, b: Seq<u8>, quote: u8, quoting: bool)
    ensures
        complete_prefix(a, quote, quoting, false) <= complete_prefix(a + b, quote, quoting, false),
        ({
            let n = complete_prefix(a, quote, quoting, false);
            n > 0 ==> ends_record(a + b, n - 1, quote, quoting)
        }),
{
    let n = complete_prefix(a, quote, quoting, false);
    lemma_last_record_end(a, a.len() as int, quote, quoting);
    lemma_last_record_end(a + b, (a + b).len() as int, quote, quoting);
    if n > 0 {
        lemma_quotes_prefix(a, b, n - 1, quote, quoting);
        assert((a + b)[n - 1] == a[n - 1]);
        if a[n - 1] == 0x0d {
            assert((a + b)[n] == a[n]);
        }
        assert(ends_record(a + b, n - 1, quote, quoting));
    }
}

proof fn lemma_quotes_prefix(a: Seq<u8>, b: Seq<u8>, n: int, quote: u8, quoting: bool)
    requires
        0 <= n <= a.len(),
    ensures
        quotes_before(a + b, n, quote, quoting) == quotes_before(a, n, quote, quoting),
    decreases n,
{
    if n > 0 {
        lemma_quotes_prefix(a, b, n - 1, quote, quoting);
        assert((a + b)[n - 1] == a[n - 1]);
    }
}

// ---------------------------------------------------------------------------
// Input that is still arriving
// ---------------------------------------------------------------------------

/// What has arrived of an input, and whether that is all.
#[derive(Debug, PartialEq, Eq)]
pub struct Snapshot {
    pub bytes: Vec<u8>,
    pub complete: bool,
}

/// A table of delimited text that grows as its input arrives.
#[derive(Debug)]
pub struct StreamingDelimitedTable {
    pub generation: SourceGeneration,
    pub options: ParseOptions,
    pub display_name: String,
    pub rows: Vec<Vec<String>>,
    pub columns: Vec<ColumnDefinition>,
    pub header_rows: Option<usize>,
    pub parsed_bytes: usize,
    pub last_bytes: usize,
    pub complete: bool,
    pub options_resolved: bool,
}

/// The model of a growing table.
pub struct StreamModel {
    pub generation: SourceGeneration,
    pub options: ParseModel,
    pub display_name: Seq<char>,
    pub rows: Seq<Seq<Seq<char>>>,
    pub columns: Seq<ColumnModel>,
    pub header_rows: Option<usize>,
    pub parsed_bytes: int,
    pub last_bytes: int,
    pub complete: bool,
    pub resolved: bool,
}

impl View for StreamingDelimitedTable {
    type V = StreamModel;

    open spec fn view(&self) -> StreamModel {
        StreamModel {
            generation: self.generation,
            options: self.options@,
            display_name: self.display_name@,
            rows: text::row_views(self.rows@),
            columns: table::column_views(self.columns@),
            header_rows: self.header_rows,
            parsed_bytes: self.parsed_bytes as int,
            last_bytes: self.last_bytes as int,
            complete: self.complete,
            resolved: self.options_resolved,
        }
    }
}

/// Whether an encoding can be read piece by piece: not UTF-16, whether asked for
/// or announced by a byte order mark.
pub open spec fn is_incremental(options: ParseModel, bytes: Seq<u8>) -> bool {
    &&& !(options.encoding matches Some(label) && text::has_prefix(encoding::normal_label(label), "utf-16"@))
    &&& !encoding::has_little_endian_mark(bytes)
    &&& !encoding::has_big_endian_mark(bytes)
}

/// Whether an encoding can be read piece by piece.
pub fn streaming_encoding_is_incremental(options: &ParseOptions, bytes: &[u8]) -> (r: bool)
    ensures
        r == is_incremental(options@, bytes@),
{
    let utf16 = match &options.encoding {
        Some(label) => starts_with(&normalize_encoding_label(label), "utf-16"),
        None => false,
    };
    let little = bytes.len() >= 2 && bytes[0] == 0xff && bytes[1] == 0xfe;
    let big = bytes.len() >= 2 && bytes[0] == 0xfe && bytes[1] == 0xff;
    !utf16 && !little && !big
}

/// The options after the first piece was decoded: they hold on to the encoding
/// and the delimiter that were found.
pub open spec fn resolved_options(options: ParseModel, decoded: DecodedModel) -> ParseModel {
    ParseModel {
        encoding: Some(decoded.encoding),
        delimiter: Some(delimited::delimiter_for(decoded.text, options)),
        quoting: options.quoting,
        quote_char: options.quote_char,
    }
}

/// The rows of a piece of input, and the options and whether they are settled
/// after reading it.
pub open spec fn chunk_rows(
    options: ParseModel,
    resolved: bool,
    bytes: Seq<u8>,
    locale: Option<Seq<char>>,
) -> (Result<Seq<Seq<Seq<char>>>, IngestErrorModel>, ParseModel, bool) {
    if resolved {
        (delimited::input_rows(bytes, options, locale), options, true)
    } else {
        match encoding::input_text(bytes, options.encoding, locale) {
            Ok(decoded) => {
                let settled = resolved_options(options, decoded);
                (delimited::decoded_rows(decoded.text, settled), settled, true)
            },
            Err(e) => (Err(e), options, false),
        }
    }
}

/// The larger of two sizes.
pub open spec fn larger(a: nat, b: nat) -> nat {
    if a > b {
        a
    } else {
        b
    }
}

/// Columns with generated ones added up to a count of `n`.
pub open spec fn extended_columns(
    generation: SourceGeneration,
    columns: Seq<ColumnModel>,
    n: nat,
) -> Seq<ColumnModel> {
    Seq::new(
        larger(columns.len(), n),
        |i: int|
            if i < columns.len() {
                columns[i]
            } else {
                delimited_column_model(generation, i as usize, None)
            },
    )
}

/// Each row padded with empty cells to a length of `n`.
pub open spec fn widened_rows(rows: Seq<Seq<Seq<char>>>, n: nat) -> Seq<Seq<Seq<char>>> {
    Seq::new(rows.len(), |i: int| delimited::padded_row(rows[i], n))
}

/// The table after rows were read from a piece of input that ends at `end`.
pub open spec fn with_rows(
    s: StreamModel,
    parsed: Seq<Seq<Seq<char>>>,
    first: bool,
    end: int,
    len: int,
    complete: bool,
) -> StreamModel {
    let columns = if s.header_rows is Some {
        extended_columns(s.generation, s.columns, delimited::widest(parsed))
    } else {
        delimited_columns(s.generation, parsed)
    };
    let header_rows = match s.header_rows {
        Some(n) => n,
        None => header_row_count(parsed) as usize,
    };
    let skip = if first {
        if header_rows <= parsed.len() {
            header_rows as int
        } else {
            parsed.len() as int
        }
    } else {
        0
    };
    StreamModel {
        generation: s.generation,
        options: s.options,
        display_name: s.display_name,
        rows: widened_rows(s.rows + parsed.skip(skip), columns.len()),
        columns,
        header_rows: Some(header_rows),
        parsed_bytes: end,
        last_bytes: len,
        complete,
        resolved: s.resolved,
    }
}

/// The table after a look at its input, and what was learnt. Nothing is read
/// while an encoding cannot be read piece by piece, or while fewer than two rows
/// have arrived to tell a header by. An unfinished input gives out its whole
/// records only, and a fault in it is kept for later.
pub open spec fn refreshed(
    s: StreamModel,
    bytes: Seq<u8>,
    complete: bool,
    locale: Option<Seq<char>>,
) -> (StreamModel, Result<DeltaModel, IngestErrorModel>) {
    let len = bytes.len() as int;
    let seen = |t: StreamModel| StreamModel { last_bytes: len, ..t };
    if len == s.last_bytes && complete == s.complete {
        (s, Ok(DeltaModel::nothing()))
    } else if !is_incremental(s.options, bytes) && !complete {
        (seen(s), Ok(DeltaModel::nothing()))
    } else {
        let start = if is_incremental(s.options, bytes) {
            s.parsed_bytes
        } else {
            0
        };
        let end = if complete {
            len
        } else {
            start + complete_prefix(
                bytes.skip(start),
                s.options.quote_char,
                s.options.quoting != Some(Quoting::Never),
                false,
            )
        };
        let (parsed, options, resolved) = if end == start {
            (Ok(Seq::empty()), s.options, s.resolved)
        } else {
            chunk_rows(s.options, s.resolved, bytes.subrange(start, end), locale)
        };
        let t = StreamModel { options, resolved, ..s };
        match parsed {
            Err(e) => if complete {
                (t, Err(e))
            } else {
                (seen(t), Ok(DeltaModel::nothing()))
            },
            Ok(rows) => if !complete && (!is_incremental(options, bytes) || (s.header_rows is None
                && rows.len() < 2)) {
                (seen(t), Ok(DeltaModel::nothing()))
            } else {
                let next = with_rows(t, rows, start == 0, end, len, complete);
                (
                    next,
                    Ok(
                        DeltaModel {
                            added: next.columns.skip(s.columns.len() as int),
                            widened: Seq::empty(),
                            completed: complete && !s.complete,
                        },
                    ),
                )
            },
        }
    }
}

impl StreamModel {
    /// Every row has a cell for each column, and columns once found stay: before
    /// the header is told there are neither columns nor rows.
    pub open spec fn well_formed(self) -> bool {
        &&& forall|i: int|
            0 <= i < self.rows.len() ==> (#[trigger] self.rows[i]).len() == self.columns.len()
        &&& self.header_rows is None ==> self.columns.len() == 0 && self.rows.len() == 0
        &&& self.parsed_bytes >= 0
        &&& self.columns.len() <= usize::MAX
    }
}

/// The model of a refresh result.
pub open spec fn refresh_view(r: Result<SchemaDelta, IngestError>) -> Result<
    DeltaModel,
    IngestErrorModel,
> {
    match r {
        Ok(d) => Ok(d@),
        Err(e) => Err(e@),
    }
}

/// A look at the input keeps every row as long as the columns.
pub proof fn refreshing_keeps_rows_rectangular(
    s: StreamModel,
    bytes: Seq<u8>,
    complete: bool,
    locale: Option<Seq<char>>,
)
    requires
        s.well_formed(),
    ensures
        ({
            let t = refreshed(s, bytes, complete, locale).0;
            forall|i: int|
                0 <= i < t.rows.len() ==> (#[trigger] t.rows[i]).len() == t.columns.len()
        }),
{
}

/// A look at the input never takes columns away or renames them, once the header is told.
pub proof fn refreshing_keeps_columns(
    s: StreamModel,
    bytes: Seq<u8>,
    complete: bool,
    locale: Option<Seq<char>>,
)
    requires
        s.well_formed(),
        s.header_rows is Some,
    ensures
        ({
            let t = refreshed(s, bytes, complete, locale).0;
            &&& t.columns.len() >= s.columns.len()
            &&& t.columns.take(s.columns.len() as int) == s.columns
            &&& t.header_rows == s.header_rows
        }),
{
    let t = refreshed(s, bytes, complete, locale).0;
    assert(t.columns.take(s.columns.len() as int) =~= s.columns);
}

/// A look at the input never takes rows away: those read before stay in place,
/// and only gain empty cells for new columns.
pub proof fn refreshing_keeps_rows(
    s: StreamModel,
    bytes: Seq<u8>,
    complete: bool,
    locale: Option<Seq<char>>,
)
    requires
        s.well_formed(),
    ensures
        ({
            let t = refreshed(s, bytes, complete, locale).0;
            &&& t.rows.len() >= s.rows.len()
            &&& forall|i: int|
                0 <= i < s.rows.len() ==> (#[trigger] t.rows[i]) == delimited::padded_row(
                    s.rows[i],
                    t.columns.len(),
                )
        }),
{
    let t = refreshed(s, bytes, complete, locale).0;
    assert forall|i: int| 0 <= i < s.rows.len() implies (#[trigger] t.rows[i]) == delimited::padded_row(
        s.rows[i],
        t.columns.len(),
    ) by {
        if t.rows == s.rows {
            assert(s.rows[i] =~= delimited::padded_row(s.rows[i], t.columns.len()));
        }
    }
}

impl StreamingDelimitedTable {
    /// A table that has read nothing yet.
    pub fn new(generation: SourceGeneration, options: ParseOptions, display_name: String) -> (r:
        StreamingDelimitedTable)
        ensures
            r@ == (StreamModel {
                generation,
                options: options@,
                display_name: display_name@,
                rows: Seq::empty(),
                columns: Seq::empty(),
                header_rows: None,
                parsed_bytes: 0,
                last_bytes: usize::MAX as int,
                complete: false,
                resolved: false,
            }),
            r@.well_formed(),
            r.display_name == display_name,
    {
        let r = StreamingDelimitedTable {
            generation,
            options,
            display_name,
            rows: Vec::new(),
            columns: Vec::new(),
            header_rows: None,
            parsed_bytes: 0,
            last_bytes: usize::MAX,
            complete: false,
            options_resolved: false,
        };
        assert(text::row_views(r.rows@) =~= Seq::<Seq<Seq<char>>>::empty());
        assert(table::column_views(r.columns@) =~= Seq::<ColumnModel>::empty());
        r
    }

    /// Reads the rows of a piece of input, settling the encoding and the
    /// delimiter the first time.
    fn parse_chunk(&mut self, bytes: &[u8], locale: &Option<String>) -> (r: Result<
        Vec<Vec<String>>,
        IngestError,
    >)
        requires
            bytes@.len() <= encoding::max_input(),
        ensures
            ({
                let (rows, options, resolved) = chunk_rows(
                    old(self)@.options,
                    old(self)@.resolved,
                    bytes@,
                    text::opt_view(*locale),
                );
                &&& delimited::rows_view(r) == rows
                &&& final(self)@ == StreamModel { options, resolved, ..old(self)@ }
                &&& final(self).display_name == old(self).display_name
            }),
    {
        if self.options_resolved {
            return parse_rows(bytes, &self.options, locale);
        }
        match decode_input(bytes, as_slice(&self.options.encoding), locale) {
            Ok(decoded) => {
                let delimiter: u8 = match self.options.delimiter {
                    Some(d) => d,
                    None => match sniff_delimiter(&decoded.text) {
                        Some(d) => d,
                        None => 0x2c,
                    },
                };
                self.options.encoding = Some(decoded.encoding);
                self.options.delimiter = Some(delimiter);
                self.options_resolved = true;
                parse_decoded_rows(&decoded.text, &self.options)
            },
            Err(e) => Err(e),
        }
    }

    /// Adds generated columns up to a count of `n`.
    fn extend_columns(&mut self, n: usize)
        ensures
            final(self)@ == (StreamModel {
                columns: extended_columns(
                    old(self)@.generation,
                    old(self)@.columns,
                    n as nat,
                ),
                ..old(self)@
            }),
            final(self).display_name == old(self).display_name,
    {
        let ghost before = self.columns@;
        let ghost start = self@;
        while self.columns.len() < n
            invariant
                before.len() <= self.columns@.len(),
                self.columns@.len() <= larger(before.len(), n as nat),
                self@ == (StreamModel { columns: table::column_views(self.columns@), ..start }),
                self.display_name == old(self).display_name,
                forall|k: int|
                    0 <= k < self.columns@.len() ==> (#[trigger] self.columns@[k])@ == (if k
                        < before.len() {
                        before[k]@
                    } else {
                        delimited_column_model(start.generation, k as usize, None)
                    }),
            decreases n - self.columns@.len(),
        {
            let column = delimited_column(self.generation, self.columns.len(), None);
            self.columns.push(column);
        }
        assert(table::column_views(self.columns@) =~= extended_columns(
            start.generation,
            table::column_views(before),
            n as nat,
        ));
    }

    /// Pads every row with empty cells to a length of `n`.
    fn widen_rows(&mut self, n: usize)
        requires
            forall|i: int| 0 <= i < old(self).rows@.len() ==> (#[trigger] old(self).rows@[i])@.len() <= n,
        ensures
            final(self)@ == (StreamModel {
                rows: widened_rows(old(self)@.rows, n as nat),
                ..old(self)@
            }),
            final(self).display_name == old(self).display_name,
    {
        let ghost before = self.rows@;
        let ghost start = self@;
        let mut rows: Vec<Vec<String>> = Vec::new();
        let mut i: usize = 0;
        while i < self.rows.len()
            invariant
                i <= self.rows.len(),
                before == self.rows@,
                forall|k: int| 0 <= k < before.len() ==> (#[trigger] before[k])@.len() <= n,
                rows@.len() == i,
                forall|k: int|
                    0 <= k < i ==> text::views((#[trigger] rows@[k])@) == delimited::padded_row(
                        text::views(before[k]@),
                        n as nat,
                    ),
            decreases self.rows.len() - i,
        {
            let mut row = self.rows[i].clone();
            assert(text::views(row@) =~= text::views(before[i as int]@));
            assert(before[i as int]@.len() <= n);
            pad_row(&mut row, n);
            rows.push(row);
            i = i + 1;
        }
        self.rows = rows;
        assert(text::row_views(self.rows@) =~= widened_rows(text::row_views(before), n as nat));
    }

    /// Takes in the rows of a piece of input that ends at `end`.
    #[verifier::rlimit(30)]
    fn accept_rows(
        &mut self,
        parsed: &Vec<Vec<String>>,
        first: bool,
        end: usize,
        len: usize,
        complete: bool,
    )
        requires
            old(self)@.well_formed(),
        ensures
            final(self)@ == with_rows(
                old(self)@,
                text::row_views(parsed@),
                first,
                end as int,
                len as int,
                complete,
            ),
            final(self)@.well_formed(),
            final(self).display_name == old(self).display_name,
    {
        let ghost s = self@;
        let ghost model = text::row_views(parsed@);
        let ghost next = with_rows(s, model, first, end as int, len as int, complete);
        let header_rows: usize = match self.header_rows {
            Some(n) => {
                let width: usize = widest_row(parsed);
                self.extend_columns(width);
                n
            },
            None => {
                let (definition, n) = delimited_definition(
                    self.generation,
                    parsed,
                    self.display_name.clone(),
                );
                self.columns = definition.columns;
                self.header_rows = Some(n);
                n
            },
        };
        assert(self@.columns == next.columns);
        let skip: usize = if first {
            if header_rows <= parsed.len() {
                header_rows
            } else {
                parsed.len()
            }
        } else {
            0
        };
        let ghost before = self.rows@;
        let ghost with_columns = self@;
        let mut i: usize = skip;
        assert(text::row_views(self.rows@) =~= text::row_views(before) + model.subrange(
            skip as int,
            skip as int,
        ));
        while i < parsed.len()
            invariant
                skip <= i <= parsed.len(),
                model == text::row_views(parsed@),
                text::row_views(self.rows@) == text::row_views(before) + model.subrange(
                    skip as int,
                    i as int,
                ),
                self@ == (StreamModel { rows: text::row_views(self.rows@), ..with_columns }),
                self.display_name == old(self).display_name,
            decreases parsed.len() - i,
        {
            let row = parsed[i].clone();
            let ghost prior = self.rows@;
            assert(text::views(row@) =~= text::views(parsed@[i as int]@));
            self.rows.push(row);
            assert(text::row_views(self.rows@) =~= text::row_views(prior).push(model[i as int]));
            assert(model.subrange(skip as int, i + 1) =~= model.subrange(
                skip as int,
                i as int,
            ).push(model[i as int]));
            i = i + 1;
        }
        let width: usize = self.columns.len();
        proof {
            assert(model.subrange(skip as int, model.len() as int) =~= model.skip(skip as int));
            delimited::lemma_widest(model);
            assert(next.columns.len() >= delimited::widest(model));
            assert forall|k: int| 0 <= k < self.rows@.len() implies (
            #[trigger] self.rows@[k])@.len() <= width by {
                assert(text::row_views(self.rows@)[k].len() == self.rows@[k]@.len());
                if k < before.len() {
                    assert(text::row_views(self.rows@)[k] == s.rows[k]);
                } else {
                    assert(text::row_views(self.rows@)[k] == model[skip + k - before.len()]);
                }
            }
        }
        self.widen_rows(width);
        self.parsed_bytes = end;
        self.last_bytes = len;
        self.complete = complete;
        assert(self@ == next);
    }

    /// Looks at what has arrived and reads the whole records in it.
    pub fn refresh(&mut self, snapshot: &Snapshot, locale: &Option<String>) -> (r: Result<
        SchemaDelta,
        IngestError,
    >)
        requires
            old(self)@.well_formed(),
            old(self)@.parsed_bytes <= snapshot.bytes@.len(),
            snapshot.bytes@.len() <= encoding::max_input(),
        ensures
            final(self)@ == refreshed(
                old(self)@,
                snapshot.bytes@,
                snapshot.complete,
                text::opt_view(*locale),
            ).0,
            refresh_view(r) == refreshed(
                old(self)@,
                snapshot.bytes@,
                snapshot.complete,
                text::opt_view(*locale),
            ).1,
            final(self)@.well_formed(),
            final(self)@.parsed_bytes <= snapshot.bytes@.len(),
            final(self).display_name == old(self).display_name,
    {
        let ghost s = self@;
        let ghost bytes = snapshot.bytes@;
        let ghost goal = refreshed(s, bytes, snapshot.complete, text::opt_view(*locale));
        let len: usize = snapshot.bytes.len();
        if len == self.last_bytes && snapshot.complete == self.complete {
            return Ok(SchemaDelta::default());
        }
        let incremental = streaming_encoding_is_incremental(&self.options, &snapshot.bytes);
        if !incremental && !snapshot.complete {
            self.last_bytes = len;
            return Ok(SchemaDelta::default());
        }
        let start: usize = if incremental {
            self.parsed_bytes
        } else {
            0
        };
        let end: usize = if snapshot.complete {
            len
        } else {
            let tail = vstd::slice::slice_subrange(snapshot.bytes.as_slice(), start, len);
            assert(tail@ =~= bytes.skip(start as int));
            let quoting = match self.options.quoting {
                Some(q) => q != Quoting::Never,
                None => true,
            };
            start + complete_delimited_prefix(tail, self.options.quote_char, quoting, false)
        };
        let parsed = if end == start {
            let none: Vec<Vec<String>> = Vec::new();
            assert(text::row_views(none@) =~= Seq::<Seq<Seq<char>>>::empty());
            none
        } else {
            let chunk = vstd::slice::slice_subrange(snapshot.bytes.as_slice(), start, end);
            match self.parse_chunk(chunk, locale) {
                Ok(rows) => rows,
                Err(e) => {
                    if !snapshot.complete {
                        self.last_bytes = len;
                        return Ok(SchemaDelta::default());
                    }
                    return Err(e);
                },
            }
        };
        let ghost t = self@;
        let ghost model = text::row_views(parsed@);
        if !streaming_encoding_is_incremental(&self.options, &snapshot.bytes)
            && !snapshot.complete {
            self.last_bytes = len;
            return Ok(SchemaDelta::default());
        }
        if self.header_rows.is_none() && parsed.len() < 2 && !snapshot.complete {
            self.last_bytes = len;
            return Ok(SchemaDelta::default());
        }
        let previous: usize = self.columns.len();
        let completed = snapshot.complete && !self.complete;
        self.accept_rows(&parsed, start == 0, end, len, snapshot.complete);
        let added_columns = clone_columns_from(&self.columns, previous);
        let delta = SchemaDelta { added_columns, widened_types: Vec::new(), completed };
        assert(delta.widened_types@ =~= Seq::<TypeWidening>::empty());
        Ok(delta)
    }

    /// How many rows are known: the exact number once the input is complete.
    pub fn row_count(&self) -> (r: RowCount)
        ensures
            r == (if self@.complete {
                RowCount::Exact(self@.rows.len() as usize)
            } else if self@.rows.len() == 0 {
                RowCount::Unknown
            } else {
                RowCount::AtLeast(self@.rows.len() as usize)
            }),
    {
        if self.complete {
            RowCount::Exact(self.rows.len())
        } else if self.rows.len() == 0 {
            RowCount::Unknown
        } else {
            RowCount::AtLeast(self.rows.len())
        }
    }

    /// The row at some place, where it has been read.
    pub fn row(&self, index: usize) -> (r: Option<Row>)
        ensures
            r is Some <==> index < self@.rows.len(),
            r matches Some(row) ==> {
                &&& row.id == (RowId { generation: self.generation, ordinal: index as u64 })
                &&& table::cell_views(row.cells@) == text_cells(self@.rows[index as int])
            },
    {
        if index < self.rows.len() {
            let cells = text_row(&self.rows[index]);
            Some(Row { id: RowId { generation: self.generation, ordinal: index as u64 }, cells })
        } else {
            None
        }
    }

    /// What opening the table shows: its columns so far, and whether they are all.
    pub fn definition(&self) -> (r: TableDefinition)
        ensures
            r.generation == self.generation,
            table::column_views(r.columns@) == self@.columns,
            r.schema_state == (if self@.complete {
                SchemaState::Complete
            } else {
                SchemaState::Provisional
            }),
            r.relation.display_name == self.display_name,
            r.relation.name == self.display_name,
            r.relation.header_visible == (self@.header_rows == Some(1usize)),
    {
        TableDefinition {
            generation: self.generation,
            columns: clone_columns(&self.columns),
            schema_state: if self.complete {
                SchemaState::Complete
            } else {
                SchemaState::Provisional
            },
            relation: RelationMetadata::implicit(
                self.display_name.clone(),
                match self.header_rows {
                    Some(n) => n == 1,
                    None => false,
                },
            ),
        }
    }

    /// Reads on and reports how far the input has been read.
    pub fn ensure_indexed_through(&mut self, snapshot: &Snapshot, locale: &Option<String>) -> (r:
        Result<IndexProgress, IngestError>)
        requires
            old(self)@.well_formed(),
            old(self)@.parsed_bytes <= snapshot.bytes@.len(),
            snapshot.bytes@.len() <= encoding::max_input(),
        ensures
            final(self)@ == refreshed(
                old(self)@,
                snapshot.bytes@,
                snapshot.complete,
                text::opt_view(*locale),
            ).0,
            final(self)@.well_formed(),
            final(self)@.parsed_bytes <= snapshot.bytes@.len(),
            final(self).display_name == old(self).display_name,
            match (
                r,
                refreshed(old(self)@, snapshot.bytes@, snapshot.complete, text::opt_view(*locale)).1,
            ) {
                (Ok(progress), Ok(delta)) => {
                    &&& progress.schema_delta@ == delta
                    &&& progress.bytes_scanned == final(self)@.last_bytes
                    &&& progress.row_count == (if final(self)@.complete {
                        RowCount::Exact(final(self)@.rows.len() as usize)
                    } else if final(self)@.rows.len() == 0 {
                        RowCount::Unknown
                    } else {
                        RowCount::AtLeast(final(self)@.rows.len() as usize)
                    })
                },
                (Err(e), Err(m)) => e@ == m,
                _ => false,
            },
    {
        match self.refresh(snapshot, locale) {
            Ok(schema_delta) => Ok(
                IndexProgress {
                    row_count: self.row_count(),
                    schema_delta,
                    bytes_scanned: self.last_bytes as u64,
                },
            ),
            Err(e) => Err(e),
        }
    }
}

/// The first row is a header where more rows follow and nothing in it is a number.
pub proof fn headers_hold_no_numbers(rows: Seq<Seq<Seq<char>>>, i: int)
    ensures
        rows.len() <= 1 ==> !has_header(rows),
        rows.len() > 1 && 0 <= i < rows[0].len() && text::is_float(rows[0][i]) ==> !has_header(rows),
        rows.len() > 1 && (forall|k: int|
            0 <= k < rows[0].len() ==> !text::is_float(#[trigger] rows[0][k])) ==> has_header(rows),
        header_row_count(rows) == 1 <==> has_header(rows),
        header_row_count(rows) == 0 <==> !has_header(rows),
{
}

/// Columns are called by the header, and by their number from one where it has nothing
/// to call them.
pub proof fn columns_are_called_by_the_header(
    generation: SourceGeneration,
    ordinal: usize,
    name: Seq<char>,
)
    ensures
        ({
            let named = delimited_column_model(generation, ordinal, Some(name));
            let unnamed = delimited_column_model(generation, ordinal, None);
            &&& name.len() > 0 ==> named.display_name == name
            &&& name.len() == 0 ==> named.display_name == "Column "@ + text::decimal(
                (ordinal + 1) as nat,
            )
            &&& unnamed.display_name == "Column "@ + text::decimal((ordinal + 1) as nat)
            &&& unnamed.source_type is Text
            &&& unnamed.identity == (IdentityModel::Delimited { ordinal, name: None })
            &&& named.identity == (IdentityModel::Delimited { ordinal, name: Some(name) })
            &&& named.id.generation == generation
            &&& named.id.ordinal == ordinal as u32
        }),
{
}

/// There are as many columns as the widest row has cells, each in its place and called
/// by the header's cell there.
pub proof fn columns_stand_in_their_places(
    generation: SourceGeneration,
    rows: Seq<Seq<Seq<char>>>,
    i: int,
)
    requires
        0 <= i < delimited::widest(rows),
        i <= usize::MAX,
    ensures
        delimited_columns(generation, rows).len() == delimited::widest(rows),
        has_header(rows) && i < rows[0].len() && rows[0][i].len() > 0 ==> delimited_columns(
            generation,
            rows,
        )[i].display_name == rows[0][i],
        !has_header(rows) ==> delimited_columns(generation, rows)[i].display_name == "Column "@
            + text::decimal((i + 1) as nat),
{
}

/// A cell of a row is the text of its field.
pub proof fn rows_hold_their_texts(rows: Seq<Seq<Seq<char>>>, from: int, i: int, k: int)
    requires
        0 <= from,
        0 <= i,
        from + i < rows.len(),
        0 <= k < rows[from + i].len(),
    ensures
        text_rows_from(rows, from).len() == rows.len() - from,
        text_rows_from(rows, from)[i].len() == rows[from + i].len(),
        text_rows_from(rows, from)[i][k] == CellModel::Text(rows[from + i][k]),
{
}

/// A record ends at a line feed, or at a carriage return with something else behind it,
/// outside of quotes; an odd number of quotes before it keeps it open.
pub proof fn records_end_outside_of_quotes(bytes: Seq<u8>, k: int, quote: u8)
    requires
        0 <= k < bytes.len(),
        quote != 0x0a,
        quote != 0x0d,
    ensures
        ends_record(bytes, k, quote, false) <==> bytes[k] == 0x0a || (bytes[k] == 0x0d && k + 1
            < bytes.len() && bytes[k + 1] != 0x0a),
        ends_record(bytes, k, quote, true) ==> ends_record(bytes, k, quote, false),
        ends_record(bytes, k, quote, false) && (forall|i: int|
            0 <= i < k ==> #[trigger] bytes[i] != quote) ==> ends_record(bytes, k, quote, true),
        (exists|i: int|
            0 <= i < k && bytes[i] == quote && (forall|j: int|
                0 <= j < k && j != i ==> #[trigger] bytes[j] != quote)) ==> !ends_record(
            bytes,
            k,
            quote,
            true,
        ),
{
    assert(quotes_before(bytes, k, quote, false) == 0);
    if forall|i: int| 0 <= i < k ==> #[trigger] bytes[i] != quote {
        lemma_no_quotes(bytes, k, quote);
    }
    if exists|i: int|
        0 <= i < k && bytes[i] == quote && (forall|j: int|
            0 <= j < k && j != i ==> #[trigger] bytes[j] != quote) {
        let i = choose|i: int|
            0 <= i < k && bytes[i] == quote && (forall|j: int|
                0 <= j < k && j != i ==> #[trigger] bytes[j] != quote);
        lemma_one_quote(bytes, k, quote, i);
    }
}

proof fn lemma_no_quotes(bytes: Seq<u8>, n: int, quote: u8)
    requires
        0 <= n <= bytes.len(),
        forall|i: int| 0 <= i < n ==> #[trigger] bytes[i] != quote,
    ensures
        quotes_before(bytes, n, quote, true) == 0,
    decreases n,
{
    if n > 0 {
        lemma_no_quotes(bytes, n - 1, quote);
    }
}

proof fn lemma_one_quote(bytes: Seq<u8>, n: int, quote: u8, i: int)
    requires
        0 <= i < n <= bytes.len(),
        bytes[i] == quote,
        forall|j: int| 0 <= j < n && j != i ==> #[trigger] bytes[j] != quote,
    ensures
        quotes_before(bytes, n, quote, true) == 1,
    decreases n,
{
    if i < n - 1 {
        assert(bytes[n - 1] != quote);
        lemma_one_quote(bytes, n - 1, quote, i);
    } else {
        lemma_no_quotes(bytes, n - 1, quote);
    }
}

/// What is complete of an input reaches to its end where all has come, and otherwise to
/// behind the last end of a record.
pub proof fn complete_part_ends_with_a_record(
    bytes: Seq<u8>,
    n: int,
    quote: u8,
    quoting: bool,
)
    requires
        0 <= n <= bytes.len(),
    ensures
        complete_prefix(bytes, quote, quoting, true) == bytes.len(),
        complete_prefix(bytes, quote, quoting, false) == last_record_end(
            bytes,
            bytes.len() as int,
            quote,
            quoting,
        ),
        0 <= last_record_end(bytes, n, quote, quoting) <= n,
        last_record_end(bytes, n, quote, quoting) > 0 ==> ends_record(
            bytes,
            last_record_end(bytes, n, quote, quoting) - 1,
            quote,
            quoting,
        ),
        forall|k: int|
            last_record_end(bytes, n, quote, quoting) <= k < n ==> !#[trigger] ends_record(
                bytes,
                k,
                quote,
                quoting,
            ),
    decreases n,
{
    if n > 0 && !ends_record(bytes, n - 1, quote, quoting) {
        complete_part_ends_with_a_record(bytes, n - 1, quote, quoting);
    }
}

/// An input of wide characters cannot be read in parts: one that is asked for so, or one
/// that begins with either mark.
pub proof fn wide_characters_are_read_whole(options: ParseModel, rest: Seq<u8>, bytes: Seq<u8>)
    ensures
        !is_incremental(options, seq![0xffu8, 0xfeu8] + rest),
        !is_incremental(options, seq![0xfeu8, 0xffu8] + rest),
        options.encoding matches Some(label) ==> (text::has_prefix(
            encoding::normal_label(label),
            "utf-16"@,
        ) ==> !is_incremental(options, bytes)),
        options.encoding is None && (bytes.len() < 2 || bytes[0] < 0xfe) ==> is_incremental(
            options,
            bytes,
        ),
{
    let little = seq![0xffu8, 0xfeu8] + rest;
    let big = seq![0xfeu8, 0xffu8] + rest;
    assert(little[0] == 0xff && little[1] == 0xfe);
    assert(big[0] == 0xfe && big[1] == 0xff);
}

/// What was guessed of the first part is kept for the rest: its encoding and its
/// delimiter, beside what was asked for.
pub proof fn guesses_are_kept(options: ParseModel, decoded: DecodedModel)
    ensures
        resolved_options(options, decoded).encoding == Some(decoded.encoding),
        resolved_options(options, decoded).delimiter == Some(
            delimited::delimiter_for(decoded.text, options),
        ),
        resolved_options(options, decoded).quoting == options.quoting,
        resolved_options(options, decoded).quote_char == options.quote_char,
{
}

/// New rows are put behind those that are there, without the header where it is among
/// them; all rows are made as wide as the columns, which keep their names.
pub proof fn new_rows_follow_the_old(
    s: StreamModel,
    parsed: Seq<Seq<Seq<char>>>,
    end: int,
    len: int,
    complete: bool,
)
    ensures
        ({
            let next = with_rows(s, parsed, false, end, len, complete);
            &&& next.rows.len() == s.rows.len() + parsed.len()
            &&& next.parsed_bytes == end
            &&& next.last_bytes == len
            &&& next.complete == complete
            &&& next.header_rows is Some
            &&& s.header_rows is Some ==> next.header_rows == s.header_rows
            &&& s.header_rows is Some ==> next.columns.len() >= s.columns.len() && next.columns.take(
                s.columns.len() as int,
            ) == s.columns
        }),
        ({
            let next = with_rows(s, parsed, true, end, len, complete);
            &&& s.header_rows is None && has_header(parsed) ==> next.rows.len() == s.rows.len()
                + parsed.len() - 1
            &&& s.header_rows is None && !has_header(parsed) ==> next.rows.len() == s.rows.len()
                + parsed.len()
        }),
{
    let next = with_rows(s, parsed, false, end, len, complete);
    if s.header_rows is Some {
        assert(next.columns.take(s.columns.len() as int) =~= s.columns);
    }
}

/// Reading on with nothing new changes nothing and tells of nothing; the end of the input
/// is told once.
pub proof fn nothing_new_changes_nothing(
    s: StreamModel,
    bytes: Seq<u8>,
    complete: bool,
    locale: Option<Seq<char>>,
)
    ensures
        bytes.len() == s.last_bytes && complete == s.complete ==> refreshed(
            s,
            bytes,
            complete,
            locale,
        ).0 == s,
        bytes.len() == s.last_bytes && complete == s.complete ==> refreshed(
            s,
            bytes,
            complete,
            locale,
        ).1 == Ok::<DeltaModel, IngestErrorModel>(DeltaModel::nothing()),
        refreshed(s, bytes, complete, locale).1 matches Ok(delta) ==> (delta.completed ==> complete
            && !s.complete),
        complete && !s.complete && refreshed(s, bytes, complete, locale).1 is Ok ==> refreshed(
            s,
            bytes,
            complete,
            locale,
        ).1->Ok_0.completed,
        !complete ==> refreshed(s, bytes, complete, locale).1 is Ok,
{
}

/// Columns that come later stand behind the others, called by their number, and columns
/// that are there stay as they are.
pub proof fn later_columns_stand_behind(
    generation: SourceGeneration,
    columns: Seq<ColumnModel>,
    n: nat,
    i: int,
)
    requires
        0 <= i < extended_columns(generation, columns, n).len(),
        i <= usize::MAX,
    ensures
        extended_columns(generation, columns, n).len() == if n > columns.len() {
            n
        } else {
            columns.len()
        },
        i < columns.len() ==> extended_columns(generation, columns, n)[i] == columns[i],
        i >= columns.len() ==> extended_columns(generation, columns, n)[i].display_name
            == "Column "@ + text::decimal((i + 1) as nat),
{
}

/// Rows that are too short have empty cells at their end.
pub proof fn short_rows_are_filled(rows: Seq<Seq<Seq<char>>>, n: nat, i: int, k: int)
    requires
        0 <= i < rows.len(),
        0 <= k < n,
    ensures
        widened_rows(rows, n).len() == rows.len(),
        widened_rows(rows, n)[i].len() == n,
        k < rows[i].len() ==> widened_rows(rows, n)[i][k] == rows[i][k],
        k >= rows[i].len() ==> widened_rows(rows, n)[i][k] == Seq::<char>::empty(),
{
}

/// A first part is read with what is found in it, and a later one with what was found
/// before.
pub proof fn later_parts_keep_what_was_found(
    options: ParseModel,
    bytes: Seq<u8>,
    locale: Option<Seq<char>>,
)
    ensures
        chunk_rows(options, true, bytes, locale) == (
            delimited::input_rows(bytes, options, locale),
            options,
            true,
        ),
        encoding::input_text(bytes, options.encoding, locale) is Err ==> chunk_rows(
            options,
            false,
            bytes,
            locale,
        ) == (
            Err::<Seq<Seq<Seq<char>>>, IngestErrorModel>(
                encoding::input_text(bytes, options.encoding, locale)->Err_0,
            ),
            options,
            false,
        ),
        encoding::input_text(bytes, options.encoding, locale) matches Ok(decoded) ==> {
            let (rows, settled, resolved) = chunk_rows(options, false, bytes, locale);
            &&& resolved
            &&& settled.encoding == Some(decoded.encoding)
            &&& settled.quote_char == options.quote_char
            &&& rows == delimited::decoded_rows(decoded.text, settled)
        },
{
}

} // verus!
