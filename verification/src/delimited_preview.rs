//! Previews of delimited text: the first records of an input decide its columns,
//! and further records are taken one at a time.

use vstd::prelude::*;
use vstd::string::*;

use crate::delimited::{self, sniff_delimiter, split_shell_like, strip_comment_mark};
use crate::delimited_table::{self, delimited_column, delimited_definition, text_row};
use crate::options::{OpenOptions, ParseOptions, SchemaScan};
use crate::table::{
    self, ColumnDefinition, ColumnModel, DeltaModel, IndexProgress, RelationMetadata, Row,
    RowCount, RowId, RowLimit, SchemaDelta, SchemaState, SourceGeneration, TableDefinition,
    TypeWidening, clone_columns, clone_columns_from,
};
use crate::text::{self, lines_of, same, starts_with_char, trim, trim_start};

verus! {

/// How many bytes are read ahead to tell the encoding: none where one was asked
/// for or the input cannot be read twice.
pub open spec fn encoding_probe(requested: bool, from_path: bool, preview: bool) -> u64 {
    if requested || !from_path {
        0
    } else if preview {
        8192
    } else {
        1048576
    }
}

/// How many bytes are read ahead to tell the encoding.
pub fn encoding_probe_bytes(options: &OpenOptions, from_path: bool) -> (r: u64)
    ensures
        r == encoding_probe(options.delimited.encoding is Some, from_path, options.preview),
{
    if options.delimited.encoding.is_some() || !from_path {
        0
    } else if options.preview {
        8192
    } else {
        1048576
    }
}

/// Whether an input may be started over in another encoding: a file read as
/// UTF-8 without anyone having asked for that.
pub fn may_fall_back(label: &str, options: &OpenOptions, from_path: bool) -> (r: bool)
    ensures
        r == (label@ == "utf-8"@ && options.delimited.encoding is None && from_path),
{
    same(label, "utf-8") && options.delimited.encoding.is_none() && from_path
}

/// Whether the first line says too little to guess the delimiter from: it is
/// missing, blank or a comment.
pub open spec fn first_line_is_empty(sample: Seq<char>) -> bool {
    let all = text::lines(sample);
    all.len() == 0 || text::trimmed(all[0]).len() == 0 || ({
        let line = text::skip_white(all[0]);
        line.len() > 0 && (line[0] == '#' || line[0] == '%')
    })
}

/// Whether a few more lines are read to guess the delimiter from. Only a file
/// is read on when its first line has no delimiter.
pub open spec fn wants_more_lines(
    sample: Seq<char>,
    requested: Option<u8>,
    from_path: bool,
) -> bool {
    requested is None && (first_line_is_empty(sample) || (from_path && delimited::sniffed(sample) is None))
}

/// Whether a few more lines are read to guess the delimiter from.
pub fn needs_followup(sample: &str, requested: Option<u8>, from_path: bool) -> (r: bool)
    ensures
        r == wants_more_lines(sample@, requested, from_path),
{
    if requested.is_some() {
        return false;
    }
    let all = lines_of(sample);
    if all.len() == 0 {
        return true;
    }
    assert(text::views(all@)[0] == all@[0]@);
    if trim(&all[0]).as_str().is_empty() {
        return true;
    }
    let line = trim_start(&all[0]);
    if starts_with_char(&line, '#') || starts_with_char(&line, '%') {
        return true;
    }
    from_path && sniff_delimiter(sample).is_none()
}

/// Whether to read one more line for guessing: at most three, and none once the
/// sample has grown to eight kibibytes.
pub fn reads_followup_line(sample_bytes: usize, lines_read: usize) -> (r: bool)
    ensures
        r == (lines_read < 3 && sample_bytes < 8192),
{
    lines_read < 3 && sample_bytes < 8192
}

/// The delimiter of an input from its first lines.
pub fn preview_delimiter(sample: &str, options: &ParseOptions) -> (r: u8)
    ensures
        r == delimited::delimiter_for(sample@, options@),
{
    match options.delimiter {
        Some(d) => d,
        None => match sniff_delimiter(sample) {
            Some(d) => d,
            None => 0x2c,
        },
    }
}

/// The record of a line of space-delimited text; blank lines hold none.
pub open spec fn space_record_words(line: Seq<char>, first: bool) -> Option<Seq<Seq<char>>> {
    let content = if first {
        delimited::without_comment_mark(line)
    } else {
        line
    };
    if text::trimmed(content).len() == 0 {
        None
    } else {
        Some(delimited::shell_words(content, None, Seq::empty()))
    }
}

/// The record of a line of space-delimited text; `first` says that no record has
/// come before it.
pub fn space_record(line: &str, first: bool) -> (r: Option<Vec<String>>)
    ensures
        match r {
            Some(words) => space_record_words(line@, first) == Some(text::views(words@)),
            None => space_record_words(line@, first) is None,
        },
{
    let content = if first {
        strip_comment_mark(line)
    } else {
        line.to_owned()
    };
    if trim(&content).as_str().is_empty() {
        None
    } else {
        Some(split_shell_like(&content))
    }
}

/// Whether the records read so far are enough to open a preview when reading the
/// next one fails: a preview of one row needs only the first.
pub fn tolerates_record_error(limit: Option<RowLimit>, records: usize) -> (r: bool)
    ensures
        r == (limit is Some && limit->0.value() == 1 && records == 1),
{
    match limit {
        Some(n) => n.get() == 1 && records == 1,
        None => false,
    }
}

/// Whether opening a preview reads the whole input: only a full schema scan
/// without a limit or filters does.
pub fn scans_everything(options: &OpenOptions) -> (r: bool)
    ensures
        r == (options.schema_scan is Full && options.limit is None
            && options.source_filters@.len() == 0),
{
    options.schema_scan == SchemaScan::Full && options.limit.is_none()
        && options.source_filters.len() == 0
}

// ---------------------------------------------------------------------------
// Opening a preview
// ---------------------------------------------------------------------------

/// The lines that an input is judged by: what was read of them, and whether more are
/// wanted.
#[derive(Debug)]
pub struct PreviewOpening {
    pub sample: String,
    pub reads: usize,
    pub followup: bool,
    pub ended: bool,
}

/// The model of the lines that an input is judged by.
pub struct OpeningModel {
    pub sample: Seq<char>,
    pub reads: nat,
    pub followup: bool,
    pub ended: bool,
}

impl View for PreviewOpening {
    type V = OpeningModel;

    open spec fn view(&self) -> OpeningModel {
        OpeningModel {
            sample: self.sample@,
            reads: self.reads as nat,
            followup: self.followup,
            ended: self.ended,
        }
    }
}

/// Whether another line is wanted: the first in any case, and up to three more, as long
/// as the sample is small and the input goes on.
pub open spec fn wants_line(m: OpeningModel) -> bool {
    m.reads == 0 || (m.followup && !m.ended && m.reads < 4 && (vstd::utf8::encode_utf8(
        m.sample,
    ).len() as usize) < 8192)
}

/// What was read, with one more line. The first decides whether more are wanted.
pub open spec fn after_line(
    m: OpeningModel,
    line: Option<Seq<char>>,
    requested: Option<u8>,
    from_path: bool,
) -> OpeningModel {
    let added = match line {
        Some(line) => m.sample + line,
        None => m.sample,
    };
    if m.reads == 0 {
        OpeningModel {
            sample: added,
            reads: 1,
            followup: wants_more_lines(added, requested, from_path),
            ended: false,
        }
    } else {
        match line {
            Some(_) => OpeningModel { sample: added, reads: m.reads + 1, ..m },
            None => OpeningModel { ended: true, ..m },
        }
    }
}

impl PreviewOpening {
    /// Before anything is read.
    pub fn new() -> (r: PreviewOpening)
        ensures
            r@ == (OpeningModel {
                sample: Seq::empty(),
                reads: 0,
                followup: false,
                ended: false,
            }),
    {
        let sample = String::new();
        assert(sample@ =~= Seq::<char>::empty());
        PreviewOpening { sample, reads: 0, followup: false, ended: false }
    }

    /// Whether another line is wanted.
    pub fn wants_line(&self) -> (r: bool)
        ensures
            r == wants_line(self@),
    {
        self.reads == 0 || (self.followup && !self.ended && reads_followup_line(
            self.sample.as_str().len(),
            self.reads - 1,
        ))
    }

    /// Takes a line that was read, or that there is none.
    pub fn take_line(&mut self, line: Option<&str>, requested: Option<u8>, from_path: bool)
        requires
            wants_line(old(self)@),
        ensures
            final(self)@ == after_line(old(self)@, text::opt_str_view(line), requested, from_path),
    {
        let first = self.reads == 0;
        match line {
            Some(text) => {
                self.sample.append(text);
                self.reads = self.reads + 1;
            },
            None => {
                if first {
                    self.reads = 1;
                } else {
                    self.ended = true;
                }
            },
        }
        if first {
            self.ended = false;
            self.followup = needs_followup(&self.sample, requested, from_path);
        }
    }
}

/// What came of reading a record.
#[derive(Debug, PartialEq, Eq)]
pub enum RecordRead {
    Record(Vec<String>),
    End,
    Failed(String),
}

/// What the records read so far come to.
#[derive(Debug, PartialEq, Eq)]
pub enum SampleStep {
    More,
    Done,
    Failed(String),
}

/// Takes up one of the first records of an input, of which two are read. One that
/// cannot be read is a fault, unless the first is enough.
pub fn sample_record(records: &mut Vec<Vec<String>>, read: RecordRead, limit: Option<RowLimit>) -> (r:
    SampleStep)
    requires
        old(records)@.len() < 2,
    ensures
        match read {
            RecordRead::Record(record) => {
                &&& final(records)@ == old(records)@.push(record)
                &&& r == if old(records)@.len() == 1 {
                    SampleStep::Done
                } else {
                    SampleStep::More
                }
            },
            RecordRead::End => final(records)@ == old(records)@ && r is Done,
            RecordRead::Failed(message) => {
                &&& final(records)@ == old(records)@
                &&& r == if limit is Some && limit->0.value() == 1 && old(records)@.len() == 1 {
                    SampleStep::Done
                } else {
                    SampleStep::Failed(message)
                }
            },
        },
{
    match read {
        RecordRead::Record(record) => {
            records.push(record);
            if records.len() == 2 {
                SampleStep::Done
            } else {
                SampleStep::More
            }
        },
        RecordRead::End => SampleStep::Done,
        RecordRead::Failed(message) => if tolerates_record_error(limit, records.len()) {
            SampleStep::Done
        } else {
            SampleStep::Failed(message)
        },
    }
}

/// A table that takes records one at a time.
#[derive(Debug)]
pub struct SequentialDelimited {
    pub generation: SourceGeneration,
    pub columns: Vec<ColumnDefinition>,
    pub relation: RelationMetadata,
    pub initial_columns: usize,
    pub rows: Vec<Vec<String>>,
    pub eof: bool,
}

/// The model of a table that takes records one at a time.
pub struct SequentialModel {
    pub generation: SourceGeneration,
    pub columns: Seq<ColumnModel>,
    pub initial_columns: nat,
    pub rows: Seq<Seq<Seq<char>>>,
    pub eof: bool,
}

impl View for SequentialDelimited {
    type V = SequentialModel;

    open spec fn view(&self) -> SequentialModel {
        SequentialModel {
            generation: self.generation,
            columns: table::column_views(self.columns@),
            initial_columns: self.initial_columns as nat,
            rows: text::row_views(self.rows@),
            eof: self.eof,
        }
    }
}

/// The part of some rows that the columns are read from: a header and one row.
pub open spec fn seed_rows(sample: Seq<Seq<Seq<char>>>) -> Seq<Seq<Seq<char>>> {
    let n = delimited_table::header_row_count(sample) + 1;
    if n < sample.len() {
        sample.take(n as int)
    } else {
        sample
    }
}

/// The table that the first records open: they name the columns, and the first
/// record behind the header is the first row.
pub open spec fn opened(
    generation: SourceGeneration,
    sample: Seq<Seq<Seq<char>>>,
) -> SequentialModel {
    let h = delimited_table::header_row_count(sample) as int;
    SequentialModel {
        generation,
        columns: delimited_table::delimited_columns(generation, seed_rows(sample)),
        initial_columns: if h == 1 {
            sample[0].len()
        } else {
            0
        },
        rows: if h < sample.len() {
            seq![sample[h]]
        } else {
            Seq::empty()
        },
        eof: false,
    }
}

/// The records of the sample that still wait behind the first row.
pub open spec fn waiting(sample: Seq<Seq<Seq<char>>>) -> Seq<Seq<Seq<char>>> {
    sample.skip(seed_rows(sample).len() as int)
}

/// A table after one more record, which may bring new columns.
pub open spec fn with_record(s: SequentialModel, record: Seq<Seq<char>>) -> SequentialModel {
    SequentialModel {
        columns: delimited_table::extended_columns(s.generation, s.columns, record.len()),
        rows: s.rows.push(record),
        ..s
    }
}

/// A table after several more records.
pub open spec fn with_records(s: SequentialModel, records: Seq<Seq<Seq<char>>>) -> SequentialModel
    decreases records.len(),
{
    if records.len() == 0 {
        s
    } else {
        with_record(with_records(s, records.drop_last()), records.last())
    }
}

/// How many bytes the first `n` cells of a record take in UTF-8, on top of those
/// counted before.
pub open spec fn cell_bytes(before: u64, record: Seq<Seq<char>>, n: int) -> u64
    decreases n,
{
    if n <= 0 || n > record.len() {
        before
    } else {
        cell_bytes(before, record, n - 1).saturating_add(
            (vstd::utf8::encode_utf8(record[n - 1]).len() as usize) as u64,
        )
    }
}

/// How many bytes the cells of some records take in UTF-8.
pub open spec fn record_bytes(records: Seq<Seq<Seq<char>>>) -> u64
    decreases records.len(),
{
    if records.len() == 0 {
        0
    } else {
        let last = records.last();
        cell_bytes(record_bytes(records.drop_last()), last, last.len() as int)
    }
}

fn count_cells(before: u64, record: &Vec<String>) -> (r: u64)
    ensures
        r == cell_bytes(before, text::views(record@), record@.len() as int),
{
    let ghost all = text::views(record@);
    let mut bytes: u64 = before;
    let mut i: usize = 0;
    while i < record.len()
        invariant
            i <= record@.len(),
            all == text::views(record@),
            bytes == cell_bytes(before, all, i as int),
        decreases record@.len() - i,
    {
        assert(all[i as int] == record@[i as int]@);
        bytes = bytes.saturating_add(record[i].as_str().len() as u64);
        i = i + 1;
    }
    bytes
}

/// A copy of some rows.
fn copy_rows(rows: &Vec<Vec<String>>, from: usize, to: usize) -> (r: Vec<Vec<String>>)
    requires
        from <= to <= rows@.len(),
    ensures
        text::row_views(r@) == text::row_views(rows@).subrange(from as int, to as int),
{
    let mut out: Vec<Vec<String>> = Vec::new();
    let mut i: usize = from;
    while i < to
        invariant
            from <= i <= to <= rows@.len(),
            out@.len() == i - from,
            forall|k: int|
                0 <= k < i - from ==> text::views((#[trigger] out@[k])@) == text::views(rows@[from + k]@),
        decreases to - i,
    {
        let row = rows[i].clone();
        assert(text::views(row@) =~= text::views(rows@[i as int]@));
        out.push(row);
        i = i + 1;
    }
    assert(text::row_views(out@) =~= text::row_views(rows@).subrange(from as int, to as int));
    out
}

impl SequentialDelimited {
    /// Opens a table on the first records of an input, and hands back those of
    /// them that wait behind the first row.
    pub fn open(
        generation: SourceGeneration,
        sample: &Vec<Vec<String>>,
        display_name: String,
    ) -> (r: (SequentialDelimited, Vec<Vec<String>>))
        ensures
            r.0@ == opened(generation, text::row_views(sample@)),
            text::row_views(r.1@) == waiting(text::row_views(sample@)),
            r.0.relation.name == display_name,
            r.0.relation.display_name == display_name,
            r.0.relation.header_visible == delimited_table::has_header(seed_rows(text::row_views(sample@))),
    {
        let ghost model = text::row_views(sample@);
        let (_, header_rows) = delimited_definition(generation, sample, display_name.clone());
        let seed_end: usize = if header_rows + 1 < sample.len() {
            header_rows + 1
        } else {
            sample.len()
        };
        let seed = copy_rows(sample, 0, seed_end);
        assert(text::row_views(seed@) =~= seed_rows(model));
        let (definition, _) = delimited_definition(generation, &seed, display_name);
        let initial_columns: usize = if header_rows == 1 {
            assert(model[0] == text::views(sample@[0]@));
            sample[0].len()
        } else {
            0
        };
        let rows = if header_rows < sample.len() {
            copy_rows(sample, header_rows, header_rows + 1)
        } else {
            Vec::new()
        };
        proof {
            let h = header_rows as int;
            if h < model.len() {
                assert(text::row_views(rows@) =~= seq![model[h]]);
            } else {
                assert(text::row_views(rows@) =~= Seq::<Seq<Seq<char>>>::empty());
            }
        }
        let rest = copy_rows(sample, seed_end, sample.len());
        assert(text::row_views(rest@) =~= waiting(model));
        let table = SequentialDelimited {
            generation,
            columns: definition.columns,
            relation: definition.relation,
            initial_columns,
            rows,
            eof: false,
        };
        (table, rest)
    }

    /// What the table shows when it is opened: its columns so far, of which a preview
    /// never says that they are all.
    pub fn definition(&self) -> (r: TableDefinition)
        ensures
            r.generation == self.generation,
            table::column_views(r.columns@) == self@.columns,
            r.schema_state is Provisional,
            r.relation == self.relation,
    {
        TableDefinition {
            generation: self.generation,
            columns: clone_columns(&self.columns),
            schema_state: SchemaState::Provisional,
            relation: self.relation.clone(),
        }
    }

    /// Whether another record is needed to know row `index`.
    pub fn wants_record(&self, index: usize) -> (r: bool)
        ensures
            r == (!self@.eof && self@.rows.len() <= index),
    {
        !self.eof && self.rows.len() <= index
    }

    /// Takes one more record, and reports the columns that it brought.
    pub fn push_record(&mut self, record: Vec<String>) -> (r: Vec<ColumnDefinition>)
        ensures
            final(self)@ == with_record(old(self)@, text::views(record@)),
            table::column_views(r@) == final(self)@.columns.skip(old(self)@.columns.len() as int),
            final(self).relation == old(self).relation,
    {
        let ghost start = self@;
        let ghost before = self.columns@;
        let previous: usize = self.columns.len();
        let n: usize = record.len();
        while self.columns.len() < n
            invariant
                before.len() <= self.columns@.len() <= delimited_table::larger(before.len(), n as nat),
                self@ == (SequentialModel { columns: table::column_views(self.columns@), ..start }),
                self.relation == old(self).relation,
                forall|k: int|
                    0 <= k < self.columns@.len() ==> (#[trigger] self.columns@[k])@ == (if k
                        < before.len() {
                        before[k]@
                    } else {
                        delimited_table::delimited_column_model(start.generation, k as usize, None)
                    }),
            decreases n - self.columns@.len(),
        {
            let column = delimited_column(self.generation, self.columns.len(), None);
            self.columns.push(column);
        }
        assert(table::column_views(self.columns@) =~= delimited_table::extended_columns(
            start.generation,
            table::column_views(before),
            n as nat,
        ));
        let ghost rows = self.rows@;
        let ghost cells = text::views(record@);
        self.rows.push(record);
        assert(text::row_views(self.rows@) =~= text::row_views(rows).push(cells));
        clone_columns_from(&self.columns, previous)
    }

    /// Notes that the input has no more records.
    pub fn finish(&mut self)
        ensures
            final(self)@ == (SequentialModel { eof: true, ..old(self)@ }),
            final(self).relation == old(self).relation,
    {
        self.eof = true;
    }

    /// Reads on until row `index` is known or the records run out: `records` are
    /// those that follow, and `ended` says that nothing comes after them. Gives
    /// what was learnt and how many of the records were taken.
    pub fn ensure_indexed_through(
        &mut self,
        index: usize,
        records: &Vec<Vec<String>>,
        ended: bool,
    ) -> (r: (IndexProgress, usize))
        ensures
            final(self).relation == old(self).relation,
            ({
                let all = text::row_views(records@);
                let wanted = if old(self)@.eof || old(self)@.rows.len() > index {
                    0
                } else {
                    index + 1 - old(self)@.rows.len()
                };
                let taken = if wanted <= all.len() {
                    wanted as int
                } else {
                    all.len() as int
                };
                let read = with_records(old(self)@, all.take(taken));
                let eof = old(self)@.eof || (ended && wanted > all.len());
                &&& r.1 == taken
                &&& final(self)@ == (SequentialModel { eof, ..read })
                &&& r.0.row_count == (if eof {
                    RowCount::Exact(read.rows.len() as usize)
                } else {
                    RowCount::AtLeast(read.rows.len() as usize)
                })
                &&& r.0.bytes_scanned == record_bytes(all.take(taken))
                &&& r.0.schema_delta@ == (DeltaModel {
                    added: final(self)@.columns.skip(old(self)@.columns.len() as int),
                    widened: Seq::empty(),
                    completed: eof,
                })
            }),
    {
        let ghost start = self@;
        let ghost all = text::row_views(records@);
        let previous: usize = self.columns.len();
        let mut taken: usize = 0;
        let mut bytes: u64 = 0;
        assert(all.take(0) =~= Seq::<Seq<Seq<char>>>::empty());
        while taken < records.len() && !self.eof && self.rows.len() <= index
            invariant
                taken <= records.len(),
                all == text::row_views(records@),
                self@ == with_records(start, all.take(taken as int)),
                self.relation == old(self).relation,
                bytes == record_bytes(all.take(taken as int)),
                self@.eof == start.eof,
                self@.rows.len() == start.rows.len() + taken,
                self@.columns.len() >= start.columns.len(),
                previous == start.columns.len(),
                taken > 0 ==> !start.eof && start.rows.len() + taken <= index + 1,
            decreases records.len() - taken,
        {
            let record = records[taken].clone();
            assert(text::views(record@) =~= text::views(records@[taken as int]@));
            bytes = count_cells(bytes, &record);
            assert(text::views(record@) == all[taken as int]);
            let _ = self.push_record(record);
            assert(all.take(taken + 1).drop_last() =~= all.take(taken as int));
            taken = taken + 1;
        }
        if ended && !self.eof && self.rows.len() <= index {
            self.eof = true;
        }
        let added_columns = clone_columns_from(&self.columns, previous);
        let delta = SchemaDelta { added_columns, widened_types: Vec::new(), completed: self.eof };
        assert(delta.widened_types@ =~= Seq::<TypeWidening>::empty());
        let progress = IndexProgress {
            row_count: self.row_count(),
            schema_delta: delta,
            bytes_scanned: bytes,
        };
        (progress, taken)
    }

    /// How many rows are known: the exact number once the input has ended.
    pub fn row_count(&self) -> (r: RowCount)
        ensures
            r == (if self@.eof {
                RowCount::Exact(self@.rows.len() as usize)
            } else {
                RowCount::AtLeast(self@.rows.len() as usize)
            }),
    {
        if self.eof {
            RowCount::Exact(self.rows.len())
        } else {
            RowCount::AtLeast(self.rows.len())
        }
    }

    /// The row at some place, where it has been read.
    pub fn row(&self, index: usize) -> (r: Option<Row>)
        ensures
            r is Some <==> index < self@.rows.len(),
            r matches Some(row) ==> {
                &&& row.id == (RowId { generation: self.generation, ordinal: index as u64 })
                &&& table::cell_views(row.cells@) == delimited_table::text_cells(self@.rows[index as int])
            },
    {
        if index < self.rows.len() {
            let cells = text_row(&self.rows[index]);
            Some(Row { id: RowId { generation: self.generation, ordinal: index as u64 }, cells })
        } else {
            None
        }
    }

    /// How many columns count as present in a row, from the first on: those that
    /// it has cells for, and those of the header.
    pub fn present_columns(&self, index: usize) -> (r: Option<usize>)
        ensures
            r is Some <==> index < self@.rows.len(),
            r matches Some(n) ==> n == delimited_table::larger(
                self@.rows[index as int].len(),
                self@.initial_columns,
            ),
    {
        if index < self.rows.len() {
            let n: usize = self.rows[index].len();
            if n > self.initial_columns {
                Some(n)
            } else {
                Some(self.initial_columns)
            }
        } else {
            None
        }
    }
}

/// Taking records never takes columns away or renames them.
pub proof fn records_only_add_columns(s: SequentialModel, records: Seq<Seq<Seq<char>>>)
    ensures
        with_records(s, records).columns.len() >= s.columns.len(),
        with_records(s, records).columns.take(s.columns.len() as int) == s.columns,
        with_records(s, records).rows == s.rows + records,
    decreases records.len(),
{
    let n = s.columns.len() as int;
    if records.len() == 0 {
        assert(s.columns.take(n) =~= s.columns);
        assert(s.rows + records =~= s.rows);
    } else {
        records_only_add_columns(s, records.drop_last());
        let front = with_records(s, records.drop_last());
        let all = with_records(s, records);
        assert(all.columns.take(n) =~= front.columns.take(n));
        assert((s.rows + records.drop_last()).push(records.last()) =~= s.rows + records);
    }
}

// ---------------------------------------------------------------------------
// Laws
// ---------------------------------------------------------------------------

/// Nothing is read ahead where the encoding is asked for or there is no file; a preview
/// reads less ahead than a table.
pub proof fn previews_read_less_ahead()
    ensures
        encoding_probe(true, true, true) == 0,
        encoding_probe(false, false, true) == 0,
        encoding_probe(true, false, false) == 0,
        encoding_probe(false, true, true) == 8 * 1024,
        encoding_probe(false, true, false) == 1024 * 1024,
{
}

/// More lines are wanted while the delimiter is not known: where the first line is empty
/// or a comment, or where none is found in a file.
pub proof fn lines_are_wanted_until_one_tells(sample: Seq<char>, d: u8, from_path: bool)
    ensures
        !wants_more_lines(sample, Some(d), from_path),
        wants_more_lines(Seq::empty(), None, from_path),
        !first_line_is_empty(sample) ==> (wants_more_lines(sample, None, from_path) <==> from_path
            && delimited::sniffed(sample) is None),
        first_line_is_empty(sample) ==> wants_more_lines(sample, None, from_path),
{
    let none = Seq::<char>::empty();
    assert(text::split_on(none, '\n') =~= seq![none]);
    assert(text::lines(none).len() == 0);
}

/// A first line is empty where it holds white space alone or is a comment.
pub proof fn comments_are_empty_lines(line: Seq<char>)
    requires
        text::lacks(line, '\n'),
        line.len() > 0,
    ensures
        text::trimmed(line).len() == 0 ==> first_line_is_empty(line),
        text::skip_white(line).len() > 0 && (text::skip_white(line)[0] == '#' || text::skip_white(
            line,
        )[0] == '%') ==> first_line_is_empty(line),
        text::trimmed(line).len() > 0 && text::skip_white(line).len() > 0 && text::skip_white(
            line,
        )[0] != '#' && text::skip_white(line)[0] != '%' ==> !first_line_is_empty(line),
{
    let none = Seq::<char>::empty();
    text::lines_end_at_line_feeds(none, line);
    assert(none + line =~= line);
    assert(text::lines(none).push(line)[0] == line);
}

/// A line of white space is no record, and any other is its words, the first without its
/// comment mark.
pub proof fn spaced_records_are_their_words(line: Seq<char>)
    ensures
        text::trimmed(line).len() == 0 ==> space_record_words(line, false) is None,
        text::trimmed(line).len() > 0 ==> space_record_words(line, false) == Some(
            delimited::shell_words(line, None, Seq::empty()),
        ),
        space_record_words(line, true) == space_record_words(
            delimited::without_comment_mark(line),
            false,
        ),
{
}

/// The first line is always read; further ones while they are wanted, up to four, while
/// the sample is small and the input goes on.
pub proof fn few_lines_are_read_ahead(
    m: OpeningModel,
    line: Seq<char>,
    requested: Option<u8>,
    from_path: bool,
)
    ensures
        m.reads == 0 ==> wants_line(m),
        m.reads >= 4 ==> !wants_line(m),
        m.reads > 0 && (m.ended || !m.followup) ==> !wants_line(m),
        after_line(m, Some(line), requested, from_path).reads == m.reads + 1,
        after_line(m, Some(line), requested, from_path).sample == m.sample + line,
        after_line(m, None, requested, from_path).sample == m.sample,
        m.reads > 0 ==> after_line(m, None, requested, from_path).ended,
        m.reads > 0 ==> after_line(m, Some(line), requested, from_path).followup == m.followup,
        m.reads == 0 ==> after_line(m, Some(line), requested, from_path).followup
            == wants_more_lines(m.sample + line, requested, from_path),
{
}

/// A preview opens with the columns of its header and its first row, and the rest of the
/// sample waits behind them in its order.
pub proof fn previews_open_with_one_row(generation: SourceGeneration, sample: Seq<Seq<Seq<char>>>)
    ensures
        seed_rows(sample) + waiting(sample) == sample,
        ({
            let opened = opened(generation, sample);
            let h = delimited_table::has_header(sample);
            &&& !opened.eof
            &&& h ==> opened.rows == seq![sample[1]] && opened.initial_columns == sample[0].len()
            &&& !h && sample.len() > 0 ==> opened.rows == seq![sample[0]]
                && opened.initial_columns == 0
            &&& sample.len() == 0 ==> opened.rows.len() == 0
            &&& h ==> seed_rows(sample).len() == 2
            &&& !h && sample.len() > 0 ==> seed_rows(sample).len() == 1
        }),
{
    assert(seed_rows(sample) + waiting(sample) =~= sample);
}

/// Records are added behind the rows in their order.
pub proof fn records_follow_in_order(
    s: SequentialModel,
    records: Seq<Seq<Seq<char>>>,
    record: Seq<Seq<char>>,
)
    ensures
        with_records(s, Seq::empty()) == s,
        with_records(s, records.push(record)).rows == with_records(s, records).rows.push(record),
        with_records(s, records).rows == s.rows + records,
    decreases records.len(),
{
    assert(records.push(record).drop_last() =~= records);
    if records.len() > 0 {
        records_follow_in_order(s, records.drop_last(), record);
        assert(s.rows + records =~= (s.rows + records.drop_last()).push(records.last()));
    } else {
        assert(s.rows + records =~= s.rows);
    }
}

/// The size of records is that of their cells in UTF-8, all together.
pub proof fn sizes_add_up(records: Seq<Seq<Seq<char>>>, record: Seq<Seq<char>>, n: int, before: u64)
    requires
        0 <= n < record.len(),
        vstd::utf8::encode_utf8(record[n]).len() <= usize::MAX,
    ensures
        record_bytes(Seq::empty()) == 0,
        record_bytes(records.push(record)) == cell_bytes(
            record_bytes(records),
            record,
            record.len() as int,
        ),
        cell_bytes(before, record, 0) == before,
        cell_bytes(before, record, n) + vstd::utf8::encode_utf8(record[n]).len() <= u64::MAX
            ==> cell_bytes(before, record, n + 1) == cell_bytes(before, record, n)
            + vstd::utf8::encode_utf8(record[n]).len(),
{
    assert(records.push(record).drop_last() =~= records);
}

} // verus!
