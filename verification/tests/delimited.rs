//! Encodings, delimited rows and tables of them.

use std::io::{BufRead, BufReader, Read};

use tview::adapter::{open_delimited_rows, OpenedTable};
use tview::delimited::{
    normalize_space_delimited, pad_rows, parse_rows, sniff_delimiter, split_shell_like,
};
use tview::delimited_preview::{
    preview_delimiter, sample_record, PreviewOpening, RecordRead, SampleStep, SequentialDelimited,
};
use tview::delimited_table::{
    complete_delimited_prefix, streaming_encoding_is_incremental, InMemoryTable, Snapshot,
    StreamingDelimitedTable,
};
use tview::encoding::{
    compatibility_encoding_labels_with_locale, decode_input, decode_with_label, encoding_for_label,
    encoding_label_from_locale, IngestError,
};
use tview::options::{OpenOptions, ParseOptions, Quoting};
use tview::table::{
    CellValue, ColumnSourceIdentity, RowCount, RowLimit, SchemaState, SourceGeneration,
};

const GENERATION: SourceGeneration = SourceGeneration { number: 7 };

fn strings(values: &[&str]) -> Vec<String> {
    values.iter().map(|value| (*value).to_owned()).collect()
}

fn texts(cells: &[CellValue]) -> Vec<String> {
    cells
        .iter()
        .map(|cell| match cell {
            CellValue::Text(text) => text.clone(),
            _ => panic!("cell is no text"),
        })
        .collect()
}

#[test]
fn pads_rows_to_rectangular_shape() {
    let rows = pad_rows(vec![vec!["a".to_owned(), "b".to_owned()], vec!["c".to_owned()]]);
    assert_eq!(rows[1], vec!["c".to_owned(), String::new()]);
}

#[test]
fn sniffs_common_delimiters() {
    assert_eq!(sniff_delimiter("a,b,c\n1,2,3\n"), Some(b','));
    assert_eq!(sniff_delimiter("a\tb\tc\n1\t2\t3\n"), Some(b'\t'));
}

#[test]
fn normalizes_annotated_space_delimited_input() {
    let normalized = normalize_space_delimited("# A   B \"C D\"\n1   2  3\n");
    assert_eq!(normalized, "A B C D\n1 2 3");
}

#[test]
fn decodes_cp720_label() {
    let decoded = decode_input(&[0x9F, 0xA0, 0xEF], Some("cp720"), &None).expect("cp720");
    assert_eq!(decoded.text, "ابي");
    assert_eq!(decoded.encoding, "cp720");
}

#[test]
fn automatic_decoding_uses_latin1_as_late_fallback() {
    let decoded = decode_input("plain utf8".as_bytes(), None, &None).expect("utf-8");
    assert_eq!(decoded.encoding, "utf-8");
}

#[test]
fn extracts_encoding_label_from_posix_locale() {
    assert_eq!(encoding_label_from_locale("en_US.ISO8859-2@euro"), Some("iso8859-2".to_owned()));
    assert_eq!(encoding_label_from_locale("C.UTF-8"), Some("utf-8".to_owned()));
    assert_eq!(encoding_label_from_locale("C"), None);
}

#[test]
fn compatibility_encoding_set_tries_locale_before_latin1_fallbacks() {
    assert_eq!(
        compatibility_encoding_labels_with_locale(Some("windows-1250".to_owned())),
        vec!["utf-8", "utf-16", "windows-1250", "iso8859-1", "iso8859-2", "cp720", "latin-1"]
    );
}

#[test]
fn latin1_bytes_fall_back_and_unknown_labels_fail() {
    let decoded = decode_input(&[b'P', b'i', b'q', b'u', 0xe9], None, &None).expect("fallback");
    assert_ne!(decoded.encoding, "utf-8");
    assert_eq!(decoded.text, "Piqué");
    assert!(matches!(
        decode_with_label(b"a", "no-such-encoding"),
        Err(IngestError::UnknownEncoding(_))
    ));
    assert_eq!(encoding_for_label("latin-1").as_deref(), Some("windows-1252"));
    assert!(decode_with_label(&[0xff, 0xff, 0xff], "utf-8").is_err());
    let marked = decode_with_label(&[0xff, 0xfe, b'a', 0], "utf-16").expect("marked");
    assert_eq!(marked.text, "a");
}

#[test]
fn records_are_read_with_quotes_and_any_line_end() {
    let rows = parse_rows(
        b"Col1,Col2,Col3\r\n1,2,3\r\n1,2,3\r\n1,2,3\r\n",
        &ParseOptions::default(),
        &None,
    )
    .expect("rows");
    assert_eq!(rows.len(), 4);
    assert_eq!(rows[0], ["Col1", "Col2", "Col3"]);
    assert!(rows.iter().skip(1).all(|row| row == &["1", "2", "3"]));

    let quoted = parse_rows(b"a,b\n\"x,\"\"y\"\"\",2\n", &ParseOptions::default(), &None).unwrap();
    assert_eq!(quoted[1], ["x,\"y\"", "2"]);
    let unquoted = parse_rows(
        b"a,b\n\"x,2\n",
        &ParseOptions { quoting: Some(Quoting::Never), ..ParseOptions::default() },
        &None,
    )
    .unwrap();
    assert_eq!(unquoted[1], ["\"x", "2"]);
    let spaced = parse_rows(b"# A B \"C D\"\n1   2  3\n", &ParseOptions::default(), &None).unwrap();
    assert_eq!(spaced[1], ["1", "2", "3", ""]);
    assert_eq!(split_shell_like("a 'b c' d"), ["a", "b c", "d"]);
}

#[test]
fn moves_header_classification_into_table_definition() {
    let opened = open_delimited_rows(
        vec![
            vec!["name".to_owned(), "name".to_owned(), String::new()],
            vec!["a".to_owned(), "b".to_owned(), String::new()],
        ],
        "data.csv".to_owned(),
        GENERATION,
    );
    assert!(opened.definition.relation.header_visible);
    assert_eq!(opened.definition.columns[0].display_name, "name");
    assert_eq!(opened.definition.columns[1].display_name, "name");
    assert_ne!(opened.definition.columns[0].id, opened.definition.columns[1].id);
    assert_eq!(opened.definition.columns[2].display_name, "Column 3");
    assert_eq!(opened.store.row_count(), RowCount::Exact(1));
    assert_eq!(
        opened.store.row(0).expect("row").cells,
        vec![
            CellValue::Text("a".to_owned()),
            CellValue::Text("b".to_owned()),
            CellValue::Text(String::new())
        ]
    );
}

#[test]
fn headerless_columns_have_stable_generated_definitions() {
    let opened: OpenedTable<InMemoryTable> = open_delimited_rows(
        vec![strings(&["1", "2"]), strings(&["3", "4"])],
        "numbers.csv".to_owned(),
        GENERATION,
    );
    assert!(!opened.definition.relation.header_visible);
    assert_eq!(opened.definition.columns[0].display_name, "Column 1");
    assert!(matches!(
        opened.definition.columns[0].source_identity,
        ColumnSourceIdentity::Delimited { ordinal: 0, name: None }
    ));
}

#[test]
fn complete_record_prefix_ignores_newlines_inside_quotes() {
    let bytes = b"name,note\n\"a\",\"line 1\nline 2\"\n\"b\",\"pending";

    assert_eq!(
        complete_delimited_prefix(bytes, b'"', true, false),
        b"name,note\n\"a\",\"line 1\nline 2\"\n".len()
    );
    assert_eq!(complete_delimited_prefix(bytes, b'"', true, true), bytes.len());
}

fn snapshot(bytes: &[u8], complete: bool) -> Snapshot {
    Snapshot { bytes: bytes.to_vec(), complete }
}

fn streaming() -> StreamingDelimitedTable {
    StreamingDelimitedTable::new(GENERATION, ParseOptions::default(), "stdin".to_owned())
}

#[test]
fn streaming_stdin_exposes_rows_before_eof_and_completes_on_demand() {
    let mut table = streaming();
    table.refresh(&snapshot(b"name,value\na,1\n", false), &None).expect("open streaming input");
    assert_eq!(table.row_count(), RowCount::AtLeast(1));
    assert_eq!(texts(&table.row(0).unwrap().cells), ["a", "1"]);

    let progress = table
        .ensure_indexed_through(&snapshot(b"name,value\na,1\nb,2\n", false), &None)
        .expect("refresh available rows");
    assert_eq!(progress.row_count, RowCount::AtLeast(2));
    let progress = table
        .ensure_indexed_through(&snapshot(b"name,value\na,1\nb,2\n", true), &None)
        .expect("finish stream");
    assert_eq!(progress.row_count, RowCount::Exact(2));
    assert!(progress.schema_delta.completed);
}

#[test]
fn streaming_parser_appends_complete_multiline_records_without_duplicates() {
    let start = b"name,note\n\"a\",\"line 1\nline 2\"\n\"b\",\"pending".to_vec();
    let mut table = streaming();
    table.refresh(&snapshot(&start, false), &None).expect("open streaming input");
    assert_eq!(table.row_count(), RowCount::AtLeast(1));
    assert_eq!(texts(&table.row(0).unwrap().cells), ["a", "line 1\nline 2"]);

    let mut whole = start;
    whole.extend_from_slice(b"\"\n");
    let progress =
        table.ensure_indexed_through(&snapshot(&whole, true), &None).expect("finish stream");
    assert_eq!(progress.row_count, RowCount::Exact(2));
    assert_eq!(texts(&table.row(1).unwrap().cells), ["b", "pending"]);
}

#[test]
fn streaming_parser_extends_schema_and_pads_prior_rows() {
    let mut table = streaming();
    table.refresh(&snapshot(b"a,b\n1,2\n", false), &None).expect("open streaming input");
    let progress = table
        .ensure_indexed_through(&snapshot(b"a,b\n1,2\n3,4,5\n", false), &None)
        .expect("refresh rows");
    assert_eq!(progress.schema_delta.added_columns.len(), 1);
    assert_eq!(texts(&table.row(0).unwrap().cells), ["1", "2", ""]);
    assert_eq!(texts(&table.row(1).unwrap().cells), ["3", "4", "5"]);
}

#[test]
fn wide_encodings_are_not_read_piecewise() {
    let options = ParseOptions { encoding: Some("utf-16".to_owned()), ..ParseOptions::default() };
    assert!(!streaming_encoding_is_incremental(&options, b"a"));
    assert!(streaming_encoding_is_incremental(&ParseOptions::default(), b"a,b\n"));
}

struct Counting<R> {
    inner: R,
    count: std::rc::Rc<std::cell::Cell<usize>>,
}

impl<R: Read> Read for Counting<R> {
    fn read(&mut self, out: &mut [u8]) -> std::io::Result<usize> {
        let n = self.inner.read(out)?;
        self.count.set(self.count.get() + n);
        Ok(n)
    }
}

#[test]
fn preview_reads_are_bounded_regardless_of_lazy_threshold() {
    for threshold in [1, u64::MAX] {
        let count = std::rc::Rc::new(std::cell::Cell::new(0));
        let input = std::io::Cursor::new(b"A,B\n1,x\n2,y\n3,z\n".to_vec())
            .chain(std::io::repeat(b'x').take(200 * 1024 * 1024));
        let mut input = BufReader::new(Counting { inner: input, count: count.clone() });
        let options = OpenOptions {
            preview: true,
            lazy_threshold_bytes: threshold,
            ..OpenOptions::default()
        };

        let mut opening = PreviewOpening::new();
        while opening.wants_line() {
            let mut line = String::new();
            let read = input.read_line(&mut line).unwrap();
            let taken = if read == 0 { None } else { Some(line.as_str()) };
            opening.take_line(taken, options.delimited.delimiter, false);
        }
        let delimiter = preview_delimiter(&opening.sample, &options.delimited);
        let replay = std::io::Cursor::new(opening.sample.clone().into_bytes()).chain(input);
        let mut records = csv::ReaderBuilder::new()
            .has_headers(false)
            .flexible(true)
            .delimiter(delimiter)
            .from_reader(replay);
        let mut next = || {
            let mut record = csv::StringRecord::new();
            match records.read_record(&mut record) {
                Ok(true) => RecordRead::Record(record.iter().map(str::to_owned).collect()),
                Ok(false) => RecordRead::End,
                Err(error) => RecordRead::Failed(error.to_string()),
            }
        };
        let mut sample: Vec<Vec<String>> = Vec::new();
        while sample_record(&mut sample, next(), options.limit) == SampleStep::More {}
        let (mut table, mut waiting) =
            SequentialDelimited::open(GENERATION, &sample, "stdin".to_owned());
        while table.wants_record(2) {
            let record = if waiting.is_empty() {
                next()
            } else {
                RecordRead::Record(waiting.remove(0))
            };
            match record {
                RecordRead::Record(record) => {
                    table.push_record(record);
                }
                RecordRead::End => table.finish(),
                RecordRead::Failed(error) => panic!("{error}"),
            }
        }
        assert_eq!(table.row_count(), RowCount::AtLeast(3));
        assert_eq!(texts(&table.row(2).unwrap().cells), ["3", "z"]);
        assert!(count.get() <= 8192);
    }
}

#[test]
fn a_preview_of_one_row_needs_only_the_first_record() {
    let failed = || RecordRead::Failed("bad record".to_owned());
    let mut one = vec![strings(&["a"])];
    assert_eq!(sample_record(&mut one, failed(), RowLimit::new(1)), SampleStep::Done);
    assert_eq!(
        sample_record(&mut one, failed(), RowLimit::new(2)),
        SampleStep::Failed("bad record".to_owned())
    );
    let mut none: Vec<Vec<String>> = Vec::new();
    assert_eq!(
        sample_record(&mut none, failed(), RowLimit::new(1)),
        SampleStep::Failed("bad record".to_owned())
    );
    assert_eq!(sample_record(&mut none, RecordRead::End, None), SampleStep::Done);
}

#[test]
fn leading_comments_are_followed_by_up_to_three_lines() {
    let mut opening = PreviewOpening::new();
    let lines = ["# note\n", "\n", "a|b\n", "1|2\n", "3|4\n"];
    let mut read = 0;
    while opening.wants_line() {
        opening.take_line(Some(lines[read]), None, false);
        read += 1;
    }
    assert_eq!(read, 4);
    assert_eq!(preview_delimiter(&opening.sample, &ParseOptions::default()), b'|');
}

#[test]
fn previews_tell_what_reading_on_brought() {
    let record = |cells: &[&str]| cells.iter().map(|cell| (*cell).to_owned()).collect::<Vec<_>>();
    let sample = vec![record(&["name", "value"]), record(&["a", "1"])];
    let (mut table, waiting) =
        SequentialDelimited::open(GENERATION, &sample, "data.csv".to_owned());
    assert!(waiting.is_empty());
    let records = vec![record(&["é", "22", "x"]), record(&["c", "3"])];
    let (progress, taken) = table.ensure_indexed_through(1, &records, true);
    assert_eq!(taken, 1);
    assert_eq!(progress.bytes_scanned, 5);
    assert_eq!(progress.row_count, RowCount::AtLeast(2));
    assert_eq!(progress.schema_delta.added_columns.len(), 1);
    let (progress, taken) = table.ensure_indexed_through(9, &records[1..].to_vec(), true);
    assert_eq!((taken, progress.bytes_scanned), (1, 2));
    assert_eq!(progress.row_count, RowCount::Exact(3));
}

#[test]
fn previews_of_delimited_text_are_provisional() {
    let record = |cells: &[&str]| cells.iter().map(|cell| (*cell).to_owned()).collect::<Vec<_>>();
    let sample = vec![record(&["name", "value"]), record(&["a", "1"])];
    let (mut table, _) = SequentialDelimited::open(GENERATION, &sample, "data.csv".to_owned());
    assert_eq!(table.definition().columns.len(), 2);
    table.push_record(record(&["b", "2", "x"]));
    table.finish();
    let definition = table.definition();
    assert_eq!(definition.generation, GENERATION);
    assert_eq!(definition.schema_state, SchemaState::Provisional);
    assert_eq!(definition.columns.len(), 3);
    assert_eq!(definition.relation.name, "data.csv");
    assert!(definition.relation.header_visible);
}

#[test]
fn valid_utf8_decodes_to_the_text_that_it_encodes() {
    for text in ["", "plain", "h\u{e9}llo \u{20ac} \u{1f600}", "\u{feff}marked", "line\r\n\0"] {
        for (requested, locale) in
            [(None, None), (None, Some("latin-1".to_owned())), (Some(" UTF_8 "), None)]
        {
            let decoded = decode_input(text.as_bytes(), requested, &locale).expect(text);
            assert_eq!(decoded.text, text);
            assert_eq!(decoded.encoding, "utf-8");
        }
    }
    for bytes in [&[0xff][..], &[b'a', 0xc3], &[0xed, 0xa0, 0x80], &[0xc0, 0x80]] {
        assert_eq!(decode_with_label(bytes, "utf-8"), Err(IngestError::DecodeFailed));
    }
}
