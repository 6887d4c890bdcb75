//! Walking over rows.

use tview::delimited_table::{Snapshot, StreamingDelimitedTable};
use tview::interaction::first_choice_of;
use tview::json_lazy::{open_lazy_json, open_lazy_ndjson, LazyJsonTable};
use tview::json_select::parse_json_rows_with_options;
use tview::json_table::{open_json_rows_with_metadata, open_streaming_json};
use tview::options::{InputFormat, ObjectMode, OpenOptions, ParseOptions};
use tview::row_sources::{FileView, RowPage};
use tview::startup::{table_choice, TableChoice};
use tview::table::{
    CellValue, RowCount, ScanDirection, ScanProgress, ScanRequest, ScanStep, SequentialScan,
    SourceGeneration,
};
use tview::walks::scan_rows;

const GENERATION: SourceGeneration = SourceGeneration { number: 9 };

fn forward(start: usize, max_rows: usize) -> ScanRequest {
    ScanRequest { start, direction: ScanDirection::Forward, max_rows }
}

fn backward(start: usize, max_rows: usize) -> ScanRequest {
    ScanRequest { start, direction: ScanDirection::Reverse, max_rows }
}

fn progress(visited: usize, next: Option<usize>, reached_end: bool) -> ScanProgress {
    ScanProgress { visited, next, reached_end }
}

fn places(page: &RowPage) -> Vec<usize> {
    page.rows.iter().map(|visited| visited.index).collect()
}

fn snapshot(text: &str, complete: bool) -> Snapshot {
    Snapshot { bytes: text.as_bytes().to_vec(), complete }
}

#[test]
fn rows_at_hand_are_walked_both_ways() {
    let options = OpenOptions::default();
    let bytes = br#"[{"a":1},{"a":2},{"a":3}]"#;
    let parsed = parse_json_rows_with_options(bytes, &None, &options).unwrap();
    let mut store = open_json_rows_with_metadata(
        parsed.rows,
        "rows".to_owned(),
        &options,
        parsed.object_mode,
        parsed.warnings,
        GENERATION,
    )
    .store;

    let mut page = RowPage::new(10);
    assert_eq!(scan_rows(&mut store, &(), forward(1, 10), &mut page), Ok(progress(2, None, true)));
    assert_eq!(places(&page), [1, 2]);
    assert_eq!(page.rows[1].row.cells, [CellValue::Integer(3)]);

    let mut page = RowPage::new(10);
    let found = scan_rows(&mut store, &(), forward(0, 2), &mut page);
    assert_eq!(found, Ok(progress(2, Some(2), false)));
    let found = scan_rows(&mut store, &(), backward(1, 10), &mut page);
    assert_eq!(found, Ok(progress(2, None, true)));
    assert_eq!(places(&page), [0, 1, 1, 0]);

    let mut page = RowPage::new(1);
    assert_eq!(scan_rows(&mut store, &(), forward(0, 9), &mut page), Ok(progress(1, None, false)));
    assert!(page.rows[0].stop);
    assert_eq!(scan_rows(&mut store, &(), forward(7, 9), &mut page), Ok(progress(0, None, true)));
}

#[test]
fn files_are_indexed_as_far_as_a_walk_goes() {
    let options = OpenOptions { schema_scan_bytes: 1, ..OpenOptions::default() };
    let bytes = br#"[{"a":1},{"a":2},{"b":3}]"#;
    let file = FileView { bytes, sample_hash: 4 };
    let opened = open_lazy_json(bytes, 4, "rows".to_owned(), &options, GENERATION).unwrap();
    let LazyJsonTable::Items(opened) = opened else {
        panic!("not an array");
    };
    let mut store = opened.store;
    let mut page = RowPage::new(10);
    let found = scan_rows(&mut store, &file, forward(0, 2), &mut page).unwrap();
    assert_eq!(found, progress(2, Some(2), false));
    assert_eq!(store.row_count(), RowCount::AtLeast(2));
    let found = scan_rows(&mut store, &file, forward(2, 5), &mut page).unwrap();
    assert_eq!(found, progress(1, None, true));
    assert_eq!(page.rows[2].row.cells, [CellValue::Null, CellValue::Integer(3)]);

    let changed = FileView { bytes: b"[]", sample_hash: 4 };
    let fault = scan_rows(&mut store, &changed, forward(0, 1), &mut page).unwrap_err();
    assert_eq!(fault.message(), store.materialize(b"[]", 4).unwrap_err().message());
    assert_eq!(page.rows.len(), 3);
}

#[test]
fn whole_files_have_every_column_in_every_row() {
    let options = OpenOptions { schema_scan_bytes: 1, ..OpenOptions::default() };
    let documents = b"{\"a\":1}\n{\"b\":2}\n";
    let mut store =
        open_lazy_ndjson(documents, 1, "rows".to_owned(), &options, GENERATION).unwrap().store;
    let table = store.materialize(documents, 1).unwrap();
    assert_eq!(
        table.rows,
        [
            [CellValue::Integer(1), CellValue::Null],
            [CellValue::Null, CellValue::Integer(2)],
        ]
    );

    let options = OpenOptions { object_mode: ObjectMode::Entries, ..options };
    let object = br#"{"x":{"v":1},"y":{"v":2}}"#;
    let opened = open_lazy_json(object, 1, "rows".to_owned(), &options, GENERATION).unwrap();
    let LazyJsonTable::Entries(opened) = opened else {
        panic!("not entries");
    };
    let mut store = opened.store;
    let table = store.materialize(object, 1).unwrap();
    assert_eq!(table.rows.len(), 2);
    assert_eq!(table.rows[1], [CellValue::Text("y".to_owned()), CellValue::Integer(2)]);
}

#[test]
fn streams_are_walked_as_far_as_they_have_arrived() {
    let mut table =
        StreamingDelimitedTable::new(GENERATION, ParseOptions::default(), "stdin".to_owned());
    let mut page = RowPage::new(10);
    let first = snapshot("name,value\na,1\nb,2", false);
    let found = table.scan_rows(&first, &None, forward(0, 5), &mut page);
    assert_eq!(found, Ok(progress(1, None, true)));
    let second = snapshot("name,value\na,1\nb,2\n", true);
    let found = table.scan_rows(&second, &None, forward(1, 5), &mut page);
    assert_eq!(found, Ok(progress(1, None, true)));
    assert_eq!(places(&page), [0, 1]);
    assert_eq!(page.rows[1].row.cells[0], CellValue::Text("b".to_owned()));

    let options = OpenOptions::default();
    let first = snapshot("{\"a\":1}\n", false);
    let mut table =
        open_streaming_json(&first, "stdin".to_owned(), InputFormat::Ndjson, &options, GENERATION)
            .unwrap()
            .store;
    let second = snapshot("{\"a\":1}\n{\"a\":2}\n", true);
    let mut page = RowPage::new(10);
    let found = table.scan_rows(&second, backward(1, 1), &mut page);
    assert_eq!(found, Ok(progress(1, Some(0), false)));
    assert_eq!(page.rows[0].row.cells, [CellValue::Integer(2)]);
    assert_eq!(table.materialize().rows.len(), 2);
    let broken = snapshot("{\"a\":1}\n{\"a\":2}\n{", true);
    assert!(table.scan_rows(&broken, forward(0, 1), &mut page).is_err());
    assert_eq!(page.rows.len(), 1);
}

fn walk(request: ScanRequest, rows: usize, stop_at: Option<usize>) -> (Vec<usize>, ScanProgress) {
    let mut scan = SequentialScan::begin(request);
    let mut seen = Vec::new();
    loop {
        match scan.step(rows) {
            ScanStep::Done(progress) => return (seen, progress),
            ScanStep::Visit(row) => {
                seen.push(row);
                if let Some(progress) = scan.visit(rows, stop_at == Some(row)) {
                    return (seen, progress);
                }
            }
        }
    }
}

#[test]
fn inputs_read_once_can_be_walked_on_after_a_stop() {
    assert_eq!(walk(forward(1, 9), 3, None), (vec![1, 2], progress(2, None, true)));
    assert_eq!(walk(forward(0, 2), 3, None), (vec![0, 1], progress(2, Some(2), false)));
    assert_eq!(walk(forward(0, 9), 3, Some(1)), (vec![0, 1], progress(2, Some(2), false)));
    assert_eq!(walk(backward(1, 9), 3, None), (vec![1, 0], progress(2, None, true)));
    assert_eq!(walk(backward(1, 9), 3, Some(0)), (vec![1, 0], progress(2, None, true)));
    assert_eq!(walk(backward(1, 1), 3, None), (vec![1], progress(1, Some(0), false)));
    assert_eq!(walk(forward(5, 2), 3, None), (vec![], progress(0, None, true)));
    assert_eq!(SequentialScan::begin(forward(4, 0)).wanted(), None);
    assert_eq!(SequentialScan::begin(forward(4, 1)).wanted(), Some(4));
}

#[test]
fn tables_are_asked_for_only_where_there_is_a_choice() {
    assert_eq!(table_choice(true, 3, true), TableChoice::Given);
    assert_eq!(table_choice(false, 3, true), TableChoice::Ask);
    assert_eq!(table_choice(false, 0, true), TableChoice::Given);
    assert_eq!(table_choice(false, 3, false), TableChoice::Given);
    assert_eq!(first_choice_of(&vec![false, true, true]), Some(1));
    assert_eq!(first_choice_of(&vec![false]), None);
}
