//! JSON and NDJSON tables.

use std::hash::{Hash, Hasher};
use std::io::{BufRead, BufReader, Read};

use tview::adapter::OpenedTable;
use tview::delimited_table::Snapshot;
use tview::json_lazy::{
    open_lazy_json, open_lazy_ndjson, LazyJsonArrayTable, LazyJsonObjectTable, LazyJsonTable,
    LazyNdjsonTable,
};
use tview::json_preview::{open_preview, Progress};
use tview::json_rows::{
    flatten_row, parse_ndjson_rows, resolve_pointer, values_are_keyed_object, FlatRow,
    OBJECT_DETECTION_MAX_BYTES, OBJECT_DETECTION_MAX_ENTRIES,
};
use tview::json_scan::{locate_json_pointer, skip_json_value, JsonError};
use tview::json_select::{parse_json_rows_with_options, ParsedJsonRows};
use tview::json_table::{
    choose_json_reader, open_json_rows, open_json_rows_with_metadata, open_streaming_json,
    JsonReader, JsonTableStore,
};
use tview::json_value::{cell_from_value, json_text, parse_json, parse_json_stream, JsonValue};
use tview::options::{
    InputFormat, ObjectMode, ObjectModeOrigin, OpenOptions, ResolvedObjectMode, SchemaScan,
    StructuredPath, DEFAULT_SCHEMA_SCAN_BYTES,
};
use tview::source::InputSource;
use tview::table::{
    CellValue, ColumnSourceIdentity, LogicalType, RowCount, SchemaDelta, SchemaState,
    SourceGeneration, TableDefinition,
};

const GENERATION: SourceGeneration = SourceGeneration { number: 11 };

fn pointer(path: Option<&str>) -> Option<StructuredPath> {
    path.map(|path| StructuredPath::parse(path).expect("pointer"))
}

fn object_options(mode: ObjectMode, scan_bytes: u64) -> OpenOptions {
    OpenOptions {
        format: InputFormat::Json,
        object_mode: mode,
        object_mode_origin: if mode == ObjectMode::Auto {
            ObjectModeOrigin::Default
        } else {
            ObjectModeOrigin::Cli
        },
        schema_scan_bytes: scan_bytes,
        ..OpenOptions::default()
    }
}

fn open_object(
    input: &str,
    path: Option<&str>,
    mode: ObjectMode,
    scan_bytes: u64,
) -> Result<OpenedTable<JsonTableStore>, JsonError> {
    let options = object_options(mode, scan_bytes);
    let parsed = parse_json_rows_with_options(input.as_bytes(), &pointer(path), &options)?;
    Ok(open_json_rows_with_metadata(
        parsed.rows,
        "data".to_owned(),
        &options,
        parsed.object_mode,
        parsed.warnings,
        GENERATION,
    ))
}

fn parse_json_rows(input: &[u8], path: Option<&str>) -> Result<Vec<FlatRow>, JsonError> {
    parse_json_rows_with_options(input, &pointer(path), &OpenOptions::default())
        .map(|parsed: ParsedJsonRows| parsed.rows)
}

fn canonical_keys(definition: &TableDefinition) -> Vec<&str> {
    definition
        .columns
        .iter()
        .filter_map(|column| column.source_identity.canonical_key())
        .collect()
}

fn apply_delta(definition: &mut TableDefinition, delta: SchemaDelta) {
    for widening in delta.widened_types {
        for column in &mut definition.columns {
            if column.id == widening.column {
                column.source_type = widening.source_type;
            }
        }
    }
    definition.columns.extend(delta.added_columns);
    if delta.completed {
        definition.schema_state = SchemaState::Complete;
    }
}

fn open(
    input: &str,
    format: InputFormat,
    path: Option<&str>,
    scan_bytes: u64,
) -> OpenedTable<JsonTableStore> {
    let rows = match format {
        InputFormat::Json => parse_json_rows(input.as_bytes(), path).unwrap(),
        InputFormat::Ndjson => parse_ndjson_rows(input.as_bytes(), &pointer(path)).unwrap(),
        _ => unreachable!(),
    };
    open_json_rows(
        rows,
        "data".to_owned(),
        &OpenOptions { schema_scan_bytes: scan_bytes, ..OpenOptions::default() },
        GENERATION,
    )
}

#[test]
fn selects_pointer_flattens_objects_and_preserves_native_values() {
    let mut table = open(
        r#"{"took":1,"hits":{"hits":[{"_source":{"id":1,"ok":true,"empty":"","none":null,"tags":["a"]}}]}}"#,
        InputFormat::Json,
        Some("/hits/hits"),
        u64::MAX,
    );
    assert_eq!(
        canonical_keys(&table.definition),
        ["/_source/id", "/_source/ok", "/_source/empty", "/_source/none", "/_source/tags"]
    );
    let row = table.store.row(0).unwrap();
    assert_eq!(row.cells[0], CellValue::Integer(1));
    assert_eq!(row.cells[1], CellValue::Boolean(true));
    assert_eq!(row.cells[2], CellValue::Text(String::new()));
    assert_eq!(row.cells[3], CellValue::Null);
    assert_eq!(row.cells[4], CellValue::Json("[\"a\"]".to_owned()));
}

#[test]
fn ndjson_resolves_pointer_per_document_and_array_rows_are_positional() {
    let mut table = open(
        "{\"row\":[1,2]}\n{\"row\":[3,4]}\n",
        InputFormat::Ndjson,
        Some("/row"),
        u64::MAX,
    );
    assert!(matches!(
        table.definition.columns[0].source_identity,
        ColumnSourceIdentity::Positional(0)
    ));
    assert_eq!(table.store.row(1).unwrap().cells[1], CellValue::Integer(4));
}

#[test]
fn compact_labels_use_shortest_unique_suffix_and_escape_path_like_keys() {
    let table = open(
        r#"[{"customer":{"email":"a"},"billing":{"email":"b"},"a.b":1,"a/b":2}]"#,
        InputFormat::Json,
        None,
        u64::MAX,
    );
    let labels = table
        .definition
        .columns
        .iter()
        .map(|column| column.display_name.as_str())
        .collect::<Vec<_>>();
    assert_eq!(labels[0], "customer.email");
    assert_eq!(labels[1], "billing.email");
    assert!(labels[2].starts_with('['));
    assert!(labels[3].starts_with('['));
}

fn snapshot(bytes: &[u8], complete: bool) -> Snapshot {
    Snapshot { bytes: bytes.to_vec(), complete }
}

#[test]
fn streaming_json_array_discovers_rows_and_late_columns_before_export() {
    let mut table = open_streaming_json(
        &snapshot(b"[\n{\"a\":1},\n", false),
        "stdin".to_owned(),
        InputFormat::Json,
        &OpenOptions::default(),
        GENERATION,
    )
    .expect("open streaming JSON");
    assert_eq!(table.store.row_count(), RowCount::AtLeast(1));
    assert_eq!(table.store.row(0).unwrap().cells[0], CellValue::Integer(1));

    let progress = table
        .store
        .ensure_indexed_through(&snapshot(b"[\n{\"a\":1},\n{\"a\":2,\"late\":3}]\n", true), usize::MAX)
        .expect("complete stream");
    assert_eq!(progress.row_count, RowCount::Exact(2));
    assert_eq!(progress.schema_delta.added_columns.len(), 1);
    assert_eq!(progress.schema_delta.added_columns[0].display_name, "late");
    assert!(progress.schema_delta.completed);
}

#[test]
fn streaming_nested_json_array_discovers_rows_before_enclosing_document_finishes() {
    let options = OpenOptions {
        format: InputFormat::Json,
        json_path: pointer(Some("/hits/hits")),
        ..OpenOptions::default()
    };
    let mut table = open_streaming_json(
        &snapshot(b"{\"hits\":{\"hits\":[\n{\"a\":1},\n", false),
        "stdin".to_owned(),
        InputFormat::Json,
        &options,
        GENERATION,
    )
    .expect("open streaming JSON");
    assert_eq!(table.store.row_count(), RowCount::AtLeast(1));
    assert_eq!(table.store.row(0).unwrap().cells[0], CellValue::Integer(1));

    let whole = b"{\"hits\":{\"hits\":[\n{\"a\":1},\n{\"a\":2,\"late\":3}]},\"tail\":true}\n";
    let progress = table
        .store
        .ensure_indexed_through(&snapshot(whole, true), usize::MAX)
        .expect("complete stream");
    assert_eq!(progress.row_count, RowCount::Exact(2));
    assert_eq!(progress.schema_delta.added_columns.len(), 1);
    assert_eq!(progress.schema_delta.added_columns[0].display_name, "late");
    assert!(progress.schema_delta.completed);
}

#[test]
fn bounded_schema_is_provisional_and_late_columns_append_without_renaming() {
    let mut table = open(r#"[{"a":1},{"a":2,"late":true}]"#, InputFormat::Json, None, 1);
    assert_eq!(table.definition.schema_state, SchemaState::Provisional);
    assert_eq!(table.definition.columns.len(), 1);
    let original_label = table.definition.columns[0].display_name.clone();
    let progress = table.store.ensure_indexed_through(1);
    assert_eq!(progress.schema_delta.added_columns.len(), 1);
    apply_delta(&mut table.definition, progress.schema_delta);
    assert_eq!(table.definition.columns[0].display_name, original_label);
    assert_eq!(table.definition.columns[1].display_name, "late");
    assert_eq!(table.definition.schema_state, SchemaState::Complete);
    let first = table.store.row(0).unwrap();
    assert_eq!(first.cells[1], CellValue::Null);
}

#[test]
fn generated_default_100_mib_boundary_is_bounded_and_full_scan_reaches_eof() {
    assert_eq!(DEFAULT_SCHEMA_SCAN_BYTES, 100 * 1024 * 1024);
    let rows = || {
        let mut first = flatten_row(&parse_json(br#"{"a": 1}"#).unwrap());
        first.source_bytes = DEFAULT_SCHEMA_SCAN_BYTES + 1;
        let late = flatten_row(&parse_json(br#"{"a": 2, "late": true}"#).unwrap());
        vec![first, late]
    };

    let mut bounded =
        open_json_rows(rows(), "generated.json".to_owned(), &OpenOptions::default(), GENERATION);
    assert_eq!(bounded.definition.schema_state, SchemaState::Provisional);
    assert_eq!(bounded.definition.columns.len(), 1);
    let stable_label = bounded.definition.columns[0].display_name.clone();
    let progress = bounded.store.ensure_indexed_through(1);
    apply_delta(&mut bounded.definition, progress.schema_delta);
    assert_eq!(bounded.definition.columns.len(), 2);
    assert_eq!(bounded.definition.columns[0].display_name, stable_label);

    let full = open_json_rows(
        rows(),
        "generated.json".to_owned(),
        &OpenOptions { schema_scan: SchemaScan::Full, ..OpenOptions::default() },
        GENERATION,
    );
    assert_eq!(full.definition.schema_state, SchemaState::Complete);
    assert_eq!(full.definition.columns.len(), 2);
    assert_eq!(full.store.row_count(), RowCount::Exact(2));
}

#[test]
fn full_scan_widens_integer_to_float_and_marks_complete() {
    let rows = parse_json_rows(br#"[{"n":1},{"n":2.5}]"#, None).unwrap();
    let table = open_json_rows(
        rows,
        "data".to_owned(),
        &OpenOptions {
            schema_scan: SchemaScan::Full,
            schema_scan_bytes: 1,
            ..OpenOptions::default()
        },
        GENERATION,
    );
    assert_eq!(table.definition.schema_state, SchemaState::Complete);
    assert_eq!(table.definition.columns[0].source_type, LogicalType::Float);
}

#[test]
fn missing_and_scalar_pointer_selections_are_errors() {
    let root = parse_json(br#"{"a":1}"#).unwrap();
    assert!(resolve_pointer(&root, &pointer(Some("/missing"))).is_err());
    assert!(parse_json_rows(br#"{"a":1}"#, Some("/a")).is_err());
}

fn sample_hash(bytes: &[u8]) -> u64 {
    let mut hasher = std::collections::hash_map::DefaultHasher::new();
    bytes.hash(&mut hasher);
    hasher.finish()
}

fn lazy_options(format: InputFormat) -> OpenOptions {
    OpenOptions {
        format,
        lazy_threshold_bytes: 1,
        schema_scan_bytes: 1,
        ..OpenOptions::default()
    }
}

fn lazy_ndjson(bytes: &[u8], options: &OpenOptions) -> OpenedTable<LazyNdjsonTable> {
    open_lazy_ndjson(bytes, sample_hash(bytes), "records.ndjson".to_owned(), options, GENERATION)
        .expect("open")
}

fn lazy_json(bytes: &[u8], options: &OpenOptions) -> Result<LazyJsonTable, JsonError> {
    open_lazy_json(bytes, sample_hash(bytes), "rows.json".to_owned(), options, GENERATION)
}

fn lazy_items(bytes: &[u8], options: &OpenOptions) -> OpenedTable<LazyJsonArrayTable> {
    match lazy_json(bytes, options).expect("open") {
        LazyJsonTable::Items(table) => table,
        _ => panic!("no table of items"),
    }
}

fn lazy_entries(bytes: &[u8], options: &OpenOptions) -> OpenedTable<LazyJsonObjectTable> {
    match lazy_json(bytes, options).expect("open") {
        LazyJsonTable::Entries(table) => table,
        _ => panic!("no table of entries"),
    }
}

#[test]
fn large_ndjson_indexes_document_offsets_and_decodes_random_rows() {
    let bytes = b" \n{\"id\":1,\"text\":\"line\\nvalue\"}\n  {\"id\":2}\n{\"id\":3}\n";
    let hash = sample_hash(bytes);
    let mut table = lazy_ndjson(bytes, &lazy_options(InputFormat::Ndjson));

    assert_eq!(table.definition.schema_state, SchemaState::Provisional);
    assert!(matches!(table.store.row_count(), RowCount::AtLeast(1)));
    table.store.index_until(bytes, hash, Some(1), None).expect("index");
    assert_eq!(
        table.store.typed_row(bytes, hash, 1).unwrap().unwrap().cells[0],
        CellValue::Integer(2)
    );
    table.store.index_until(bytes, hash, None, None).expect("finish indexing");
    assert_eq!(table.store.row_count(), RowCount::Exact(3));
    assert_eq!(
        table.store.typed_row(bytes, hash, 0).unwrap().unwrap().cells[1],
        CellValue::Text("line\nvalue".to_owned())
    );
}

#[test]
fn large_ndjson_full_schema_scan_reaches_eof_without_retaining_flat_rows() {
    let bytes = b"{\"a\":1}\n{\"late\":true}\n";
    let options = OpenOptions {
        schema_scan: SchemaScan::Full,
        ..lazy_options(InputFormat::Ndjson)
    };
    let table = lazy_ndjson(bytes, &options);

    assert_eq!(table.definition.schema_state, SchemaState::Complete);
    assert_eq!(table.store.row_count(), RowCount::Exact(2));
    assert_eq!(table.definition.columns.len(), 2);
    assert_eq!(
        table.store.typed_row(bytes, sample_hash(bytes), 0).unwrap().unwrap().cells[1],
        CellValue::Null
    );
}

#[test]
fn large_ndjson_detects_source_replacement_before_random_read() {
    let bytes = b"{\"id\":1}\n{\"id\":2}\n";
    let mut table = lazy_ndjson(bytes, &lazy_options(InputFormat::Ndjson));
    let prior = table.store.row_count();

    let replaced = b"{\"changed\":true}\n";
    let error = table
        .store
        .index_until(replaced, sample_hash(replaced), Some(1), None)
        .expect_err("changed source");
    assert!(error.message().contains("reload is required"));
    assert_eq!(table.store.row_count(), prior);
}

#[test]
fn large_selected_json_array_indexes_nested_values_and_ignores_trailing_metadata() {
    let padding = " ".repeat(8_193);
    let text = format!(
        r#"{{"meta":{{"padding":"{padding}"}},"hits":{{"hits":[
            {{"id":1,"text":"escaped \" quote","nested":{{"items":[1,{{"x":2}}]}}}},
            {{"id":2,"text":"second"}},
            {{"id":3,"late":true}}
        ]}},"tail":{{"must_be_ignored":[1,2,3]}}}}"#
    );
    let bytes = text.as_bytes();
    let hash = sample_hash(bytes);
    let options = OpenOptions {
        json_path: pointer(Some("/hits/hits")),
        ..lazy_options(InputFormat::Json)
    };
    let mut table = lazy_items(bytes, &options);

    assert_eq!(table.definition.schema_state, SchemaState::Provisional);
    assert!(matches!(table.store.row_count(), RowCount::AtLeast(1)));
    let delta = table.store.index_until(bytes, hash, None, None).expect("finish");
    apply_delta(&mut table.definition, delta);
    assert_eq!(
        table.store.typed_row(bytes, hash, 2).unwrap().unwrap().cells[0],
        CellValue::Integer(3)
    );
    assert_eq!(table.store.row_count(), RowCount::Exact(3));
    assert!(canonical_keys(&table.definition).contains(&"/late"));
    assert!(!canonical_keys(&table.definition).iter().any(|path| path.contains("tail")));
}

#[test]
fn large_json_array_full_scan_reaches_eof_without_materialized_rows() {
    let bytes = b"[ {\"a\":1},\n{\"b\":2}, {\"a\":3.5} ]";
    let options = OpenOptions { schema_scan: SchemaScan::Full, ..lazy_options(InputFormat::Json) };
    let table = lazy_items(bytes, &options);

    assert_eq!(table.definition.schema_state, SchemaState::Complete);
    assert_eq!(table.store.row_count(), RowCount::Exact(3));
    assert_eq!(table.definition.columns[0].source_type, LogicalType::Float);
    assert_eq!(
        table.store.typed_row(bytes, sample_hash(bytes), 1).unwrap().unwrap().cells[0],
        CellValue::Null
    );
}

#[test]
fn large_json_array_detects_mid_generation_replacement() {
    let bytes = b"[{\"id\":1},{\"id\":2}]";
    let mut table = lazy_items(bytes, &lazy_options(InputFormat::Json));
    let prior_count = table.store.row_count();

    let replaced = b"[{\"replacement\":true}]";
    let error = table
        .store
        .index_until(replaced, sample_hash(replaced), Some(1), None)
        .expect_err("source change");
    assert!(error.message().contains("reload is required"));
    assert_eq!(table.store.row_count(), prior_count);
}

#[test]
fn auto_detector_recognizes_representative_keyed_maps() {
    for input in [
        r#"{"repo-a":{"type":"fs","settings":{}},"repo-b":{"type":"s3","settings":{}},"repo-c":{"type":"gcs","settings":{}}}"#,
        r#"{"pipe-a":{"processors":[]},"pipe-b":{"processors":[]},"pipe-c":{"processors":[]}}"#,
        r#"{"index-a":{"settings":{}},"index-b":{"settings":{}},"index-c":{"settings":{}}}"#,
        r#"{"index-a":{"aliases":{}},"index-b":{"aliases":{}},"index-c":{"aliases":{}}}"#,
    ] {
        let table = open_object(input, None, ObjectMode::Auto, u64::MAX).expect("keyed map");
        assert_eq!(
            table.object_mode.expect("resolution").resolved,
            ResolvedObjectMode::Entries
        );
        assert_eq!(table.store.row_count(), RowCount::Exact(3));
        assert_eq!(canonical_keys(&table.definition)[0], "@key");
    }
}

#[test]
fn auto_detector_keeps_records_for_scalar_small_and_heterogeneous_objects() {
    for input in [
        r#"{"name":"cluster","settings":{"a":1},"enabled":true}"#,
        r#"{"persistent":{"enabled":true},"transient":{"enabled":false}}"#,
        r#"{"one":{"a":1},"two":{"b":2},"three":{"c":3}}"#,
    ] {
        let table = open_object(input, None, ObjectMode::Auto, u64::MAX).expect("record");
        assert_eq!(
            table.object_mode.expect("resolution").resolved,
            ResolvedObjectMode::Record
        );
        assert_eq!(table.store.row_count(), RowCount::Exact(1));
    }
}

fn value(text: &str) -> JsonValue {
    parse_json(text.as_bytes()).expect("value")
}

#[test]
fn explicit_null_counts_as_present_but_absence_does_not() {
    assert!(values_are_keyed_object(&vec![
        value(r#"{"shared": null}"#),
        value(r#"{"shared": null}"#),
        value(r#"{"shared": null}"#),
        value(r#"{"other": 1}"#),
    ]));
    assert!(!values_are_keyed_object(&vec![
        value(r#"{"shared": null}"#),
        value(r#"{"shared": null}"#),
        value(r#"{"other": 1}"#),
        value(r#"{"another": 2}"#),
    ]));
}

#[test]
fn detector_finishes_crossing_entry_and_caps_sample_at_64() {
    let huge = "x".repeat(OBJECT_DETECTION_MAX_BYTES as usize);
    let input = format!(
        r#"{{"first":{{"shared":"{huge}"}},"second":{{"shared":2}},"third":{{"shared":3}}}}"#
    );
    let table = open_object(&input, None, ObjectMode::Auto, u64::MAX).expect("huge record");
    assert_eq!(
        table.object_mode.expect("resolution").resolved,
        ResolvedObjectMode::Record
    );

    let mut entries = (0..OBJECT_DETECTION_MAX_ENTRIES)
        .map(|index| format!(r#""k{index}":{{"shared":{index}}}"#))
        .collect::<Vec<_>>();
    entries.push(r#""late":0"#.to_owned());
    let input = format!("{{{}}}", entries.join(","));
    let table = open_object(&input, None, ObjectMode::Auto, u64::MAX).expect("entry cap");
    assert_eq!(
        table.object_mode.expect("resolution").resolved,
        ResolvedObjectMode::Entries
    );
    assert!(canonical_keys(&table.definition).contains(&"/value"));
}

#[test]
fn forced_modes_pointer_order_and_non_object_validation_are_consistent() {
    let input = r#"{"outer":{"a":{"v":1},"b":{"v":2},"c":{"v":3}}}"#;
    let entries =
        open_object(input, Some("/outer"), ObjectMode::Entries, u64::MAX).expect("entries");
    assert_eq!(entries.store.row_count(), RowCount::Exact(3));
    assert_eq!(canonical_keys(&entries.definition), ["@key", "/v"]);

    let record = open_object(input, Some("/outer"), ObjectMode::Record, u64::MAX).expect("record");
    assert_eq!(record.store.row_count(), RowCount::Exact(1));
    assert!(canonical_keys(&record.definition).contains(&"/a/v"));

    let options = object_options(ObjectMode::Entries, u64::MAX);
    assert!(parse_json_rows_with_options(br#"[{"a":1}]"#, &None, &options).is_err());

    let mut saved_options = options;
    saved_options.object_mode_origin = ObjectModeOrigin::SavedView;
    let array = parse_json_rows_with_options(br#"[{"a":1}]"#, &None, &saved_options)
        .expect("saved array falls back");
    assert_eq!(array.object_mode, None);
    assert!(array.warnings[0].contains("selected array"));

    let scalar = br#"{"value":1}"#;
    let path = pointer(Some("/value"));
    let cli_error =
        parse_json_rows_with_options(scalar, &path, &object_options(ObjectMode::Entries, u64::MAX))
            .err()
            .expect("CLI scalar mode");
    assert!(cli_error
        .message()
        .contains("object mode 'entries' requires an input with a selected object/map"));

    let mut saved_scalar = object_options(ObjectMode::Record, u64::MAX);
    saved_scalar.object_mode_origin = ObjectModeOrigin::SavedView;
    let saved_error = parse_json_rows_with_options(scalar, &path, &saved_scalar)
        .err()
        .expect("saved scalar mode");
    let message = saved_error.message();
    assert!(message.contains("saved object_mode 'record'"));
    assert!(message.contains("was ignored"));
    assert!(message.contains("does not identify a tabular object or array"));
}

#[test]
fn explicit_saved_mode_is_stable_when_auto_would_choose_another_shape() {
    let input = r#"{"first":{"value":1},"second":{"value":2}}"#;
    let automatic = open_object(input, None, ObjectMode::Auto, u64::MAX).expect("auto");
    assert_eq!(automatic.object_mode.unwrap().resolved, ResolvedObjectMode::Record);

    let options = OpenOptions {
        format: InputFormat::Json,
        object_mode: ObjectMode::Entries,
        object_mode_origin: ObjectModeOrigin::SavedView,
        ..OpenOptions::default()
    };
    for _ in 0..2 {
        let parsed = parse_json_rows_with_options(input.as_bytes(), &None, &options)
            .expect("saved entries");
        assert_eq!(parsed.object_mode.unwrap().resolved, ResolvedObjectMode::Entries);
        assert_eq!(parsed.rows.len(), 2);
    }
}

#[test]
fn keyed_projection_preserves_order_types_paths_and_optional_fields() {
    let mut table = open_object(
        r#"{"a/b":{"id":1,"nested":{"flag":true},"tags":["x"]},"two":{"id":2,"nested":{"flag":false}},"three":{"nested":{"flag":null}}}"#,
        None,
        ObjectMode::Entries,
        u64::MAX,
    )
    .expect("entries");
    assert_eq!(
        canonical_keys(&table.definition),
        ["@key", "/id", "/nested/flag", "/tags"]
    );
    let first = table.store.row(0).unwrap();
    assert_eq!(first.cells[0], CellValue::Text("a/b".to_owned()));
    assert_eq!(first.cells[1], CellValue::Integer(1));
    assert_eq!(first.cells[2], CellValue::Boolean(true));
    assert_eq!(first.cells[3], CellValue::Json("[\"x\"]".to_owned()));
    let third = table.store.row(2).unwrap();
    assert_eq!(third.cells[1], CellValue::Null);
    assert_eq!(third.cells[2], CellValue::Null);
}

#[test]
fn forced_scalar_null_and_array_entries_use_typed_value_column() {
    let mut table = open_object(
        r#"{"number":1,"none":null,"items":[1,2]}"#,
        None,
        ObjectMode::Entries,
        u64::MAX,
    )
    .expect("scalar entries");
    assert_eq!(canonical_keys(&table.definition), ["@key", "/value"]);
    assert_eq!(table.store.row(0).unwrap().cells[1], CellValue::Integer(1));
    assert_eq!(table.store.row(1).unwrap().cells[1], CellValue::Null);
    assert_eq!(table.store.row(2).unwrap().cells[1], CellValue::Json("[1,2]".to_owned()));
}

#[test]
fn key_label_handles_initial_and_late_name_collisions_without_renaming() {
    let initial = open_object(
        r#"{"a":{"name":"A"},"b":{"name":"B"}}"#,
        None,
        ObjectMode::Entries,
        u64::MAX,
    )
    .expect("initial name");
    assert_eq!(initial.definition.columns[0].display_name, "_key");
    assert_eq!(initial.definition.columns[1].display_name, "name");

    let mut late =
        open_object(r#"{"a":{"id":1},"b":{"name":"B"}}"#, None, ObjectMode::Entries, 1)
            .expect("late name");
    assert_eq!(late.definition.columns[0].display_name, "name");
    let delta = late.store.ensure_indexed_through(1).schema_delta;
    apply_delta(&mut late.definition, delta);
    assert_eq!(late.definition.columns[0].display_name, "name");
    assert_ne!(late.definition.columns[2].display_name, "name");
}

#[test]
fn materialized_objects_reject_duplicate_keys_before_interpretation() {
    for mode in [ObjectMode::Auto, ObjectMode::Record, ObjectMode::Entries] {
        let error = match open_object(r#"{"same":{"v":1},"same":{"v":2}}"#, None, mode, u64::MAX) {
            Ok(_) => panic!("duplicate key accepted in {}", mode.label()),
            Err(error) => error,
        };
        assert!(error.message().contains("duplicate object member key 'same'"));
    }
}

fn large_keyed_json(count: usize, duplicate_first_at_end: bool) -> String {
    let mut entries = (0..count)
        .map(|index| {
            if index == 70 {
                format!(r#""k{index}":{{"shared":{index},"late":true}}"#)
            } else {
                format!(r#""k{index}":{{"shared":{index}}}"#)
            }
        })
        .collect::<Vec<_>>();
    if duplicate_first_at_end {
        entries.push(r#""k0":{"shared":999}"#.to_owned());
    }
    format!("{{{}}}", entries.join(","))
}

#[test]
fn large_keyed_object_is_bounded_navigable_and_materializable() {
    let text = large_keyed_json(80, false);
    let bytes = text.as_bytes();
    let hash = sample_hash(bytes);
    let mut table = lazy_entries(bytes, &lazy_options(InputFormat::Json));
    assert_eq!(
        table.object_mode.expect("resolution").resolved,
        ResolvedObjectMode::Entries
    );
    assert!(matches!(table.store.row_count(), RowCount::AtLeast(64)));
    assert_eq!(table.definition.schema_state, SchemaState::Provisional);
    let progress = table.store.ensure_indexed_through(bytes, hash, 70).expect("navigate");
    apply_delta(&mut table.definition, progress.schema_delta);
    assert_eq!(
        table.store.typed_row(bytes, hash, 70).unwrap().unwrap().cells[0],
        CellValue::Text("k70".to_owned())
    );
    assert!(canonical_keys(&table.definition).contains(&"/late"));
    let materialized = table.store.materialize(bytes, hash).expect("materialize");
    assert_eq!(materialized.row_count(), RowCount::Exact(80));
    assert_eq!(table.store.row_count(), RowCount::Exact(80));
    for index in 0..80 {
        assert!(table.store.typed_row(bytes, hash, index).expect("row").is_some());
    }
}

fn entries_options() -> OpenOptions {
    OpenOptions {
        object_mode: ObjectMode::Entries,
        object_mode_origin: ObjectModeOrigin::Cli,
        ..lazy_options(InputFormat::Json)
    }
}

#[test]
fn full_schema_scan_for_keyed_object_reaches_end_and_widens_types() {
    let bytes = br#"{"a":{"shared":1},"b":{"shared":2.5},"c":{"shared":3,"late":true}}"#;
    let options = OpenOptions { schema_scan: SchemaScan::Full, ..entries_options() };
    let table = lazy_entries(bytes, &options);

    assert_eq!(table.definition.schema_state, SchemaState::Complete);
    assert_eq!(table.store.row_count(), RowCount::Exact(3));
    let shared = table
        .definition
        .columns
        .iter()
        .position(|column| column.source_identity.canonical_key() == Some("/shared"))
        .expect("shared");
    assert_eq!(table.definition.columns[shared].source_type, LogicalType::Float);
    assert!(canonical_keys(&table.definition).contains(&"/late"));
    assert_eq!(
        table.store.typed_row(bytes, sample_hash(bytes), 0).unwrap().unwrap().cells[2],
        CellValue::Null
    );
}

#[test]
fn lazy_auto_and_record_reject_the_same_duplicate_record_as_materialized() {
    for mode in [ObjectMode::Auto, ObjectMode::Record] {
        let options = OpenOptions {
            object_mode: mode,
            object_mode_origin: if mode == ObjectMode::Auto {
                ObjectModeOrigin::Default
            } else {
                ObjectModeOrigin::Cli
            },
            ..lazy_options(InputFormat::Json)
        };
        let error = lazy_json(br#"{"same":{"value":1},"same":{"value":2}}"#, &options)
            .err()
            .expect("duplicate rejected");
        assert!(error.message().contains("duplicate object member key 'same'"));
    }
}

#[test]
fn lazy_scalar_reports_cli_incompatibility_and_ignored_saved_mode() {
    let cli_options = OpenOptions {
        format: InputFormat::Json,
        object_mode: ObjectMode::Entries,
        object_mode_origin: ObjectModeOrigin::Cli,
        lazy_threshold_bytes: 1,
        ..OpenOptions::default()
    };
    let cli_error = lazy_json(b"1", &cli_options).err().expect("CLI scalar rejected");
    assert!(cli_error
        .message()
        .contains("object mode 'entries' requires an input with a selected object/map"));

    let saved_options = OpenOptions {
        object_mode: ObjectMode::Record,
        object_mode_origin: ObjectModeOrigin::SavedView,
        ..cli_options
    };
    let saved_error = lazy_json(b"1", &saved_options).err().expect("saved scalar rejected");
    let message = saved_error.message();
    assert!(message.contains("saved object_mode 'record'"));
    assert!(message.contains("was ignored"));
    assert!(message.contains("does not identify a tabular object or array"));
}

#[test]
fn lazy_keyed_offsets_handle_whitespace_escaped_keys_and_nested_values() {
    let bytes = b"{ \n \"a\\/b\" : {\"shared\":1,\"nested\":[1,{\"x\":2}]},\n\"quote\\\"key\":{\"shared\":2},\"third\":{\"shared\":3} }";
    let hash = sample_hash(bytes);
    let mut table = lazy_entries(bytes, &entries_options());
    table.store.ensure_indexed_through(bytes, hash, 1).expect("index");
    assert_eq!(
        table.store.typed_row(bytes, hash, 0).unwrap().unwrap().cells[0],
        CellValue::Text("a/b".to_owned())
    );
    assert_eq!(
        table.store.typed_row(bytes, hash, 1).unwrap().unwrap().cells[0],
        CellValue::Text("quote\"key".to_owned())
    );
    table.store.ensure_indexed_through(bytes, hash, usize::MAX).unwrap();
    assert_eq!(table.store.row_count(), RowCount::Exact(3));
}

#[test]
fn lazy_keyed_object_rejects_late_duplicates_without_advancing_state() {
    let text = large_keyed_json(65, true);
    let bytes = text.as_bytes();
    let mut table = lazy_entries(bytes, &lazy_options(InputFormat::Json));
    let prior = table.store.row_count();
    let error = table
        .store
        .ensure_indexed_through(bytes, sample_hash(bytes), usize::MAX)
        .expect_err("duplicate");
    assert!(error.message().contains("duplicate object member key 'k0'"));
    assert_ne!(table.store.row_count(), RowCount::Exact(66));
    assert!(matches!(prior, RowCount::AtLeast(_)));
}

#[test]
fn lazy_keyed_object_detects_mid_generation_replacement() {
    let text = large_keyed_json(80, false);
    let mut table = lazy_entries(text.as_bytes(), &lazy_options(InputFormat::Json));
    let prior = table.store.row_count();
    let replaced = br#"{"replacement":{"shared":1}}"#;
    let error = table
        .store
        .ensure_indexed_through(replaced, sample_hash(replaced), 70)
        .expect_err("source change");
    assert!(error.message().contains("reload is required"));
    assert_eq!(table.store.row_count(), prior);
}

struct Counting<R> {
    inner: R,
    count: std::rc::Rc<std::cell::Cell<usize>>,
}

impl<R: Read> Read for Counting<R> {
    fn read(&mut self, out: &mut [u8]) -> std::io::Result<usize> {
        let n = self.inner.read(out)?;
        self.count.set(self.count.get() + n);
        Ok(n)
    }
}

fn read_more(input: &mut impl BufRead, bytes: &mut Vec<u8>) -> bool {
    let chunk = input.fill_buf().expect("read").to_vec();
    input.consume(chunk.len());
    bytes.extend_from_slice(&chunk);
    chunk.is_empty()
}

#[test]
fn preview_reads_are_bounded_for_json_and_ndjson() {
    for format in [InputFormat::Json, InputFormat::Ndjson] {
        for threshold in [1, u64::MAX] {
            let prefix = if format == InputFormat::Json {
                "[{\"a\":1},{\"a\":2},{\"a\":3},"
            } else {
                "{\"a\":1}\n{\"a\":2}\n{\"a\":3}\n"
            };
            let count = std::rc::Rc::new(std::cell::Cell::new(0));
            let input = std::io::Cursor::new(prefix.as_bytes().to_vec())
                .chain(std::io::repeat(b'x').take(200 * 1024 * 1024));
            let mut input = BufReader::new(Counting { inner: input, count: count.clone() });
            let options = OpenOptions {
                preview: true,
                lazy_threshold_bytes: threshold,
                ..OpenOptions::default()
            };
            let mut bytes: Vec<u8> = Vec::new();
            let mut ended = read_more(&mut input, &mut bytes);
            let mut table = loop {
                let opened = open_preview(
                    &bytes,
                    ended,
                    true,
                    "stdin".to_owned(),
                    format,
                    &options,
                    GENERATION,
                )
                .expect("open");
                match opened {
                    Some(table) => break table,
                    None => ended = read_more(&mut input, &mut bytes),
                }
            };
            let mut delta = SchemaDelta::default();
            loop {
                let progress =
                    table.store.read_through(&bytes, ended, 2, &mut delta, 0).expect("read");
                match progress {
                    Progress::Done { .. } => break,
                    Progress::More { .. } => ended = read_more(&mut input, &mut bytes),
                }
            }
            assert_eq!(table.store.row_count(), RowCount::AtLeast(3));
            assert_eq!(table.store.row(2).unwrap().cells[0], CellValue::Integer(3));
            assert!(count.get() <= 8192);
        }
    }
}

#[test]
fn readers_are_chosen_by_source_and_size() {
    let path = InputSource::Path("data.json".to_owned());
    let options = OpenOptions { lazy_threshold_bytes: 10, ..OpenOptions::default() };
    let choose = |source: &InputSource, len: u64, format: InputFormat| {
        choose_json_reader(source, len, format, &options).expect("reader")
    };
    assert_eq!(choose(&path, 100, InputFormat::Json), JsonReader::LazyDocument);
    assert_eq!(choose(&path, 100, InputFormat::Ndjson), JsonReader::LazyStream);
    assert_eq!(choose(&path, 1, InputFormat::Json), JsonReader::Document);
    assert_eq!(choose(&path, 1, InputFormat::Ndjson), JsonReader::Stream);
    assert_eq!(choose(&InputSource::StreamingStdin, 0, InputFormat::Json), JsonReader::Streaming);
}

#[test]
fn values_are_read_and_written_again() {
    let text = r#"{"b":[1,-2,2.5,true,null],"a":"q\"\n","n":{}}"#;
    let read = parse_json(text.as_bytes()).expect("value");
    assert_eq!(json_text(&read), text);
    assert!(parse_json(b"{\"a\":1} x").is_err());
    assert!(parse_json(b"{\"a\":").err().expect("fault").eof);

    let (documents, fault) = parse_json_stream(b"1 [2]\n{\"a\":3} oops");
    assert_eq!(documents.len(), 3);
    assert_eq!(documents[0].1, 1);
    assert!(fault.is_some());
}

#[test]
fn scanning_finds_values_without_reading_them() {
    let bytes = br#" {"a":[1,{"b":"]}"}],"c":{"d":7}} "#;
    let at = locate_json_pointer(bytes, &pointer(Some("/c/d"))).expect("place");
    assert_eq!(bytes[at], b'7');
    let (from, to) = skip_json_value(bytes, 0).expect("value");
    assert_eq!((from, to), (1, bytes.len() - 1));
    assert!(locate_json_pointer(bytes, &pointer(Some("/c/x"))).is_err());
    assert!(skip_json_value(b"[1,2", 0).is_err());
}

#[test]
fn searching_the_text_agrees_with_selecting_in_the_document() {
    let text = br#" {"a" : [1, {"b/c": "}]"}, [], null], "d": {"~": -2.5e3, "": {}}} "#;
    let document = parse_json(text).expect("document");
    for path in [
        "", "/a", "/a/0", "/a/1", "/a/1/b~1c", "/a/2", "/a/3", "/d", "/d/~0", "/d/", "/a/4",
        "/a/x", "/a/-", "/b", "/d/~0/x", "/a/1/b", "/d//x",
    ] {
        let pointer = pointer(Some(path));
        match (locate_json_pointer(text, &pointer), resolve_pointer(&document, &pointer)) {
            (Ok(at), Ok(value)) => {
                let (start, end) = skip_json_value(text, at).expect("value");
                assert_eq!(start, at, "{path}");
                assert_eq!(&parse_json(&text[start..end]).expect("value"), value, "{path}");
            }
            (Err(_), Err(_)) => {}
            (found, chosen) => panic!("{path}: {found:?} against {chosen:?}"),
        }
    }
}

#[test]
fn the_row_of_an_object_holds_its_leaves_under_their_pointers() {
    let document =
        parse_json(br#"{"a":{"b":1,"c/d":{"e":[2]},"f":{}},"g~":"x","":null}"#).expect("document");
    let row = flatten_row(&document);
    let paths = row.cells.iter().map(|cell| cell.path.as_str()).collect::<Vec<_>>();
    assert_eq!(paths, ["/a/b", "/a/c~1d/e", "/a/f", "/g~0", "/"]);
    for cell in &row.cells {
        let ColumnSourceIdentity::StructuredPath(path) = &cell.identity else {
            panic!("{} has no path", cell.path);
        };
        assert_eq!(path.as_str(), cell.path);
        let pointer = Some(StructuredPath::parse(&cell.path).expect("pointer"));
        let value = resolve_pointer(&document, &pointer).expect("leaf");
        assert_eq!(cell_from_value(value), cell.value);
    }
    assert!(flatten_row(&parse_json(b"{}").expect("document")).cells.is_empty());
}

fn preview_of(
    text: &[u8],
    ended: bool,
    path: Option<&str>,
) -> Result<Option<usize>, String> {
    let options = OpenOptions {
        format: InputFormat::Json,
        json_path: pointer(path),
        preview: true,
        schema_scan: SchemaScan::Full,
        ..OpenOptions::default()
    };
    let opened =
        open_preview(text, ended, true, "data".to_owned(), InputFormat::Json, &options, GENERATION);
    match opened {
        Ok(table) => Ok(table.map(|table| table.store.rows.len())),
        Err(error) => Err(error.message()),
    }
}

#[test]
fn previews_read_what_stands_before_the_selected_rows() {
    let rows = Some("/rows");
    for (text, count) in [
        (&br#"{"rows":[{"x":1},{"x":2}]}"#[..], 2),
        (br#"{"a":true,"rows":[[1]]}"#, 1),
        (br#"{"a":-1.5e3 , "b":{"rows":0},"rows":[]}"#, 0),
        (br#"{"a":1e999,"rows":[[1]]}"#, 1),
        (br#"{"a":"\ud800","rows":[[1]]}"#, 1),
        (b"\xef\xbb\xbf{\"rows\" :\x0c[\x0c[1]]}", 1),
        (br#"{"rows":[[1]],"rows":[]} and what follows"#, 1),
    ] {
        assert_eq!(preview_of(text, true, rows), Ok(Some(count)), "{text:?}");
    }
    let mut deep = b"{\"a\":".to_vec();
    deep.extend(vec![b'['; 500]);
    deep.extend(vec![b']'; 500]);
    deep.extend(b",\"rows\":[[1]]}");
    assert_eq!(preview_of(&deep, true, rows), Ok(Some(1)));
    assert_eq!(preview_of(br#"[[],[[1],[2]]]"#, true, Some("/1")), Ok(Some(2)));

    let not_found = Err("JSON starting path was not found".to_owned());
    for text in [&b"{}"[..], b"{\"a\":1}", b"", b"7", b"\"rows\""] {
        assert_eq!(preview_of(text, true, rows), not_found, "{text:?}");
    }
    assert_eq!(preview_of(b"[[1]]", true, Some("/1")), not_found);
    assert_eq!(
        preview_of(b"[[1]]", true, rows),
        Err("JSON Pointer array segment is not an index".to_owned())
    );
    for text in [
        &br#"{"a":tru,"rows":[[1]]}"#[..],
        br#"{"a":1 "rows":[[1]]}"#,
        br#"{"a":01,"rows":[[1]]}"#,
        br#"{"a" 1,"rows":[[1]]}"#,
        br#"{"a":{"b"},"rows":[[1]]}"#,
        br#"{"a":[1,],"rows":[[1]]}"#,
        br#"{a:1,"rows":[[1]]}"#,
        b"{\"a\":1,\x0c\"rows\":[[1]]}",
        b"{\"a\":\x0c1,\"rows\":[[1]]}",
    ] {
        assert!(preview_of(text, true, rows).is_err(), "{text:?}");
        assert!(preview_of(text, false, rows).is_err(), "{text:?}");
    }
}

#[test]
fn previews_fail_as_soon_as_more_input_cannot_help() {
    let rows = Some("/rows");
    for text in [
        &b""[..], b" ", b"{", b"{\"a", b"{\"a\"", b"{\"a\":", b"{\"a\":tr", b"{\"a\":-", b"{\"a\":1",
        b"{\"a\":1.", b"{\"a\":1e", b"{\"a\":1e+", b"{\"a\":[1.", b"{\"a\":[1,{\"b\":-", b"{\"a\":1,",
        b"{\"a\":1,\"rows\":", b"{\"rows\":[", b"{\"rows\":[1",
    ] {
        assert_eq!(preview_of(text, false, rows), Ok(None), "{text:?}");
    }
    for text in [
        &b"{}"[..], b"7", b"{\"a\":1}", b"{\"a\":tx", b"{\"a\":1.x", b"{\"a\":-x", b"{\"a\":[tx,1.",
        b"{\"a\":1 :", b"{\"a\x01", b"{7", b"{\"rows\":7", b"[",
    ] {
        assert!(preview_of(text, false, rows).is_err(), "{text:?}");
    }
    assert_eq!(
        preview_of(b"", true, None),
        Err("JSON starting path does not identify a tabular object or array".to_owned())
    );
}
