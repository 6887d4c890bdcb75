//! Choosing how a source is read.

use tview::adapter::{
    apply_file_source_query, choose_delimited_reader, open_delimited_rows, open_source, resolve_format,
    resolve_structured_options, DelimitedReader, FormatResolver, OpenedSource, RelationAvailability,
    RelationCatalogEntry, RelationError, RelationKind, RelationOpener,
};
use tview::delimited_table::InMemoryTable;
use tview::options::{
    InputFormat, ObjectMode, ObjectModeOrigin, OpenOptions, ParseOptions, SourceFilterRequest,
    SourceSortRequest, StructuredPath,
};
use tview::source::InputSource;
use tview::startup::take_picked_table;
use tview::table::{
    RelationMetadata, SortDirection, SourceFilterOperator, SourceGeneration, SourceOperand,
};

const GENERATION: SourceGeneration = SourceGeneration { number: 3 };

#[test]
fn explicit_format_has_precedence() {
    let source = InputSource::Path("data.json".to_owned());
    assert_eq!(
        FormatResolver::resolve(InputFormat::Delimited, &source, br#"[{"a":1}]"#),
        InputFormat::Delimited
    );
}

#[test]
fn resolves_extensions_content_and_stdin() {
    assert_eq!(
        FormatResolver::resolve(
            InputFormat::Auto,
            &InputSource::Path("data.jsonl".to_owned()),
            b""
        ),
        InputFormat::Ndjson
    );
    assert_eq!(
        FormatResolver::resolve(InputFormat::Auto, &InputSource::Stdin, b"[1]\n[2]\n"),
        InputFormat::Ndjson
    );
    assert_eq!(
        FormatResolver::resolve(InputFormat::Auto, &InputSource::Stdin, b"{\"a\":1}\n"),
        InputFormat::Json
    );
    assert_eq!(
        FormatResolver::resolve(
            InputFormat::Auto,
            &InputSource::Stdin,
            b"{\"a\":1}\n{\"a\":2}\n"
        ),
        InputFormat::Ndjson
    );
    assert_eq!(
        FormatResolver::resolve(InputFormat::Auto, &InputSource::Stdin, b"a,b\n1,2\n"),
        InputFormat::Delimited
    );
}

#[test]
fn explicit_selection_resolves_ambiguous_content() {
    let source = InputSource::Stdin;
    let sample = b"{a,b}\n";
    assert_eq!(
        FormatResolver::resolve(InputFormat::Json, &source, sample),
        InputFormat::Json
    );
    assert_eq!(
        FormatResolver::resolve(InputFormat::Delimited, &source, sample),
        InputFormat::Delimited
    );
}

#[test]
fn ambiguous_http_urls_require_an_explicit_format() {
    for url in [
        "https://example.com/data.json",
        "http://example.com/data.csv",
        "HTTPS://example.com/data.json",
    ] {
        let source = InputSource::from_cli_value(url);
        let error = open_source(&source, &OpenOptions::default(), b"")
            .err()
            .expect("ambiguous remote URL");
        assert!(error.message().contains("requires an explicit --format"));
    }
}

#[test]
fn libsql_urls_are_read_as_sqlite() {
    let source = InputSource::from_cli_value("libsql://example.turso.io");
    assert_eq!(
        FormatResolver::resolve(InputFormat::Auto, &source, b"not sqlite bytes"),
        InputFormat::Sqlite
    );
    let plan = open_source(&source, &OpenOptions::default(), b"not sqlite bytes").expect("plan");
    assert_eq!(plan.format, InputFormat::Sqlite);
}

#[test]
fn json_path_prevents_auto_format_from_falling_back_to_delimited() {
    let options = OpenOptions {
        json_path: Some(StructuredPath::parse("/rows").unwrap()),
        ..OpenOptions::default()
    };
    let detected = FormatResolver::resolve(
        options.format,
        &InputSource::Stdin,
        b"not a structured sample",
    );
    assert_eq!(detected, InputFormat::Delimited);

    let resolved = resolve_structured_options(detected, &options);
    assert_eq!(resolved, InputFormat::Json);
}

fn piped() -> OpenOptions {
    OpenOptions {
        delimited: ParseOptions { delimiter: Some(b'|'), ..ParseOptions::default() },
        ..OpenOptions::default()
    }
}

#[test]
fn delimited_options_override_auto_extension_and_content_detection() {
    let options = piped();

    assert_eq!(
        resolve_format(
            &options,
            &InputSource::Path("data.json".to_owned()),
            br#"[{"a":1}]"#
        ),
        InputFormat::Delimited
    );
    assert_eq!(
        resolve_format(&options, &InputSource::StreamingStdin, b"{\"a\":1}\n{\"a\":2}\n"),
        InputFormat::Delimited
    );
}

#[test]
fn sqlite_signature_precedes_delimited_options_under_auto() {
    let options = piped();
    let source = InputSource::Path("database.data".to_owned());
    assert_eq!(
        resolve_format(&options, &source, b"SQLite format 3\0"),
        InputFormat::Sqlite
    );
    let error = open_source(&source, &options, b"SQLite format 3\0")
        .err()
        .expect("delimited options must be rejected");
    assert!(error.message().contains("options cannot be used with SQLite input"));
}

#[test]
fn saved_object_mode_is_ignored_for_sqlite_but_cli_mode_is_rejected() {
    let source = InputSource::Path("users.db".to_owned());
    let saved = OpenOptions {
        object_mode: ObjectMode::Entries,
        object_mode_origin: ObjectModeOrigin::SavedView,
        table: Some("users".to_owned()),
        ..OpenOptions::default()
    };
    let plan = open_source(&source, &saved, b"SQLite format 3\0").expect("saved mode ignored");
    assert_eq!(plan.format, InputFormat::Sqlite);
    assert!(plan
        .warning
        .iter()
        .any(|warning| warning.contains("object_mode") && warning.contains("ignored")));

    let error = open_source(
        &source,
        &OpenOptions { object_mode_origin: ObjectModeOrigin::Cli, ..saved },
        b"SQLite format 3\0",
    )
    .err()
    .expect("CLI mode rejected");
    assert!(error.message().contains("object mode"));
    assert!(error.message().contains("incompatible with sqlite"));
}

#[test]
fn automatic_streaming_probe_selects_ndjson() {
    let plan = open_source(
        &InputSource::StreamingStdin,
        &OpenOptions::default(),
        b"{\"a\":1}\n{\"a\":2}\n",
    )
    .expect("open streaming NDJSON");
    assert_eq!(plan.format, InputFormat::Ndjson);
}

fn opened() -> tview::adapter::OpenedTable<InMemoryTable> {
    open_delimited_rows(
        vec![
            vec!["id".to_owned(), "note".to_owned()],
            vec!["1".to_owned(), "one".to_owned()],
        ],
        "data.csv".to_owned(),
        GENERATION,
    )
}

#[test]
fn file_queries_name_columns_or_the_whole_record() {
    let table = opened();
    let request = |column: &str| SourceFilterRequest {
        column: column.to_owned(),
        operator: SourceFilterOperator::Contains,
        operand: Some(SourceOperand::Text("one".to_owned())),
    };
    let options = OpenOptions {
        source_filters: vec![request("*"), request("note")],
        ..OpenOptions::default()
    };
    let plan = apply_file_source_query(&table.definition, &options).expect("plan");
    assert_eq!(plan.query.filters.len(), 2);

    let unknown = OpenOptions { source_filters: vec![request("missing")], ..OpenOptions::default() };
    let error = apply_file_source_query(&table.definition, &unknown).err().expect("unknown");
    assert!(error.message().contains("missing"));
}

#[test]
fn file_source_sorts_are_planned_by_column() {
    let table = opened();
    let options = OpenOptions {
        source_sort: vec![SourceSortRequest {
            column: "id".to_owned(),
            direction: SortDirection::Ascending,
        }],
        ..OpenOptions::default()
    };
    let plan = apply_file_source_query(&table.definition, &options).expect("plan");
    assert_eq!(plan.query.order_by.len(), 1);
    assert_eq!(plan.query.order_by[0].column, table.definition.columns[0].id);
}

fn relation(name: &str, availability: RelationAvailability) -> RelationCatalogEntry {
    RelationCatalogEntry {
        metadata: RelationMetadata::implicit(name.to_owned(), true),
        kind: RelationKind::Table,
        availability,
    }
}

#[test]
fn relations_have_to_be_known_and_available() {
    let source: OpenedSource<InMemoryTable, ()> = OpenedSource::relational(
        vec![
            relation("users", RelationAvailability::Selectable),
            relation("hidden", RelationAvailability::Unavailable { reason: "locked".to_owned() }),
        ],
        None,
        (),
    );
    assert!(!source.has_selected_table());
    assert_eq!(source.list_relations().len(), 2);
    assert_eq!(source.selectable_relations().len(), 1);
    assert_eq!(source.check_relation("users"), Ok(()));
    assert!(source.check_relation("hidden").is_err());
    assert!(source.check_relation("other").is_err());
    let fault: Result<_, RelationError> = source.into_implicit_table();
    assert!(fault.is_err());
}

/// Opens the relations whose names it holds and remembers what it was asked for.
struct NamedTables<'a> {
    names: Vec<&'static str>,
    asked: &'a std::cell::RefCell<Vec<String>>,
}

impl RelationOpener<InMemoryTable> for NamedTables<'_> {
    fn open_relation(
        &mut self,
        name: &str,
    ) -> Result<tview::adapter::OpenedTable<InMemoryTable>, String> {
        self.asked.borrow_mut().push(name.to_owned());
        if self.names.contains(&name) {
            Ok(opened())
        } else {
            Err(format!("cannot open {name}"))
        }
    }
}

#[test]
fn openers_are_asked_once_for_relations_that_may_be_opened() {
    let asked = std::cell::RefCell::new(Vec::new());
    let mut source = OpenedSource::relational(
        vec![
            relation("users", RelationAvailability::Selectable),
            relation("broken", RelationAvailability::Selectable),
            relation("locked", RelationAvailability::Unavailable { reason: "no rights".to_owned() }),
        ],
        None,
        NamedTables { names: vec!["users"], asked: &asked },
    );
    assert_eq!(
        source.open_relation("missing"),
        Err(RelationError::NotFound { name: "missing".to_owned() })
    );
    assert_eq!(
        source.open_relation("locked"),
        Err(RelationError::Unavailable {
            name: "locked".to_owned(),
            reason: "no rights".to_owned()
        })
    );
    assert!(asked.borrow().is_empty());
    assert_eq!(
        source.open_relation("broken"),
        Err(RelationError::OpenFailed("cannot open broken".to_owned()))
    );
    assert!(!source.has_selected_table());
    assert_eq!(source.open_relation("users"), Ok(()));
    assert!(source.has_selected_table());
    assert!(source.open_relation("broken").is_err());
    assert!(source.has_selected_table());
    assert_eq!(*asked.borrow(), ["broken", "users", "broken"]);

    let mut single: OpenedSource<InMemoryTable, NamedTables> = OpenedSource::implicit(opened());
    let name = opened().definition.relation.name;
    assert_eq!(single.open_relation(&name), Err(RelationError::SelectionUnsupported));
}

#[test]
fn delimited_text_is_read_by_its_source_and_its_length() {
    let options = OpenOptions { lazy_threshold_bytes: 100, ..OpenOptions::default() };
    let path = InputSource::Path("data.csv".to_owned());
    let choose = |source: &InputSource, len: u64, indexable: bool, options: &OpenOptions| {
        choose_delimited_reader(source, len, indexable, options).expect("reader")
    };
    assert_eq!(choose(&path, 99, true, &options), DelimitedReader::Whole);
    assert_eq!(choose(&path, 100, true, &options), DelimitedReader::Indexed);
    assert_eq!(choose(&path, 100, false, &options), DelimitedReader::Whole);
    assert_eq!(choose(&InputSource::Stdin, 100, true, &options), DelimitedReader::Whole);
    assert_eq!(
        choose(&InputSource::StreamingStdin, 100, true, &options),
        DelimitedReader::Streaming
    );
    let preview = OpenOptions { preview: true, ..options.clone() };
    assert_eq!(
        choose(&InputSource::StreamingStdin, 100, true, &preview),
        DelimitedReader::Preview
    );
    let wrong = OpenOptions {
        format: InputFormat::Delimited,
        json_path: Some(StructuredPath::root()),
        ..preview.clone()
    };
    assert!(choose_delimited_reader(&path, 0, true, &wrong).is_err());
}

#[test]
fn a_picked_table_is_opened_and_kept_and_leaving_the_picker_ends_the_start() {
    let asked = std::cell::RefCell::new(Vec::new());
    let mut source = OpenedSource::relational(
        vec![
            relation("users", RelationAvailability::Selectable),
            relation("broken", RelationAvailability::Selectable),
        ],
        None,
        NamedTables { names: vec!["users"], asked: &asked },
    );
    let mut options = OpenOptions::default();
    assert_eq!(take_picked_table(&mut source, &mut options, None), Ok(false));
    assert_eq!(options.table, None);
    assert!(asked.borrow().is_empty());
    assert_eq!(
        take_picked_table(&mut source, &mut options, Some("broken".to_owned())),
        Err(RelationError::OpenFailed("cannot open broken".to_owned()))
    );
    assert_eq!(
        take_picked_table(&mut source, &mut options, Some("absent".to_owned())),
        Err(RelationError::NotFound { name: "absent".to_owned() })
    );
    assert_eq!(options.table, None);
    assert_eq!(take_picked_table(&mut source, &mut options, Some("users".to_owned())), Ok(true));
    assert_eq!(options.table.as_deref(), Some("users"));
    assert!(source.has_selected_table());
    assert_eq!(*asked.borrow(), ["broken", "users"]);
}
