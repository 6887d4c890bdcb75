//! Saved views: checking, finding, choosing and applying them.

use tview::cli::SavedViewSelection;
use tview::interaction::{FilterMode, SavedViewRuntime};
use tview::json_select::parse_json_rows_with_options;
use tview::json_table::{open_json_rows_with_metadata, JsonTableStore};
use tview::options::{
    InputFormat, ObjectMode, ObjectModeOrigin, OpenOptions, SchemaScan, SourceOptionOverrides,
    StructuredPath,
};
use tview::patterns::{
    glob_matches, match_filename_pattern, validate_glob_pattern, wildcard_specificity,
    FilenamePatternKind, MatchRank,
};
use tview::saved_colors::{
    ConditionalColorRule, ConditionalValue, GradientStop, IdentifierColors, MatchEntry, RangeEntry,
    RawColorRule, RawGradientRule, RawIdentifierColors, RawMapping, YamlValue,
};
use tview::saved_columns::{
    resolve_column_reference, resolve_columns, resolve_structured_columns,
};
use tview::saved_selection::{
    list_view_files, plan_discovery, precedes_path, select_saved_view, DiscoveryStep, SavedViewDiscovery,
    SavedViewFile, ViewChoice, ViewOutcome,
};
use tview::saved_views::{
    normalize_view_name, saved_view_dir, ColumnType, ColumnView, ColumnWidth,
    NumberKind, RawColumnView, RawColumnWidth, RawSavedFilter, RawSavedSourceConfig,
    RawSavedSourceFilter, RawSavedSourceSort, RawSavedView, RawSavedViewConfig, RawSortKey,
    SavedSourceConfig, SavedView, SavedViewConfig, SavedViewParseError, SourceFilterValue, ValidatedSavedView,
    MAX_SORT_KEYS,
};
use tview::startup::{
    apply_saved_view, format_saved_view_warning, selected_saved_view_source_options, ViewRequest,
};
use tview::table::{
    ColumnDefinition, ColumnId, ColumnSourceIdentity, LogicalType, NullPlacement,
    RelationMetadata, RowCount, SchemaState, SourceGeneration, TableDefinition, TypeOrigin,
};
use yaml_serde::Value;

fn text(value: Option<&Value>) -> Option<String> {
    value.and_then(Value::as_str).map(str::to_owned)
}

fn scalar(value: &Value) -> YamlValue {
    match value {
        Value::Null => YamlValue::Null,
        Value::Bool(value) => YamlValue::Bool(*value),
        Value::Number(number) => match number.as_i64() {
            Some(integer) => YamlValue::Integer(integer),
            None => YamlValue::Decimal(number.to_string()),
        },
        Value::String(value) => YamlValue::Text(value.clone()),
        _ => YamlValue::Other,
    }
}

fn mapping(value: &Value) -> RawMapping {
    value.as_mapping().expect("mapping").iter().map(|(k, v)| (scalar(k), scalar(v))).collect()
}

fn list(value: Option<&Value>) -> Vec<Value> {
    value.and_then(Value::as_sequence).cloned().unwrap_or_default()
}

fn words(value: &Value) -> Vec<String> {
    list(Some(value)).iter().map(|item| text(Some(item)).expect("text")).collect()
}

fn color_rule(value: &Value) -> RawColorRule {
    RawColorRule {
        gradient: value.get("gradient").map(|gradient| RawGradientRule {
            mode: text(gradient.get("mode")).expect("mode"),
            stops: gradient.get("stops").map(mapping),
            colors: gradient.get("colors").map(words),
            steps: gradient.get("steps").and_then(Value::as_u64).map(|steps| steps as usize),
        }),
        match_rule: value.get("match").map(mapping),
        range: value.get("range").map(mapping),
        identifiers: value.get("identifiers").map(|rule| {
            rule.get("colors").map(|colors| match colors.as_str() {
                Some(mode) => RawIdentifierColors::Mode(mode.to_owned()),
                None => RawIdentifierColors::Colors(words(colors)),
            })
        }),
    }
}

fn column(value: &Value) -> RawColumnView {
    RawColumnView {
        label: text(value.get("label")),
        nulls: text(value.get("nulls")),
        column_type: text(value.get("type")),
        format: text(value.get("format")),
        mask: text(value.get("mask")),
        width: value.get("width").map(|width| match width.as_u64() {
            Some(fixed) => RawColumnWidth::Fixed(fixed as u16),
            None => RawColumnWidth::Mode(text(Some(width)).expect("width")),
        }),
        align: text(value.get("align")),
        visible: value.get("visible").and_then(Value::as_bool),
        colors: list(value.get("colors")).iter().map(color_rule).collect(),
    }
}

fn raw_view(root: &Value) -> RawSavedView {
    let source = root.get("source").expect("source");
    let view = root.get("view").expect("view");
    let mut columns: Vec<(String, RawColumnView)> = view
        .get("columns")
        .and_then(Value::as_mapping)
        .map(|columns| {
            columns
                .iter()
                .map(|(key, value)| (text(Some(key)).expect("key"), column(value)))
                .collect()
        })
        .unwrap_or_default();
    columns.sort_by(|a, b| a.0.cmp(&b.0));
    let required = |value: &Value, key: &str| text(value.get(key)).expect("field");
    RawSavedView {
        name: required(root, "name"),
        filenames: words(root.get("filenames").expect("filenames")),
        source: RawSavedSourceConfig {
            format: text(source.get("format")),
            json_path: text(source.get("json_path")),
            object_mode: text(source.get("object_mode")),
            schema_scan: text(source.get("schema_scan")),
            table: text(source.get("table")),
            query: text(source.get("query")),
            limit: source.get("limit").and_then(Value::as_u64).map(|limit| limit as usize),
            filters: list(source.get("filters"))
                .iter()
                .map(|filter| RawSavedSourceFilter {
                    column: required(filter, "column"),
                    operator: required(filter, "operator"),
                    value: filter.get("value").map(scalar),
                })
                .collect(),
            sort: list(source.get("sort"))
                .iter()
                .map(|sort| RawSavedSourceSort {
                    column: required(sort, "column"),
                    direction: required(sort, "direction"),
                })
                .collect(),
        },
        view: RawSavedViewConfig {
            locale: text(view.get("locale")),
            nulls: text(view.get("nulls")),
            columns,
            sort: list(view.get("sort"))
                .iter()
                .map(|sort| RawSortKey {
                    column: required(sort, "column"),
                    direction: required(sort, "direction"),
                    kind: required(sort, "kind"),
                })
                .collect(),
            filters: list(view.get("filters"))
                .iter()
                .map(|filter| RawSavedFilter {
                    column: required(filter, "column"),
                    action: required(filter, "action"),
                    kind: required(filter, "kind"),
                    condition: required(filter, "condition"),
                })
                .collect(),
        },
    }
}

fn parse_saved_view_yaml(yaml: &str) -> Result<ValidatedSavedView, SavedViewParseError> {
    let root: Result<Value, String> =
        yaml_serde::from_str(yaml).map_err(|error| error.to_string());
    tview::saved_views::parse_saved_view_yaml(root.map(|root| raw_view(&root)))
}

fn get<'a>(view: &'a SavedView, key: &str) -> Option<&'a ColumnView> {
    view.view.columns.iter().find(|(name, _)| name == key).map(|(_, column)| column)
}

#[test]
fn parses_saved_view_with_aliases_sort_and_filters() {
    let parsed = parse_saved_view_yaml(
        r##"
name: shards
filenames:
  - cat_shards.txt
  - "*shards*"
source: {}
view:
  locale: en_US
  columns:
    Index:
      type: string
      width: 20
    docs:
      type: integer
      format: mask
      mask: "#,##0"
      visible: false
  sort:
    - column: docs
      direction: desc
      kind: numeric
  filters:
    - column: docs
      action: in
      kind: numeric
      condition: ">0"
"##,
    )
    .expect("parse");

    assert!(parsed.warnings.is_empty());
    assert_eq!(parsed.view.name, "shards");
    assert_eq!(parsed.view.view.locale.as_deref(), Some("en_US"));
    assert_eq!(parsed.view.filenames[0].kind, FilenamePatternKind::Exact);
    assert_eq!(parsed.view.filenames[1].kind, FilenamePatternKind::Glob);
    assert_eq!(
        get(&parsed.view, "docs").expect("docs").column_type,
        Some(ColumnType::Number(NumberKind::Int))
    );
    assert_eq!(parsed.view.view.sort.len(), 1);
    assert_eq!(parsed.view.view.filters.len(), 1);
}

#[test]
fn parses_nested_source_query_and_view_configuration() {
    let parsed = parse_saved_view_yaml(
        r#"
name: recent
filenames: [transactions.db]
source:
  format: sqlite
  table: transactions
  limit: 2500
  filters:
    - column: settled
      operator: equal
      value: true
    - column: deleted_at
      operator: is_null
  sort:
    - column: timestamp
      direction: desc
view:
  locale: en_US
  nulls: last
  filters:
    - column: description
      action: in
      kind: regex
      condition: '^invoice-'
  sort:
    - column: user
      direction: asc
      kind: natural
"#,
    )
    .expect("parse");

    assert!(parsed.warnings.is_empty());
    assert_eq!(parsed.view.source.format, Some(InputFormat::Sqlite));
    assert_eq!(parsed.view.source.table.as_deref(), Some("transactions"));
    assert_eq!(parsed.view.source.limit, Some(2500));
    assert_eq!(parsed.view.source.filters.len(), 2);
    assert_eq!(
        parsed.view.source.filters[0].value,
        Some(SourceFilterValue::Boolean(true))
    );
    assert_eq!(parsed.view.source.sort.len(), 1);
    assert_eq!(parsed.view.view.filters.len(), 1);
    assert_eq!(parsed.view.view.sort.len(), 1);
}

#[test]
fn saved_table_and_query_conflict_is_reported_without_choosing_one() {
    let parsed = parse_saved_view_yaml(
        r#"
name: conflict
filenames: [source]
source:
  table: logs
  query: FROM logs
view: {}
"#,
    )
    .expect("parse conflict");
    assert_eq!(parsed.view.source.table.as_deref(), Some("logs"));
    assert_eq!(parsed.view.source.query.as_deref(), Some("FROM logs"));
    assert!(parsed
        .warnings
        .iter()
        .any(|warning| warning.message.contains("mutually exclusive")));
    assert!(parsed
        .view
        .merged_open_options(OpenOptions::default(), &SourceOptionOverrides::default())
        .validate()
        .is_err());
}

#[test]
fn feature_disabled_saved_elasticsearch_format_is_compatible_but_unavailable() {
    let parsed = parse_saved_view_yaml(
        r#"
name: errors
filenames: [elastic]
source:
  format: elasticsearch
  query: FROM logs-*
view: {}
"#,
    )
    .expect("parse");
    assert_eq!(parsed.view.source.format, None);
    assert_eq!(parsed.view.source.query.as_deref(), Some("FROM logs-*"));
    assert!(parsed.warnings.iter().any(|warning| warning.field == "source.format"));
}

#[test]
fn explicit_null_source_operand_is_rejected() {
    let parsed = parse_saved_view_yaml(
        r#"
name: null-operand
filenames: [data.csv]
source:
  filters:
    - column: deleted_at
      operator: equal
      value: null
view: {}
"#,
    )
    .expect("parse");

    assert!(parsed.view.source.filters.is_empty());
    assert!(parsed.warnings.iter().any(|warning| {
        warning.field == "source.filters.value" && warning.message.contains("non-null scalar")
    }));
}

#[test]
fn parses_and_merges_source_label_and_null_options() {
    let parsed = parse_saved_view_yaml(
        r#"
name: elastic
filenames: [response.json]
source:
  format: json
  json_path: /hits/hits
  schema_scan: full
view:
  nulls: first
  columns:
    /_source/user/email:
      label: User email
      nulls: last
"#,
    )
    .expect("parse");

    assert!(parsed.warnings.is_empty());
    assert_eq!(parsed.view.source.format, Some(InputFormat::Json));
    assert_eq!(
        parsed.view.source.json_path.as_ref().expect("path").segments(),
        &["hits", "hits"]
    );
    assert_eq!(parsed.view.source.schema_scan, Some(SchemaScan::Full));
    assert_eq!(parsed.view.view.nulls, Some(NullPlacement::First));
    let email = get(&parsed.view, "/_source/user/email").expect("email");
    assert_eq!(email.label.as_deref(), Some("User email"));
    assert_eq!(email.nulls, Some(NullPlacement::Last));

    let merged = parsed.view.merged_open_options(
        OpenOptions::default(),
        &SourceOptionOverrides {
            schema_scan: Some(SchemaScan::Default),
            ..SourceOptionOverrides::default()
        },
    );
    assert_eq!(merged.format, InputFormat::Json);
    assert_eq!(merged.schema_scan, SchemaScan::Default);
}

#[test]
fn object_mode_validates_merges_and_warns_for_row_streams() {
    let parsed = parse_saved_view_yaml(
        r#"
name: keyed
filenames: [repositories.json]
source:
  format: json
  object_mode: record
view: {}
"#,
    )
    .expect("parse");
    assert!(parsed.warnings.is_empty());
    assert_eq!(parsed.view.source.object_mode, Some(ObjectMode::Record));
    let merged = parsed.view.merged_open_options(
        OpenOptions::default(),
        &SourceOptionOverrides {
            object_mode: Some(ObjectMode::Entries),
            ..SourceOptionOverrides::default()
        },
    );
    assert_eq!(merged.object_mode, ObjectMode::Entries);
    assert_eq!(merged.object_mode_origin, ObjectModeOrigin::Cli);

    let invalid = parse_saved_view_yaml(
        "name: bad\nfilenames: [data]\nsource:\n  object_mode: rows\nview: {}\n",
    )
    .expect("parse invalid");
    assert_eq!(invalid.view.source.object_mode, None);
    assert!(invalid
        .warnings
        .iter()
        .any(|warning| warning.field == "source.object_mode"));

    let row_stream = parse_saved_view_yaml(
        "name: stream\nfilenames: [rows.ndjson]\nsource:\n  format: ndjson\n  object_mode: entries\nview: {}\n",
    )
    .expect("parse stream");
    assert_eq!(row_stream.view.source.object_mode, None);
    assert!(row_stream
        .warnings
        .iter()
        .any(|warning| warning.message.contains("row-stream")));
}

fn open_json(bytes: &[u8], options: &OpenOptions) -> tview::adapter::OpenedTable<JsonTableStore> {
    let parsed = parse_json_rows_with_options(bytes, &options.json_path, options).expect("rows");
    open_json_rows_with_metadata(
        parsed.rows,
        "objects.json".to_owned(),
        options,
        parsed.object_mode,
        parsed.warnings,
        GENERATION,
    )
}

#[test]
fn saved_entries_and_record_modes_apply_before_table_construction() {
    let bytes = br#"{"first":{"value":1},"second":{"value":2}}"#;
    for (mode, expected_rows) in [
        (ObjectMode::Entries, RowCount::Exact(2)),
        (ObjectMode::Record, RowCount::Exact(1)),
    ] {
        let parsed = parse_saved_view_yaml(&format!(
            "name: objects\nfilenames: [objects.json]\nsource:\n  format: json\n  object_mode: {}\nview: {{}}\n",
            mode.label()
        ))
        .expect("saved view");
        let options = parsed
            .view
            .merged_open_options(OpenOptions::default(), &SourceOptionOverrides::default());
        assert_eq!(options.object_mode_origin, ObjectModeOrigin::SavedView);
        let table = open_json(bytes, &options);
        assert_eq!(table.store.row_count(), expected_rows);
        assert_eq!(table.object_mode.unwrap().requested, mode);
    }
}

const GENERATION: SourceGeneration = SourceGeneration { number: 5 };

fn defined(
    ordinal: u32,
    source_identity: ColumnSourceIdentity,
    display_name: &str,
    type_origin: TypeOrigin,
) -> ColumnDefinition {
    ColumnDefinition {
        id: ColumnId { generation: GENERATION, ordinal },
        source_identity,
        display_name: display_name.to_owned(),
        source_declared_type: None,
        source_type: LogicalType::Text,
        type_origin,
    }
}

fn table(columns: Vec<ColumnDefinition>, schema_state: SchemaState) -> TableDefinition {
    TableDefinition {
        generation: GENERATION,
        columns,
        schema_state,
        relation: RelationMetadata::implicit("data".to_owned(), true),
    }
}

fn path(pointer: &str) -> ColumnSourceIdentity {
    ColumnSourceIdentity::StructuredPath(StructuredPath::parse(pointer).unwrap())
}

#[test]
fn structured_saved_columns_resolve_the_object_key_identity() {
    let parsed = parse_saved_view_yaml(
        r#"
name: keyed
filenames: [repositories.json]
source: {}
view:
  columns:
    "@key":
      label: Repository
"#,
    )
    .expect("parse");
    let definition = table(
        vec![defined(0, ColumnSourceIdentity::ObjectKey, "name", TypeOrigin::Declared)],
        SchemaState::Complete,
    );
    let resolved = resolve_structured_columns(&parsed.view, &definition);
    assert_eq!(
        resolved.columns[0].as_ref().and_then(|column| column.view.label.as_deref()),
        Some("Repository")
    );
}

#[test]
fn invalid_source_and_null_values_warn_non_fatally() {
    let parsed = parse_saved_view_yaml(
        r#"
name: bad-source
filenames: [data]
source:
  format: parquet
  json_path: hits/hits
  schema_scan: endless
view:
  nulls: middle
  columns:
    a:
      label: ""
      nulls: middle
"#,
    )
    .expect("parse");
    assert_eq!(parsed.warnings.len(), 6);
    assert_eq!(parsed.view.source.format, None);
    assert_eq!(parsed.view.source.json_path, None);
    assert_eq!(parsed.view.source.schema_scan, None);
    assert_eq!(parsed.view.view.nulls, None);
}

#[test]
fn invalid_semantic_values_are_warnings() {
    let parsed = parse_saved_view_yaml(
        r#"
name: bad
filenames:
  - "[broken"
source: {}
view:
  locale: "?"
  columns:
    "*count":
      type: text
      format: mask
      mask: "bad"
  sort:
    - column: count
      direction: sideways
      kind: numeric
  filters:
    - column: name
      action: in
      kind: regex
      condition: "["
"#,
    )
    .expect("parse");

    assert!(parsed.view.filenames.is_empty());
    assert!(parsed.view.view.sort.is_empty());
    assert!(parsed.view.view.filters.is_empty());
    assert!(parsed.warnings.len() >= 5);
}

#[test]
fn limits_sort_keys_to_three() {
    let parsed = parse_saved_view_yaml(
        r#"
name: sort
filenames: [data.csv]
source: {}
view:
  sort:
    - { column: a, direction: asc, kind: lexical }
    - { column: b, direction: asc, kind: lexical }
    - { column: c, direction: asc, kind: lexical }
    - { column: d, direction: asc, kind: lexical }
"#,
    )
    .expect("parse");

    assert_eq!(parsed.view.view.sort.len(), MAX_SORT_KEYS);
    assert!(parsed.warnings.iter().any(|warning| warning.field == "view.sort"));
}

#[test]
fn saved_view_dir_uses_tview_views_under_config_root() {
    assert_eq!(
        saved_view_dir(&Some("/tmp/config".to_owned())),
        Some("/tmp/config/tview/views".to_owned())
    );
}

fn discover(files: &[(&str, &str)]) -> SavedViewDiscovery {
    let paths: Vec<String> = files.iter().map(|(path, _)| (*path).to_owned()).collect();
    let mut found = SavedViewDiscovery::default();
    for step in plan_discovery(&list_view_files(&paths)) {
        match step {
            DiscoveryStep::Duplicate { path, name } => found.skip(&path, &name),
            DiscoveryStep::Read { path, name } => {
                let yaml = files.iter().find(|(other, _)| *other == path).expect("file").1;
                let outcome = match parse_saved_view_yaml(yaml) {
                    Ok(view) => ViewOutcome::Parsed(view),
                    Err(error) => ViewOutcome::Unparsed(error),
                };
                found.read(&path, &name, outcome);
            }
        }
    }
    found
}

#[test]
fn discovers_yml_before_yaml_duplicate_stems() {
    let discovered = discover(&[
        (
            "views/cat-shards.yaml",
            "name: cat-shards\nfilenames: [ignored.txt]\nsource: {}\nview: {}\n",
        ),
        ("views/notes.txt", ""),
        (
            "views/cat-shards.yml",
            "name: cat-shards\nfilenames: [cat_shards.txt]\nsource: {}\nview: {}\n",
        ),
    ]);

    assert_eq!(discovered.views.len(), 1);
    assert_eq!(discovered.views[0].path, "views/cat-shards.yml");
    assert_eq!(discovered.views[0].canonical_name, "cat-shards");
    assert_eq!(discovered.warnings.len(), 1);
}

#[test]
fn malformed_saved_view_warns_without_blocking_valid_views() {
    let discovered = discover(&[
        ("views/bad.yml", "name: ["),
        (
            "views/good.yml",
            "name: good\nfilenames: [data.csv]\nsource: {}\nview: {}\n",
        ),
    ]);

    assert_eq!(discovered.views.len(), 1);
    assert_eq!(discovered.views[0].canonical_name, "good");
    assert_eq!(discovered.warnings.len(), 1);
    assert!(discovered.warnings[0]
        .message
        .starts_with("failed to parse saved view: invalid saved view yaml: "));
}

fn three_views() -> SavedViewDiscovery {
    discover(&[
        (
            "views/regex.yml",
            "name: regex\nfilenames: ['^cat_.*txt$']\nsource: {}\nview: {}\n",
        ),
        ("views/glob.yml", "name: glob\nfilenames: ['*shards*']\nsource: {}\nview: {}\n"),
        (
            "views/exact.yml",
            "name: exact\nfilenames: [cat_shards.txt]\nsource: {}\nview: {}\n",
        ),
    ])
}

#[test]
fn selects_exact_before_glob_before_regex() {
    let discovered = three_views();
    let selected = select_saved_view(
        &discovered.views,
        &ViewChoice::Auto { input_path: "/tmp/cat_shards.txt" },
        false,
    )
    .expect("selected");

    assert_eq!(selected.view.canonical_name, "exact");
}

#[test]
fn force_selection_normalizes_yaml_extension() {
    let view = SavedViewFile {
        path: "cat-shards.yml".to_owned(),
        canonical_name: "cat-shards".to_owned(),
        view: SavedView {
            name: "cat-shards".to_owned(),
            filenames: Vec::new(),
            source: SavedSourceConfig {
                format: None,
                json_path: None,
                object_mode: None,
                schema_scan: None,
                table: None,
                query: None,
                limit: None,
                filters: Vec::new(),
                sort: Vec::new(),
            },
            view: SavedViewConfig {
                locale: None,
                nulls: None,
                columns: Vec::new(),
                sort: Vec::new(),
                filters: Vec::new(),
            },
        },
        warnings: Vec::new(),
    };

    let views = vec![view];
    let selected =
        select_saved_view(&views, &ViewChoice::Force { name: "cat-shards.yaml" }, false)
            .expect("selected");

    assert_eq!(selected.view.canonical_name, "cat-shards");
}

#[test]
fn resolves_columns_exact_case_insensitive_before_wildcard() {
    let parsed = parse_saved_view_yaml(
        r#"
name: columns
filenames: [data.csv]
source: {}
view:
  columns:
    count:
      width: 20
    "*count":
      visible: false
"#,
    )
    .expect("parse");
    let headers = vec!["Count".to_owned(), "docs_count".to_owned()];

    let resolved = resolve_columns(&parsed.view, &headers);

    assert!(resolved.warnings.is_empty());
    assert_eq!(resolved.columns[0].as_ref().expect("count").source_key, "count");
    assert_eq!(
        resolved.columns[0].as_ref().expect("count").view.width,
        Some(ColumnWidth::Fixed(20))
    );
    assert_eq!(resolved.columns[1].as_ref().expect("docs_count").source_key, "*count");
    assert_eq!(resolved.columns[1].as_ref().expect("docs_count").view.visible, Some(false));
}

#[test]
fn resolves_wildcard_by_specificity_then_key_order_and_warns_unmatched() {
    let parsed = parse_saved_view_yaml(
        r#"
name: columns
filenames: [data.csv]
source: {}
view:
  columns:
    "*count":
      visible: false
    "docs_count*":
      width: 10
    missing:
      width: 5
"#,
    )
    .expect("parse");
    let headers = vec!["DOCS_COUNT".to_owned()];

    let resolved = resolve_columns(&parsed.view, &headers);

    assert_eq!(resolved.columns[0].as_ref().expect("docs_count").source_key, "docs_count*");
    assert_eq!(
        resolved.columns[0].as_ref().expect("docs_count").view.width,
        Some(ColumnWidth::Fixed(10))
    );
    assert!(resolved
        .warnings
        .iter()
        .any(|warning| warning.field == "view.columns.missing"));
}

#[test]
fn structured_columns_prefer_canonical_identity_and_retain_pending_paths() {
    let parsed = parse_saved_view_yaml(
        r#"
name: json
filenames: [data.json]
source: {}
view:
  columns:
    /customer/email:
      label: Customer
    email:
      visible: false
    /late/value:
      width: 12
"#,
    )
    .expect("parse");
    let definition = table(
        vec![
            defined(0, path("/customer/email"), "email", TypeOrigin::Inferred),
            defined(1, path("/billing/email"), "email", TypeOrigin::Inferred),
        ],
        SchemaState::Provisional,
    );
    let resolved = resolve_structured_columns(&parsed.view, &definition);
    assert_eq!(
        resolved.columns[0].as_ref().expect("canonical").source_key,
        "/customer/email"
    );
    assert!(resolved.columns[1].is_none());
    assert!(resolved.pending.iter().any(|(key, _)| key == "/late/value"));
    assert!(resolved
        .warnings
        .iter()
        .any(|warning| warning.message.contains("ambiguous")));
    assert_eq!(
        resolved
            .warnings
            .iter()
            .filter(|warning| warning.message.contains("ambiguous"))
            .count(),
        1
    );
}

#[test]
fn duplicate_relational_columns_use_occurrence_keys_and_reject_ambiguity() {
    let relation = "joined".to_owned();
    let column = |ordinal: u32| ColumnDefinition {
        source_declared_type: Some("TEXT".to_owned()),
        ..defined(
            ordinal,
            ColumnSourceIdentity::RelationColumn {
                relation: relation.clone(),
                ordinal: ordinal as usize,
                name: "name".to_owned(),
            },
            "name",
            TypeOrigin::Declared,
        )
    };
    let definition = TableDefinition {
        generation: GENERATION,
        columns: vec![column(0), column(1)],
        schema_state: SchemaState::Complete,
        relation: RelationMetadata {
            name: relation.clone(),
            display_name: relation.clone(),
            header_visible: true,
        },
    };
    assert_eq!(definition.canonical_column_key(0).as_deref(), Some("name#1"));
    assert_eq!(definition.canonical_column_key(1).as_deref(), Some("name#2"));

    let deterministic = parse_saved_view_yaml(
        r#"
name: duplicate
filenames: [joined.db]
source: {}
view:
  columns:
    "name#2":
      label: Secondary
"#,
    )
    .expect("deterministic saved view");
    let resolved = resolve_structured_columns(&deterministic.view, &definition);
    assert!(resolved.columns[0].is_none());
    assert_eq!(
        resolved.columns[1].as_ref().expect("second occurrence").source_key,
        "name#2"
    );

    let ambiguous = parse_saved_view_yaml(
        r#"
name: ambiguous
filenames: [joined.db]
source: {}
view:
  columns:
    name:
      visible: false
"#,
    )
    .expect("ambiguous saved view");
    let resolved = resolve_structured_columns(&ambiguous.view, &definition);
    assert!(resolved.columns.iter().all(Option::is_none));
    assert!(resolved
        .warnings
        .iter()
        .any(|warning| warning.message.contains("ambiguous")));
}

fn numeral(value: &str) -> Option<String> {
    Some(value.to_owned())
}

#[test]
fn parses_conditional_color_rules_and_warns_for_invalid_rules() {
    let parsed = parse_saved_view_yaml(
        r##"
name: colors
filenames: [data.csv]
source: {}
view:
  columns:
    health:
      colors:
        - match:
            true: green
            false: muted
            "": red
        - range:
            "<10": red
            ">=90": red
            ">=50 <75": yellow
        - gradient:
            mode: fixed
            stops:
              10: green
              "90": yellow
        - gradient:
            mode: auto
            steps: 5
            colors: [green, yellow, red]
        - identifiers:
            colors: auto
        - identifiers:
            colors: [green, "#ff00ffff"]
        - range:
            nope: red
"##,
    )
    .expect("parse");

    let colors = &get(&parsed.view, "health").expect("health").colors;
    assert_eq!(colors.len(), 6);
    assert_eq!(
        colors[0],
        ConditionalColorRule::Match {
            entries: vec![
                MatchEntry { value: ConditionalValue::Bool(true), color: "green".to_owned() },
                MatchEntry { value: ConditionalValue::Bool(false), color: "muted".to_owned() },
            ]
        }
    );
    assert_eq!(
        colors[1],
        ConditionalColorRule::Range {
            bounds: vec![
                RangeEntry {
                    lt: numeral("10"),
                    lte: None,
                    gt: None,
                    gte: None,
                    color: "red".to_owned(),
                },
                RangeEntry {
                    lt: None,
                    lte: None,
                    gt: None,
                    gte: numeral("90"),
                    color: "red".to_owned(),
                },
                RangeEntry {
                    lt: numeral("75"),
                    lte: None,
                    gt: None,
                    gte: numeral("50"),
                    color: "yellow".to_owned(),
                },
            ]
        }
    );
    assert_eq!(
        colors[2],
        ConditionalColorRule::FixedGradient {
            stops: vec![
                GradientStop { value: "10".to_owned(), color: "green".to_owned() },
                GradientStop { value: "90".to_owned(), color: "yellow".to_owned() },
            ]
        }
    );
    assert!(parsed
        .warnings
        .iter()
        .any(|warning| warning.field.contains("colors.0.match")));
    assert!(parsed
        .warnings
        .iter()
        .any(|warning| warning.field.contains("colors.6.range")));
    assert_eq!(
        colors[5],
        ConditionalColorRule::Identifiers {
            colors: IdentifierColors::Colors(vec!["green".to_owned(), "#ff00ffff".to_owned()])
        }
    );
}

#[test]
fn names_and_patterns_follow_their_rules() {
    assert_eq!(normalize_view_name("cat-shards.yml"), "cat-shards");
    assert!(glob_matches("*.csv", "data.csv", false));
    assert!(!glob_matches("*.csv", "data.tsv", false));
    assert!(glob_matches("a?c[079]", "abc7", false));
    assert!(!glob_matches("a?c[0-9]", "abc7", false));
    assert!(!glob_matches("a.c", "abc", false));
    assert!(validate_glob_pattern("[broken").is_err());
    assert_eq!(wildcard_specificity("docs_count*"), 10);
    let regex = parse_saved_view_yaml(
        "name: r\nfilenames: ['^a+$', 'A.csv']\nsource: {}\nview: {}\n",
    )
    .unwrap();
    let patterns = &regex.view.filenames;
    assert_eq!(patterns[0].kind, FilenamePatternKind::Regex);
    assert_eq!(match_filename_pattern(&patterns[0], "aaa", false), Some(MatchRank::Regex));
    assert_eq!(match_filename_pattern(&patterns[0], "ab", false), None);
    assert_eq!(match_filename_pattern(&patterns[1], "a.csv", false), None);
    assert_eq!(match_filename_pattern(&patterns[1], "a.csv", true), Some(MatchRank::Exact));
}

#[test]
fn columns_are_referred_to_by_name_before_pattern() {
    let headers = vec!["docs_count".to_owned(), "Count".to_owned()];
    assert_eq!(resolve_column_reference(&headers, "count"), Some(1));
    assert_eq!(resolve_column_reference(&headers, "*count"), Some(0));
    assert_eq!(resolve_column_reference(&headers, "missing"), None);
}

#[test]
fn ties_are_told_and_broken_by_path() {
    let discovered = discover(&[
        ("views/b.yml", "name: b\nfilenames: ['*.csv']\nsource: {}\nview: {}\n"),
        ("views/a.yml", "name: a\nfilenames: ['*.csv']\nsource: {}\nview: {}\n"),
    ]);
    let choice = ViewChoice::Auto { input_path: "in/data.csv" };
    let selected = select_saved_view(&discovered.views, &choice, false).expect("selected");
    assert_eq!(selected.view.canonical_name, "a");
    assert_eq!(
        selected.warnings[0].message,
        "multiple saved views matched 'data.csv'; using views/a.yml"
    );
    assert!(select_saved_view(
        &discovered.views,
        &ViewChoice::Auto { input_path: "data.tsv" },
        false
    )
    .is_none());
}

fn request<'a>(
    selection: &'a SavedViewSelection,
    identity: &'a str,
    view_dir: &'a Option<String>,
) -> ViewRequest<'a> {
    ViewRequest { selection, identity, view_dir, ignore_case: false, unsorted: false }
}

#[test]
fn a_view_that_is_asked_for_has_to_be_there() {
    let discovered = three_views();
    let missing = SavedViewSelection::Force("other".to_owned());
    let dir = Some("/views".to_owned());
    let error = apply_saved_view(&request(&missing, "data.csv", &dir), &discovered, &None, &None)
        .expect_err("missing view");
    assert_eq!(error, "saved view 'other' was requested but was not found");
    assert_eq!(
        selected_saved_view_source_options(&discovered.views, &missing, "data.csv", false),
        Err(error)
    );
    let disabled = SavedViewSelection::Disabled;
    let none =
        apply_saved_view(&request(&disabled, "data.csv", &dir), &discovered, &None, &None);
    assert_eq!(none.expect("disabled"), None);
}

#[test]
fn inputs_without_a_view_get_a_place_for_one() {
    let dir = Some("/views".to_owned());
    let auto = SavedViewSelection::Auto;
    let applied = apply_saved_view(
        &request(&auto, "in/report.tar.gz", &dir),
        &SavedViewDiscovery::default(),
        &None,
        &None,
    )
    .unwrap()
    .expect("runtime");
    assert_eq!(
        applied.runtime,
        SavedViewRuntime {
            source_path: None,
            target_path: Some("/views/report.tar.yml".to_owned()),
            view_name: "report.tar".to_owned(),
            explicit_locale: None,
            messages: Vec::new(),
        }
    );
    assert!(applied.changes.is_none());
}

#[test]
fn views_change_columns_sorts_and_filters() {
    let discovered = discover(&[(
        "views/data.yml",
        r#"
name: data
filenames: [data.json]
source:
  limit: 7
view:
  nulls: first
  columns:
    /id:
      width: 4
  sort:
    - { column: /id, direction: desc, kind: numeric }
    - { column: missing, direction: asc, kind: lexical }
  filters:
    - { column: name, action: out, kind: text, condition: x }
    - { column: /late, action: in, kind: text, condition: y }
"#,
    )]);
    let auto = SavedViewSelection::Auto;
    let dir = None;
    let header = Some(vec!["id".to_owned(), "name".to_owned()]);
    let definition = Some(table(
        vec![
            defined(0, path("/id"), "id", TypeOrigin::Inferred),
            defined(1, path("/name"), "name", TypeOrigin::Inferred),
        ],
        SchemaState::Provisional,
    ));
    let applied =
        apply_saved_view(&request(&auto, "data.json", &dir), &discovered, &header, &definition)
            .unwrap()
            .expect("applied");
    let changes = applied.changes.expect("changes");
    assert_eq!(changes.nulls, Some(NullPlacement::First));
    assert_eq!(changes.sort.len(), 1);
    assert_eq!(changes.sort[0].column, 0);
    assert_eq!(changes.filters.len(), 1);
    assert_eq!((changes.filters[0].column, changes.filters[0].mode), (1, FilterMode::Out));
    let pending = changes.pending.expect("pending");
    assert_eq!(pending.sort.len(), 2);
    assert_eq!(pending.filters.len(), 1);
    assert_eq!(pending.filters[0].column, "/late");
    assert_eq!(applied.runtime.source_path.as_deref(), Some("views/data.yml"));

    let options =
        selected_saved_view_source_options(&discovered.views, &auto, "data.json", false).unwrap();
    assert_eq!(options.limit.expect("limit").get(), 7);

    let unsorted = ViewRequest { unsorted: true, ..request(&auto, "data.json", &dir) };
    let plain = apply_saved_view(&unsorted, &discovered, &header, &definition).unwrap().unwrap();
    assert!(plain.changes.expect("changes").sort.is_empty());
}

#[test]
fn warnings_are_formatted_with_their_field() {
    let parsed = parse_saved_view_yaml(
        "name: bad\nfilenames: [data]\nsource:\n  schema_scan: endless\nview: {}\n",
    )
    .unwrap();
    let line = format_saved_view_warning(&parsed.warnings[0]);
    assert!(line.starts_with("saved view: source.schema_scan: "));
}

#[test]
fn paths_are_ordered_as_the_standard_library_orders_them() {
    let paths = [
        "", "/", ".", "..", "a", "a/b", "a//b", "a/./b", "./a", "../a", "/a", "/a/", "/a/b", "/./a",
        "a/..", "a/b/c", "ab", "a.b", "a-b/c", "a/b.yml", "b", "\u{e9}", "Z", "a/.", "//a", "/..",
    ];
    for left in paths {
        for right in paths {
            let expected = std::path::Path::new(left) < std::path::Path::new(right);
            assert_eq!(precedes_path(left, right), expected, "{left:?} before {right:?}");
        }
    }
}

#[test]
fn view_files_of_a_directory_are_read_in_ascending_order_of_their_names() {
    let paths = ["v/b.yaml", "v/a.yaml", "v/note.txt", "v/b.yml", "v/c.yaml", "v/a.b.yml", "v/B.yml"]
        .map(str::to_owned)
        .to_vec();
    let files = list_view_files(&paths);
    assert_eq!(
        files,
        ["v/B.yml", "v/a.yaml", "v/a.b.yml", "v/b.yml", "v/b.yaml", "v/c.yaml"]
    );
    let names = plan_discovery(&files)
        .into_iter()
        .filter_map(|step| match step {
            DiscoveryStep::Read { name, .. } => Some(name),
            DiscoveryStep::Duplicate { .. } => None,
        })
        .collect::<Vec<_>>();
    assert_eq!(names, ["B", "a", "a.b", "b", "c"]);
    assert!(names.windows(2).all(|pair| pair[0] < pair[1]));
}

#[test]
fn columns_of_a_view_keep_ascending_keys() {
    let parsed = parse_saved_view_yaml(
        r##"
name: ordered
filenames:
  - data.csv
source: {}
view:
  columns:
    zeta: {}
    "a[": {}
    "": {}
    Beta: {}
    alpha: {}
"##,
    )
    .expect("parse");
    let keys = parsed.view.view.columns.iter().map(|(key, _)| key.as_str()).collect::<Vec<_>>();
    assert_eq!(keys, ["Beta", "alpha", "zeta"]);
    assert!(keys.windows(2).all(|pair| pair[0] < pair[1]));
    assert_eq!(parsed.warnings.len(), 2);
}
