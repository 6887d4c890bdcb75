//! Keys, commands and dialogues.

use tview::column_modal::{
    handle_column_info_key, ColumnFilterSummary, ColumnFormatChoice, ColumnInfo, ColumnInfoModal,
    ColumnInfoStep, ColumnSortChoice, ColumnTypeChoice,
};
use tview::interaction::{
    after_filter_submission, after_save, apply, command_source, handle_filter_key, handle_key,
    handle_saved_view_key, handle_search_key, open_saved_view, pick_table, save_view,
    search_moves, watches_source, Axis, Command, CommandContext, CommandSource, FilterMode,
    FilterPrompt, FilterStep, KeyAction, KeyRoute, KindSupport, PickerStep, Popup, SaveStep,
    SavedViewRuntime, SearchStep, SkipDirection, SortMode, ViewAction, ViewModal, ViewModalStep,
};
use tview::keys::{KeyCode, KeyEvent, KeyModifiers};
use tview::options::{
    InputFormat, ObjectMode, ObjectModeResolution, OpenOptions, ResolvedObjectMode, SchemaScan,
    StructuredPath,
};
use tview::saved_views::FilterKind;
use tview::source::InputSource;
use tview::source_modal::{
    after_source_request, handle_source_config_key, open_source_config, parse_source_operand,
    remember_request, same_query, CapabilityStatus, SourceColumn, SourceConfigModal, SourceContext, SourceStep,
};
use tview::startup::restore_before_export;
use tview::status::{
    footer_status, full_schema_scan_status, help_popup_area, info_text, popup_area,
    query_modal_body, query_popup_actions, source_count_status, source_extent_label,
    source_modal_body, table_area, Area, MappingField, Position, QueryProvenance, ResultExtent,
    SourceSummary, ViewSummary,
};
use tview::table::{
    ColumnId, ColumnWidthMode, RowCount, SortDirection, SourceFilter, SourceFilterOperator,
    SourceFilterScope, SourceGeneration, SourceOperand, SourceQuery,
};
use tview::view_comments::{merge_saved_view_comments, split_yaml_inline_comment};

const GENERATION: SourceGeneration = SourceGeneration { number: 2 };

fn key(code: KeyCode) -> KeyEvent {
    KeyEvent { code, modifiers: KeyModifiers::Plain }
}

fn typed(c: char) -> KeyEvent {
    key(KeyCode::Char(c))
}

#[test]
fn restoration_failure_prevents_final_export() {
    let exported = std::cell::Cell::new(false);
    let error = restore_before_export(
        || Err(std::io::Error::other("restore failed")),
        || {
            exported.set(true);
            Ok(())
        },
    )
    .expect_err("restoration must fail");
    assert!(error.to_string().contains("restore failed"));
    assert!(!exported.get());
}

#[test]
fn source_status_is_transient_before_the_live_count_returns() {
    assert_eq!(
        footer_status(Some("Indexed 4096 rows"), None, "4096+ rows"),
        "Indexed 4096 rows"
    );
    assert_eq!(footer_status(None, None, "4096+ rows"), "4096+ rows");
}

#[test]
fn missing_source_extent_is_pending_only_while_a_query_runs() {
    assert_eq!(source_extent_label(None, true), "pending");
    assert_eq!(source_extent_label(None, false), "unknown");
}

#[test]
fn explicit_full_schema_scan_has_specific_opening_status() {
    let source = InputSource::Path("response.json".to_owned());
    let options = OpenOptions { schema_scan: SchemaScan::Full, ..OpenOptions::default() };

    assert_eq!(
        full_schema_scan_status(&source, &options).as_deref(),
        Some("Scanning full schema for response.json")
    );
    assert!(full_schema_scan_status(&source, &OpenOptions::default()).is_none());

    let delimited = InputSource::Path("data.csv".to_owned());
    assert!(full_schema_scan_status(&delimited, &options).is_none());

    let explicitly_delimited =
        OpenOptions { format: InputFormat::Delimited, ..options.clone() };
    assert!(full_schema_scan_status(&source, &explicitly_delimited).is_none());

    let selected_json =
        OpenOptions { json_path: Some(StructuredPath::parse("/rows").unwrap()), ..options };
    let unknown = InputSource::Path("response.data".to_owned());
    assert_eq!(
        full_schema_scan_status(&unknown, &selected_json).as_deref(),
        Some("Scanning full schema for response.data")
    );
}

fn summary(mode: Option<ObjectModeResolution>) -> ViewSummary {
    ViewSummary {
        rows: RowCount::AtLeast(3),
        visible_rows: 2,
        source_rows: 3,
        extent: Some(ResultExtent::Truncated { limit: 50 }),
        partial: true,
        columns: 4,
        cursor: Position { row: 0, column: 1 },
        width_mode: ColumnWidthMode::Fixed(12),
        gap: 2,
        mark: Some(Position { row: 4, column: 5 }),
        object_mode: mode,
    }
}

#[test]
fn source_info_reports_auto_entries_and_record_override_hint() {
    let info = info_text(&summary(Some(ObjectModeResolution {
        requested: ObjectMode::Auto,
        resolved: ResolvedObjectMode::Entries,
    })));
    assert!(info.contains("Object mode: auto → entries"));
    assert!(info.contains("--object-mode record"));
}

#[test]
fn source_info_tells_of_rows_extent_and_position() {
    assert_eq!(
        info_text(&summary(Some(ObjectModeResolution {
            requested: ObjectMode::Entries,
            resolved: ResolvedObjectMode::Entries,
        }))),
        "Rows: 3+\nVisible rows: 2\nFetched source rows: 3\nSource extent: limited to 50, partial\nColumns: 4\nPosition: 1,2\nWidth mode: Fixed(12)\nColumn gap: 2\nMark: 5,6\nObject mode: entries"
    );
    assert_eq!(
        source_count_status(None, true, false, 1, 9),
        "1 visible / 9 source (querying)"
    );
    assert_eq!(
        source_count_status(Some(ResultExtent::Complete), false, true, 1, 9),
        "1 visible / 9 source (complete, partial)"
    );
}

fn text_only() -> KindSupport {
    KindSupport { text: true, regex: true, numeric: false }
}

fn all_kinds() -> KindSupport {
    KindSupport { text: true, regex: true, numeric: true }
}

fn stay(step: FilterStep) -> FilterPrompt {
    match step {
        FilterStep::Stay(prompt) => prompt,
        other => panic!("prompt is gone: {other:?}"),
    }
}

#[test]
fn filter_prompt_defaults_from_column_type_and_tabs_enabled_kinds() {
    let prompt = FilterPrompt::new(FilterMode::In, 0, text_only(), FilterKind::Text);
    assert_eq!(prompt.selected_kind, FilterKind::Text);
    assert!(!prompt.enabled_kinds.contains(&FilterKind::Numeric));

    assert_eq!(handle_filter_key(Some(prompt), key(KeyCode::Esc)), FilterStep::Close);
    let prompt = FilterPrompt::new(FilterMode::Out, 1, all_kinds(), FilterKind::Numeric);
    assert_eq!(prompt.mode, FilterMode::Out);
    assert_eq!(prompt.selected_kind, FilterKind::Numeric);
    assert!(prompt.enabled_kinds.contains(&FilterKind::Text));
    assert!(prompt.enabled_kinds.contains(&FilterKind::Regex));
    assert!(prompt.enabled_kinds.contains(&FilterKind::Numeric));

    let prompt = stay(handle_filter_key(Some(prompt), key(KeyCode::Tab)));
    let prompt = stay(handle_filter_key(Some(prompt), typed('g')));
    assert_eq!(prompt.selected_kind, FilterKind::Text);
    assert_eq!(prompt.input, "g");
}

/// The rows of one column, and the text that the ones shown hold.
struct FilteredRows {
    rows: Vec<&'static str>,
    filter: Option<String>,
}

impl FilteredRows {
    fn visible(&self) -> Vec<&'static str> {
        let shown = |row: &&str| self.filter.as_ref().map_or(true, |text| row.contains(text.as_str()));
        self.rows.iter().copied().filter(shown).collect()
    }

    /// Opens a prompt, hands it keys, and does what it asks for.
    fn prompt(&mut self, keys: &[KeyEvent]) {
        let action = apply(KeyAction { command: Command::FilterIn, count: None }, command_context());
        assert_eq!(action, ViewAction::OpenFilter(FilterMode::In));
        let mut prompt = Some(FilterPrompt::new(FilterMode::In, 0, text_only(), FilterKind::Text));
        for event in keys {
            let open = prompt.take();
            assert!(open.is_some());
            match handle_filter_key(open, *event) {
                FilterStep::Stay(next) => prompt = Some(next),
                FilterStep::Close => {}
                FilterStep::Clear { column } => {
                    assert_eq!(column, 0);
                    self.filter = None;
                }
                FilterStep::Submit(next) => {
                    assert_eq!((next.column, next.mode), (0, FilterMode::In));
                    assert_eq!(next.selected_kind, FilterKind::Text);
                    self.filter = Some(next.input.clone());
                    assert_eq!(after_filter_submission(next, None), FilterStep::Close);
                }
            }
        }
        assert!(prompt.is_none());
    }
}

#[test]
fn filter_prompt_applies_cancels_and_clears_filters() {
    let mut view = FilteredRows { rows: vec!["alpha", "beta"], filter: None };

    view.prompt(&[typed('a'), key(KeyCode::Esc)]);
    assert_eq!(view.visible().len(), 2);

    view.prompt(&[typed('a'), typed('l'), typed('p'), key(KeyCode::Enter)]);
    assert_eq!(view.visible(), ["alpha"]);

    view.prompt(&[key(KeyCode::Enter)]);
    assert_eq!(view.visible().len(), 2);
}

#[test]
fn counts_of_any_size_go_to_commands_without_a_direction() {
    let run = |command: Command, count: usize| {
        apply(KeyAction { command, count: Some(count) }, command_context())
    };
    assert_eq!(run(Command::GotoRow, usize::MAX), ViewAction::GotoUserRow(usize::MAX));
    assert_eq!(
        run(Command::PageUp, usize::MAX),
        ViewAction::PageBy { rows: -1, columns: 0, count: usize::MAX }
    );
    assert_eq!(run(Command::ColumnHideLeft, usize::MAX), ViewAction::HideLeft(usize::MAX));
    assert_eq!(run(Command::GapDown, 3), ViewAction::AdjustGap(-3));
    assert_eq!(run(Command::AllColumnsWider, 3), ViewAction::AdjustAllWidths(3));
}

#[test]
fn filter_prompt_submits_clears_and_keeps_faults() {
    let mut prompt = FilterPrompt::new(FilterMode::In, 0, text_only(), FilterKind::Text);
    for c in "alp".chars() {
        prompt = stay(handle_filter_key(Some(prompt), typed(c)));
    }
    let submitted = match handle_filter_key(Some(prompt), key(KeyCode::Enter)) {
        FilterStep::Submit(prompt) => prompt,
        other => panic!("not submitted: {other:?}"),
    };
    assert_eq!(submitted.input, "alp");
    let refused = stay(after_filter_submission(submitted, Some("bad filter".to_owned())));
    assert_eq!(refused.error.as_deref(), Some("bad filter"));
    let edited = stay(handle_filter_key(Some(refused), key(KeyCode::Backspace)));
    assert_eq!((edited.input.as_str(), edited.error.as_deref()), ("al", None));
    assert_eq!(after_filter_submission(edited, None), FilterStep::Close);

    let empty = FilterPrompt::new(FilterMode::In, 4, text_only(), FilterKind::Text);
    assert_eq!(
        handle_filter_key(Some(empty), key(KeyCode::Enter)),
        FilterStep::Clear { column: 4 }
    );
    assert_eq!(handle_filter_key(None, typed('a')), FilterStep::Close);
}

fn column_info(filters: Vec<ColumnFilterSummary>) -> ColumnInfo {
    ColumnInfo {
        name: "Name".to_owned(),
        visible_column: 0,
        source_column: 0,
        filters,
        visible: true,
        alignment: None,
        column_type: ColumnTypeChoice::Text,
        format: ColumnFormatChoice::Plain,
        sort: ColumnSortChoice::Unsorted,
        nulls: "Last".to_owned(),
        canonical_source: None,
        source_type: None,
        source_declared_type: Some("TEXT".to_owned()),
        source_operations: vec!["source sort".to_owned(), "source filter".to_owned()],
    }
}

fn press(modal: ColumnInfoModal, code: KeyCode) -> ColumnInfoModal {
    match handle_column_info_key(Some(modal), key(code)) {
        ColumnInfoStep::Stay(modal) => modal,
        other => panic!("dialogue is gone: {other:?}"),
    }
}

#[test]
fn column_info_modal_edits_format_and_sort() {
    let mut modal = ColumnInfoModal::from_info(column_info(Vec::new()));
    let popup = modal.popup();
    assert!(popup.summary.contains("Name"));
    assert!(popup.summary.contains("declared:TEXT"));
    assert!(popup.summary.contains("[source sort, source filter]"));
    assert!(popup.sections.iter().any(|section| section.header == "Type"));
    assert!(popup
        .sections
        .iter()
        .find(|section| section.header == "Filters")
        .is_some_and(|section| section.options.is_empty() && section.details == ["None"]));

    for _ in 0..3 {
        modal = press(modal, KeyCode::Tab);
    }
    modal = press(modal, KeyCode::Down);
    modal = press(modal, KeyCode::Tab);
    modal = press(modal, KeyCode::Down);
    let update = match handle_column_info_key(Some(modal), key(KeyCode::Enter)) {
        ColumnInfoStep::Update(update) => update,
        other => panic!("not saved: {other:?}"),
    };
    assert_eq!(update.format, ColumnFormatChoice::Uppercase);
    assert_eq!(update.sort, ColumnSortChoice::Ascending);
    assert!(!update.clear_filters);
}

#[test]
fn column_info_modal_displays_and_clears_filters() {
    let mut modal = ColumnInfoModal::from_info(column_info(vec![ColumnFilterSummary {
        mode: "in".to_owned(),
        kind: "text".to_owned(),
        input: "alp".to_owned(),
    }]));
    let popup = modal.popup();
    assert!(popup
        .sections
        .iter()
        .flat_map(|section| section.details.iter())
        .any(|detail| detail.contains("in text alp")));

    for _ in 0..5 {
        modal = press(modal, KeyCode::Tab);
    }
    modal = press(modal, KeyCode::Down);
    assert_eq!(modal.popup().sections[5].options[1].label, "clear +");
    let update = match handle_column_info_key(Some(modal), key(KeyCode::Enter)) {
        ColumnInfoStep::Update(update) => update,
        other => panic!("not saved: {other:?}"),
    };
    assert!(update.clear_filters);
}

#[test]
fn column_types_keep_only_their_formats() {
    let mut modal = ColumnInfoModal::from_info(column_info(Vec::new()));
    for _ in 0..3 {
        modal = press(modal, KeyCode::Tab);
    }
    modal = press(modal, KeyCode::Down);
    assert_eq!(modal.format, 2);
    modal = press(modal, KeyCode::Up);
    assert_eq!(modal.format, 0);
    modal = press(modal, KeyCode::Down);
    modal = press(modal, KeyCode::BackTab);
    for _ in 0..3 {
        modal = press(modal, KeyCode::Down);
    }
    assert_eq!((modal.column_type, modal.format), (3, 0));
}

#[test]
fn source_filter_null_text_requires_an_explicit_null_operator() {
    assert_eq!(parse_source_operand("null"), SourceOperand::Text("null".to_owned()));
    assert_eq!(parse_source_operand("NULL"), SourceOperand::Text("NULL".to_owned()));
}

#[test]
fn source_operands_are_read_as_what_they_look_like() {
    assert_eq!(parse_source_operand("TRUE"), SourceOperand::Boolean(true));
    assert_eq!(parse_source_operand("false"), SourceOperand::Boolean(false));
    assert_eq!(parse_source_operand("-12"), SourceOperand::Integer(-12));
    assert_eq!(parse_source_operand("1.50"), SourceOperand::Float("1.50".to_owned()));
    assert_eq!(parse_source_operand("9223372036854775808"), SourceOperand::Float("9223372036854775808".to_owned()));
    assert_eq!(parse_source_operand("1x"), SourceOperand::Text("1x".to_owned()));
}

#[test]
fn query_popup_actions_document_their_keyboard_shortcuts() {
    assert_eq!(query_popup_actions(), ["Copy (y)", "Close (Enter/Esc)"]);
}

fn id(ordinal: u32) -> ColumnId {
    ColumnId { generation: GENERATION, ordinal }
}

fn active_query() -> SourceQuery {
    SourceQuery {
        generation: GENERATION,
        limit: usize::MAX,
        filters: Vec::new(),
        order_by: Vec::new(),
        native_query: None,
    }
}

fn context(sorting: CapabilityStatus) -> SourceContext {
    let column = |ordinal: u32, name: &str| SourceColumn {
        id: id(ordinal),
        label: name.to_owned(),
        source_name: Some(name.to_owned()),
    };
    SourceContext {
        columns: vec![column(0, "name"), column(1, "value")],
        filters: vec![SourceFilterOperator::Equal, SourceFilterOperator::IsNull],
        sorting,
        active: Some(active_query()),
    }
}

fn file_context() -> SourceContext {
    context(CapabilityStatus::Unavailable { reason: "source sorting needs an index".to_owned() })
}

fn source_summary() -> SourceSummary {
    SourceSummary {
        endpoint: "data.csv".to_owned(),
        relation: Some("data".to_owned()),
        extent: Some("Complete { source_rows: 2 }".to_owned()),
        pending: false,
        partial: false,
        result_fields: 2,
        mapping: Vec::new(),
        provenance: None,
    }
}

fn source_key(modal: SourceConfigModal, event: KeyEvent, context: &SourceContext) -> SourceConfigModal {
    match handle_source_config_key(Some(modal), event, context) {
        SourceStep::Stay(modal) => modal,
        other => panic!("dialogue is gone: {other:?}"),
    }
}

fn alpha_filter(column: ColumnId) -> SourceFilter {
    SourceFilter {
        scope: SourceFilterScope::Column(column),
        operator: SourceFilterOperator::Equal,
        operand: Some(SourceOperand::Text("alpha".to_owned())),
    }
}

#[test]
fn source_config_surfaces_unresolvable_columns_without_persisting_them() {
    let context = file_context();
    let mut modal = open_source_config(&context, 0).expect("source modal");
    modal.draft.filters.push(alpha_filter(ColumnId {
        generation: SourceGeneration { number: 99 },
        ordinal: 0,
    }));

    let modal = source_key(modal, key(KeyCode::Enter), &context);
    assert!(modal.error.as_deref().is_some_and(|error| error.contains("unavailable column")));
}

#[test]
fn file_source_modal_tells_of_limit_extent_and_sorting() {
    let context = file_context();
    let modal = open_source_config(&context, 7).expect("source modal");
    assert_eq!(modal.column, 1);
    let open = Some(modal);
    let body = source_modal_body(&open, &context, &source_summary());
    assert!(body.contains("Limit: unbounded"));
    assert!(!body.contains("Extent: pending"));
    assert!(body.contains("Source sorting: unavailable"));
    let modal = source_key(open.unwrap(), typed('s'), &context);
    assert!(modal.error.as_deref().is_some_and(|error| error.contains("unavailable")));
    assert_eq!(
        source_modal_body(&None, &context, &source_summary()),
        "Source configuration is unavailable"
    );
}

#[test]
fn source_filter_editor_uses_human_readable_operator_names() {
    let context = file_context();
    let mut modal = open_source_config(&context, 0).expect("source modal");
    modal.editing_filter = true;
    modal.operator = SourceFilterOperator::LessThanOrEqual;

    let body = source_modal_body(&Some(modal), &context, &source_summary());

    assert!(body.contains("less than or equal"));
    assert!(!body.contains("LessThanOrEqual"));
}

#[test]
fn applying_an_unchanged_source_draft_is_a_no_op() {
    let context = file_context();
    let modal = open_source_config(&context, 0).expect("source modal");
    assert_eq!(
        handle_source_config_key(Some(modal), key(KeyCode::Enter), &context),
        SourceStep::Close
    );
}

#[test]
fn applying_an_unbounded_source_draft_does_not_persist_the_limit_sentinel() {
    let context = file_context();
    let mut modal = open_source_config(&context, 0).expect("source modal");
    modal.draft.filters.push(alpha_filter(id(0)));

    let (modal, request) =
        match handle_source_config_key(Some(modal), key(KeyCode::Enter), &context) {
            SourceStep::Request(modal, request) => (modal, request),
            other => panic!("no request: {other:?}"),
        };
    let mut options = OpenOptions::default();
    remember_request(&mut options, request, modal.native_query_changed);
    assert_eq!(options.limit, None);
    assert_eq!(options.source_filters.len(), 1);
    assert_eq!(options.source_filters[0].column, "name");
    assert_eq!(after_source_request(modal, true, None), SourceStep::Close);
}

#[test]
fn source_drafts_take_filters_sorts_and_limits() {
    let context = context(CapabilityStatus::Supported);
    let mut modal = open_source_config(&context, 0).expect("source modal");
    modal = source_key(modal, key(KeyCode::Right), &context);
    modal = source_key(modal, key(KeyCode::Right), &context);
    assert_eq!(modal.column, 1);
    modal = source_key(modal, typed('s'), &context);
    modal = source_key(modal, typed('S'), &context);
    assert_eq!(modal.draft.order_by.len(), 1);
    assert_eq!(modal.draft.order_by[0].direction, SortDirection::Descending);

    modal = source_key(modal, typed('f'), &context);
    modal = source_key(modal, key(KeyCode::Enter), &context);
    assert_eq!(modal.error.as_deref(), Some("filter value is required"));
    modal = source_key(modal, typed('4'), &context);
    modal = source_key(modal, key(KeyCode::Tab), &context);
    modal = source_key(modal, key(KeyCode::Enter), &context);
    assert_eq!(modal.error.as_deref(), Some("source filter 'not equal' is unavailable"));
    modal.operator = SourceFilterOperator::Equal;
    modal = source_key(modal, key(KeyCode::Enter), &context);
    assert_eq!(modal.draft.filters[0].operand, Some(SourceOperand::Integer(4)));
    assert!(!modal.editing_filter);

    modal = source_key(modal, typed('+'), &context);
    assert_eq!(modal.draft.limit, 1000);
    modal = source_key(modal, typed('+'), &context);
    assert_eq!(modal.draft.limit, 1100);
    for _ in 0..20 {
        modal = source_key(modal, typed('-'), &context);
    }
    assert_eq!(modal.draft.limit, 1);
    modal = source_key(modal, typed('x'), &context);
    assert!(modal.draft.filters.is_empty() && modal.draft.order_by.is_empty());

    modal = source_key(modal, typed('q'), &context);
    assert!(modal.error.as_deref().is_some_and(|error| error.contains("native query")));
    assert_eq!(
        handle_source_config_key(Some(modal), key(KeyCode::Esc), &context),
        SourceStep::Close
    );
    assert_eq!(handle_source_config_key(None, typed('x'), &context), SourceStep::Close);
}

#[test]
fn native_queries_are_staged_and_replace_the_table() {
    let mut context = context(CapabilityStatus::Supported);
    context.active =
        Some(SourceQuery { native_query: Some("SELECT 1".to_owned()), ..active_query() });
    let mut modal = open_source_config(&context, 0).expect("source modal");
    modal = source_key(modal, typed('q'), &context);
    let body = source_modal_body(&Some(modal), &context, &source_summary());
    assert!(body.contains("Native query editor"));

    let mut modal = open_source_config(&context, 0).expect("source modal");
    modal = source_key(modal, typed('q'), &context);
    for _ in 0.."SELECT 1".len() {
        modal = source_key(modal, key(KeyCode::Backspace), &context);
    }
    modal = source_key(modal, key(KeyCode::Enter), &context);
    assert_eq!(modal.error.as_deref(), Some("native query cannot be empty"));
    for c in " SELECT 2 ".chars() {
        modal = source_key(modal, typed(c), &context);
    }
    modal = source_key(modal, key(KeyCode::Enter), &context);
    assert_eq!(modal.draft.native_query.as_deref(), Some("SELECT 2"));
    let (modal, request) =
        match handle_source_config_key(Some(modal), key(KeyCode::Enter), &context) {
            SourceStep::Request(modal, request) => (modal, request),
            other => panic!("no request: {other:?}"),
        };
    let mut options = OpenOptions { table: Some("users".to_owned()), ..OpenOptions::default() };
    remember_request(&mut options, request, modal.native_query_changed);
    assert_eq!(options.table, None);
    assert_eq!(options.native_query.as_deref(), Some("SELECT 2"));
    let refused = after_source_request(modal, false, Some("busy".to_owned()));
    assert!(matches!(refused, SourceStep::Stay(modal) if modal.error.as_deref() == Some("busy")));
}

#[test]
fn source_dialogues_show_mappings_and_queries() {
    let context = context(CapabilityStatus::Supported);
    let modal = open_source_config(&context, 0).expect("source modal");
    let provenance = Some(QueryProvenance {
        language: "SQL".to_owned(),
        logical: "SELECT ?".to_owned(),
        parameters: "[1]".to_owned(),
        copyable: "SELECT 1".to_owned(),
    });
    let summary = SourceSummary {
        partial: true,
        mapping: vec![MappingField {
            name: "name".to_owned(),
            source_types: vec!["keyword".to_owned(), "text".to_owned()],
            searchable: true,
            aggregatable: false,
            conflict: true,
            runtime: false,
            multifield: false,
        }],
        provenance,
        ..source_summary()
    };
    let body = source_modal_body(&Some(modal), &context, &summary);
    assert!(body.contains("Partial: yes"));
    assert!(body.contains("Mapping fields: 1"));
    assert!(body.contains(
        "Selected mapping: name [keyword|text] searchable=true aggregatable=false conflict"
    ));
    assert!(body.ends_with("\n\nSQL:\nSELECT ?"));
    let query = query_modal_body(&summary.provenance, "1 view sort key");
    assert_eq!(
        query,
        "Parameterized SQL:\nSELECT ?\n\nParameters: [1]\n\nCopyable SQL:\nSELECT 1\n\nLocal transformations not represented by the native query:\n1 view sort key"
    );
    assert!(query_modal_body(&None, "").starts_with("This source has no native query artifact."));
}

fn runtime(target: Option<&str>) -> SavedViewRuntime {
    SavedViewRuntime {
        source_path: None,
        target_path: target.map(str::to_owned),
        view_name: "cat_shards".to_owned(),
        explicit_locale: None,
        messages: Vec::new(),
    }
}

fn view_key(open: Option<ViewModal>, c: char) -> ViewModalStep {
    handle_saved_view_key(open, typed(c))
}

#[test]
fn saved_view_modal_confirms_and_declines_overwrite() {
    let existing = concat_lines(&[
        "# keep me",
        "# describe this view",
        "name: old # view name",
        "filenames: # filename patterns",
        "  - old # first filename",
    ]);
    let yaml = "name: cat_shards\nfilenames:\n  - cat_shards.txt\n".to_owned();
    let mut saved = runtime(Some("views/cat_shards.yml"));
    let modal = open_saved_view(&Some(runtime(Some("views/cat_shards.yml"))), yaml).expect("modal");
    assert!(modal.filename.contains("cat_shards.yml"));

    let modal = match view_key(Some(modal), 's') {
        ViewModalStep::Save { modal, confirmed } => {
            assert!(!confirmed);
            match save_view(&Some(runtime(Some("views/cat_shards.yml"))), modal, true, confirmed) {
                SaveStep::AskFirst(modal) => modal,
                other => panic!("not asked: {other:?}"),
            }
        }
        other => panic!("not saved: {other:?}"),
    };
    assert!(modal.confirming_overwrite);
    let modal = match view_key(Some(modal), 'n') {
        ViewModalStep::Stay(Some(modal)) => modal,
        other => panic!("dialogue is gone: {other:?}"),
    };
    assert!(!modal.confirming_overwrite);

    let confirming = ViewModal { confirming_overwrite: true, ..modal };
    let (path, mut modal) = match view_key(Some(confirming), 'y') {
        ViewModalStep::Save { modal, confirmed } => {
            assert!(confirmed);
            match save_view(&Some(runtime(Some("views/cat_shards.yml"))), modal, true, confirmed) {
                SaveStep::Write { path, modal } => (path, modal),
                other => panic!("not written: {other:?}"),
            }
        }
        other => panic!("not saved: {other:?}"),
    };
    let written = merge_saved_view_comments(&existing, &modal.yaml);
    let message = after_save(&mut saved, &mut modal, &path, None);
    assert_eq!(message, "saved view views/cat_shards.yml");
    assert_eq!(saved.source_path.as_deref(), Some("views/cat_shards.yml"));
    assert!(!modal.confirming_overwrite);
    assert!(written.starts_with("# keep me\n# describe this view\n"));
    assert!(written.contains("name: cat_shards # view name"));
    assert!(written.contains("filenames: # filename patterns"));
    assert!(written.contains("  - cat_shards.txt # first filename"), "{written}");
}

fn concat_lines(lines: &[&str]) -> String {
    lines.iter().map(|line| format!("{line}\n")).collect()
}

#[test]
fn saved_view_comment_merge_keeps_header_and_inline_comments() {
    let existing = "# header\nname: old # view name\nfilenames: # filename patterns\n  - old # first filename\n";
    let yaml = "name: cat_shards\nfilenames:\n  - cat_shards.txt\n";

    let merged = merge_saved_view_comments(existing, yaml);

    assert!(merged.starts_with("# header\n"));
    assert!(merged.contains("name: cat_shards # view name"));
    assert!(merged.contains("filenames: # filename patterns"));
    assert!(merged.contains("  - cat_shards.txt # first filename"), "{merged}");
}

#[test]
fn marks_inside_quotes_start_no_comment() {
    assert_eq!(split_yaml_inline_comment("a: '#x'"), None);
    assert_eq!(split_yaml_inline_comment("a: \"\\\"#\""), None);
    assert_eq!(split_yaml_inline_comment("  # whole line"), None);
    assert_eq!(
        split_yaml_inline_comment("a: 1  # one"),
        Some(("a: 1".to_owned(), "# one".to_owned()))
    );
    assert_eq!(merge_saved_view_comments("name: old\n", "name: new\n"), "name: new\n");
}

#[test]
fn saved_view_modal_scrolls_and_reports_save_failure() {
    let mut saved = runtime(Some("views"));
    let modal = open_saved_view(&Some(runtime(Some("views"))), String::new()).expect("modal");
    let modal = match view_key(Some(modal), 'j') {
        ViewModalStep::Stay(Some(modal)) => modal,
        other => panic!("dialogue is gone: {other:?}"),
    };
    assert_eq!(modal.scroll, 1);

    let step = save_view(&Some(runtime(Some("views"))), Some(modal), true, false);
    let modal = match step {
        SaveStep::AskFirst(modal) => modal,
        other => panic!("not asked: {other:?}"),
    };
    assert!(modal.confirming_overwrite);
    let mut modal = match save_view(&Some(runtime(Some("views"))), Some(modal), true, true) {
        SaveStep::Write { modal, .. } => modal,
        other => panic!("not written: {other:?}"),
    };
    let message = after_save(&mut saved, &mut modal, "views", Some("is a directory".to_owned()));
    assert!(message.contains("failed to save view"));
    assert_eq!(saved.source_path, None);
}

#[test]
fn saved_view_binding_reports_disabled_when_no_view_context() {
    let action = apply(
        KeyAction { command: Command::SavedView, count: None },
        command_context(),
    );
    assert_eq!(action, ViewAction::OpenSavedView);
    assert_eq!(
        open_saved_view(&None, String::new()),
        Err("saved views are disabled".to_owned())
    );
    assert_eq!(
        save_view(&None, None, false, false),
        SaveStep::Refused("saved views are disabled".to_owned())
    );
    assert_eq!(
        save_view(&Some(runtime(None)), None, false, false),
        SaveStep::Refused("saved view path is unavailable".to_owned())
    );
    assert_eq!(save_view(&Some(runtime(Some("v"))), None, false, false), SaveStep::Nothing);
}

fn command_context() -> CommandContext {
    CommandContext {
        cursor: Position { row: 3, column: 1 },
        column_count: 5,
        cell_has_text: true,
        numeric_column: true,
    }
}

#[test]
fn commands_become_actions() {
    let run = |command: Command, count: Option<usize>| {
        apply(KeyAction { command, count }, command_context())
    };
    assert_eq!(run(Command::MoveUp, Some(4)), ViewAction::MoveBy { rows: -4, columns: 0 });
    assert_eq!(run(Command::MoveDown, Some(4)), ViewAction::MoveBy { rows: 4, columns: 0 });
    assert_eq!(run(Command::LineEnd, None), ViewAction::Goto { row: 3, column: 4 });
    assert_eq!(run(Command::GotoRow, None), ViewAction::GotoBottom);
    assert_eq!(run(Command::GotoRow, Some(9)), ViewAction::GotoUserRow(9));
    assert_eq!(run(Command::ShowCell, None), ViewAction::Open(Popup::Cell));
    assert_eq!(
        run(Command::ColumnSortAsc, None),
        ViewAction::SortBy { mode: SortMode::Numeric, direction: SortDirection::Ascending }
    );
    assert_eq!(
        run(Command::SkipColumnChangeBackward, None),
        ViewAction::Skip { axis: Axis::Column, direction: SkipDirection::Backward, count: 1 }
    );
    assert_eq!(run(Command::Quit, None), ViewAction::Nothing);
}

#[test]
fn keys_go_to_the_open_dialogue() {
    let esc = key(KeyCode::Esc);
    assert_eq!(handle_key(Some(Popup::Help), typed('q'), Some(Command::Quit)), KeyRoute::ClosePopup);
    assert_eq!(handle_key(Some(Popup::Info), typed('z'), None), KeyRoute::Ignored);
    assert_eq!(handle_key(Some(Popup::ViewConfig), typed('x'), None), KeyRoute::ClearViewOperations);
    assert_eq!(handle_key(Some(Popup::Query), typed('y'), None), KeyRoute::CopyQuery);
    assert_eq!(handle_key(Some(Popup::Search), esc, None), KeyRoute::Search);
    assert_eq!(handle_key(None, esc, None), KeyRoute::Command);
    assert_eq!(command_source(typed('j')), CommandSource::Typed('j'));
    assert_eq!(
        command_source(KeyEvent { code: KeyCode::Char('f'), modifiers: KeyModifiers::Control }),
        CommandSource::Binding
    );
    assert!(watches_source(false, true, RowCount::AtLeast(1)));
    assert!(!watches_source(false, true, RowCount::Exact(1)));
}

#[test]
fn searches_are_typed_and_closed() {
    assert_eq!(handle_search_key("ab", typed('c')), SearchStep::Edited("abc".to_owned()));
    assert_eq!(
        handle_search_key("ab", key(KeyCode::Backspace)),
        SearchStep::Edited("a".to_owned())
    );
    assert_eq!(handle_search_key("ab", key(KeyCode::Enter)), SearchStep::Close);
    assert_eq!(
        handle_search_key(
            "ab",
            KeyEvent { code: KeyCode::Char('c'), modifiers: KeyModifiers::Control }
        ),
        SearchStep::Ignored
    );
    assert!(search_moves("a", false));
    assert!(!search_moves("", false));
    assert!(!search_moves("a", true));
}

#[test]
fn the_picker_skips_tables_that_cannot_be_chosen() {
    let selectable = vec![false, true, false, true];
    assert_eq!(pick_table(&selectable, 1, key(KeyCode::Down)), PickerStep::Showing(3));
    assert_eq!(pick_table(&selectable, 3, key(KeyCode::Down)), PickerStep::Showing(3));
    assert_eq!(pick_table(&selectable, 3, typed('k')), PickerStep::Showing(1));
    assert_eq!(pick_table(&selectable, 3, key(KeyCode::Enter)), PickerStep::Chosen(3));
    assert_eq!(pick_table(&selectable, 3, typed('Q')), PickerStep::Cancelled);
}

#[test]
fn dialogues_lie_in_the_middle() {
    let screen = Area { x: 0, y: 0, width: 80, height: 24 };
    assert_eq!(popup_area(screen), Area { x: 10, y: 3, width: 60, height: 18 });
    assert_eq!(table_area(screen), Area { height: 23, ..screen });
    assert_eq!(help_popup_area(screen), Area { x: 1, y: 1, width: 78, height: 22 });
    let small = Area { x: 0, y: 0, width: 4, height: 3 };
    assert_eq!(popup_area(small), small);
    assert_eq!(help_popup_area(small), small);
}

#[test]
fn query_only_elasticsearch_source_configuration_uses_result_schema() {
    let context = SourceContext {
        columns: vec![SourceColumn {
            id: id(0),
            label: "level".to_owned(),
            source_name: Some("level".to_owned()),
        }],
        active: Some(SourceQuery {
            native_query: Some("FROM logs-* | KEEP level".to_owned()),
            ..active_query()
        }),
        ..context(CapabilityStatus::Supported)
    };
    let modal = open_source_config(&context, 0).expect("source modal");
    let body = source_modal_body(&Some(modal), &context, &source_summary());
    assert!(body.contains("Mapping fields: result schema only"));
    assert!(body.contains("Selected column: level"));
}

#[test]
fn saved_view_modal_displays_placeholder_and_saves_immediately() {
    let yaml = "name: cat_shards\nfilenames:\n  - cat_shards.txt\n".to_owned();
    let mut saved = runtime(Some("views/cat_shards.yml"));
    let modal = open_saved_view(&Some(runtime(Some("views/cat_shards.yml"))), yaml).expect("modal");
    assert!(modal.filename.contains("cat_shards.yml"));
    assert!(modal.yaml.contains("name: cat_shards"));
    assert!(modal.yaml.contains("filenames:\n  - cat_shards.txt"));
    let (path, mut modal) = match view_key(Some(modal), 's') {
        ViewModalStep::Save { modal, confirmed } => {
            match save_view(&Some(runtime(Some("views/cat_shards.yml"))), modal, false, confirmed) {
                SaveStep::Write { path, modal } => (path, modal),
                other => panic!("not written: {other:?}"),
            }
        }
        other => panic!("not saved: {other:?}"),
    };
    assert!(modal.yaml.contains("name: cat_shards"));
    assert!(after_save(&mut saved, &mut modal, &path, None).contains("saved view"));
}

#[test]
fn float_operands_are_the_same_where_they_denote_the_same_number() {
    let query = |numeral: &str| SourceQuery {
        filters: vec![SourceFilter {
            scope: SourceFilterScope::WholeRecord,
            operator: SourceFilterOperator::Equal,
            operand: Some(SourceOperand::Float(numeral.to_owned())),
        }],
        ..active_query()
    };
    let numerals = [
        "1.0", "1.00", "+1e0", "0.1E1", "-1.0", "10e-1", "1.5", "150e-2", "0.0", "-0.0", "1e-400",
        "1e400", "inf", "-infinity", "1.7976931348623157e308", "1.8e308", "NaN", "-nan", "1e-300",
        "0.00001e-295",
    ];
    for left in numerals {
        for right in numerals {
            let expected = left.parse::<f64>().unwrap() == right.parse::<f64>().unwrap();
            assert_eq!(same_query(&query(left), &query(right)), expected, "{left} and {right}");
        }
    }
}

#[test]
fn drafts_that_differ_in_how_a_number_is_written_are_not_requested() {
    let filter = |numeral: &str| SourceFilter {
        scope: SourceFilterScope::WholeRecord,
        operator: SourceFilterOperator::Equal,
        operand: Some(SourceOperand::Float(numeral.to_owned())),
    };
    let mut context = file_context();
    context.active = Some(SourceQuery { filters: vec![filter("2.50")], ..active_query() });
    let mut modal = open_source_config(&context, 0).expect("dialogue");
    modal.draft.filters = vec![filter("2.5")];
    assert_eq!(
        handle_source_config_key(Some(modal), key(KeyCode::Enter), &context),
        SourceStep::Close
    );
    context.active = Some(SourceQuery { filters: vec![filter("NaN")], ..active_query() });
    let modal = open_source_config(&context, 0).expect("dialogue");
    assert!(matches!(
        handle_source_config_key(Some(modal), key(KeyCode::Enter), &context),
        SourceStep::Request(..)
    ));
}
