//! From the command line to a view: what is opened, and what a saved view changes.

use vstd::prelude::*;
use vstd::string::*;

use crate::adapter::{
    self, OpenedSource, OpenedTable, RelationAvailability, RelationError, RelationOpener,
};
use crate::cli::{Config, SavedViewSelection, SelectionModel};
use crate::interaction::{FilterMode, SavedViewRuntime};
use crate::options::{
    self, DEFAULT_LAZY_THRESHOLD_BYTES, DEFAULT_SCHEMA_SCAN_BYTES, OpenOptions, ParseModel,
    ParseOptions, SourceOptionError, SourceOptionOverrides,
};
use crate::output::{ExecutionMode, OutputFormat, resolve_execution_mode};
use crate::patterns;
use crate::saved_colors::{self, SavedViewWarning, WarningModel};
use crate::saved_columns::{
    self, ResolvedColumns, resolve_column_reference, resolve_columns,
    resolve_structured_column_reference, resolve_structured_columns,
};
use crate::saved_selection::{
    self, SavedViewDiscovery, SavedViewFile, SelectedSavedView, ViewChoice, select_saved_view,
};
use crate::saved_views::{
    self, FilterAction, FilterKind, RawSavedFilter, RawSavedView, SavedFilter, SavedFilterModel,
    SavedView, SortKey, SortKeyModel, SortKind,
};
use crate::source::{self, file_name_of, file_stem_of, join_path};
use crate::table::{self, ColumnModel, NullPlacement, SchemaState, TableDefinition};
use crate::text::{self, concat2, concat3, split_at_last, starts_with_char};

verus! {

// ---------------------------------------------------------------------------
// Modes
// ---------------------------------------------------------------------------

/// Whether an option asks for a direct table.
pub open spec fn asks_for_direct_table(config: Config) -> bool {
    config.sorted is Some || config.top_lines is Some
}

/// How the program runs, or why it cannot: some options need a table that is written
/// directly.
pub fn execution_for(config: &Config, stdout_is_terminal: bool) -> (r: Result<
    ExecutionMode,
    String,
>)
    ensures
        ({
            let mode = if config.interactive {
                ExecutionMode::Interactive { emit_on_exit: config.output }
            } else if config.output is Some {
                ExecutionMode::Batch(config.output->0)
            } else if stdout_is_terminal {
                ExecutionMode::Interactive { emit_on_exit: None }
            } else {
                ExecutionMode::Batch(OutputFormat::Table)
            };
            match r {
                Ok(chosen) => {
                    &&& chosen == mode
                    &&& asks_for_direct_table(*config) ==> mode == ExecutionMode::Batch(
                        OutputFormat::Table,
                    )
                },
                Err(message) => {
                    &&& asks_for_direct_table(*config)
                    &&& mode != ExecutionMode::Batch(OutputFormat::Table)
                    &&& message@ == "--sorted and --top-lines require direct table output"@
                },
            }
        }),
{
    let mode = resolve_execution_mode(config.interactive, config.output, stdout_is_terminal);
    let direct = match mode {
        ExecutionMode::Batch(OutputFormat::Table) => true,
        _ => false,
    };
    if (config.sorted.is_some() || config.top_lines.is_some()) && !direct {
        return Err("--sorted and --top-lines require direct table output".to_owned());
    }
    Ok(mode)
}

/// Restores the terminal before anything is exported: what fails to restore is not
/// followed by an export.
pub fn restore_before_export<E, R: FnOnce() -> Result<(), E>, X: FnOnce() -> Result<(), E>>(
    restore: R,
    export: X,
) -> (r: Result<(), E>)
    requires
        restore.requires(()),
        export.requires(()),
    ensures
        exists|restored: Result<(), E>| #[trigger]
            restore.ensures((), restored) && match restored {
                Ok(_) => export.ensures((), r),
                Err(_) => r == restored,
            },
{
    match restore() {
        Ok(_) => export(),
        Err(e) => {
            let failed: Result<(), E> = Err(e);
            assert(restore.ensures((), failed));
            failed
        },
    }
}

/// Which options a source is opened with.
pub open spec fn is_startup_options(
    r: OpenOptions,
    config: Config,
    merged: OpenOptions,
    saved: SourceOptionOverrides,
) -> bool {
    &&& exists|defaults: OpenOptions| #[trigger]
        options::is_merge(merged, defaults, saved, config.source_options) && is_default(defaults)
    &&& r.delimited@ == (ParseModel {
        encoding: text::opt_view(config.encoding),
        delimiter: config.delimiter,
        quoting: config.quoting,
        quote_char: config.quote_char,
    })
    &&& r == (OpenOptions {
        preview: config.top_lines is Some,
        delimited: r.delimited,
        ..merged
    })
}

/// The options that nobody chose.
pub open spec fn is_default(defaults: OpenOptions) -> bool {
    &&& defaults.format is Auto
    &&& defaults.json_path is None
    &&& defaults.object_mode is Auto
    &&& defaults.object_mode_origin is Default
    &&& defaults.schema_scan is Default
    &&& defaults.table is None
    &&& defaults.native_query is None
    &&& defaults.limit is None
    &&& defaults.source_filters@.len() == 0
    &&& defaults.source_sort@.len() == 0
    &&& !defaults.preview
    &&& defaults.lazy_threshold_bytes == DEFAULT_LAZY_THRESHOLD_BYTES
    &&& defaults.schema_scan_bytes == DEFAULT_SCHEMA_SCAN_BYTES
}

/// The options that a source is opened with, or what is wrong with them.
pub fn startup_options(config: &Config, saved: &SourceOptionOverrides) -> (r: Result<
    OpenOptions,
    SourceOptionError,
>)
    ensures
        exists|merged: OpenOptions, options: OpenOptions| #[trigger]
            is_startup_options(options, *config, merged, *saved) && match r {
                Ok(chosen) => chosen == options && options.fault() is None,
                Err(e) => options.fault() == Some(e@),
            },
{
    let defaults = OpenOptions::default();
    let ghost base = defaults;
    let mut options = OpenOptions::merge(defaults, saved, &config.source_options);
    let ghost merged = options;
    assert(options::is_merge(merged, base, *saved, config.source_options));
    options.preview = config.top_lines.is_some();
    options.delimited = ParseOptions {
        encoding: config.encoding.clone(),
        delimiter: config.delimiter,
        quoting: config.quoting,
        quote_char: config.quote_char,
    };
    assert(is_startup_options(options, *config, merged, *saved));
    match options.validate() {
        Ok(_) => Ok(options),
        Err(e) => Err(e),
    }
}

/// What is done about the table of a source.
#[derive(Debug, Clone, Copy, PartialEq, Eq, Structural)]
pub enum TableChoice {
    Given,
    Ask,
}

/// Whether a table has to be chosen: where none is, some can be, and someone can be
/// asked.
pub fn table_choice(selected: bool, selectable: usize, can_ask: bool) -> (r: TableChoice)
    ensures
        r is Ask <==> !selected && selectable > 0 && can_ask,
{
    if !selected && selectable > 0 && can_ask {
        TableChoice::Ask
    } else {
        TableChoice::Given
    }
}

/// Takes up what was picked among the tables of a source. Leaving the picker ends
/// the start, with everything as it was; a table that was picked is opened, and
/// then its name is kept among the options.
pub fn take_picked_table<S, O: RelationOpener<S>>(
    opened: &mut OpenedSource<S, O>,
    options: &mut OpenOptions,
    picked: Option<String>,
) -> (r: Result<bool, RelationError>)
    ensures
        picked is None ==> r == Ok::<bool, RelationError>(false) && *final(opened) == *old(opened),
        picked is Some && r is Ok ==> r->Ok_0,
        !(r is Ok && r->Ok_0) ==> *final(options) == *old(options),
        r is Ok && r->Ok_0 ==> *final(options) == (OpenOptions { table: picked, ..*old(options) }),
        final(opened).catalog() == old(opened).catalog(),
        final(opened).can_open() == old(opened).can_open(),
        r is Err ==> final(opened).opened() == old(opened).opened(),
        picked matches Some(name) ==> ({
            let at = adapter::relation_position(old(opened).catalog(), 0, name@);
            if at >= old(opened).catalog().len() {
                r matches Err(RelationError::NotFound { name: n }) && n@ == name@
            } else {
                match (old(opened).catalog()[at].availability, old(opened).opener()) {
                    (RelationAvailability::Unavailable { reason: why }, _) => r matches Err(
                        RelationError::Unavailable { name: n, reason },
                    ) && n@ == name@ && reason@ == why@,
                    (RelationAvailability::Selectable, None) => r == Err::<bool, RelationError>(
                        RelationError::SelectionUnsupported,
                    ),
                    (RelationAvailability::Selectable, Some(before)) => {
                        exists|asked: &mut O, wanted: &str, given: Result<OpenedTable<S>, String>|
                            #![trigger call_ensures(O::open_relation, (asked, wanted), given)]
                            {
                                &&& *asked == before
                                &&& wanted@ == name@
                                &&& final(opened).opener() == Some(*final(asked))
                                &&& call_ensures(O::open_relation, (asked, wanted), given)
                                &&& match given {
                                    Ok(table) => r is Ok && final(opened).opened() == seq![table],
                                    Err(message) => r == Err::<bool, RelationError>(
                                        RelationError::OpenFailed(message),
                                    ),
                                }
                            }
                    },
                }
            }
        }),
{
    match picked {
        None => Ok(false),
        Some(name) => match opened.open_relation(&name) {
            Ok(_) => {
                options.table = Some(name);
                Ok(true)
            },
            Err(e) => Err(e),
        },
    }
}

/// The rows of the first screen: one for a preview.
pub fn viewport_rows(config: &Config) -> (r: usize)
    ensures
        r == if config.top_lines is Some {
            1int
        } else {
            20
        },
{
    if config.top_lines.is_some() {
        1
    } else {
        20
    }
}

/// Where the cursor starts, counted from one; nowhere in a preview.
pub fn starting_cell(config: &Config) -> (r: Option<(usize, Option<usize>)>)
    ensures
        match r {
            None => config.top_lines is Some,
            Some((row, column)) => {
                &&& config.top_lines is None
                &&& row == (if config.start_position.row == 0 {
                    1
                } else {
                    config.start_position.row
                })
                &&& column == (match config.start_position.column {
                    Some(0) => Some(1usize),
                    other => other,
                })
            },
        },
{
    if config.top_lines.is_some() {
        return None;
    }
    let row: usize = if config.start_position.row == 0 {
        1
    } else {
        config.start_position.row
    };
    let column = match config.start_position.column {
        Some(n) => if n == 0 {
            Some(1)
        } else {
            Some(n)
        },
        None => None,
    };
    Some((row, column))
}

// ---------------------------------------------------------------------------
// Diagnostics
// ---------------------------------------------------------------------------

/// What is said of a warning.
pub open spec fn warning_line(kind: Seq<char>, warning: WarningModel) -> Seq<char> {
    kind + warning.field + ": "@ + warning.message
}

/// What is said of warnings.
pub open spec fn warning_lines(kind: Seq<char>, warnings: Seq<WarningModel>) -> Seq<Seq<char>> {
    Seq::new(warnings.len(), |i: int| warning_line(kind, warnings[i]))
}

/// What is said of a warning about a view.
pub fn format_saved_view_warning(warning: &SavedViewWarning) -> (r: String)
    ensures
        r@ == warning_line("saved view: "@, warning@),
{
    let mut out = concat2("saved view: ", &warning.field);
    out.append(": ");
    out.append(&warning.message);
    out
}

fn add_warnings(messages: &mut Vec<String>, kind: &str, warnings: &Vec<SavedViewWarning>)
    ensures
        text::views(final(messages)@) == text::views(old(messages)@) + warning_lines(
            kind@,
            saved_colors::warning_views(warnings@),
        ),
{
    let ghost before = text::views(messages@);
    let ghost added = warning_lines(kind@, saved_colors::warning_views(warnings@));
    let mut i: usize = 0;
    assert(text::views(messages@) =~= before + added.take(0));
    while i < warnings.len()
        invariant
            i <= warnings@.len(),
            added == warning_lines(kind@, saved_colors::warning_views(warnings@)),
            text::views(messages@) == before + added.take(i as int),
        decreases warnings@.len() - i,
    {
        let mut line = concat2(kind, &warnings[i].field);
        line.append(": ");
        line.append(&warnings[i].message);
        proof {
            assert(line@ == added[i as int]);
            text::lemma_views_push(messages@, line);
            assert(added.take(i + 1) =~= added.take(i as int).push(added[i as int]));
        }
        messages.push(line);
        assert(text::views(messages@) =~= before + added.take(i + 1));
        i = i + 1;
    }
    assert(added.take(added.len() as int) =~= added);
}

/// What is said after the start: of the saved view, then of the theme. The first line
/// is shown.
pub fn startup_diagnostics(saved: Option<Vec<String>>, theme_warnings: &Vec<SavedViewWarning>) -> (r:
    Vec<String>)
    ensures
        text::views(r@) == (match saved {
            Some(messages) => text::views(messages@),
            None => Seq::empty(),
        }) + warning_lines("theme warning: "@, saved_colors::warning_views(theme_warnings@)),
{
    let mut messages: Vec<String> = match saved {
        Some(messages) => messages,
        None => {
            let none: Vec<String> = Vec::new();
            assert(text::views(none@) =~= Seq::<Seq<char>>::empty());
            none
        },
    };
    add_warnings(&mut messages, "theme warning: ", theme_warnings);
    messages
}

/// What is said of a result of a source: that it is partial, and its warnings.
pub open spec fn result_lines(partial: bool, warnings: Seq<Seq<char>>) -> Seq<Seq<char>> {
    (if partial {
        seq!["warning: source returned a partial result"@]
    } else {
        Seq::empty()
    }) + Seq::new(warnings.len(), |i: int| "warning: "@ + warnings[i])
}

/// What is said of a result of a source.
pub fn source_result_warnings(partial: bool, warnings: &Vec<String>) -> (r: Vec<String>)
    ensures
        text::views(r@) == result_lines(partial, text::views(warnings@)),
{
    let ghost all = text::views(warnings@);
    let ghost lines = Seq::new(all.len(), |i: int| "warning: "@ + all[i]);
    let mut out: Vec<String> = Vec::new();
    if partial {
        out.push("warning: source returned a partial result".to_owned());
        assert(text::views(out@) =~= seq!["warning: source returned a partial result"@]);
    } else {
        assert(text::views(out@) =~= Seq::<Seq<char>>::empty());
    }
    let ghost head = text::views(out@);
    let mut i: usize = 0;
    assert(head + lines.take(0) =~= head);
    while i < warnings.len()
        invariant
            i <= warnings@.len(),
            all == text::views(warnings@),
            lines == Seq::new(all.len(), |i: int| "warning: "@ + all[i]),
            text::views(out@) == head + lines.take(i as int),
        decreases warnings@.len() - i,
    {
        let line = concat2("warning: ", &warnings[i]);
        proof {
            assert(line@ == lines[i as int]);
            text::lemma_views_push(out@, line);
            assert(lines.take(i + 1) =~= lines.take(i as int).push(lines[i as int]));
        }
        out.push(line);
        assert(text::views(out@) =~= head + lines.take(i + 1));
        i = i + 1;
    }
    assert(lines.take(lines.len() as int) =~= lines);
    out
}

// ---------------------------------------------------------------------------
// Choosing the saved view
// ---------------------------------------------------------------------------

/// The place of the view that is chosen for an input.
pub open spec fn place_chosen(
    views: Seq<SavedViewFile>,
    selection: SelectionModel,
    identity: Seq<char>,
    ignore_case: bool,
) -> Option<int> {
    match selection {
        SelectionModel::Disabled => None,
        SelectionModel::Force(name) => saved_selection::named_view(views, saved_views::view_name(name), ignore_case, 0),
        SelectionModel::Auto => match source::file_name(identity) {
            None => None,
            Some(name) => saved_selection::chosen_view(views, views.len() as int, name, ignore_case),
        },
    }
}

/// What is said of the view that is chosen.
pub open spec fn choice_warnings(
    views: Seq<SavedViewFile>,
    at: int,
    selection: SelectionModel,
    identity: Seq<char>,
    ignore_case: bool,
) -> Seq<WarningModel> {
    match selection {
        SelectionModel::Auto => {
            let name = source::file_name(identity)->0;
            if saved_selection::is_tied(views, at, name, ignore_case) {
                saved_colors::warned(
                    name,
                    "multiple saved views matched '"@ + name + "'; using "@ + views[at].path@,
                )
            } else {
                saved_colors::silent()
            }
        },
        _ => saved_colors::silent(),
    }
}

/// What is said of a view that was asked for and is not there.
pub open spec fn missing_view(name: Seq<char>) -> Seq<char> {
    "saved view '"@ + name + "' was requested but was not found"@
}

/// Whether a view was asked for that is not there.
pub open spec fn lacks_view(
    views: Seq<SavedViewFile>,
    selection: SelectionModel,
    identity: Seq<char>,
    ignore_case: bool,
) -> bool {
    selection is Force && place_chosen(views, selection, identity, ignore_case) is None
}

/// The view that is chosen for an input; a view that is asked for has to be there.
pub fn choose_view<'a>(
    views: &'a Vec<SavedViewFile>,
    selection: &SavedViewSelection,
    identity: &str,
    ignore_case: bool,
) -> (r: Result<Option<SelectedSavedView<'a>>, String>)
    ensures
        match r {
            Ok(None) => {
                &&& place_chosen(views@, selection@, identity@, ignore_case) is None
                &&& !lacks_view(views@, selection@, identity@, ignore_case)
            },
            Ok(Some(selected)) => {
                let place = place_chosen(views@, selection@, identity@, ignore_case);
                &&& place is Some
                &&& *selected.view == views@[place->0]
                &&& saved_colors::warning_views(selected.warnings@) == choice_warnings(
                    views@,
                    place->0,
                    selection@,
                    identity@,
                    ignore_case,
                )
            },
            Err(message) => {
                &&& lacks_view(views@, selection@, identity@, ignore_case)
                &&& message@ == missing_view(selection@->Force_0)
            },
        },
{
    match selection {
        SavedViewSelection::Disabled => Ok(None),
        SavedViewSelection::Auto => {
            let choice = ViewChoice::Auto { input_path: identity };
            Ok(select_saved_view(views, &choice, ignore_case))
        },
        SavedViewSelection::Force(name) => {
            let choice = ViewChoice::Force { name: name.as_str() };
            match select_saved_view(views, &choice, ignore_case) {
                Some(selected) => Ok(Some(selected)),
                None => Err(
                    concat3("saved view '", name, "' was requested but was not found"),
                ),
            }
        },
    }
}

/// The choices that the view of an input makes for its source.
pub fn selected_saved_view_source_options(
    views: &Vec<SavedViewFile>,
    selection: &SavedViewSelection,
    identity: &str,
    ignore_case: bool,
) -> (r: Result<SourceOptionOverrides, String>)
    ensures
        match r {
            Ok(options) => {
                &&& !lacks_view(views@, selection@, identity@, ignore_case)
                &&& match place_chosen(views@, selection@, identity@, ignore_case) {
                    Some(at) => saved_views::are_source_options(options, views@[at].view.source),
                    None => options.is_empty(),
                }
            },
            Err(message) => {
                &&& lacks_view(views@, selection@, identity@, ignore_case)
                &&& message@ == missing_view(selection@->Force_0)
            },
        },
{
    match choose_view(views, selection, identity, ignore_case) {
        Ok(Some(selected)) => Ok(selected.view.view.source_options()),
        Ok(None) => Ok(SourceOptionOverrides::default()),
        Err(message) => Err(message),
    }
}

// ---------------------------------------------------------------------------
// Where a view is kept
// ---------------------------------------------------------------------------

/// The file for the view of an input that has none.
pub open spec fn placeholder_path(view_dir: Option<Seq<char>>, input: Seq<char>) -> Option<
    Seq<char>,
> {
    match (view_dir, source::file_name(input)) {
        (Some(dir), Some(name)) => {
            let stem = match text::rsplit_once(name, '.') {
                Some((stem, _)) => stem,
                None => name,
            };
            Some(source::path_below(dir, stem + ".yml"@))
        },
        _ => None,
    }
}

/// The file for the view of an input that has none.
pub fn placeholder_saved_view_path(view_dir: &Option<String>, input: &str) -> (r: Option<String>)
    ensures
        text::opt_view(r) == placeholder_path(text::opt_view(*view_dir), input@),
{
    let dir = match view_dir {
        Some(dir) => dir,
        None => {
            return None;
        },
    };
    let name = match file_name_of(input) {
        Some(name) => name,
        None => {
            return None;
        },
    };
    let stem = match split_at_last(&name, '.') {
        Some((stem, _)) => stem,
        None => name,
    };
    Some(join_path(dir, &concat2(&stem, ".yml")))
}

/// The name of a view that has none yet.
pub open spec fn placeholder_name(target: Option<Seq<char>>) -> Seq<char> {
    match target {
        Some(path) => match source::file_stem(path) {
            Some(stem) => stem,
            None => "view"@,
        },
        None => "view"@,
    }
}

fn name_for_target(target: &Option<String>) -> (r: String)
    ensures
        r@ == placeholder_name(text::opt_view(*target)),
{
    match target {
        Some(path) => match file_stem_of(path) {
            Some(stem) => stem,
            None => "view".to_owned(),
        },
        None => "view".to_owned(),
    }
}

// ---------------------------------------------------------------------------
// What a view changes
// ---------------------------------------------------------------------------

/// A sort that a saved view asks for.
#[derive(Debug, Clone, Copy, PartialEq, Eq, Structural)]
pub struct SavedSortUse {
    pub column: usize,
    pub kind: SortKind,
    pub direction: crate::table::SortDirection,
}

/// A filter that a saved view asks for.
#[derive(Debug, PartialEq, Eq)]
pub struct SavedFilterUse {
    pub column: usize,
    pub mode: FilterMode,
    pub kind: FilterKind,
    pub condition: String,
}

/// The model of a filter that a saved view asks for.
pub struct FilterUseModel {
    pub column: int,
    pub mode: FilterMode,
    pub kind: FilterKind,
    pub condition: Seq<char>,
}

impl View for SavedFilterUse {
    type V = FilterUseModel;

    open spec fn view(&self) -> FilterUseModel {
        FilterUseModel {
            column: self.column as int,
            mode: self.mode,
            kind: self.kind,
            condition: self.condition@,
        }
    }
}

/// The filters that a saved view asks for.
pub open spec fn use_views(uses: Seq<SavedFilterUse>) -> Seq<FilterUseModel> {
    Seq::new(uses.len(), |i: int| uses[i]@)
}

/// What of a saved view waits for columns that may still be found.
#[derive(Debug, PartialEq, Eq)]
pub struct PendingOperations {
    pub sort: Vec<SortKey>,
    pub filters: Vec<SavedFilter>,
}

/// What a saved view changes.
#[derive(Debug, PartialEq)]
pub struct ViewChanges {
    pub nulls: Option<NullPlacement>,
    pub columns: ResolvedColumns,
    pub locale: Option<String>,
    pub sort: Vec<SavedSortUse>,
    pub filters: Vec<SavedFilterUse>,
    pub pending: Option<PendingOperations>,
}

/// The table as a saved view refers to it.
pub struct TableNames {
    pub keyed: bool,
    pub columns: Seq<ColumnModel>,
    pub header: Seq<Seq<char>>,
}

/// Whether a column of a table has a key.
pub open spec fn has_keys(definition: Option<TableDefinition>) -> bool {
    match definition {
        Some(table) => exists|i: int|
            0 <= i < table.columns@.len() && (#[trigger] table::column_views(
                table.columns@,
            )[i]).identity.key() is Some,
        None => false,
    }
}

/// The table as a saved view refers to it.
pub open spec fn table_names(definition: Option<TableDefinition>, header: Seq<Seq<char>>) -> TableNames {
    TableNames {
        keyed: has_keys(definition),
        columns: match definition {
            Some(table) => table::column_views(table.columns@),
            None => Seq::empty(),
        },
        header,
    }
}

/// The column that a name refers to: by its key or label in a table with keys, or
/// else by its header.
pub open spec fn referred(names: TableNames, key: Seq<char>) -> Option<int> {
    let by_key = if names.keyed {
        match table::column_named(names.columns, key) {
            Ok(i) => Some(i),
            Err(_) => None,
        }
    } else {
        None
    };
    match by_key {
        Some(i) => Some(i),
        None => saved_columns::column_referred(names.header, key),
    }
}

/// The first `n` sorts of a view, as far as their columns are there.
pub open spec fn sort_uses(sort: Seq<SortKey>, n: int, names: TableNames) -> Seq<SavedSortUse>
    decreases n,
{
    if n <= 0 || n > sort.len() {
        Seq::empty()
    } else {
        let before = sort_uses(sort, n - 1, names);
        match referred(names, sort[n - 1].column@) {
            Some(column) => before.push(
                SavedSortUse {
                    column: column as usize,
                    kind: sort[n - 1].kind,
                    direction: saved_views::table_direction(sort[n - 1].direction),
                },
            ),
            None => before,
        }
    }
}

/// The way a filter works.
pub open spec fn filter_mode(action: FilterAction) -> FilterMode {
    match action {
        FilterAction::In => FilterMode::In,
        FilterAction::Out => FilterMode::Out,
    }
}

/// The first `n` filters of a view, as far as their columns are there.
pub open spec fn filter_uses(filters: Seq<SavedFilter>, n: int, names: TableNames) -> Seq<
    FilterUseModel,
>
    decreases n,
{
    if n <= 0 || n > filters.len() {
        Seq::empty()
    } else {
        let before = filter_uses(filters, n - 1, names);
        match referred(names, filters[n - 1].column@) {
            Some(column) => before.push(
                FilterUseModel {
                    column,
                    mode: filter_mode(filters[n - 1].action),
                    kind: filters[n - 1].kind,
                    condition: filters[n - 1].condition@,
                },
            ),
            None => before,
        }
    }
}

/// The first `n` filters of a view that wait for columns that may still be found.
pub open spec fn waiting_filters(
    filters: Seq<SavedFilter>,
    n: int,
    names: TableNames,
    provisional: bool,
) -> Seq<SavedFilterModel>
    decreases n,
{
    if n <= 0 || n > filters.len() {
        Seq::empty()
    } else {
        let before = waiting_filters(filters, n - 1, names, provisional);
        let key = filters[n - 1].column@;
        if referred(names, key) is None && provisional && key.len() > 0 && key[0] == '/' {
            before.push(filters[n - 1]@)
        } else {
            before
        }
    }
}

/// The filters that wait.
pub open spec fn filter_list(filters: Seq<SavedFilter>) -> Seq<SavedFilterModel> {
    Seq::new(filters.len(), |i: int| filters[i]@)
}

/// The sorts that wait.
pub open spec fn sort_list(sort: Seq<SortKey>) -> Seq<SortKeyModel> {
    Seq::new(sort.len(), |i: int| sort[i]@)
}

/// Whether more columns of a table with keys may be found.
pub open spec fn is_provisional(definition: Option<TableDefinition>) -> bool {
    has_keys(definition) && definition->0.schema_state is Provisional
}

/// Whether these are the changes that a saved view makes. The sorts can be switched
/// off.
pub open spec fn are_changes(
    r: ViewChanges,
    view: SavedView,
    header: Seq<Seq<char>>,
    definition: Option<TableDefinition>,
    unsorted: bool,
) -> bool {
    let names = table_names(definition, header);
    let sort = view.view.sort@;
    let filters = view.view.filters@;
    &&& r.nulls == view.view.nulls
    &&& text::opt_view(r.locale) == text::opt_view(view.view.locale)
    &&& if has_keys(definition) {
        saved_columns::is_structured_resolution(r.columns, view, definition->0)
    } else {
        saved_columns::is_header_resolution(r.columns, view, header)
    }
    &&& r.sort@ == if unsorted {
        Seq::empty()
    } else {
        sort_uses(sort, sort.len() as int, names)
    }
    &&& use_views(r.filters@) == filter_uses(filters, filters.len() as int, names)
    &&& match r.pending {
        Some(pending) => {
            &&& is_provisional(definition)
            &&& sort_list(pending.sort@) == if unsorted {
                Seq::empty()
            } else {
                sort_list(sort)
            }
            &&& filter_list(pending.filters@) == waiting_filters(
                filters,
                filters.len() as int,
                names,
                true,
            )
        },
        None => !is_provisional(definition),
    }
}

fn find_keys(definition: &Option<TableDefinition>) -> (r: bool)
    ensures
        r == has_keys(*definition),
{
    let table = match definition {
        Some(table) => table,
        None => {
            return false;
        },
    };
    let mut i: usize = 0;
    while i < table.columns.len()
        invariant
            i <= table.columns@.len(),
            *definition == Some(*table),
            forall|k: int|
                0 <= k < i ==> (#[trigger] table::column_views(table.columns@)[k]).identity.key() is None,
        decreases table.columns@.len() - i,
    {
        assert(table::column_views(table.columns@)[i as int] == table.columns@[i as int]@);
        if table.columns[i].source_identity.canonical_key().is_some() {
            return true;
        }
        i = i + 1;
    }
    false
}

fn find_column(
    definition: &Option<TableDefinition>,
    keyed: bool,
    header: &Vec<String>,
    key: &str,
) -> (r: Option<usize>)
    requires
        keyed == has_keys(*definition),
    ensures
        match (r, referred(table_names(*definition, text::views(header@)), key@)) {
            (Some(i), Some(m)) => i == m,
            (None, None) => true,
            _ => false,
        },
{
    if keyed {
        if let Some(table) = definition {
            if let Some(i) = resolve_structured_column_reference(table, key) {
                return Some(i);
            }
        }
    }
    resolve_column_reference(header, key)
}

fn plan_sorts(
    sort: &Vec<SortKey>,
    definition: &Option<TableDefinition>,
    keyed: bool,
    header: &Vec<String>,
) -> (r: Vec<SavedSortUse>)
    requires
        keyed == has_keys(*definition),
    ensures
        r@ == sort_uses(
            sort@,
            sort@.len() as int,
            table_names(*definition, text::views(header@)),
        ),
{
    let ghost names = table_names(*definition, text::views(header@));
    let mut out: Vec<SavedSortUse> = Vec::new();
    let mut i: usize = 0;
    while i < sort.len()
        invariant
            i <= sort@.len(),
            keyed == has_keys(*definition),
            names == table_names(*definition, text::views(header@)),
            out@ == sort_uses(sort@, i as int, names),
        decreases sort@.len() - i,
    {
        if let Some(column) = find_column(definition, keyed, header, &sort[i].column) {
            let direction = match sort[i].direction {
                crate::saved_views::SortDirection::Asc => crate::table::SortDirection::Ascending,
                crate::saved_views::SortDirection::Desc => crate::table::SortDirection::Descending,
            };
            out.push(SavedSortUse { column, kind: sort[i].kind, direction });
        }
        i = i + 1;
    }
    out
}

fn plan_filters(
    filters: &Vec<SavedFilter>,
    definition: &Option<TableDefinition>,
    keyed: bool,
    header: &Vec<String>,
    provisional: bool,
) -> (r: (Vec<SavedFilterUse>, Vec<SavedFilter>))
    requires
        keyed == has_keys(*definition),
    ensures
        use_views(r.0@) == filter_uses(
            filters@,
            filters@.len() as int,
            table_names(*definition, text::views(header@)),
        ),
        filter_list(r.1@) == waiting_filters(
            filters@,
            filters@.len() as int,
            table_names(*definition, text::views(header@)),
            provisional,
        ),
{
    let ghost names = table_names(*definition, text::views(header@));
    let mut uses: Vec<SavedFilterUse> = Vec::new();
    let mut waiting: Vec<SavedFilter> = Vec::new();
    let mut i: usize = 0;
    assert(use_views(uses@) =~= Seq::empty());
    assert(filter_list(waiting@) =~= Seq::empty());
    while i < filters.len()
        invariant
            i <= filters@.len(),
            keyed == has_keys(*definition),
            names == table_names(*definition, text::views(header@)),
            use_views(uses@) == filter_uses(filters@, i as int, names),
            filter_list(waiting@) == waiting_filters(filters@, i as int, names, provisional),
        decreases filters@.len() - i,
    {
        let filter = &filters[i];
        let ghost used = uses@;
        let ghost waited = waiting@;
        match find_column(definition, keyed, header, &filter.column) {
            None => {
                if provisional && starts_with_char(&filter.column, '/') {
                    waiting.push(filter.clone());
                    assert(filter_list(waiting@) =~= filter_list(waited).push(filter@));
                }
            },
            Some(column) => {
                let mode = match filter.action {
                    FilterAction::In => FilterMode::In,
                    FilterAction::Out => FilterMode::Out,
                };
                uses.push(
                    SavedFilterUse {
                        column,
                        mode,
                        kind: filter.kind,
                        condition: filter.condition.clone(),
                    },
                );
                assert(use_views(uses@) =~= use_views(used).push(uses@.last()@));
            },
        }
        i = i + 1;
    }
    (uses, waiting)
}

fn copy_sorts(sort: &Vec<SortKey>) -> (r: Vec<SortKey>)
    ensures
        sort_list(r@) == sort_list(sort@),
{
    let mut out: Vec<SortKey> = Vec::new();
    let mut i: usize = 0;
    while i < sort.len()
        invariant
            i <= sort@.len(),
            out@.len() == i,
            forall|k: int| 0 <= k < i ==> (#[trigger] out@[k])@ == sort@[k]@,
        decreases sort@.len() - i,
    {
        out.push(sort[i].clone());
        i = i + 1;
    }
    assert(sort_list(out@) =~= sort_list(sort@));
    out
}

/// What a saved view changes.
pub fn plan_changes(
    view: &SavedView,
    header: &Vec<String>,
    definition: &Option<TableDefinition>,
    unsorted: bool,
) -> (r: ViewChanges)
    ensures
        are_changes(r, *view, text::views(header@), *definition, unsorted),
{
    let keyed = find_keys(definition);
    let mut provisional = false;
    let columns = if keyed {
        match definition {
            Some(table) => {
                provisional = table.schema_state == SchemaState::Provisional;
                resolve_structured_columns(view, table)
            },
            None => resolve_columns(view, header),
        }
    } else {
        resolve_columns(view, header)
    };
    let sort: Vec<SavedSortUse> = if unsorted {
        let none: Vec<SavedSortUse> = Vec::new();
        assert(none@ =~= Seq::empty());
        none
    } else {
        plan_sorts(&view.view.sort, definition, keyed, header)
    };
    let (filters, waiting) = plan_filters(
        &view.view.filters,
        definition,
        keyed,
        header,
        provisional,
    );
    let pending = if provisional {
        let kept: Vec<SortKey> = if unsorted {
            let none: Vec<SortKey> = Vec::new();
            assert(sort_list(none@) =~= Seq::empty());
            none
        } else {
            copy_sorts(&view.view.sort)
        };
        Some(PendingOperations { sort: kept, filters: waiting })
    } else {
        None
    };
    ViewChanges {
        nulls: view.view.nulls,
        columns,
        locale: view.view.locale.clone(),
        sort,
        filters,
        pending,
    }
}

/// What becomes of a saved view: what is known of it from then on, and what it changes.
#[derive(Debug, PartialEq)]
pub struct AppliedView {
    pub runtime: SavedViewRuntime,
    pub changes: Option<ViewChanges>,
}

/// What is asked of saved views at the start.
#[derive(Debug)]
pub struct ViewRequest<'a> {
    pub selection: &'a SavedViewSelection,
    pub identity: &'a str,
    pub view_dir: &'a Option<String>,
    pub ignore_case: bool,
    pub unsorted: bool,
}

/// Whether the order of a saved view is left aside: where the rows are asked for
/// unsorted.
pub fn leaves_order_aside(config: &Config) -> (r: bool)
    ensures
        r == (config.sorted == Some(false)),
{
    match config.sorted {
        Some(sorted) => !sorted,
        None => false,
    }
}

/// Whether this is what becomes of an input without a saved view.
pub open spec fn is_placeholder(
    r: AppliedView,
    request: ViewRequest,
    discovery: SavedViewDiscovery,
) -> bool {
    let target = placeholder_path(text::opt_view(*request.view_dir), request.identity@);
    &&& r.changes is None
    &&& r.runtime.source_path is None
    &&& text::opt_view(r.runtime.target_path) == target
    &&& r.runtime.view_name@ == placeholder_name(target)
    &&& r.runtime.explicit_locale is None
    &&& text::views(r.runtime.messages@) == warning_lines(
        "saved view: "@,
        saved_colors::warning_views(discovery.warnings@),
    )
}

/// Whether this is what becomes of an input with a saved view.
pub open spec fn is_applied(
    r: AppliedView,
    request: ViewRequest,
    discovery: SavedViewDiscovery,
    at: int,
    header: Option<Vec<String>>,
    definition: Option<TableDefinition>,
) -> bool {
    let file = discovery.views@[at];
    let kind = "saved view: "@;
    let found = warning_lines(kind, saved_colors::warning_views(discovery.warnings@)) + warning_lines(
        kind,
        saved_colors::warning_views(file.warnings@),
    ) + warning_lines(
        kind,
        choice_warnings(
            discovery.views@,
            at,
            request.selection@,
            request.identity@,
            request.ignore_case,
        ),
    );
    &&& text::opt_view(r.runtime.source_path) == Some(file.path@)
    &&& text::opt_view(r.runtime.target_path) == Some(file.path@)
    &&& r.runtime.view_name@ == file.canonical_name@
    &&& text::opt_view(r.runtime.explicit_locale) == text::opt_view(file.view.view.locale)
    &&& match (header, r.changes) {
        (None, None) => text::views(r.runtime.messages@) == found,
        (Some(names), Some(changes)) => {
            &&& are_changes(changes, file.view, text::views(names@), definition, request.unsorted)
            &&& text::views(r.runtime.messages@) == found + warning_lines(
                kind,
                saved_colors::warning_views(changes.columns.warnings@),
            )
        },
        _ => false,
    }
}

/// Applies the saved view of an input, if there is one. A view that is asked for has to
/// be there, and without a header a view changes nothing.
pub fn apply_saved_view(
    request: &ViewRequest,
    discovery: &SavedViewDiscovery,
    header: &Option<Vec<String>>,
    definition: &Option<TableDefinition>,
) -> (r: Result<Option<AppliedView>, String>)
    ensures
        ({
            let place = place_chosen(
                discovery.views@,
                request.selection@,
                request.identity@,
                request.ignore_case,
            );
            let missing = lacks_view(
                discovery.views@,
                request.selection@,
                request.identity@,
                request.ignore_case,
            );
            match r {
                Ok(None) => request.selection@ is Disabled,
                Ok(Some(applied)) => {
                    &&& request.selection@ !is Disabled
                    &&& !missing
                    &&& match place {
                        Some(at) => is_applied(
                            applied,
                            *request,
                            *discovery,
                            at,
                            *header,
                            *definition,
                        ),
                        None => is_placeholder(applied, *request, *discovery),
                    }
                },
                Err(message) => missing && message@ == missing_view(request.selection@->Force_0),
            }
        }),
{
    match request.selection {
        SavedViewSelection::Disabled => {
            return Ok(None);
        },
        _ => {},
    }
    let mut messages: Vec<String> = Vec::new();
    assert(text::views(messages@) =~= Seq::<Seq<char>>::empty());
    add_warnings(&mut messages, "saved view: ", &discovery.warnings);
    assert(text::views(messages@) =~= warning_lines(
        "saved view: "@,
        saved_colors::warning_views(discovery.warnings@),
    ));
    let chosen = match choose_view(
        &discovery.views,
        request.selection,
        request.identity,
        request.ignore_case,
    ) {
        Ok(chosen) => chosen,
        Err(message) => {
            return Err(message);
        },
    };
    let selected = match chosen {
        Some(selected) => selected,
        None => {
            let target_path = placeholder_saved_view_path(request.view_dir, request.identity);
            let view_name = name_for_target(&target_path);
            let runtime = SavedViewRuntime {
                source_path: None,
                target_path,
                view_name,
                explicit_locale: None,
                messages,
            };
            return Ok(Some(AppliedView { runtime, changes: None }));
        },
    };
    let file = selected.view;
    add_warnings(&mut messages, "saved view: ", &file.warnings);
    add_warnings(&mut messages, "saved view: ", &selected.warnings);
    let changes = match header {
        None => None,
        Some(names) => {
            let planned = plan_changes(&file.view, names, definition, request.unsorted);
            add_warnings(&mut messages, "saved view: ", &planned.columns.warnings);
            Some(planned)
        },
    };
    let runtime = SavedViewRuntime {
        source_path: Some(file.path.clone()),
        target_path: Some(file.path.clone()),
        view_name: file.canonical_name.clone(),
        explicit_locale: file.view.view.locale.clone(),
        messages,
    };
    Ok(Some(AppliedView { runtime, changes }))
}

// ---------------------------------------------------------------------------
// Laws
// ---------------------------------------------------------------------------

/// No more sorts are used than a view has.
pub proof fn no_sorts_are_added(sort: Seq<SortKey>, n: int, names: TableNames)
    requires
        0 <= n <= sort.len(),
    ensures
        sort_uses(sort, n, names).len() <= n,
    decreases n,
{
    if n > 0 {
        no_sorts_are_added(sort, n - 1, names);
    }
}

/// No more filters are used or wait than a view has, and none waits where the columns
/// are all known.
pub proof fn no_filters_are_added(
    filters: Seq<SavedFilter>,
    n: int,
    names: TableNames,
    provisional: bool,
)
    requires
        0 <= n <= filters.len(),
    ensures
        filter_uses(filters, n, names).len() + waiting_filters(
            filters,
            n,
            names,
            provisional,
        ).len() <= n,
        !provisional ==> waiting_filters(filters, n, names, provisional).len() == 0,
    decreases n,
{
    if n > 0 {
        no_filters_are_added(filters, n - 1, names, provisional);
    }
}

/// Each sort of a view whose column is found is planned behind those before it: on that
/// column, of the kind that it has and in its direction. One whose column is not found
/// is passed over.
pub proof fn sorts_are_planned_in_their_direction(sort: Seq<SortKey>, n: int, names: TableNames)
    requires
        0 <= n < sort.len(),
    ensures
        sort_uses(sort, 0, names).len() == 0,
        referred(names, sort[n].column@) is None ==> sort_uses(sort, n + 1, names) == sort_uses(
            sort,
            n,
            names,
        ),
        referred(names, sort[n].column@) matches Some(column) ==> {
            let planned = sort_uses(sort, n + 1, names);
            &&& planned.drop_last() == sort_uses(sort, n, names)
            &&& planned.len() == sort_uses(sort, n, names).len() + 1
            &&& planned.last().column == column as usize
            &&& planned.last().kind == sort[n].kind
            &&& planned.last().direction is Ascending <==> sort[n].direction is Asc
            &&& planned.last().direction is Descending <==> sort[n].direction is Desc
        },
{
    if referred(names, sort[n].column@) is Some {
        assert(sort_uses(sort, n + 1, names).drop_last() =~= sort_uses(sort, n, names));
    }
}

/// Each filter of a view whose column is found is planned behind those before it: on
/// that column, with its condition, and keeping or dropping what it is written to keep
/// or drop.
pub proof fn filters_are_planned_with_their_action(
    filters: Seq<SavedFilter>,
    n: int,
    names: TableNames,
)
    requires
        0 <= n < filters.len(),
    ensures
        filter_uses(filters, 0, names).len() == 0,
        referred(names, filters[n].column@) is None ==> filter_uses(filters, n + 1, names)
            == filter_uses(filters, n, names),
        referred(names, filters[n].column@) matches Some(column) ==> {
            let planned = filter_uses(filters, n + 1, names);
            &&& planned.drop_last() == filter_uses(filters, n, names)
            &&& planned.len() == filter_uses(filters, n, names).len() + 1
            &&& planned.last().column == column
            &&& planned.last().kind == filters[n].kind
            &&& planned.last().condition == filters[n].condition@
            &&& planned.last().mode is In <==> filters[n].action is In
            &&& planned.last().mode is Out <==> filters[n].action is Out
        },
{
    if referred(names, filters[n].column@) is Some {
        assert(filter_uses(filters, n + 1, names).drop_last() =~= filter_uses(filters, n, names));
    }
}

/// A filter waits for its column where the columns are not all known yet, the column is
/// not found and is written as a path from the root of a record; no other filter waits.
pub proof fn filters_wait_for_their_columns(filters: Seq<SavedFilter>, n: int, names: TableNames)
    requires
        0 <= n < filters.len(),
    ensures
        waiting_filters(filters, 0, names, true).len() == 0,
        referred(names, filters[n].column@) is None && filters[n].column@.len() > 0
            && filters[n].column@[0] == '/' ==> waiting_filters(filters, n + 1, names, true)
            == waiting_filters(filters, n, names, true).push(filters[n]@),
        referred(names, filters[n].column@) is Some || filters[n].column@.len() == 0
            || filters[n].column@[0] != '/' ==> waiting_filters(filters, n + 1, names, true)
            == waiting_filters(filters, n, names, true),
{
}

/// A sort that a view file writes as `desc` is planned descending and one that it
/// writes as `asc` ascending, each in its place, where the file is read without a
/// warning about its sorts and every column is found.
pub proof fn written_sorts_are_planned_as_written(
    r: ViewChanges,
    view: SavedView,
    raw: RawSavedView,
    header: Seq<Seq<char>>,
    definition: Option<TableDefinition>,
    i: int,
)
    requires
        saved_views::is_checked_view(view, raw),
        saved_views::sorts_checked(raw.view.sort@, saved_views::sort_count(raw.view)).warnings.len()
            == 0,
        are_changes(r, view, header, definition, false),
        forall|k: int|
            0 <= k < raw.view.sort@.len() ==> referred(
                table_names(definition, header),
                (#[trigger] raw.view.sort@[k]).column@,
            ) is Some,
        0 <= i < raw.view.sort@.len(),
        i < 3,
    ensures
        i < r.sort@.len(),
        r.sort@[i].column == referred(
            table_names(definition, header),
            raw.view.sort@[i].column@,
        )->0 as usize,
        r.sort@[i].direction is Ascending <==> raw.view.sort@[i].direction@ == "asc"@,
        r.sort@[i].direction is Descending <==> raw.view.sort@[i].direction@ == "desc"@,
        r.sort@[i].kind is Lexical <==> raw.view.sort@[i].kind@ == "lexical"@,
        r.sort@[i].kind is Natural <==> raw.view.sort@[i].kind@ == "natural"@,
        r.sort@[i].kind is Numeric <==> raw.view.sort@[i].kind@ == "numeric"@,
        r.sort@[i].kind is Type <==> raw.view.sort@[i].kind@ == "type"@,
{
    let names = table_names(definition, header);
    let sort = view.view.sort@;
    saved_views::views_sort_as_written(view, raw, i);
    assert forall|k: int| 0 <= k < sort.len() implies referred(
        names,
        (#[trigger] sort[k]).column@,
    ) is Some by {
        saved_views::views_sort_as_written(view, raw, k);
        assert(raw.view.sort@[k].column@ == sort[k].column@);
    }
    lemma_sorts_in_place(sort, sort.len() as int, names, i);
}

proof fn lemma_sorts_in_place(sort: Seq<SortKey>, n: int, names: TableNames, i: int)
    requires
        0 <= i < n <= sort.len(),
        forall|k: int| 0 <= k < sort.len() ==> referred(names, (#[trigger] sort[k]).column@) is Some,
    ensures
        sort_uses(sort, n, names).len() == n,
        sort_uses(sort, n, names)[i].column == referred(names, sort[i].column@)->0 as usize,
        sort_uses(sort, n, names)[i].kind == sort[i].kind,
        sort_uses(sort, n, names)[i].direction is Ascending <==> sort[i].direction is Asc,
        sort_uses(sort, n, names)[i].direction is Descending <==> sort[i].direction is Desc,
    decreases n,
{
    assert(referred(names, sort[n - 1].column@) is Some);
    if n > 1 {
        lemma_sorts_in_place(
            sort,
            n - 1,
            names,
            if i < n - 1 {
                i
            } else {
                0
            },
        );
    }
}

/// Every filter that is planned says what a filter of the view file says: one written
/// as `in` keeps rows and one written as `out` drops them.
pub proof fn written_filters_are_planned_as_written(
    r: ViewChanges,
    view: SavedView,
    raw: RawSavedView,
    header: Seq<Seq<char>>,
    definition: Option<TableDefinition>,
    unsorted: bool,
    i: int,
)
    requires
        saved_views::is_checked_view(view, raw),
        are_changes(r, view, header, definition, unsorted),
        0 <= i < r.filters@.len(),
    ensures
        exists|k: int|
            {
                &&& 0 <= k < raw.view.filters@.len()
                &&& r.filters@[i].condition@ == (#[trigger] raw.view.filters@[k]).condition@
                &&& referred(table_names(definition, header), raw.view.filters@[k].column@) == Some(
                    r.filters@[i].column as int,
                )
                &&& r.filters@[i].mode is In <==> raw.view.filters@[k].action@ == "in"@
                &&& r.filters@[i].mode is Out <==> raw.view.filters@[k].action@ == "out"@
                &&& r.filters@[i].kind is Text <==> raw.view.filters@[k].kind@ == "text"@
                &&& r.filters@[i].kind is Regex <==> raw.view.filters@[k].kind@ == "regex"@
                &&& r.filters@[i].kind is Numeric <==> raw.view.filters@[k].kind@ == "numeric"@
            },
{
    let names = table_names(definition, header);
    let filters = view.view.filters@;
    let uses = use_views(r.filters@);
    assert(uses[i] == r.filters@[i]@);
    lemma_filter_origin(filters, filters.len() as int, names, i);
    let j = choose|j: int|
        0 <= j < filters.len() && is_use_of(uses[i], #[trigger] filters[j], names);
    let models = saved_views::filter_views(filters);
    assert(models[j] == filters[j]@);
    lemma_kept_origin(raw.view.filters@, raw.view.filters@.len() as int, j);
    let k = choose|k: int|
        0 <= k < raw.view.filters@.len() && saved_views::filter_checked(
            #[trigger] raw.view.filters@[k],
        ).value == Some(models[j]);
    saved_views::actions_are_read_by_their_names(raw.view.filters@[k].action@);
    saved_views::filter_kinds_are_read_by_their_names(raw.view.filters@[k].kind@);
    assert(r.filters@[i].condition@ == raw.view.filters@[k].condition@);
}

spec fn is_use_of(planned: FilterUseModel, filter: SavedFilter, names: TableNames) -> bool {
    &&& referred(names, filter.column@) == Some(planned.column)
    &&& planned.condition == filter.condition@
    &&& planned.kind == filter.kind
    &&& planned.mode is In <==> filter.action is In
    &&& planned.mode is Out <==> filter.action is Out
}

proof fn lemma_filter_origin(filters: Seq<SavedFilter>, n: int, names: TableNames, i: int)
    requires
        0 <= n <= filters.len(),
        0 <= i < filter_uses(filters, n, names).len(),
    ensures
        exists|j: int|
            0 <= j < n && is_use_of(
                filter_uses(filters, n, names)[i],
                #[trigger] filters[j],
                names,
            ),
    decreases n,
{
    if i < filter_uses(filters, n - 1, names).len() {
        lemma_filter_origin(filters, n - 1, names, i);
        let j = choose|j: int|
            0 <= j < n - 1 && is_use_of(
                filter_uses(filters, n - 1, names)[i],
                #[trigger] filters[j],
                names,
            );
        assert(is_use_of(filter_uses(filters, n, names)[i], filters[j], names));
    } else {
        assert(is_use_of(filter_uses(filters, n, names)[i], filters[n - 1], names));
    }
}

proof fn lemma_kept_origin(raw: Seq<RawSavedFilter>, n: int, j: int)
    requires
        0 <= n <= raw.len(),
        0 <= j < saved_views::filters_checked(raw, n).value.len(),
    ensures
        exists|k: int|
            0 <= k < n && saved_views::filter_checked(#[trigger] raw[k]).value == Some(
                saved_views::filters_checked(raw, n).value[j],
            ),
    decreases n,
{
    if j < saved_views::filters_checked(raw, n - 1).value.len() {
        lemma_kept_origin(raw, n - 1, j);
        let k = choose|k: int|
            0 <= k < n - 1 && saved_views::filter_checked(#[trigger] raw[k]).value == Some(
                saved_views::filters_checked(raw, n - 1).value[j],
            );
        assert(saved_views::filter_checked(raw[k]).value == Some(
            saved_views::filters_checked(raw, n).value[j],
        ));
    } else {
        assert(saved_views::filter_checked(raw[n - 1]).value == Some(
            saved_views::filters_checked(raw, n).value[j],
        ));
    }
}

/// A view sorts nothing where sorting is refused, and otherwise takes its placement and
/// its locale over as they are.
pub proof fn views_change_what_they_say(
    r: ViewChanges,
    view: SavedView,
    header: Seq<Seq<char>>,
    definition: Option<TableDefinition>,
    unsorted: bool,
)
    requires
        are_changes(r, view, header, definition, unsorted),
    ensures
        unsorted ==> r.sort@.len() == 0,
        r.nulls == view.view.nulls,
        view.view.locale is None <==> r.locale is None,
        view.view.locale matches Some(locale) ==> r.locale->0@ == locale@,
        r.filters@.len() <= view.view.filters@.len(),
        r.sort@.len() <= view.view.sort@.len(),
        definition is None ==> r.pending is None,
        definition matches Some(table) && !(table.schema_state is Provisional) ==> r.pending is None,
{
    let names = table_names(definition, header);
    no_sorts_are_added(view.view.sort@, view.view.sort@.len() as int, names);
    no_filters_are_added(view.view.filters@, view.view.filters@.len() as int, names, false);
    assert(use_views(r.filters@).len() == r.filters@.len());
}

/// A key refers to the column with that key first, where columns have keys, and
/// otherwise to the header of that name.
pub proof fn keys_refer_before_headers(names: TableNames, key: Seq<char>)
    ensures
        names.keyed && table::column_named(names.columns, key) is Ok ==> referred(names, key)
            == Some(table::column_named(names.columns, key)->Ok_0),
        !names.keyed || table::column_named(names.columns, key) is Err ==> referred(names, key)
            == saved_columns::column_referred(names.header, key),
{
}

/// A warning is shown with its kind in front, then the field, a colon and the message;
/// as many lines as warnings, in their order.
pub proof fn warnings_are_shown_line_by_line(
    kind: Seq<char>,
    warnings: Seq<WarningModel>,
    warning: WarningModel,
)
    ensures
        warning_lines(kind, Seq::empty()).len() == 0,
        warning_lines(kind, warnings.push(warning)) == warning_lines(kind, warnings).push(
            kind + warning.field + seq![':', ' '] + warning.message,
        ),
{
    reveal_strlit(": ");
    assert(": "@ =~= seq![':', ' ']);
    assert(warning_lines(kind, warnings.push(warning)) =~= warning_lines(kind, warnings).push(
        kind + warning.field + seq![':', ' '] + warning.message,
    ));
}

/// A partial result is told first, and then every warning of the source.
pub proof fn partial_results_are_told_first(warnings: Seq<Seq<char>>, i: int)
    requires
        0 <= i < warnings.len(),
    ensures
        result_lines(false, warnings).len() == warnings.len(),
        result_lines(true, warnings).len() == warnings.len() + 1,
        result_lines(true, warnings)[0] == "warning: source returned a partial result"@,
        result_lines(true, warnings)[i + 1] == "warning: "@ + warnings[i],
        result_lines(false, warnings)[i] == "warning: "@ + warnings[i],
{
}

/// A view is chosen by its name where it is asked for by name, by the name of the file
/// where none is asked for, and never where views are off; only one that is asked for
/// by name can be missing.
pub proof fn views_are_chosen_as_asked(
    views: Seq<SavedViewFile>,
    name: Seq<char>,
    identity: Seq<char>,
    ignore_case: bool,
)
    ensures
        place_chosen(views, SelectionModel::Disabled, identity, ignore_case) is None,
        !lacks_view(views, SelectionModel::Disabled, identity, ignore_case),
        !lacks_view(views, SelectionModel::Auto, identity, ignore_case),
        lacks_view(views, SelectionModel::Force(name), identity, ignore_case) <==> forall|i: int|
            0 <= i < views.len() ==> !patterns::same_name(
                (#[trigger] views[i]).canonical_name@,
                saved_views::view_name(name),
                ignore_case,
            ),
        place_chosen(views, SelectionModel::Force(name), identity, ignore_case) matches Some(at)
            ==> 0 <= at < views.len() && patterns::same_name(
            views[at].canonical_name@,
            saved_views::view_name(name),
            ignore_case,
        ),
        place_chosen(views, SelectionModel::Auto, identity, ignore_case) is Some
            ==> source::file_name(identity) is Some,
        source::file_name(identity) matches Some(file) ==> place_chosen(
            views,
            SelectionModel::Auto,
            identity,
            ignore_case,
        ) == saved_selection::chosen_view(views, views.len() as int, file, ignore_case),
{
    lemma_named_view(views, saved_views::view_name(name), ignore_case, 0);
}

proof fn lemma_named_view(
    views: Seq<SavedViewFile>,
    name: Seq<char>,
    ignore_case: bool,
    from: int,
)
    requires
        0 <= from <= views.len(),
    ensures
        saved_selection::named_view(views, name, ignore_case, from) is None <==> forall|i: int|
            from <= i < views.len() ==> !patterns::same_name(
                (#[trigger] views[i]).canonical_name@,
                name,
                ignore_case,
            ),
        saved_selection::named_view(views, name, ignore_case, from) matches Some(at) ==> from <= at
            < views.len() && patterns::same_name(views[at].canonical_name@, name, ignore_case),
    decreases views.len() - from,
{
    if from < views.len() && !patterns::same_name(views[from].canonical_name@, name, ignore_case) {
        lemma_named_view(views, name, ignore_case, from + 1);
    }
}

/// A view for a file that has none yet is put below the directory of views, under the
/// name of the file with the extension of a view in place of its own.
pub proof fn placeholders_are_named_after_files(
    dir: Seq<char>,
    place: Seq<char>,
    stem: Seq<char>,
    e: Seq<char>,
)
    requires
        stem.len() > 0,
        text::lacks(stem, '/'),
        text::lacks(e, '.'),
        source::is_plain_name(stem.push('.') + e),
    ensures
        placeholder_path(Some(dir), place.push('/') + (stem.push('.') + e)) == Some(
            source::path_below(dir, stem + seq!['.', 'y', 'm', 'l']),
        ),
        placeholder_path(None, place.push('/') + (stem.push('.') + e)) is None,
        placeholder_name(placeholder_path(Some(dir), place.push('/') + (stem.push('.') + e)))
            == stem,
        placeholder_name(None) == seq!['v', 'i', 'e', 'w'],
{
    reveal_strlit("view");
    reveal_strlit(".yml");
    reveal_strlit(".");
    reveal_strlit("..");
    assert("view"@ =~= seq!['v', 'i', 'e', 'w']);
    assert(".yml"@ =~= seq!['.', 'y', 'm', 'l']);
    source::names_stand_behind_the_last_slash(place, stem.push('.') + e);
    source::extensions_stand_behind_the_last_dot(stem, e);
    let yml = seq!['y', 'm', 'l'];
    let name = stem.push('.') + yml;
    assert(stem + ".yml"@ =~= name);
    assert(text::lacks(yml, '.'));
    assert(text::lacks(name, '/')) by {
        assert forall|i: int| 0 <= i < name.len() implies #[trigger] name[i] != '/' by {
            if i < stem.len() {
                assert(stem[i] != '/');
            }
        }
    }
    assert(name.len() > "."@.len() && name.len() > ".."@.len());
    source::names_are_put_below_directories(dir, name);
    source::extensions_stand_behind_the_last_dot(stem, yml);
}

/// The options of a start are those that were merged, with how the text is to be read
/// taken from the command line, and a preview where a number of lines is asked for.
pub proof fn starts_take_the_command_line(
    r: OpenOptions,
    config: Config,
    merged: OpenOptions,
    saved: SourceOptionOverrides,
)
    requires
        is_startup_options(r, config, merged, saved),
    ensures
        r.preview <==> config.top_lines is Some,
        r.delimited@.delimiter == config.delimiter,
        r.delimited@.quoting == config.quoting,
        r.delimited@.quote_char == config.quote_char,
        r.delimited@.encoding == text::opt_view(config.encoding),
        r.format == merged.format,
        r.table == merged.table,
        r.native_query == merged.native_query,
        config.source_options.format matches Some(format) ==> r.format == format,
        config.source_options.format is None && saved.format is Some ==> r.format
            == saved.format->0,
        config.source_options.format is None && saved.format is None ==> r.format is Auto,
        config.source_options.object_mode is None && saved.object_mode is None ==> r.object_mode
            is Auto,
        config.source_options.schema_scan is None && saved.schema_scan is None ==> r.schema_scan
            is Default,
        config.source_options.limit is None && saved.limit is None ==> r.limit is None,
{
    let defaults = choose|defaults: OpenOptions| #[trigger]
        options::is_merge(merged, defaults, saved, config.source_options) && is_default(defaults);
    options::saved_view_outranks_defaults(merged, defaults, saved, config.source_options);
    options::command_line_outranks_saved_view(merged, defaults, saved, config.source_options);
}

/// Sorting and a number of lines each ask for a table that is written directly.
pub proof fn sorting_asks_for_a_direct_table(config: Config)
    ensures
        config.sorted is Some ==> asks_for_direct_table(config),
        config.top_lines is Some ==> asks_for_direct_table(config),
        config.sorted is None && config.top_lines is None ==> !asks_for_direct_table(config),
{
}

/// A view that is applied is called by its own name and stands in its own file, which is
/// also where it is saved; its warnings are shown.
pub proof fn applied_views_stand_in_their_file(
    r: AppliedView,
    request: ViewRequest,
    discovery: SavedViewDiscovery,
    at: int,
    header: Option<Vec<String>>,
    definition: Option<TableDefinition>,
)
    requires
        is_applied(r, request, discovery, at, header, definition),
        0 <= at < discovery.views@.len(),
    ensures
        r.runtime.source_path is Some,
        r.runtime.source_path->0@ == discovery.views@[at].path@,
        r.runtime.target_path is Some,
        r.runtime.target_path->0@ == discovery.views@[at].path@,
        r.runtime.view_name@ == discovery.views@[at].canonical_name@,
        header is Some <==> r.changes is Some,
        r.runtime.messages@.len() >= discovery.warnings@.len()
            + discovery.views@[at].warnings@.len(),
        discovery.warnings@.len() > 0 ==> r.runtime.messages@[0]@ == "saved view: "@
            + discovery.warnings@[0].field@ + ": "@ + discovery.warnings@[0].message@,
{
    let shown = text::views(r.runtime.messages@);
    assert(shown.len() == r.runtime.messages@.len());
    let told = saved_colors::warning_views(discovery.warnings@);
    if discovery.warnings@.len() > 0 {
        assert(told[0] == discovery.warnings@[0]@);
        assert(warning_lines("saved view: "@, told)[0] == warning_line("saved view: "@, told[0]));
        assert(shown[0] == r.runtime.messages@[0]@);
    }
}

/// A place for a view that is not there yet has no file to be read from, and is called
/// after the file in which it would be saved.
pub proof fn placeholders_have_no_file_yet(
    r: AppliedView,
    request: ViewRequest,
    discovery: SavedViewDiscovery,
)
    requires
        is_placeholder(r, request, discovery),
    ensures
        r.changes is None,
        r.runtime.source_path is None,
        r.runtime.explicit_locale is None,
        r.runtime.messages@.len() == discovery.warnings@.len(),
        text::opt_view(r.runtime.target_path) == placeholder_path(
            text::opt_view(*request.view_dir),
            request.identity@,
        ),
        r.runtime.view_name@ == placeholder_name(text::opt_view(r.runtime.target_path)),
{
    assert(text::views(r.runtime.messages@).len() == r.runtime.messages@.len());
}

/// A view that was asked for and is missing is told by its name; one that was found by the
/// file is doubted where another fits as closely, and one that was asked for never is.
pub proof fn missing_views_are_told_by_name(
    views: Seq<SavedViewFile>,
    at: int,
    name: Seq<char>,
    identity: Seq<char>,
    ignore_case: bool,
)
    ensures
        missing_view(name) == "saved view '"@ + name + "' was requested but was not found"@,
        choice_warnings(views, at, SelectionModel::Force(name), identity, ignore_case).len() == 0,
        ({
            let told = choice_warnings(views, at, SelectionModel::Auto, identity, ignore_case);
            let file = source::file_name(identity)->0;
            &&& told.len() == 1 <==> exists|k: int|
                0 <= k < views.len() && k != at && saved_selection::file_rank(
                    #[trigger] views[k],
                    file,
                    ignore_case,
                ) == saved_selection::file_rank(views[at], file, ignore_case)
            &&& told.len() == 1 ==> told[0].field == file && told[0].message
                == "multiple saved views matched '"@ + file + "'; using "@ + views[at].path@
        }),
{
}

/// A table is provisional where its columns have keys and may still change.
pub proof fn tables_with_keys_may_be_provisional(table: TableDefinition, i: int)
    ensures
        !is_provisional(None),
        is_provisional(Some(table)) ==> table.schema_state is Provisional,
        0 <= i < table.columns@.len() && table::column_views(table.columns@)[i].identity.key()
            is Some ==> (is_provisional(Some(table)) <==> table.schema_state is Provisional),
        table.columns@.len() == 0 ==> !has_keys(Some(table)),
{
}

/// Unless something else is asked for, everything is found out by itself, nothing is
/// filtered, sorted or cut off, and large files are those that the program says.
pub proof fn defaults_ask_for_nothing(defaults: OpenOptions)
    requires
        is_default(defaults),
    ensures
        defaults.format is Auto,
        defaults.object_mode is Auto,
        defaults.object_mode_origin is Default,
        defaults.schema_scan is Default,
        defaults.json_path is None,
        defaults.table is None,
        defaults.native_query is None,
        defaults.limit is None,
        defaults.source_filters@.len() == 0,
        defaults.source_sort@.len() == 0,
        !defaults.preview,
        defaults.fault() is None,
{
}

} // verus!
