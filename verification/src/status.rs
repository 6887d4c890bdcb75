//! Texts that tell how things stand, and the places where they are drawn.

use vstd::prelude::*;
use vstd::string::*;

use crate::options::{
    InputFormat, ObjectMode, ObjectModeResolution, OpenOptions, ResolvedObjectMode, SchemaScan,
};
use crate::source::{self, InputSource, SourceModel, extension_of};
use crate::source_modal::{self, CapabilityStatus, ModalModel, SourceConfigModal, SourceContext};
use crate::table::{ColumnWidthMode, RowCount};
use crate::text::{self, ascii_lower, concat2, concat3, decimal_of, decimal_of_usize, join, same};

verus! {

/// How much of its rows a source gave.
#[derive(Debug, Clone, Copy, PartialEq, Eq, Structural)]
pub enum ResultExtent {
    Complete,
    Truncated { limit: usize },
}

// ---------------------------------------------------------------------------
// The footer
// ---------------------------------------------------------------------------

/// What the footer says: what the source says, else the last message, else the
/// row counts.
pub fn footer_status<'a>(
    source_status: Option<&'a str>,
    message: Option<&'a str>,
    count_status: &'a str,
) -> (r: &'a str)
    ensures
        r@ == (match (source_status, message) {
            (Some(status), _) => status@,
            (None, Some(message)) => message@,
            (None, None) => count_status@,
        }),
{
    match (source_status, message) {
        (Some(status), _) => status,
        (None, Some(message)) => message,
        (None, None) => count_status,
    }
}

/// What is said of the extent of a result while the rows are counted.
pub open spec fn extent_status(extent: Option<ResultExtent>, pending: bool) -> Seq<char> {
    match extent {
        Some(ResultExtent::Complete) => "complete"@,
        Some(ResultExtent::Truncated { limit }) => "limited "@ + text::decimal(limit as nat),
        None => if pending {
            "querying"@
        } else {
            "fetching"@
        },
    }
}

/// What is said of a partial result.
pub open spec fn partial_note(partial: bool) -> Seq<char> {
    if partial {
        ", partial"@
    } else {
        Seq::empty()
    }
}

/// What the row counts say.
pub fn source_count_status(
    extent: Option<ResultExtent>,
    pending: bool,
    partial: bool,
    visible_rows: usize,
    source_rows: usize,
) -> (r: String)
    ensures
        r@ == text::decimal(visible_rows as nat) + " visible / "@ + text::decimal(source_rows as nat)
            + " source ("@ + (extent_status(extent, pending) + partial_note(partial)) + ")"@,
{
    let mut state = match extent {
        Some(ResultExtent::Complete) => "complete".to_owned(),
        Some(ResultExtent::Truncated { limit }) => concat2("limited ", &decimal_of_usize(limit)),
        None => if pending {
            "querying".to_owned()
        } else {
            "fetching".to_owned()
        },
    };
    if partial {
        state.append(", partial");
    } else {
        assert(state@ + partial_note(partial) =~= state@);
    }
    let mut out = decimal_of_usize(visible_rows);
    out.append(" visible / ");
    out.append(&decimal_of_usize(source_rows));
    out.append(" source (");
    out.append(&state);
    out.append(")");
    out
}

/// What is said of the extent of a result in a dialogue. The extent comes as it is
/// described.
pub fn source_extent_label(extent: Option<&str>, pending: bool) -> (r: String)
    ensures
        r@ == (match extent {
            Some(described) => described@,
            None => if pending {
                "pending"@
            } else {
                "unknown"@
            },
        }),
{
    match extent {
        Some(described) => described.to_owned(),
        None => if pending {
            "pending".to_owned()
        } else {
            "unknown".to_owned()
        },
    }
}

// ---------------------------------------------------------------------------
// Opening
// ---------------------------------------------------------------------------

/// Whether an extension is one of structured files.
pub open spec fn is_structured_extension(extension: Seq<char>) -> bool {
    text::lower(extension) == "json"@ || text::lower(extension) == "ndjson"@ || text::lower(extension) == "jsonl"@
}

/// Whether a source is expected to be structured.
pub open spec fn is_structured_hint(source: SourceModel, options: OpenOptions) -> bool {
    match options.format {
        InputFormat::Json => true,
        InputFormat::Ndjson => true,
        InputFormat::Delimited => false,
        InputFormat::Sqlite => false,
        InputFormat::Auto => options.json_path is Some || (match source {
            SourceModel::Path(path) => match source::extension(path) {
                Some(e) => is_structured_extension(e),
                None => false,
            },
            _ => false,
        }),
    }
}

/// What is said before the whole schema of a structured source is read.
pub fn full_schema_scan_status(source: &InputSource, options: &OpenOptions) -> (r: Option<String>)
    ensures
        match r {
            Some(text) => {
                &&& options.schema_scan is Full
                &&& is_structured_hint(source@, *options)
                &&& text@ == "Scanning full schema for "@ + source@.name()
            },
            None => options.schema_scan !is Full || !is_structured_hint(source@, *options),
        },
{
    let structured = match options.format {
        InputFormat::Json => true,
        InputFormat::Ndjson => true,
        InputFormat::Delimited => false,
        InputFormat::Sqlite => false,
        InputFormat::Auto => if options.json_path.is_some() {
            true
        } else {
            match source {
                InputSource::Path(path) => match extension_of(path) {
                    Some(e) => {
                        let lowered = ascii_lower(&e);
                        same(&lowered, "json") || same(&lowered, "ndjson") || same(
                            &lowered,
                            "jsonl",
                        )
                    },
                    None => false,
                },
                _ => false,
            }
        },
    };
    if options.schema_scan == SchemaScan::Full && structured {
        Some(concat2("Scanning full schema for ", &source.display_name()))
    } else {
        None
    }
}

/// What is said while a source is opened.
pub fn loading_status(source: &InputSource) -> (r: String)
    ensures
        r@ == "Loading "@ + source@.name(),
{
    concat2("Loading ", &source.display_name())
}

// ---------------------------------------------------------------------------
// The information dialogue
// ---------------------------------------------------------------------------

/// A place in a table, counted from zero.
#[derive(Debug, Clone, Copy, PartialEq, Eq, Structural)]
pub struct Position {
    pub row: usize,
    pub column: usize,
}

/// What the information dialogue tells of a view.
#[derive(Debug, PartialEq, Eq)]
pub struct ViewSummary {
    pub rows: RowCount,
    pub visible_rows: usize,
    pub source_rows: usize,
    pub extent: Option<ResultExtent>,
    pub partial: bool,
    pub columns: usize,
    pub cursor: Position,
    pub width_mode: ColumnWidthMode,
    pub gap: usize,
    pub mark: Option<Position>,
    pub object_mode: Option<ObjectModeResolution>,
}

/// A row count in words.
pub open spec fn count_text(rows: RowCount) -> Seq<char> {
    match rows {
        RowCount::Exact(n) => text::decimal(n as nat),
        RowCount::AtLeast(n) => text::decimal(n as nat) + "+"@,
        RowCount::Unknown => "unknown"@,
    }
}

/// The extent of a result in words.
pub open spec fn extent_text(extent: Option<ResultExtent>) -> Seq<char> {
    match extent {
        Some(ResultExtent::Complete) => "complete"@,
        Some(ResultExtent::Truncated { limit }) => "limited to "@ + text::decimal(limit as nat),
        None => "in progress"@,
    }
}

/// A place, counted from one.
pub open spec fn position_text(position: Position) -> Seq<char> {
    text::decimal((position.row + 1) as nat) + ","@ + text::decimal((position.column + 1) as nat)
}

/// A mark in words.
pub open spec fn mark_text(mark: Option<Position>) -> Seq<char> {
    match mark {
        Some(position) => position_text(position),
        None => "none"@,
    }
}

/// A width mode in words.
pub open spec fn width_mode_text(mode: ColumnWidthMode) -> Seq<char> {
    match mode {
        ColumnWidthMode::Mode => "Mode"@,
        ColumnWidthMode::Max => "Max"@,
        ColumnWidthMode::Fixed(n) => "Fixed("@ + text::decimal(n as nat) + ")"@,
    }
}

/// What is said of an object mode. One that was found by itself says how to get the
/// other.
pub open spec fn object_mode_text(mode: Option<ObjectModeResolution>) -> Seq<char> {
    match mode {
        None => Seq::empty(),
        Some(mode) => if mode.requested is Auto {
            "\nObject mode: auto → "@ + mode.resolved.name() + (if mode.resolved is Entries {
                " (use --object-mode record for one row)"@
            } else {
                Seq::empty()
            })
        } else {
            "\nObject mode: "@ + mode.resolved.name()
        },
    }
}

/// What the information dialogue says.
pub open spec fn summary_text(view: ViewSummary) -> Seq<char> {
    "Rows: "@ + count_text(view.rows) + "\nVisible rows: "@ + text::decimal(view.visible_rows as nat)
        + "\nFetched source rows: "@ + text::decimal(view.source_rows as nat) + "\nSource extent: "@ + (
    extent_text(view.extent) + partial_note(view.partial)) + "\nColumns: "@ + text::decimal(
        view.columns as nat,
    ) + "\nPosition: "@ + position_text(view.cursor) + "\nWidth mode: "@ + width_mode_text(
        view.width_mode,
    ) + "\nColumn gap: "@ + text::decimal(view.gap as nat) + "\nMark: "@ + mark_text(view.mark)
        + object_mode_text(view.object_mode)
}

/// Whether a place can be counted from one.
pub open spec fn is_countable(position: Position) -> bool {
    position.row < usize::MAX && position.column < usize::MAX
}

fn write_position(position: Position) -> (r: String)
    requires
        is_countable(position),
    ensures
        r@ == position_text(position),
{
    concat3(
        &decimal_of_usize(position.row + 1),
        ",",
        &decimal_of_usize(position.column + 1),
    )
}

fn write_object_mode(mode: Option<ObjectModeResolution>) -> (r: String)
    ensures
        r@ == object_mode_text(mode),
{
    match mode {
        None => {
            let empty = String::new();
            assert(empty@ =~= Seq::<char>::empty());
            empty
        },
        Some(mode) => if mode.requested == ObjectMode::Auto {
            let mut out = concat2("\nObject mode: auto → ", mode.resolved.label());
            if mode.resolved == ResolvedObjectMode::Entries {
                out.append(" (use --object-mode record for one row)");
            } else {
                assert(out@ + Seq::<char>::empty() =~= out@);
            }
            out
        } else {
            concat2("\nObject mode: ", mode.resolved.label())
        },
    }
}

/// What the information dialogue says.
pub fn info_text(view: &ViewSummary) -> (r: String)
    requires
        is_countable(view.cursor),
        view.mark is Some ==> is_countable(view.mark->0),
    ensures
        r@ == summary_text(*view),
{
    let rows = match view.rows {
        RowCount::Exact(n) => decimal_of_usize(n),
        RowCount::AtLeast(n) => concat2(&decimal_of_usize(n), "+"),
        RowCount::Unknown => "unknown".to_owned(),
    };
    let mut extent = match view.extent {
        Some(ResultExtent::Complete) => "complete".to_owned(),
        Some(ResultExtent::Truncated { limit }) => concat2(
            "limited to ",
            &decimal_of_usize(limit),
        ),
        None => "in progress".to_owned(),
    };
    if view.partial {
        extent.append(", partial");
    } else {
        assert(extent@ + partial_note(view.partial) =~= extent@);
    }
    let width_mode = match view.width_mode {
        ColumnWidthMode::Mode => "Mode".to_owned(),
        ColumnWidthMode::Max => "Max".to_owned(),
        ColumnWidthMode::Fixed(n) => concat3("Fixed(", &decimal_of(n as u64), ")"),
    };
    let mark = match view.mark {
        Some(position) => write_position(position),
        None => "none".to_owned(),
    };
    let mut out = concat2("Rows: ", &rows);
    out.append("\nVisible rows: ");
    out.append(&decimal_of_usize(view.visible_rows));
    out.append("\nFetched source rows: ");
    out.append(&decimal_of_usize(view.source_rows));
    out.append("\nSource extent: ");
    out.append(&extent);
    out.append("\nColumns: ");
    out.append(&decimal_of_usize(view.columns));
    out.append("\nPosition: ");
    out.append(&write_position(view.cursor));
    out.append("\nWidth mode: ");
    out.append(&width_mode);
    out.append("\nColumn gap: ");
    out.append(&decimal_of_usize(view.gap));
    out.append("\nMark: ");
    out.append(&mark);
    out.append(&write_object_mode(view.object_mode));
    out
}

// ---------------------------------------------------------------------------
// The source dialogues
// ---------------------------------------------------------------------------

/// The query that a source ran, in its own language.
#[derive(Debug, PartialEq, Eq)]
pub struct QueryProvenance {
    pub language: String,
    pub logical: String,
    pub parameters: String,
    pub copyable: String,
}

/// A field that a source maps.
#[derive(Debug, PartialEq, Eq)]
pub struct MappingField {
    pub name: String,
    pub source_types: Vec<String>,
    pub searchable: bool,
    pub aggregatable: bool,
    pub conflict: bool,
    pub runtime: bool,
    pub multifield: bool,
}

/// What the source dialogue tells of a source.
#[derive(Debug, PartialEq, Eq)]
pub struct SourceSummary {
    pub endpoint: String,
    pub relation: Option<String>,
    pub extent: Option<String>,
    pub pending: bool,
    pub partial: bool,
    pub result_fields: usize,
    pub mapping: Vec<MappingField>,
    pub provenance: Option<QueryProvenance>,
}

/// The label of the chosen column.
pub open spec fn column_label(context: SourceContext, column: usize) -> Seq<char> {
    if column < context.columns@.len() {
        context.columns@[column as int].label@
    } else {
        "none"@
    }
}

/// A truth value in words.
pub open spec fn truth(value: bool) -> Seq<char> {
    if value {
        "true"@
    } else {
        "false"@
    }
}

/// A word, if something holds.
pub open spec fn word_if(holds: bool, word: Seq<char>) -> Seq<char> {
    if holds {
        word
    } else {
        Seq::empty()
    }
}

/// What is said of the field that is mapped.
pub open spec fn field_text(field: MappingField) -> Seq<char> {
    "\nSelected mapping: "@ + field.name@ + " ["@ + text::joined(text::views(field.source_types@), "|"@)
        + "] searchable="@ + truth(field.searchable) + " aggregatable="@ + truth(
        field.aggregatable,
    ) + word_if(field.conflict, " conflict"@) + word_if(field.runtime, " runtime"@) + word_if(
        field.multifield,
        " multifield"@,
    )
}

/// What is said of the first field of a name from `from` on.
pub open spec fn selected_field_text(mapping: Seq<MappingField>, name: Seq<char>, from: int) -> Seq<
    char,
>
    decreases mapping.len() - from,
{
    if from < 0 || from >= mapping.len() {
        Seq::empty()
    } else if mapping[from].name@ == name {
        field_text(mapping[from])
    } else {
        selected_field_text(mapping, name, from + 1)
    }
}

/// What is said of the fields that are mapped.
pub open spec fn mapping_text(mapping: Seq<MappingField>, column: Seq<char>) -> Seq<char> {
    if mapping.len() == 0 {
        "Mapping fields: result schema only"@
    } else {
        "Mapping fields: "@ + text::decimal(mapping.len()) + selected_field_text(mapping, column, 0)
    }
}

/// What is said of the editors: the one that is open, or the keys that can be used.
pub open spec fn editor_text(modal: ModalModel, column: Seq<char>) -> Seq<char> {
    if modal.editing_query {
        "\n\nNative query editor:\n"@ + modal.query_input
            + "\nEnter: stage query  Esc: cancel editor"@
    } else if modal.editing_filter {
        "\n\nFilter editor: "@ + column + " "@ + modal.operator.name() + " "@ + modal.filter_input
            + "\nTab: operator  Enter: add  Esc: cancel editor"@
    } else {
        "\n\n←/→: column  f: add filter  q: edit native query  Tab: operator\ns/S: source sort asc/desc  x: clear column\n+/-: adjust limit  Enter: apply  Esc: cancel"@
    }
}

/// A limit in words.
pub open spec fn limit_text(limit: usize) -> Seq<char> {
    if source_modal::is_unbounded(limit) {
        "unbounded"@
    } else {
        text::decimal(limit as nat)
    }
}

/// Whether a source sorts, in words.
pub open spec fn sorting_text(sorting: CapabilityStatus) -> Seq<char> {
    match sorting {
        CapabilityStatus::Supported => "supported"@,
        CapabilityStatus::Unavailable { reason } => "unavailable: "@ + reason@,
    }
}

/// The extent of a source in words.
pub open spec fn described_extent(summary: SourceSummary) -> Seq<char> {
    match summary.extent {
        Some(described) => described@,
        None => if summary.pending {
            "pending"@
        } else {
            "unknown"@
        },
    }
}

/// What is said of an error.
pub open spec fn error_text(error: Option<Seq<char>>) -> Seq<char> {
    match error {
        Some(error) => "\nError: "@ + error,
        None => Seq::empty(),
    }
}

/// What is said of the query that a source ran.
pub open spec fn provenance_text(provenance: Option<QueryProvenance>) -> Seq<char> {
    match provenance {
        Some(p) => "\n\n"@ + p.language@ + ":\n"@ + p.logical@,
        None => Seq::empty(),
    }
}

/// What the source dialogue says.
pub open spec fn modal_text(
    modal: ModalModel,
    context: SourceContext,
    summary: SourceSummary,
) -> Seq<char> {
    let column = column_label(context, modal.column);
    "Endpoint: "@ + summary.endpoint@ + "\nSource: "@ + (match summary.relation {
        Some(relation) => relation@,
        None => "source"@,
    }) + "\nLimit: "@ + limit_text(modal.draft.limit) + "  Extent: "@ + described_extent(summary)
        + word_if(summary.partial, "  Partial: yes"@) + "\nResult fields: "@ + text::decimal(
        summary.result_fields as nat,
    ) + "\n"@ + mapping_text(summary.mapping@, column) + "\nFilters: "@ + text::decimal(
        modal.draft.filters.len(),
    ) + "  Sort keys: "@ + text::decimal(modal.draft.order_by.len()) + "\nSelected column: "@ + column
        + "\nSource sorting: "@ + sorting_text(context.sorting) + editor_text(modal, column)
        + error_text(modal.error) + provenance_text(summary.provenance)
}

fn append_if(out: &mut String, holds: bool, word: &str)
    ensures
        final(out)@ == old(out)@ + word_if(holds, word@),
{
    if holds {
        out.append(word);
    } else {
        assert(out@ + word_if(holds, word@) =~= out@);
    }
}

fn truth_word(value: bool) -> (r: &'static str)
    ensures
        r@ == truth(value),
{
    if value {
        "true"
    } else {
        "false"
    }
}

fn write_field(field: &MappingField) -> (r: String)
    ensures
        r@ == field_text(*field),
{
    let mut out = concat2("\nSelected mapping: ", &field.name);
    out.append(" [");
    out.append(&join(&field.source_types, "|"));
    out.append("] searchable=");
    out.append(truth_word(field.searchable));
    out.append(" aggregatable=");
    out.append(truth_word(field.aggregatable));
    append_if(&mut out, field.conflict, " conflict");
    append_if(&mut out, field.runtime, " runtime");
    append_if(&mut out, field.multifield, " multifield");
    out
}

fn write_mapping(mapping: &Vec<MappingField>, column: &str) -> (r: String)
    ensures
        r@ == mapping_text(mapping@, column@),
{
    if mapping.len() == 0 {
        return "Mapping fields: result schema only".to_owned();
    }
    let mut out = concat2("Mapping fields: ", &decimal_of_usize(mapping.len()));
    let ghost head = out@;
    let mut i: usize = 0;
    while i < mapping.len()
        invariant
            i <= mapping@.len(),
            mapping@.len() > 0,
            out@ == head,
            head == "Mapping fields: "@ + text::decimal(mapping@.len()),
            selected_field_text(mapping@, column@, 0) == selected_field_text(
                mapping@,
                column@,
                i as int,
            ),
        decreases mapping@.len() - i,
    {
        if same(&mapping[i].name, column) {
            out.append(&write_field(&mapping[i]));
            return out;
        }
        i = i + 1;
    }
    assert(head + Seq::<char>::empty() =~= head);
    out
}

fn write_editor(modal: &SourceConfigModal, column: &str) -> (r: String)
    ensures
        r@ == editor_text(modal@, column@),
{
    if modal.editing_query {
        concat3(
            "\n\nNative query editor:\n",
            &modal.query_input,
            "\nEnter: stage query  Esc: cancel editor",
        )
    } else if modal.editing_filter {
        let mut out = concat2("\n\nFilter editor: ", column);
        out.append(" ");
        out.append(modal.operator.label());
        out.append(" ");
        out.append(&modal.filter_input);
        out.append("\nTab: operator  Enter: add  Esc: cancel editor");
        out
    } else {
        "\n\n←/→: column  f: add filter  q: edit native query  Tab: operator\ns/S: source sort asc/desc  x: clear column\n+/-: adjust limit  Enter: apply  Esc: cancel".to_owned()
    }
}

fn write_provenance(provenance: &Option<QueryProvenance>) -> (r: String)
    ensures
        r@ == provenance_text(*provenance),
{
    match provenance {
        Some(p) => {
            let mut out = concat2("\n\n", &p.language);
            out.append(":\n");
            out.append(&p.logical);
            out
        },
        None => {
            let empty = String::new();
            assert(empty@ =~= Seq::<char>::empty());
            empty
        },
    }
}

/// What the source dialogue says.
pub fn source_modal_body(
    open: &Option<SourceConfigModal>,
    context: &SourceContext,
    summary: &SourceSummary,
) -> (r: String)
    ensures
        r@ == (match *open {
            Some(modal) => modal_text(modal@, *context, *summary),
            None => "Source configuration is unavailable"@,
        }),
{
    let modal = match open {
        Some(modal) => modal,
        None => {
            return "Source configuration is unavailable".to_owned();
        },
    };
    let column: &str = if modal.column < context.columns.len() {
        context.columns[modal.column].label.as_str()
    } else {
        "none"
    };
    let limit = if modal.draft.limit == usize::MAX {
        "unbounded".to_owned()
    } else {
        decimal_of_usize(modal.draft.limit)
    };
    let sorting = match &context.sorting {
        CapabilityStatus::Supported => "supported".to_owned(),
        CapabilityStatus::Unavailable { reason } => concat2("unavailable: ", reason),
    };
    let extent = source_extent_label(
        match &summary.extent {
            Some(described) => Some(described.as_str()),
            None => None,
        },
        summary.pending,
    );
    let mut out = concat2("Endpoint: ", &summary.endpoint);
    out.append("\nSource: ");
    match &summary.relation {
        Some(relation) => out.append(relation),
        None => out.append("source"),
    }
    out.append("\nLimit: ");
    out.append(&limit);
    out.append("  Extent: ");
    out.append(&extent);
    append_if(&mut out, summary.partial, "  Partial: yes");
    out.append("\nResult fields: ");
    out.append(&decimal_of_usize(summary.result_fields));
    out.append("\n");
    out.append(&write_mapping(&summary.mapping, column));
    out.append("\nFilters: ");
    out.append(&decimal_of_usize(modal.draft.filters.len()));
    out.append("  Sort keys: ");
    out.append(&decimal_of_usize(modal.draft.order_by.len()));
    out.append("\nSelected column: ");
    out.append(column);
    out.append("\nSource sorting: ");
    out.append(&sorting);
    out.append(&write_editor(modal, column));
    match &modal.error {
        Some(error) => {
            let line = concat2("\nError: ", error);
            out.append(&line);
        },
        None => {
            assert(out@ + error_text(None) =~= out@);
        },
    }
    out.append(&write_provenance(&summary.provenance));
    out
}

/// What is said of the changes to a view that its source does not know of.
pub open spec fn local_note(transforms: Seq<char>) -> Seq<char> {
    "\n\nLocal transformations not represented by the native query:\n"@ + transforms
}

/// What the query dialogue says.
pub open spec fn query_text(provenance: Option<QueryProvenance>, transforms: Seq<char>) -> Seq<
    char,
> {
    match provenance {
        Some(p) => "Parameterized "@ + p.language@ + ":\n"@ + p.logical@ + "\n\nParameters: "@
            + p.parameters@ + "\n\nCopyable "@ + p.language@ + ":\n"@ + p.copyable@ + local_note(
            transforms,
        ),
        None => "This source has no native query artifact."@ + local_note(transforms),
    }
}

/// What the query dialogue says.
pub fn query_modal_body(provenance: &Option<QueryProvenance>, transforms: &str) -> (r: String)
    ensures
        r@ == query_text(*provenance, transforms@),
{
    let note = concat2(
        "\n\nLocal transformations not represented by the native query:\n",
        transforms,
    );
    match provenance {
        Some(p) => {
            let mut out = concat2("Parameterized ", &p.language);
            out.append(":\n");
            out.append(&p.logical);
            out.append("\n\nParameters: ");
            out.append(&p.parameters);
            out.append("\n\nCopyable ");
            out.append(&p.language);
            out.append(":\n");
            out.append(&p.copyable);
            out.append(&note);
            out
        },
        None => concat2("This source has no native query artifact.", &note),
    }
}

/// What can be done in the query dialogue.
pub fn query_popup_actions() -> (r: Vec<String>)
    ensures
        text::views(r@) == seq!["Copy (y)"@, "Close (Enter/Esc)"@],
{
    let mut out: Vec<String> = Vec::new();
    out.push("Copy (y)".to_owned());
    out.push("Close (Enter/Esc)".to_owned());
    assert(text::views(out@) =~= seq!["Copy (y)"@, "Close (Enter/Esc)"@]);
    out
}

/// What the dialogue of the view says.
pub fn view_config_body(transforms: &str) -> (r: String)
    ensures
        r@ == transforms@
            + "\n\nx: clear view filters/sorts\nn: toggle null placement\nColumn Info (i) edits the current column."@,
{
    concat2(
        transforms,
        "\n\nx: clear view filters/sorts\nn: toggle null placement\nColumn Info (i) edits the current column.",
    )
}

// ---------------------------------------------------------------------------
// Places on the screen
// ---------------------------------------------------------------------------

/// A rectangle of the screen.
#[derive(Debug, Clone, Copy, PartialEq, Eq, Structural)]
pub struct Area {
    pub x: u16,
    pub y: u16,
    pub width: u16,
    pub height: u16,
}

/// Whether the far edges of a rectangle can be counted.
pub open spec fn is_area(area: Area) -> bool {
    area.x + area.width <= u16::MAX && area.y + area.height <= u16::MAX
}

/// Whether a rectangle lies within another.
pub open spec fn lies_within(inner: Area, outer: Area) -> bool {
    &&& outer.x <= inner.x
    &&& inner.x + inner.width <= outer.x + outer.width
    &&& outer.y <= inner.y
    &&& inner.y + inner.height <= outer.y + outer.height
}

/// Three quarters of an extent, but not below a minimum and not above the extent.
pub open spec fn popup_extent(extent: u16, minimum: int) -> int {
    let tripled: int = if 3 * extent > u16::MAX {
        u16::MAX as int
    } else {
        3 * extent
    };
    let wanted: int = if tripled / 4 < minimum {
        minimum
    } else {
        tripled / 4
    };
    if wanted > extent {
        extent as int
    } else {
        wanted
    }
}

fn popup_size(extent: u16, minimum: u16) -> (r: u16)
    ensures
        r == popup_extent(extent, minimum as int),
        r <= extent,
{
    let tripled: u32 = if 3 * (extent as u32) > 65535 {
        65535
    } else {
        3 * (extent as u32)
    };
    let quarter: u16 = (tripled / 4) as u16;
    let wanted: u16 = if quarter < minimum {
        minimum
    } else {
        quarter
    };
    if wanted > extent {
        extent
    } else {
        wanted
    }
}

/// Where a dialogue is drawn: in the middle.
pub fn popup_area(area: Area) -> (r: Area)
    requires
        is_area(area),
    ensures
        r.width == popup_extent(area.width, 20),
        r.height == popup_extent(area.height, 5),
        r.x == area.x + (area.width - r.width) / 2,
        r.y == area.y + (area.height - r.height) / 2,
        lies_within(r, area),
{
    let width: u16 = popup_size(area.width, 20);
    let height: u16 = popup_size(area.height, 5);
    Area {
        x: area.x + (area.width - width) / 2,
        y: area.y + (area.height - height) / 2,
        width,
        height,
    }
}

/// Where the table is drawn: above the footer.
pub fn table_area(area: Area) -> (r: Area)
    ensures
        r == (Area {
            height: if area.height > 0 {
                (area.height - 1) as u16
            } else {
                0
            },
            ..area
        }),
{
    Area {
        x: area.x,
        y: area.y,
        width: area.width,
        height: if area.height > 0 {
            area.height - 1
        } else {
            0
        },
    }
}

/// Where the help is drawn: inside a frame, if there is room for one.
pub fn help_popup_area(area: Area) -> (r: Area)
    requires
        is_area(area),
    ensures
        r == (if area.width <= 4 || area.height <= 4 {
            area
        } else {
            Area {
                x: (area.x + 1) as u16,
                y: (area.y + 1) as u16,
                width: (area.width - 2) as u16,
                height: (area.height - 2) as u16,
            }
        }),
        lies_within(r, area),
{
    if area.width <= 4 || area.height <= 4 {
        area
    } else {
        Area { x: area.x + 1, y: area.y + 1, width: area.width - 2, height: area.height - 2 }
    }
}

// ---------------------------------------------------------------------------
// Laws
// ---------------------------------------------------------------------------

/// Positions are counted from one: the row first, then the column behind a comma.
pub proof fn positions_count_from_one(row: usize, column: usize)
    ensures
        position_text(Position { row, column }) == text::decimal((row + 1) as nat).push(',')
            + text::decimal((column + 1) as nat),
        mark_text(Some(Position { row, column })) == position_text(Position { row, column }),
        mark_text(None) == "none"@,
{
    reveal_strlit(",");
    assert(text::decimal((row + 1) as nat) + ","@ =~= text::decimal((row + 1) as nat).push(','));
}

/// A count that is known is its number, one that may grow has a plus behind it, and one
/// that is not known is no number.
pub proof fn counts_show_what_is_known(n: usize)
    ensures
        count_text(RowCount::Exact(n)) == text::decimal(n as nat),
        count_text(RowCount::AtLeast(n)) == text::decimal(n as nat).push('+'),
        count_text(RowCount::Unknown) == "unknown"@,
{
    reveal_strlit("+");
    assert(text::decimal(n as nat) + "+"@ =~= text::decimal(n as nat).push('+'));
}

/// A result that was cut off shows the limit at which it was, a whole one that it is
/// complete, and one that is not there yet what is being done for it.
pub proof fn extents_show_their_limit(limit: usize, pending: bool)
    ensures
        extent_status(Some(ResultExtent::Complete), pending) == "complete"@,
        extent_status(Some(ResultExtent::Truncated { limit }), pending) == "limited "@
            + text::decimal(limit as nat),
        extent_status(None, true) == "querying"@,
        extent_status(None, false) == "fetching"@,
        extent_text(Some(ResultExtent::Complete)) == "complete"@,
        extent_text(Some(ResultExtent::Truncated { limit })) == "limited to "@ + text::decimal(
            limit as nat,
        ),
        extent_text(None) == "in progress"@,
        partial_note(true) == ", partial"@,
        partial_note(false) == Seq::<char>::empty(),
{
}

/// The width mode is shown by its name, a fixed width with its number.
pub proof fn width_modes_show_their_name(n: u16)
    ensures
        width_mode_text(ColumnWidthMode::Mode) == "Mode"@,
        width_mode_text(ColumnWidthMode::Max) == "Max"@,
        width_mode_text(ColumnWidthMode::Fixed(n)) == "Fixed("@ + text::decimal(n as nat) + ")"@,
{
}

/// A format that is asked for says whether the source is structured; only where it is
/// left open do a path into JSON and the extension of the file, in any case, say it.
pub proof fn formats_outrank_extensions(source: SourceModel, options: OpenOptions)
    ensures
        options.format is Json || options.format is Ndjson ==> is_structured_hint(source, options),
        options.format is Delimited || options.format is Sqlite ==> !is_structured_hint(
            source,
            options,
        ),
        options.format is Auto && options.json_path is Some ==> is_structured_hint(source, options),
        options.format is Auto && options.json_path is None ==> (is_structured_hint(source, options)
            <==> source is Path && source::extension(source->Path_0) is Some && {
            let e = text::lower(source::extension(source->Path_0)->0);
            e == "json"@ || e == "ndjson"@ || e == "jsonl"@
        }),
{
}

/// A mode that was found is shown with an arrow, one that was asked for by its name
/// alone, and how to get the other is said where entries were found.
pub proof fn found_modes_are_shown_as_found(mode: ObjectModeResolution)
    ensures
        object_mode_text(None) == Seq::<char>::empty(),
        mode.requested !is Auto && mode.resolved is Record ==> object_mode_text(Some(mode))
            == "\nObject mode: "@ + "record"@,
        mode.requested !is Auto && mode.resolved is Entries ==> object_mode_text(Some(mode))
            == "\nObject mode: "@ + "entries"@,
        mode.requested is Auto && mode.resolved is Record ==> object_mode_text(Some(mode))
            == "\nObject mode: auto → "@ + "record"@,
        mode.requested is Auto && mode.resolved is Entries ==> object_mode_text(Some(mode))
            == "\nObject mode: auto → "@ + "entries"@
            + " (use --object-mode record for one row)"@,
{
    let none = Seq::<char>::empty();
    assert("\nObject mode: auto → "@ + "record"@ + none =~= "\nObject mode: auto → "@ + "record"@);
}

/// The mapping of the first field with the name of the column is shown, with its types
/// and what it is good for, and none where no field has that name.
pub proof fn mappings_show_the_field_of_the_column(
    mapping: Seq<MappingField>,
    name: Seq<char>,
    i: int,
)
    requires
        0 <= i < mapping.len(),
        mapping[i].name@ == name,
        forall|k: int| 0 <= k < i ==> (#[trigger] mapping[k]).name@ != name,
    ensures
        mapping_text(mapping, name) == "Mapping fields: "@ + text::decimal(mapping.len())
            + field_text(mapping[i]),
        mapping_text(Seq::empty(), name) == "Mapping fields: result schema only"@,
{
    lemma_selected_field(mapping, name, 0, i);
}

proof fn lemma_selected_field(mapping: Seq<MappingField>, name: Seq<char>, from: int, i: int)
    requires
        0 <= from <= i < mapping.len(),
        mapping[i].name@ == name,
        forall|k: int| 0 <= k < i ==> (#[trigger] mapping[k]).name@ != name,
    ensures
        selected_field_text(mapping, name, from) == field_text(mapping[i]),
    decreases i - from,
{
    if from < i {
        assert(mapping[from].name@ != name);
        lemma_selected_field(mapping, name, from + 1, i);
    }
}

/// What a field is good for is shown in words, and a remark only where it holds.
pub proof fn fields_show_what_they_are_good_for(field: MappingField)
    ensures
        truth(true) == "true"@,
        truth(false) == "false"@,
        !field.conflict && !field.runtime && !field.multifield ==> field_text(field)
            == "\nSelected mapping: "@ + field.name@ + " ["@ + text::joined(
            text::views(field.source_types@),
            seq!['|'],
        ) + "] searchable="@ + truth(field.searchable) + " aggregatable="@ + truth(
            field.aggregatable,
        ),
        word_if(true, "x"@) == "x"@,
        word_if(false, "x"@) == Seq::<char>::empty(),
{
    reveal_strlit("|");
    assert("|"@ =~= seq!['|']);
    let none = Seq::<char>::empty();
    assert forall|s: Seq<char>| #[trigger] (s + none) == s by {
        assert(s + none =~= s);
    }
}

/// Without a provenance there is no query to show; with one, its parameterized form
/// comes first, then its parameters and the form to copy.
pub proof fn queries_show_their_provenance(p: QueryProvenance, transforms: Seq<char>)
    ensures
        query_text(None, transforms) == "This source has no native query artifact."@ + (
        "\n\nLocal transformations not represented by the native query:\n"@ + transforms),
        query_text(Some(p), transforms) == "Parameterized "@ + p.language@ + ":\n"@ + p.logical@
            + "\n\nParameters: "@ + p.parameters@ + "\n\nCopyable "@ + p.language@ + ":\n"@
            + p.copyable@ + ("\n\nLocal transformations not represented by the native query:\n"@
            + transforms),
        provenance_text(None) == Seq::<char>::empty(),
        provenance_text(Some(p)) == "\n\n"@ + p.language@ + ":\n"@ + p.logical@,
        error_text(None) == Seq::<char>::empty(),
        error_text(Some(transforms)) == "\nError: "@ + transforms,
{
}

/// Of two lines of a dialogue about the source, the limit is shown as its number or as
/// none, sorting with the reason against it, and the extent as it is described or as
/// what is being done for it.
pub proof fn source_lines_show_their_state(limit: usize, reason: String, summary: SourceSummary)
    ensures
        source_modal::is_unbounded(limit) ==> limit_text(limit) == "unbounded"@,
        !source_modal::is_unbounded(limit) ==> limit_text(limit) == text::decimal(limit as nat),
        sorting_text(CapabilityStatus::Supported) == "supported"@,
        sorting_text(CapabilityStatus::Unavailable { reason }) == "unavailable: "@ + reason@,
        summary.extent matches Some(described) ==> described_extent(summary) == described@,
        summary.extent is None && summary.pending ==> described_extent(summary) == "pending"@,
        summary.extent is None && !summary.pending ==> described_extent(summary) == "unknown"@,
{
}

/// A column is called by its label, and one that is not there by a word.
pub proof fn columns_are_called_by_their_label(context: SourceContext, column: usize)
    ensures
        column < context.columns@.len() ==> column_label(context, column)
            == context.columns@[column as int].label@,
        column >= context.columns@.len() ==> column_label(context, column) == "none"@,
{
}

/// A dialogue takes three quarters of the room, never less than its least extent while
/// there is room for it, and never more than there is.
pub proof fn popups_take_three_quarters(extent: u16, minimum: u16)
    ensures
        popup_extent(extent, minimum as int) <= extent,
        minimum <= extent ==> popup_extent(extent, minimum as int) >= minimum,
        minimum > extent ==> popup_extent(extent, minimum as int) == extent,
        3 * extent <= u16::MAX && 4 * minimum <= 3 * extent ==> 4 * popup_extent(
            extent,
            minimum as int,
        ) <= 3 * extent < 4 * popup_extent(extent, minimum as int) + 4,
{
}

/// The summary has a line for each of its facts, in a fixed order, and the mode of
/// objects behind them.
pub proof fn summaries_have_a_line_for_each_fact(view: ViewSummary)
    ensures
        summary_text(view) == text::joined(
            seq![
                "Rows: "@ + count_text(view.rows),
                "Visible rows: "@ + text::decimal(view.visible_rows as nat),
                "Fetched source rows: "@ + text::decimal(view.source_rows as nat),
                "Source extent: "@ + (extent_text(view.extent) + partial_note(view.partial)),
                "Columns: "@ + text::decimal(view.columns as nat),
                "Position: "@ + position_text(view.cursor),
                "Width mode: "@ + width_mode_text(view.width_mode),
                "Column gap: "@ + text::decimal(view.gap as nat),
                "Mark: "@ + mark_text(view.mark),
            ],
            seq!['\n'],
        ) + object_mode_text(view.object_mode),
{
    let l0 = "Rows: "@ + count_text(view.rows);
    let p0 = Seq::<Seq<char>>::empty().push(l0);
    assert(text::joined(p0, seq!['\n']) == l0);
    assert("\nVisible rows: "@ =~= seq!['\n'] + "Visible rows: "@) by {
        reveal_strlit("\nVisible rows: ");
        reveal_strlit("Visible rows: ");
    }
    let v1 = text::decimal(view.visible_rows as nat);
    lemma_next_line(p0, "\nVisible rows: "@, "Visible rows: "@, v1);
    let p1 = p0.push("Visible rows: "@ + v1);
    assert("\nFetched source rows: "@ =~= seq!['\n'] + "Fetched source rows: "@) by {
        reveal_strlit("\nFetched source rows: ");
        reveal_strlit("Fetched source rows: ");
    }
    let v2 = text::decimal(view.source_rows as nat);
    lemma_next_line(p1, "\nFetched source rows: "@, "Fetched source rows: "@, v2);
    let p2 = p1.push("Fetched source rows: "@ + v2);
    assert("\nSource extent: "@ =~= seq!['\n'] + "Source extent: "@) by {
        reveal_strlit("\nSource extent: ");
        reveal_strlit("Source extent: ");
    }
    let v3 = extent_text(view.extent) + partial_note(view.partial);
    lemma_next_line(p2, "\nSource extent: "@, "Source extent: "@, v3);
    let p3 = p2.push("Source extent: "@ + v3);
    assert("\nColumns: "@ =~= seq!['\n'] + "Columns: "@) by {
        reveal_strlit("\nColumns: ");
        reveal_strlit("Columns: ");
    }
    let v4 = text::decimal(view.columns as nat);
    lemma_next_line(p3, "\nColumns: "@, "Columns: "@, v4);
    let p4 = p3.push("Columns: "@ + v4);
    assert("\nPosition: "@ =~= seq!['\n'] + "Position: "@) by {
        reveal_strlit("\nPosition: ");
        reveal_strlit("Position: ");
    }
    let v5 = position_text(view.cursor);
    lemma_next_line(p4, "\nPosition: "@, "Position: "@, v5);
    let p5 = p4.push("Position: "@ + v5);
    assert("\nWidth mode: "@ =~= seq!['\n'] + "Width mode: "@) by {
        reveal_strlit("\nWidth mode: ");
        reveal_strlit("Width mode: ");
    }
    let v6 = width_mode_text(view.width_mode);
    lemma_next_line(p5, "\nWidth mode: "@, "Width mode: "@, v6);
    let p6 = p5.push("Width mode: "@ + v6);
    assert("\nColumn gap: "@ =~= seq!['\n'] + "Column gap: "@) by {
        reveal_strlit("\nColumn gap: ");
        reveal_strlit("Column gap: ");
    }
    let v7 = text::decimal(view.gap as nat);
    lemma_next_line(p6, "\nColumn gap: "@, "Column gap: "@, v7);
    let p7 = p6.push("Column gap: "@ + v7);
    assert("\nMark: "@ =~= seq!['\n'] + "Mark: "@) by {
        reveal_strlit("\nMark: ");
        reveal_strlit("Mark: ");
    }
    let v8 = mark_text(view.mark);
    lemma_next_line(p7, "\nMark: "@, "Mark: "@, v8);
    let p8 = p7.push("Mark: "@ + v8);
    assert(p8 =~= seq![l0, "Visible rows: "@ + v1, "Fetched source rows: "@ + v2, "Source extent: "@ + v3, "Columns: "@ + v4, "Position: "@ + v5, "Width mode: "@ + v6, "Column gap: "@ + v7, "Mark: "@ + v8]);
}

proof fn lemma_next_line(
    lines: Seq<Seq<char>>,
    start: Seq<char>,
    label: Seq<char>,
    value: Seq<char>,
)
    requires
        lines.len() > 0,
        start == seq!['\n'] + label,
    ensures
        text::joined(lines.push(label + value), seq!['\n']) == text::joined(lines, seq!['\n'])
            + start + value,
{
    let end = seq!['\n'];
    let before = text::joined(lines, end);
    text::joining_adds_separators(lines, label + value, end);
    assert(before + end + (label + value) =~= before + start + value);
}

/// An editor that is open shows what is typed in it, that of the query before that of the
/// filter; where none is open, the keys are told.
pub proof fn open_editors_show_what_is_typed(modal: ModalModel, column: Seq<char>)
    ensures
        modal.editing_query ==> editor_text(modal, column) == "\n\nNative query editor:\n"@
            + modal.query_input + "\nEnter: stage query  Esc: cancel editor"@,
        !modal.editing_query && modal.editing_filter ==> editor_text(modal, column)
            == "\n\nFilter editor: "@ + column + " "@ + modal.operator.name() + " "@
            + modal.filter_input + "\nTab: operator  Enter: add  Esc: cancel editor"@,
        !modal.editing_query && !modal.editing_filter ==> editor_text(modal, column)
            == "\n\n←/→: column  f: add filter  q: edit native query  Tab: operator\ns/S: source sort asc/desc  x: clear column\n+/-: adjust limit  Enter: apply  Esc: cancel"@,
{
}

/// The dialogue about the source tells where it stands, its limit, how far it was read,
/// how many filters and sorts are drawn up, and which column is chosen.
pub proof fn source_dialogues_tell_the_draft(
    modal: ModalModel,
    context: SourceContext,
    summary: SourceSummary,
)
    ensures
        ({
            let column = column_label(context, modal.column);
            let relation = match summary.relation {
                Some(relation) => relation@,
                None => "source"@,
            };
            let place = "Endpoint: "@ + summary.endpoint@ + "\nSource: "@ + relation;
            let limit = "\nLimit: "@ + limit_text(modal.draft.limit) + "  Extent: "@
                + described_extent(summary);
            let partial = if summary.partial {
                "  Partial: yes"@
            } else {
                Seq::empty()
            };
            let fields = "\nResult fields: "@ + text::decimal(summary.result_fields as nat) + "\n"@
                + mapping_text(summary.mapping@, column);
            let draft = "\nFilters: "@ + text::decimal(modal.draft.filters.len())
                + "  Sort keys: "@ + text::decimal(modal.draft.order_by.len());
            let chosen = "\nSelected column: "@ + column + "\nSource sorting: "@ + sorting_text(
                context.sorting,
            );
            let rest = editor_text(modal, column) + error_text(modal.error) + provenance_text(
                summary.provenance,
            );
            modal_text(modal, context, summary) == place + (limit + (partial + (fields + (draft + (
            chosen + rest)))))
        }),
{
    let column = column_label(context, modal.column);
    let relation = match summary.relation {
        Some(relation) => relation@,
        None => "source"@,
    };
    let a = "Endpoint: "@ + summary.endpoint@ + "\nSource: "@ + relation;
    let b1 = "\nLimit: "@;
    let b2 = limit_text(modal.draft.limit);
    let b3 = "  Extent: "@;
    let b4 = described_extent(summary);
    let c = word_if(summary.partial, "  Partial: yes"@);
    let d1 = "\nResult fields: "@;
    let d2 = text::decimal(summary.result_fields as nat);
    let d3 = "\n"@;
    let d4 = mapping_text(summary.mapping@, column);
    let e1 = "\nFilters: "@;
    let e2 = text::decimal(modal.draft.filters.len());
    let e3 = "  Sort keys: "@;
    let e4 = text::decimal(modal.draft.order_by.len());
    let f1 = "\nSelected column: "@;
    let f2 = column;
    let f3 = "\nSource sorting: "@;
    let f4 = sorting_text(context.sorting);
    let g1 = editor_text(modal, column);
    let g2 = error_text(modal.error);
    let g3 = provenance_text(summary.provenance);
    lemma_four(a, b1, b2, b3, b4);
    let x = a + b1 + b2 + b3 + b4;
    lemma_four(x + c, d1, d2, d3, d4);
    let y = x + c + d1 + d2 + d3 + d4;
    lemma_four(y, e1, e2, e3, e4);
    let z = y + e1 + e2 + e3 + e4;
    lemma_four(z, f1, f2, f3, f4);
    let w = z + f1 + f2 + f3 + f4;
    assert(modal_text(modal, context, summary) == w + g1 + g2 + g3);
    let b = b1 + b2 + b3 + b4;
    let d = d1 + d2 + d3 + d4;
    let e = e1 + e2 + e3 + e4;
    let f = f1 + f2 + f3 + f4;
    let g = g1 + g2 + g3;
    assert(w + g1 + g2 + g3 =~= w + g);
    lemma_nested(a, b, c, d, e, f, g);
}

proof fn lemma_four(a: Seq<char>, p: Seq<char>, q: Seq<char>, r: Seq<char>, s: Seq<char>)
    ensures
        a + p + q + r + s == a + (p + q + r + s),
{
    assert(a + p + q + r + s =~= a + (p + q + r + s));
}

proof fn lemma_nested(
    a: Seq<char>,
    b: Seq<char>,
    c: Seq<char>,
    d: Seq<char>,
    e: Seq<char>,
    f: Seq<char>,
    g: Seq<char>,
)
    ensures
        a + b + c + d + e + f + g == a + (b + (c + (d + (e + (f + g))))),
{
    assert(a + b + c + d + e + f + g =~= a + (b + (c + (d + (e + (f + g))))));
}

} // verus!
