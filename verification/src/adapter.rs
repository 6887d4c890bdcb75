//! Choosing how a source is opened: its format, the options that fit it, the
//! relations in it, and the query on it.

use vstd::prelude::*;
use vstd::string::*;

use crate::delimited::{self, sniff_delimiter};
use crate::delimited_table::{self, InMemoryTable, delimited_definition, text_table};
use crate::encoding::{self, read_utf8};
use crate::options::{
    InputFormat, ObjectMode, ObjectModeOrigin, ObjectModeResolution, OpenOptions, ParseModel,
    SourceFilterRequest, SourceOptionError, SourceOptionErrorModel, SourceSortRequest,
};
use crate::source::{self, InputSource, SourceModel, extension_of};
use crate::table::{
    self, ColumnFault, ColumnId, ColumnModel, RelationMetadata, SourceFilter, SourceFilterScope,
    SourceGeneration, SourceQuery, SourceSort, TableDefinition,
};
use crate::text::{
    self, ascii_lower, concat3, concat5, join, lines_of, same, starts_with_char, trim,
    trim_start, trim_start_char,
};

verus! {

/// How well an adapter fits an input.
#[derive(Debug, Clone, Copy, PartialEq, Eq, PartialOrd, Ord, Structural)]
pub enum ProbeResult {
    NoMatch,
    Possible,
    Strong,
}

// ---------------------------------------------------------------------------
// Formats
// ---------------------------------------------------------------------------

/// The first bytes of an SQLite database.
pub open spec fn sqlite_magic() -> Seq<u8> {
    seq![
        0x53u8,
        0x51u8,
        0x4cu8,
        0x69u8,
        0x74u8,
        0x65u8,
        0x20u8,
        0x66u8,
        0x6fu8,
        0x72u8,
        0x6du8,
        0x61u8,
        0x74u8,
        0x20u8,
        0x33u8,
        0x00u8,
    ]
}

/// Whether a sample begins as an SQLite database does.
pub open spec fn is_sqlite_sample(sample: Seq<u8>) -> bool {
    sample.len() >= 16 && sample.take(16) == sqlite_magic()
}

/// Whether a sample begins as an SQLite database does.
pub fn has_sqlite_signature(sample: &[u8]) -> (r: bool)
    ensures
        r == is_sqlite_sample(sample@),
{
    let magic: Vec<u8> = vec![
        0x53u8,
        0x51u8,
        0x4cu8,
        0x69u8,
        0x74u8,
        0x65u8,
        0x20u8,
        0x66u8,
        0x6fu8,
        0x72u8,
        0x6du8,
        0x61u8,
        0x74u8,
        0x20u8,
        0x33u8,
        0x00u8,
    ];
    assert(magic@ =~= sqlite_magic());
    if sample.len() < magic.len() {
        return false;
    }
    let mut i: usize = 0;
    while i < magic.len()
        invariant
            i <= magic.len() == 16,
            magic@ == sqlite_magic(),
            sample@.len() >= 16,
            forall|k: int| 0 <= k < i ==> sample@[k] == sqlite_magic()[k],
        decreases magic.len() - i,
    {
        if sample[i] != magic[i] {
            assert(sample@.take(16)[i as int] != sqlite_magic()[i as int]);
            return false;
        }
        i = i + 1;
    }
    assert(sample@.take(16) =~= sqlite_magic());
    true
}

/// The format that a file extension stands for.
pub open spec fn extension_format(path: Seq<char>) -> Option<InputFormat> {
    match source::extension(path) {
        Some(e) => if text::lower(e) == "json"@ {
            Some(InputFormat::Json)
        } else if text::lower(e) == "ndjson"@ || text::lower(e) == "jsonl"@ {
            Some(InputFormat::Ndjson)
        } else {
            None
        },
        None => None,
    }
}

/// The format that a file extension stands for.
pub fn format_from_extension(path: &str) -> (r: Option<InputFormat>)
    ensures
        r == extension_format(path@),
{
    match extension_of(path) {
        Some(e) => {
            let small = ascii_lower(&e);
            if same(&small, "json") {
                Some(InputFormat::Json)
            } else if same(&small, "ndjson") || same(&small, "jsonl") {
                Some(InputFormat::Ndjson)
            } else {
                None
            }
        },
        None => None,
    }
}

/// Whether a text begins as a JSON object or array does.
pub open spec fn opens_container(s: Seq<char>) -> bool {
    s.len() > 0 && (s[0] == '{' || s[0] == '[')
}

/// The format that the text of a sample looks like: several lines that each
/// begin a container are documents, a text that begins one is a document, and
/// anything else is delimited.
pub open spec fn text_format(text: Seq<char>) -> InputFormat {
    let body = text::trimmed(text::skip_char(text, '\u{feff}'));
    let solid = delimited::nonblank(text::lines(body));
    if solid.len() > 1 && forall|i: int|
        0 <= i < solid.len() ==> opens_container(text::trimmed(#[trigger] solid[i])) {
        InputFormat::Ndjson
    } else if opens_container(body) {
        InputFormat::Json
    } else {
        InputFormat::Delimited
    }
}

/// The format that a sample looks like. Bytes that are no UTF-8 are delimited text.
pub open spec fn sample_format(sample: Seq<u8>) -> InputFormat {
    if is_sqlite_sample(sample) {
        InputFormat::Sqlite
    } else if !vstd::utf8::valid_utf8(sample) {
        InputFormat::Delimited
    } else {
        text_format(encoding::utf8_text(sample))
    }
}

/// Whether a text begins as a JSON object or array does.
fn begins_container(s: &str) -> (r: bool)
    ensures
        r == opens_container(s@),
{
    starts_with_char(s, '{') || starts_with_char(s, '[')
}

/// The format that the text of a sample looks like.
pub fn probe_text(text: &str) -> (r: InputFormat)
    ensures
        r == text_format(text@),
{
    let body = trim(&trim_start_char(text, '\u{feff}'));
    let all = lines_of(&body);
    let ghost model = text::lines(body@);
    let mut count: usize = 0;
    let mut structured = true;
    let mut i: usize = 0;
    while i < all.len()
        invariant
            i <= all.len(),
            model == text::views(all@),
            count <= i,
            ({
                let solid = delimited::nonblank(model.take(i as int));
                &&& count == solid.len()
                &&& structured == (forall|k: int|
                    0 <= k < solid.len() ==> opens_container(text::trimmed(#[trigger] solid[k])))
            }),
        decreases all.len() - i,
    {
        let ghost solid = delimited::nonblank(model.take(i as int));
        let ghost next = delimited::nonblank(model.take(i + 1));
        assert(model.take(i + 1).drop_last() =~= model.take(i as int));
        assert(model.take(i + 1).last() == all@[i as int]@);
        let line = trim(&all[i]);
        if !line.as_str().is_empty() {
            let begins = begins_container(&line);
            proof {
                assert(next == solid.push(all@[i as int]@));
                assert(next[solid.len() as int] == all@[i as int]@);
                assert forall|k: int| 0 <= k < solid.len() implies next[k] == solid[k] by {}
                if !structured {
                    let k = choose|k: int|
                        0 <= k < solid.len() && !opens_container(text::trimmed(#[trigger] solid[k]));
                    assert(next[k] == solid[k]);
                }
            }
            count = count + 1;
            structured = structured && begins;
        }
        i = i + 1;
    }
    assert(model.take(model.len() as int) =~= model);
    if count > 1 && structured {
        InputFormat::Ndjson
    } else if begins_container(&body) {
        InputFormat::Json
    } else {
        InputFormat::Delimited
    }
}

/// The format that a sample looks like.
pub fn probe_content(sample: &[u8]) -> (r: InputFormat)
    ensures
        r == sample_format(sample@),
{
    if has_sqlite_signature(sample) {
        return InputFormat::Sqlite;
    }
    match read_utf8(sample) {
        Ok(text) => {
            proof {
                vstd::utf8::encode_utf8_decode_utf8(text@);
            }
            probe_text(&text)
        },
        Err(_) => InputFormat::Delimited,
    }
}

/// The format of a source: the one asked for; else that of the file extension or
/// the URL scheme; else what the content looks like.
pub open spec fn resolved_format(
    requested: InputFormat,
    source: SourceModel,
    sample: Seq<u8>,
) -> InputFormat {
    if requested !is Auto {
        requested
    } else {
        match source {
            SourceModel::Path(path) => match extension_format(path) {
                Some(format) => format,
                None => sample_format(sample),
            },
            SourceModel::Url { scheme, .. } => if text::lower(scheme) == "libsql"@ {
                InputFormat::Sqlite
            } else {
                sample_format(sample)
            },
            _ => sample_format(sample),
        }
    }
}

/// Decides the format of a source.
pub struct FormatResolver;

impl FormatResolver {
    /// The format of a source.
    pub fn resolve(requested: InputFormat, source: &InputSource, sample: &[u8]) -> (r: InputFormat)
        ensures
            r == resolved_format(requested, source@, sample@),
    {
        if requested != InputFormat::Auto {
            return requested;
        }
        match source {
            InputSource::Path(path) => {
                if let Some(format) = format_from_extension(path) {
                    return format;
                }
            },
            InputSource::Url { scheme, .. } => {
                if same(&ascii_lower(scheme), "libsql") {
                    return InputFormat::Sqlite;
                }
            },
            _ => {},
        }
        probe_content(sample)
    }
}

/// A resolved format is never automatic.
pub proof fn formats_are_always_resolved(
    requested: InputFormat,
    source: SourceModel,
    sample: Seq<u8>,
)
    ensures
        resolved_format(requested, source, sample) !is Auto,
        requested !is Auto ==> resolved_format(requested, source, sample) == requested,
{
}

/// Whether anything was said about how delimited text is read.
pub open spec fn asks_for_delimited(options: ParseModel) -> bool {
    options.encoding is Some || options.delimiter is Some || options.quoting is Some
        || options.quote_char != 0x22
}

/// Whether anything was said about how delimited text is read.
pub fn has_delimited_options(options: &OpenOptions) -> (r: bool)
    ensures
        r == asks_for_delimited(options.delimited@),
{
    options.delimited.encoding.is_some() || options.delimited.delimiter.is_some()
        || options.delimited.quoting.is_some() || options.delimited.quote_char != 0x22
}

/// The format of a source given all options: delimited options settle an
/// automatic choice, except for a database.
pub open spec fn chosen_format(
    options: OpenOptions,
    source: SourceModel,
    sample: Seq<u8>,
) -> InputFormat {
    if options.format is Auto && asks_for_delimited(options.delimited@) {
        if is_sqlite_sample(sample) {
            InputFormat::Sqlite
        } else {
            InputFormat::Delimited
        }
    } else {
        resolved_format(options.format, source, sample)
    }
}

/// The format of a source given all options.
pub fn resolve_format(options: &OpenOptions, source: &InputSource, sample: &[u8]) -> (r:
    InputFormat)
    ensures
        r == chosen_format(*options, source@, sample@),
{
    if options.format == InputFormat::Auto && has_delimited_options(options) {
        if has_sqlite_signature(sample) {
            return InputFormat::Sqlite;
        }
        return InputFormat::Delimited;
    }
    FormatResolver::resolve(options.format, source, sample)
}

/// A JSON pointer asks for structured parsing: with it, an automatic choice of
/// delimited text becomes JSON.
pub open spec fn structured_format(detected: InputFormat, options: OpenOptions) -> InputFormat {
    if options.format is Auto && options.json_path is Some && detected is Delimited {
        InputFormat::Json
    } else {
        detected
    }
}

/// Prefers JSON to delimited text where a JSON pointer was given.
pub fn resolve_structured_options(detected: InputFormat, options: &OpenOptions) -> (r: InputFormat)
    ensures
        r == structured_format(detected, *options),
{
    if options.format == InputFormat::Auto && options.json_path.is_some() && detected
        == InputFormat::Delimited {
        InputFormat::Json
    } else {
        detected
    }
}

// ---------------------------------------------------------------------------
// Opening a source
// ---------------------------------------------------------------------------

/// Why a source cannot be opened as asked.
#[derive(Debug, Clone, PartialEq, Eq)]
pub enum OpenError {
    FormatRequired { target: String },
    UnknownScheme { scheme: String },
    TableQueryConflict,
    NoRelationSelection { format: InputFormat },
    NoNativeQueries { format: InputFormat },
    DelimitedOptionsWithSqlite,
    JsonPathWithSqlite,
    IncompatibleObjectMode { mode: ObjectMode, format: InputFormat },
}

/// The model of an open error.
pub enum OpenErrorModel {
    FormatRequired { target: Seq<char> },
    UnknownScheme { scheme: Seq<char> },
    TableQueryConflict,
    NoRelationSelection { format: InputFormat },
    NoNativeQueries { format: InputFormat },
    DelimitedOptionsWithSqlite,
    JsonPathWithSqlite,
    IncompatibleObjectMode { mode: ObjectMode, format: InputFormat },
}

impl View for OpenError {
    type V = OpenErrorModel;

    open spec fn view(&self) -> OpenErrorModel {
        match self {
            OpenError::FormatRequired { target } => OpenErrorModel::FormatRequired {
                target: target@,
            },
            OpenError::UnknownScheme { scheme } => OpenErrorModel::UnknownScheme {
                scheme: scheme@,
            },
            OpenError::TableQueryConflict => OpenErrorModel::TableQueryConflict,
            OpenError::NoRelationSelection { format } => OpenErrorModel::NoRelationSelection {
                format: *format,
            },
            OpenError::NoNativeQueries { format } => OpenErrorModel::NoNativeQueries {
                format: *format,
            },
            OpenError::DelimitedOptionsWithSqlite => OpenErrorModel::DelimitedOptionsWithSqlite,
            OpenError::JsonPathWithSqlite => OpenErrorModel::JsonPathWithSqlite,
            OpenError::IncompatibleObjectMode { mode, format } =>
                OpenErrorModel::IncompatibleObjectMode { mode: *mode, format: *format },
        }
    }
}

impl OpenErrorModel {
    /// The text shown for the error.
    pub open spec fn text(self) -> Seq<char> {
        match self {
            OpenErrorModel::FormatRequired { target } => "remote HTTP(S) target '"@ + target
                + "' requires an explicit --format"@,
            OpenErrorModel::UnknownScheme { scheme } => "URL scheme '"@ + scheme
                + "' has no registered input format"@,
            OpenErrorModel::TableQueryConflict =>
                "source table and native query are mutually exclusive"@,
            OpenErrorModel::NoRelationSelection { format } => "the resolved "@ + format.name()
                + " source does not support relation selection"@,
            OpenErrorModel::NoNativeQueries { format } => "the resolved "@ + format.name()
                + " source does not support native queries"@,
            OpenErrorModel::DelimitedOptionsWithSqlite =>
                "encoding, delimiter, quoting, and quote-character options cannot be used with SQLite input"@,
            OpenErrorModel::JsonPathWithSqlite =>
                "JSON starting paths cannot be used with SQLite input"@,
            OpenErrorModel::IncompatibleObjectMode { mode, format } => "object mode '"@
                + mode.name() + "' is incompatible with "@ + format.name() + " input"@,
        }
    }
}

impl OpenError {
    /// The text shown for the error.
    pub fn message(&self) -> (r: String)
        ensures
            r@ == self@.text(),
    {
        match self {
            OpenError::FormatRequired { target } => concat3(
                "remote HTTP(S) target '",
                target,
                "' requires an explicit --format",
            ),
            OpenError::UnknownScheme { scheme } => concat3(
                "URL scheme '",
                scheme,
                "' has no registered input format",
            ),
            OpenError::TableQueryConflict =>
                "source table and native query are mutually exclusive".to_owned(),
            OpenError::NoRelationSelection { format } => concat3(
                "the resolved ",
                format.label(),
                " source does not support relation selection",
            ),
            OpenError::NoNativeQueries { format } => concat3(
                "the resolved ",
                format.label(),
                " source does not support native queries",
            ),
            OpenError::DelimitedOptionsWithSqlite =>
                "encoding, delimiter, quoting, and quote-character options cannot be used with SQLite input".to_owned(),
            OpenError::JsonPathWithSqlite =>
                "JSON starting paths cannot be used with SQLite input".to_owned(),
            OpenError::IncompatibleObjectMode { mode, format } => concat5(
                "object mode '",
                mode.label(),
                "' is incompatible with ",
                format.label(),
                " input",
            ),
        }
    }
}

/// The format that a source is detected as. Standard input is not probed, for
/// probing would use it up; a URL must say by its scheme or by an option what it is.
pub open spec fn detected_format(
    options: OpenOptions,
    source: SourceModel,
    sample: Seq<u8>,
) -> Result<InputFormat, OpenErrorModel> {
    match source {
        SourceModel::Path(_) => Ok(chosen_format(options, source, sample)),
        SourceModel::Stdin => if options.format is Auto {
            Ok(InputFormat::Delimited)
        } else {
            Ok(options.format)
        },
        SourceModel::StreamingStdin => if options.format is Auto {
            Ok(chosen_format(options, source, sample))
        } else {
            Ok(options.format)
        },
        SourceModel::Url { scheme, url } => if options.format !is Auto {
            Ok(options.format)
        } else if text::lower(scheme) == "libsql"@ {
            Ok(InputFormat::Sqlite)
        } else if scheme == "http"@ || scheme == "https"@ {
            Err(OpenErrorModel::FormatRequired { target: url })
        } else {
            Err(OpenErrorModel::UnknownScheme { scheme })
        },
    }
}

/// The format that a source is detected as.
pub fn detect_format(options: &OpenOptions, source: &InputSource, sample: &[u8]) -> (r: Result<
    InputFormat,
    OpenError,
>)
    ensures
        match (r, detected_format(*options, source@, sample@)) {
            (Ok(f), Ok(m)) => f == m,
            (Err(e), Err(m)) => e@ == m,
            _ => false,
        },
{
    match source {
        InputSource::Path(_) => Ok(resolve_format(options, source, sample)),
        InputSource::Stdin => if options.format == InputFormat::Auto {
            Ok(InputFormat::Delimited)
        } else {
            Ok(options.format)
        },
        InputSource::StreamingStdin => if options.format == InputFormat::Auto {
            Ok(resolve_format(options, source, sample))
        } else {
            Ok(options.format)
        },
        InputSource::Url { scheme, url } => if options.format != InputFormat::Auto {
            Ok(options.format)
        } else if same(&ascii_lower(scheme), "libsql") {
            Ok(InputFormat::Sqlite)
        } else if same(scheme, "http") || same(scheme, "https") {
            Err(OpenError::FormatRequired { target: url.as_str().to_owned() })
        } else {
            Err(OpenError::UnknownScheme { scheme: scheme.as_str().to_owned() })
        },
    }
}

/// How a source is opened: in which format, in which object mode, and with what
/// warning about a saved mode that was ignored.
#[derive(Debug, Clone, PartialEq, Eq)]
pub struct OpenPlan {
    pub format: InputFormat,
    pub object_mode: ObjectMode,
    pub warning: Option<String>,
}

/// What is said of a saved object mode that does not fit the format.
pub open spec fn mode_warning(mode: ObjectMode, format: InputFormat) -> Seq<char> {
    "saved object_mode '"@ + mode.name() + "' is incompatible with "@ + format.name()
        + " input and was ignored"@
}

/// Whether an object mode was asked for that the format has no objects for.
pub open spec fn mode_does_not_fit(mode: ObjectMode, format: InputFormat) -> bool {
    mode !is Auto && (format is Delimited || format is Ndjson || format is Sqlite)
}

/// What stands against opening a source in a format with the given options.
pub open spec fn open_fault(options: OpenOptions, format: InputFormat) -> Option<OpenErrorModel> {
    if options.table is Some && options.native_query is Some {
        Some(OpenErrorModel::TableQueryConflict)
    } else if format !is Sqlite && options.table is Some {
        Some(OpenErrorModel::NoRelationSelection { format })
    } else if format !is Sqlite && options.native_query is Some {
        Some(OpenErrorModel::NoNativeQueries { format })
    } else if format is Sqlite && asks_for_delimited(options.delimited@) {
        Some(OpenErrorModel::DelimitedOptionsWithSqlite)
    } else if format is Sqlite && options.json_path is Some {
        Some(OpenErrorModel::JsonPathWithSqlite)
    } else if mode_does_not_fit(options.object_mode, format) && options.object_mode_origin
        !is SavedView {
        Some(OpenErrorModel::IncompatibleObjectMode { mode: options.object_mode, format })
    } else {
        None
    }
}

/// Decides how a source in a known format is opened.
pub fn check_format(options: &OpenOptions, format: InputFormat) -> (r: Result<OpenPlan, OpenError>)
    ensures
        match r {
            Ok(plan) => {
                &&& open_fault(*options, format) is None
                &&& plan.format == format
                &&& plan.object_mode == (if mode_does_not_fit(options.object_mode, format) {
                    ObjectMode::Auto
                } else {
                    options.object_mode
                })
                &&& text::opt_view(plan.warning) == (if mode_does_not_fit(options.object_mode, format) {
                    Some(mode_warning(options.object_mode, format))
                } else {
                    None
                })
            },
            Err(e) => open_fault(*options, format) == Some(e@),
        },
{
    let sqlite = format == InputFormat::Sqlite;
    if options.table.is_some() && options.native_query.is_some() {
        return Err(OpenError::TableQueryConflict);
    }
    if !sqlite && options.table.is_some() {
        return Err(OpenError::NoRelationSelection { format });
    }
    if !sqlite && options.native_query.is_some() {
        return Err(OpenError::NoNativeQueries { format });
    }
    if sqlite {
        if has_delimited_options(options) {
            return Err(OpenError::DelimitedOptionsWithSqlite);
        }
        if options.json_path.is_some() {
            return Err(OpenError::JsonPathWithSqlite);
        }
    }
    let misfit = options.object_mode != ObjectMode::Auto && (format == InputFormat::Delimited
        || format == InputFormat::Ndjson || sqlite);
    if !misfit {
        return Ok(OpenPlan { format, object_mode: options.object_mode, warning: None });
    }
    if options.object_mode_origin != ObjectModeOrigin::SavedView {
        return Err(
            OpenError::IncompatibleObjectMode { mode: options.object_mode, format },
        );
    }
    let warning = concat5(
        "saved object_mode '",
        options.object_mode.label(),
        "' is incompatible with ",
        format.label(),
        " input and was ignored",
    );
    Ok(OpenPlan { format, object_mode: ObjectMode::Auto, warning: Some(warning) })
}

/// Decides how a source is opened. `sample` holds its first bytes, as far as it
/// is probed.
pub fn open_source(source: &InputSource, options: &OpenOptions, sample: &[u8]) -> (r: Result<
    OpenPlan,
    OpenError,
>)
    ensures
        match (r, detected_format(*options, source@, sample@)) {
            (Err(e), Err(m)) => e@ == m,
            (Err(e), Ok(detected)) => open_fault(*options, structured_format(detected, *options))
                == Some(e@),
            (Ok(plan), Ok(detected)) => {
                let format = structured_format(detected, *options);
                &&& open_fault(*options, format) is None
                &&& plan.format == format
                &&& plan.object_mode == (if mode_does_not_fit(options.object_mode, format) {
                    ObjectMode::Auto
                } else {
                    options.object_mode
                })
                &&& text::opt_view(plan.warning) == (if mode_does_not_fit(options.object_mode, format) {
                    Some(mode_warning(options.object_mode, format))
                } else {
                    None
                })
            },
            _ => false,
        },
{
    match detect_format(options, source, sample) {
        Ok(detected) => check_format(options, resolve_structured_options(detected, options)),
        Err(e) => Err(e),
    }
}

/// A source is never opened in the automatic format.
pub proof fn opened_formats_are_concrete(
    options: OpenOptions,
    source: SourceModel,
    sample: Seq<u8>,
)
    ensures
        detected_format(options, source, sample) matches Ok(f) ==> structured_format(f, options)
            !is Auto,
{
}

// ---------------------------------------------------------------------------
// Opened tables and relations
// ---------------------------------------------------------------------------

/// A table that has been opened, with the store that holds its rows.
#[derive(Debug, PartialEq, Eq)]
pub struct OpenedTable<S> {
    pub generation: SourceGeneration,
    pub definition: TableDefinition,
    pub store: S,
    pub object_mode: Option<ObjectModeResolution>,
    pub warnings: Vec<String>,
}

/// Opens delimited rows as a table in memory.
pub fn open_delimited_rows(
    rows: Vec<Vec<String>>,
    display_name: String,
    generation: SourceGeneration,
) -> (r: OpenedTable<InMemoryTable>)
    ensures
        r.generation == generation,
        r.definition.generation == generation,
        table::column_views(r.definition.columns@) == delimited_table::delimited_columns(generation, text::row_views(rows@)),
        r.definition.schema_state is Complete,
        r.definition.relation.display_name == display_name,
        r.definition.relation.name == display_name,
        r.definition.relation.header_visible == delimited_table::has_header(text::row_views(rows@)),
        r.store.generation == generation,
        delimited_table::cell_rows(r.store.rows@) == delimited_table::text_rows_from(
            text::row_views(rows@),
            delimited_table::header_row_count(text::row_views(rows@)) as int,
        ),
        r.object_mode is None,
        r.warnings@.len() == 0,
{
    let (definition, header_rows) = delimited_definition(generation, &rows, display_name);
    let store = text_table(generation, &rows, header_rows);
    OpenedTable { generation, definition, store, object_mode: None, warnings: Vec::new() }
}

/// What a relation of a source is.
#[derive(Debug, Clone, Copy, PartialEq, Eq, Structural)]
pub enum RelationKind {
    Table,
    View,
    VirtualTable,
    Index,
    DataStream,
}

/// Whether a relation can be opened.
#[derive(Debug, Clone, PartialEq, Eq)]
pub enum RelationAvailability {
    Selectable,
    Unavailable { reason: String },
}

/// A relation that a source offers.
#[derive(Debug, Clone, PartialEq, Eq)]
pub struct RelationCatalogEntry {
    pub metadata: RelationMetadata,
    pub kind: RelationKind,
    pub availability: RelationAvailability,
}

impl RelationCatalogEntry {
    /// Whether the relation can be opened.
    pub fn is_selectable(&self) -> (r: bool)
        ensures
            r == (self.availability is Selectable),
    {
        matches!(self.availability, RelationAvailability::Selectable)
    }
}

/// The places of the relations that can be opened, among the first `n`.
pub open spec fn selectable_places(relations: Seq<RelationCatalogEntry>, n: int) -> Seq<int>
    decreases n,
{
    if n <= 0 {
        Seq::empty()
    } else {
        let front = selectable_places(relations, n - 1);
        if relations[n - 1].availability is Selectable {
            front.push(n - 1)
        } else {
            front
        }
    }
}

/// The names of the relations that can be opened.
pub open spec fn selectable_names(relations: Seq<RelationCatalogEntry>) -> Seq<Seq<char>> {
    let places = selectable_places(relations, relations.len() as int);
    Seq::new(places.len(), |i: int| relations[places[i]].metadata.name@)
}

/// The places of the relations that can be opened.
pub fn selectable_indices(relations: &Vec<RelationCatalogEntry>) -> (r: Vec<usize>)
    ensures
        r@.map_values(|i: usize| i as int) == selectable_places(
            relations@,
            relations@.len() as int,
        ),
        forall|k: int|
            0 <= k < r@.len() ==> (#[trigger] r@[k]) < relations@.len()
                && relations@[r@[k] as int].availability is Selectable,
{
    let mut places: Vec<usize> = Vec::new();
    let mut i: usize = 0;
    assert(places@.map_values(|i: usize| i as int) =~= selectable_places(relations@, 0));
    while i < relations.len()
        invariant
            i <= relations@.len(),
            places@.map_values(|i: usize| i as int) == selectable_places(relations@, i as int),
            forall|k: int|
                0 <= k < places@.len() ==> (#[trigger] places@[k]) < relations@.len()
                    && relations@[places@[k] as int].availability is Selectable,
        decreases relations@.len() - i,
    {
        if relations[i].is_selectable() {
            let ghost before = places@;
            places.push(i);
            assert(places@.map_values(|i: usize| i as int) =~= before.map_values(
                |i: usize| i as int,
            ).push(i as int));
        }
        i = i + 1;
    }
    places
}

/// Opens relations of a source by name.
pub trait RelationOpener<S> {
    /// Opens a relation. Nothing is said of which can be opened.
    fn open_relation(&mut self, name: &str) -> Result<OpenedTable<S>, String>;
}

/// Why a relation could not be opened.
#[derive(Debug, Clone, PartialEq, Eq)]
pub enum RelationError {
    NotFound { name: String },
    Unavailable { name: String, reason: String },
    SelectionUnsupported,
    OpenFailed(String),
    SeveralSelectable { names: Vec<String> },
    NoneSelected,
    SeveralOpened,
}

impl RelationError {
    /// The text shown for the error.
    pub open spec fn text(self) -> Seq<char> {
        match self {
            RelationError::NotFound { name } => "relation '"@ + name@ + "' was not found"@,
            RelationError::Unavailable { name, reason } => "relation '"@ + name@
                + "' is unavailable: "@ + reason@,
            RelationError::SelectionUnsupported => "source does not support relation selection"@,
            RelationError::OpenFailed(message) => message@,
            RelationError::SeveralSelectable { names } =>
                "SQLite database has multiple selectable relations ("@ + text::joined(
                text::views(names@),
                ", "@,
            ) + "); select one with --table or saved source.table"@,
            RelationError::NoneSelected => "source has no selected relation"@,
            RelationError::SeveralOpened => "source contains more than one opened relation"@,
        }
    }

    /// The text shown for the error.
    pub fn message(&self) -> (r: String)
        ensures
            r@ == self.text(),
    {
        match self {
            RelationError::NotFound { name } => concat3("relation '", name, "' was not found"),
            RelationError::Unavailable { name, reason } => {
                let mut s = concat3("relation '", name, "' is unavailable: ");
                s.append(reason);
                s
            },
            RelationError::SelectionUnsupported =>
                "source does not support relation selection".to_owned(),
            RelationError::OpenFailed(message) => message.as_str().to_owned(),
            RelationError::SeveralSelectable { names } => concat3(
                "SQLite database has multiple selectable relations (",
                &join(names, ", "),
                "); select one with --table or saved source.table",
            ),
            RelationError::NoneSelected => "source has no selected relation".to_owned(),
            RelationError::SeveralOpened =>
                "source contains more than one opened relation".to_owned(),
        }
    }
}

/// A source with its relations and the tables opened from it so far.
pub struct OpenedSource<S, O> {
    relations: Vec<RelationCatalogEntry>,
    tables: Vec<OpenedTable<S>>,
    relation_opener: Option<O>,
}

/// The first relation from `from` on that has a name, or the number of relations.
pub open spec fn relation_position(
    relations: Seq<RelationCatalogEntry>,
    from: int,
    name: Seq<char>,
) -> int
    decreases relations.len() - from,
{
    if from >= relations.len() {
        relations.len() as int
    } else if relations[from].metadata.name@ == name {
        from
    } else {
        relation_position(relations, from + 1, name)
    }
}

impl<S, O> OpenedSource<S, O> {
    /// The relations that the source offers.
    pub closed spec fn catalog(self) -> Seq<RelationCatalogEntry> {
        self.relations@
    }

    /// The tables opened so far.
    pub closed spec fn opened(self) -> Seq<OpenedTable<S>> {
        self.tables@
    }

    /// What opens relations by name, if anything does.
    pub closed spec fn opener(self) -> Option<O> {
        self.relation_opener
    }

    /// Whether the source can open relations by name.
    pub open spec fn can_open(self) -> bool {
        self.opener() is Some
    }

    /// A source that is a single table.
    pub fn implicit(table: OpenedTable<S>) -> (r: OpenedSource<S, O>)
        ensures
            r.opened() == seq![table],
            !r.can_open(),
            r.catalog().len() == 1,
            r.catalog()[0].metadata == table.definition.relation,
            r.catalog()[0].kind is Table,
            r.catalog()[0].availability is Selectable,
    {
        let entry = RelationCatalogEntry {
            metadata: table.definition.relation.clone(),
            kind: RelationKind::Table,
            availability: RelationAvailability::Selectable,
        };
        let mut tables: Vec<OpenedTable<S>> = Vec::new();
        tables.push(table);
        let mut relations: Vec<RelationCatalogEntry> = Vec::new();
        relations.push(entry);
        let r = OpenedSource { relations, tables, relation_opener: None };
        assert(r.opened() =~= seq![table]);
        r
    }

    /// A source with relations, one of which may already be open.
    pub fn relational(
        relations: Vec<RelationCatalogEntry>,
        selected: Option<OpenedTable<S>>,
        opener: O,
    ) -> (r: OpenedSource<S, O>)
        ensures
            r.catalog() == relations@,
            r.opener() == Some(opener),
            r.opened() == (match selected {
                Some(table) => seq![table],
                None => Seq::empty(),
            }),
    {
        let mut tables: Vec<OpenedTable<S>> = Vec::new();
        if let Some(table) = selected {
            tables.push(table);
        }
        let r = OpenedSource { relations, tables, relation_opener: Some(opener) };
        assert(r.opened() =~= match selected {
            Some(table) => seq![table],
            None => Seq::empty(),
        });
        r
    }

    /// The relations that the source offers.
    pub fn list_relations(&self) -> (r: &Vec<RelationCatalogEntry>)
        ensures
            r@ == self.catalog(),
    {
        &self.relations
    }

    /// The relations that can be opened.
    pub fn selectable_relations(&self) -> (r: Vec<&RelationCatalogEntry>)
        ensures
            ({
                let places = selectable_places(self.catalog(), self.catalog().len() as int);
                &&& r@.len() == places.len()
                &&& forall|i: int|
                    0 <= i < places.len() ==> *(#[trigger] r@[i]) == self.catalog()[places[i]]
            }),
    {
        let mut found: Vec<&RelationCatalogEntry> = Vec::new();
        let mut i: usize = 0;
        while i < self.relations.len()
            invariant
                i <= self.relations@.len(),
                ({
                    let places = selectable_places(self.relations@, i as int);
                    &&& found@.len() == places.len()
                    &&& forall|k: int|
                        0 <= k < places.len() ==> *(#[trigger] found@[k]) == self.relations@[places[k]]
                }),
            decreases self.relations@.len() - i,
        {
            if self.relations[i].is_selectable() {
                found.push(&self.relations[i]);
            }
            i = i + 1;
        }
        found
    }

    /// Whether exactly one table is open.
    pub fn has_selected_table(&self) -> (r: bool)
        ensures
            r == (self.opened().len() == 1),
    {
        self.tables.len() == 1
    }

    /// Whether a relation may be opened by name, and why not.
    pub fn check_relation(&self, name: &str) -> (r: Result<(), RelationError>)
        ensures
            ({
                let at = relation_position(self.catalog(), 0, name@);
                match r {
                    Ok(_) => {
                        &&& at < self.catalog().len()
                        &&& self.catalog()[at].availability is Selectable
                        &&& self.can_open()
                    },
                    Err(RelationError::NotFound { name: n }) => {
                        &&& at == self.catalog().len()
                        &&& n@ == name@
                    },
                    Err(RelationError::Unavailable { name: n, reason }) => {
                        &&& at < self.catalog().len()
                        &&& n@ == name@
                        &&& self.catalog()[at].availability matches
                            RelationAvailability::Unavailable { reason: why } && why@ == reason@
                    },
                    Err(RelationError::SelectionUnsupported) => {
                        &&& at < self.catalog().len()
                        &&& self.catalog()[at].availability is Selectable
                        &&& !self.can_open()
                    },
                    Err(_) => false,
                }
            }),
    {
        let mut i: usize = 0;
        while i < self.relations.len()
            invariant
                i <= self.relations@.len(),
                relation_position(self.relations@, 0, name@) == relation_position(
                    self.relations@,
                    i as int,
                    name@,
                ),
            decreases self.relations@.len() - i,
        {
            if same(&self.relations[i].metadata.name, name) {
                if let RelationAvailability::Unavailable { reason } =
                    &self.relations[i].availability {
                    return Err(
                        RelationError::Unavailable {
                            name: name.to_owned(),
                            reason: reason.as_str().to_owned(),
                        },
                    );
                }
                if self.relation_opener.is_none() {
                    return Err(RelationError::SelectionUnsupported);
                }
                return Ok(());
            }
            i = i + 1;
        }
        Err(RelationError::NotFound { name: name.to_owned() })
    }

    /// Makes the table that an opener gave the only open one; a failure changes nothing.
    pub fn select_table(&mut self, opened: Result<OpenedTable<S>, String>) -> (r: Result<
        (),
        RelationError,
    >)
        ensures
            final(self).catalog() == old(self).catalog(),
            final(self).opener() == old(self).opener(),
            match opened {
                Ok(table) => r is Ok && final(self).opened() == seq![table],
                Err(message) => r == Err::<(), RelationError>(RelationError::OpenFailed(message))
                    && final(self).opened() == old(self).opened(),
            },
    {
        match opened {
            Ok(table) => {
                self.tables.clear();
                self.tables.push(table);
                assert(self.opened() =~= seq![table]);
                Ok(())
            },
            Err(message) => Err(RelationError::OpenFailed(message)),
        }
    }

    /// The only open table of the source. Without one, a source that offers
    /// several relations says which can be chosen.
    pub fn into_implicit_table(self) -> (r: Result<OpenedTable<S>, RelationError>)
        ensures
            match r {
                Ok(table) => self.opened() == seq![table],
                Err(RelationError::SeveralSelectable { names }) => {
                    &&& self.opened().len() == 0
                    &&& selectable_names(self.catalog()).len() > 1
                    &&& text::views(names@) == selectable_names(self.catalog())
                },
                Err(RelationError::NoneSelected) => self.opened().len() == 0 && selectable_names(
                    self.catalog(),
                ).len() <= 1,
                Err(RelationError::SeveralOpened) => self.opened().len() > 1,
                Err(_) => false,
            },
    {
        let mut tables = self.tables;
        if tables.len() == 0 {
            let places = selectable_indices(&self.relations);
            let ghost model = places@.map_values(|i: usize| i as int);
            if places.len() <= 1 {
                return Err(RelationError::NoneSelected);
            }
            let mut names: Vec<String> = Vec::new();
            let mut i: usize = 0;
            while i < places.len()
                invariant
                    i <= places@.len(),
                    names@.len() == i,
                    forall|k: int|
                        0 <= k < places@.len() ==> (#[trigger] places@[k])
                            < self.relations@.len(),
                    forall|k: int|
                        0 <= k < i ==> (#[trigger] names@[k])@
                            == self.relations@[places@[k] as int].metadata.name@,
                decreases places@.len() - i,
            {
                names.push(self.relations[places[i]].metadata.name.clone());
                i = i + 1;
            }
            proof {
                let expected = selectable_names(self.catalog());
                assert forall|k: int| 0 <= k < names@.len() implies text::views(names@)[k]
                    == expected[k] by {
                    assert(model[k] == places@[k] as int);
                }
                assert(text::views(names@) =~= expected);
            }
            return Err(RelationError::SeveralSelectable { names });
        }
        if tables.len() != 1 {
            return Err(RelationError::SeveralOpened);
        }
        let table = tables.remove(0);
        assert(self.opened() =~= seq![table]);
        Ok(table)
    }
}

impl<S, O: RelationOpener<S>> OpenedSource<S, O> {
    /// Opens a relation by name and makes it the only open table. A name that is
    /// unknown or unavailable is refused without asking the opener. Otherwise the
    /// opener is asked once: the table that it gives is opened, and its failure is
    /// handed on and leaves the open tables as they were.
    pub fn open_relation(&mut self, name: &str) -> (r: Result<(), RelationError>)
        ensures
            final(self).catalog() == old(self).catalog(),
            final(self).can_open() == old(self).can_open(),
            r is Err ==> final(self).opened() == old(self).opened(),
            ({
                let at = relation_position(old(self).catalog(), 0, name@);
                if at >= old(self).catalog().len() {
                    &&& r matches Err(RelationError::NotFound { name: n }) && n@ == name@
                    &&& final(self).opener() == old(self).opener()
                } else {
                    match (old(self).catalog()[at].availability, old(self).opener()) {
                        (RelationAvailability::Unavailable { reason: why }, _) => {
                            &&& r matches Err(RelationError::Unavailable { name: n, reason })
                                && n@ == name@ && reason@ == why@
                            &&& final(self).opener() == old(self).opener()
                        },
                        (RelationAvailability::Selectable, None) => r == Err::<
                            (),
                            RelationError,
                        >(RelationError::SelectionUnsupported),
                        (RelationAvailability::Selectable, Some(before)) => {
                            exists|asked: &mut O, given: Result<OpenedTable<S>, String>|
                                #![trigger call_ensures(O::open_relation, (asked, name), given)]
                                {
                                    &&& *asked == before
                                    &&& final(self).opener() == Some(*final(asked))
                                    &&& call_ensures(O::open_relation, (asked, name), given)
                                    &&& match given {
                                        Ok(table) => r is Ok && final(self).opened() == seq![table],
                                        Err(message) => r == Err::<(), RelationError>(
                                            RelationError::OpenFailed(message),
                                        ),
                                    }
                                }
                        },
                    }
                }
            }),
    {
        if let Err(e) = self.check_relation(name) {
            return Err(e);
        }
        match self.relation_opener.take() {
            Some(mut opener) => {
                let opened = opener.open_relation(name);
                self.relation_opener = Some(opener);
                self.select_table(opened)
            },
            None => Err(RelationError::SelectionUnsupported),
        }
    }
}

// ---------------------------------------------------------------------------
// Reading delimited text
// ---------------------------------------------------------------------------

/// How delimited text is read: row by row for a preview, as it arrives, over
/// positions in a large file, or whole.
#[derive(Debug, Clone, Copy, PartialEq, Eq, Structural)]
pub enum DelimitedReader {
    Preview,
    Streaming,
    Indexed,
    Whole,
}

/// How delimited text is read, by what its source is and, for a file, by its
/// length and by whether its rows can be found by their positions.
pub open spec fn delimited_reader(
    source: InputSource,
    file_len: u64,
    indexable: bool,
    options: OpenOptions,
) -> Result<DelimitedReader, SourceOptionErrorModel> {
    match options.fault() {
        Some(fault) => Err(fault),
        None => if options.preview {
            Ok(DelimitedReader::Preview)
        } else if source is StreamingStdin {
            Ok(DelimitedReader::Streaming)
        } else if source is Path && file_len >= options.lazy_threshold_bytes && indexable {
            Ok(DelimitedReader::Indexed)
        } else {
            Ok(DelimitedReader::Whole)
        },
    }
}

/// Chooses how delimited text is read.
pub fn choose_delimited_reader(
    source: &InputSource,
    file_len: u64,
    indexable: bool,
    options: &OpenOptions,
) -> (r: Result<DelimitedReader, SourceOptionError>)
    ensures
        match (r, delimited_reader(*source, file_len, indexable, *options)) {
            (Ok(reader), Ok(m)) => reader == m,
            (Err(e), Err(m)) => e@ == m,
            _ => false,
        },
{
    match options.validate() {
        Ok(_) => {},
        Err(e) => {
            return Err(e);
        },
    }
    if options.preview {
        return Ok(DelimitedReader::Preview);
    }
    match source {
        InputSource::StreamingStdin => Ok(DelimitedReader::Streaming),
        InputSource::Path(_) => if file_len >= options.lazy_threshold_bytes && indexable {
            Ok(DelimitedReader::Indexed)
        } else {
            Ok(DelimitedReader::Whole)
        },
        _ => Ok(DelimitedReader::Whole),
    }
}

// ---------------------------------------------------------------------------
// Queries on files
// ---------------------------------------------------------------------------

/// How the rows of a file are given out: as they come, through a preview, or by
/// running a query over them.
#[derive(Debug, Clone, Copy, PartialEq, Eq, Structural)]
pub enum FileQueryKind {
    Preview,
    Passthrough,
    Execute,
}

/// A query on a file and how it is run.
#[derive(Debug, PartialEq, Eq)]
pub struct FileQueryPlan {
    pub query: SourceQuery,
    pub kind: FileQueryKind,
}

/// A source operation that names no column, or more than one.
#[derive(Debug, Clone, PartialEq, Eq)]
pub struct SourceColumnError {
    pub key: String,
    pub fault: ColumnFault,
}

impl SourceColumnError {
    /// The text shown for the error.
    pub open spec fn text(self) -> Seq<char> {
        match self.fault {
            ColumnFault::Unknown => "source operation references unknown column '"@ + self.key@
                + "'"@,
            ColumnFault::Ambiguous => "source operation column '"@ + self.key@
                + "' is ambiguous"@,
        }
    }

    /// The text shown for the error.
    pub fn message(&self) -> (r: String)
        ensures
            r@ == self.text(),
    {
        match self.fault {
            ColumnFault::Unknown => concat3(
                "source operation references unknown column '",
                &self.key,
                "'",
            ),
            ColumnFault::Ambiguous => concat3(
                "source operation column '",
                &self.key,
                "' is ambiguous",
            ),
        }
    }
}

/// The column that a source operation names.
pub fn resolve_source_column(definition: &TableDefinition, key: &str) -> (r: Result<
    ColumnId,
    SourceColumnError,
>)
    ensures
        match (r, table::column_named(table::column_views(definition.columns@), key@)) {
            (Ok(id), Ok(i)) => 0 <= i < definition.columns@.len() && id
                == definition.columns@[i].id,
            (Err(e), Err(fault)) => e.key@ == key@ && e.fault == fault,
            _ => false,
        },
{
    match definition.find_column(key) {
        Ok(i) => Ok(definition.columns[i].id),
        Err(fault) => Err(SourceColumnError { key: key.to_owned(), fault }),
    }
}

/// What a filter request looks at, or the fault in its column name. A star
/// stands for the whole record; a preview keeps a filter whose column is not
/// known yet under an ordinal that no column has.
pub open spec fn request_scope(
    columns: Seq<ColumnModel>,
    generation: SourceGeneration,
    column: Seq<char>,
    preview: bool,
) -> Result<SourceFilterScope, ColumnFault> {
    if column == "*"@ {
        Ok(SourceFilterScope::WholeRecord)
    } else {
        match table::column_named(columns, column) {
            Ok(i) => Ok(SourceFilterScope::Column(columns[i].id)),
            Err(fault) => if preview {
                Ok(SourceFilterScope::Column(ColumnId { generation, ordinal: u32::MAX }))
            } else {
                Err(fault)
            },
        }
    }
}

/// `filters` stands for the first `n` filter requests.
pub open spec fn filters_stand_for(
    filters: Seq<SourceFilter>,
    requests: Seq<SourceFilterRequest>,
    n: int,
    columns: Seq<ColumnModel>,
    generation: SourceGeneration,
    preview: bool,
) -> bool {
    &&& filters.len() == n
    &&& forall|i: int|
        0 <= i < n ==> {
            &&& request_scope(columns, generation, requests[i].column@, preview) == Ok::<
                SourceFilterScope,
                ColumnFault,
            >((#[trigger] filters[i]).scope)
            &&& filters[i].operator == requests[i].operator
            &&& filters[i].operand == requests[i].operand
        }
}

/// `sorts` stands for the first `n` sort requests.
pub open spec fn sorts_stand_for(
    sorts: Seq<SourceSort>,
    requests: Seq<SourceSortRequest>,
    n: int,
    columns: Seq<ColumnModel>,
) -> bool {
    &&& sorts.len() == n
    &&& forall|i: int|
        0 <= i < n ==> {
            &&& table::column_named(columns, requests[i].column@) matches Ok(k) && columns[k].id == (
            #[trigger] sorts[i]).column
            &&& sorts[i].direction == requests[i].direction
        }
}

/// The first filter request from `from` on whose column is at fault, with that
/// column and the fault.
pub open spec fn filter_fault(
    requests: Seq<SourceFilterRequest>,
    from: int,
    columns: Seq<ColumnModel>,
    generation: SourceGeneration,
    preview: bool,
) -> Option<(Seq<char>, ColumnFault)>
    decreases requests.len() - from,
{
    if from < 0 || from >= requests.len() {
        None
    } else {
        match request_scope(columns, generation, requests[from].column@, preview) {
            Err(fault) => Some((requests[from].column@, fault)),
            Ok(_) => filter_fault(requests, from + 1, columns, generation, preview),
        }
    }
}

/// The first sort request from `from` on whose column is at fault, with that
/// column and the fault.
pub open spec fn sort_fault(
    requests: Seq<SourceSortRequest>,
    from: int,
    columns: Seq<ColumnModel>,
) -> Option<(Seq<char>, ColumnFault)>
    decreases requests.len() - from,
{
    if from < 0 || from >= requests.len() {
        None
    } else {
        match table::column_named(columns, requests[from].column@) {
            Err(fault) => Some((requests[from].column@, fault)),
            Ok(_) => sort_fault(requests, from + 1, columns),
        }
    }
}

/// The first request whose column is at fault: filters come before sorts.
pub open spec fn request_fault(options: OpenOptions, definition: TableDefinition) -> Option<
    (Seq<char>, ColumnFault),
> {
    let columns = table::column_views(definition.columns@);
    let filter = filter_fault(
        options.source_filters@,
        0,
        columns,
        definition.generation,
        options.preview,
    );
    if filter is Some {
        filter
    } else {
        sort_fault(options.source_sort@, 0, columns)
    }
}

/// The column that an error names, and what is wrong with it.
pub open spec fn error_fault(error: SourceColumnError) -> (Seq<char>, ColumnFault) {
    (error.key@, error.fault)
}

/// The filters that requests stand for.
fn plan_filters(definition: &TableDefinition, options: &OpenOptions) -> (r: Result<
    Vec<SourceFilter>,
    SourceColumnError,
>)
    ensures
        r matches Ok(filters) ==> filters_stand_for(
            filters@,
            options.source_filters@,
            options.source_filters@.len() as int,
            table::column_views(definition.columns@),
            definition.generation,
            options.preview,
        ),
        filter_fault(
            options.source_filters@,
            0,
            table::column_views(definition.columns@),
            definition.generation,
            options.preview,
        ) == (match r {
            Ok(_) => None,
            Err(e) => Some(error_fault(e)),
        }),
{
    let ghost columns = table::column_views(definition.columns@);
    let mut filters: Vec<SourceFilter> = Vec::new();
    let mut i: usize = 0;
    while i < options.source_filters.len()
        invariant
            i <= options.source_filters@.len(),
            columns == table::column_views(definition.columns@),
            filters_stand_for(
                filters@,
                options.source_filters@,
                i as int,
                columns,
                definition.generation,
                options.preview,
            ),
            filter_fault(
                options.source_filters@,
                0,
                columns,
                definition.generation,
                options.preview,
            ) == filter_fault(
                options.source_filters@,
                i as int,
                columns,
                definition.generation,
                options.preview,
            ),
        decreases options.source_filters@.len() - i,
    {
        let request = &options.source_filters[i];
        let scope = if same(&request.column, "*") {
            SourceFilterScope::WholeRecord
        } else {
            match resolve_source_column(definition, &request.column) {
                Ok(id) => SourceFilterScope::Column(id),
                Err(e) => {
                    if !options.preview {
                        assert(options.source_filters@[i as int].column@ == e.key@);
                        return Err(e);
                    }
                    SourceFilterScope::Column(
                        ColumnId { generation: definition.generation, ordinal: u32::MAX },
                    )
                },
            }
        };
        filters.push(
            SourceFilter { scope, operator: request.operator, operand: request.operand.clone() },
        );
        i = i + 1;
    }
    Ok(filters)
}

/// The sorts that requests stand for.
fn plan_sorts(definition: &TableDefinition, options: &OpenOptions) -> (r: Result<
    Vec<SourceSort>,
    SourceColumnError,
>)
    ensures
        r matches Ok(sorts) ==> sorts_stand_for(
            sorts@,
            options.source_sort@,
            options.source_sort@.len() as int,
            table::column_views(definition.columns@),
        ),
        sort_fault(options.source_sort@, 0, table::column_views(definition.columns@)) == (match r {
            Ok(_) => None,
            Err(e) => Some(error_fault(e)),
        }),
{
    let ghost columns = table::column_views(definition.columns@);
    let mut sorts: Vec<SourceSort> = Vec::new();
    let mut i: usize = 0;
    while i < options.source_sort.len()
        invariant
            i <= options.source_sort@.len(),
            columns == table::column_views(definition.columns@),
            sorts_stand_for(sorts@, options.source_sort@, i as int, columns),
            sort_fault(options.source_sort@, 0, columns) == sort_fault(
                options.source_sort@,
                i as int,
                columns,
            ),
        decreases options.source_sort@.len() - i,
    {
        let request = &options.source_sort[i];
        match resolve_source_column(definition, &request.column) {
            Ok(column) => {
                sorts.push(SourceSort { column, direction: request.direction });
            },
            Err(e) => {
                assert(options.source_sort@[i as int].column@ == e.key@);
                return Err(e);
            },
        }
        i = i + 1;
    }
    Ok(sorts)
}

/// Plans the query that the options ask for on a file. A preview filters rows as
/// they come; without a limit, filters or sorts the rows pass as they are; and
/// otherwise the query runs over all of them.
pub fn apply_file_source_query(definition: &TableDefinition, options: &OpenOptions) -> (r: Result<
    FileQueryPlan,
    SourceColumnError,
>)
    ensures
        request_fault(*options, *definition) == (match r {
            Ok(_) => None,
            Err(e) => Some(error_fault(e)),
        }),
        r matches Ok(plan) ==> {
            &&& plan.query.generation == definition.generation
            &&& plan.query.limit == (match options.limit {
                Some(n) => n.value(),
                None => usize::MAX,
            })
            &&& plan.query.native_query is None
            &&& filters_stand_for(
                plan.query.filters@,
                options.source_filters@,
                options.source_filters@.len() as int,
                table::column_views(definition.columns@),
                definition.generation,
                options.preview,
            )
            &&& sorts_stand_for(
                plan.query.order_by@,
                options.source_sort@,
                options.source_sort@.len() as int,
                table::column_views(definition.columns@),
            )
            &&& plan.kind == (if options.preview {
                FileQueryKind::Preview
            } else if options.limit is None && options.source_filters@.len() == 0
                && options.source_sort@.len() == 0 {
                FileQueryKind::Passthrough
            } else {
                FileQueryKind::Execute
            })
        },
{
    let filters = match plan_filters(definition, options) {
        Ok(filters) => filters,
        Err(e) => {
            return Err(e);
        },
    };
    let order_by = match plan_sorts(definition, options) {
        Ok(sorts) => sorts,
        Err(e) => {
            return Err(e);
        },
    };
    let limit: usize = match options.limit {
        Some(n) => n.get(),
        None => usize::MAX,
    };
    let kind = if options.preview {
        FileQueryKind::Preview
    } else if options.limit.is_none() && options.source_filters.len() == 0
        && options.source_sort.len() == 0 {
        FileQueryKind::Passthrough
    } else {
        FileQueryKind::Execute
    };
    let query = SourceQuery {
        generation: definition.generation,
        limit,
        filters,
        order_by,
        native_query: None,
    };
    Ok(FileQueryPlan { query, kind })
}

// ---------------------------------------------------------------------------
// Adapters
// ---------------------------------------------------------------------------

/// Something that reads one format.
pub trait SourceAdapter {
    fn format(&self) -> InputFormat;

    fn probe(&self, source: &InputSource, sample: &[u8]) -> ProbeResult;
}

/// Reads delimited text.
#[derive(Debug, Clone, Copy, PartialEq, Eq, Structural)]
pub struct DelimitedAdapter;

impl SourceAdapter for DelimitedAdapter {
    /// The format that the adapter reads.
    fn format(&self) -> (r: InputFormat)
        ensures
            r == InputFormat::Delimited,
    {
        InputFormat::Delimited
    }

    /// Any input may be delimited text; one that a delimiter splits is.
    fn probe(&self, source: &InputSource, sample: &[u8]) -> (r: ProbeResult)
        ensures
            r == (if vstd::utf8::valid_utf8(sample@) && delimited::sniffed(encoding::utf8_text(sample@)) is Some {
                ProbeResult::Strong
            } else {
                ProbeResult::Possible
            }),
    {
        match read_utf8(sample) {
            Ok(text) => {
                proof {
                    vstd::utf8::encode_utf8_decode_utf8(text@);
                }
                if sniff_delimiter(&text).is_some() {
                    ProbeResult::Strong
                } else {
                    ProbeResult::Possible
                }
            },
            Err(_) => ProbeResult::Possible,
        }
    }
}

/// Reads JSON documents, or one document to a line.
#[derive(Debug, Clone, Copy, PartialEq, Eq, Structural)]
pub struct JsonAdapter {
    format: InputFormat,
}

impl JsonAdapter {
    /// The format that the adapter reads.
    pub closed spec fn kind(self) -> InputFormat {
        self.format
    }

    /// Reads a JSON document.
    pub fn json() -> (r: JsonAdapter)
        ensures
            r.kind() == InputFormat::Json,
    {
        JsonAdapter { format: InputFormat::Json }
    }

    /// Reads one JSON document to a line.
    pub fn ndjson() -> (r: JsonAdapter)
        ensures
            r.kind() == InputFormat::Ndjson,
    {
        JsonAdapter { format: InputFormat::Ndjson }
    }
}

/// How well a text fits a JSON format: a container begins a document, and
/// several lines may be several documents.
pub open spec fn json_fit(format: InputFormat, text: Seq<char>) -> ProbeResult {
    let body = text::skip_white(text::skip_char(text, '\u{feff}'));
    if format is Json && opens_container(body) {
        ProbeResult::Strong
    } else if format is Ndjson && delimited::nonblank(text::lines(body)).len() > 1 {
        ProbeResult::Possible
    } else {
        ProbeResult::NoMatch
    }
}

/// The number of lines that are not blank.
fn count_nonblank(text: &str) -> (r: usize)
    ensures
        r == delimited::nonblank(text::lines(text@)).len(),
{
    let all = lines_of(text);
    let ghost model = text::lines(text@);
    let mut count: usize = 0;
    let mut i: usize = 0;
    while i < all.len()
        invariant
            i <= all@.len(),
            model == text::views(all@),
            count <= i,
            count == delimited::nonblank(model.take(i as int)).len(),
        decreases all@.len() - i,
    {
        assert(model.take(i + 1).drop_last() =~= model.take(i as int));
        assert(model.take(i + 1).last() == all@[i as int]@);
        if !trim(&all[i]).as_str().is_empty() {
            count = count + 1;
        }
        i = i + 1;
    }
    assert(model.take(model.len() as int) =~= model);
    count
}

impl SourceAdapter for JsonAdapter {
    /// The format that the adapter reads.
    fn format(&self) -> (r: InputFormat)
        ensures
            r == self.kind(),
    {
        self.format
    }

    /// How well a sample fits.
    fn probe(&self, source: &InputSource, sample: &[u8]) -> (r: ProbeResult)
        ensures
            r == (if vstd::utf8::valid_utf8(sample@) {
                json_fit(self.kind(), encoding::utf8_text(sample@))
            } else {
                ProbeResult::NoMatch
            }),
    {
        match read_utf8(sample) {
            Ok(text) => {
                proof {
                    vstd::utf8::encode_utf8_decode_utf8(text@);
                }
                let body = trim_start(&trim_start_char(&text, '\u{feff}'));
                if self.format == InputFormat::Json && begins_container(&body) {
                    ProbeResult::Strong
                } else if self.format == InputFormat::Ndjson && count_nonblank(&body) > 1 {
                    ProbeResult::Possible
                } else {
                    ProbeResult::NoMatch
                }
            },
            Err(_) => ProbeResult::NoMatch,
        }
    }
}

/// A format that is asked for is taken whatever the source is; otherwise the extension
/// decides for a file, the scheme for a database on the network, and the content for
/// everything else.
pub proof fn asked_formats_outrank_extensions_and_content(
    requested: InputFormat,
    path: Seq<char>,
    scheme: Seq<char>,
    sample: Seq<u8>,
)
    ensures
        requested !is Auto ==> forall|source: SourceModel| #[trigger]
            resolved_format(requested, source, sample) == requested,
        extension_format(path) matches Some(format) ==> resolved_format(
            InputFormat::Auto,
            SourceModel::Path(path),
            sample,
        ) == format,
        extension_format(path) is None ==> resolved_format(
            InputFormat::Auto,
            SourceModel::Path(path),
            sample,
        ) == sample_format(sample),
        resolved_format(InputFormat::Auto, SourceModel::StreamingStdin, sample) == sample_format(
            sample,
        ),
        text::lower(scheme) == "libsql"@ ==> resolved_format(
            InputFormat::Auto,
            SourceModel::Url { scheme, url: path },
            sample,
        ) is Sqlite,
{
}

/// The extension of a file says that it holds JSON, or JSON line by line, in any case of
/// its letters; no other extension says anything.
pub proof fn extensions_tell_their_format(path: Seq<char>)
    ensures
        extension_format(path) == Some(InputFormat::Json) <==> source::extension(path) is Some
            && text::lower(source::extension(path)->0) == "json"@,
        extension_format(path) == Some(InputFormat::Ndjson) <==> source::extension(path) is Some && (
        text::lower(source::extension(path)->0) == "ndjson"@ || text::lower(
            source::extension(path)->0,
        ) == "jsonl"@),
        extension_format(path) is Some ==> extension_format(path)->0 is Json || extension_format(
            path,
        )->0 is Ndjson,
{
    reveal_strlit("json");
    reveal_strlit("ndjson");
    reveal_strlit("jsonl");
    assert("json"@.len() == 4);
    assert("ndjson"@.len() == 6);
    assert("jsonl"@.len() == 5);
}

/// A database is known by the sixteen bytes at its beginning, whatever follows them, and
/// what is no text is read as delimited.
pub proof fn databases_are_known_by_their_beginning(rest: Seq<u8>, sample: Seq<u8>)
    ensures
        sample_format(sqlite_magic() + rest) is Sqlite,
        sample_format(sample) is Sqlite <==> sample.len() >= 16 && sample.take(16)
            == sqlite_magic(),
        sqlite_magic().take(6) == seq![0x53u8, 0x51, 0x4c, 0x69, 0x74, 0x65],
        sqlite_magic().last() == 0u8,
        sqlite_magic().len() == 16,
        !vstd::utf8::valid_utf8(sample) && !is_sqlite_sample(sample) ==> sample_format(sample)
            is Delimited,
        vstd::utf8::valid_utf8(sample) && !is_sqlite_sample(sample) ==> sample_format(sample)
            == text_format(encoding::utf8_text(sample)),
{
    assert((sqlite_magic() + rest).take(16) =~= sqlite_magic());
    assert(sqlite_magic().take(6) =~= seq![0x53u8, 0x51, 0x4c, 0x69, 0x74, 0x65]);
}

/// Text that begins with a brace or a bracket is JSON, or JSON line by line where there
/// is more than one line and each begins so; any other text is delimited.
pub proof fn containers_make_json(text: Seq<char>)
    ensures
        ({
            let body = text::trimmed(text::skip_char(text, '\u{feff}'));
            let lines = delimited::nonblank(text::lines(body));
            let opened = body.len() > 0 && (body[0] == '{' || body[0] == '[');
            let all = forall|i: int|
                0 <= i < lines.len() ==> opens_container(text::trimmed(#[trigger] lines[i]));
            &&& text_format(text) is Ndjson <==> lines.len() > 1 && all
            &&& lines.len() <= 1 && opened ==> text_format(text) is Json
            &&& !all && opened ==> text_format(text) is Json
            &&& !opened && (lines.len() <= 1 || !all) ==> text_format(text) is Delimited
            &&& text_format(text) is Json ==> opened
        }),
{
}

/// A text opens a container exactly where it begins with a brace or a bracket.
pub proof fn containers_begin_with_a_bracket(c: char, rest: Seq<char>)
    ensures
        opens_container(seq![c] + rest) <==> c == '{' || c == '[',
        !opens_container(Seq::empty()),
{
    assert((seq![c] + rest)[0] == c);
}

/// Options for delimited text that are given with no format make the input delimited,
/// whatever its extension, unless it is a database.
pub proof fn delimited_options_choose_delimited(
    options: OpenOptions,
    source: SourceModel,
    sample: Seq<u8>,
)
    ensures
        options.format is Auto && (options.delimited@.encoding is Some
            || options.delimited@.delimiter is Some || options.delimited@.quoting is Some
            || options.delimited@.quote_char != '"' as u8) ==> chosen_format(options, source, sample)
            == if sample.len() >= 16 && sample.take(16) == sqlite_magic() {
            InputFormat::Sqlite
        } else {
            InputFormat::Delimited
        },
        options.format !is Auto ==> chosen_format(options, source, sample) == options.format,
{
}

/// A path into JSON makes text JSON that looks delimited, where no format is asked for.
pub proof fn paths_make_json(detected: InputFormat, options: OpenOptions)
    ensures
        options.format is Auto && options.json_path is Some && detected is Delimited
            ==> structured_format(detected, options) is Json,
        options.json_path is None ==> structured_format(detected, options) == detected,
        options.format !is Auto ==> structured_format(detected, options) == detected,
        detected !is Delimited ==> structured_format(detected, options) == detected,
{
}

/// A source on the network needs a format unless its scheme has one; standard input
/// that is read whole is delimited unless another format is asked for.
pub proof fn formats_are_detected_by_source(
    options: OpenOptions,
    scheme: Seq<char>,
    url: Seq<char>,
    sample: Seq<u8>,
)
    ensures
        options.format !is Auto ==> forall|source: SourceModel| #[trigger]
            detected_format(options, source, sample) == Ok::<InputFormat, OpenErrorModel>(
                options.format,
            ),
        options.format is Auto ==> {
            let there = detected_format(options, SourceModel::Url { scheme, url }, sample);
            &&& detected_format(options, SourceModel::Stdin, sample) == Ok::<
                InputFormat,
                OpenErrorModel,
            >(InputFormat::Delimited)
            &&& text::lower(scheme) == "libsql"@ ==> there == Ok::<InputFormat, OpenErrorModel>(
                InputFormat::Sqlite,
            )
            &&& scheme == "http"@ || scheme == "https"@ ==> there == Err::<
                InputFormat,
                OpenErrorModel,
            >(OpenErrorModel::FormatRequired { target: url })
            &&& text::lower(scheme) != "libsql"@ && scheme != "http"@ && scheme != "https"@
                ==> there == Err::<InputFormat, OpenErrorModel>(
                OpenErrorModel::UnknownScheme { scheme },
            )
        },
{
    reveal_strlit("libsql");
    reveal_strlit("http");
    reveal_strlit("https");
    assert("libsql"@.len() == 6);
    assert("http"@.len() == 4);
    assert("https"@.len() == 5);
    if scheme == "http"@ || scheme == "https"@ {
        text::lowering_changes_capitals_alone(scheme, 'a');
        assert(text::lower(scheme).len() == scheme.len());
    }
}

/// A relation or a query is for databases alone, and never both; options for text and
/// paths into JSON are for everything else; an object mode is refused where rows come
/// one by one, unless a saved view asked for it.
pub proof fn options_fit_their_format(options: OpenOptions, format: InputFormat)
    ensures
        options.table is Some && options.native_query is Some <==> open_fault(options, format)
            == Some(OpenErrorModel::TableQueryConflict),
        format !is Sqlite && (options.table is Some || options.native_query is Some) ==> open_fault(
            options,
            format,
        ) is Some,
        format is Sqlite && (asks_for_delimited(options.delimited@) || options.json_path is Some)
            ==> open_fault(options, format) is Some,
        (options.object_mode is Record || options.object_mode is Entries) && (format is Delimited
            || format is Ndjson || format is Sqlite) && options.object_mode_origin !is SavedView
            ==> open_fault(options, format) is Some,
        options.table is None && options.native_query is None && format !is Sqlite && (
        options.object_mode is Auto || format is Json || options.object_mode_origin is SavedView)
            ==> open_fault(options, format) is None,
        format is Sqlite && !(options.table is Some && options.native_query is Some)
            && !asks_for_delimited(options.delimited@) && options.json_path is None && (
        options.object_mode is Auto || options.object_mode_origin is SavedView) ==> open_fault(
            options,
            format,
        ) is None,
        open_fault(options, format) matches Some(OpenErrorModel::NoRelationSelection { .. })
            ==> options.table is Some && options.native_query is None,
        open_fault(options, format) matches Some(OpenErrorModel::NoNativeQueries { .. })
            ==> options.native_query is Some && options.table is None,
        open_fault(options, format) matches Some(OpenErrorModel::DelimitedOptionsWithSqlite)
            ==> asks_for_delimited(options.delimited@),
        open_fault(options, format) matches Some(OpenErrorModel::JsonPathWithSqlite)
            ==> options.json_path is Some,
{
}

/// The relations that can be selected are listed once each and in their order.
pub proof fn selectable_relations_are_listed_in_order(
    relations: Seq<RelationCatalogEntry>,
    n: int,
    i: int,
)
    requires
        0 <= n <= relations.len(),
        0 <= i < n,
    ensures
        relations[i].availability is Selectable <==> selectable_places(relations, n).contains(i),
        forall|a: int, b: int|
            0 <= a < b < selectable_places(relations, n).len() ==> (#[trigger] selectable_places(
                relations,
                n,
            )[a]) < (#[trigger] selectable_places(relations, n)[b]) < n,
    decreases n,
{
    let before = selectable_places(relations, n - 1);
    let now = selectable_places(relations, n);
    lemma_places_below(relations, n - 1);
    lemma_places_below(relations, n);
    if i < n - 1 {
        selectable_relations_are_listed_in_order(relations, n - 1, i);
        if before.contains(i) {
            let k = choose|k: int| 0 <= k < before.len() && before[k] == i;
            assert(now[k] == i);
        }
        if now.contains(i) {
            let k = choose|k: int| 0 <= k < now.len() && now[k] == i;
            assert(before[k] == i);
        }
    } else {
        if n > 1 {
            selectable_relations_are_listed_in_order(relations, n - 1, 0);
        }
        if relations[i].availability is Selectable {
            assert(now.last() == i);
        }
    }
}

proof fn lemma_places_below(relations: Seq<RelationCatalogEntry>, n: int)
    requires
        0 <= n <= relations.len(),
    ensures
        forall|k: int|
            0 <= k < selectable_places(relations, n).len() ==> 0 <= (#[trigger] selectable_places(
                relations,
                n,
            )[k]) < n,
    decreases n,
{
    if n > 0 {
        lemma_places_below(relations, n - 1);
    }
    let now = selectable_places(relations, n);
    assert forall|k: int| 0 <= k < now.len() implies 0 <= (#[trigger] now[k]) < n by {
        if k < selectable_places(relations, n - 1).len() {
            assert(now[k] == selectable_places(relations, n - 1)[k]);
        }
    }
}

/// A name stands for the first relation of that name.
pub proof fn names_stand_for_the_first_relation(
    relations: Seq<RelationCatalogEntry>,
    from: int,
    name: Seq<char>,
)
    requires
        0 <= from <= relations.len(),
    ensures
        from <= relation_position(relations, from, name) <= relations.len(),
        relation_position(relations, from, name) < relations.len() ==> relations[relation_position(
            relations,
            from,
            name,
        )].metadata.name@ == name,
        forall|i: int|
            from <= i < relation_position(relations, from, name) ==> (
            #[trigger] relations[i]).metadata.name@ != name,
    decreases relations.len() - from,
{
    if from < relations.len() && relations[from].metadata.name@ != name {
        names_stand_for_the_first_relation(relations, from + 1, name);
    }
}

/// A preview is read as one; otherwise a stream is read as it comes, a large file that
/// can be indexed by its index, and the rest whole.
pub proof fn readers_suit_their_input(
    source: InputSource,
    file_len: u64,
    indexable: bool,
    options: OpenOptions,
)
    requires
        !(options.format is Delimited && options.json_path is Some),
        !(options.table is Some && options.native_query is Some),
    ensures
        ({
            let reader = delimited_reader(source, file_len, indexable, options);
            &&& reader is Ok
            &&& reader->Ok_0 is Preview <==> options.preview
            &&& reader->Ok_0 is Streaming <==> !options.preview && source is StreamingStdin
            &&& reader->Ok_0 is Indexed <==> !options.preview && source is Path && indexable
                && options.lazy_threshold_bytes <= file_len
        }),
{
}

/// A star asks for the whole record and a name for the column that it finds; a column
/// that is not found is refused, except in a preview, where it fits no column.
pub proof fn requests_name_columns_or_records(
    columns: Seq<ColumnModel>,
    generation: SourceGeneration,
    column: Seq<char>,
    preview: bool,
)
    ensures
        request_scope(columns, generation, seq!['*'], preview) == Ok::<
            SourceFilterScope,
            ColumnFault,
        >(SourceFilterScope::WholeRecord),
        column != seq!['*'] && table::column_named(columns, column) is Ok ==> request_scope(
            columns,
            generation,
            column,
            preview,
        ) == Ok::<SourceFilterScope, ColumnFault>(
            SourceFilterScope::Column(columns[table::column_named(columns, column)->Ok_0].id),
        ),
        column != seq!['*'] && table::column_named(columns, column) is Err && !preview
            ==> request_scope(columns, generation, column, preview) is Err && request_scope(
            columns,
            generation,
            column,
            preview,
        )->Err_0 == table::column_named(columns, column)->Err_0,
        preview ==> request_scope(columns, generation, column, preview) is Ok,
{
    reveal_strlit("*");
    assert("*"@ =~= seq!['*']);
}

/// The first request whose column is not found is told, filters before sorts, and
/// nothing is told where every column is found.
pub proof fn first_missing_column_is_told(
    requests: Seq<SourceFilterRequest>,
    sorts: Seq<SourceSortRequest>,
    columns: Seq<ColumnModel>,
    generation: SourceGeneration,
    preview: bool,
    from: int,
)
    requires
        0 <= from,
    ensures
        filter_fault(requests, from, columns, generation, preview) is None <==> forall|i: int|
            from <= i < requests.len() ==> request_scope(
                columns,
                generation,
                (#[trigger] requests[i]).column@,
                preview,
            ) is Ok,
        sort_fault(sorts, from, columns) is None <==> forall|i: int|
            from <= i < sorts.len() ==> table::column_named(
                columns,
                (#[trigger] sorts[i]).column@,
            ) is Ok,
        from < sorts.len() && table::column_named(columns, sorts[from].column@) is Err
            ==> sort_fault(sorts, from, columns) == Some(
            (sorts[from].column@, table::column_named(columns, sorts[from].column@)->Err_0),
        ),
        from < requests.len() && request_scope(
            columns,
            generation,
            requests[from].column@,
            preview,
        ) is Err ==> filter_fault(requests, from, columns, generation, preview) is Some
            && filter_fault(requests, from, columns, generation, preview)->0 == (
            requests[from].column@,
            request_scope(columns, generation, requests[from].column@, preview)->Err_0,
        ),
    decreases requests.len() + sorts.len() - from,
{
    if from < requests.len() || from < sorts.len() {
        first_missing_column_is_told(requests, sorts, columns, generation, preview, from + 1);
    }
}

/// A reader of JSON is sure of text that opens a container, one of JSON lines holds more
/// than one line for possible, and every other reader knows neither.
pub proof fn json_readers_look_at_the_beginning(format: InputFormat, text: Seq<char>)
    ensures
        ({
            let body = text::skip_white(text::skip_char(text, '\u{feff}'));
            let opened = body.len() > 0 && (body[0] == '{' || body[0] == '[');
            let fit = json_fit(format, text);
            &&& fit is Strong <==> format is Json && opened
            &&& fit is Possible <==> format is Ndjson && delimited::nonblank(
                text::lines(body),
            ).len() > 1
        }),
{
}

/// The names that can be selected are those of the relations that can be, in their
/// order.
pub proof fn selectable_names_go_by_their_relations(relations: Seq<RelationCatalogEntry>, i: int)
    requires
        0 <= i < selectable_names(relations).len(),
    ensures
        exists|k: int|
            0 <= k < relations.len() && (#[trigger] relations[k]).availability is Selectable
                && relations[k].metadata.name@ == selectable_names(relations)[i],
{
    let n = relations.len() as int;
    let places = selectable_places(relations, n);
    lemma_places_below(relations, n);
    let k = places[i];
    selectable_relations_are_listed_in_order(relations, n, k);
    assert(places.contains(k));
    assert(relations[k].availability is Selectable);
}

/// Filters and sorts of a query stand for the requests in their order, each with the
/// column that was named and the operator, the value or the direction that was asked for.
pub proof fn queries_stand_for_their_requests(
    filters: Seq<SourceFilter>,
    requests: Seq<SourceFilterRequest>,
    sorts: Seq<SourceSort>,
    wishes: Seq<SourceSortRequest>,
    columns: Seq<ColumnModel>,
    generation: SourceGeneration,
    preview: bool,
    i: int,
    k: int,
)
    requires
        filters_stand_for(
            filters,
            requests,
            requests.len() as int,
            columns,
            generation,
            preview,
        ),
        sorts_stand_for(sorts, wishes, wishes.len() as int, columns),
        0 <= i < requests.len(),
        0 <= k < wishes.len(),
    ensures
        filters.len() == requests.len(),
        filters[i].operator == requests[i].operator,
        filters[i].operand == requests[i].operand,
        requests[i].column@ == seq!['*'] ==> filters[i].scope is WholeRecord,
        requests[i].column@ != seq!['*'] && table::column_named(columns, requests[i].column@) is Ok
            ==> filters[i].scope == SourceFilterScope::Column(
            columns[table::column_named(columns, requests[i].column@)->Ok_0].id,
        ),
        sorts.len() == wishes.len(),
        sorts[k].direction == wishes[k].direction,
        table::column_named(columns, wishes[k].column@) is Ok,
        sorts[k].column == columns[table::column_named(columns, wishes[k].column@)->Ok_0].id,
{
    requests_name_columns_or_records(columns, generation, requests[i].column@, preview);
    assert(filters[i].operator == requests[i].operator);
    assert(sorts[k].direction == wishes[k].direction);
}

/// A filter that names no column is told before a sort that does.
pub proof fn filters_are_checked_before_sorts(options: OpenOptions, definition: TableDefinition)
    ensures
        ({
            let columns = table::column_views(definition.columns@);
            let filter = filter_fault(
                options.source_filters@,
                0,
                columns,
                definition.generation,
                options.preview,
            );
            &&& filter is Some ==> request_fault(options, definition) == filter
            &&& filter is None ==> request_fault(options, definition) == sort_fault(
                options.source_sort@,
                0,
                columns,
            )
        }),
{
}

/// Each refusal to open tells what it is about.
pub proof fn refusals_tell_what_they_are_about(s: Seq<char>)
    ensures
        (OpenErrorModel::FormatRequired { target: s }).text() == "remote HTTP(S) target '"@ + s
            + "' requires an explicit --format"@,
        (OpenErrorModel::UnknownScheme { scheme: s }).text() == "URL scheme '"@ + s
            + "' has no registered input format"@,
        OpenErrorModel::TableQueryConflict.text()
            == "source table and native query are mutually exclusive"@,
        (OpenErrorModel::NoRelationSelection { format: InputFormat::Json }).text()
            == "the resolved "@ + "json"@ + " source does not support relation selection"@,
        (OpenErrorModel::NoNativeQueries { format: InputFormat::Json }).text() == "the resolved "@
            + "json"@ + " source does not support native queries"@,
        OpenErrorModel::DelimitedOptionsWithSqlite.text()
            == "encoding, delimiter, quoting, and quote-character options cannot be used with SQLite input"@,
        OpenErrorModel::JsonPathWithSqlite.text()
            == "JSON starting paths cannot be used with SQLite input"@,
        (OpenErrorModel::IncompatibleObjectMode {
            mode: ObjectMode::Record,
            format: InputFormat::Ndjson,
        }).text() == "object mode '"@ + "record"@ + "' is incompatible with "@ + "ndjson"@
            + " input"@,
        mode_warning(ObjectMode::Entries, InputFormat::Delimited) == "saved object_mode '"@
            + "entries"@ + "' is incompatible with "@ + "delimited"@ + " input and was ignored"@,
{
}

/// Each fault of a relation or a column is told by its name, and where several relations
/// could be meant, all of their names are.
pub proof fn relation_faults_tell_their_name(
    name: String,
    reason: String,
    names: Vec<String>,
    unknown: SourceColumnError,
)
    ensures
        (RelationError::NotFound { name }).text() == "relation '"@ + name@ + "' was not found"@,
        (RelationError::Unavailable { name, reason }).text() == "relation '"@ + name@
            + "' is unavailable: "@ + reason@,
        RelationError::OpenFailed(reason).text() == reason@,
        RelationError::SelectionUnsupported.text()
            == "source does not support relation selection"@,
        RelationError::NoneSelected.text() == "source has no selected relation"@,
        RelationError::SeveralOpened.text() == "source contains more than one opened relation"@,
        (RelationError::SeveralSelectable { names }).text()
            == "SQLite database has multiple selectable relations ("@ + text::joined(
            text::views(names@),
            seq![',', ' '],
        ) + "); select one with --table or saved source.table"@,
        unknown.fault is Unknown ==> unknown.text()
            == "source operation references unknown column '"@ + unknown.key@ + "'"@,
        unknown.fault is Ambiguous ==> unknown.text() == "source operation column '"@
            + unknown.key@ + "' is ambiguous"@,
{
    reveal_strlit(", ");
    assert(", "@ =~= seq![',', ' ']);
}

} // verus!
