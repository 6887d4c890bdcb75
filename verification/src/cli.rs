//! The command line: what its values mean and which of them fit together.

use vstd::prelude::*;

use crate::options::{
    self, InputFormat, JsonPointer, ObjectMode, OpenOptions, Quoting, SchemaScan,
    SourceOptionErrorModel, SourceOptionOverrides,
};
use crate::output::{ColorOutput, OutputFormat};
use crate::saved_views::{self, normalize_view_name};
use crate::source::{self, SourceTarget};
use crate::table::{ColumnWidthMode, RowLimit};
use crate::text::{
    self, chars_of, concat2, concat3, concat5, parse_unsigned, parse_usize, same, split_chars,
    starts_with_char, trim_start_char,
};

verus! {

/// The values given on the command line.
#[derive(Debug, PartialEq)]
pub struct Args {
    pub filename: String,
    pub interactive: bool,
    pub output: Option<OutputFormat>,
    pub sorted: Option<bool>,
    pub top_lines: Option<RowLimit>,
    pub color: ColorOutput,
    pub encoding: Option<String>,
    pub delimiter: Option<String>,
    pub quoting: Option<String>,
    pub start_pos: Option<String>,
    pub width: String,
    pub double_width: bool,
    pub quote_char: String,
    pub format: Option<InputFormat>,
    pub json_path: Option<JsonPointer>,
    pub object_mode: Option<ObjectMode>,
    pub schema_scan: Option<SchemaScan>,
    pub table: Option<String>,
    pub query: Option<String>,
    pub view: Option<String>,
    pub no_view: bool,
    pub extra: Vec<String>,
}

/// Where the cursor begins, as rows and columns counted by the user.
#[derive(Debug, Clone, Copy, PartialEq, Eq, Structural)]
pub struct StartPosition {
    pub row: usize,
    pub column: Option<usize>,
}

impl Default for StartPosition {
    fn default() -> (r: Self)
        ensures
            r == (StartPosition { row: 0, column: None }),
    {
        StartPosition { row: 0, column: None }
    }
}

/// Which saved view to use.
#[derive(Debug, Clone, PartialEq, Eq)]
pub enum SavedViewSelection {
    Auto,
    Force(String),
    Disabled,
}

/// The model of a saved view selection.
pub enum SelectionModel {
    Auto,
    Force(Seq<char>),
    Disabled,
}

impl View for SavedViewSelection {
    type V = SelectionModel;

    open spec fn view(&self) -> SelectionModel {
        match self {
            SavedViewSelection::Auto => SelectionModel::Auto,
            SavedViewSelection::Force(name) => SelectionModel::Force(name@),
            SavedViewSelection::Disabled => SelectionModel::Disabled,
        }
    }
}

/// What the view options select: switching views off wins over naming one.
pub open spec fn selection(view: Option<Seq<char>>, no_view: bool) -> SelectionModel {
    if no_view {
        SelectionModel::Disabled
    } else {
        match view {
            Some(name) => SelectionModel::Force(saved_views::view_name(name)),
            None => SelectionModel::Auto,
        }
    }
}

impl SavedViewSelection {
    /// What the view options select.
    pub fn from_args(view: &Option<String>, no_view: bool) -> (r: SavedViewSelection)
        ensures
            r@ == selection(text::opt_view(*view), no_view),
    {
        if no_view {
            SavedViewSelection::Disabled
        } else {
            match view {
                Some(name) => SavedViewSelection::Force(normalize_view_name(name)),
                None => SavedViewSelection::Auto,
            }
        }
    }
}

// ---------------------------------------------------------------------------
// Errors
// ---------------------------------------------------------------------------

/// Why command-line values were refused.
#[derive(Debug, Clone, PartialEq, Eq)]
pub enum CliError {
    InvalidStartPosition { value: String },
    InvalidWidth { value: String },
    InvalidQuoting { value: String },
    InvalidChar { what: &'static str, value: String },
    IncompatibleOptions { format: InputFormat, option: &'static str },
}

/// The model of a command-line error.
pub enum CliErrorModel {
    InvalidStartPosition(Seq<char>),
    InvalidWidth(Seq<char>),
    InvalidQuoting(Seq<char>),
    InvalidChar(Seq<char>, Seq<char>),
    IncompatibleOptions(InputFormat, Seq<char>),
}

impl View for CliError {
    type V = CliErrorModel;

    open spec fn view(&self) -> CliErrorModel {
        match self {
            CliError::InvalidStartPosition { value } => CliErrorModel::InvalidStartPosition(
                value@,
            ),
            CliError::InvalidWidth { value } => CliErrorModel::InvalidWidth(value@),
            CliError::InvalidQuoting { value } => CliErrorModel::InvalidQuoting(value@),
            CliError::InvalidChar { what, value } => CliErrorModel::InvalidChar(what@, value@),
            CliError::IncompatibleOptions { format, option } =>
                CliErrorModel::IncompatibleOptions(*format, option@),
        }
    }
}

impl CliErrorModel {
    /// The text shown for the error.
    pub open spec fn text(self) -> Seq<char> {
        match self {
            CliErrorModel::InvalidStartPosition(value) => "invalid start position '"@ + value
                + "'"@,
            CliErrorModel::InvalidWidth(value) => "invalid column width '"@ + value + "'"@,
            CliErrorModel::InvalidQuoting(value) => "invalid quoting style '"@ + value + "'"@,
            CliErrorModel::InvalidChar(what, value) => "invalid "@ + what + " '"@ + value + "'"@,
            CliErrorModel::IncompatibleOptions(format, option) => option
                + " cannot be used with "@ + format.name() + " input"@,
        }
    }
}

impl CliError {
    /// The text shown for the error.
    pub fn message(&self) -> (r: String)
        ensures
            r@ == self@.text(),
    {
        match self {
            CliError::InvalidStartPosition { value } => concat3(
                "invalid start position '",
                value,
                "'",
            ),
            CliError::InvalidWidth { value } => concat3("invalid column width '", value, "'"),
            CliError::InvalidQuoting { value } => concat3("invalid quoting style '", value, "'"),
            CliError::InvalidChar { what, value } => concat5("invalid ", what, " '", value, "'"),
            CliError::IncompatibleOptions { format, option } => {
                let start = concat3(option, " cannot be used with ", format.label());
                concat2(&start, " input")
            },
        }
    }
}

// ---------------------------------------------------------------------------
// Values
// ---------------------------------------------------------------------------

/// Reads an input format, with the text of the error.
pub fn parse_input_format(value: &str) -> (r: Result<InputFormat, String>)
    ensures
        match (r, InputFormat::named(value@)) {
            (Ok(f), Some(m)) => f == m,
            (Err(e), None) => e@ == SourceOptionErrorModel::InvalidFormat(value@).text(),
            _ => false,
        },
{
    match InputFormat::parse(value) {
        Ok(format) => Ok(format),
        Err(e) => Err(e.message()),
    }
}

/// Reads a JSON pointer, with the text of the error.
pub fn parse_json_pointer(value: &str) -> (r: Result<JsonPointer, String>)
    ensures
        match (r, options::pointer_keys(value@)) {
            (Ok(path), Some(keys)) => path@ == value@ && path.keys() == keys,
            (Err(e), None) => e@ == SourceOptionErrorModel::InvalidJsonPointer(value@).text(),
            _ => false,
        },
{
    match JsonPointer::parse(value) {
        Ok(path) => Ok(path),
        Err(e) => Err(e.message()),
    }
}

/// Reads a schema scan policy, with the text of the error.
pub fn parse_schema_scan(value: &str) -> (r: Result<SchemaScan, String>)
    ensures
        match (r, SchemaScan::named(value@)) {
            (Ok(s), Some(m)) => s == m,
            (Err(e), None) => e@ == SourceOptionErrorModel::InvalidSchemaScan(value@).text(),
            _ => false,
        },
{
    match SchemaScan::parse(value) {
        Ok(scan) => Ok(scan),
        Err(e) => Err(e.message()),
    }
}

/// Reads an object mode, with the text of the error.
pub fn parse_object_mode(value: &str) -> (r: Result<ObjectMode, String>)
    ensures
        match (r, ObjectMode::named(value@)) {
            (Ok(mode), Some(m)) => mode == m,
            (Err(e), None) => e@ == SourceOptionErrorModel::InvalidObjectMode(value@).text(),
            _ => false,
        },
{
    match ObjectMode::parse(value) {
        Ok(mode) => Ok(mode),
        Err(e) => Err(e.message()),
    }
}

/// A size, where an empty part means zero.
pub open spec fn size_or_zero(part: Seq<char>) -> Option<nat> {
    if part.len() == 0 {
        Some(0)
    } else {
        text::unsigned_value(part, usize::MAX as nat)
    }
}

/// A size, where an empty part means zero.
fn parse_optional_usize(part: &str) -> (r: Option<usize>)
    ensures
        match r {
            Some(n) => size_or_zero(part@) == Some(n as nat),
            None => size_or_zero(part@) is None,
        },
{
    if part.is_empty() {
        Some(0)
    } else {
        parse_usize(part)
    }
}

/// A position of one or two sizes; `missing` is the column where there is only one.
pub open spec fn position_of(
    parts: Seq<Seq<char>>,
    missing: Option<usize>,
) -> Option<StartPosition> {
    if parts.len() == 1 {
        match size_or_zero(parts[0]) {
            Some(row) => Some(StartPosition { row: row as usize, column: missing }),
            None => None,
        }
    } else if parts.len() == 2 {
        match (size_or_zero(parts[0]), size_or_zero(parts[1])) {
            (Some(row), Some(column)) => Some(
                StartPosition { row: row as usize, column: Some(column as usize) },
            ),
            _ => None,
        }
    } else {
        None
    }
}

/// A position of one or two sizes.
fn parse_position(parts: &Vec<String>, missing: Option<usize>) -> (r: Option<StartPosition>)
    requires
        parts@.len() >= 1,
    ensures
        r == position_of(text::views(parts@), missing),
{
    if parts.len() > 2 {
        return None;
    }
    assert(text::views(parts@)[0] == parts@[0]@);
    match parse_optional_usize(&parts[0]) {
        Some(row) => if parts.len() == 2 {
            assert(text::views(parts@)[1] == parts@[1]@);
            match parse_optional_usize(&parts[1]) {
                Some(column) => Some(StartPosition { row, column: Some(column) }),
                None => None,
            }
        } else {
            Some(StartPosition { row, column: missing })
        },
        None => None,
    }
}

/// A position written as `row` or `row,column`.
pub open spec fn normal_position(value: Seq<char>) -> Option<StartPosition> {
    position_of(text::split_on(value, ','), None)
}

/// A position written as `+row` or `+row:column`; without a column it is zero.
pub open spec fn classic_position(value: Seq<char>) -> Option<StartPosition> {
    position_of(text::split_on(text::skip_char(value, '+'), ':'), Some(0))
}

/// Reads a position written as `row` or `row,column`.
fn parse_normal_start_position(value: &str) -> (r: Result<StartPosition, CliError>)
    ensures
        match (r, normal_position(value@)) {
            (Ok(p), Some(m)) => p == m,
            (Err(e), None) => e@ == CliErrorModel::InvalidStartPosition(value@),
            _ => false,
        },
{
    let parts = split_chars(value, ',');
    match parse_position(&parts, None) {
        Some(position) => Ok(position),
        None => Err(CliError::InvalidStartPosition { value: value.to_owned() }),
    }
}

/// Reads a position written as `+row` or `+row:column`.
fn parse_classic_start_position(value: &str) -> (r: Result<StartPosition, CliError>)
    ensures
        match (r, classic_position(value@)) {
            (Ok(p), Some(m)) => p == m,
            (Err(e), None) => e@ == CliErrorModel::InvalidStartPosition(value@),
            _ => false,
        },
{
    let parts = split_chars(&trim_start_char(value, '+'), ':');
    match parse_position(&parts, Some(0)) {
        Some(position) => Ok(position),
        None => Err(CliError::InvalidStartPosition { value: value.to_owned() }),
    }
}

/// The first extra argument from `from` on that begins with a plus sign.
pub open spec fn first_plus(extra: Seq<Seq<char>>, from: int) -> Option<Seq<char>>
    decreases extra.len() - from,
{
    if from >= extra.len() {
        None
    } else if extra[from].len() > 0 && extra[from][0] == '+' {
        Some(extra[from])
    } else {
        first_plus(extra, from + 1)
    }
}

/// Where the cursor begins: as the option says, else as the first extra argument
/// with a plus sign says, else at the top.
pub open spec fn start_position(
    normal: Option<Seq<char>>,
    extra: Seq<Seq<char>>,
) -> Result<StartPosition, CliErrorModel> {
    match normal {
        Some(value) => match normal_position(value) {
            Some(position) => Ok(position),
            None => Err(CliErrorModel::InvalidStartPosition(value)),
        },
        None => match first_plus(extra, 0) {
            Some(value) => match classic_position(value) {
                Some(position) => Ok(position),
                None => Err(CliErrorModel::InvalidStartPosition(value)),
            },
            None => Ok(StartPosition { row: 0, column: None }),
        },
    }
}

/// Where the cursor begins.
pub fn parse_start_position(normal: &Option<String>, extra: &Vec<String>) -> (r: Result<
    StartPosition,
    CliError,
>)
    ensures
        match (r, start_position(text::opt_view(*normal), text::views(extra@))) {
            (Ok(p), Ok(m)) => p == m,
            (Err(e), Err(m)) => e@ == m,
            _ => false,
        },
{
    if let Some(value) = normal {
        return parse_normal_start_position(value);
    }
    let ghost model = text::views(extra@);
    let mut i: usize = 0;
    while i < extra.len()
        invariant
            i <= extra@.len(),
            model == text::views(extra@),
            normal is None,
            first_plus(model, 0) == first_plus(model, i as int),
        decreases extra@.len() - i,
    {
        assert(model[i as int] == extra@[i as int]@);
        if starts_with_char(&extra[i], '+') {
            return parse_classic_start_position(&extra[i]);
        }
        i = i + 1;
    }
    Ok(StartPosition::default())
}

/// A column width: `mode`, `max` or a positive number.
pub open spec fn width_value(value: Seq<char>) -> Option<ColumnWidthMode> {
    if value == "mode"@ {
        Some(ColumnWidthMode::Mode)
    } else if value == "max"@ {
        Some(ColumnWidthMode::Max)
    } else {
        match text::unsigned_value(value, u16::MAX as nat) {
            Some(n) => if n == 0 {
                None
            } else {
                Some(ColumnWidthMode::Fixed(n as u16))
            },
            None => None,
        }
    }
}

/// Reads a column width.
pub fn parse_width(value: &str) -> (r: Result<ColumnWidthMode, CliError>)
    ensures
        match (r, width_value(value@)) {
            (Ok(w), Some(m)) => w == m,
            (Err(e), None) => e@ == CliErrorModel::InvalidWidth(value@),
            _ => false,
        },
{
    if same(value, "mode") {
        return Ok(ColumnWidthMode::Mode);
    }
    if same(value, "max") {
        return Ok(ColumnWidthMode::Max);
    }
    match parse_unsigned(value, 65535) {
        Some(n) => if n == 0 {
            Err(CliError::InvalidWidth { value: value.to_owned() })
        } else {
            Ok(ColumnWidthMode::Fixed(n as u16))
        },
        None => Err(CliError::InvalidWidth { value: value.to_owned() }),
    }
}

/// A quoting style by its name.
pub open spec fn quoting_value(value: Seq<char>) -> Option<Quoting> {
    if value == "QUOTE_MINIMAL"@ {
        Some(Quoting::Minimal)
    } else if value == "QUOTE_NONNUMERIC"@ {
        Some(Quoting::NonNumeric)
    } else if value == "QUOTE_ALL"@ {
        Some(Quoting::All)
    } else if value == "QUOTE_NONE"@ {
        Some(Quoting::Never)
    } else {
        None
    }
}

/// Reads a quoting style.
pub fn parse_quoting(value: &str) -> (r: Result<Quoting, CliError>)
    ensures
        match (r, quoting_value(value@)) {
            (Ok(q), Some(m)) => q == m,
            (Err(e), None) => e@ == CliErrorModel::InvalidQuoting(value@),
            _ => false,
        },
{
    if same(value, "QUOTE_MINIMAL") {
        Ok(Quoting::Minimal)
    } else if same(value, "QUOTE_NONNUMERIC") {
        Ok(Quoting::NonNumeric)
    } else if same(value, "QUOTE_ALL") {
        Ok(Quoting::All)
    } else if same(value, "QUOTE_NONE") {
        Ok(Quoting::Never)
    } else {
        Err(CliError::InvalidQuoting { value: value.to_owned() })
    }
}

/// The byte of a text that is one ASCII character.
pub open spec fn ascii_value(value: Seq<char>) -> Option<u8> {
    if value.len() == 1 && (value[0] as u32) < 128 {
        Some((value[0] as u32) as u8)
    } else {
        None
    }
}

/// Reads a text that is one character.
fn parse_char(value: &str, what: &'static str) -> (r: Result<char, CliError>)
    ensures
        match r {
            Ok(c) => value@ == seq![c],
            Err(e) => value@.len() != 1 && e@ == CliErrorModel::InvalidChar(what@, value@),
        },
{
    let v = chars_of(value);
    if v.len() == 1 {
        assert(value@ =~= seq![v@[0]]);
        Ok(v[0])
    } else {
        Err(CliError::InvalidChar { what, value: value.to_owned() })
    }
}

/// Reads a text that is one ASCII character.
pub fn parse_ascii_char(value: &str, what: &'static str) -> (r: Result<u8, CliError>)
    ensures
        match (r, ascii_value(value@)) {
            (Ok(b), Some(m)) => b == m,
            (Err(e), None) => e@ == CliErrorModel::InvalidChar(what@, value@),
            _ => false,
        },
{
    match parse_char(value, what) {
        Ok(c) => {
            let n: u32 = c as u32;
            if n < 128 {
                Ok(n as u8)
            } else {
                Err(CliError::InvalidChar { what, value: value.to_owned() })
            }
        },
        Err(e) => Err(e),
    }
}

/// A delimiter: one ASCII character, or a tab written as `\t`.
pub open spec fn delimiter_value(value: Seq<char>) -> Option<u8> {
    if value == "\\t"@ {
        Some(0x09)
    } else {
        ascii_value(value)
    }
}

/// Reads a delimiter.
pub fn parse_byte_char(value: &str) -> (r: Result<u8, CliError>)
    ensures
        match (r, delimiter_value(value@)) {
            (Ok(b), Some(m)) => b == m,
            (Err(e), None) => e@ == CliErrorModel::InvalidChar("delimiter"@, value@),
            _ => false,
        },
{
    if same(value, "\\t") {
        return Ok(0x09);
    }
    parse_ascii_char(value, "delimiter")
}

// ---------------------------------------------------------------------------
// Configuration
// ---------------------------------------------------------------------------

/// What the command line asks for, checked.
#[derive(Debug, PartialEq)]
pub struct Config {
    pub target: SourceTarget,
    pub interactive: bool,
    pub output: Option<OutputFormat>,
    pub color: ColorOutput,
    pub sorted: Option<bool>,
    pub top_lines: Option<RowLimit>,
    pub encoding: Option<String>,
    pub delimiter: Option<u8>,
    pub quoting: Option<Quoting>,
    pub start_position: StartPosition,
    pub width: ColumnWidthMode,
    pub double_width: bool,
    pub quote_char: u8,
    pub source_options: SourceOptionOverrides,
    pub saved_view: SavedViewSelection,
}

/// Whether a format has no use for delimited options.
pub open spec fn rejects_delimited_options(format: InputFormat) -> bool {
    !(format is Auto || format is Delimited)
}

/// Whether a format has no use for delimited options.
pub fn format_rejects_delimited_options(format: InputFormat) -> (r: bool)
    ensures
        r == rejects_delimited_options(format),
{
    !matches!(format, InputFormat::Auto | InputFormat::Delimited)
}

/// Whether an option on delimited text was given.
pub open spec fn delimited_selected(args: Args) -> bool {
    args.encoding is Some || args.delimiter is Some || args.quoting is Some || args.quote_char@
        != "\""@
}

/// Whether a format reads files rather than databases.
pub open spec fn is_file_format(format: InputFormat) -> bool {
    format is Delimited || format is Json || format is Ndjson
}

/// The first two options that do not go together.
pub open spec fn option_conflict(args: Args) -> Option<CliErrorModel> {
    let selected = delimited_selected(args);
    if args.format is Some && rejects_delimited_options(args.format->0) && selected {
        Some(
            CliErrorModel::IncompatibleOptions(args.format->0, "delimited parsing options"@),
        )
    } else if args.json_path is Some && (args.format == Some(InputFormat::Delimited) || selected) {
        Some(CliErrorModel::IncompatibleOptions(InputFormat::Delimited, "--json-path"@))
    } else if (args.format == Some(InputFormat::Delimited) || args.format == Some(
        InputFormat::Ndjson,
    )) && (args.object_mode == Some(ObjectMode::Record) || args.object_mode == Some(
        ObjectMode::Entries,
    )) {
        Some(CliErrorModel::IncompatibleOptions(args.format->0, "--object-mode"@))
    } else if args.format is Some && is_file_format(args.format->0) && args.table is Some {
        Some(CliErrorModel::IncompatibleOptions(args.format->0, "--table"@))
    } else if args.format is Some && is_file_format(args.format->0) && args.query is Some {
        Some(CliErrorModel::IncompatibleOptions(args.format->0, "--query"@))
    } else {
        None
    }
}

/// The first value that cannot be read.
pub open spec fn value_fault(args: Args) -> Option<CliErrorModel> {
    if args.delimiter is Some && delimiter_value(args.delimiter->0@) is None {
        Some(CliErrorModel::InvalidChar("delimiter"@, args.delimiter->0@))
    } else if args.quoting is Some && quoting_value(args.quoting->0@) is None {
        Some(CliErrorModel::InvalidQuoting(args.quoting->0@))
    } else if start_position(text::opt_view(args.start_pos), text::views(args.extra@)) is Err {
        Some(start_position(text::opt_view(args.start_pos), text::views(args.extra@))->Err_0)
    } else if width_value(args.width@) is None {
        Some(CliErrorModel::InvalidWidth(args.width@))
    } else if ascii_value(args.quote_char@) is None {
        Some(CliErrorModel::InvalidChar("quote character"@, args.quote_char@))
    } else {
        None
    }
}

/// What is wrong with the command line, if anything: conflicts come before
/// values that cannot be read.
pub open spec fn cli_fault(args: Args) -> Option<CliErrorModel> {
    match option_conflict(args) {
        Some(e) => Some(e),
        None => value_fault(args),
    }
}

/// `config` is what `args` ask for. A delimited option asks for automatic format
/// choice, so that it outranks a format of a saved view.
pub open spec fn is_config(config: Config, args: Args) -> bool {
    &&& config.target@ == source::target_of(args.filename@)
    &&& config.interactive == args.interactive
    &&& config.output == args.output
    &&& config.color == args.color
    &&& config.sorted == args.sorted
    &&& config.top_lines == args.top_lines
    &&& config.encoding == args.encoding
    &&& config.delimiter == (match args.delimiter {
        Some(value) => delimiter_value(value@),
        None => None,
    })
    &&& config.quoting == (match args.quoting {
        Some(value) => quoting_value(value@),
        None => None,
    })
    &&& start_position(text::opt_view(args.start_pos), text::views(args.extra@)) == Ok::<
        StartPosition,
        CliErrorModel,
    >(config.start_position)
    &&& width_value(args.width@) == Some(config.width)
    &&& config.double_width == args.double_width
    &&& ascii_value(args.quote_char@) == Some(config.quote_char)
    &&& config.source_options.format == (if args.format is None && delimited_selected(args) {
        Some(InputFormat::Auto)
    } else {
        args.format
    })
    &&& config.source_options.json_path == args.json_path
    &&& config.source_options.object_mode == args.object_mode
    &&& config.source_options.schema_scan == args.schema_scan
    &&& config.source_options.table == args.table
    &&& config.source_options.native_query == args.query
    &&& config.source_options.limit is None
    &&& config.source_options.source_filters is None
    &&& config.source_options.source_sort is None
    &&& config.saved_view@ == selection(text::opt_view(args.view), args.no_view)
}

/// The first two options that do not go together.
fn find_conflict(args: &Args) -> (r: Option<CliError>)
    ensures
        match r {
            Some(e) => option_conflict(*args) == Some(e@),
            None => option_conflict(*args) is None,
        },
{
    let selected = args.encoding.is_some() || args.delimiter.is_some() || args.quoting.is_some()
        || !same(&args.quote_char, "\"");
    let delimited = match args.format {
        Some(f) => f == InputFormat::Delimited,
        None => false,
    };
    if let Some(format) = args.format {
        if format_rejects_delimited_options(format) && selected {
            return Some(
                CliError::IncompatibleOptions { format, option: "delimited parsing options" },
            );
        }
    }
    if args.json_path.is_some() && (delimited || selected) {
        return Some(
            CliError::IncompatibleOptions {
                format: InputFormat::Delimited,
                option: "--json-path",
            },
        );
    }
    let shaped = match args.object_mode {
        Some(mode) => mode == ObjectMode::Record || mode == ObjectMode::Entries,
        None => false,
    };
    if let Some(format) = args.format {
        if (format == InputFormat::Delimited || format == InputFormat::Ndjson) && shaped {
            return Some(CliError::IncompatibleOptions { format, option: "--object-mode" });
        }
        let file = format == InputFormat::Delimited || format == InputFormat::Json || format
            == InputFormat::Ndjson;
        if file && args.table.is_some() {
            return Some(CliError::IncompatibleOptions { format, option: "--table" });
        }
        if file && args.query.is_some() {
            return Some(CliError::IncompatibleOptions { format, option: "--query" });
        }
    }
    None
}

impl Config {
    /// Checks the command line and reads its values.
    pub fn from_args(args: Args) -> (r: Result<Config, CliError>)
        ensures
            match r {
                Ok(config) => cli_fault(args) is None && is_config(config, args),
                Err(e) => cli_fault(args) == Some(e@),
            },
    {
        if let Some(e) = find_conflict(&args) {
            return Err(e);
        }
        let selected = args.encoding.is_some() || args.delimiter.is_some()
            || args.quoting.is_some() || !same(&args.quote_char, "\"");
        let delimiter = match &args.delimiter {
            Some(value) => match parse_byte_char(value) {
                Ok(d) => Some(d),
                Err(e) => {
                    return Err(e);
                },
            },
            None => None,
        };
        let quoting = match &args.quoting {
            Some(value) => match parse_quoting(value) {
                Ok(q) => Some(q),
                Err(e) => {
                    return Err(e);
                },
            },
            None => None,
        };
        let start = match parse_start_position(&args.start_pos, &args.extra) {
            Ok(position) => position,
            Err(e) => {
                return Err(e);
            },
        };
        let width = match parse_width(&args.width) {
            Ok(w) => w,
            Err(e) => {
                return Err(e);
            },
        };
        let quote_char: u8 = match parse_ascii_char(&args.quote_char, "quote character") {
            Ok(b) => b,
            Err(e) => {
                return Err(e);
            },
        };
        let format = match args.format {
            Some(f) => Some(f),
            None => if selected {
                Some(InputFormat::Auto)
            } else {
                None
            },
        };
        Ok(
            Config {
                target: SourceTarget::from_cli_value(&args.filename),
                interactive: args.interactive,
                output: args.output,
                color: args.color,
                sorted: args.sorted,
                top_lines: args.top_lines,
                encoding: args.encoding,
                delimiter,
                quoting,
                start_position: start,
                width,
                double_width: args.double_width,
                quote_char,
                source_options: SourceOptionOverrides {
                    format,
                    json_path: args.json_path,
                    object_mode: args.object_mode,
                    schema_scan: args.schema_scan,
                    table: args.table,
                    native_query: args.query,
                    limit: None,
                    source_filters: None,
                    source_sort: None,
                },
                saved_view: SavedViewSelection::from_args(&args.view, args.no_view),
            },
        )
    }
}

/// A delimited option given on the command line outranks the format of a saved
/// view: the merged options choose the format automatically.
pub proof fn delimited_options_outrank_saved_format(
    args: Args,
    config: Config,
    merged: OpenOptions,
    defaults: OpenOptions,
    saved: SourceOptionOverrides,
)
    requires
        is_config(config, args),
        delimited_selected(args),
        args.format is None,
        options::is_merge(merged, defaults, saved, config.source_options),
    ensures
        merged.format is Auto,
{
}

/// A checked command line never asks for a relation or a query of a file.
pub proof fn file_formats_have_no_relations(args: Args)
    requires
        cli_fault(args) is None,
        args.format is Some,
        is_file_format(args.format->0),
    ensures
        args.table is None,
        args.query is None,
{
}

// ---------------------------------------------------------------------------
// Help
// ---------------------------------------------------------------------------

/// What the program does, in a line.
pub fn about() -> (r: &'static str)
    ensures
        r@ == "View delimited, JSON, NDJSON, or local SQLite data."@,
{
    "View delimited, JSON, NDJSON, or local SQLite data."
}

/// What the help says of an argument.
pub open spec fn help_text(name: Seq<char>) -> Option<Seq<char>> {
    if name == "filename"@ {
        Some("Local file, standard input marker '-', or remote source URL."@)
    } else if name == "interactive"@ {
        Some("Run the interactive viewer. Combine with --output to serialize the final view on quit."@)
    } else if name == "output"@ {
        Some("Output serialization format."@)
    } else if name == "sorted"@ {
        Some("Apply saved view sorting for direct table output [default: true]."@)
    } else if name == "top_lines"@ {
        Some("Preview at most this many data rows, excluding the header and summary."@)
    } else if name == "color"@ {
        Some("Color policy for serialized output."@)
    } else if name == "encoding"@ {
        Some("Encoding, if required."@)
    } else if name == "delimiter"@ {
        Some("CSV delimiter. Not typically necessary since automatic delimiter sniffing is used."@)
    } else if name == "quoting"@ {
        Some("CSV quoting style, using Python csv.QUOTE_* names."@)
    } else if name == "start_pos"@ {
        Some("Initial cursor display position as y or y,x."@)
    } else if name == "width"@ {
        Some("Column width: 'max', 'mode', or an integer fixed width."@)
    } else if name == "double_width"@ {
        Some("Force full handling of double-width characters for large files."@)
    } else if name == "quote_char"@ {
        Some("Quote character."@)
    } else if name == "format"@ {
        Some("Input format. Automatic selection uses the filename and bounded content probing."@)
    } else if name == "json_path"@ {
        Some("RFC 6901 JSON Pointer selecting the table within each JSON document."@)
    } else if name == "object_mode"@ {
        Some("Interpret a selected structured object as auto-detected, one record, or keyed entries."@)
    } else if name == "schema_scan"@ {
        Some("JSON schema discovery policy."@)
    } else if name == "table"@ {
        Some("Source-native relation or target to open."@)
    } else if name == "query"@ {
        Some("Complete native query in the language selected by the source format."@)
    } else if name == "view"@ {
        Some("Force a saved view by canonical name."@)
    } else if name == "no_view"@ {
        Some("Disable saved view discovery and application for this invocation."@)
    } else if name == "extra"@ {
        Some("Extra positional arguments, including classic +y:x start positions."@)
    } else {
        None
    }
}

/// What the help says of an argument.
pub fn argument_help(name: &str) -> (r: Option<&'static str>)
    ensures
        text::opt_str_view(r) == help_text(name@),
{
    if same(name, "filename") {
        Some("Local file, standard input marker '-', or remote source URL.")
    } else if same(name, "interactive") {
        Some("Run the interactive viewer. Combine with --output to serialize the final view on quit.")
    } else if same(name, "output") {
        Some("Output serialization format.")
    } else if same(name, "sorted") {
        Some("Apply saved view sorting for direct table output [default: true].")
    } else if same(name, "top_lines") {
        Some("Preview at most this many data rows, excluding the header and summary.")
    } else if same(name, "color") {
        Some("Color policy for serialized output.")
    } else if same(name, "encoding") {
        Some("Encoding, if required.")
    } else if same(name, "delimiter") {
        Some("CSV delimiter. Not typically necessary since automatic delimiter sniffing is used.")
    } else if same(name, "quoting") {
        Some("CSV quoting style, using Python csv.QUOTE_* names.")
    } else if same(name, "start_pos") {
        Some("Initial cursor display position as y or y,x.")
    } else if same(name, "width") {
        Some("Column width: 'max', 'mode', or an integer fixed width.")
    } else if same(name, "double_width") {
        Some("Force full handling of double-width characters for large files.")
    } else if same(name, "quote_char") {
        Some("Quote character.")
    } else if same(name, "format") {
        Some("Input format. Automatic selection uses the filename and bounded content probing.")
    } else if same(name, "json_path") {
        Some("RFC 6901 JSON Pointer selecting the table within each JSON document.")
    } else if same(name, "object_mode") {
        Some("Interpret a selected structured object as auto-detected, one record, or keyed entries.")
    } else if same(name, "schema_scan") {
        Some("JSON schema discovery policy.")
    } else if same(name, "table") {
        Some("Source-native relation or target to open.")
    } else if same(name, "query") {
        Some("Complete native query in the language selected by the source format.")
    } else if same(name, "view") {
        Some("Force a saved view by canonical name.")
    } else if same(name, "no_view") {
        Some("Disable saved view discovery and application for this invocation.")
    } else if same(name, "extra") {
        Some("Extra positional arguments, including classic +y:x start positions.")
    } else {
        None
    }
}

/// Each style of quoting is read by its own name.
pub proof fn quotings_are_read_by_their_names(value: Seq<char>)
    ensures
        quoting_value(value) == Some(Quoting::Minimal) <==> value == "QUOTE_MINIMAL"@,
        quoting_value(value) == Some(Quoting::NonNumeric) <==> value == "QUOTE_NONNUMERIC"@,
        quoting_value(value) == Some(Quoting::All) <==> value == "QUOTE_ALL"@,
        quoting_value(value) == Some(Quoting::Never) <==> value == "QUOTE_NONE"@,
        quoting_value(value) is None <==> value != "QUOTE_MINIMAL"@ && value != "QUOTE_NONNUMERIC"@ && value != "QUOTE_ALL"@ && value != "QUOTE_NONE"@,
{
    reveal_strlit("QUOTE_MINIMAL");
    reveal_strlit("QUOTE_NONNUMERIC");
    reveal_strlit("QUOTE_ALL");
    reveal_strlit("QUOTE_NONE");
    assert("QUOTE_MINIMAL"@.len() == 13);
    assert("QUOTE_NONNUMERIC"@.len() == 16);
    assert("QUOTE_ALL"@.len() == 9);
    assert("QUOTE_NONE"@.len() == 10);
}

/// A width is one of two words or a number above zero that fits; it reads back as it is
/// written.
pub proof fn widths_read_back(value: Seq<char>, n: u16)
    ensures
        width_value(value) == Some(ColumnWidthMode::Mode) <==> value == "mode"@,
        width_value(value) == Some(ColumnWidthMode::Max) <==> value == "max"@,
        n > 0 ==> width_value(text::decimal(n as nat)) == Some(ColumnWidthMode::Fixed(n)),
        width_value(text::decimal(0)) is None,
        width_value(text::decimal(65536)) is None,
{
    reveal_strlit("mode");
    reveal_strlit("max");
    assert("mode"@.len() == 4 && "mode"@[0] == 'm');
    assert("max"@.len() == 3 && "max"@[0] == 'm');
    text::numbers_read_back(n as nat, u16::MAX as nat);
    text::numbers_read_back(0, u16::MAX as nat);
    text::numbers_read_back(65536, u16::MAX as nat);
    text::digits_have_their_value(n as nat);
    text::digits_have_their_value(0);
    text::digits_have_their_value(65536);
    assert(text::is_digit(text::decimal(n as nat)[0]));
    assert(text::is_digit(text::decimal(0)[0]));
    assert(text::is_digit(text::decimal(65536)[0]));
}

/// A character is given by itself where it is one of ASCII, a delimiter also by the
/// escape of the tab; no other text is a character.
pub proof fn characters_are_given_by_themselves(value: Seq<char>, c: char)
    ensures
        (c as u32) < 128 ==> ascii_value(seq![c]) == Some((c as u32) as u8),
        (c as u32) >= 128 ==> ascii_value(seq![c]) is None,
        value.len() != 1 ==> ascii_value(value) is None,
        (c as u32) < 128 ==> delimiter_value(seq![c]) == Some((c as u32) as u8),
        delimiter_value(seq!['\\', 't']) == Some(9u8),
        value.len() != 1 && value != seq!['\\', 't'] ==> delimiter_value(value) is None,
{
    reveal_strlit("\\t");
    assert("\\t"@ =~= seq!['\\', 't']);
    assert("\\t"@.len() == 2);
    assert(seq![c][0] == c);
}

/// A start is a row, or a row and a column behind a comma; a missing column stays open
/// and an empty part is the first.
pub proof fn starts_are_row_and_column(row: usize, column: usize)
    ensures
        normal_position(text::decimal(row as nat)) == Some(StartPosition { row, column: None }),
        normal_position(
            text::decimal(row as nat).push(',') + text::decimal(column as nat),
        ) == Some(StartPosition { row, column: Some(column) }),
        normal_position(Seq::empty()) == Some(StartPosition { row: 0, column: None }),
{
    let r = text::decimal(row as nat);
    let c = text::decimal(column as nat);
    lemma_plain_number(row as nat, ',');
    lemma_plain_number(column as nat, ',');
    let none = Seq::<char>::empty();
    text::splits_stand_between_separators(r, r, ',');
    text::splits_stand_between_separators(r, c, ',');
    text::splits_stand_between_separators(none, none, ',');
    text::numbers_read_back(row as nat, usize::MAX as nat);
    text::numbers_read_back(column as nat, usize::MAX as nat);
}

proof fn lemma_plain_number(n: nat, c: char)
    requires
        !text::is_digit(c),
    ensures
        text::decimal(n).len() > 0,
        text::lacks(text::decimal(n), c),
{
    text::digits_have_their_value(n);
    let digits = text::decimal(n);
    assert forall|i: int| 0 <= i < digits.len() implies #[trigger] digits[i] != c by {
        assert(text::is_digit(digits[i]));
    }
}

/// A start in the classic form has a plus in front and a colon before the column, which
/// is the first where it is missing.
pub proof fn classic_starts_have_a_plus(row: usize, column: usize)
    ensures
        classic_position(seq!['+'] + text::decimal(row as nat)) == Some(
            StartPosition { row, column: Some(0) },
        ),
        classic_position(
            seq!['+'] + (text::decimal(row as nat).push(':') + text::decimal(column as nat)),
        ) == Some(StartPosition { row, column: Some(column) }),
{
    let r = text::decimal(row as nat);
    let c = text::decimal(column as nat);
    lemma_plain_number(row as nat, ':');
    lemma_plain_number(column as nat, ':');
    lemma_plain_number(row as nat, '+');
    text::splits_stand_between_separators(r, r, ':');
    text::splits_stand_between_separators(r, c, ':');
    text::numbers_read_back(row as nat, usize::MAX as nat);
    text::numbers_read_back(column as nat, usize::MAX as nat);
    let short = seq!['+'] + r;
    let long = seq!['+'] + (r.push(':') + c);
    assert(short.skip(1) =~= r);
    assert(long.skip(1) =~= r.push(':') + c);
    assert(r[0] != '+');
    assert((r.push(':') + c)[0] == r[0]);
    assert(text::skip_char(r, '+') == r);
    assert(text::skip_char(r.push(':') + c, '+') == r.push(':') + c);
    assert(short[0] == '+' && long[0] == '+');
    assert(text::skip_char(short, '+') == r);
    assert(text::skip_char(long, '+') == r.push(':') + c);
}

/// The start is the one that is given by the option, or else the first argument with a
/// plus in front, or else the very first cell.
pub proof fn options_outrank_classic_starts(value: Seq<char>, extra: Seq<Seq<char>>, i: int)
    requires
        0 <= i < extra.len(),
        extra[i].len() > 0 && extra[i][0] == '+',
        forall|k: int|
            0 <= k < i ==> (#[trigger] extra[k]).len() == 0 || extra[k][0] != '+',
    ensures
        normal_position(value) matches Some(p) ==> start_position(Some(value), extra) == Ok::<
            StartPosition,
            CliErrorModel,
        >(p),
        normal_position(value) is None ==> start_position(Some(value), extra) == Err::<
            StartPosition,
            CliErrorModel,
        >(CliErrorModel::InvalidStartPosition(value)),
        classic_position(extra[i]) matches Some(p) ==> start_position(None, extra) == Ok::<
            StartPosition,
            CliErrorModel,
        >(p),
        classic_position(extra[i]) is None ==> start_position(None, extra) == Err::<
            StartPosition,
            CliErrorModel,
        >(CliErrorModel::InvalidStartPosition(extra[i])),
        start_position(None, Seq::empty()) == Ok::<StartPosition, CliErrorModel>(
            StartPosition { row: 0, column: None },
        ),
{
    lemma_first_plus(extra, 0, i);
}

proof fn lemma_first_plus(extra: Seq<Seq<char>>, from: int, i: int)
    requires
        0 <= from <= i < extra.len(),
        extra[i].len() > 0 && extra[i][0] == '+',
        forall|k: int|
            0 <= k < i ==> (#[trigger] extra[k]).len() == 0 || extra[k][0] != '+',
    ensures
        first_plus(extra, from) == Some(extra[i]),
    decreases i - from,
{
    if from < i {
        assert(extra[from].len() == 0 || extra[from][0] != '+');
        lemma_first_plus(extra, from + 1, i);
    }
}

/// Views are off where they are refused, whatever else is asked; a name asks for the
/// view of that name, and without one the file decides.
pub proof fn refusing_views_outranks_naming_one(view: Option<Seq<char>>, name: Seq<char>)
    ensures
        selection(view, true) is Disabled,
        selection(None, false) is Auto,
        selection(Some(name), false) == SelectionModel::Force(saved_views::view_name(name)),
{
}

/// Options for delimited text are refused with every other format that is asked for;
/// a path into JSON is refused with the delimited format and with those options; an
/// object mode is refused for rows that come one by one; and a relation or a query is
/// refused for a file.
pub proof fn options_conflict_by_format(args: Args)
    ensures
        args.format == Some(InputFormat::Json) || args.format == Some(InputFormat::Ndjson)
            || args.format == Some(InputFormat::Sqlite) ==> (args.encoding is Some || args.delimiter
            is Some || args.quoting is Some ==> option_conflict(args) is Some),
        args.json_path is Some && (args.format == Some(InputFormat::Delimited) || args.encoding
            is Some || args.delimiter is Some || args.quoting is Some) ==> option_conflict(args)
            is Some,
        (args.format == Some(InputFormat::Delimited) || args.format == Some(InputFormat::Ndjson))
            && (args.object_mode == Some(ObjectMode::Record) || args.object_mode == Some(
            ObjectMode::Entries,
        )) ==> option_conflict(args) is Some,
        (args.format == Some(InputFormat::Delimited) || args.format == Some(InputFormat::Json)
            || args.format == Some(InputFormat::Ndjson)) && (args.table is Some || args.query
            is Some) ==> option_conflict(args) is Some,
        args.format is None && args.json_path is None ==> option_conflict(args) is None,
        args.format == Some(InputFormat::Auto) && args.json_path is None ==> option_conflict(args)
            is None,
        args.format == Some(InputFormat::Sqlite) && args.encoding is None && args.delimiter is None
            && args.quoting is None && args.quote_char@ == seq!['"'] && args.json_path is None
            ==> option_conflict(args) is None,
        args.format == Some(InputFormat::Json) && args.encoding is None && args.delimiter is None
            && args.quoting is None && args.quote_char@ == seq!['"'] && args.table is None
            && args.query is None ==> option_conflict(args) is None,
        option_conflict(args) matches Some(CliErrorModel::IncompatibleOptions(format, _))
            ==> args.format == Some(format) || format is Delimited,
        option_conflict(args) is Some ==> option_conflict(args)->0 is IncompatibleOptions,
{
    reveal_strlit("\"");
    assert("\""@ =~= seq!['"']);
}

/// The command line is refused for the first value that cannot be read, and for none
/// where all can.
pub proof fn unreadable_values_are_told(args: Args)
    ensures
        value_fault(args) is None <==> {
            &&& args.delimiter matches Some(value) ==> delimiter_value(value@) is Some
            &&& args.quoting matches Some(value) ==> quoting_value(value@) is Some
            &&& start_position(text::opt_view(args.start_pos), text::views(args.extra@)) is Ok
            &&& width_value(args.width@) is Some
            &&& ascii_value(args.quote_char@) is Some
        },
        value_fault(args) matches Some(CliErrorModel::InvalidQuoting(value)) ==> args.quoting
            is Some && value == args.quoting->0@ && quoting_value(value) is None,
        value_fault(args) matches Some(CliErrorModel::InvalidWidth(value)) ==> value == args.width@
            && width_value(value) is None,
        value_fault(args) matches Some(CliErrorModel::InvalidChar(what, value)) ==> (what
            == "delimiter"@ && args.delimiter is Some && value == args.delimiter->0@) || (what
            == "quote character"@ && value == args.quote_char@),
        option_conflict(args) matches Some(e) ==> cli_fault(args) == Some(e),
        option_conflict(args) is None ==> cli_fault(args) == value_fault(args),
{
}

/// A configuration takes each argument over to its own place.
pub proof fn arguments_go_to_their_places(config: Config, args: Args)
    requires
        is_config(config, args),
    ensures
        config.interactive == args.interactive,
        config.output == args.output,
        config.color == args.color,
        config.sorted == args.sorted,
        config.top_lines == args.top_lines,
        config.encoding == args.encoding,
        config.double_width == args.double_width,
        args.delimiter is None ==> config.delimiter is None,
        args.delimiter matches Some(value) ==> config.delimiter == delimiter_value(value@),
        args.quoting is None ==> config.quoting is None,
        args.quoting matches Some(value) ==> config.quoting == quoting_value(value@),
        Some(config.width) == width_value(args.width@),
        Some(config.quote_char) == ascii_value(args.quote_char@),
        config.source_options.table == args.table,
        config.source_options.native_query == args.query,
        config.source_options.json_path == args.json_path,
        config.source_options.object_mode == args.object_mode,
        config.source_options.schema_scan == args.schema_scan,
        args.format is Some ==> config.source_options.format == args.format,
        args.format is None && args.encoding is None && args.delimiter is None && args.quoting
            is None && args.quote_char@ == seq!['"'] ==> config.source_options.format is None,
        args.format is None && (args.encoding is Some || args.delimiter is Some || args.quoting
            is Some) ==> config.source_options.format == Some(InputFormat::Auto),
        args.no_view ==> config.saved_view@ is Disabled,
        !args.no_view && args.view is None ==> config.saved_view@ is Auto,
        !args.no_view && args.view is Some ==> config.saved_view@ == SelectionModel::Force(
            saved_views::view_name(args.view->0@),
        ),
        args.filename@ == seq!['-'] ==> config.target@ is Stdin,
{
    reveal_strlit("\"");
    assert("\""@ =~= seq!['"']);
    source::other_targets_are_paths(args.filename@);
}

/// Each fault of a command line is told with the value that it is about.
pub proof fn faults_tell_their_value(value: Seq<char>, what: Seq<char>)
    ensures
        CliErrorModel::InvalidStartPosition(value).text() == "invalid start position '"@ + value
            + seq!['\''],
        CliErrorModel::InvalidWidth(value).text() == "invalid column width '"@ + value + seq!['\''],
        CliErrorModel::InvalidQuoting(value).text() == "invalid quoting style '"@ + value
            + seq!['\''],
        CliErrorModel::InvalidChar(what, value).text() == "invalid "@ + what + " '"@ + value
            + seq!['\''],
        CliErrorModel::IncompatibleOptions(InputFormat::Json, what).text() == what
            + " cannot be used with "@ + "json"@ + " input"@,
        CliErrorModel::IncompatibleOptions(InputFormat::Sqlite, what).text() == what
            + " cannot be used with "@ + "sqlite"@ + " input"@,
{
    reveal_strlit("'");
    assert("'"@ =~= seq!['\'']);
}

/// Each argument has the help that tells what it is for, and nothing else has any.
pub proof fn arguments_have_their_help(name: Seq<char>)
    ensures
        name == "filename"@ ==> help_text(name) == Some("Local file, standard input marker '-', or remote source URL."@),
        name == "interactive"@ ==> help_text(name) == Some("Run the interactive viewer. Combine with --output to serialize the final view on quit."@),
        name == "output"@ ==> help_text(name) == Some("Output serialization format."@),
        name == "sorted"@ ==> help_text(name) == Some("Apply saved view sorting for direct table output [default: true]."@),
        name == "top_lines"@ ==> help_text(name) == Some("Preview at most this many data rows, excluding the header and summary."@),
        name == "color"@ ==> help_text(name) == Some("Color policy for serialized output."@),
        name == "encoding"@ ==> help_text(name) == Some("Encoding, if required."@),
        name == "delimiter"@ ==> help_text(name) == Some("CSV delimiter. Not typically necessary since automatic delimiter sniffing is used."@),
        name == "quoting"@ ==> help_text(name) == Some("CSV quoting style, using Python csv.QUOTE_* names."@),
        name == "start_pos"@ ==> help_text(name) == Some("Initial cursor display position as y or y,x."@),
        name == "width"@ ==> help_text(name) == Some("Column width: 'max', 'mode', or an integer fixed width."@),
        name == "double_width"@ ==> help_text(name) == Some("Force full handling of double-width characters for large files."@),
        name == "quote_char"@ ==> help_text(name) == Some("Quote character."@),
        name == "format"@ ==> help_text(name) == Some("Input format. Automatic selection uses the filename and bounded content probing."@),
        name == "json_path"@ ==> help_text(name) == Some("RFC 6901 JSON Pointer selecting the table within each JSON document."@),
        name == "object_mode"@ ==> help_text(name) == Some("Interpret a selected structured object as auto-detected, one record, or keyed entries."@),
        name == "schema_scan"@ ==> help_text(name) == Some("JSON schema discovery policy."@),
        name == "table"@ ==> help_text(name) == Some("Source-native relation or target to open."@),
        name == "query"@ ==> help_text(name) == Some("Complete native query in the language selected by the source format."@),
        name == "view"@ ==> help_text(name) == Some("Force a saved view by canonical name."@),
        name == "no_view"@ ==> help_text(name) == Some("Disable saved view discovery and application for this invocation."@),
        name == "extra"@ ==> help_text(name) == Some("Extra positional arguments, including classic +y:x start positions."@),
        help_text(name) is Some ==> name == "filename"@ || name == "interactive"@ || name == "output"@ || name == "sorted"@ || name == "top_lines"@ || name == "color"@ || name == "encoding"@ || name == "delimiter"@ || name == "quoting"@ || name == "start_pos"@ || name == "width"@ || name == "double_width"@ || name == "quote_char"@ || name == "format"@ || name == "json_path"@ || name == "object_mode"@ || name == "schema_scan"@ || name == "table"@ || name == "query"@ || name == "view"@ || name == "no_view"@ || name == "extra"@,
{
    reveal_strlit("filename");
    reveal_strlit("interactive");
    reveal_strlit("output");
    reveal_strlit("sorted");
    reveal_strlit("top_lines");
    reveal_strlit("color");
    reveal_strlit("encoding");
    reveal_strlit("delimiter");
    reveal_strlit("quoting");
    reveal_strlit("start_pos");
    reveal_strlit("width");
    reveal_strlit("double_width");
    reveal_strlit("quote_char");
    reveal_strlit("format");
    reveal_strlit("json_path");
    reveal_strlit("object_mode");
    reveal_strlit("schema_scan");
    reveal_strlit("table");
    reveal_strlit("query");
    reveal_strlit("view");
    reveal_strlit("no_view");
    reveal_strlit("extra");
    assert("filename"@.len() == 8);
    assert("interactive"@.len() == 11);
    assert("output"@.len() == 6);
    assert("sorted"@.len() == 6);
    assert("top_lines"@.len() == 9);
    assert("color"@.len() == 5);
    assert("encoding"@.len() == 8);
    assert("delimiter"@.len() == 9);
    assert("quoting"@.len() == 7);
    assert("start_pos"@.len() == 9);
    assert("width"@.len() == 5);
    assert("double_width"@.len() == 12);
    assert("quote_char"@.len() == 10);
    assert("format"@.len() == 6);
    assert("json_path"@.len() == 9);
    assert("object_mode"@.len() == 11);
    assert("schema_scan"@.len() == 11);
    assert("table"@.len() == 5);
    assert("query"@.len() == 5);
    assert("view"@.len() == 4);
    assert("no_view"@.len() == 7);
    assert("extra"@.len() == 5);
    assert("output"@[0] != "sorted"@[0]);
    assert("filename"@[0] != "encoding"@[0]);
    assert("top_lines"@[0] != "delimiter"@[0]);
    assert("top_lines"@[0] != "start_pos"@[0]);
    assert("delimiter"@[0] != "start_pos"@[0]);
    assert("color"@[0] != "width"@[0]);
    assert("output"@[0] != "format"@[0]);
    assert("sorted"@[0] != "format"@[0]);
    assert("top_lines"@[0] != "json_path"@[0]);
    assert("delimiter"@[0] != "json_path"@[0]);
    assert("start_pos"@[0] != "json_path"@[0]);
    assert("interactive"@[0] != "object_mode"@[0]);
    assert("interactive"@[0] != "schema_scan"@[0]);
    assert("object_mode"@[0] != "schema_scan"@[0]);
    assert("color"@[0] != "table"@[0]);
    assert("width"@[0] != "table"@[0]);
    assert("color"@[0] != "query"@[0]);
    assert("width"@[0] != "query"@[0]);
    assert("table"@[0] != "query"@[0]);
    assert("quoting"@[0] != "no_view"@[0]);
    assert("color"@[0] != "extra"@[0]);
    assert("width"@[0] != "extra"@[0]);
    assert("table"@[0] != "extra"@[0]);
    assert("query"@[0] != "extra"@[0]);
}

} // verus!
