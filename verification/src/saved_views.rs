//! Saved views: what a view file may say, and how it is checked.

use vstd::prelude::*;

use crate::options::{
    self, InputFormat, JsonPointer, ObjectMode, OpenOptions, SchemaScan, SourceFilterRequest,
    SourceOptionOverrides, SourceSortRequest,
};
use crate::patterns::{
    self, FilenamePattern, FilenamePatternKind, PatternModel, check_regex,
    classify_filename_pattern, is_wildcard_pattern, validate_glob_pattern,
};
use crate::saved_colors::{
    self, Checked, ConditionalColorRule, RawColorRule, RuleModel, SavedViewWarning, WarningModel,
    YamlModel, YamlValue, blank, validate_color_rule, warn,
};
use crate::source::{self, extension_of, file_stem_of, join_path};
use crate::table::{NullPlacement, OperandModel, RowLimit, SourceOperand};
use crate::text::{self, chars_of, concat2, concat3, decimal_of_usize, digit, same, strip_prefix};

verus! {

/// How many sort keys a view has at most.
pub const MAX_SORT_KEYS: usize = 3;

// ---------------------------------------------------------------------------
// Names
// ---------------------------------------------------------------------------

/// The name of a view without the extension of a view file.
pub open spec fn view_name(name: Seq<char>) -> Seq<char> {
    match source::extension(name) {
        Some(e) => if e == "yml"@ || e == "yaml"@ {
            match source::file_stem(name) {
                Some(stem) => stem,
                None => name,
            }
        } else {
            name
        },
        None => name,
    }
}

/// The name of a view without the extension of a view file.
pub fn normalize_view_name(name: &str) -> (r: String)
    ensures
        r@ == view_name(name@),
{
    match extension_of(name) {
        Some(e) => if same(&e, "yml") || same(&e, "yaml") {
            match file_stem_of(name) {
                Some(stem) => stem,
                None => name.to_owned(),
            }
        } else {
            name.to_owned()
        },
        None => name.to_owned(),
    }
}

/// The directory for configuration: the one that is set, unless it is set to
/// nothing, or else the usual one in the home directory.
pub open spec fn config_dir(config_home: Option<Seq<char>>, home: Option<Seq<char>>) -> Option<
    Seq<char>,
> {
    if config_home is Some && config_home->0.len() > 0 {
        config_home
    } else {
        match home {
            Some(home) => Some(source::path_below(home, ".config"@)),
            None => None,
        }
    }
}

/// The directory for configuration, by the variables `XDG_CONFIG_HOME` and `HOME`.
pub fn posix_config_dir(config_home: &Option<String>, home: &Option<String>) -> (r: Option<String>)
    ensures
        text::opt_view(r) == config_dir(text::opt_view(*config_home), text::opt_view(*home)),
{
    if let Some(dir) = config_home {
        if !dir.as_str().is_empty() {
            return Some(dir.clone());
        }
    }
    match home {
        Some(home) => Some(join_path(home, ".config")),
        None => None,
    }
}

/// The directory of saved views below a directory for configuration.
pub fn saved_view_dir(config_root: &Option<String>) -> (r: Option<String>)
    ensures
        text::opt_view(r) == match *config_root {
            Some(root) => Some(source::path_below(root@, "tview/views"@)),
            None => None,
        },
{
    match config_root {
        Some(root) => Some(join_path(root, "tview/views")),
        None => None,
    }
}

// ---------------------------------------------------------------------------
// Words of view files
// ---------------------------------------------------------------------------

/// The kinds of text.
#[derive(Debug, Clone, Copy, PartialEq, Eq, Structural)]
pub enum StringKind {
    Text,
    Date,
    Ip,
}

/// The kinds of numbers.
#[derive(Debug, Clone, Copy, PartialEq, Eq, Structural)]
pub enum NumberKind {
    Float,
    Int,
    SemVer,
}

/// The ways truth is written.
#[derive(Debug, Clone, Copy, PartialEq, Eq, Structural)]
pub enum BooleanKind {
    Char,
    Bit,
    Word,
}

/// The type of a column.
#[derive(Debug, Clone, Copy, PartialEq, Eq, Structural)]
pub enum ColumnType {
    String(StringKind),
    Number(NumberKind),
    Boolean(BooleanKind),
}

/// How the values of a column are shown.
#[derive(Debug, Clone, Copy, PartialEq, Eq, Structural)]
pub enum DisplayFormat {
    Plain,
    Locale,
    Mask,
    Uppercase,
    Lowercase,
    Char,
    Bit,
    Word,
}

/// How wide a column is.
#[derive(Debug, Clone, Copy, PartialEq, Eq, Structural)]
pub enum ColumnWidth {
    Fixed(u16),
    Header,
    Content,
    Mode,
    Max,
}

/// To which side values are aligned.
#[derive(Debug, Clone, Copy, PartialEq, Eq, Structural)]
pub enum ColumnAlign {
    Left,
    Right,
}

/// Which way rows are sorted.
#[derive(Debug, Clone, Copy, PartialEq, Eq, Structural)]
pub enum SortDirection {
    Asc,
    Desc,
}

/// How values are compared for sorting.
#[derive(Debug, Clone, Copy, PartialEq, Eq, Structural)]
pub enum SortKind {
    Lexical,
    Natural,
    Numeric,
    Type,
}

/// Whether a filter keeps rows in or out.
#[derive(Debug, Clone, Copy, PartialEq, Eq, Structural)]
pub enum FilterAction {
    In,
    Out,
}

/// How a filter compares.
#[derive(Debug, Clone, Copy, PartialEq, Eq, Structural)]
pub enum FilterKind {
    Text,
    Regex,
    Numeric,
}

/// How a source filter compares.
#[derive(Debug, Clone, Copy, PartialEq, Eq, Structural)]
pub enum SourceFilterOperator {
    Equal,
    NotEqual,
    LessThan,
    LessOrEqual,
    GreaterThan,
    GreaterOrEqual,
    Contains,
    Prefix,
    IsNull,
    IsNotNull,
}

/// The column type of a name.
pub open spec fn type_named(value: Seq<char>) -> Option<ColumnType> {
    if value == "string"@ || value == "text"@ {
        Some(ColumnType::String(StringKind::Text))
    } else if value == "date"@ {
        Some(ColumnType::String(StringKind::Date))
    } else if value == "ip"@ {
        Some(ColumnType::String(StringKind::Ip))
    } else if value == "number"@ || value == "float"@ {
        Some(ColumnType::Number(NumberKind::Float))
    } else if value == "integer"@ {
        Some(ColumnType::Number(NumberKind::Int))
    } else if value == "semver"@ {
        Some(ColumnType::Number(NumberKind::SemVer))
    } else if value == "boolean"@ || value == "word"@ {
        Some(ColumnType::Boolean(BooleanKind::Word))
    } else if value == "char"@ {
        Some(ColumnType::Boolean(BooleanKind::Char))
    } else if value == "bit"@ {
        Some(ColumnType::Boolean(BooleanKind::Bit))
    } else {
        None
    }
}

/// The column type of a name.
pub fn parse_column_type(value: &str) -> (r: Option<ColumnType>)
    ensures
        r == type_named(value@),
{
    if same(value, "string") || same(value, "text") {
        Some(ColumnType::String(StringKind::Text))
    } else if same(value, "date") {
        Some(ColumnType::String(StringKind::Date))
    } else if same(value, "ip") {
        Some(ColumnType::String(StringKind::Ip))
    } else if same(value, "number") || same(value, "float") {
        Some(ColumnType::Number(NumberKind::Float))
    } else if same(value, "integer") {
        Some(ColumnType::Number(NumberKind::Int))
    } else if same(value, "semver") {
        Some(ColumnType::Number(NumberKind::SemVer))
    } else if same(value, "boolean") || same(value, "word") {
        Some(ColumnType::Boolean(BooleanKind::Word))
    } else if same(value, "char") {
        Some(ColumnType::Boolean(BooleanKind::Char))
    } else if same(value, "bit") {
        Some(ColumnType::Boolean(BooleanKind::Bit))
    } else {
        None
    }
}

/// The format of a name.
pub open spec fn format_named(value: Seq<char>) -> Option<DisplayFormat> {
    if value == "plain"@ {
        Some(DisplayFormat::Plain)
    } else if value == "locale"@ {
        Some(DisplayFormat::Locale)
    } else if value == "mask"@ {
        Some(DisplayFormat::Mask)
    } else if value == "uppercase"@ {
        Some(DisplayFormat::Uppercase)
    } else if value == "lowercase"@ {
        Some(DisplayFormat::Lowercase)
    } else if value == "char"@ {
        Some(DisplayFormat::Char)
    } else if value == "bit"@ {
        Some(DisplayFormat::Bit)
    } else if value == "word"@ {
        Some(DisplayFormat::Word)
    } else {
        None
    }
}

/// The format of a name.
pub fn parse_display_format(value: &str) -> (r: Option<DisplayFormat>)
    ensures
        r == format_named(value@),
{
    if same(value, "plain") {
        Some(DisplayFormat::Plain)
    } else if same(value, "locale") {
        Some(DisplayFormat::Locale)
    } else if same(value, "mask") {
        Some(DisplayFormat::Mask)
    } else if same(value, "uppercase") {
        Some(DisplayFormat::Uppercase)
    } else if same(value, "lowercase") {
        Some(DisplayFormat::Lowercase)
    } else if same(value, "char") {
        Some(DisplayFormat::Char)
    } else if same(value, "bit") {
        Some(DisplayFormat::Bit)
    } else if same(value, "word") {
        Some(DisplayFormat::Word)
    } else {
        None
    }
}

/// The side of a name.
pub open spec fn align_named(value: Seq<char>) -> Option<ColumnAlign> {
    if value == "left"@ {
        Some(ColumnAlign::Left)
    } else if value == "right"@ {
        Some(ColumnAlign::Right)
    } else {
        None
    }
}

/// The side of a name.
pub fn parse_align(value: &str) -> (r: Option<ColumnAlign>)
    ensures
        r == align_named(value@),
{
    if same(value, "left") {
        Some(ColumnAlign::Left)
    } else if same(value, "right") {
        Some(ColumnAlign::Right)
    } else {
        None
    }
}

/// The place of missing values of a name.
pub open spec fn placement_named(value: Seq<char>) -> Option<NullPlacement> {
    if value == "first"@ {
        Some(NullPlacement::First)
    } else if value == "last"@ {
        Some(NullPlacement::Last)
    } else {
        None
    }
}

/// The place of missing values of a name.
pub fn parse_null_placement(value: &str) -> (r: Option<NullPlacement>)
    ensures
        r == placement_named(value@),
{
    if same(value, "first") {
        Some(NullPlacement::First)
    } else if same(value, "last") {
        Some(NullPlacement::Last)
    } else {
        None
    }
}

/// The direction of a name.
pub open spec fn direction_named(value: Seq<char>) -> Option<SortDirection> {
    if value == "asc"@ {
        Some(SortDirection::Asc)
    } else if value == "desc"@ {
        Some(SortDirection::Desc)
    } else {
        None
    }
}

/// The direction of a name.
pub fn parse_sort_direction(value: &str) -> (r: Option<SortDirection>)
    ensures
        r == direction_named(value@),
{
    if same(value, "asc") {
        Some(SortDirection::Asc)
    } else if same(value, "desc") {
        Some(SortDirection::Desc)
    } else {
        None
    }
}

/// The operator of a name.
pub open spec fn operator_named(value: Seq<char>) -> Option<SourceFilterOperator> {
    if value == "equal"@ {
        Some(SourceFilterOperator::Equal)
    } else if value == "not_equal"@ {
        Some(SourceFilterOperator::NotEqual)
    } else if value == "less_than"@ {
        Some(SourceFilterOperator::LessThan)
    } else if value == "less_or_equal"@ {
        Some(SourceFilterOperator::LessOrEqual)
    } else if value == "greater_than"@ {
        Some(SourceFilterOperator::GreaterThan)
    } else if value == "greater_or_equal"@ {
        Some(SourceFilterOperator::GreaterOrEqual)
    } else if value == "contains"@ {
        Some(SourceFilterOperator::Contains)
    } else if value == "prefix"@ {
        Some(SourceFilterOperator::Prefix)
    } else if value == "is_null"@ {
        Some(SourceFilterOperator::IsNull)
    } else if value == "is_not_null"@ {
        Some(SourceFilterOperator::IsNotNull)
    } else {
        None
    }
}

/// The operator of a name.
pub fn parse_source_filter_operator(value: &str) -> (r: Option<SourceFilterOperator>)
    ensures
        r == operator_named(value@),
{
    if same(value, "equal") {
        Some(SourceFilterOperator::Equal)
    } else if same(value, "not_equal") {
        Some(SourceFilterOperator::NotEqual)
    } else if same(value, "less_than") {
        Some(SourceFilterOperator::LessThan)
    } else if same(value, "less_or_equal") {
        Some(SourceFilterOperator::LessOrEqual)
    } else if same(value, "greater_than") {
        Some(SourceFilterOperator::GreaterThan)
    } else if same(value, "greater_or_equal") {
        Some(SourceFilterOperator::GreaterOrEqual)
    } else if same(value, "contains") {
        Some(SourceFilterOperator::Contains)
    } else if same(value, "prefix") {
        Some(SourceFilterOperator::Prefix)
    } else if same(value, "is_null") {
        Some(SourceFilterOperator::IsNull)
    } else if same(value, "is_not_null") {
        Some(SourceFilterOperator::IsNotNull)
    } else {
        None
    }
}

/// The kind of sorting of a name.
pub open spec fn sort_kind_named(value: Seq<char>) -> Option<SortKind> {
    if value == "lexical"@ {
        Some(SortKind::Lexical)
    } else if value == "natural"@ {
        Some(SortKind::Natural)
    } else if value == "numeric"@ {
        Some(SortKind::Numeric)
    } else if value == "type"@ {
        Some(SortKind::Type)
    } else {
        None
    }
}

/// The kind of sorting of a name.
pub fn parse_sort_kind(value: &str) -> (r: Option<SortKind>)
    ensures
        r == sort_kind_named(value@),
{
    if same(value, "lexical") {
        Some(SortKind::Lexical)
    } else if same(value, "natural") {
        Some(SortKind::Natural)
    } else if same(value, "numeric") {
        Some(SortKind::Numeric)
    } else if same(value, "type") {
        Some(SortKind::Type)
    } else {
        None
    }
}

/// The action of a name.
pub open spec fn action_named(value: Seq<char>) -> Option<FilterAction> {
    if value == "in"@ {
        Some(FilterAction::In)
    } else if value == "out"@ {
        Some(FilterAction::Out)
    } else {
        None
    }
}

/// The action of a name.
pub fn parse_filter_action(value: &str) -> (r: Option<FilterAction>)
    ensures
        r == action_named(value@),
{
    if same(value, "in") {
        Some(FilterAction::In)
    } else if same(value, "out") {
        Some(FilterAction::Out)
    } else {
        None
    }
}

/// The kind of filter of a name.
pub open spec fn filter_kind_named(value: Seq<char>) -> Option<FilterKind> {
    if value == "text"@ {
        Some(FilterKind::Text)
    } else if value == "regex"@ {
        Some(FilterKind::Regex)
    } else if value == "numeric"@ {
        Some(FilterKind::Numeric)
    } else {
        None
    }
}

/// The kind of filter of a name.
pub fn parse_filter_kind(value: &str) -> (r: Option<FilterKind>)
    ensures
        r == filter_kind_named(value@),
{
    if same(value, "text") {
        Some(FilterKind::Text)
    } else if same(value, "regex") {
        Some(FilterKind::Regex)
    } else if same(value, "numeric") {
        Some(FilterKind::Numeric)
    } else {
        None
    }
}

/// How numbers are shown by a mask.
#[derive(Debug, PartialEq, Eq)]
pub struct NumberMask {
    pub raw: String,
    pub grouped: bool,
    pub decimal_places: usize,
}

/// The model of a mask.
pub struct MaskModel {
    pub raw: Seq<char>,
    pub grouped: bool,
    pub decimal_places: nat,
}

impl View for NumberMask {
    type V = MaskModel;

    open spec fn view(&self) -> MaskModel {
        MaskModel {
            raw: self.raw@,
            grouped: self.grouped,
            decimal_places: self.decimal_places as nat,
        }
    }
}

impl Clone for NumberMask {
    fn clone(&self) -> (r: Self)
        ensures
            r@ == self@,
    {
        NumberMask {
            raw: self.raw.clone(),
            grouped: self.grouped,
            decimal_places: self.decimal_places,
        }
    }
}

/// Whether a text is all zeros.
pub open spec fn all_zeros(s: Seq<char>) -> bool {
    forall|i: int| 0 <= i < s.len() ==> #[trigger] s[i] == '0'
}

/// What a mask denotes: `0`, optionally grouped by `#,##` before it, and optionally
/// with decimal places behind a point.
pub open spec fn mask_named(value: Seq<char>) -> Result<MaskModel, Seq<char>> {
    let grouped = text::has_prefix(value, "#,##"@);
    let rest = if grouped {
        value.skip(4)
    } else {
        value
    };
    if !text::has_prefix(rest, "0"@) {
        Err("mask must contain a required 0 digit"@)
    } else {
        let decimal = rest.skip(1);
        if decimal.len() == 0 {
            Ok(MaskModel { raw: value, grouped, decimal_places: 0 })
        } else if text::has_prefix(decimal, "."@) {
            let places = decimal.skip(1);
            if places.len() == 0 || !all_zeros(places) {
                Err("decimal mask must use one or more 0 placeholders"@)
            } else {
                Ok(MaskModel { raw: value, grouped, decimal_places: places.len() })
            }
        } else {
            Err("unsupported mask syntax"@)
        }
    }
}

/// What a mask denotes.
pub fn parse_number_mask(value: &str) -> (r: Result<NumberMask, &'static str>)
    ensures
        match (r, mask_named(value@)) {
            (Ok(mask), Ok(m)) => mask@ == m,
            (Err(message), Err(m)) => message@ == m,
            _ => false,
        },
{
    proof {
        reveal_strlit("#,##");
        reveal_strlit("0");
        reveal_strlit(".");
    }
    let (grouped, rest) = match strip_prefix(value, "#,##") {
        Some(rest) => (true, rest),
        None => (false, value.to_owned()),
    };
    let decimal = match strip_prefix(&rest, "0") {
        Some(decimal) => decimal,
        None => {
            return Err("mask must contain a required 0 digit");
        },
    };
    if decimal.as_str().is_empty() {
        return Ok(NumberMask { raw: value.to_owned(), grouped, decimal_places: 0 });
    }
    match strip_prefix(&decimal, ".") {
        None => Err("unsupported mask syntax"),
        Some(places) => {
            let v = chars_of(&places);
            let mut i: usize = 0;
            while i < v.len()
                invariant
                    i <= v@.len(),
                    v@ == places@,
                    text::has_prefix(value@, "#,##"@) == grouped,
                    grouped ==> rest@ == value@.skip(4),
                    !grouped ==> rest@ == value@,
                    text::has_prefix(rest@, "0"@),
                    decimal@ == rest@.skip(1),
                    decimal@.len() > 0,
                    text::has_prefix(decimal@, "."@),
                    places@ == decimal@.skip(1),
                    forall|k: int| 0 <= k < i ==> #[trigger] v@[k] == '0',
                decreases v@.len() - i,
            {
                if v[i] != '0' {
                    assert(places@[i as int] != '0');
                    return Err("decimal mask must use one or more 0 placeholders");
                }
                i = i + 1;
            }
            if v.len() == 0 {
                return Err("decimal mask must use one or more 0 placeholders");
            }
            Ok(NumberMask { raw: value.to_owned(), grouped, decimal_places: v.len() })
        },
    }
}

/// A width, as written.
#[derive(Debug, PartialEq, Eq)]
pub enum RawColumnWidth {
    Fixed(u16),
    Mode(String),
}

/// What a width denotes.
pub open spec fn width_named(value: RawColumnWidth) -> Result<ColumnWidth, Seq<char>> {
    match value {
        RawColumnWidth::Fixed(n) => if n > 0 {
            Ok(ColumnWidth::Fixed(n))
        } else {
            Err("fixed width must be greater than zero"@)
        },
        RawColumnWidth::Mode(name) => if name@ == "header"@ {
            Ok(ColumnWidth::Header)
        } else if name@ == "content"@ {
            Ok(ColumnWidth::Content)
        } else if name@ == "mode"@ {
            Ok(ColumnWidth::Mode)
        } else if name@ == "max"@ {
            Ok(ColumnWidth::Max)
        } else {
            Err("unknown width '"@ + name@ + "'"@)
        },
    }
}

/// What a width denotes.
pub fn parse_width(value: &RawColumnWidth) -> (r: Result<ColumnWidth, String>)
    ensures
        match (r, width_named(*value)) {
            (Ok(width), Ok(m)) => width == m,
            (Err(message), Err(m)) => message@ == m,
            _ => false,
        },
{
    match value {
        RawColumnWidth::Fixed(n) => if *n > 0 {
            Ok(ColumnWidth::Fixed(*n))
        } else {
            Err("fixed width must be greater than zero".to_owned())
        },
        RawColumnWidth::Mode(name) => if same(name, "header") {
            Ok(ColumnWidth::Header)
        } else if same(name, "content") {
            Ok(ColumnWidth::Content)
        } else if same(name, "mode") {
            Ok(ColumnWidth::Mode)
        } else if same(name, "max") {
            Ok(ColumnWidth::Max)
        } else {
            Err(concat3("unknown width '", name, "'"))
        },
    }
}

/// Whether a character is an ASCII letter.
pub open spec fn is_letter(c: char) -> bool {
    'a' <= c <= 'z' || 'A' <= c <= 'Z'
}

/// Whether a text looks like a locale: a letter, then letters, digits and some
/// marks.
pub open spec fn is_locale(value: Seq<char>) -> bool {
    &&& value.len() > 0
    &&& is_letter(value[0])
    &&& forall|i: int|
        1 <= i < value.len() ==> is_letter(#[trigger] value[i]) || text::is_digit(value[i]) || value[i]
            == '_' || value[i] == '.' || value[i] == '-' || value[i] == '@'
}

fn letter(c: char) -> (r: bool)
    ensures
        r == is_letter(c),
{
    ('a' <= c && c <= 'z') || ('A' <= c && c <= 'Z')
}

/// Whether a text looks like a locale.
pub fn is_posix_locale(value: &str) -> (r: bool)
    ensures
        r == is_locale(value@),
{
    let v = chars_of(value);
    if v.len() == 0 || !letter(v[0]) {
        return false;
    }
    let mut i: usize = 1;
    while i < v.len()
        invariant
            1 <= i <= v@.len(),
            v@ == value@,
            forall|k: int|
                1 <= k < i ==> is_letter(#[trigger] value@[k]) || text::is_digit(value@[k]) || value@[k]
                    == '_' || value@[k] == '.' || value@[k] == '-' || value@[k] == '@',
        decreases v@.len() - i,
    {
        let c: char = v[i];
        if !(letter(c) || digit(c) || c == '_' || c == '.' || c == '-' || c == '@') {
            assert(value@[i as int] == c);
            return false;
        }
        i = i + 1;
    }
    true
}

// ---------------------------------------------------------------------------
// Views as they are written
// ---------------------------------------------------------------------------

/// A column, as written.
#[derive(Debug, PartialEq, Eq)]
pub struct RawColumnView {
    pub label: Option<String>,
    pub nulls: Option<String>,
    pub column_type: Option<String>,
    pub format: Option<String>,
    pub mask: Option<String>,
    pub width: Option<RawColumnWidth>,
    pub align: Option<String>,
    pub visible: Option<bool>,
    pub colors: Vec<RawColorRule>,
}

/// A sort key, as written.
#[derive(Debug, PartialEq, Eq)]
pub struct RawSortKey {
    pub column: String,
    pub direction: String,
    pub kind: String,
}

/// A filter, as written.
#[derive(Debug, PartialEq, Eq)]
pub struct RawSavedFilter {
    pub column: String,
    pub action: String,
    pub kind: String,
    pub condition: String,
}

/// A source filter, as written; a value that is written as null is there.
#[derive(Debug, PartialEq, Eq)]
pub struct RawSavedSourceFilter {
    pub column: String,
    pub operator: String,
    pub value: Option<YamlValue>,
}

/// A source sort key, as written.
#[derive(Debug, PartialEq, Eq)]
pub struct RawSavedSourceSort {
    pub column: String,
    pub direction: String,
}

/// What is said of a source, as written.
#[derive(Debug, PartialEq, Eq)]
pub struct RawSavedSourceConfig {
    pub format: Option<String>,
    pub json_path: Option<String>,
    pub object_mode: Option<String>,
    pub schema_scan: Option<String>,
    pub table: Option<String>,
    pub query: Option<String>,
    pub limit: Option<usize>,
    pub filters: Vec<RawSavedSourceFilter>,
    pub sort: Vec<RawSavedSourceSort>,
}

/// What is said of the view itself, as written; the columns in the order of their
/// keys.
#[derive(Debug, PartialEq, Eq)]
pub struct RawSavedViewConfig {
    pub locale: Option<String>,
    pub nulls: Option<String>,
    pub columns: Vec<(String, RawColumnView)>,
    pub sort: Vec<RawSortKey>,
    pub filters: Vec<RawSavedFilter>,
}

/// The keys of some columns.
pub open spec fn column_keys<T>(columns: Seq<(String, T)>) -> Seq<Seq<char>> {
    Seq::new(columns.len(), |i: int| columns[i].0@)
}

/// Whether keys ascend, so that none comes twice.
pub open spec fn keys_ascend(keys: Seq<Seq<char>>) -> bool {
    forall|i: int, j: int|
        0 <= i < j < keys.len() ==> text::text_before(#[trigger] keys[i], #[trigger] keys[j])
}

/// Keys that ascend are distinct.
pub proof fn ascending_keys_are_distinct(keys: Seq<Seq<char>>)
    requires
        keys_ascend(keys),
    ensures
        keys.no_duplicates(),
{
    assert forall|i: int, j: int| 0 <= i < keys.len() && 0 <= j < keys.len() && i != j implies keys[i]
        != keys[j] by {
        text::text_order(keys[i], keys[j], keys[j]);
        text::text_order(keys[j], keys[i], keys[i]);
    }
}

impl RawSavedViewConfig {
    /// The keys of the columns ascend.
    pub open spec fn well_formed(self) -> bool {
        keys_ascend(column_keys(self.columns@))
    }
}

/// A view, as written.
#[derive(Debug, PartialEq, Eq)]
pub struct RawSavedView {
    pub name: String,
    pub filenames: Vec<String>,
    pub source: RawSavedSourceConfig,
    pub view: RawSavedViewConfig,
}

// ---------------------------------------------------------------------------
// Views
// ---------------------------------------------------------------------------

/// What a source filter compares with. A floating-point number is kept as its
/// numeral.
#[derive(Debug, PartialEq, Eq)]
pub enum SourceFilterValue {
    Boolean(bool),
    Integer(i64),
    Float(String),
    Text(String),
}

impl View for SourceFilterValue {
    type V = OperandModel;

    open spec fn view(&self) -> OperandModel {
        match self {
            SourceFilterValue::Boolean(b) => OperandModel::Boolean(*b),
            SourceFilterValue::Integer(n) => OperandModel::Integer(*n),
            SourceFilterValue::Float(s) => OperandModel::Float(s@),
            SourceFilterValue::Text(s) => OperandModel::Text(s@),
        }
    }
}

/// A filter that a source applies.
#[derive(Debug, PartialEq, Eq)]
pub struct SavedSourceFilter {
    pub column: String,
    pub operator: SourceFilterOperator,
    pub value: Option<SourceFilterValue>,
}

/// The model of a source filter.
pub struct SavedSourceFilterModel {
    pub column: Seq<char>,
    pub operator: SourceFilterOperator,
    pub value: Option<OperandModel>,
}

impl View for SavedSourceFilter {
    type V = SavedSourceFilterModel;

    open spec fn view(&self) -> SavedSourceFilterModel {
        SavedSourceFilterModel {
            column: self.column@,
            operator: self.operator,
            value: match self.value {
                Some(value) => Some(value@),
                None => None,
            },
        }
    }
}

/// An order that a source applies.
#[derive(Debug, PartialEq, Eq)]
pub struct SavedSourceSort {
    pub column: String,
    pub direction: SortDirection,
}

/// The model of a source order.
pub struct SavedSourceSortModel {
    pub column: Seq<char>,
    pub direction: SortDirection,
}

impl View for SavedSourceSort {
    type V = SavedSourceSortModel;

    open spec fn view(&self) -> SavedSourceSortModel {
        SavedSourceSortModel { column: self.column@, direction: self.direction }
    }
}

/// A key that rows are sorted by.
#[derive(Debug, PartialEq, Eq)]
pub struct SortKey {
    pub column: String,
    pub direction: SortDirection,
    pub kind: SortKind,
}

/// The model of a sort key.
pub struct SortKeyModel {
    pub column: Seq<char>,
    pub direction: SortDirection,
    pub kind: SortKind,
}

impl View for SortKey {
    type V = SortKeyModel;

    open spec fn view(&self) -> SortKeyModel {
        SortKeyModel { column: self.column@, direction: self.direction, kind: self.kind }
    }
}

impl Clone for SortKey {
    fn clone(&self) -> (r: Self)
        ensures
            r@ == self@,
    {
        SortKey { column: self.column.clone(), direction: self.direction, kind: self.kind }
    }
}

/// A filter on the rows of a view.
#[derive(Debug, PartialEq, Eq)]
pub struct SavedFilter {
    pub column: String,
    pub action: FilterAction,
    pub kind: FilterKind,
    pub condition: String,
}

/// The model of a filter.
pub struct SavedFilterModel {
    pub column: Seq<char>,
    pub action: FilterAction,
    pub kind: FilterKind,
    pub condition: Seq<char>,
}

impl View for SavedFilter {
    type V = SavedFilterModel;

    open spec fn view(&self) -> SavedFilterModel {
        SavedFilterModel {
            column: self.column@,
            action: self.action,
            kind: self.kind,
            condition: self.condition@,
        }
    }
}

impl Clone for SavedFilter {
    fn clone(&self) -> (r: Self)
        ensures
            r@ == self@,
    {
        SavedFilter {
            column: self.column.clone(),
            action: self.action,
            kind: self.kind,
            condition: self.condition.clone(),
        }
    }
}

/// How a column is shown.
#[derive(Debug, PartialEq, Eq)]
pub struct ColumnView {
    pub label: Option<String>,
    pub nulls: Option<NullPlacement>,
    pub column_type: Option<ColumnType>,
    pub format: Option<DisplayFormat>,
    pub mask: Option<NumberMask>,
    pub width: Option<ColumnWidth>,
    pub align: Option<ColumnAlign>,
    pub visible: Option<bool>,
    pub colors: Vec<ConditionalColorRule>,
}

/// The model of how a column is shown.
pub struct ColumnViewModel {
    pub label: Option<Seq<char>>,
    pub nulls: Option<NullPlacement>,
    pub column_type: Option<ColumnType>,
    pub format: Option<DisplayFormat>,
    pub mask: Option<MaskModel>,
    pub width: Option<ColumnWidth>,
    pub align: Option<ColumnAlign>,
    pub visible: Option<bool>,
    pub colors: Seq<RuleModel>,
}

/// The model of an optional mask.
pub open spec fn mask_view(mask: Option<NumberMask>) -> Option<MaskModel> {
    match mask {
        Some(mask) => Some(mask@),
        None => None,
    }
}

impl View for ColumnView {
    type V = ColumnViewModel;

    open spec fn view(&self) -> ColumnViewModel {
        ColumnViewModel {
            label: text::opt_view(self.label),
            nulls: self.nulls,
            column_type: self.column_type,
            format: self.format,
            mask: mask_view(self.mask),
            width: self.width,
            align: self.align,
            visible: self.visible,
            colors: saved_colors::rule_views(self.colors@),
        }
    }
}

impl Clone for ColumnView {
    fn clone(&self) -> (r: Self)
        ensures
            r@ == self@,
    {
        let colors = self.colors.clone();
        assert(saved_colors::rule_views(colors@) =~= saved_colors::rule_views(self.colors@));
        ColumnView {
            label: self.label.clone(),
            nulls: self.nulls,
            column_type: self.column_type,
            format: self.format,
            mask: match &self.mask {
                Some(mask) => Some(mask.clone()),
                None => None,
            },
            width: self.width,
            align: self.align,
            visible: self.visible,
            colors,
        }
    }
}

impl Default for ColumnView {
    fn default() -> (r: Self)
        ensures
            r.label is None,
            r.nulls is None,
            r.column_type is None,
            r.format is None,
            r.mask is None,
            r.width is None,
            r.align is None,
            r.visible is None,
            r.colors@.len() == 0,
    {
        ColumnView {
            label: None,
            nulls: None,
            column_type: None,
            format: None,
            mask: None,
            width: None,
            align: None,
            visible: None,
            colors: Vec::new(),
        }
    }
}

/// What a view says of its source.
#[derive(Debug, PartialEq)]
pub struct SavedSourceConfig {
    pub format: Option<InputFormat>,
    pub json_path: Option<JsonPointer>,
    pub object_mode: Option<ObjectMode>,
    pub schema_scan: Option<SchemaScan>,
    pub table: Option<String>,
    pub query: Option<String>,
    pub limit: Option<usize>,
    pub filters: Vec<SavedSourceFilter>,
    pub sort: Vec<SavedSourceSort>,
}

/// What a view says of how rows are shown; the columns in the order of their keys.
#[derive(Debug, PartialEq, Eq)]
pub struct SavedViewConfig {
    pub locale: Option<String>,
    pub nulls: Option<NullPlacement>,
    pub columns: Vec<(String, ColumnView)>,
    pub sort: Vec<SortKey>,
    pub filters: Vec<SavedFilter>,
}

impl SavedViewConfig {
    /// The keys of the columns ascend.
    pub open spec fn well_formed(self) -> bool {
        keys_ascend(column_keys(self.columns@))
    }
}

/// A view that was checked.
#[derive(Debug, PartialEq)]
pub struct SavedView {
    pub name: String,
    pub filenames: Vec<FilenamePattern>,
    pub source: SavedSourceConfig,
    pub view: SavedViewConfig,
}

/// A view that was checked, and what is wrong with what was written.
#[derive(Debug, PartialEq)]
pub struct ValidatedSavedView {
    pub view: SavedView,
    pub warnings: Vec<SavedViewWarning>,
}

/// The models of source filters.
pub open spec fn source_filter_views(v: Seq<SavedSourceFilter>) -> Seq<SavedSourceFilterModel> {
    Seq::new(v.len(), |i: int| v[i]@)
}

/// The models of source orders.
pub open spec fn source_sort_views(v: Seq<SavedSourceSort>) -> Seq<SavedSourceSortModel> {
    Seq::new(v.len(), |i: int| v[i]@)
}

/// The models of sort keys.
pub open spec fn sort_views(v: Seq<SortKey>) -> Seq<SortKeyModel> {
    Seq::new(v.len(), |i: int| v[i]@)
}

/// The models of filters.
pub open spec fn filter_views(v: Seq<SavedFilter>) -> Seq<SavedFilterModel> {
    Seq::new(v.len(), |i: int| v[i]@)
}

/// The models of columns with their keys.
pub open spec fn keyed_views(v: Seq<(String, ColumnView)>) -> Seq<(Seq<char>, ColumnViewModel)> {
    Seq::new(v.len(), |i: int| (v[i].0@, v[i].1@))
}

// ---------------------------------------------------------------------------
// Checking parts of views
// ---------------------------------------------------------------------------

/// A field that takes one of some names: `named` is what the text names.
pub open spec fn checked_name<T>(
    value: Option<String>,
    named: Option<T>,
    field: Seq<char>,
    before: Seq<char>,
    after: Seq<char>,
) -> Checked<Option<T>> {
    match value {
        None => Checked { value: None, warnings: saved_colors::silent() },
        Some(text) => match named {
            Some(value) => Checked { value: Some(value), warnings: saved_colors::silent() },
            None => Checked { value: None, warnings: saved_colors::warned(field, before + text@ + after) },
        },
    }
}

fn check_name<T>(
    value: &Option<String>,
    named: Option<T>,
    field: &str,
    before: &str,
    after: &str,
    warnings: &mut Vec<SavedViewWarning>,
) -> (r: Option<T>)
    ensures
        ({
            let checked = checked_name(*value, named, field@, before@, after@);
            &&& saved_colors::warning_views(final(warnings)@) == saved_colors::warning_views(old(warnings)@) + checked.warnings
            &&& r == checked.value
        }),
{
    proof {
        assert(saved_colors::warning_views(warnings@) + saved_colors::silent() =~= saved_colors::warning_views(warnings@));
    }
    match value {
        None => None,
        Some(text) => match named {
            Some(value) => Some(value),
            None => {
                warn(warnings, field, &concat3(before, text, after));
                None
            },
        },
    }
}

/// A pattern for file names.
pub open spec fn filename_checked(raw: String) -> Checked<Option<PatternModel>> {
    let pattern = PatternModel { raw: raw@, kind: patterns::pattern_kind(raw@) };
    if raw@.len() == 0 {
        Checked { value: None, warnings: saved_colors::warned("filenames"@, "empty filename pattern ignored"@) }
    } else {
        match patterns::pattern_kind(raw@) {
            FilenamePatternKind::Regex => match patterns::regex_fault(raw@) {
                Some(fault) => Checked {
                    value: None,
                    warnings: saved_colors::warned(
                        "filenames"@,
                        "invalid regex filename pattern '"@ + raw@ + "': "@ + fault,
                    ),
                },
                None => Checked { value: Some(pattern), warnings: saved_colors::silent() },
            },
            FilenamePatternKind::Glob => match patterns::bracket_fault(raw@, 0, false) {
                Some(fault) => Checked {
                    value: None,
                    warnings: saved_colors::warned(
                        "filenames"@,
                        "invalid glob filename pattern '"@ + raw@ + "': "@ + fault,
                    ),
                },
                None => Checked { value: Some(pattern), warnings: saved_colors::silent() },
            },
            FilenamePatternKind::Exact => Checked { value: Some(pattern), warnings: saved_colors::silent() },
        }
    }
}

/// Checks a pattern for file names.
pub fn validate_filename_pattern(raw: &String, warnings: &mut Vec<SavedViewWarning>) -> (r: Option<
    FilenamePattern,
>)
    ensures
        ({
            let checked = filename_checked(*raw);
            &&& saved_colors::warning_views(final(warnings)@) == saved_colors::warning_views(old(warnings)@) + checked.warnings
            &&& match (r, checked.value) {
                (Some(pattern), Some(m)) => pattern@ == m,
                (None, None) => true,
                _ => false,
            }
        }),
{
    proof {
        assert(saved_colors::warning_views(warnings@) + saved_colors::silent() =~= saved_colors::warning_views(warnings@));
    }
    if raw.as_str().is_empty() {
        warn(warnings, "filenames", "empty filename pattern ignored");
        return None;
    }
    let kind = classify_filename_pattern(raw);
    match kind {
        FilenamePatternKind::Regex => {
            if let Some(fault) = check_regex(raw) {
                let message = concat2(
                    &concat3("invalid regex filename pattern '", raw, "': "),
                    &fault,
                );
                warn(warnings, "filenames", &message);
                return None;
            }
        },
        FilenamePatternKind::Glob => {
            if let Err(fault) = validate_glob_pattern(raw) {
                let message = concat2(
                    &concat3("invalid glob filename pattern '", raw, "': "),
                    fault,
                );
                warn(warnings, "filenames", &message);
                return None;
            }
        },
        FilenamePatternKind::Exact => {},
    }
    Some(FilenamePattern { raw: raw.clone(), kind })
}

/// The good ones among the first `n` patterns.
pub open spec fn filenames_checked(raw: Seq<String>, n: int) -> Checked<Seq<PatternModel>>
    decreases n,
{
    if n <= 0 || n > raw.len() {
        Checked { value: Seq::empty(), warnings: saved_colors::silent() }
    } else {
        let before = filenames_checked(raw, n - 1);
        let checked = filename_checked(raw[n - 1]);
        Checked {
            value: match checked.value {
                Some(value) => before.value.push(value),
                None => before.value,
            },
            warnings: before.warnings + checked.warnings,
        }
    }
}

fn check_filenames(
    raw: &Vec<String>,
    count: usize,
    warnings: &mut Vec<SavedViewWarning>,
) -> (r: Vec<FilenamePattern>)
    requires
        count <= raw@.len(),
    ensures
        ({
            let checked = filenames_checked(raw@, count as int);
            &&& saved_colors::warning_views(final(warnings)@) == saved_colors::warning_views(old(warnings)@) + checked.warnings
            &&& patterns::pattern_views(r@) == checked.value
        }),
{
    let ghost start = saved_colors::warning_views(warnings@);
    let mut out: Vec<FilenamePattern> = Vec::new();
    let mut i: usize = 0;
    assert(patterns::pattern_views(out@) =~= Seq::<PatternModel>::empty());
    assert(start + saved_colors::silent() =~= start);
    while i < count
        invariant
            i <= count <= raw@.len(),
            saved_colors::warning_views(warnings@) == start + filenames_checked(raw@, i as int).warnings,
            patterns::pattern_views(out@) == filenames_checked(raw@, i as int).value,
        decreases count - i,
    {
        let ghost before = filenames_checked(raw@, i as int);
        let ghost checked = filename_checked(raw@[i as int]);
        match validate_filename_pattern(&raw[i], warnings) {
            None => {},
            Some(value) => {
                assert(patterns::pattern_views(out@.push(value)) =~= patterns::pattern_views(out@).push(value@));
                out.push(value);
            },
        }
        assert(saved_colors::warning_views(warnings@) =~= start + (before.warnings + checked.warnings));
        i = i + 1;
    }
    out
}

/// A sort key.
pub open spec fn sort_checked(raw: RawSortKey) -> Checked<Option<SortKeyModel>> {
    match direction_named(raw.direction@) {
        None => Checked {
            value: None,
            warnings: saved_colors::warned(
                "view.sort.direction"@,
                "unknown sort direction '"@ + raw.direction@ + "'"@,
            ),
        },
        Some(direction) => match sort_kind_named(raw.kind@) {
            None => Checked {
                value: None,
                warnings: saved_colors::warned("view.sort.kind"@, "unknown sort kind '"@ + raw.kind@ + "'"@),
            },
            Some(kind) => Checked {
                value: Some(SortKeyModel { column: raw.column@, direction, kind }),
                warnings: saved_colors::silent(),
            },
        },
    }
}

/// Checks a sort key.
pub fn validate_sort(raw: &RawSortKey, warnings: &mut Vec<SavedViewWarning>) -> (r: Option<SortKey>)
    ensures
        ({
            let checked = sort_checked(*raw);
            &&& saved_colors::warning_views(final(warnings)@) == saved_colors::warning_views(old(warnings)@) + checked.warnings
            &&& match (r, checked.value) {
                (Some(key), Some(m)) => key@ == m,
                (None, None) => true,
                _ => false,
            }
        }),
{
    proof {
        assert(saved_colors::warning_views(warnings@) + saved_colors::silent() =~= saved_colors::warning_views(warnings@));
    }
    let direction = match parse_sort_direction(&raw.direction) {
        Some(direction) => direction,
        None => {
            warn(
                warnings,
                "view.sort.direction",
                &concat3("unknown sort direction '", &raw.direction, "'"),
            );
            return None;
        },
    };
    match parse_sort_kind(&raw.kind) {
        Some(kind) => Some(SortKey { column: raw.column.clone(), direction, kind }),
        None => {
            warn(
                warnings,
                "view.sort.kind",
                &concat3("unknown sort kind '", &raw.kind, "'"),
            );
            None
        },
    }
}

/// The good ones among the first `n` sort keys.
pub open spec fn sorts_checked(raw: Seq<RawSortKey>, n: int) -> Checked<Seq<SortKeyModel>>
    decreases n,
{
    if n <= 0 || n > raw.len() {
        Checked { value: Seq::empty(), warnings: saved_colors::silent() }
    } else {
        let before = sorts_checked(raw, n - 1);
        let checked = sort_checked(raw[n - 1]);
        Checked {
            value: match checked.value {
                Some(value) => before.value.push(value),
                None => before.value,
            },
            warnings: before.warnings + checked.warnings,
        }
    }
}

fn check_sorts(
    raw: &Vec<RawSortKey>,
    count: usize,
    warnings: &mut Vec<SavedViewWarning>,
) -> (r: Vec<SortKey>)
    requires
        count <= raw@.len(),
    ensures
        ({
            let checked = sorts_checked(raw@, count as int);
            &&& saved_colors::warning_views(final(warnings)@) == saved_colors::warning_views(old(warnings)@) + checked.warnings
            &&& sort_views(r@) == checked.value
        }),
{
    let ghost start = saved_colors::warning_views(warnings@);
    let mut out: Vec<SortKey> = Vec::new();
    let mut i: usize = 0;
    assert(sort_views(out@) =~= Seq::<SortKeyModel>::empty());
    assert(start + saved_colors::silent() =~= start);
    while i < count
        invariant
            i <= count <= raw@.len(),
            saved_colors::warning_views(warnings@) == start + sorts_checked(raw@, i as int).warnings,
            sort_views(out@) == sorts_checked(raw@, i as int).value,
        decreases count - i,
    {
        let ghost before = sorts_checked(raw@, i as int);
        let ghost checked = sort_checked(raw@[i as int]);
        match validate_sort(&raw[i], warnings) {
            None => {},
            Some(value) => {
                assert(sort_views(out@.push(value)) =~= sort_views(out@).push(value@));
                out.push(value);
            },
        }
        assert(saved_colors::warning_views(warnings@) =~= start + (before.warnings + checked.warnings));
        i = i + 1;
    }
    out
}

/// A filter.
pub open spec fn filter_checked(raw: RawSavedFilter) -> Checked<Option<SavedFilterModel>> {
    match action_named(raw.action@) {
        None => Checked {
            value: None,
            warnings: saved_colors::warned(
                "view.filters.action"@,
                "unknown filter action '"@ + raw.action@ + "'"@,
            ),
        },
        Some(action) => match filter_kind_named(raw.kind@) {
            None => Checked {
                value: None,
                warnings: saved_colors::warned("view.filters.kind"@, "unknown filter kind '"@ + raw.kind@ + "'"@),
            },
            Some(kind) => if kind is Regex && patterns::regex_fault(raw.condition@) is Some {
                Checked {
                    value: None,
                    warnings: saved_colors::warned(
                        "view.filters.condition"@,
                        "invalid regex filter condition '"@ + raw.condition@ + "': "@
                            + patterns::regex_fault(raw.condition@)->0,
                    ),
                }
            } else {
                Checked {
                    value: Some(
                        SavedFilterModel {
                            column: raw.column@,
                            action,
                            kind,
                            condition: raw.condition@,
                        },
                    ),
                    warnings: saved_colors::silent(),
                }
            },
        },
    }
}

/// Checks a filter.
pub fn validate_filter(raw: &RawSavedFilter, warnings: &mut Vec<SavedViewWarning>) -> (r: Option<
    SavedFilter,
>)
    ensures
        ({
            let checked = filter_checked(*raw);
            &&& saved_colors::warning_views(final(warnings)@) == saved_colors::warning_views(old(warnings)@) + checked.warnings
            &&& match (r, checked.value) {
                (Some(filter), Some(m)) => filter@ == m,
                (None, None) => true,
                _ => false,
            }
        }),
{
    proof {
        assert(saved_colors::warning_views(warnings@) + saved_colors::silent() =~= saved_colors::warning_views(warnings@));
    }
    let action = match parse_filter_action(&raw.action) {
        Some(action) => action,
        None => {
            warn(
                warnings,
                "view.filters.action",
                &concat3("unknown filter action '", &raw.action, "'"),
            );
            return None;
        },
    };
    let kind = match parse_filter_kind(&raw.kind) {
        Some(kind) => kind,
        None => {
            warn(
                warnings,
                "view.filters.kind",
                &concat3("unknown filter kind '", &raw.kind, "'"),
            );
            return None;
        },
    };
    if kind == FilterKind::Regex {
        if let Some(fault) = check_regex(&raw.condition) {
            let message = concat2(
                &concat3("invalid regex filter condition '", &raw.condition, "': "),
                &fault,
            );
            warn(warnings, "view.filters.condition", &message);
            return None;
        }
    }
    Some(
        SavedFilter {
            column: raw.column.clone(),
            action,
            kind,
            condition: raw.condition.clone(),
        },
    )
}

/// The good ones among the first `n` filters.
pub open spec fn filters_checked(raw: Seq<RawSavedFilter>, n: int) -> Checked<Seq<SavedFilterModel>>
    decreases n,
{
    if n <= 0 || n > raw.len() {
        Checked { value: Seq::empty(), warnings: saved_colors::silent() }
    } else {
        let before = filters_checked(raw, n - 1);
        let checked = filter_checked(raw[n - 1]);
        Checked {
            value: match checked.value {
                Some(value) => before.value.push(value),
                None => before.value,
            },
            warnings: before.warnings + checked.warnings,
        }
    }
}

fn check_filters(
    raw: &Vec<RawSavedFilter>,
    count: usize,
    warnings: &mut Vec<SavedViewWarning>,
) -> (r: Vec<SavedFilter>)
    requires
        count <= raw@.len(),
    ensures
        ({
            let checked = filters_checked(raw@, count as int);
            &&& saved_colors::warning_views(final(warnings)@) == saved_colors::warning_views(old(warnings)@) + checked.warnings
            &&& filter_views(r@) == checked.value
        }),
{
    let ghost start = saved_colors::warning_views(warnings@);
    let mut out: Vec<SavedFilter> = Vec::new();
    let mut i: usize = 0;
    assert(filter_views(out@) =~= Seq::<SavedFilterModel>::empty());
    assert(start + saved_colors::silent() =~= start);
    while i < count
        invariant
            i <= count <= raw@.len(),
            saved_colors::warning_views(warnings@) == start + filters_checked(raw@, i as int).warnings,
            filter_views(out@) == filters_checked(raw@, i as int).value,
        decreases count - i,
    {
        let ghost before = filters_checked(raw@, i as int);
        let ghost checked = filter_checked(raw@[i as int]);
        match validate_filter(&raw[i], warnings) {
            None => {},
            Some(value) => {
                assert(filter_views(out@.push(value)) =~= filter_views(out@).push(value@));
                out.push(value);
            },
        }
        assert(saved_colors::warning_views(warnings@) =~= start + (before.warnings + checked.warnings));
        i = i + 1;
    }
    out
}

/// What a source filter can compare with: a value that is not null, and no list or
/// map.
pub open spec fn filter_operand(value: YamlModel) -> Option<OperandModel> {
    match value {
        YamlModel::Bool(b) => Some(OperandModel::Boolean(b)),
        YamlModel::Integer(n) => Some(OperandModel::Integer(n)),
        YamlModel::Decimal(s) => Some(OperandModel::Float(s)),
        YamlModel::Text(s) => Some(OperandModel::Text(s)),
        _ => None,
    }
}

/// What a source filter can compare with.
pub fn source_filter_value(value: &YamlValue) -> (r: Option<SourceFilterValue>)
    ensures
        match (r, filter_operand(value@)) {
            (Some(operand), Some(m)) => operand@ == m,
            (None, None) => true,
            _ => false,
        },
{
    match value {
        YamlValue::Bool(b) => Some(SourceFilterValue::Boolean(*b)),
        YamlValue::Integer(n) => Some(SourceFilterValue::Integer(*n)),
        YamlValue::Decimal(s) => Some(SourceFilterValue::Float(s.clone())),
        YamlValue::Text(s) => Some(SourceFilterValue::Text(s.clone())),
        _ => None,
    }
}

/// A source filter.
pub open spec fn source_filter_checked(raw: RawSavedSourceFilter) -> Checked<
    Option<SavedSourceFilterModel>,
> {
    if raw.column@.len() == 0 {
        Checked {
            value: None,
            warnings: saved_colors::warned(
                "source.filters.column"@,
                "source filter column cannot be empty"@,
            ),
        }
    } else {
        match operator_named(raw.operator@) {
            None => Checked {
                value: None,
                warnings: saved_colors::warned(
                    "source.filters.operator"@,
                    "unknown source filter operator '"@ + raw.operator@ + "'"@,
                ),
            },
            Some(operator) => if operator is IsNull || operator is IsNotNull {
                Checked {
                    value: Some(
                        SavedSourceFilterModel { column: raw.column@, operator, value: None },
                    ),
                    warnings: if raw.value is Some {
                        saved_colors::warned(
                            "source.filters.value"@,
                            "null-test source filter ignores its value"@,
                        )
                    } else {
                        saved_colors::silent()
                    },
                }
            } else {
                match raw.value {
                    None => Checked {
                        value: None,
                        warnings: saved_colors::warned(
                            "source.filters.value"@,
                            "source filter operator requires a non-null scalar value"@,
                        ),
                    },
                    Some(value) => match filter_operand(value@) {
                        None => Checked {
                            value: None,
                            warnings: saved_colors::warned(
                                "source.filters.value"@,
                                "source filter value must be a non-null scalar"@,
                            ),
                        },
                        Some(operand) => Checked {
                            value: Some(
                                SavedSourceFilterModel {
                                    column: raw.column@,
                                    operator,
                                    value: Some(operand),
                                },
                            ),
                            warnings: saved_colors::silent(),
                        },
                    },
                }
            },
        }
    }
}

/// Checks a source filter.
pub fn validate_source_filter(
    raw: &RawSavedSourceFilter,
    warnings: &mut Vec<SavedViewWarning>,
) -> (r: Option<SavedSourceFilter>)
    ensures
        ({
            let checked = source_filter_checked(*raw);
            &&& saved_colors::warning_views(final(warnings)@) == saved_colors::warning_views(old(warnings)@) + checked.warnings
            &&& match (r, checked.value) {
                (Some(filter), Some(m)) => filter@ == m,
                (None, None) => true,
                _ => false,
            }
        }),
{
    proof {
        assert(saved_colors::warning_views(warnings@) + saved_colors::silent() =~= saved_colors::warning_views(warnings@));
    }
    if raw.column.as_str().is_empty() {
        warn(warnings, "source.filters.column", "source filter column cannot be empty");
        return None;
    }
    let operator = match parse_source_filter_operator(&raw.operator) {
        Some(operator) => operator,
        None => {
            warn(
                warnings,
                "source.filters.operator",
                &concat3("unknown source filter operator '", &raw.operator, "'"),
            );
            return None;
        },
    };
    if operator == SourceFilterOperator::IsNull || operator == SourceFilterOperator::IsNotNull {
        if raw.value.is_some() {
            warn(warnings, "source.filters.value", "null-test source filter ignores its value");
        }
        return Some(SavedSourceFilter { column: raw.column.clone(), operator, value: None });
    }
    match &raw.value {
        None => {
            warn(
                warnings,
                "source.filters.value",
                "source filter operator requires a non-null scalar value",
            );
            None
        },
        Some(value) => match source_filter_value(value) {
            None => {
                warn(
                    warnings,
                    "source.filters.value",
                    "source filter value must be a non-null scalar",
                );
                None
            },
            Some(operand) => Some(
                SavedSourceFilter { column: raw.column.clone(), operator, value: Some(operand) },
            ),
        },
    }
}

/// The good ones among the first `n` source filters.
pub open spec fn source_filters_checked(raw: Seq<RawSavedSourceFilter>, n: int) -> Checked<Seq<SavedSourceFilterModel>>
    decreases n,
{
    if n <= 0 || n > raw.len() {
        Checked { value: Seq::empty(), warnings: saved_colors::silent() }
    } else {
        let before = source_filters_checked(raw, n - 1);
        let checked = source_filter_checked(raw[n - 1]);
        Checked {
            value: match checked.value {
                Some(value) => before.value.push(value),
                None => before.value,
            },
            warnings: before.warnings + checked.warnings,
        }
    }
}

fn check_source_filters(
    raw: &Vec<RawSavedSourceFilter>,
    count: usize,
    warnings: &mut Vec<SavedViewWarning>,
) -> (r: Vec<SavedSourceFilter>)
    requires
        count <= raw@.len(),
    ensures
        ({
            let checked = source_filters_checked(raw@, count as int);
            &&& saved_colors::warning_views(final(warnings)@) == saved_colors::warning_views(old(warnings)@) + checked.warnings
            &&& source_filter_views(r@) == checked.value
        }),
{
    let ghost start = saved_colors::warning_views(warnings@);
    let mut out: Vec<SavedSourceFilter> = Vec::new();
    let mut i: usize = 0;
    assert(source_filter_views(out@) =~= Seq::<SavedSourceFilterModel>::empty());
    assert(start + saved_colors::silent() =~= start);
    while i < count
        invariant
            i <= count <= raw@.len(),
            saved_colors::warning_views(warnings@) == start + source_filters_checked(raw@, i as int).warnings,
            source_filter_views(out@) == source_filters_checked(raw@, i as int).value,
        decreases count - i,
    {
        let ghost before = source_filters_checked(raw@, i as int);
        let ghost checked = source_filter_checked(raw@[i as int]);
        match validate_source_filter(&raw[i], warnings) {
            None => {},
            Some(value) => {
                assert(source_filter_views(out@.push(value)) =~= source_filter_views(out@).push(value@));
                out.push(value);
            },
        }
        assert(saved_colors::warning_views(warnings@) =~= start + (before.warnings + checked.warnings));
        i = i + 1;
    }
    out
}

/// A source order.
pub open spec fn source_sort_checked(raw: RawSavedSourceSort) -> Checked<
    Option<SavedSourceSortModel>,
> {
    if raw.column@.len() == 0 {
        Checked {
            value: None,
            warnings: saved_colors::warned("source.sort.column"@, "source sort column cannot be empty"@),
        }
    } else {
        match direction_named(raw.direction@) {
            None => Checked {
                value: None,
                warnings: saved_colors::warned(
                    "source.sort.direction"@,
                    "unknown sort direction '"@ + raw.direction@ + "'"@,
                ),
            },
            Some(direction) => Checked {
                value: Some(SavedSourceSortModel { column: raw.column@, direction }),
                warnings: saved_colors::silent(),
            },
        }
    }
}

/// Checks a source order.
pub fn validate_source_sort(
    raw: &RawSavedSourceSort,
    warnings: &mut Vec<SavedViewWarning>,
) -> (r: Option<SavedSourceSort>)
    ensures
        ({
            let checked = source_sort_checked(*raw);
            &&& saved_colors::warning_views(final(warnings)@) == saved_colors::warning_views(old(warnings)@) + checked.warnings
            &&& match (r, checked.value) {
                (Some(sort), Some(m)) => sort@ == m,
                (None, None) => true,
                _ => false,
            }
        }),
{
    proof {
        assert(saved_colors::warning_views(warnings@) + saved_colors::silent() =~= saved_colors::warning_views(warnings@));
    }
    if raw.column.as_str().is_empty() {
        warn(warnings, "source.sort.column", "source sort column cannot be empty");
        return None;
    }
    match parse_sort_direction(&raw.direction) {
        Some(direction) => Some(SavedSourceSort { column: raw.column.clone(), direction }),
        None => {
            warn(
                warnings,
                "source.sort.direction",
                &concat3("unknown sort direction '", &raw.direction, "'"),
            );
            None
        },
    }
}

/// The good ones among the first `n` source orders.
pub open spec fn source_sorts_checked(raw: Seq<RawSavedSourceSort>, n: int) -> Checked<Seq<SavedSourceSortModel>>
    decreases n,
{
    if n <= 0 || n > raw.len() {
        Checked { value: Seq::empty(), warnings: saved_colors::silent() }
    } else {
        let before = source_sorts_checked(raw, n - 1);
        let checked = source_sort_checked(raw[n - 1]);
        Checked {
            value: match checked.value {
                Some(value) => before.value.push(value),
                None => before.value,
            },
            warnings: before.warnings + checked.warnings,
        }
    }
}

fn check_source_sorts(
    raw: &Vec<RawSavedSourceSort>,
    count: usize,
    warnings: &mut Vec<SavedViewWarning>,
) -> (r: Vec<SavedSourceSort>)
    requires
        count <= raw@.len(),
    ensures
        ({
            let checked = source_sorts_checked(raw@, count as int);
            &&& saved_colors::warning_views(final(warnings)@) == saved_colors::warning_views(old(warnings)@) + checked.warnings
            &&& source_sort_views(r@) == checked.value
        }),
{
    let ghost start = saved_colors::warning_views(warnings@);
    let mut out: Vec<SavedSourceSort> = Vec::new();
    let mut i: usize = 0;
    assert(source_sort_views(out@) =~= Seq::<SavedSourceSortModel>::empty());
    assert(start + saved_colors::silent() =~= start);
    while i < count
        invariant
            i <= count <= raw@.len(),
            saved_colors::warning_views(warnings@) == start + source_sorts_checked(raw@, i as int).warnings,
            source_sort_views(out@) == source_sorts_checked(raw@, i as int).value,
        decreases count - i,
    {
        let ghost before = source_sorts_checked(raw@, i as int);
        let ghost checked = source_sort_checked(raw@[i as int]);
        match validate_source_sort(&raw[i], warnings) {
            None => {},
            Some(value) => {
                assert(source_sort_views(out@.push(value)) =~= source_sort_views(out@).push(value@));
                out.push(value);
            },
        }
        assert(saved_colors::warning_views(warnings@) =~= start + (before.warnings + checked.warnings));
        i = i + 1;
    }
    out
}

/// The field of a column.
pub open spec fn column_field(key: Seq<char>, name: Seq<char>) -> Seq<char> {
    "view.columns."@ + key + "."@ + name
}

fn field_of_column(key: &str, name: &str) -> (r: String)
    ensures
        r@ == column_field(key@, name@),
{
    concat2(&concat3("view.columns.", key, "."), name)
}

/// What a text names, if there is one.
pub open spec fn type_of(value: Option<String>) -> Option<ColumnType> {
    match value {
        Some(text) => type_named(text@),
        None => None,
    }
}

/// What a text names, if there is one.
pub open spec fn format_of(value: Option<String>) -> Option<DisplayFormat> {
    match value {
        Some(text) => format_named(text@),
        None => None,
    }
}

/// What a text names, if there is one.
pub open spec fn align_of(value: Option<String>) -> Option<ColumnAlign> {
    match value {
        Some(text) => align_named(text@),
        None => None,
    }
}

/// What a text names, if there is one.
pub open spec fn placement_of(value: Option<String>) -> Option<NullPlacement> {
    match value {
        Some(text) => placement_named(text@),
        None => None,
    }
}

/// The type of a column.
pub open spec fn type_checked(key: Seq<char>, raw: RawColumnView) -> Checked<Option<ColumnType>> {
    checked_name(
        raw.column_type,
        type_of(raw.column_type),
        column_field(key, "type"@),
        "unknown column type '"@,
        "'"@,
    )
}

/// The format of a column.
pub open spec fn format_checked(key: Seq<char>, raw: RawColumnView) -> Checked<
    Option<DisplayFormat>,
> {
    checked_name(
        raw.format,
        format_of(raw.format),
        column_field(key, "format"@),
        "unknown format '"@,
        "'"@,
    )
}

/// The mask of a column.
pub open spec fn mask_checked(key: Seq<char>, raw: RawColumnView) -> Checked<Option<MaskModel>> {
    match raw.mask {
        None => Checked { value: None, warnings: saved_colors::silent() },
        Some(value) => match mask_named(value@) {
            Ok(mask) => Checked { value: Some(mask), warnings: saved_colors::silent() },
            Err(message) => Checked {
                value: None,
                warnings: saved_colors::warned(
                    column_field(key, "mask"@),
                    "invalid numeric mask '"@ + value@ + "': "@ + message,
                ),
            },
        },
    }
}

/// The width of a column.
pub open spec fn width_checked(key: Seq<char>, raw: RawColumnView) -> Checked<Option<ColumnWidth>> {
    match raw.width {
        None => Checked { value: None, warnings: saved_colors::silent() },
        Some(value) => match width_named(value) {
            Ok(width) => Checked { value: Some(width), warnings: saved_colors::silent() },
            Err(message) => Checked {
                value: None,
                warnings: saved_colors::warned(column_field(key, "width"@), message),
            },
        },
    }
}

/// The side of a column.
pub open spec fn align_checked(key: Seq<char>, raw: RawColumnView) -> Checked<Option<ColumnAlign>> {
    checked_name(
        raw.align,
        align_of(raw.align),
        column_field(key, "align"@),
        "unknown align '"@,
        "'"@,
    )
}

/// The label of a column.
pub open spec fn label_checked(key: Seq<char>, raw: RawColumnView) -> Checked<Option<Seq<char>>> {
    match raw.label {
        None => Checked { value: None, warnings: saved_colors::silent() },
        Some(label) => if label@.len() == 0 {
            Checked {
                value: None,
                warnings: saved_colors::warned(column_field(key, "label"@), "label cannot be empty"@),
            }
        } else {
            Checked { value: Some(label@), warnings: saved_colors::silent() }
        },
    }
}

/// The place of missing values in a column.
pub open spec fn nulls_checked(key: Seq<char>, raw: RawColumnView) -> Checked<
    Option<NullPlacement>,
> {
    checked_name(
        raw.nulls,
        placement_of(raw.nulls),
        column_field(key, "nulls"@),
        "unknown null placement '"@,
        "'"@,
    )
}

/// What is said of a format that lacks its mask, or that the type has no use for.
pub open spec fn format_warnings(key: Seq<char>, raw: RawColumnView) -> Seq<WarningModel> {
    let format = format_checked(key, raw).value;
    let column_type = type_checked(key, raw).value;
    (if format == Some(DisplayFormat::Mask) && mask_checked(key, raw).value is None {
        saved_colors::warned(column_field(key, "mask"@), "format: mask requires a valid mask"@)
    } else {
        saved_colors::silent()
    }) + (if (format == Some(DisplayFormat::Locale) || format == Some(DisplayFormat::Mask))
        && !(column_type is None || column_type->0 is Number) {
        saved_colors::warned(
            column_field(key, "format"@),
            "number formats are ignored for non-number column types"@,
        )
    } else {
        saved_colors::silent()
    })
}

/// The good ones among the first `n` colour rules.
pub open spec fn colors_checked(key: Seq<char>, raw: Seq<RawColorRule>, n: int) -> Checked<
    Seq<RuleModel>,
>
    decreases n,
{
    if n <= 0 || n > raw.len() {
        Checked { value: Seq::empty(), warnings: saved_colors::silent() }
    } else {
        let before = colors_checked(key, raw, n - 1);
        let checked = saved_colors::color_rule(
            raw[n - 1],
            column_field(key, "colors."@ + text::decimal((n - 1) as nat)),
        );
        Checked {
            value: match checked.value {
                Some(rule) => before.value.push(rule),
                None => before.value,
            },
            warnings: before.warnings + checked.warnings,
        }
    }
}

/// A column with its key.
pub open spec fn column_checked(entry: (String, RawColumnView)) -> Checked<
    Option<(Seq<char>, ColumnViewModel)>,
> {
    let key = entry.0@;
    let raw = entry.1;
    if key.len() == 0 {
        Checked { value: None, warnings: saved_colors::warned("view.columns"@, "empty column key ignored"@) }
    } else if patterns::is_wildcard(key) && patterns::bracket_fault(key, 0, false) is Some {
        Checked {
            value: None,
            warnings: saved_colors::warned(
                "view.columns."@ + key,
                "invalid wildcard column key: "@ + patterns::bracket_fault(key, 0, false)->0,
            ),
        }
    } else {
        let colors = colors_checked(key, raw.colors@, raw.colors@.len() as int);
        Checked {
            value: Some(
                (
                    key,
                    ColumnViewModel {
                        label: label_checked(key, raw).value,
                        nulls: nulls_checked(key, raw).value,
                        column_type: type_checked(key, raw).value,
                        format: format_checked(key, raw).value,
                        mask: mask_checked(key, raw).value,
                        width: width_checked(key, raw).value,
                        align: align_checked(key, raw).value,
                        visible: raw.visible,
                        colors: colors.value,
                    },
                ),
            ),
            warnings: column_word_warnings(key, raw) + format_warnings(key, raw) + colors.warnings,
        }
    }
}

/// What is said of the words of a column.
pub open spec fn column_word_warnings(key: Seq<char>, raw: RawColumnView) -> Seq<WarningModel> {
    type_checked(key, raw).warnings + format_checked(key, raw).warnings + mask_checked(
        key,
        raw,
    ).warnings + width_checked(key, raw).warnings + align_checked(key, raw).warnings
        + label_checked(key, raw).warnings + nulls_checked(key, raw).warnings
}

fn check_mask(key: &str, raw: &RawColumnView, warnings: &mut Vec<SavedViewWarning>) -> (r: Option<
    NumberMask,
>)
    ensures
        ({
            let checked = mask_checked(key@, *raw);
            &&& saved_colors::warning_views(final(warnings)@) == saved_colors::warning_views(old(warnings)@) + checked.warnings
            &&& mask_view(r) == checked.value
        }),
{
    proof {
        assert(saved_colors::warning_views(warnings@) + saved_colors::silent() =~= saved_colors::warning_views(warnings@));
    }
    match &raw.mask {
        None => None,
        Some(value) => match parse_number_mask(value) {
            Ok(mask) => Some(mask),
            Err(message) => {
                let text = concat2(&concat3("invalid numeric mask '", value, "': "), message);
                warn(warnings, &field_of_column(key, "mask"), &text);
                None
            },
        },
    }
}

fn check_width(key: &str, raw: &RawColumnView, warnings: &mut Vec<SavedViewWarning>) -> (r: Option<
    ColumnWidth,
>)
    ensures
        ({
            let checked = width_checked(key@, *raw);
            &&& saved_colors::warning_views(final(warnings)@) == saved_colors::warning_views(old(warnings)@) + checked.warnings
            &&& r == checked.value
        }),
{
    proof {
        assert(saved_colors::warning_views(warnings@) + saved_colors::silent() =~= saved_colors::warning_views(warnings@));
    }
    match &raw.width {
        None => None,
        Some(value) => match parse_width(value) {
            Ok(width) => Some(width),
            Err(message) => {
                warn(warnings, &field_of_column(key, "width"), &message);
                None
            },
        },
    }
}

fn check_label(key: &str, raw: &RawColumnView, warnings: &mut Vec<SavedViewWarning>) -> (r: Option<
    String,
>)
    ensures
        ({
            let checked = label_checked(key@, *raw);
            &&& saved_colors::warning_views(final(warnings)@) == saved_colors::warning_views(old(warnings)@) + checked.warnings
            &&& text::opt_view(r) == checked.value
        }),
{
    proof {
        assert(saved_colors::warning_views(warnings@) + saved_colors::silent() =~= saved_colors::warning_views(warnings@));
    }
    match &raw.label {
        None => None,
        Some(label) => if label.as_str().is_empty() {
            warn(warnings, &field_of_column(key, "label"), "label cannot be empty");
            None
        } else {
            Some(label.clone())
        },
    }
}

proof fn lemma_appended(start: Seq<WarningModel>, a: Seq<WarningModel>, b: Seq<WarningModel>)
    ensures
        (start + a) + b == start + (a + b),
{
    assert((start + a) + b =~= start + (a + b));
}

fn check_column_words(key: &str, raw: &RawColumnView, warnings: &mut Vec<SavedViewWarning>) -> (r:
    ColumnView)
    ensures
        saved_colors::warning_views(final(warnings)@) == saved_colors::warning_views(old(warnings)@) + column_word_warnings(
            key@,
            *raw,
        ),
        text::opt_view(r.label) == label_checked(key@, *raw).value,
        r.nulls == nulls_checked(key@, *raw).value,
        r.column_type == type_checked(key@, *raw).value,
        r.format == format_checked(key@, *raw).value,
        mask_view(r.mask) == mask_checked(key@, *raw).value,
        r.width == width_checked(key@, *raw).value,
        r.align == align_checked(key@, *raw).value,
        r.visible == raw.visible,
        r.colors@.len() == 0,
{
    let ghost start = saved_colors::warning_views(warnings@);
    let ghost mut acc = type_checked(key@, *raw).warnings;
    let named = match &raw.column_type {
        Some(text) => parse_column_type(text),
        None => None,
    };
    let column_type = check_name(
        &raw.column_type,
        named,
        &field_of_column(key, "type"),
        "unknown column type '",
        "'",
        warnings,
    );
    let named = match &raw.format {
        Some(text) => parse_display_format(text),
        None => None,
    };
    let format = check_name(
        &raw.format,
        named,
        &field_of_column(key, "format"),
        "unknown format '",
        "'",
        warnings,
    );
    proof {
        lemma_appended(start, acc, format_checked(key@, *raw).warnings);
        acc = acc + format_checked(key@, *raw).warnings;
    }
    let mask = check_mask(key, raw, warnings);
    proof {
        lemma_appended(start, acc, mask_checked(key@, *raw).warnings);
        acc = acc + mask_checked(key@, *raw).warnings;
    }
    let width = check_width(key, raw, warnings);
    proof {
        lemma_appended(start, acc, width_checked(key@, *raw).warnings);
        acc = acc + width_checked(key@, *raw).warnings;
    }
    let named = match &raw.align {
        Some(text) => parse_align(text),
        None => None,
    };
    let align = check_name(
        &raw.align,
        named,
        &field_of_column(key, "align"),
        "unknown align '",
        "'",
        warnings,
    );
    proof {
        lemma_appended(start, acc, align_checked(key@, *raw).warnings);
        acc = acc + align_checked(key@, *raw).warnings;
    }
    let label = check_label(key, raw, warnings);
    proof {
        lemma_appended(start, acc, label_checked(key@, *raw).warnings);
        acc = acc + label_checked(key@, *raw).warnings;
    }
    let named = match &raw.nulls {
        Some(text) => parse_null_placement(text),
        None => None,
    };
    let nulls = check_name(
        &raw.nulls,
        named,
        &field_of_column(key, "nulls"),
        "unknown null placement '",
        "'",
        warnings,
    );
    proof {
        lemma_appended(start, acc, nulls_checked(key@, *raw).warnings);
        acc = acc + nulls_checked(key@, *raw).warnings;
    }
    ColumnView {
        label,
        nulls,
        column_type,
        format,
        mask,
        width,
        align,
        visible: raw.visible,
        colors: Vec::new(),
    }
}

fn check_colors(key: &str, raw: &Vec<RawColorRule>, warnings: &mut Vec<SavedViewWarning>) -> (r: Vec<
    ConditionalColorRule,
>)
    ensures
        ({
            let checked = colors_checked(key@, raw@, raw@.len() as int);
            &&& saved_colors::warning_views(final(warnings)@) == saved_colors::warning_views(old(warnings)@) + checked.warnings
            &&& saved_colors::rule_views(r@) == checked.value
        }),
{
    let ghost start = saved_colors::warning_views(warnings@);
    let mut rules: Vec<ConditionalColorRule> = Vec::new();
    let mut i: usize = 0;
    assert(saved_colors::rule_views(rules@) =~= Seq::<RuleModel>::empty());
    assert(start + saved_colors::silent() =~= start);
    while i < raw.len()
        invariant
            i <= raw@.len(),
            saved_colors::warning_views(warnings@) == start + colors_checked(key@, raw@, i as int).warnings,
            saved_colors::rule_views(rules@) == colors_checked(key@, raw@, i as int).value,
        decreases raw@.len() - i,
    {
        let ghost before = colors_checked(key@, raw@, i as int);
        let field = field_of_column(key, &concat2("colors.", &decimal_of_usize(i)));
        let ghost checked = saved_colors::color_rule(raw@[i as int], field@);
        match validate_color_rule(&raw[i], &field, warnings) {
            None => {},
            Some(rule) => {
                assert(saved_colors::rule_views(rules@.push(rule)) =~= saved_colors::rule_views(rules@).push(rule@));
                rules.push(rule);
            },
        }
        assert(saved_colors::warning_views(warnings@) =~= start + (before.warnings + checked.warnings));
        i = i + 1;
    }
    rules
}

/// Checks a column with its key.
pub fn validate_column(
    entry: &(String, RawColumnView),
    warnings: &mut Vec<SavedViewWarning>,
) -> (r: Option<(String, ColumnView)>)
    ensures
        ({
            let checked = column_checked(*entry);
            &&& saved_colors::warning_views(final(warnings)@) == saved_colors::warning_views(old(warnings)@) + checked.warnings
            &&& match (r, checked.value) {
                (Some((key, column)), Some((k, m))) => key@ == k && column@ == m,
                (None, None) => true,
                _ => false,
            }
        }),
{
    let key = &entry.0;
    let raw = &entry.1;
    if key.as_str().is_empty() {
        warn(warnings, "view.columns", "empty column key ignored");
        return None;
    }
    if is_wildcard_pattern(key) {
        if let Err(fault) = validate_glob_pattern(key) {
            warn(
                warnings,
                &concat2("view.columns.", key),
                &concat2("invalid wildcard column key: ", fault),
            );
            return None;
        }
    }
    let ghost start = saved_colors::warning_views(warnings@);
    let mut column = check_column_words(key, raw, warnings);
    let ghost words = column_word_warnings(key@, *raw);
    if column.format == Some(DisplayFormat::Mask) && column.mask.is_none() {
        warn(warnings, &field_of_column(key, "mask"), "format: mask requires a valid mask");
    }
    let numeric = match column.column_type {
        None => true,
        Some(ColumnType::Number(_)) => true,
        _ => false,
    };
    if (column.format == Some(DisplayFormat::Locale) || column.format == Some(DisplayFormat::Mask))
        && !numeric {
        warn(
            warnings,
            &field_of_column(key, "format"),
            "number formats are ignored for non-number column types",
        );
    }
    let ghost format = format_warnings(key@, *raw);
    assert(saved_colors::warning_views(warnings@) =~= (start + words) + format);
    proof {
        lemma_appended(start, words, format);
        lemma_appended(
            start,
            words + format,
            colors_checked(key@, raw.colors@, raw.colors@.len() as int).warnings,
        );
    }
    column.colors = check_colors(key, &raw.colors, warnings);
    Some((key.clone(), column))
}

/// The good ones among the first `n` columns.
pub open spec fn columns_checked(raw: Seq<(String, RawColumnView)>, n: int) -> Checked<Seq<(Seq<char>, ColumnViewModel)>>
    decreases n,
{
    if n <= 0 || n > raw.len() {
        Checked { value: Seq::empty(), warnings: saved_colors::silent() }
    } else {
        let before = columns_checked(raw, n - 1);
        let checked = column_checked(raw[n - 1]);
        Checked {
            value: match checked.value {
                Some(value) => before.value.push(value),
                None => before.value,
            },
            warnings: before.warnings + checked.warnings,
        }
    }
}

proof fn lemma_checked_keys(raw: Seq<(String, RawColumnView)>, n: int)
    requires
        0 <= n <= raw.len(),
        keys_ascend(column_keys(raw)),
    ensures
        forall|i: int, j: int|
            0 <= i < j < columns_checked(raw, n).value.len() ==> text::text_before(
                (#[trigger] columns_checked(raw, n).value[i]).0,
                (#[trigger] columns_checked(raw, n).value[j]).0,
            ),
        forall|i: int, m: int|
            0 <= i < columns_checked(raw, n).value.len() && n <= m < raw.len() ==> text::text_before(
                (#[trigger] columns_checked(raw, n).value[i]).0,
                #[trigger] column_keys(raw)[m],
            ),
    decreases n,
{
    if n > 0 {
        lemma_checked_keys(raw, n - 1);
        let keys = column_keys(raw);
        let before = columns_checked(raw, n - 1).value;
        let now = columns_checked(raw, n).value;
        assert(keys[n - 1] == raw[n - 1].0@);
        assert forall|i: int, j: int| 0 <= i < j < now.len() implies text::text_before(
            (#[trigger] now[i]).0,
            (#[trigger] now[j]).0,
        ) by {
            if j < before.len() {
                assert(text::text_before(before[i].0, before[j].0));
            } else {
                assert(text::text_before(before[i].0, keys[n - 1]));
            }
        }
        assert forall|i: int, m: int| 0 <= i < now.len() && n <= m < raw.len() implies text::text_before(
            (#[trigger] now[i]).0,
            #[trigger] keys[m],
        ) by {
            if i < before.len() {
                assert(text::text_before(before[i].0, keys[m]));
            } else {
                assert(text::text_before(keys[n - 1], keys[m]));
            }
        }
    }
}

fn check_columns(
    raw: &Vec<(String, RawColumnView)>,
    count: usize,
    warnings: &mut Vec<SavedViewWarning>,
) -> (r: Vec<(String, ColumnView)>)
    requires
        count <= raw@.len(),
    ensures
        ({
            let checked = columns_checked(raw@, count as int);
            &&& saved_colors::warning_views(final(warnings)@) == saved_colors::warning_views(old(warnings)@) + checked.warnings
            &&& keyed_views(r@) == checked.value
        }),
{
    let ghost start = saved_colors::warning_views(warnings@);
    let mut out: Vec<(String, ColumnView)> = Vec::new();
    let mut i: usize = 0;
    assert(keyed_views(out@) =~= Seq::<(Seq<char>, ColumnViewModel)>::empty());
    assert(start + saved_colors::silent() =~= start);
    while i < count
        invariant
            i <= count <= raw@.len(),
            saved_colors::warning_views(warnings@) == start + columns_checked(raw@, i as int).warnings,
            keyed_views(out@) == columns_checked(raw@, i as int).value,
        decreases count - i,
    {
        let ghost before = columns_checked(raw@, i as int);
        let ghost checked = column_checked(raw@[i as int]);
        match validate_column(&raw[i], warnings) {
            None => {},
            Some(value) => {
                assert(keyed_views(out@.push(value)) =~= keyed_views(out@).push((value.0@, value.1@)));
                out.push(value);
            },
        }
        assert(saved_colors::warning_views(warnings@) =~= start + (before.warnings + checked.warnings));
        i = i + 1;
    }
    out
}

// ---------------------------------------------------------------------------
// Checking views
// ---------------------------------------------------------------------------

/// The format of the source.
pub open spec fn source_format(raw: RawSavedSourceConfig) -> Checked<Option<InputFormat>> {
    checked_name(
        raw.format,
        match raw.format {
            Some(text) => InputFormat::named(text@),
            None => None,
        },
        "source.format"@,
        "unknown input format '"@,
        "'"@,
    )
}

/// The path within the source.
pub open spec fn source_path(raw: RawSavedSourceConfig) -> Checked<Option<Seq<char>>> {
    checked_name(
        raw.json_path,
        match raw.json_path {
            Some(text) => if options::pointer_keys(text@) is Some {
                Some(text@)
            } else {
                None
            },
            None => None,
        },
        "source.json_path"@,
        "invalid RFC 6901 JSON Pointer '"@,
        "'"@,
    )
}

/// The mode for objects, by its name alone.
pub open spec fn source_mode_named(raw: RawSavedSourceConfig) -> Checked<Option<ObjectMode>> {
    checked_name(
        raw.object_mode,
        match raw.object_mode {
            Some(text) => ObjectMode::named(text@),
            None => None,
        },
        "source.object_mode"@,
        "unknown object mode '"@,
        "'"@,
    )
}

/// Whether the mode for objects does not go with the format.
pub open spec fn mode_conflicts(raw: RawSavedSourceConfig) -> bool {
    let format = source_format(raw).value;
    let mode = source_mode_named(raw).value;
    &&& format == Some(InputFormat::Delimited) || format == Some(InputFormat::Ndjson)
    &&& mode == Some(ObjectMode::Record) || mode == Some(ObjectMode::Entries)
}

/// The mode for objects.
pub open spec fn source_mode(raw: RawSavedSourceConfig) -> Checked<Option<ObjectMode>> {
    let named = source_mode_named(raw);
    if mode_conflicts(raw) {
        Checked {
            value: None,
            warnings: named.warnings + saved_colors::warned(
                "source.object_mode"@,
                "object mode is incompatible with the selected row-stream format"@,
            ),
        }
    } else {
        Checked { value: named.value, warnings: named.warnings + saved_colors::silent() }
    }
}

/// The extent of the schema scan.
pub open spec fn source_scan(raw: RawSavedSourceConfig) -> Checked<Option<SchemaScan>> {
    checked_name(
        raw.schema_scan,
        match raw.schema_scan {
            Some(text) => SchemaScan::named(text@),
            None => None,
        },
        "source.schema_scan"@,
        "unknown schema scan policy '"@,
        "'"@,
    )
}

/// A text that must not be empty, or not blank.
pub open spec fn required_text(
    value: Option<String>,
    blank_counts: bool,
    field: Seq<char>,
    message: Seq<char>,
) -> Checked<Option<Seq<char>>> {
    match value {
        None => Checked { value: None, warnings: saved_colors::silent() },
        Some(text) => if text@.len() == 0 || (blank_counts && saved_colors::is_blank(text@)) {
            Checked { value: None, warnings: saved_colors::warned(field, message) }
        } else {
            Checked { value: Some(text@), warnings: saved_colors::silent() }
        },
    }
}

/// The table of the source.
pub open spec fn source_table(raw: RawSavedSourceConfig) -> Checked<Option<Seq<char>>> {
    required_text(raw.table, false, "source.table"@, "table cannot be empty"@)
}

/// The query of the source.
pub open spec fn source_query(raw: RawSavedSourceConfig) -> Checked<Option<Seq<char>>> {
    required_text(raw.query, true, "source.query"@, "query cannot be empty"@)
}

/// What is said where both a table and a query are given.
pub open spec fn target_warnings(raw: RawSavedSourceConfig) -> Seq<WarningModel> {
    if source_table(raw).value is Some && source_query(raw).value is Some {
        saved_colors::warned("source"@, "table and query are mutually exclusive"@)
    } else {
        saved_colors::silent()
    }
}

/// The limit of the source.
pub open spec fn source_limit(raw: RawSavedSourceConfig) -> Checked<Option<usize>> {
    if raw.limit == Some(0usize) {
        Checked {
            value: None,
            warnings: saved_colors::warned("source.limit"@, "limit must be greater than zero"@),
        }
    } else {
        Checked { value: raw.limit, warnings: saved_colors::silent() }
    }
}

/// What is said of the source.
pub open spec fn source_warnings(raw: RawSavedSourceConfig) -> Seq<WarningModel> {
    source_format(raw).warnings + source_path(raw).warnings + source_mode(raw).warnings
        + source_scan(raw).warnings + source_table(raw).warnings + source_query(raw).warnings
        + target_warnings(raw) + source_limit(raw).warnings + source_filters_checked(
        raw.filters@,
        raw.filters@.len() as int,
    ).warnings + source_sorts_checked(raw.sort@, raw.sort@.len() as int).warnings
}

/// Whether what a view says of its source is what was written, without what was
/// refused.
pub open spec fn is_checked_source(source: SavedSourceConfig, raw: RawSavedSourceConfig) -> bool {
    &&& source.format == source_format(raw).value
    &&& options::path_view(source.json_path) == source_path(raw).value
    &&& source.object_mode == source_mode(raw).value
    &&& source.schema_scan == source_scan(raw).value
    &&& text::opt_view(source.table) == source_table(raw).value
    &&& text::opt_view(source.query) == source_query(raw).value
    &&& source.limit == source_limit(raw).value
    &&& source_filter_views(source.filters@) == source_filters_checked(
        raw.filters@,
        raw.filters@.len() as int,
    ).value
    &&& source_sort_views(source.sort@) == source_sorts_checked(
        raw.sort@,
        raw.sort@.len() as int,
    ).value
}

fn check_text(
    value: &Option<String>,
    blank_counts: bool,
    field: &str,
    message: &str,
    warnings: &mut Vec<SavedViewWarning>,
) -> (r: Option<String>)
    ensures
        ({
            let checked = required_text(*value, blank_counts, field@, message@);
            &&& saved_colors::warning_views(final(warnings)@) == saved_colors::warning_views(old(warnings)@) + checked.warnings
            &&& text::opt_view(r) == checked.value
        }),
{
    proof {
        assert(saved_colors::warning_views(warnings@) + saved_colors::silent() =~= saved_colors::warning_views(warnings@));
    }
    match value {
        None => None,
        Some(text) => if text.as_str().is_empty() || (blank_counts && blank(text)) {
            warn(warnings, field, message);
            None
        } else {
            Some(text.clone())
        },
    }
}

fn check_source_mode(raw: &RawSavedSourceConfig, warnings: &mut Vec<SavedViewWarning>) -> (r: Option<
    ObjectMode,
>)
    ensures
        saved_colors::warning_views(final(warnings)@) == saved_colors::warning_views(old(warnings)@) + source_mode(
            *raw,
        ).warnings,
        r == source_mode(*raw).value,
{
    let ghost start = saved_colors::warning_views(warnings@);
    let format = match &raw.format {
        Some(text) => match InputFormat::parse(text) {
            Ok(format) => Some(format),
            Err(_) => None,
        },
        None => None,
    };
    let named = match &raw.object_mode {
        Some(text) => match ObjectMode::parse(text) {
            Ok(mode) => Some(mode),
            Err(_) => None,
        },
        None => None,
    };
    let mode = check_name(
        &raw.object_mode,
        named,
        "source.object_mode",
        "unknown object mode '",
        "'",
        warnings,
    );
    let streams = format == Some(InputFormat::Delimited) || format == Some(InputFormat::Ndjson);
    let explicit = mode == Some(ObjectMode::Record) || mode == Some(ObjectMode::Entries);
    if streams && explicit {
        let ghost before = source_mode_named(*raw).warnings;
        warn(
            warnings,
            "source.object_mode",
            "object mode is incompatible with the selected row-stream format",
        );
        assert(saved_colors::warning_views(warnings@) =~= start + source_mode(*raw).warnings);
        None
    } else {
        assert(saved_colors::warning_views(warnings@) =~= start + source_mode(*raw).warnings);
        mode
    }
}

fn check_source(raw: &RawSavedSourceConfig, warnings: &mut Vec<SavedViewWarning>) -> (r:
    SavedSourceConfig)
    ensures
        saved_colors::warning_views(final(warnings)@) == saved_colors::warning_views(old(warnings)@) + source_warnings(*raw),
        is_checked_source(r, *raw),
{
    let ghost start = saved_colors::warning_views(warnings@);
    let ghost mut acc = source_format(*raw).warnings;
    let named = match &raw.format {
        Some(text) => match InputFormat::parse(text) {
            Ok(format) => Some(format),
            Err(_) => None,
        },
        None => None,
    };
    let format = check_name(
        &raw.format,
        named,
        "source.format",
        "unknown input format '",
        "'",
        warnings,
    );
    let named = match &raw.json_path {
        Some(text) => match JsonPointer::parse(text) {
            Ok(path) => Some(path),
            Err(_) => None,
        },
        None => None,
    };
    let json_path = check_name(
        &raw.json_path,
        named,
        "source.json_path",
        "invalid RFC 6901 JSON Pointer '",
        "'",
        warnings,
    );
    proof {
        lemma_appended(start, acc, source_path(*raw).warnings);
        acc = acc + source_path(*raw).warnings;
    }
    let object_mode = check_source_mode(raw, warnings);
    proof {
        lemma_appended(start, acc, source_mode(*raw).warnings);
        acc = acc + source_mode(*raw).warnings;
    }
    let named = match &raw.schema_scan {
        Some(text) => match SchemaScan::parse(text) {
            Ok(scan) => Some(scan),
            Err(_) => None,
        },
        None => None,
    };
    let schema_scan = check_name(
        &raw.schema_scan,
        named,
        "source.schema_scan",
        "unknown schema scan policy '",
        "'",
        warnings,
    );
    proof {
        lemma_appended(start, acc, source_scan(*raw).warnings);
        acc = acc + source_scan(*raw).warnings;
    }
    let table = check_text(
        &raw.table,
        false,
        "source.table",
        "table cannot be empty",
        warnings,
    );
    proof {
        lemma_appended(start, acc, source_table(*raw).warnings);
        acc = acc + source_table(*raw).warnings;
    }
    let query = check_text(
        &raw.query,
        true,
        "source.query",
        "query cannot be empty",
        warnings,
    );
    proof {
        lemma_appended(start, acc, source_query(*raw).warnings);
        acc = acc + source_query(*raw).warnings;
        lemma_appended(start, acc, target_warnings(*raw));
        assert((start + acc) + saved_colors::silent() =~= start + acc);
        acc = acc + target_warnings(*raw);
    }
    if table.is_some() && query.is_some() {
        warn(warnings, "source", "table and query are mutually exclusive");
    }
    proof {
        lemma_appended(start, acc, source_limit(*raw).warnings);
        assert((start + acc) + saved_colors::silent() =~= start + acc);
        acc = acc + source_limit(*raw).warnings;
    }
    let limit = match raw.limit {
        Some(0) => {
            warn(warnings, "source.limit", "limit must be greater than zero");
            None
        },
        other => other,
    };
    let filters = check_source_filters(&raw.filters, raw.filters.len(), warnings);
    let ghost piece = source_filters_checked(raw.filters@, raw.filters@.len() as int).warnings;
    proof {
        lemma_appended(start, acc, piece);
        acc = acc + piece;
    }
    let sort = check_source_sorts(&raw.sort, raw.sort.len(), warnings);
    let ghost piece = source_sorts_checked(raw.sort@, raw.sort@.len() as int).warnings;
    proof {
        lemma_appended(start, acc, piece);
        acc = acc + piece;
    }
    SavedSourceConfig {
        format,
        json_path,
        object_mode,
        schema_scan,
        table,
        query,
        limit,
        filters,
        sort,
    }
}

/// The place of missing values.
pub open spec fn view_nulls(raw: RawSavedViewConfig) -> Checked<Option<NullPlacement>> {
    checked_name(
        raw.nulls,
        placement_of(raw.nulls),
        "view.nulls"@,
        "unknown null placement '"@,
        "'"@,
    )
}

/// The locale of the view.
pub open spec fn view_locale(raw: RawSavedViewConfig) -> Checked<Option<Seq<char>>> {
    checked_name(
        raw.locale,
        match raw.locale {
            Some(text) => if is_locale(text@) {
                Some(text@)
            } else {
                None
            },
            None => None,
        },
        "view.locale"@,
        "unsupported POSIX-style locale '"@,
        "', falling back to en_US"@,
    )
}

/// How many sort keys are looked at.
pub open spec fn sort_count(raw: RawSavedViewConfig) -> int {
    if raw.sort@.len() < MAX_SORT_KEYS {
        raw.sort@.len() as int
    } else {
        MAX_SORT_KEYS as int
    }
}

/// What is said of sort keys that are too many.
pub open spec fn sort_warnings(raw: RawSavedViewConfig) -> Seq<WarningModel> {
    if raw.sort@.len() > MAX_SORT_KEYS {
        saved_colors::warned("view.sort"@, "only the first 3 sort keys are used"@)
    } else {
        saved_colors::silent()
    }
}

/// What is said of a view, in the order in which it is checked.
pub open spec fn view_warnings(raw: RawSavedView) -> Seq<WarningModel> {
    source_warnings(raw.source) + view_nulls(raw.view).warnings + view_locale(raw.view).warnings
        + filenames_checked(raw.filenames@, raw.filenames@.len() as int).warnings + columns_checked(
        raw.view.columns@,
        raw.view.columns@.len() as int,
    ).warnings + sorts_checked(raw.view.sort@, sort_count(raw.view)).warnings + sort_warnings(
        raw.view,
    ) + filters_checked(raw.view.filters@, raw.view.filters@.len() as int).warnings
}

/// Whether a view is what was written, without what was refused.
pub open spec fn is_checked_view(view: SavedView, raw: RawSavedView) -> bool {
    &&& view.name@ == raw.name@
    &&& patterns::pattern_views(view.filenames@) == filenames_checked(
        raw.filenames@,
        raw.filenames@.len() as int,
    ).value
    &&& is_checked_source(view.source, raw.source)
    &&& text::opt_view(view.view.locale) == view_locale(raw.view).value
    &&& view.view.nulls == view_nulls(raw.view).value
    &&& keyed_views(view.view.columns@) == columns_checked(
        raw.view.columns@,
        raw.view.columns@.len() as int,
    ).value
    &&& sort_views(view.view.sort@) == sorts_checked(raw.view.sort@, sort_count(raw.view)).value
    &&& filter_views(view.view.filters@) == filters_checked(
        raw.view.filters@,
        raw.view.filters@.len() as int,
    ).value
}

/// Checks a view. What is wrong is left out with a warning, and the rest is kept.
pub fn validate_raw_view(raw: &RawSavedView) -> (r: ValidatedSavedView)
    ensures
        is_checked_view(r.view, *raw),
        raw.view.well_formed() ==> r.view.view.well_formed(),
        saved_colors::warning_views(r.warnings@) == view_warnings(*raw),
{
    let mut warnings: Vec<SavedViewWarning> = Vec::new();
    let ghost start = saved_colors::warning_views(warnings@);
    let ghost mut acc = source_warnings(raw.source);
    let source = check_source(&raw.source, &mut warnings);
    let named = match &raw.view.nulls {
        Some(text) => parse_null_placement(text),
        None => None,
    };
    let nulls = check_name(
        &raw.view.nulls,
        named,
        "view.nulls",
        "unknown null placement '",
        "'",
        &mut warnings,
    );
    proof {
        lemma_appended(start, acc, view_nulls(raw.view).warnings);
        acc = acc + view_nulls(raw.view).warnings;
    }
    let named = match &raw.view.locale {
        Some(text) => if is_posix_locale(text) {
            Some(text.clone())
        } else {
            None
        },
        None => None,
    };
    let locale = check_name(
        &raw.view.locale,
        named,
        "view.locale",
        "unsupported POSIX-style locale '",
        "', falling back to en_US",
        &mut warnings,
    );
    proof {
        lemma_appended(start, acc, view_locale(raw.view).warnings);
        acc = acc + view_locale(raw.view).warnings;
    }
    let filenames = check_filenames(&raw.filenames, raw.filenames.len(), &mut warnings);
    let ghost piece = filenames_checked(raw.filenames@, raw.filenames@.len() as int).warnings;
    proof {
        lemma_appended(start, acc, piece);
        acc = acc + piece;
    }
    let columns = check_columns(&raw.view.columns, raw.view.columns.len(), &mut warnings);
    let ghost piece = columns_checked(raw.view.columns@, raw.view.columns@.len() as int).warnings;
    proof {
        if raw.view.well_formed() {
            lemma_checked_keys(raw.view.columns@, raw.view.columns@.len() as int);
            assert forall|i: int, j: int| 0 <= i < j < columns@.len() implies text::text_before(
                #[trigger] column_keys(columns@)[i],
                #[trigger] column_keys(columns@)[j],
            ) by {
                assert(keyed_views(columns@)[i].0 == column_keys(columns@)[i]);
                assert(keyed_views(columns@)[j].0 == column_keys(columns@)[j]);
            }
        }
        lemma_appended(start, acc, piece);
        acc = acc + piece;
    }
    let count: usize = if raw.view.sort.len() < MAX_SORT_KEYS {
        raw.view.sort.len()
    } else {
        MAX_SORT_KEYS
    };
    let sort = check_sorts(&raw.view.sort, count, &mut warnings);
    let ghost piece = sorts_checked(raw.view.sort@, count as int).warnings;
    proof {
        lemma_appended(start, acc, piece);
        acc = acc + piece;
        lemma_appended(start, acc, sort_warnings(raw.view));
        assert((start + acc) + saved_colors::silent() =~= start + acc);
        acc = acc + sort_warnings(raw.view);
    }
    if raw.view.sort.len() > MAX_SORT_KEYS {
        warn(&mut warnings, "view.sort", "only the first 3 sort keys are used");
    }
    let filters = check_filters(&raw.view.filters, raw.view.filters.len(), &mut warnings);
    let ghost piece = filters_checked(raw.view.filters@, raw.view.filters@.len() as int).warnings;
    proof {
        lemma_appended(start, acc, piece);
        acc = acc + piece;
        assert(start + acc =~= acc);
    }
    ValidatedSavedView {
        view: SavedView {
            name: raw.name.clone(),
            filenames,
            source,
            view: SavedViewConfig { locale, nulls, columns, sort, filters },
        },
        warnings,
    }
}

/// Why a saved view could not be read.
#[derive(Debug, Clone, PartialEq, Eq)]
pub enum SavedViewParseError {
    Yaml(String),
}

impl SavedViewParseError {
    /// The error in words.
    pub open spec fn text(self) -> Seq<char> {
        match self {
            SavedViewParseError::Yaml(fault) => "invalid saved view yaml: "@ + fault@,
        }
    }

    /// The error in words.
    pub fn message(&self) -> (r: String)
        ensures
            r@ == self.text(),
    {
        match self {
            SavedViewParseError::Yaml(fault) => concat2("invalid saved view yaml: ", fault),
        }
    }
}

/// Checks what was read of a saved view, unless its text could not be read as one.
pub fn parse_saved_view_yaml(read: Result<RawSavedView, String>) -> (r: Result<
    ValidatedSavedView,
    SavedViewParseError,
>)
    ensures
        match (read, r) {
            (Ok(raw), Ok(validated)) => {
                &&& is_checked_view(validated.view, raw)
                &&& raw.view.well_formed() ==> validated.view.view.well_formed()
                &&& saved_colors::warning_views(validated.warnings@) == view_warnings(raw)
            },
            (Err(fault), Err(error)) => error == SavedViewParseError::Yaml(fault),
            _ => false,
        },
{
    match read {
        Ok(raw) => Ok(validate_raw_view(&raw)),
        Err(fault) => Err(SavedViewParseError::Yaml(fault)),
    }
}

// ---------------------------------------------------------------------------
// Source options
// ---------------------------------------------------------------------------

/// How a source compares for a filter of a view.
pub open spec fn table_operator(operator: SourceFilterOperator) -> crate::table::SourceFilterOperator {
    match operator {
        SourceFilterOperator::Equal => crate::table::SourceFilterOperator::Equal,
        SourceFilterOperator::NotEqual => crate::table::SourceFilterOperator::NotEqual,
        SourceFilterOperator::LessThan => crate::table::SourceFilterOperator::LessThan,
        SourceFilterOperator::LessOrEqual => crate::table::SourceFilterOperator::LessThanOrEqual,
        SourceFilterOperator::GreaterThan => crate::table::SourceFilterOperator::GreaterThan,
        SourceFilterOperator::GreaterOrEqual =>
            crate::table::SourceFilterOperator::GreaterThanOrEqual,
        SourceFilterOperator::Contains => crate::table::SourceFilterOperator::Contains,
        SourceFilterOperator::Prefix => crate::table::SourceFilterOperator::Prefix,
        SourceFilterOperator::IsNull => crate::table::SourceFilterOperator::IsNull,
        SourceFilterOperator::IsNotNull => crate::table::SourceFilterOperator::IsNotNull,
    }
}

/// Which way a source sorts for an order of a view.
pub open spec fn table_direction(direction: SortDirection) -> crate::table::SortDirection {
    match direction {
        SortDirection::Asc => crate::table::SortDirection::Ascending,
        SortDirection::Desc => crate::table::SortDirection::Descending,
    }
}

fn operator_for_table(operator: SourceFilterOperator) -> (r: crate::table::SourceFilterOperator)
    ensures
        r == table_operator(operator),
{
    match operator {
        SourceFilterOperator::Equal => crate::table::SourceFilterOperator::Equal,
        SourceFilterOperator::NotEqual => crate::table::SourceFilterOperator::NotEqual,
        SourceFilterOperator::LessThan => crate::table::SourceFilterOperator::LessThan,
        SourceFilterOperator::LessOrEqual => crate::table::SourceFilterOperator::LessThanOrEqual,
        SourceFilterOperator::GreaterThan => crate::table::SourceFilterOperator::GreaterThan,
        SourceFilterOperator::GreaterOrEqual =>
            crate::table::SourceFilterOperator::GreaterThanOrEqual,
        SourceFilterOperator::Contains => crate::table::SourceFilterOperator::Contains,
        SourceFilterOperator::Prefix => crate::table::SourceFilterOperator::Prefix,
        SourceFilterOperator::IsNull => crate::table::SourceFilterOperator::IsNull,
        SourceFilterOperator::IsNotNull => crate::table::SourceFilterOperator::IsNotNull,
    }
}

/// The value of an optional operand.
pub open spec fn operand_view(operand: Option<SourceOperand>) -> Option<OperandModel> {
    match operand {
        Some(operand) => Some(operand@),
        None => None,
    }
}

/// Whether a request asks a source for what a filter of a view says.
pub open spec fn requests_filter(request: SourceFilterRequest, filter: SavedSourceFilter) -> bool {
    &&& request.column@ == filter.column@
    &&& request.operator == table_operator(filter.operator)
    &&& operand_view(request.operand) == filter@.value
}

/// Whether a request asks a source for what an order of a view says.
pub open spec fn requests_sort(request: SourceSortRequest, sort: SavedSourceSort) -> bool {
    &&& request.column@ == sort.column@
    &&& request.direction == table_direction(sort.direction)
}

/// Whether these are the choices that a view makes for its source.
pub open spec fn are_source_options(r: SourceOptionOverrides, source: SavedSourceConfig) -> bool {
    &&& r.format == source.format
    &&& options::path_view(r.json_path) == options::path_view(source.json_path)
    &&& r.object_mode == source.object_mode
    &&& r.schema_scan == source.schema_scan
    &&& text::opt_view(r.table) == text::opt_view(source.table)
    &&& text::opt_view(r.native_query) == text::opt_view(source.query)
    &&& match (r.limit, source.limit) {
        (Some(limit), Some(n)) => limit.value() == n,
        (None, Some(n)) => n == 0,
        (None, None) => true,
        _ => false,
    }
    &&& r.source_filters is Some
    &&& r.source_filters->0@.len() == source.filters@.len()
    &&& forall|i: int|
        0 <= i < source.filters@.len() ==> requests_filter(
            #[trigger] r.source_filters->0@[i],
            source.filters@[i],
        )
    &&& r.source_sort is Some
    &&& r.source_sort->0@.len() == source.sort@.len()
    &&& forall|i: int|
        0 <= i < source.sort@.len() ==> requests_sort(
            #[trigger] r.source_sort->0@[i],
            source.sort@[i],
        )
}

fn filter_requests(filters: &Vec<SavedSourceFilter>) -> (r: Vec<SourceFilterRequest>)
    ensures
        r@.len() == filters@.len(),
        forall|i: int| 0 <= i < r@.len() ==> requests_filter(#[trigger] r@[i], filters@[i]),
{
    let mut out: Vec<SourceFilterRequest> = Vec::new();
    let mut i: usize = 0;
    while i < filters.len()
        invariant
            i <= filters@.len(),
            out@.len() == i,
            forall|k: int| 0 <= k < i ==> requests_filter(#[trigger] out@[k], filters@[k]),
        decreases filters@.len() - i,
    {
        let filter = &filters[i];
        let operand = match &filter.value {
            Some(SourceFilterValue::Boolean(b)) => Some(SourceOperand::Boolean(*b)),
            Some(SourceFilterValue::Integer(n)) => Some(SourceOperand::Integer(*n)),
            Some(SourceFilterValue::Float(s)) => Some(SourceOperand::Float(s.clone())),
            Some(SourceFilterValue::Text(s)) => Some(SourceOperand::Text(s.clone())),
            None => None,
        };
        out.push(
            SourceFilterRequest {
                column: filter.column.clone(),
                operator: operator_for_table(filter.operator),
                operand,
            },
        );
        i = i + 1;
    }
    out
}

fn sort_requests(sorts: &Vec<SavedSourceSort>) -> (r: Vec<SourceSortRequest>)
    ensures
        r@.len() == sorts@.len(),
        forall|i: int| 0 <= i < r@.len() ==> requests_sort(#[trigger] r@[i], sorts@[i]),
{
    let mut out: Vec<SourceSortRequest> = Vec::new();
    let mut i: usize = 0;
    while i < sorts.len()
        invariant
            i <= sorts@.len(),
            out@.len() == i,
            forall|k: int| 0 <= k < i ==> requests_sort(#[trigger] out@[k], sorts@[k]),
        decreases sorts@.len() - i,
    {
        let direction = match sorts[i].direction {
            SortDirection::Asc => crate::table::SortDirection::Ascending,
            SortDirection::Desc => crate::table::SortDirection::Descending,
        };
        out.push(SourceSortRequest { column: sorts[i].column.clone(), direction });
        i = i + 1;
    }
    out
}

impl SavedView {
    /// The choices that a view makes for its source.
    pub fn source_options(&self) -> (r: SourceOptionOverrides)
        ensures
            are_source_options(r, self.source),
    {
        SourceOptionOverrides {
            format: self.source.format,
            json_path: match &self.source.json_path {
                Some(path) => Some(path.clone()),
                None => None,
            },
            object_mode: self.source.object_mode,
            schema_scan: self.source.schema_scan,
            table: self.source.table.clone(),
            native_query: self.source.query.clone(),
            limit: match self.source.limit {
                Some(n) => RowLimit::new(n),
                None => None,
            },
            source_filters: Some(filter_requests(&self.source.filters)),
            source_sort: Some(sort_requests(&self.source.sort)),
        }
    }

    /// The options for opening a source with this view.
    pub fn merged_open_options(
        &self,
        defaults: OpenOptions,
        cli: &SourceOptionOverrides,
    ) -> (r: OpenOptions)
        ensures
            exists|saved: SourceOptionOverrides| #[trigger]
                are_source_options(saved, self.source) && options::is_merge(r, defaults, saved, *cli),
    {
        OpenOptions::merge(defaults, &self.source_options(), cli)
    }
}

// ---------------------------------------------------------------------------
// Laws
// ---------------------------------------------------------------------------

proof fn lemma_sorts_shrink(raw: Seq<RawSortKey>, n: int)
    requires
        0 <= n <= raw.len(),
    ensures
        sorts_checked(raw, n).value.len() <= n,
    decreases n,
{
    if n > 0 {
        lemma_sorts_shrink(raw, n - 1);
    }
}

/// However many sort keys are written, a view keeps three at most.
pub proof fn views_sort_by_few_keys(raw: RawSavedViewConfig)
    ensures
        sorts_checked(raw.sort@, sort_count(raw)).value.len() <= MAX_SORT_KEYS,
{
    lemma_sorts_shrink(raw.sort@, sort_count(raw));
}

/// A view that is taken over without a warning keeps every sort key and filter that
/// is written, up to the limit.
pub proof fn silent_lists_are_complete(sorts: Seq<RawSortKey>, filters: Seq<RawSavedFilter>, n: int)
    requires
        0 <= n <= sorts.len(),
        n <= filters.len(),
    ensures
        sorts_checked(sorts, n).warnings.len() == 0 ==> sorts_checked(sorts, n).value.len() == n,
        filters_checked(filters, n).warnings.len() == 0 ==> filters_checked(filters, n).value.len()
            == n,
    decreases n,
{
    if n > 0 {
        silent_lists_are_complete(sorts, filters, n - 1);
    }
}

/// The two directions of a sort are read by their own names, and nothing else is a
/// direction.
pub proof fn directions_are_read_by_their_names(value: Seq<char>)
    ensures
        direction_named(value) == Some(SortDirection::Asc) <==> value == "asc"@,
        direction_named(value) == Some(SortDirection::Desc) <==> value == "desc"@,
        direction_named(value) is None <==> value != "asc"@ && value != "desc"@,
{
    reveal_strlit("asc");
    reveal_strlit("desc");
    assert("asc"@.len() == 3);
    assert("desc"@.len() == 4);
}

/// Each type of column is read by its own names.
pub proof fn types_are_read_by_their_names(value: Seq<char>)
    ensures
        type_named(value) == Some(ColumnType::String(StringKind::Text)) <==> (value == "string"@ || value == "text"@),
        type_named(value) == Some(ColumnType::String(StringKind::Date)) <==> value == "date"@,
        type_named(value) == Some(ColumnType::String(StringKind::Ip)) <==> value == "ip"@,
        type_named(value) == Some(ColumnType::Number(NumberKind::Float)) <==> (value == "number"@ || value == "float"@),
        type_named(value) == Some(ColumnType::Number(NumberKind::Int)) <==> value == "integer"@,
        type_named(value) == Some(ColumnType::Number(NumberKind::SemVer)) <==> value == "semver"@,
        type_named(value) == Some(ColumnType::Boolean(BooleanKind::Word)) <==> (value == "boolean"@ || value == "word"@),
        type_named(value) == Some(ColumnType::Boolean(BooleanKind::Char)) <==> value == "char"@,
        type_named(value) == Some(ColumnType::Boolean(BooleanKind::Bit)) <==> value == "bit"@,
        type_named(value) is None <==> value != "string"@ && value != "text"@ && value != "date"@ && value != "ip"@ && value != "number"@ && value != "float"@ && value != "integer"@ && value != "semver"@ && value != "boolean"@ && value != "word"@ && value != "char"@ && value != "bit"@,
{
    reveal_strlit("string");
    reveal_strlit("text");
    reveal_strlit("date");
    reveal_strlit("ip");
    reveal_strlit("number");
    reveal_strlit("float");
    reveal_strlit("integer");
    reveal_strlit("semver");
    reveal_strlit("boolean");
    reveal_strlit("word");
    reveal_strlit("char");
    reveal_strlit("bit");
    assert("string"@.len() == 6);
    assert("text"@.len() == 4);
    assert("date"@.len() == 4);
    assert("ip"@.len() == 2);
    assert("number"@.len() == 6);
    assert("float"@.len() == 5);
    assert("integer"@.len() == 7);
    assert("semver"@.len() == 6);
    assert("boolean"@.len() == 7);
    assert("word"@.len() == 4);
    assert("char"@.len() == 4);
    assert("bit"@.len() == 3);
    assert("text"@[0] != "date"@[0]);
    assert("string"@[0] != "number"@[0]);
    assert("string"@[1] != "semver"@[1]);
    assert("number"@[0] != "semver"@[0]);
    assert("integer"@[0] != "boolean"@[0]);
    assert("text"@[0] != "word"@[0]);
    assert("date"@[0] != "word"@[0]);
    assert("text"@[0] != "char"@[0]);
    assert("date"@[0] != "char"@[0]);
    assert("word"@[0] != "char"@[0]);
}

/// Each way of showing a value is read by its own name.
pub proof fn formats_are_read_by_their_names(value: Seq<char>)
    ensures
        format_named(value) == Some(DisplayFormat::Plain) <==> value == "plain"@,
        format_named(value) == Some(DisplayFormat::Locale) <==> value == "locale"@,
        format_named(value) == Some(DisplayFormat::Mask) <==> value == "mask"@,
        format_named(value) == Some(DisplayFormat::Uppercase) <==> value == "uppercase"@,
        format_named(value) == Some(DisplayFormat::Lowercase) <==> value == "lowercase"@,
        format_named(value) == Some(DisplayFormat::Char) <==> value == "char"@,
        format_named(value) == Some(DisplayFormat::Bit) <==> value == "bit"@,
        format_named(value) == Some(DisplayFormat::Word) <==> value == "word"@,
        format_named(value) is None <==> value != "plain"@ && value != "locale"@ && value != "mask"@ && value != "uppercase"@ && value != "lowercase"@ && value != "char"@ && value != "bit"@ && value != "word"@,
{
    reveal_strlit("plain");
    reveal_strlit("locale");
    reveal_strlit("mask");
    reveal_strlit("uppercase");
    reveal_strlit("lowercase");
    reveal_strlit("char");
    reveal_strlit("bit");
    reveal_strlit("word");
    assert("plain"@.len() == 5);
    assert("locale"@.len() == 6);
    assert("mask"@.len() == 4);
    assert("uppercase"@.len() == 9);
    assert("lowercase"@.len() == 9);
    assert("char"@.len() == 4);
    assert("bit"@.len() == 3);
    assert("word"@.len() == 4);
    assert("uppercase"@[0] != "lowercase"@[0]);
    assert("mask"@[0] != "char"@[0]);
    assert("mask"@[0] != "word"@[0]);
    assert("char"@[0] != "word"@[0]);
}

/// The two sides that a column is aligned to are read by their own names.
pub proof fn sides_are_read_by_their_names(value: Seq<char>)
    ensures
        align_named(value) == Some(ColumnAlign::Left) <==> value == "left"@,
        align_named(value) == Some(ColumnAlign::Right) <==> value == "right"@,
        align_named(value) is None <==> value != "left"@ && value != "right"@,
{
    reveal_strlit("left");
    reveal_strlit("right");
    assert("left"@.len() == 4);
    assert("right"@.len() == 5);
}

/// The two places for missing values are read by their own names.
pub proof fn placements_are_read_by_their_names(value: Seq<char>)
    ensures
        placement_named(value) == Some(NullPlacement::First) <==> value == "first"@,
        placement_named(value) == Some(NullPlacement::Last) <==> value == "last"@,
        placement_named(value) is None <==> value != "first"@ && value != "last"@,
{
    reveal_strlit("first");
    reveal_strlit("last");
    assert("first"@.len() == 5);
    assert("last"@.len() == 4);
}

/// Each operator of a filter on the source is read by its own name.
pub proof fn operators_are_read_by_their_names(value: Seq<char>)
    ensures
        operator_named(value) == Some(SourceFilterOperator::Equal) <==> value == "equal"@,
        operator_named(value) == Some(SourceFilterOperator::NotEqual) <==> value == "not_equal"@,
        operator_named(value) == Some(SourceFilterOperator::LessThan) <==> value == "less_than"@,
        operator_named(value) == Some(SourceFilterOperator::LessOrEqual) <==> value == "less_or_equal"@,
        operator_named(value) == Some(SourceFilterOperator::GreaterThan) <==> value == "greater_than"@,
        operator_named(value) == Some(SourceFilterOperator::GreaterOrEqual) <==> value == "greater_or_equal"@,
        operator_named(value) == Some(SourceFilterOperator::Contains) <==> value == "contains"@,
        operator_named(value) == Some(SourceFilterOperator::Prefix) <==> value == "prefix"@,
        operator_named(value) == Some(SourceFilterOperator::IsNull) <==> value == "is_null"@,
        operator_named(value) == Some(SourceFilterOperator::IsNotNull) <==> value == "is_not_null"@,
        operator_named(value) is None <==> value != "equal"@ && value != "not_equal"@ && value != "less_than"@ && value != "less_or_equal"@ && value != "greater_than"@ && value != "greater_or_equal"@ && value != "contains"@ && value != "prefix"@ && value != "is_null"@ && value != "is_not_null"@,
{
    reveal_strlit("equal");
    reveal_strlit("not_equal");
    reveal_strlit("less_than");
    reveal_strlit("less_or_equal");
    reveal_strlit("greater_than");
    reveal_strlit("greater_or_equal");
    reveal_strlit("contains");
    reveal_strlit("prefix");
    reveal_strlit("is_null");
    reveal_strlit("is_not_null");
    assert("equal"@.len() == 5);
    assert("not_equal"@.len() == 9);
    assert("less_than"@.len() == 9);
    assert("less_or_equal"@.len() == 13);
    assert("greater_than"@.len() == 12);
    assert("greater_or_equal"@.len() == 16);
    assert("contains"@.len() == 8);
    assert("prefix"@.len() == 6);
    assert("is_null"@.len() == 7);
    assert("is_not_null"@.len() == 11);
    assert("not_equal"@[0] != "less_than"@[0]);
}

/// Each kind of sort is read by its own name.
pub proof fn sort_kinds_are_read_by_their_names(value: Seq<char>)
    ensures
        sort_kind_named(value) == Some(SortKind::Lexical) <==> value == "lexical"@,
        sort_kind_named(value) == Some(SortKind::Natural) <==> value == "natural"@,
        sort_kind_named(value) == Some(SortKind::Numeric) <==> value == "numeric"@,
        sort_kind_named(value) == Some(SortKind::Type) <==> value == "type"@,
        sort_kind_named(value) is None <==> value != "lexical"@ && value != "natural"@ && value != "numeric"@ && value != "type"@,
{
    reveal_strlit("lexical");
    reveal_strlit("natural");
    reveal_strlit("numeric");
    reveal_strlit("type");
    assert("lexical"@.len() == 7);
    assert("natural"@.len() == 7);
    assert("numeric"@.len() == 7);
    assert("type"@.len() == 4);
    assert("lexical"@[0] != "natural"@[0]);
    assert("lexical"@[0] != "numeric"@[0]);
    assert("natural"@[1] != "numeric"@[1]);
}

/// The two actions of a filter are read by their own names.
pub proof fn actions_are_read_by_their_names(value: Seq<char>)
    ensures
        action_named(value) == Some(FilterAction::In) <==> value == "in"@,
        action_named(value) == Some(FilterAction::Out) <==> value == "out"@,
        action_named(value) is None <==> value != "in"@ && value != "out"@,
{
    reveal_strlit("in");
    reveal_strlit("out");
    assert("in"@.len() == 2);
    assert("out"@.len() == 3);
}

/// Each kind of filter is read by its own name.
pub proof fn filter_kinds_are_read_by_their_names(value: Seq<char>)
    ensures
        filter_kind_named(value) == Some(FilterKind::Text) <==> value == "text"@,
        filter_kind_named(value) == Some(FilterKind::Regex) <==> value == "regex"@,
        filter_kind_named(value) == Some(FilterKind::Numeric) <==> value == "numeric"@,
        filter_kind_named(value) is None <==> value != "text"@ && value != "regex"@ && value != "numeric"@,
{
    reveal_strlit("text");
    reveal_strlit("regex");
    reveal_strlit("numeric");
    assert("text"@.len() == 4);
    assert("regex"@.len() == 5);
    assert("numeric"@.len() == 7);
}

/// Sort keys with known names are kept in their order, each with its column and with
/// the direction and the kind that are written; each other key is left out with one
/// warning.
pub proof fn sorts_are_kept_as_written(raw: Seq<RawSortKey>, n: int)
    requires
        0 <= n < raw.len(),
    ensures
        sorts_checked(raw, 0).value.len() == 0,
        sorts_checked(raw, 0).warnings.len() == 0,
        ({
            let before = sorts_checked(raw, n);
            let after = sorts_checked(raw, n + 1);
            let direction = raw[n].direction@;
            let kind = raw[n].kind@;
            if (direction == "asc"@ || direction == "desc"@) && (kind == "lexical"@ || kind
                == "natural"@ || kind == "numeric"@ || kind == "type"@) {
                let kept = after.value.last();
                &&& after.warnings == before.warnings
                &&& after.value.len() == before.value.len() + 1
                &&& after.value.drop_last() == before.value
                &&& kept.column == raw[n].column@
                &&& kept.direction is Asc <==> direction == "asc"@
                &&& kept.direction is Desc <==> direction == "desc"@
                &&& kept.kind is Lexical <==> kind == "lexical"@
                &&& kept.kind is Natural <==> kind == "natural"@
                &&& kept.kind is Numeric <==> kind == "numeric"@
                &&& kept.kind is Type <==> kind == "type"@
            } else {
                &&& after.value == before.value
                &&& after.warnings.len() == before.warnings.len() + 1
                &&& after.warnings.last().field == if direction == "asc"@ || direction == "desc"@ {
                    "view.sort.kind"@
                } else {
                    "view.sort.direction"@
                }
            }
        }),
{
    directions_are_read_by_their_names(raw[n].direction@);
    sort_kinds_are_read_by_their_names(raw[n].kind@);
    reveal_strlit("asc");
    reveal_strlit("desc");
    reveal_strlit("lexical");
    reveal_strlit("natural");
    reveal_strlit("numeric");
    reveal_strlit("type");
    assert("asc"@.len() == 3);
    assert("desc"@.len() == 4);
    assert("lexical"@.len() == 7);
    assert("natural"@.len() == 7);
    assert("numeric"@.len() == 7);
    assert("type"@.len() == 4);
    assert("lexical"@[0] != "natural"@[0]);
    assert("lexical"@[0] != "numeric"@[0]);
    assert("natural"@[1] != "numeric"@[1]);
    assert("desc"@[0] != "type"@[0]);
    let before = sorts_checked(raw, n);
    let after = sorts_checked(raw, n + 1);
    assert(sorts_checked(raw, n + 1 - 1) == before);
    assert(before.warnings + saved_colors::silent() =~= before.warnings);
    if after.value.len() > before.value.len() {
        assert(after.value.drop_last() =~= before.value);
    }
}

/// Filters with known names are kept in their order, each with its column, its
/// condition, and the action and the kind that are written; each other filter is left
/// out with one warning, and so is a pattern that cannot be read.
pub proof fn filters_are_kept_as_written(raw: Seq<RawSavedFilter>, n: int)
    requires
        0 <= n < raw.len(),
    ensures
        filters_checked(raw, 0).value.len() == 0,
        filters_checked(raw, 0).warnings.len() == 0,
        ({
            let before = filters_checked(raw, n);
            let after = filters_checked(raw, n + 1);
            let action = raw[n].action@;
            let kind = raw[n].kind@;
            if (action == "in"@ || action == "out"@) && (kind == "text"@ || kind == "numeric"@ || (
            kind == "regex"@ && patterns::regex_fault(raw[n].condition@) is None)) {
                let kept = after.value.last();
                &&& after.warnings == before.warnings
                &&& after.value.len() == before.value.len() + 1
                &&& after.value.drop_last() == before.value
                &&& kept.column == raw[n].column@
                &&& kept.condition == raw[n].condition@
                &&& kept.action is In <==> action == "in"@
                &&& kept.action is Out <==> action == "out"@
                &&& kept.kind is Text <==> kind == "text"@
                &&& kept.kind is Regex <==> kind == "regex"@
                &&& kept.kind is Numeric <==> kind == "numeric"@
            } else {
                &&& after.value == before.value
                &&& after.warnings.len() == before.warnings.len() + 1
                &&& after.warnings.last().field == if action != "in"@ && action != "out"@ {
                    "view.filters.action"@
                } else if kind == "regex"@ {
                    "view.filters.condition"@
                } else {
                    "view.filters.kind"@
                }
            }
        }),
{
    actions_are_read_by_their_names(raw[n].action@);
    filter_kinds_are_read_by_their_names(raw[n].kind@);
    reveal_strlit("in");
    reveal_strlit("out");
    reveal_strlit("text");
    reveal_strlit("regex");
    reveal_strlit("numeric");
    assert("in"@.len() == 2);
    assert("out"@.len() == 3);
    assert("text"@.len() == 4);
    assert("regex"@.len() == 5);
    assert("numeric"@.len() == 7);
    let before = filters_checked(raw, n);
    let after = filters_checked(raw, n + 1);
    assert(filters_checked(raw, n + 1 - 1) == before);
    assert(before.warnings + saved_colors::silent() =~= before.warnings);
    if after.value.len() > before.value.len() {
        assert(after.value.drop_last() =~= before.value);
    }
}

/// Sort keys of the source are kept in their order, each with its column and its
/// direction; one without a column or with an unknown direction is left out with one
/// warning.
pub proof fn source_sorts_are_kept_as_written(raw: Seq<RawSavedSourceSort>, n: int)
    requires
        0 <= n < raw.len(),
    ensures
        source_sorts_checked(raw, 0).value.len() == 0,
        source_sorts_checked(raw, 0).warnings.len() == 0,
        ({
            let before = source_sorts_checked(raw, n);
            let after = source_sorts_checked(raw, n + 1);
            let direction = raw[n].direction@;
            if raw[n].column@.len() > 0 && (direction == "asc"@ || direction == "desc"@) {
                let kept = after.value.last();
                &&& after.warnings == before.warnings
                &&& after.value.len() == before.value.len() + 1
                &&& after.value.drop_last() == before.value
                &&& kept.column == raw[n].column@
                &&& kept.direction is Asc <==> direction == "asc"@
                &&& kept.direction is Desc <==> direction == "desc"@
            } else {
                &&& after.value == before.value
                &&& after.warnings.len() == before.warnings.len() + 1
                &&& after.warnings.last().field == if raw[n].column@.len() == 0 {
                    "source.sort.column"@
                } else {
                    "source.sort.direction"@
                }
            }
        }),
{
    directions_are_read_by_their_names(raw[n].direction@);
    reveal_strlit("asc");
    reveal_strlit("desc");
    assert("asc"@.len() == 3);
    assert("desc"@.len() == 4);
    let before = source_sorts_checked(raw, n);
    let after = source_sorts_checked(raw, n + 1);
    assert(source_sorts_checked(raw, n + 1 - 1) == before);
    assert(before.warnings + saved_colors::silent() =~= before.warnings);
    if after.value.len() > before.value.len() {
        assert(after.value.drop_last() =~= before.value);
    }
}

/// Whether an operator, as written, tests for missing values and so takes no value.
pub open spec fn tests_for_null(operator: Seq<char>) -> bool {
    operator == "is_null"@ || operator == "is_not_null"@
}

/// Filters on the source with known operators are kept in their order, each with its
/// column and its value; one that tests for missing values has none, and any other
/// without a value that is a scalar is left out.
pub proof fn source_filters_are_kept_as_written(raw: Seq<RawSavedSourceFilter>, n: int)
    requires
        0 <= n < raw.len(),
    ensures
        source_filters_checked(raw, 0).value.len() == 0,
        source_filters_checked(raw, 0).warnings.len() == 0,
        ({
            let before = source_filters_checked(raw, n);
            let after = source_filters_checked(raw, n + 1);
            let operator = operator_named(raw[n].operator@);
            let operand = match raw[n].value {
                Some(value) => filter_operand(value@),
                None => None,
            };
            let null_test = tests_for_null(raw[n].operator@);
            if raw[n].column@.len() > 0 && operator is Some && (null_test || operand is Some) {
                let kept = after.value.last();
                &&& after.value.len() == before.value.len() + 1
                &&& after.value.drop_last() == before.value
                &&& kept.column == raw[n].column@
                &&& Some(kept.operator) == operator
                &&& kept.value == if null_test {
                    None
                } else {
                    operand
                }
                &&& after.warnings.len() == before.warnings.len() + if null_test
                    && raw[n].value is Some {
                    1int
                } else {
                    0
                }
            } else {
                &&& after.value == before.value
                &&& after.warnings.len() == before.warnings.len() + 1
                &&& after.warnings.last().field == if raw[n].column@.len() == 0 {
                    "source.filters.column"@
                } else if operator is None {
                    "source.filters.operator"@
                } else {
                    "source.filters.value"@
                }
            }
        }),
{
    operators_are_read_by_their_names(raw[n].operator@);
    reveal_strlit("is_null");
    reveal_strlit("is_not_null");
    let before = source_filters_checked(raw, n);
    let after = source_filters_checked(raw, n + 1);
    assert(source_filters_checked(raw, n + 1 - 1) == before);
    assert(before.warnings + saved_colors::silent() =~= before.warnings);
    if after.value.len() > before.value.len() {
        assert(after.value.drop_last() =~= before.value);
    }
}

/// The value of a filter is the scalar that is written, in its own kind; nothing else
/// is a value.
pub proof fn filter_values_are_scalars(value: YamlModel, a: OperandModel)
    ensures
        filter_operand(value) == Some(a) <==> match a {
            OperandModel::Boolean(b) => value == YamlModel::Bool(b),
            OperandModel::Integer(n) => value == YamlModel::Integer(n),
            OperandModel::Float(s) => value == YamlModel::Decimal(s),
            OperandModel::Text(s) => value == YamlModel::Text(s),
        },
{
}

/// A filter that is written for the source asks the source for what is written: the
/// column and the operator of that name.
pub proof fn source_filters_ask_for_what_is_written(
    request: SourceFilterRequest,
    filter: SavedSourceFilter,
    raw: RawSavedSourceFilter,
)
    requires
        source_filter_checked(raw).value == Some(filter@),
        requests_filter(request, filter),
    ensures
        request.column@ == raw.column@,
        request.operator is Equal <==> raw.operator@ == "equal"@,
        request.operator is NotEqual <==> raw.operator@ == "not_equal"@,
        request.operator is LessThan <==> raw.operator@ == "less_than"@,
        request.operator is LessThanOrEqual <==> raw.operator@ == "less_or_equal"@,
        request.operator is GreaterThan <==> raw.operator@ == "greater_than"@,
        request.operator is GreaterThanOrEqual <==> raw.operator@ == "greater_or_equal"@,
        request.operator is Contains <==> raw.operator@ == "contains"@,
        request.operator is Prefix <==> raw.operator@ == "prefix"@,
        request.operator is IsNull <==> raw.operator@ == "is_null"@,
        request.operator is IsNotNull <==> raw.operator@ == "is_not_null"@,
        request.operator is IsNull || request.operator is IsNotNull ==> request.operand is None,
        !(request.operator is IsNull || request.operator is IsNotNull) ==> operand_view(
            request.operand,
        ) == filter_operand(raw.value->0@) && operand_view(request.operand) is Some,
{
    operators_are_read_by_their_names(raw.operator@);
}

/// A sort that is written for the source asks for its column in the direction that is
/// written.
pub proof fn source_sorts_ask_for_what_is_written(
    request: SourceSortRequest,
    sort: SavedSourceSort,
    raw: RawSavedSourceSort,
)
    requires
        source_sort_checked(raw).value == Some(sort@),
        requests_sort(request, sort),
    ensures
        request.column@ == raw.column@,
        request.direction is Ascending <==> raw.direction@ == "asc"@,
        request.direction is Descending <==> raw.direction@ == "desc"@,
{
    directions_are_read_by_their_names(raw.direction@);
}

/// The text of a mask with so many decimal places.
pub open spec fn mask_text(grouped: bool, places: nat) -> Seq<char> {
    (if grouped {
        seq!['#', ',', '#', '#']
    } else {
        Seq::empty()
    }) + seq!['0'] + if places == 0 {
        Seq::empty()
    } else {
        seq!['.'] + Seq::new(places, |i: int| '0')
    }
}

/// A mask is one required digit, grouped or not, and a zero for each decimal place;
/// nothing else is a mask.
pub proof fn masks_read_back(value: Seq<char>, grouped: bool, places: nat)
    ensures
        mask_named(mask_text(grouped, places)) == Ok::<MaskModel, Seq<char>>(
            MaskModel { raw: mask_text(grouped, places), grouped, decimal_places: places },
        ),
        mask_named(value) matches Ok(m) ==> m.raw == value && value == mask_text(
            m.grouped,
            m.decimal_places,
        ),
{
    reveal_strlit("#,##");
    reveal_strlit("0");
    reveal_strlit(".");
    let text = mask_text(grouped, places);
    if grouped {
        assert(text.take(4) =~= "#,##"@);
        assert(text.skip(4) =~= mask_text(false, places));
    } else if text.len() >= 4 {
        assert(text.take(4)[0] == '0');
    }
    let rest = mask_text(false, places);
    assert(rest.take(1) =~= "0"@);
    if places > 0 {
        let zeros = Seq::new(places, |i: int| '0');
        assert(rest.skip(1) =~= seq!['.'] + zeros);
        assert(rest.skip(1).take(1) =~= "."@);
        assert(rest.skip(1).skip(1) =~= zeros);
    } else {
        assert(rest.skip(1).len() == 0);
    }
    if let Ok(m) = mask_named(value) {
        let rest = if m.grouped {
            value.skip(4)
        } else {
            value
        };
        if m.grouped {
            assert(value.take(4) == "#,##"@);
            assert(value =~= seq!['#', ',', '#', '#'] + rest) by {
                assert forall|i: int| 0 <= i < 4 implies value[i] == "#,##"@[i] by {
                    assert(value.take(4)[i] == value[i]);
                }
            }
        }
        assert(rest.take(1)[0] == '0');
        let decimal = rest.skip(1);
        if decimal.len() == 0 {
            assert(rest =~= mask_text(false, 0));
        } else {
            assert(decimal.take(1)[0] == '.');
            let places = decimal.skip(1);
            assert(places =~= Seq::new(places.len(), |i: int| '0'));
            assert(rest =~= mask_text(false, places.len()));
        }
        assert(value =~= mask_text(m.grouped, m.decimal_places));
    }
}

/// A width is a number above zero or one of four words.
pub proof fn widths_are_read_as_written(n: u16, word: String)
    ensures
        width_named(RawColumnWidth::Fixed(n)) == Ok::<ColumnWidth, Seq<char>>(
            ColumnWidth::Fixed(n),
        ) <==> n > 0,
        width_named(RawColumnWidth::Fixed(n)) is Err <==> n == 0,
        width_named(RawColumnWidth::Mode(word)) == Ok::<ColumnWidth, Seq<char>>(
            ColumnWidth::Header,
        ) <==> word@ == "header"@,
        width_named(RawColumnWidth::Mode(word)) == Ok::<ColumnWidth, Seq<char>>(
            ColumnWidth::Content,
        ) <==> word@ == "content"@,
        width_named(RawColumnWidth::Mode(word)) == Ok::<ColumnWidth, Seq<char>>(
            ColumnWidth::Mode,
        ) <==> word@ == "mode"@,
        width_named(RawColumnWidth::Mode(word)) == Ok::<ColumnWidth, Seq<char>>(
            ColumnWidth::Max,
        ) <==> word@ == "max"@,
        width_named(RawColumnWidth::Mode(word)) is Err <==> word@ != "header"@ && word@
            != "content"@ && word@ != "mode"@ && word@ != "max"@,
{
    reveal_strlit("header");
    reveal_strlit("content");
    reveal_strlit("mode");
    reveal_strlit("max");
    assert("header"@.len() == 6);
    assert("content"@.len() == 7);
    assert("mode"@.len() == 4);
    assert("max"@.len() == 3);
}

/// A locale begins with a letter and goes on with letters, digits and the four signs;
/// it is found out character by character.
pub proof fn locales_grow_by_their_characters(value: Seq<char>, c: char)
    ensures
        !is_locale(Seq::empty()),
        is_locale(seq![c]) <==> ('a' <= c <= 'z' || 'A' <= c <= 'Z'),
        value.len() > 0 ==> (is_locale(value.push(c)) <==> is_locale(value) && ('a' <= c <= 'z'
            || 'A' <= c <= 'Z' || '0' <= c <= '9' || c == '_' || c == '.' || c == '-' || c == '@')),
{
    let grown = value.push(c);
    if value.len() > 0 {
        if is_locale(grown) {
            assert(grown[value.len() as int] == c);
            assert forall|i: int| 1 <= i < value.len() implies is_letter(#[trigger] value[i])
                || text::is_digit(value[i]) || value[i] == '_' || value[i] == '.' || value[i] == '-'
                || value[i] == '@' by {
                assert(grown[i] == value[i]);
            }
        }
        assert(grown[0] == value[0]);
    }
}

/// The directory of the configuration is the one that is set, or else the usual one
/// below the home directory.
pub proof fn configuration_is_where_it_is_set(dir: Seq<char>, home: Option<Seq<char>>)
    ensures
        dir.len() > 0 ==> config_dir(Some(dir), home) == Some(dir),
        config_dir(Some(Seq::empty()), home) == config_dir(None, home),
        home is None ==> config_dir(None, home) is None,
        home matches Some(h) && h.len() > 0 && h.last() != '/' ==> config_dir(None, home) == Some(
            home->0 + seq!['/', '.', 'c', 'o', 'n', 'f', 'i', 'g'],
        ),
{
    reveal_strlit(".config");
    reveal_strlit("/");
    if home is Some && home->0.len() > 0 && home->0.last() != '/' {
        assert(config_dir(None, home)->0 =~= home->0 + seq!['/', '.', 'c', 'o', 'n', 'f', 'i', 'g']);
    }
}

/// A column keeps what is written of it, each under its own heading.
pub proof fn columns_are_kept_as_written(key: String, raw: RawColumnView)
    requires
        key@.len() > 0,
        !patterns::is_wildcard(key@),
    ensures
        column_checked((key, raw)).value is Some,
        ({
            let entry = column_checked((key, raw)).value->0;
            let kept = entry.1;
            &&& entry.0 == key@
            &&& kept.visible == raw.visible
            &&& raw.label is None ==> kept.label is None
            &&& raw.label matches Some(label) ==> kept.label == if label@.len() > 0 {
                Some(label@)
            } else {
                None
            }
            &&& raw.nulls is None ==> kept.nulls is None
            &&& raw.nulls matches Some(word) ==> {
                &&& kept.nulls == Some(NullPlacement::First) <==> word@ == "first"@
                &&& kept.nulls == Some(NullPlacement::Last) <==> word@ == "last"@
            }
            &&& raw.align is None ==> kept.align is None
            &&& raw.align matches Some(word) ==> {
                &&& kept.align == Some(ColumnAlign::Left) <==> word@ == "left"@
                &&& kept.align == Some(ColumnAlign::Right) <==> word@ == "right"@
            }
            &&& raw.column_type is None ==> kept.column_type is None
            &&& raw.column_type matches Some(word) ==> kept.column_type == type_named(word@)
            &&& raw.format is None ==> kept.format is None
            &&& raw.format matches Some(word) ==> kept.format == format_named(word@)
            &&& raw.mask is None ==> kept.mask is None
            &&& raw.mask matches Some(mask) ==> (kept.mask is Some <==> mask_named(mask@) is Ok)
            &&& raw.mask is Some && kept.mask is Some ==> kept.mask->0.raw == raw.mask->0@
            &&& raw.width is None ==> kept.width is None
            &&& raw.width matches Some(RawColumnWidth::Fixed(n)) ==> kept.width == if n > 0 {
                Some(ColumnWidth::Fixed(n))
            } else {
                None
            }
        }),
{
    if raw.nulls is Some {
        placements_are_read_by_their_names(raw.nulls->0@);
    }
    if raw.align is Some {
        sides_are_read_by_their_names(raw.align->0@);
    }
    if raw.mask is Some {
        masks_read_back(raw.mask->0@, false, 0);
    }
}

/// What is written of the source is kept, each under its own heading: names that are
/// unknown, empty texts and a limit of zero are not.
pub proof fn sources_are_kept_as_written(source: SavedSourceConfig, raw: RawSavedSourceConfig)
    requires
        is_checked_source(source, raw),
    ensures
        raw.format is None ==> source.format is None,
        raw.format matches Some(word) ==> source.format == InputFormat::named(word@),
        raw.schema_scan is None ==> source.schema_scan is None,
        raw.schema_scan matches Some(word) ==> source.schema_scan == SchemaScan::named(word@),
        raw.object_mode is None ==> source.object_mode is None,
        raw.object_mode matches Some(word) ==> source.object_mode == if (source.format == Some(
            InputFormat::Delimited,
        ) || source.format == Some(InputFormat::Ndjson)) && ObjectMode::named(word@) != Some(
            ObjectMode::Auto,
        ) {
            None
        } else {
            ObjectMode::named(word@)
        },
        raw.limit == Some(0usize) ==> source.limit is None,
        raw.limit != Some(0usize) ==> source.limit == raw.limit,
        raw.table is None ==> source.table is None,
        raw.table matches Some(name) ==> text::opt_view(source.table) == if name@.len() > 0 {
            Some(name@)
        } else {
            None
        },
        raw.query is None ==> source.query is None,
        raw.query matches Some(query) ==> text::opt_view(source.query) == if text::trimmed(
            query@,
        ).len() > 0 && query@.len() > 0 {
            Some(query@)
        } else {
            None
        },
        raw.json_path is None ==> source.json_path is None,
        raw.json_path matches Some(path) ==> options::path_view(source.json_path)
            == if options::pointer_keys(path@) is Some {
            Some(path@)
        } else {
            None
        },
{
}

/// A view keeps its name, and the placement and the locale that are written.
pub proof fn views_are_kept_as_written(view: SavedView, raw: RawSavedView)
    requires
        is_checked_view(view, raw),
    ensures
        view.name@ == raw.name@,
        raw.view.nulls is None ==> view.view.nulls is None,
        raw.view.nulls matches Some(word) ==> (view.view.nulls == Some(NullPlacement::First)
            <==> word@ == "first"@),
        raw.view.nulls matches Some(word) ==> (view.view.nulls == Some(NullPlacement::Last)
            <==> word@ == "last"@),
        raw.view.locale is None ==> view.view.locale is None,
        raw.view.locale matches Some(locale) ==> text::opt_view(view.view.locale) == if is_locale(
            locale@,
        ) {
            Some(locale@)
        } else {
            None
        },
{
    if raw.view.nulls is Some {
        placements_are_read_by_their_names(raw.view.nulls->0@);
    }
}

/// Where every sort key has known names, the view sorts by the first three, in the
/// order and the directions that are written.
pub proof fn views_sort_as_written(view: SavedView, raw: RawSavedView, i: int)
    requires
        is_checked_view(view, raw),
        sorts_checked(raw.view.sort@, sort_count(raw.view)).warnings.len() == 0,
        0 <= i < raw.view.sort@.len(),
        i < 3,
    ensures
        i < view.view.sort@.len(),
        view.view.sort@.len() == if raw.view.sort@.len() < 3 {
            raw.view.sort@.len() as int
        } else {
            3
        },
        view.view.sort@[i].column@ == raw.view.sort@[i].column@,
        view.view.sort@[i].direction is Asc <==> raw.view.sort@[i].direction@ == "asc"@,
        view.view.sort@[i].direction is Desc <==> raw.view.sort@[i].direction@ == "desc"@,
        view.view.sort@[i].kind is Lexical <==> raw.view.sort@[i].kind@ == "lexical"@,
        view.view.sort@[i].kind is Natural <==> raw.view.sort@[i].kind@ == "natural"@,
        view.view.sort@[i].kind is Numeric <==> raw.view.sort@[i].kind@ == "numeric"@,
        view.view.sort@[i].kind is Type <==> raw.view.sort@[i].kind@ == "type"@,
{
    lemma_sorts_in_place(raw.view.sort@, sort_count(raw.view), i);
    let models = sort_views(view.view.sort@);
    assert(models.len() == view.view.sort@.len());
    assert(models[i] == view.view.sort@[i]@);
    directions_are_read_by_their_names(raw.view.sort@[i].direction@);
    sort_kinds_are_read_by_their_names(raw.view.sort@[i].kind@);
}

proof fn lemma_sorts_in_place(raw: Seq<RawSortKey>, n: int, i: int)
    requires
        0 <= i < n <= raw.len(),
        sorts_checked(raw, n).warnings.len() == 0,
    ensures
        sorts_checked(raw, n).value.len() == n,
        sort_checked(raw[i]).value == Some(sorts_checked(raw, n).value[i]),
    decreases n,
{
    if i < n - 1 {
        lemma_sorts_in_place(raw, n - 1, i);
    } else {
        lemma_silent_sorts(raw, n - 1);
    }
}

proof fn lemma_silent_sorts(raw: Seq<RawSortKey>, n: int)
    requires
        0 <= n <= raw.len(),
        sorts_checked(raw, n).warnings.len() == 0,
    ensures
        sorts_checked(raw, n).value.len() == n,
    decreases n,
{
    if n > 0 {
        lemma_silent_sorts(raw, n - 1);
    }
}

/// A pattern for file names that is not empty and can be read is kept as it is written,
/// with its kind; any other is left out with one warning.
pub proof fn file_patterns_are_kept_as_written(raw: Seq<String>, n: int)
    requires
        0 <= n < raw.len(),
    ensures
        filenames_checked(raw, 0).value.len() == 0,
        ({
            let pattern = raw[n]@;
            let kind = patterns::pattern_kind(pattern);
            let good = pattern.len() > 0 && (kind is Regex ==> patterns::regex_fault(pattern)
                is None) && (kind is Glob ==> patterns::bracket_fault(pattern, 0, false) is None);
            let before = filenames_checked(raw, n);
            let after = filenames_checked(raw, n + 1);
            &&& good ==> after.value == before.value.push(PatternModel { raw: pattern, kind })
                && after.warnings == before.warnings
            &&& !good ==> after.value == before.value && after.warnings.len()
                == before.warnings.len() + 1 && after.warnings.last().field == "filenames"@
        }),
{
    let before = filenames_checked(raw, n);
    let after = filenames_checked(raw, n + 1);
    assert(filenames_checked(raw, n + 1 - 1) == before);
    assert(before.warnings + saved_colors::silent() =~= before.warnings);
}

/// A value of a column that cannot be read is told under the column and the heading, and
/// one that can be read, or is not written, is not told.
pub proof fn unreadable_columns_are_told(key: Seq<char>, raw: RawColumnView)
    ensures
        ({
            let field = |name: Seq<char>| "view.columns."@ + key + "."@ + name;
            let kind = type_checked(key, raw).warnings;
            let format = format_checked(key, raw).warnings;
            let align = align_checked(key, raw).warnings;
            let nulls = nulls_checked(key, raw).warnings;
            let label = label_checked(key, raw).warnings;
            let mask = mask_checked(key, raw).warnings;
            let width = width_checked(key, raw).warnings;
            &&& kind.len() == 1 <==> raw.column_type is Some && type_named(raw.column_type->0@)
                is None
            &&& kind.len() == 1 ==> kind[0].field == field("type"@)
            &&& format.len() == 1 <==> raw.format is Some && format_named(raw.format->0@) is None
            &&& format.len() == 1 ==> format[0].field == field("format"@)
            &&& align.len() == 1 <==> raw.align is Some && align_named(raw.align->0@) is None
            &&& align.len() == 1 ==> align[0].field == field("align"@)
            &&& nulls.len() == 1 <==> raw.nulls is Some && placement_named(raw.nulls->0@) is None
            &&& nulls.len() == 1 ==> nulls[0].field == field("nulls"@)
            &&& label.len() == 1 <==> raw.label is Some && raw.label->0@.len() == 0
            &&& label.len() == 1 ==> label[0].field == field("label"@)
            &&& mask.len() == 1 <==> raw.mask is Some && mask_named(raw.mask->0@) is Err
            &&& mask.len() == 1 ==> mask[0].field == field("mask"@)
            &&& width.len() == 1 <==> raw.width is Some && width_named(raw.width->0) is Err
            &&& width.len() == 1 ==> width[0].field == field("width"@)
        }),
{
}

/// A masked column without a good mask is told, and so is a format for numbers on a
/// column that holds none.
pub proof fn unfitting_formats_are_told(key: Seq<char>, raw: RawColumnView)
    ensures
        ({
            let format = format_checked(key, raw).value;
            let kind = type_checked(key, raw).value;
            let unmasked = format == Some(DisplayFormat::Mask) && mask_checked(key, raw).value
                is None;
            let misplaced = (format == Some(DisplayFormat::Mask) || format == Some(
                DisplayFormat::Locale,
            )) && kind is Some && !(kind->0 is Number);
            let told = format_warnings(key, raw);
            &&& !unmasked && !misplaced ==> told.len() == 0
            &&& unmasked && misplaced ==> told.len() == 2
            &&& unmasked != misplaced ==> told.len() == 1
            &&& unmasked ==> told[0].field == "view.columns."@ + key + "."@ + "mask"@
            &&& misplaced ==> told.last().field == "view.columns."@ + key + "."@ + "format"@
        }),
{
}

/// A relation and a query together are told, a limit of nothing too, and more sort keys
/// than three.
pub proof fn conflicts_of_sources_are_told(raw: RawSavedSourceConfig, view: RawSavedViewConfig)
    ensures
        target_warnings(raw).len() == 1 <==> raw.table is Some && raw.table->0@.len() > 0
            && raw.query is Some && text::trimmed(raw.query->0@).len() > 0 && raw.query->0@.len()
            > 0,
        target_warnings(raw).len() <= 1,
        source_limit(raw).warnings.len() == 1 <==> raw.limit == Some(0usize),
        source_limit(raw).warnings.len() == 1 ==> source_limit(raw).warnings[0].field
            == "source.limit"@,
        sort_warnings(view).len() == 1 <==> view.sort@.len() > 3,
        sort_warnings(view).len() == 1 ==> sort_warnings(view)[0].field == "view.sort"@,
        view_nulls(view).warnings.len() == 1 <==> view.nulls is Some && placement_named(
            view.nulls->0@,
        ) is None,
        view_locale(view).warnings.len() == 1 <==> view.locale is Some && !is_locale(
            view.locale->0@,
        ),
{
}

/// A key that is empty, or a wildcard with brackets out of order, is left out with one
/// warning; any other column is kept in its order.
pub proof fn columns_are_kept_in_order(raw: Seq<(String, RawColumnView)>, n: int)
    requires
        0 <= n < raw.len(),
    ensures
        columns_checked(raw, 0).value.len() == 0,
        ({
            let key = raw[n].0@;
            let bad = key.len() == 0 || (patterns::is_wildcard(key) && patterns::bracket_fault(
                key,
                0,
                false,
            ) is Some);
            let before = columns_checked(raw, n);
            let after = columns_checked(raw, n + 1);
            &&& bad ==> after.value == before.value && after.warnings.len()
                == before.warnings.len() + 1
            &&& !bad ==> after.value.len() == before.value.len() + 1 && after.value.drop_last()
                == before.value && column_checked(raw[n]).value == Some(after.value.last())
        }),
{
    let before = columns_checked(raw, n);
    let after = columns_checked(raw, n + 1);
    assert(columns_checked(raw, n + 1 - 1) == before);
    if after.value.len() > before.value.len() {
        assert(after.value.drop_last() =~= before.value);
    }
}

/// The rules of a column for colours are kept in their order, each told under its number.
pub proof fn color_rules_are_kept_in_order(key: Seq<char>, raw: Seq<RawColorRule>, n: int)
    requires
        0 <= n < raw.len(),
    ensures
        colors_checked(key, raw, 0).value.len() == 0,
        ({
            let field = "view.columns."@ + key + "."@ + ("colors."@ + text::decimal(n as nat));
            let rule = saved_colors::color_rule(raw[n], field);
            let before = colors_checked(key, raw, n);
            let after = colors_checked(key, raw, n + 1);
            &&& rule.value matches Some(kept) ==> after.value == before.value.push(kept)
            &&& rule.value is None ==> after.value == before.value
            &&& after.warnings == before.warnings + rule.warnings
        }),
{
}

/// The options of a saved source are those that it holds, each in its own place.
pub proof fn saved_sources_become_options(r: SourceOptionOverrides, source: SavedSourceConfig)
    requires
        are_source_options(r, source),
    ensures
        r.format == source.format,
        r.object_mode == source.object_mode,
        r.schema_scan == source.schema_scan,
        text::opt_view(r.table) == text::opt_view(source.table),
        text::opt_view(r.native_query) == text::opt_view(source.query),
        source.limit matches Some(n) ==> (n > 0 ==> r.limit is Some && r.limit->0.value() == n),
        source.limit is None ==> r.limit is None,
        r.source_filters->0@.len() == source.filters@.len(),
        r.source_sort->0@.len() == source.sort@.len(),
        forall|i: int|
            0 <= i < source.sort@.len() ==> ((#[trigger] r.source_sort->0@[i]).direction
                is Descending <==> source.sort@[i].direction is Desc),
        forall|i: int|
            0 <= i < source.filters@.len() ==> (#[trigger] r.source_filters->0@[i]).column@
                == source.filters@[i].column@,
{
}

/// The name of a view is its file's name without the extension of a view file; another
/// extension belongs to the name.
pub proof fn view_names_lose_their_extension(stem: Seq<char>, e: Seq<char>)
    requires
        stem.len() > 0,
        text::lacks(e, '.'),
        source::is_plain_name(stem.push('.') + e),
    ensures
        e == "yml"@ || e == "yaml"@ ==> view_name(stem.push('.') + e) == stem,
        e != "yml"@ && e != "yaml"@ ==> view_name(stem.push('.') + e) == stem.push('.') + e,
{
    source::paths_have_the_extension_of_their_name(stem, stem, e);
}

/// A view is warned about as often as its parts are: its source, its placement, its locale,
/// its patterns, its columns, its sorts and its filters.
pub proof fn warnings_are_those_of_the_parts(raw: RawSavedView)
    ensures
        view_warnings(raw).len() == source_warnings(raw.source).len() + view_nulls(
            raw.view,
        ).warnings.len() + view_locale(raw.view).warnings.len() + filenames_checked(
            raw.filenames@,
            raw.filenames@.len() as int,
        ).warnings.len() + columns_checked(
            raw.view.columns@,
            raw.view.columns@.len() as int,
        ).warnings.len() + sorts_checked(raw.view.sort@, sort_count(raw.view)).warnings.len()
            + sort_warnings(raw.view).len() + filters_checked(
            raw.view.filters@,
            raw.view.filters@.len() as int,
        ).warnings.len(),
        source_warnings(raw.source).len() == source_format(raw.source).warnings.len() + source_path(
            raw.source,
        ).warnings.len() + source_mode(raw.source).warnings.len() + source_scan(
            raw.source,
        ).warnings.len() + source_table(raw.source).warnings.len() + source_query(
            raw.source,
        ).warnings.len() + target_warnings(raw.source).len() + source_limit(
            raw.source,
        ).warnings.len() + source_filters_checked(
            raw.source.filters@,
            raw.source.filters@.len() as int,
        ).warnings.len() + source_sorts_checked(
            raw.source.sort@,
            raw.source.sort@.len() as int,
        ).warnings.len(),
        source_warnings(raw.source).len() > 0 && view_warnings(raw).len() > 0 ==> view_warnings(
            raw,
        )[0] == source_warnings(raw.source)[0],
{
}

/// What is written of the source and cannot be read is told under its own heading, and
/// what can be is not told.
pub proof fn unreadable_sources_are_told(raw: RawSavedSourceConfig)
    ensures
        source_format(raw).warnings.len() == 1 <==> raw.format is Some && InputFormat::named(
            raw.format->0@,
        ) is None,
        source_format(raw).warnings.len() == 1 ==> source_format(raw).warnings[0].field
            == "source.format"@,
        source_scan(raw).warnings.len() == 1 <==> raw.schema_scan is Some && SchemaScan::named(
            raw.schema_scan->0@,
        ) is None,
        source_scan(raw).warnings.len() == 1 ==> source_scan(raw).warnings[0].field
            == "source.schema_scan"@,
        source_path(raw).warnings.len() == 1 <==> raw.json_path is Some && options::pointer_keys(
            raw.json_path->0@,
        ) is None,
        source_path(raw).warnings.len() == 1 ==> source_path(raw).warnings[0].field
            == "source.json_path"@,
        source_table(raw).warnings.len() == 1 <==> raw.table is Some && raw.table->0@.len() == 0,
        source_table(raw).warnings.len() == 1 ==> source_table(raw).warnings[0].field
            == "source.table"@,
        source_query(raw).warnings.len() == 1 <==> raw.query is Some && (raw.query->0@.len() == 0
            || text::trimmed(raw.query->0@).len() == 0),
        source_query(raw).warnings.len() == 1 ==> source_query(raw).warnings[0].field
            == "source.query"@,
        raw.object_mode is Some && ObjectMode::named(raw.object_mode->0@) is None
            ==> source_mode(raw).warnings.len() == 1 && source_mode(raw).warnings[0].field
            == "source.object_mode"@,
        raw.object_mode is None ==> source_mode(raw).warnings.len() == 0,
{
}

} // verus!
