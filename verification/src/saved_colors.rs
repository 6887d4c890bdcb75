//! Colour rules of saved views, and the warnings that checking a view gives.

use vstd::prelude::*;
use vstd::string::*;

use crate::json_value::{self, signed_decimal_of};
use crate::numerals::{self, finite_numeral};
use crate::text::{
    self, chars_of, concat2, concat3, decimal_of_usize, same, string_of_range, strip_prefix,
    trim, white,
};

verus! {

// ---------------------------------------------------------------------------
// Warnings
// ---------------------------------------------------------------------------

/// What is wrong with a field of a saved view.
#[derive(Debug, PartialEq, Eq)]
pub struct SavedViewWarning {
    pub field: String,
    pub message: String,
}

/// The model of a warning.
pub struct WarningModel {
    pub field: Seq<char>,
    pub message: Seq<char>,
}

impl View for SavedViewWarning {
    type V = WarningModel;

    open spec fn view(&self) -> WarningModel {
        WarningModel { field: self.field@, message: self.message@ }
    }
}

impl Clone for SavedViewWarning {
    fn clone(&self) -> (r: Self)
        ensures
            r@ == self@,
    {
        SavedViewWarning { field: self.field.clone(), message: self.message.clone() }
    }
}

/// The models of warnings.
pub open spec fn warning_views(v: Seq<SavedViewWarning>) -> Seq<WarningModel> {
    Seq::new(v.len(), |i: int| v[i]@)
}

/// One warning.
pub open spec fn warned(field: Seq<char>, message: Seq<char>) -> Seq<WarningModel> {
    seq![WarningModel { field, message }]
}

/// No warning.
pub open spec fn silent() -> Seq<WarningModel> {
    Seq::empty()
}

/// What checking a field gives: its value, if it has a good one, and warnings.
pub struct Checked<T> {
    pub value: T,
    pub warnings: Seq<WarningModel>,
}

/// Adds a warning.
pub fn warn(warnings: &mut Vec<SavedViewWarning>, field: &str, message: &str)
    ensures
        warning_views(final(warnings)@) == warning_views(old(warnings)@) + warned(field@, message@),
{
    let added = SavedViewWarning { field: field.to_owned(), message: message.to_owned() };
    warnings.push(added);
    assert(warning_views(warnings@) =~= warning_views(old(warnings)@) + warned(field@, message@));
}

// ---------------------------------------------------------------------------
// Values
// ---------------------------------------------------------------------------

/// A value of a view file. A number that is no 64-bit integer is kept as its
/// numeral; lists and maps are not told apart.
#[derive(Debug, PartialEq, Eq)]
pub enum YamlValue {
    Null,
    Bool(bool),
    Integer(i64),
    Decimal(String),
    Text(String),
    Other,
}

/// The model of a value.
pub enum YamlModel {
    Null,
    Bool(bool),
    Integer(i64),
    Decimal(Seq<char>),
    Text(Seq<char>),
    Other,
}

impl View for YamlValue {
    type V = YamlModel;

    open spec fn view(&self) -> YamlModel {
        match self {
            YamlValue::Null => YamlModel::Null,
            YamlValue::Bool(b) => YamlModel::Bool(*b),
            YamlValue::Integer(n) => YamlModel::Integer(*n),
            YamlValue::Decimal(s) => YamlModel::Decimal(s@),
            YamlValue::Text(s) => YamlModel::Text(s@),
            YamlValue::Other => YamlModel::Other,
        }
    }
}

/// The entries of a map, in their order.
pub type RawMapping = Vec<(YamlValue, YamlValue)>;

/// The models of the entries of a map.
pub open spec fn mapping_views(v: Seq<(YamlValue, YamlValue)>) -> Seq<(YamlModel, YamlModel)> {
    Seq::new(v.len(), |i: int| (v[i].0@, v[i].1@))
}

/// What a rule compares a value with.
#[derive(Debug, PartialEq, Eq)]
pub enum ConditionalValue {
    Bool(bool),
    Number(String),
    String(String),
}

/// The model of a value to compare with.
pub enum ConditionalModel {
    Bool(bool),
    Number(Seq<char>),
    String(Seq<char>),
}

impl View for ConditionalValue {
    type V = ConditionalModel;

    open spec fn view(&self) -> ConditionalModel {
        match self {
            ConditionalValue::Bool(b) => ConditionalModel::Bool(*b),
            ConditionalValue::Number(s) => ConditionalModel::Number(s@),
            ConditionalValue::String(s) => ConditionalModel::String(s@),
        }
    }
}

/// A value and the colour for it.
#[derive(Debug, PartialEq, Eq)]
pub struct MatchEntry {
    pub value: ConditionalValue,
    pub color: String,
}

/// The model of a value and its colour.
pub struct MatchModel {
    pub value: ConditionalModel,
    pub color: Seq<char>,
}

impl View for MatchEntry {
    type V = MatchModel;

    open spec fn view(&self) -> MatchModel {
        MatchModel { value: self.value@, color: self.color@ }
    }
}

/// A range, by the numerals of its bounds, and the colour for it.
#[derive(Debug, PartialEq, Eq)]
pub struct RangeEntry {
    pub lt: Option<String>,
    pub lte: Option<String>,
    pub gt: Option<String>,
    pub gte: Option<String>,
    pub color: String,
}

/// The model of a range and its colour.
pub struct RangeModel {
    pub lt: Option<Seq<char>>,
    pub lte: Option<Seq<char>>,
    pub gt: Option<Seq<char>>,
    pub gte: Option<Seq<char>>,
    pub color: Seq<char>,
}

impl View for RangeEntry {
    type V = RangeModel;

    open spec fn view(&self) -> RangeModel {
        RangeModel {
            lt: text::opt_view(self.lt),
            lte: text::opt_view(self.lte),
            gt: text::opt_view(self.gt),
            gte: text::opt_view(self.gte),
            color: self.color@,
        }
    }
}

/// A value, by its numeral, and the colour at it.
#[derive(Debug, PartialEq, Eq)]
pub struct GradientStop {
    pub value: String,
    pub color: String,
}

/// The model of a stop of a gradient.
pub struct StopModel {
    pub value: Seq<char>,
    pub color: Seq<char>,
}

impl View for GradientStop {
    type V = StopModel;

    open spec fn view(&self) -> StopModel {
        StopModel { value: self.value@, color: self.color@ }
    }
}

/// The colours that tell identifiers apart.
#[derive(Debug, PartialEq, Eq)]
pub enum IdentifierColors {
    Auto,
    Colors(Vec<String>),
}

/// A rule by which values get colours.
#[derive(Debug, PartialEq, Eq)]
pub enum ConditionalColorRule {
    Match { entries: Vec<MatchEntry> },
    Range { bounds: Vec<RangeEntry> },
    Identifiers { colors: IdentifierColors },
    FixedGradient { stops: Vec<GradientStop> },
    AutoGradient { shades: Vec<String>, steps: usize },
}

/// The model of a rule.
pub enum RuleModel {
    Match(Seq<MatchModel>),
    Range(Seq<RangeModel>),
    Identifiers(Option<Seq<Seq<char>>>),
    FixedGradient(Seq<StopModel>),
    AutoGradient(Seq<Seq<char>>, usize),
}

/// The models of entries.
pub open spec fn match_views(v: Seq<MatchEntry>) -> Seq<MatchModel> {
    Seq::new(v.len(), |i: int| v[i]@)
}

/// The models of ranges.
pub open spec fn range_views(v: Seq<RangeEntry>) -> Seq<RangeModel> {
    Seq::new(v.len(), |i: int| v[i]@)
}

/// The models of stops.
pub open spec fn stop_views(v: Seq<GradientStop>) -> Seq<StopModel> {
    Seq::new(v.len(), |i: int| v[i]@)
}

impl View for ConditionalColorRule {
    type V = RuleModel;

    open spec fn view(&self) -> RuleModel {
        match self {
            ConditionalColorRule::Match { entries } => RuleModel::Match(match_views(entries@)),
            ConditionalColorRule::Range { bounds } => RuleModel::Range(range_views(bounds@)),
            ConditionalColorRule::Identifiers { colors: IdentifierColors::Auto } =>
                RuleModel::Identifiers(None),
            ConditionalColorRule::Identifiers { colors: IdentifierColors::Colors(colors) } =>
                RuleModel::Identifiers(Some(text::views(colors@))),
            ConditionalColorRule::FixedGradient { stops } => RuleModel::FixedGradient(
                stop_views(stops@),
            ),
            ConditionalColorRule::AutoGradient { shades, steps } => RuleModel::AutoGradient(
                text::views(shades@),
                *steps,
            ),
        }
    }
}

impl Clone for ConditionalValue {
    fn clone(&self) -> (r: Self)
        ensures
            r@ == self@,
    {
        match self {
            ConditionalValue::Bool(b) => ConditionalValue::Bool(*b),
            ConditionalValue::Number(s) => ConditionalValue::Number(s.clone()),
            ConditionalValue::String(s) => ConditionalValue::String(s.clone()),
        }
    }
}

impl Clone for MatchEntry {
    fn clone(&self) -> (r: Self)
        ensures
            r@ == self@,
    {
        MatchEntry { value: self.value.clone(), color: self.color.clone() }
    }
}

impl Clone for RangeEntry {
    fn clone(&self) -> (r: Self)
        ensures
            r@ == self@,
    {
        RangeEntry {
            lt: self.lt.clone(),
            lte: self.lte.clone(),
            gt: self.gt.clone(),
            gte: self.gte.clone(),
            color: self.color.clone(),
        }
    }
}

impl Clone for GradientStop {
    fn clone(&self) -> (r: Self)
        ensures
            r@ == self@,
    {
        GradientStop { value: self.value.clone(), color: self.color.clone() }
    }
}

impl Clone for ConditionalColorRule {
    fn clone(&self) -> (r: Self)
        ensures
            r@ == self@,
    {
        match self {
            ConditionalColorRule::Match { entries } => {
                let copied = entries.clone();
                assert(match_views(copied@) =~= match_views(entries@));
                ConditionalColorRule::Match { entries: copied }
            },
            ConditionalColorRule::Range { bounds } => {
                let copied = bounds.clone();
                assert(range_views(copied@) =~= range_views(bounds@));
                ConditionalColorRule::Range { bounds: copied }
            },
            ConditionalColorRule::Identifiers { colors: IdentifierColors::Auto } =>
                ConditionalColorRule::Identifiers { colors: IdentifierColors::Auto },
            ConditionalColorRule::Identifiers { colors: IdentifierColors::Colors(colors) } => {
                let copied = colors.clone();
                assert(text::views(copied@) =~= text::views(colors@));
                ConditionalColorRule::Identifiers { colors: IdentifierColors::Colors(copied) }
            },
            ConditionalColorRule::FixedGradient { stops } => {
                let copied = stops.clone();
                assert(stop_views(copied@) =~= stop_views(stops@));
                ConditionalColorRule::FixedGradient { stops: copied }
            },
            ConditionalColorRule::AutoGradient { shades, steps } => {
                let copied = shades.clone();
                assert(text::views(copied@) =~= text::views(shades@));
                ConditionalColorRule::AutoGradient { shades: copied, steps: *steps }
            },
        }
    }
}

/// The models of rules.
pub open spec fn rule_views(v: Seq<ConditionalColorRule>) -> Seq<RuleModel> {
    Seq::new(v.len(), |i: int| v[i]@)
}

/// The model of an optional rule.
pub open spec fn rule_view(r: Option<ConditionalColorRule>) -> Option<RuleModel> {
    match r {
        Some(rule) => Some(rule@),
        None => None,
    }
}

// ---------------------------------------------------------------------------
// Rules as they are written
// ---------------------------------------------------------------------------

/// How identifiers are coloured, as written.
#[derive(Debug, PartialEq, Eq)]
pub enum RawIdentifierColors {
    Mode(String),
    Colors(Vec<String>),
}

/// A gradient, as written.
#[derive(Debug, PartialEq, Eq)]
pub struct RawGradientRule {
    pub mode: String,
    pub stops: Option<RawMapping>,
    pub colors: Option<Vec<String>>,
    pub steps: Option<usize>,
}

/// A colour rule, as written. The inner option of `identifiers` is the colours.
#[derive(Debug, PartialEq, Eq)]
pub struct RawColorRule {
    pub gradient: Option<RawGradientRule>,
    pub match_rule: Option<RawMapping>,
    pub range: Option<RawMapping>,
    pub identifiers: Option<Option<RawIdentifierColors>>,
}

/// Whether a text is nothing but white space.
pub open spec fn is_blank(s: Seq<char>) -> bool {
    text::trimmed(s).len() == 0
}

pub(crate) fn blank(s: &str) -> (r: bool)
    ensures
        r == is_blank(s@),
{
    trim(s).as_str().is_empty()
}

/// The field of the `i`-th entry.
pub open spec fn entry_field(field: Seq<char>, i: int) -> Seq<char> {
    field + "."@ + text::decimal(i as nat)
}

fn field_of_entry(field: &str, i: usize) -> (r: String)
    ensures
        r@ == entry_field(field@, i as int),
{
    concat3(field, ".", &decimal_of_usize(i))
}

/// The value that the key of a match entry stands for.
pub open spec fn match_key(key: YamlModel, field: Seq<char>) -> Checked<Option<ConditionalModel>> {
    match key {
        YamlModel::Bool(b) => Checked {
            value: Some(ConditionalModel::Bool(b)),
            warnings: silent(),
        },
        YamlModel::Integer(n) => Checked {
            value: Some(ConditionalModel::Number(json_value::signed_decimal(n as int))),
            warnings: silent(),
        },
        YamlModel::Decimal(s) => if numerals::is_finite_numeral(s) {
            Checked { value: Some(ConditionalModel::Number(s)), warnings: silent() }
        } else {
            Checked { value: None, warnings: warned(field, "number must be finite"@) }
        },
        YamlModel::Text(s) => if s.len() == 0 {
            Checked {
                value: None,
                warnings: warned(field, "match string value must not be empty"@),
            }
        } else {
            Checked { value: Some(ConditionalModel::String(s)), warnings: silent() }
        },
        _ => Checked {
            value: None,
            warnings: warned(field, "match value must be a string, number, or boolean"@),
        },
    }
}

fn match_value_from_yaml_key(
    key: &YamlValue,
    field: &str,
    warnings: &mut Vec<SavedViewWarning>,
) -> (r: Option<ConditionalValue>)
    ensures
        ({
            let checked = match_key(key@, field@);
            &&& warning_views(final(warnings)@) == warning_views(old(warnings)@) + checked.warnings
            &&& match (r, checked.value) {
                (Some(v), Some(m)) => v@ == m,
                (None, None) => true,
                _ => false,
            }
        }),
{
    proof {
        assert(warning_views(warnings@) + silent() =~= warning_views(warnings@));
    }
    match key {
        YamlValue::Bool(b) => Some(ConditionalValue::Bool(*b)),
        YamlValue::Integer(n) => Some(ConditionalValue::Number(signed_decimal_of(*n))),
        YamlValue::Decimal(s) => if finite_numeral(s) {
            Some(ConditionalValue::Number(s.clone()))
        } else {
            warn(warnings, field, "number must be finite");
            None
        },
        YamlValue::Text(s) => if s.as_str().is_empty() {
            warn(warnings, field, "match string value must not be empty");
            None
        } else {
            Some(ConditionalValue::String(s.clone()))
        },
        _ => {
            warn(warnings, field, "match value must be a string, number, or boolean");
            None
        },
    }
}

/// A colour: a text that is not blank. `kind` says what it is for.
pub open spec fn entry_color(value: YamlModel, field: Seq<char>, message: Seq<char>) -> Checked<
    Option<Seq<char>>,
> {
    match value {
        YamlModel::Text(s) => if is_blank(s) {
            Checked { value: None, warnings: warned(field, "color is required"@) }
        } else {
            Checked { value: Some(s), warnings: silent() }
        },
        _ => Checked { value: None, warnings: warned(field, message) },
    }
}

fn color_of_entry(
    value: &YamlValue,
    field: &str,
    message: &str,
    warnings: &mut Vec<SavedViewWarning>,
) -> (r: Option<String>)
    ensures
        ({
            let checked = entry_color(value@, field@, message@);
            &&& warning_views(final(warnings)@) == warning_views(old(warnings)@) + checked.warnings
            &&& text::opt_view(r) == checked.value
        }),
{
    proof {
        assert(warning_views(warnings@) + silent() =~= warning_views(warnings@));
    }
    match value {
        YamlValue::Text(s) => if blank(s) {
            warn(warnings, field, "color is required");
            None
        } else {
            Some(s.clone())
        },
        _ => {
            warn(warnings, field, message);
            None
        },
    }
}

/// What a match entry stands for: the key is looked at first.
pub open spec fn match_entry(entry: (YamlModel, YamlModel), field: Seq<char>) -> Checked<
    Option<MatchModel>,
> {
    let key = match_key(entry.0, field);
    match key.value {
        None => Checked { value: None, warnings: key.warnings },
        Some(value) => {
            let color = entry_color(entry.1, field, "match color must be a string"@);
            Checked {
                value: match color.value {
                    Some(color) => Some(MatchModel { value, color }),
                    None => None,
                },
                warnings: key.warnings + color.warnings,
            }
        },
    }
}

/// The good ones among the first `n` match entries.
pub open spec fn match_entries(
    raw: Seq<(YamlModel, YamlModel)>,
    n: int,
    field: Seq<char>,
) -> Checked<Seq<MatchModel>>
    decreases n,
{
    if n <= 0 || n > raw.len() {
        Checked { value: Seq::empty(), warnings: silent() }
    } else {
        let before = match_entries(raw, n - 1, field);
        let entry = match_entry(raw[n - 1], entry_field(field, n - 1));
        Checked {
            value: match entry.value {
                Some(entry) => before.value.push(entry),
                None => before.value,
            },
            warnings: before.warnings + entry.warnings,
        }
    }
}

/// The rule that a map of values and colours makes.
pub open spec fn match_rule(raw: Seq<(YamlModel, YamlModel)>, field: Seq<char>) -> Checked<
    Option<RuleModel>,
> {
    if raw.len() == 0 {
        Checked {
            value: None,
            warnings: warned(field, "match requires at least one value/color entry"@),
        }
    } else {
        let entries = match_entries(raw, raw.len() as int, field);
        if entries.value.len() == 0 {
            Checked {
                value: None,
                warnings: entries.warnings + warned(
                    field,
                    "match has no valid value/color entries"@,
                ),
            }
        } else {
            Checked { value: Some(RuleModel::Match(entries.value)), warnings: entries.warnings }
        }
    }
}

/// Checks a map of values and colours.
pub fn validate_match_rule(
    raw: &RawMapping,
    field: &str,
    warnings: &mut Vec<SavedViewWarning>,
) -> (r: Option<ConditionalColorRule>)
    ensures
        ({
            let checked = match_rule(mapping_views(raw@), field@);
            &&& warning_views(final(warnings)@) == warning_views(old(warnings)@) + checked.warnings
            &&& rule_view(r) == checked.value
        }),
{
    if raw.len() == 0 {
        warn(warnings, field, "match requires at least one value/color entry");
        return None;
    }
    let ghost all = mapping_views(raw@);
    let ghost start = warning_views(warnings@);
    let mut entries: Vec<MatchEntry> = Vec::new();
    let mut i: usize = 0;
    assert(match_views(entries@) =~= Seq::<MatchModel>::empty());
    assert(start + silent() =~= start);
    while i < raw.len()
        invariant
            i <= raw@.len(),
            all == mapping_views(raw@),
            warning_views(warnings@) == start + match_entries(all, i as int, field@).warnings,
            match_views(entries@) == match_entries(all, i as int, field@).value,
        decreases raw@.len() - i,
    {
        let ghost before = match_entries(all, i as int, field@);
        let ghost entry = match_entry(all[i as int], entry_field(field@, i as int));
        let name = field_of_entry(field, i);
        match match_value_from_yaml_key(&raw[i].0, &name, warnings) {
            None => {},
            Some(value) => {
                match color_of_entry(
                    &raw[i].1,
                    &name,
                    "match color must be a string",
                    warnings,
                ) {
                    None => {},
                    Some(color) => {
                        let added = MatchEntry { value, color };
                        assert(match_views(entries@.push(added)) =~= match_views(entries@).push(
                            added@,
                        ));
                        entries.push(added);
                    },
                }
            },
        }
        assert(warning_views(warnings@) =~= start + (before.warnings + entry.warnings));
        i = i + 1;
    }
    if entries.len() == 0 {
        let ghost so_far = warning_views(warnings@);
        warn(warnings, field, "match has no valid value/color entries");
        assert(warning_views(warnings@) =~= start + (match_entries(
            all,
            all.len() as int,
            field@,
        ).warnings + warned(field@, "match has no valid value/color entries"@)));
        return None;
    }
    Some(ConditionalColorRule::Match { entries })
}

// ---------------------------------------------------------------------------
// Ranges
// ---------------------------------------------------------------------------

/// The place of the first white space from `i` on, or the end.
pub open spec fn word_end(s: Seq<char>, i: int) -> int
    decreases s.len() - i,
{
    if 0 <= i < s.len() && !text::is_white(s[i]) {
        word_end(s, i + 1)
    } else {
        i
    }
}

/// The place of the first character from `i` on that is no white space, or the end.
pub open spec fn word_start(s: Seq<char>, i: int) -> int
    decreases s.len() - i,
{
    if 0 <= i < s.len() && text::is_white(s[i]) {
        word_start(s, i + 1)
    } else {
        i
    }
}

/// Words are found forward and within the text.
pub proof fn lemma_word(s: Seq<char>, i: int)
    requires
        0 <= i <= s.len(),
    ensures
        i <= word_start(s, i) <= s.len(),
        i <= word_end(s, i) <= s.len(),
        word_start(s, i) < s.len() ==> !text::is_white(s[word_start(s, i)]),
    decreases s.len() - i,
{
    if i < s.len() {
        lemma_word(s, i + 1);
    }
}

/// The words of a text from `i` on, which white space keeps apart.
pub open spec fn words(s: Seq<char>, i: int) -> Seq<Seq<char>>
    decreases s.len() - i,
    when 0 <= i <= s.len()
{
    let start = word_start(s, i);
    proof {
        lemma_word(s, i);
        lemma_word(s, start);
        if start < s.len() {
            lemma_word(s, start + 1);
        }
    }
    if start >= s.len() {
        Seq::empty()
    } else {
        let end = word_end(s, start);
        seq![s.subrange(start, end)] + words(s, end)
    }
}

fn words_of(s: &str) -> (r: Vec<String>)
    ensures
        text::views(r@) == words(s@, 0),
{
    let v = chars_of(s);
    let ghost all = s@;
    let mut out: Vec<String> = Vec::new();
    let mut i: usize = 0;
    assert(text::views(out@) + words(all, 0) =~= words(all, 0));
    loop
        invariant
            i <= v@.len(),
            v@ == all,
            text::views(out@) + words(all, i as int) == words(all, 0),
        ensures
            text::views(out@) == words(all, 0),
        decreases v@.len() - i,
    {
        let mut start: usize = i;
        while start < v.len() && white(v[start])
            invariant
                i <= start <= v@.len(),
                v@ == all,
                word_start(all, i as int) == word_start(all, start as int),
            decreases v@.len() - start,
        {
            start = start + 1;
        }
        if start >= v.len() {
            assert(text::views(out@) + Seq::<Seq<char>>::empty() =~= text::views(out@));
            break;
        }
        let mut end: usize = start;
        while end < v.len() && !white(v[end])
            invariant
                start <= end <= v@.len(),
                v@ == all,
                word_end(all, start as int) == word_end(all, end as int),
                start < v@.len() && !text::is_white(all[start as int]),
                end == start ==> !text::is_white(all[end as int]),
            decreases v@.len() - end,
        {
            end = end + 1;
        }
        let word = string_of_range(&v, start, end);
        let ghost before = text::views(out@);
        proof {
            text::lemma_views_push(out@, word);
            let rest = words(all, end as int);
            assert(before + (seq![word@] + rest) =~= before.push(word@) + rest);
        }
        out.push(word);
        i = end;
    }
    out
}

/// The side of a bound.
#[derive(Debug, Clone, Copy, PartialEq, Eq, Structural)]
pub enum BoundSide {
    Less,
    LessOrEqual,
    Greater,
    GreaterOrEqual,
}

/// The bound that a word like `<10` or `>=90` denotes, by its side and numeral.
pub open spec fn range_bound(word: Seq<char>) -> Option<(BoundSide, Seq<char>)> {
    let t = text::trimmed(word);
    let found = if text::has_prefix(t, "<="@) {
        Some((BoundSide::LessOrEqual, t.skip(2)))
    } else if text::has_prefix(t, ">="@) {
        Some((BoundSide::GreaterOrEqual, t.skip(2)))
    } else if text::has_prefix(t, "<"@) {
        Some((BoundSide::Less, t.skip(1)))
    } else if text::has_prefix(t, ">"@) {
        Some((BoundSide::Greater, t.skip(1)))
    } else {
        None
    };
    match found {
        Some((side, numeral)) => if text::trimmed(numeral) == numeral && numerals::is_finite_numeral(numeral) {
            Some((side, numeral))
        } else {
            None
        },
        None => None,
    }
}

/// The bound that a word denotes.
pub fn parse_range_comparison(word: &str) -> (r: Option<(BoundSide, String)>)
    ensures
        match (r, range_bound(word@)) {
            (Some((side, numeral)), Some((s, n))) => side == s && numeral@ == n,
            (None, None) => true,
            _ => false,
        },
{
    proof {
        reveal_strlit("<=");
        reveal_strlit(">=");
        reveal_strlit("<");
        reveal_strlit(">");
    }
    let t = trim(word);
    let (side, numeral) = match strip_prefix(&t, "<=") {
        Some(rest) => (BoundSide::LessOrEqual, rest),
        None => match strip_prefix(&t, ">=") {
            Some(rest) => (BoundSide::GreaterOrEqual, rest),
            None => match strip_prefix(&t, "<") {
                Some(rest) => (BoundSide::Less, rest),
                None => match strip_prefix(&t, ">") {
                    Some(rest) => (BoundSide::Greater, rest),
                    None => {
                        return None;
                    },
                },
            },
        },
    };
    if same(&trim(&numeral), &numeral) && finite_numeral(&numeral) {
        Some((side, numeral))
    } else {
        None
    }
}

/// A range without bounds.
pub open spec fn unbounded(color: Seq<char>) -> RangeModel {
    RangeModel { lt: None, lte: None, gt: None, gte: None, color }
}

/// The bound of a range on one side.
pub open spec fn bound_of(range: RangeModel, side: BoundSide) -> Option<Seq<char>> {
    match side {
        BoundSide::Less => range.lt,
        BoundSide::LessOrEqual => range.lte,
        BoundSide::Greater => range.gt,
        BoundSide::GreaterOrEqual => range.gte,
    }
}

/// The range with a bound on one side.
pub open spec fn bounded(range: RangeModel, side: BoundSide, numeral: Seq<char>) -> RangeModel {
    match side {
        BoundSide::Less => RangeModel { lt: Some(numeral), ..range },
        BoundSide::LessOrEqual => RangeModel { lte: Some(numeral), ..range },
        BoundSide::Greater => RangeModel { gt: Some(numeral), ..range },
        BoundSide::GreaterOrEqual => RangeModel { gte: Some(numeral), ..range },
    }
}

/// The range that the first `n` words bound, or what is wrong with them.
pub open spec fn range_bounds(words: Seq<Seq<char>>, n: int, color: Seq<char>) -> Result<
    RangeModel,
    Seq<char>,
>
    decreases n,
{
    if n <= 0 || n > words.len() {
        Ok(unbounded(color))
    } else {
        match range_bounds(words, n - 1, color) {
            Err(message) => Err(message),
            Ok(range) => match range_bound(words[n - 1]) {
                None => Err(
                    "range comparison must look like <10, <=10, >90, >=90, or >=50 <75"@,
                ),
                Some((side, numeral)) => if bound_of(range, side) is Some {
                    Err("range comparison has a duplicate bound"@)
                } else {
                    Ok(bounded(range, side, numeral))
                },
            },
        }
    }
}

/// The range that an expression denotes, or what is wrong with it.
pub open spec fn range_expression(expression: Seq<char>, color: Seq<char>) -> Result<
    RangeModel,
    Seq<char>,
> {
    let parts = words(expression, 0);
    match range_bounds(parts, parts.len() as int, color) {
        Err(message) => Err(message),
        Ok(range) => if parts.len() == 0 {
            Err("range comparison is required"@)
        } else {
            Ok(range)
        },
    }
}

proof fn lemma_bounds_fail(words: Seq<Seq<char>>, n: int, m: int, color: Seq<char>)
    requires
        0 <= n <= m <= words.len(),
        range_bounds(words, n, color) is Err,
    ensures
        range_bounds(words, m, color) == range_bounds(words, n, color),
    decreases m,
{
    if n < m {
        lemma_bounds_fail(words, n, m - 1, color);
    }
}

/// The range that an expression denotes.
pub fn range_entry_from_expression(expression: &str, color: String) -> (r: Result<
    RangeEntry,
    &'static str,
>)
    ensures
        match (r, range_expression(expression@, color@)) {
            (Ok(range), Ok(m)) => range@ == m,
            (Err(message), Err(m)) => message@ == m,
            _ => false,
        },
{
    let parts = words_of(expression);
    let ghost all = text::views(parts@);
    let ghost shade = color@;
    let mut entry = RangeEntry { lt: None, lte: None, gt: None, gte: None, color };
    let mut i: usize = 0;
    while i < parts.len()
        invariant
            i <= parts@.len(),
            all == text::views(parts@),
            all == words(expression@, 0),
            shade == color@,
            range_bounds(all, i as int, shade) == Ok::<RangeModel, Seq<char>>(entry@),
        decreases parts@.len() - i,
    {
        assert(all[i as int] == parts@[i as int]@);
        match parse_range_comparison(&parts[i]) {
            None => {
                proof {
                    lemma_bounds_fail(all, i + 1, all.len() as int, shade);
                }
                return Err("range comparison must look like <10, <=10, >90, >=90, or >=50 <75");
            },
            Some((side, numeral)) => {
                let taken = match side {
                    BoundSide::Less => entry.lt.is_some(),
                    BoundSide::LessOrEqual => entry.lte.is_some(),
                    BoundSide::Greater => entry.gt.is_some(),
                    BoundSide::GreaterOrEqual => entry.gte.is_some(),
                };
                if taken {
                    proof {
                        lemma_bounds_fail(all, i + 1, all.len() as int, shade);
                    }
                    return Err("range comparison has a duplicate bound");
                }
                match side {
                    BoundSide::Less => {
                        entry.lt = Some(numeral);
                    },
                    BoundSide::LessOrEqual => {
                        entry.lte = Some(numeral);
                    },
                    BoundSide::Greater => {
                        entry.gt = Some(numeral);
                    },
                    BoundSide::GreaterOrEqual => {
                        entry.gte = Some(numeral);
                    },
                }
            },
        }
        i = i + 1;
    }
    if parts.len() == 0 {
        return Err("range comparison is required");
    }
    Ok(entry)
}

/// What a range entry stands for: the comparison has to be a text, then the colour
/// is looked at, then the comparison.
pub open spec fn range_entry(entry: (YamlModel, YamlModel), field: Seq<char>) -> Checked<
    Option<RangeModel>,
> {
    match entry.0 {
        YamlModel::Text(expression) => {
            let color = entry_color(entry.1, field, "range color must be a string"@);
            match color.value {
                None => Checked { value: None, warnings: color.warnings },
                Some(shade) => match range_expression(expression, shade) {
                    Ok(range) => Checked { value: Some(range), warnings: color.warnings },
                    Err(message) => Checked {
                        value: None,
                        warnings: color.warnings + warned(field, message),
                    },
                },
            }
        },
        _ => Checked { value: None, warnings: warned(field, "range comparison must be a string"@) },
    }
}

/// The good ones among the first `n` range entries.
pub open spec fn range_entries(
    raw: Seq<(YamlModel, YamlModel)>,
    n: int,
    field: Seq<char>,
) -> Checked<Seq<RangeModel>>
    decreases n,
{
    if n <= 0 || n > raw.len() {
        Checked { value: Seq::empty(), warnings: silent() }
    } else {
        let before = range_entries(raw, n - 1, field);
        let entry = range_entry(raw[n - 1], entry_field(field, n - 1));
        Checked {
            value: match entry.value {
                Some(entry) => before.value.push(entry),
                None => before.value,
            },
            warnings: before.warnings + entry.warnings,
        }
    }
}

/// The rule that a map of comparisons and colours makes.
pub open spec fn range_rule(raw: Seq<(YamlModel, YamlModel)>, field: Seq<char>) -> Checked<
    Option<RuleModel>,
> {
    if raw.len() == 0 {
        Checked {
            value: None,
            warnings: warned(field, "range requires at least one comparison/color entry"@),
        }
    } else {
        let entries = range_entries(raw, raw.len() as int, field);
        if entries.value.len() == 0 {
            Checked {
                value: None,
                warnings: entries.warnings + warned(
                    field,
                    "range has no valid comparison/color entries"@,
                ),
            }
        } else {
            Checked { value: Some(RuleModel::Range(entries.value)), warnings: entries.warnings }
        }
    }
}

fn check_range_entry(
    entry: &(YamlValue, YamlValue),
    field: &str,
    warnings: &mut Vec<SavedViewWarning>,
) -> (r: Option<RangeEntry>)
    ensures
        ({
            let checked = range_entry((entry.0@, entry.1@), field@);
            &&& warning_views(final(warnings)@) == warning_views(old(warnings)@) + checked.warnings
            &&& match (r, checked.value) {
                (Some(range), Some(m)) => range@ == m,
                (None, None) => true,
                _ => false,
            }
        }),
{
    let ghost start = warning_views(warnings@);
    match &entry.0 {
        YamlValue::Text(expression) => {
            match color_of_entry(&entry.1, field, "range color must be a string", warnings) {
                None => None,
                Some(color) => {
                    let ghost shade = color@;
                    match range_entry_from_expression(expression, color) {
                        Ok(range) => Some(range),
                        Err(message) => {
                            warn(warnings, field, message);
                            assert(warning_views(warnings@) =~= start + (silent() + warned(
                                field@,
                                message@,
                            )));
                            None
                        },
                    }
                },
            }
        },
        _ => {
            warn(warnings, field, "range comparison must be a string");
            None
        },
    }
}

/// Checks a map of comparisons and colours.
pub fn validate_range_rule(
    raw: &RawMapping,
    field: &str,
    warnings: &mut Vec<SavedViewWarning>,
) -> (r: Option<ConditionalColorRule>)
    ensures
        ({
            let checked = range_rule(mapping_views(raw@), field@);
            &&& warning_views(final(warnings)@) == warning_views(old(warnings)@) + checked.warnings
            &&& rule_view(r) == checked.value
        }),
{
    if raw.len() == 0 {
        warn(warnings, field, "range requires at least one comparison/color entry");
        return None;
    }
    let ghost all = mapping_views(raw@);
    let ghost start = warning_views(warnings@);
    let mut bounds: Vec<RangeEntry> = Vec::new();
    let mut i: usize = 0;
    assert(range_views(bounds@) =~= Seq::<RangeModel>::empty());
    assert(start + silent() =~= start);
    while i < raw.len()
        invariant
            i <= raw@.len(),
            all == mapping_views(raw@),
            warning_views(warnings@) == start + range_entries(all, i as int, field@).warnings,
            range_views(bounds@) == range_entries(all, i as int, field@).value,
        decreases raw@.len() - i,
    {
        let ghost before = range_entries(all, i as int, field@);
        let ghost entry = range_entry(all[i as int], entry_field(field@, i as int));
        let name = field_of_entry(field, i);
        match check_range_entry(&raw[i], &name, warnings) {
            None => {},
            Some(range) => {
                assert(range_views(bounds@.push(range)) =~= range_views(bounds@).push(range@));
                bounds.push(range);
            },
        }
        assert(warning_views(warnings@) =~= start + (before.warnings + entry.warnings));
        i = i + 1;
    }
    if bounds.len() == 0 {
        warn(warnings, field, "range has no valid comparison/color entries");
        assert(warning_views(warnings@) =~= start + (range_entries(
            all,
            all.len() as int,
            field@,
        ).warnings + warned(field@, "range has no valid comparison/color entries"@)));
        return None;
    }
    Some(ConditionalColorRule::Range { bounds })
}

// ---------------------------------------------------------------------------
// Identifiers and gradients
// ---------------------------------------------------------------------------

/// Whether one of the colours is blank.
pub open spec fn has_blank(colors: Seq<Seq<char>>) -> bool {
    exists|i: int| 0 <= i < colors.len() && is_blank(#[trigger] colors[i])
}

fn any_blank(colors: &Vec<String>) -> (r: bool)
    ensures
        r == has_blank(text::views(colors@)),
{
    let ghost all = text::views(colors@);
    let mut i: usize = 0;
    while i < colors.len()
        invariant
            i <= colors@.len(),
            all == text::views(colors@),
            forall|k: int| 0 <= k < i ==> !is_blank(#[trigger] all[k]),
        decreases colors@.len() - i,
    {
        assert(all[i as int] == colors@[i as int]@);
        if blank(&colors[i]) {
            return true;
        }
        i = i + 1;
    }
    false
}

/// The rule that colours identifiers.
pub open spec fn identifier_rule(raw: Option<RawIdentifierColors>, field: Seq<char>) -> Checked<
    Option<RuleModel>,
> {
    match raw {
        None => Checked { value: Some(RuleModel::Identifiers(None)), warnings: silent() },
        Some(RawIdentifierColors::Mode(mode)) => if mode@ == "auto"@ {
            Checked { value: Some(RuleModel::Identifiers(None)), warnings: silent() }
        } else {
            Checked {
                value: None,
                warnings: warned(
                    field + ".colors"@,
                    "unknown identifiers colors mode '"@ + mode@ + "'"@,
                ),
            }
        },
        Some(RawIdentifierColors::Colors(colors)) => if colors@.len() == 0 || has_blank(
            text::views(colors@),
        ) {
            Checked {
                value: None,
                warnings: warned(
                    field + ".colors"@,
                    "identifiers colors requires at least one color"@,
                ),
            }
        } else {
            Checked {
                value: Some(RuleModel::Identifiers(Some(text::views(colors@)))),
                warnings: silent(),
            }
        },
    }
}

/// Checks a rule that colours identifiers.
pub fn validate_identifier_rule(
    raw: &Option<RawIdentifierColors>,
    field: &str,
    warnings: &mut Vec<SavedViewWarning>,
) -> (r: Option<ConditionalColorRule>)
    ensures
        ({
            let checked = identifier_rule(*raw, field@);
            &&& warning_views(final(warnings)@) == warning_views(old(warnings)@) + checked.warnings
            &&& rule_view(r) == checked.value
        }),
{
    proof {
        assert(warning_views(warnings@) + silent() =~= warning_views(warnings@));
    }
    match raw {
        None => Some(ConditionalColorRule::Identifiers { colors: IdentifierColors::Auto }),
        Some(RawIdentifierColors::Mode(mode)) => if same(mode, "auto") {
            Some(ConditionalColorRule::Identifiers { colors: IdentifierColors::Auto })
        } else {
            warn(
                warnings,
                &concat2(field, ".colors"),
                &concat3("unknown identifiers colors mode '", mode, "'"),
            );
            None
        },
        Some(RawIdentifierColors::Colors(colors)) => if colors.len() == 0 || any_blank(colors) {
            warn(
                warnings,
                &concat2(field, ".colors"),
                "identifiers colors requires at least one color",
            );
            None
        } else {
            let copied = colors.clone();
            assert(text::views(copied@) =~= text::views(colors@));
            Some(ConditionalColorRule::Identifiers { colors: IdentifierColors::Colors(copied) })
        },
    }
}

/// The numeral that the key of a stop denotes.
pub open spec fn stop_value(key: YamlModel) -> Option<Seq<char>> {
    match key {
        YamlModel::Integer(n) => Some(json_value::signed_decimal(n as int)),
        YamlModel::Decimal(s) => if numerals::is_finite_numeral(s) {
            Some(s)
        } else {
            None
        },
        YamlModel::Text(s) => if numerals::is_finite_numeral(s) {
            Some(s)
        } else {
            None
        },
        _ => None,
    }
}

/// The numeral that the key of a stop denotes.
pub fn gradient_stop_value_from_yaml_key(key: &YamlValue) -> (r: Option<String>)
    ensures
        text::opt_view(r) == stop_value(key@),
{
    match key {
        YamlValue::Integer(n) => Some(signed_decimal_of(*n)),
        YamlValue::Decimal(s) => if finite_numeral(s) {
            Some(s.clone())
        } else {
            None
        },
        YamlValue::Text(s) => if finite_numeral(s) {
            Some(s.clone())
        } else {
            None
        },
        _ => None,
    }
}

/// What an entry of a fixed gradient stands for.
pub open spec fn stop_entry(entry: (YamlModel, YamlModel), field: Seq<char>) -> Checked<
    Option<StopModel>,
> {
    match stop_value(entry.0) {
        None => Checked {
            value: None,
            warnings: warned(field, "fixed gradient stop value must be a finite number"@),
        },
        Some(value) => {
            let color = entry_color(
                entry.1,
                field,
                "fixed gradient stop color must be a string"@,
            );
            Checked {
                value: match color.value {
                    Some(color) => Some(StopModel { value, color }),
                    None => None,
                },
                warnings: color.warnings,
            }
        },
    }
}

/// The good ones among the first `n` stops.
pub open spec fn stop_entries(
    raw: Seq<(YamlModel, YamlModel)>,
    n: int,
    field: Seq<char>,
) -> Checked<Seq<StopModel>>
    decreases n,
{
    if n <= 0 || n > raw.len() {
        Checked { value: Seq::empty(), warnings: silent() }
    } else {
        let before = stop_entries(raw, n - 1, field);
        let entry = stop_entry(raw[n - 1], entry_field(field, n - 1));
        Checked {
            value: match entry.value {
                Some(entry) => before.value.push(entry),
                None => before.value,
            },
            warnings: before.warnings + entry.warnings,
        }
    }
}

/// Checks the stops of a fixed gradient.
pub fn validate_gradient_stops(
    raw: &RawMapping,
    field: &str,
    warnings: &mut Vec<SavedViewWarning>,
) -> (r: Vec<GradientStop>)
    ensures
        ({
            let all = mapping_views(raw@);
            let checked = stop_entries(all, all.len() as int, field@);
            &&& warning_views(final(warnings)@) == warning_views(old(warnings)@) + checked.warnings
            &&& stop_views(r@) == checked.value
        }),
{
    let ghost all = mapping_views(raw@);
    let ghost start = warning_views(warnings@);
    let mut stops: Vec<GradientStop> = Vec::new();
    let mut i: usize = 0;
    assert(stop_views(stops@) =~= Seq::<StopModel>::empty());
    assert(start + silent() =~= start);
    while i < raw.len()
        invariant
            i <= raw@.len(),
            all == mapping_views(raw@),
            warning_views(warnings@) == start + stop_entries(all, i as int, field@).warnings,
            stop_views(stops@) == stop_entries(all, i as int, field@).value,
        decreases raw@.len() - i,
    {
        let ghost before = stop_entries(all, i as int, field@);
        let ghost entry = stop_entry(all[i as int], entry_field(field@, i as int));
        let name = field_of_entry(field, i);
        match gradient_stop_value_from_yaml_key(&raw[i].0) {
            None => {
                warn(warnings, &name, "fixed gradient stop value must be a finite number");
            },
            Some(value) => {
                match color_of_entry(
                    &raw[i].1,
                    &name,
                    "fixed gradient stop color must be a string",
                    warnings,
                ) {
                    None => {},
                    Some(color) => {
                        let stop = GradientStop { value, color };
                        assert(stop_views(stops@.push(stop)) =~= stop_views(stops@).push(stop@));
                        stops.push(stop);
                    },
                }
            },
        }
        assert(warning_views(warnings@) =~= start + (before.warnings + entry.warnings));
        i = i + 1;
    }
    stops
}

/// The stops of a gradient, as written.
pub open spec fn raw_stops(raw: RawGradientRule) -> Seq<(YamlModel, YamlModel)> {
    match raw.stops {
        Some(stops) => mapping_views(stops@),
        None => Seq::empty(),
    }
}

/// The colours of a gradient, as written.
pub open spec fn raw_shades(raw: RawGradientRule) -> Seq<Seq<char>> {
    match raw.colors {
        Some(colors) => text::views(colors@),
        None => Seq::empty(),
    }
}

/// The rule that a gradient makes: between stops in the order they are written, or
/// between colours in a number of steps.
pub open spec fn gradient_rule(raw: RawGradientRule, field: Seq<char>) -> Checked<
    Option<RuleModel>,
> {
    if raw.mode@ == "fixed"@ {
        let stops = stop_entries(
            raw_stops(raw),
            raw_stops(raw).len() as int,
            field + ".gradient.stops"@,
        );
        if stops.value.len() < 2 {
            Checked {
                value: None,
                warnings: stops.warnings + warned(
                    field + ".gradient.stops"@,
                    "fixed gradient requires at least two stops"@,
                ),
            }
        } else {
            Checked {
                value: Some(RuleModel::FixedGradient(stops.value)),
                warnings: stops.warnings,
            }
        }
    } else if raw.mode@ == "auto"@ {
        if raw_shades(raw).len() < 2 || has_blank(raw_shades(raw)) {
            Checked {
                value: None,
                warnings: warned(
                    field + ".gradient.colors"@,
                    "auto gradient requires at least two colors"@,
                ),
            }
        } else {
            Checked {
                value: Some(
                    RuleModel::AutoGradient(
                        raw_shades(raw),
                        match raw.steps {
                            Some(n) => if n < 1 {
                                1
                            } else {
                                n
                            },
                            None => 8,
                        },
                    ),
                ),
                warnings: silent(),
            }
        }
    } else {
        Checked {
            value: None,
            warnings: warned(
                field + ".gradient.mode"@,
                "unknown gradient mode '"@ + raw.mode@ + "'"@,
            ),
        }
    }
}

/// Checks a gradient.
pub fn validate_gradient_rule(
    raw: &RawGradientRule,
    field: &str,
    warnings: &mut Vec<SavedViewWarning>,
) -> (r: Option<ConditionalColorRule>)
    ensures
        ({
            let checked = gradient_rule(*raw, field@);
            &&& warning_views(final(warnings)@) == warning_views(old(warnings)@) + checked.warnings
            &&& rule_view(r) == checked.value
        }),
{
    let ghost start = warning_views(warnings@);
    proof {
        assert(start + silent() =~= start);
        reveal_strlit("fixed");
        reveal_strlit("auto");
        assert("fixed"@.len() != "auto"@.len());
    }
    if same(&raw.mode, "fixed") {
        let name = concat2(field, ".gradient.stops");
        let stops = match &raw.stops {
            Some(stops) => validate_gradient_stops(stops, &name, warnings),
            None => {
                let none: Vec<GradientStop> = Vec::new();
                assert(stop_views(none@) =~= Seq::<StopModel>::empty());
                none
            },
        };
        if stops.len() < 2 {
            warn(warnings, &name, "fixed gradient requires at least two stops");
            assert(warning_views(warnings@) =~= start + gradient_rule(*raw, field@).warnings);
            return None;
        }
        return Some(ConditionalColorRule::FixedGradient { stops });
    }
    if same(&raw.mode, "auto") {
        let shades: Vec<String> = match &raw.colors {
            Some(colors) => {
                let copied = colors.clone();
                assert(text::views(copied@) =~= text::views(colors@));
                copied
            },
            None => {
                let none: Vec<String> = Vec::new();
                assert(text::views(none@) =~= Seq::<Seq<char>>::empty());
                none
            },
        };
        if shades.len() < 2 || any_blank(&shades) {
            warn(
                warnings,
                &concat2(field, ".gradient.colors"),
                "auto gradient requires at least two colors",
            );
            return None;
        }
        let steps: usize = match raw.steps {
            Some(n) => if n < 1 {
                1
            } else {
                n
            },
            None => 8,
        };
        return Some(ConditionalColorRule::AutoGradient { shades, steps });
    }
    warn(
        warnings,
        &concat2(field, ".gradient.mode"),
        &concat3("unknown gradient mode '", &raw.mode, "'"),
    );
    None
}

/// How many rules are written in the place of one.
pub open spec fn rule_count(raw: RawColorRule) -> int {
    (if raw.gradient is Some {
        1int
    } else {
        0
    }) + (if raw.match_rule is Some {
        1int
    } else {
        0
    }) + (if raw.range is Some {
        1int
    } else {
        0
    }) + (if raw.identifiers is Some {
        1int
    } else {
        0
    })
}

/// The rule that a colour rule makes.
pub open spec fn color_rule(raw: RawColorRule, field: Seq<char>) -> Checked<Option<RuleModel>> {
    if rule_count(raw) != 1 {
        Checked {
            value: None,
            warnings: warned(
                field,
                "color rule must define exactly one of gradient, match, range, or identifiers"@,
            ),
        }
    } else if raw.match_rule is Some {
        match_rule(mapping_views(raw.match_rule->0@), field + ".match"@)
    } else if raw.range is Some {
        range_rule(mapping_views(raw.range->0@), field + ".range"@)
    } else if raw.identifiers is Some {
        identifier_rule(raw.identifiers->0, field + ".identifiers"@)
    } else {
        gradient_rule(raw.gradient->0, field)
    }
}

/// Checks a colour rule.
pub fn validate_color_rule(
    raw: &RawColorRule,
    field: &str,
    warnings: &mut Vec<SavedViewWarning>,
) -> (r: Option<ConditionalColorRule>)
    ensures
        ({
            let checked = color_rule(*raw, field@);
            &&& warning_views(final(warnings)@) == warning_views(old(warnings)@) + checked.warnings
            &&& rule_view(r) == checked.value
        }),
{
    match (&raw.gradient, &raw.match_rule, &raw.range, &raw.identifiers) {
        (None, Some(rule), None, None) => validate_match_rule(
            rule,
            &concat2(field, ".match"),
            warnings,
        ),
        (None, None, Some(rule), None) => validate_range_rule(
            rule,
            &concat2(field, ".range"),
            warnings,
        ),
        (None, None, None, Some(rule)) => validate_identifier_rule(
            rule,
            &concat2(field, ".identifiers"),
            warnings,
        ),
        (Some(rule), None, None, None) => validate_gradient_rule(rule, field, warnings),
        _ => {
            warn(
                warnings,
                field,
                "color rule must define exactly one of gradient, match, range, or identifiers",
            );
            None
        },
    }
}

// ---------------------------------------------------------------------------
// Laws
// ---------------------------------------------------------------------------

/// A value to match is the scalar that is written, a number as its digits; an empty
/// text, a number without end and anything else is told and left out.
pub proof fn match_values_are_the_scalars(key: YamlModel, field: Seq<char>, n: i64, s: Seq<char>)
    ensures
        match_key(YamlModel::Bool(true), field).value == Some(ConditionalModel::Bool(true)),
        match_key(YamlModel::Bool(false), field).value == Some(ConditionalModel::Bool(false)),
        n >= 0 ==> match_key(YamlModel::Integer(n), field).value == Some(
            ConditionalModel::Number(text::decimal(n as nat)),
        ),
        n < 0 ==> match_key(YamlModel::Integer(n), field).value == Some(
            ConditionalModel::Number(seq!['-'] + text::decimal((-n) as nat)),
        ),
        numerals::is_finite_numeral(s) ==> match_key(YamlModel::Decimal(s), field).value == Some(
            ConditionalModel::Number(s),
        ),
        !numerals::is_finite_numeral(s) ==> match_key(YamlModel::Decimal(s), field).value is None,
        s.len() > 0 ==> match_key(YamlModel::Text(s), field).value == Some(
            ConditionalModel::String(s),
        ),
        match_key(YamlModel::Text(Seq::empty()), field).value is None,
        match_key(YamlModel::Null, field).value is None,
        match_key(YamlModel::Other, field).value is None,
        match_key(key, field).value is Some <==> match_key(key, field).warnings.len() == 0,
        match_key(key, field).value is None ==> match_key(key, field).warnings.len() == 1
            && match_key(key, field).warnings[0].field == field,
{
    reveal_strlit("-");
    assert("-"@ =~= seq!['-']);
}

/// A colour is a text that holds more than white space; anything else is told.
pub proof fn colors_are_texts(value: YamlModel, field: Seq<char>, message: Seq<char>, s: Seq<char>)
    ensures
        text::trimmed(s).len() > 0 ==> entry_color(YamlModel::Text(s), field, message).value
            == Some(s),
        text::trimmed(s).len() == 0 ==> entry_color(YamlModel::Text(s), field, message).value
            is None,
        value !is Text ==> entry_color(value, field, message).value is None && entry_color(
            value,
            field,
            message,
        ).warnings[0].message == message,
        entry_color(value, field, message).value is Some <==> entry_color(
            value,
            field,
            message,
        ).warnings.len() == 0,
        entry_color(value, field, message).value is None ==> entry_color(
            value,
            field,
            message,
        ).warnings[0].field == field,
{
}

/// Entries of a rule with a good value and a good colour are kept in their order, each
/// with its own; the others are left out and told under their number.
pub proof fn match_entries_are_kept_in_order(
    raw: Seq<(YamlModel, YamlModel)>,
    n: int,
    field: Seq<char>,
)
    requires
        0 <= n < raw.len(),
    ensures
        match_entries(raw, 0, field).value.len() == 0,
        match_entries(raw, 0, field).warnings.len() == 0,
        ({
            let place = field.push('.') + text::decimal(n as nat);
            let key = match_key(raw[n].0, place).value;
            let before = match_entries(raw, n, field);
            let after = match_entries(raw, n + 1, field);
            let color = entry_color(raw[n].1, place, "match color must be a string"@).value;
            if key is Some && color is Some {
                &&& after.value == before.value.push(MatchModel { value: key->0, color: color->0 })
                &&& after.warnings == before.warnings
            } else {
                &&& after.value == before.value
                &&& after.warnings.len() == before.warnings.len() + 1
                &&& after.warnings.last().field == place
            }
        }),
{
    reveal_strlit(".");
    assert(field + "."@ =~= field.push('.'));
    let place = entry_field(field, n);
    match_values_are_the_scalars(raw[n].0, place, 0, Seq::empty());
    colors_are_texts(raw[n].1, place, "match color must be a string"@, Seq::empty());
    let before = match_entries(raw, n, field);
    let after = match_entries(raw, n + 1, field);
    assert(match_entries(raw, n + 1 - 1, field) == before);
    let entry = match_entry(raw[n], place);
    if entry.value is Some {
        assert(entry.warnings =~= silent());
        assert(after.warnings =~= before.warnings);
    } else {
        assert(entry.warnings.len() == 1 && entry.warnings[0].field == place);
    }
}

/// A bound is a sign, with an equals sign behind it or not, and a finite number right
/// behind it.
pub proof fn bounds_are_signs_and_numbers(numeral: Seq<char>)
    requires
        numerals::is_finite_numeral(numeral),
        text::trimmed(numeral) == numeral,
        numeral.len() > 0,
        text::trimmed(seq!['<', '='] + numeral) == seq!['<', '='] + numeral,
        text::trimmed(seq!['>', '='] + numeral) == seq!['>', '='] + numeral,
        text::trimmed(seq!['<'] + numeral) == seq!['<'] + numeral,
        text::trimmed(seq!['>'] + numeral) == seq!['>'] + numeral,
        numeral[0] != '=',
    ensures
        range_bound(seq!['<'] + numeral) == Some((BoundSide::Less, numeral)),
        range_bound(seq!['<', '='] + numeral) == Some((BoundSide::LessOrEqual, numeral)),
        range_bound(seq!['>'] + numeral) == Some((BoundSide::Greater, numeral)),
        range_bound(seq!['>', '='] + numeral) == Some((BoundSide::GreaterOrEqual, numeral)),
{
    reveal_strlit("<=");
    reveal_strlit(">=");
    reveal_strlit("<");
    reveal_strlit(">");
    let le = seq!['<', '='] + numeral;
    let ge = seq!['>', '='] + numeral;
    let lt = seq!['<'] + numeral;
    let gt = seq!['>'] + numeral;
    assert(le.take(2) =~= "<="@);
    assert(le.skip(2) =~= numeral);
    assert(ge.take(2) =~= ">="@);
    assert(ge.skip(2) =~= numeral);
    assert(ge.take(2)[0] != "<="@[0]);
    assert(lt.take(1) =~= "<"@);
    assert(lt.skip(1) =~= numeral);
    assert(lt.take(2)[1] != "<="@[1]);
    assert(lt.take(2)[0] != ">="@[0]);
    assert(gt.take(1) =~= ">"@);
    assert(gt.skip(1) =~= numeral);
    assert(gt.take(2)[0] != "<="@[0]);
    assert(gt.take(2)[1] != ">="@[1]);
    assert(gt.take(1)[0] != "<"@[0]);
}

/// A text without a sign in front is no bound.
pub proof fn bounds_begin_with_a_sign(word: Seq<char>)
    ensures
        range_bound(word) is Some ==> text::trimmed(word).len() > 0 && (text::trimmed(word)[0] == '<'
            || text::trimmed(word)[0] == '>'),
        range_bound(word) matches Some((_, numeral)) ==> numerals::is_finite_numeral(numeral),
        range_bound(word) matches Some((side, _)) ==> ((side is Less || side is LessOrEqual)
            <==> text::trimmed(word)[0] == '<'),
{
    reveal_strlit("<=");
    reveal_strlit(">=");
    reveal_strlit("<");
    reveal_strlit(">");
    let t = text::trimmed(word);
    if t.len() >= 2 {
        assert(t.take(2)[0] == t[0]);
    }
    if t.len() >= 1 {
        assert(t.take(1)[0] == t[0]);
    }
    assert("<="@[0] == '<' && ">="@[0] == '>' && "<"@[0] == '<' && ">"@[0] == '>');
}

/// Each bound of a range is put on its own side and leaves the other sides as they are;
/// a second one on the same side is refused.
pub proof fn bounds_stay_on_their_side(
    words: Seq<Seq<char>>,
    n: int,
    color: Seq<char>,
    numeral: Seq<char>,
)
    requires
        0 <= n < words.len(),
        range_bounds(words, n, color) is Ok,
    ensures
        range_bounds(words, 0, color) == Ok::<RangeModel, Seq<char>>(
            RangeModel { lt: None, lte: None, gt: None, gte: None, color },
        ),
        ({
            let before = range_bounds(words, n, color)->Ok_0;
            let after = range_bounds(words, n + 1, color);
            &&& range_bound(words[n]) is None ==> after is Err
            &&& range_bound(words[n]) == Some((BoundSide::Less, numeral)) ==> if before.lt is Some {
                after is Err
            } else {
                after == Ok::<RangeModel, Seq<char>>(
                    RangeModel { lt: Some(numeral), lte: before.lte, gt: before.gt, gte: before.gte, color: before.color },
                )
            }
            &&& range_bound(words[n]) == Some((BoundSide::LessOrEqual, numeral))
                ==> if before.lte is Some {
                after is Err
            } else {
                after == Ok::<RangeModel, Seq<char>>(
                    RangeModel { lt: before.lt, lte: Some(numeral), gt: before.gt, gte: before.gte, color: before.color },
                )
            }
            &&& range_bound(words[n]) == Some((BoundSide::Greater, numeral))
                ==> if before.gt is Some {
                after is Err
            } else {
                after == Ok::<RangeModel, Seq<char>>(
                    RangeModel { lt: before.lt, lte: before.lte, gt: Some(numeral), gte: before.gte, color: before.color },
                )
            }
            &&& range_bound(words[n]) == Some((BoundSide::GreaterOrEqual, numeral))
                ==> if before.gte is Some {
                after is Err
            } else {
                after == Ok::<RangeModel, Seq<char>>(
                    RangeModel { lt: before.lt, lte: before.lte, gt: before.gt, gte: Some(numeral), color: before.color },
                )
            }
        }),
{
}

/// An expression without a bound is refused, and any other is the range of its words,
/// with the colour that it is given.
pub proof fn ranges_need_a_bound(expression: Seq<char>, color: Seq<char>)
    ensures
        words(expression, 0).len() == 0 ==> range_expression(expression, color) is Err,
        range_expression(expression, color) matches Ok(range) ==> range.color == color && words(
            expression,
            0,
        ).len() > 0,
        words(expression, 0).len() > 0 ==> (range_expression(expression, color) is Ok
            <==> range_bounds(words(expression, 0), words(expression, 0).len() as int, color)
            is Ok),
{
    lemma_ranges_colored(words(expression, 0), words(expression, 0).len() as int, color);
}

proof fn lemma_ranges_colored(words: Seq<Seq<char>>, n: int, color: Seq<char>)
    requires
        0 <= n <= words.len(),
    ensures
        range_bounds(words, n, color) matches Ok(range) ==> range.color == color,
    decreases n,
{
    if n > 0 {
        lemma_ranges_colored(words, n - 1, color);
    }
}

/// Words stand between white space: a word with a white character behind it is the first
/// of a text, and the words of the rest follow.
pub proof fn words_stand_between_white_space(word: Seq<char>, c: char, rest: Seq<char>)
    requires
        word.len() > 0,
        forall|i: int| 0 <= i < word.len() ==> !text::is_white(#[trigger] word[i]),
        text::is_white(c),
    ensures
        words(Seq::empty(), 0).len() == 0,
        words(word, 0) == seq![word],
        words(word.push(c) + rest, 0).len() > 0,
        words(word.push(c) + rest, 0)[0] == word,
        words(word.push(c) + rest, 0).skip(1) == words(word.push(c) + rest, word.len() as int),
        words(word.push(c) + rest, word.len() as int) == words(
            word.push(c) + rest,
            word.len() as int + 1,
        ),
{
    let s = word.push(c) + rest;
    let n = word.len() as int;
    lemma_word_reach(word, 0, n);
    lemma_word_reach(s, 0, n);
    assert(!text::is_white(word[0]));
    assert(s[0] == word[0]);
    assert(word_start(word, 0) == 0);
    assert(word_start(s, 0) == 0);
    assert(s[n] == c);
    assert(word_end(s, n) == n);
    assert(word.subrange(0, n) =~= word);
    assert(s.subrange(0, n) =~= word);
    assert(word_start(word, n) == n);
    assert(words(word, n) == Seq::<Seq<char>>::empty());
    assert(seq![word] + words(word, n) =~= seq![word]);
    assert(words(s, 0) == seq![word] + words(s, n));
    assert((seq![word] + words(s, n)).skip(1) =~= words(s, n));
    assert(word_start(s, n) == word_start(s, n + 1));
    let none = Seq::<char>::empty();
    assert(word_start(none, 0) == 0);
}

proof fn lemma_word_reach(s: Seq<char>, from: int, n: int)
    requires
        0 <= from <= n <= s.len(),
        forall|i: int| 0 <= i < n ==> !text::is_white(#[trigger] s[i]),
        n == s.len() || text::is_white(s[n]),
    ensures
        word_end(s, from) == n,
    decreases n - from,
{
    if from < n {
        assert(!text::is_white(s[from]));
        lemma_word_reach(s, from + 1, n);
    }
}

/// Entries of a range are kept in their order with the range that they write; the others
/// are left out and told under their number.
pub proof fn range_entries_are_kept_in_order(
    raw: Seq<(YamlModel, YamlModel)>,
    n: int,
    field: Seq<char>,
    expression: Seq<char>,
    color: Seq<char>,
)
    requires
        0 <= n < raw.len(),
        text::trimmed(color).len() > 0,
    ensures
        range_entries(raw, 0, field).value.len() == 0,
        raw[n] == (YamlModel::Text(expression), YamlModel::Text(color)) && range_expression(
            expression,
            color,
        ) is Ok ==> range_entries(raw, n + 1, field).value == range_entries(
            raw,
            n,
            field,
        ).value.push(range_expression(expression, color)->Ok_0),
        raw[n] == (YamlModel::Text(expression), YamlModel::Text(color)) && range_expression(
            expression,
            color,
        ) is Err ==> range_entries(raw, n + 1, field).value == range_entries(raw, n, field).value
            && range_entries(raw, n + 1, field).warnings.last().field == field.push('.')
            + text::decimal(n as nat),
        raw[n].0 !is Text ==> range_entries(raw, n + 1, field).value == range_entries(
            raw,
            n,
            field,
        ).value,
{
    reveal_strlit(".");
    assert(field + "."@ =~= field.push('.'));
}

/// A stop of a gradient is at a finite number, written as a number or as text.
pub proof fn stops_are_at_finite_numbers(n: i64, s: Seq<char>, b: bool)
    ensures
        n >= 0 ==> stop_value(YamlModel::Integer(n)) == Some(text::decimal(n as nat)),
        n < 0 ==> stop_value(YamlModel::Integer(n)) == Some(
            seq!['-'] + text::decimal((-n) as nat),
        ),
        numerals::is_finite_numeral(s) ==> stop_value(YamlModel::Decimal(s)) == Some(s)
            && stop_value(YamlModel::Text(s)) == Some(s),
        !numerals::is_finite_numeral(s) ==> stop_value(YamlModel::Decimal(s)) is None
            && stop_value(YamlModel::Text(s)) is None,
        stop_value(YamlModel::Bool(b)) is None,
        stop_value(YamlModel::Null) is None,
{
    reveal_strlit("-");
    assert("-"@ =~= seq!['-']);
}

/// Stops are kept in their order, each with its value and its colour.
pub proof fn stops_are_kept_in_order(
    raw: Seq<(YamlModel, YamlModel)>,
    n: int,
    field: Seq<char>,
    color: Seq<char>,
)
    requires
        0 <= n < raw.len(),
        text::trimmed(color).len() > 0,
    ensures
        stop_entries(raw, 0, field).value.len() == 0,
        stop_value(raw[n].0) is Some && raw[n].1 == YamlModel::Text(color) ==> stop_entries(
            raw,
            n + 1,
            field,
        ).value == stop_entries(raw, n, field).value.push(
            StopModel { value: stop_value(raw[n].0)->0, color },
        ),
        stop_value(raw[n].0) is None || raw[n].1 !is Text ==> stop_entries(raw, n + 1, field).value
            == stop_entries(raw, n, field).value,
{
}

/// A gradient is fixed or automatic by its mode: a fixed one has the stops that are good,
/// two at least, and an automatic one the colours that are written, two at least, with
/// eight steps where none are written and one at least.
pub proof fn gradients_go_by_their_mode(raw: RawGradientRule, field: Seq<char>)
    ensures
        raw.mode@ == "fixed"@ ==> {
            let stops = stop_entries(
                raw_stops(raw),
                raw_stops(raw).len() as int,
                field + ".gradient.stops"@,
            ).value;
            &&& gradient_rule(raw, field).value is Some <==> stops.len() >= 2
            &&& gradient_rule(raw, field).value is Some ==> gradient_rule(raw, field).value == Some(
                RuleModel::FixedGradient(stops),
            )
        },
        raw.mode@ == "auto"@ ==> {
            let shades = raw_shades(raw);
            &&& gradient_rule(raw, field).value is Some <==> shades.len() >= 2 && forall|i: int|
                0 <= i < shades.len() ==> text::trimmed(#[trigger] shades[i]).len() > 0
            &&& gradient_rule(raw, field).value is Some ==> match gradient_rule(raw, field).value->0 {
                RuleModel::AutoGradient(colors, steps) => {
                    &&& colors == shades
                    &&& raw.steps is None ==> steps == 8
                    &&& raw.steps matches Some(n) ==> steps == n || (n == 0 && steps == 1)
                    &&& steps >= 1
                },
                _ => false,
            }
        },
        raw.mode@ != "fixed"@ && raw.mode@ != "auto"@ ==> gradient_rule(raw, field).value is None,
{
    reveal_strlit("fixed");
    reveal_strlit("auto");
    assert("fixed"@.len() == 5);
    assert("auto"@.len() == 4);
    let shades = raw_shades(raw);
    if has_blank(shades) {
        let i = choose|i: int| 0 <= i < shades.len() && is_blank(#[trigger] shades[i]);
        assert(text::trimmed(shades[i]).len() == 0);
    } else {
        assert forall|i: int| 0 <= i < shades.len() implies text::trimmed(
            #[trigger] shades[i],
        ).len() > 0 by {
            assert(!is_blank(shades[i]));
        }
    }
}

/// A rule has exactly one of its four forms, and becomes a rule of that form or none.
pub proof fn rules_have_one_form(raw: RawColorRule, field: Seq<char>)
    ensures
        raw.gradient is Some && raw.match_rule is Some ==> color_rule(raw, field).value is None,
        raw.gradient is Some && raw.range is Some ==> color_rule(raw, field).value is None,
        raw.gradient is Some && raw.identifiers is Some ==> color_rule(raw, field).value is None,
        raw.match_rule is Some && raw.range is Some ==> color_rule(raw, field).value is None,
        raw.match_rule is Some && raw.identifiers is Some ==> color_rule(raw, field).value is None,
        raw.range is Some && raw.identifiers is Some ==> color_rule(raw, field).value is None,
        raw.gradient is None && raw.match_rule is None && raw.range is None && raw.identifiers
            is None ==> color_rule(raw, field).value is None,
        color_rule(raw, field).value matches Some(rule) ==> {
            &&& rule is Match <==> raw.match_rule is Some
            &&& rule is Range <==> raw.range is Some
            &&& rule is Identifiers <==> raw.identifiers is Some
            &&& rule is FixedGradient || rule is AutoGradient <==> raw.gradient is Some
        },
        color_rule(raw, field).value is None ==> color_rule(raw, field).warnings.len() > 0,
{
}

/// A rule of matches or of ranges holds the good entries, and there is none without one.
pub proof fn rules_hold_their_good_entries(raw: Seq<(YamlModel, YamlModel)>, field: Seq<char>)
    ensures
        match_rule(raw, field).value is Some <==> match_entries(raw, raw.len() as int, field).value.len()
            > 0,
        match_rule(raw, field).value matches Some(rule) ==> rule == RuleModel::Match(
            match_entries(raw, raw.len() as int, field).value,
        ),
        range_rule(raw, field).value is Some <==> range_entries(raw, raw.len() as int, field).value.len()
            > 0,
        range_rule(raw, field).value matches Some(rule) ==> rule == RuleModel::Range(
            range_entries(raw, raw.len() as int, field).value,
        ),
{
}

/// Identifiers are coloured by a mode, where only one is known, or by the colours that
/// are written, one at least and none of them blank.
pub proof fn identifiers_take_their_colors(mode: String, colors: Vec<String>, field: Seq<char>)
    ensures
        identifier_rule(None, field).value == Some(RuleModel::Identifiers(None)),
        identifier_rule(Some(RawIdentifierColors::Mode(mode)), field).value is Some <==> mode@
            == "auto"@,
        mode@ == "auto"@ ==> identifier_rule(Some(RawIdentifierColors::Mode(mode)), field).value
            == Some(RuleModel::Identifiers(None)),
        colors@.len() == 0 ==> identifier_rule(
            Some(RawIdentifierColors::Colors(colors)),
            field,
        ).value is None,
        colors@.len() > 0 && (forall|i: int|
            0 <= i < colors@.len() ==> text::trimmed(#[trigger] text::views(colors@)[i]).len() > 0)
            ==> identifier_rule(Some(RawIdentifierColors::Colors(colors)), field).value == Some(
            RuleModel::Identifiers(Some(text::views(colors@))),
        ),
        (exists|i: int|
            0 <= i < colors@.len() && text::trimmed(#[trigger] text::views(colors@)[i]).len() == 0)
            ==> identifier_rule(Some(RawIdentifierColors::Colors(colors)), field).value is None,
{
    let texts = text::views(colors@);
    if exists|i: int| 0 <= i < colors@.len() && text::trimmed(#[trigger] texts[i]).len() == 0 {
        let i = choose|i: int|
            0 <= i < colors@.len() && text::trimmed(#[trigger] texts[i]).len() == 0;
        assert(is_blank(texts[i]));
    }
}

} // verus!
