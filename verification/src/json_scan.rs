//! Finding values in the bytes of a JSON text without building them.

use vstd::prelude::*;
use vstd::slice::*;

use crate::json_value::{self, FaultModel, Json, JsonFault, read_json_text};
use crate::options::{JsonPointer, SourceOptionError, SourceOptionErrorModel};
use crate::text::{self, concat3, parse_usize, same};

verus! {

// ---------------------------------------------------------------------------
// Errors
// ---------------------------------------------------------------------------

/// Why a JSON source could not be read as a table.
#[derive(Debug, PartialEq, Eq)]
pub enum JsonError {
    Json(JsonFault),
    Options(SourceOptionError),
    ExpectedString,
    ExpectedKey,
    ExpectedValue,
    UnterminatedString,
    UnterminatedContainer,
    UnterminatedObject,
    UnterminatedSelectedObject,
    UnterminatedSelectedArray,
    ObjectSeparator,
    SelectedObjectSeparator,
    SelectedArraySeparator,
    Syntax,
    NotFound,
    NotAnIndex,
    PathMissing(String),
    DuplicateKey(String),
    NotTabular(Option<String>),
    NotContainer,
    SourceChanged,
    WrongFormat,
    Expected(char),
}

/// The model of a JSON error.
pub enum JsonErrorModel {
    Json(FaultModel),
    Options(SourceOptionErrorModel),
    ExpectedString,
    ExpectedKey,
    ExpectedValue,
    UnterminatedString,
    UnterminatedContainer,
    UnterminatedObject,
    UnterminatedSelectedObject,
    UnterminatedSelectedArray,
    ObjectSeparator,
    SelectedObjectSeparator,
    SelectedArraySeparator,
    Syntax,
    NotFound,
    NotAnIndex,
    PathMissing(Seq<char>),
    DuplicateKey(Seq<char>),
    NotTabular(Option<Seq<char>>),
    NotContainer,
    SourceChanged,
    WrongFormat,
    Expected(char),
}

impl View for JsonError {
    type V = JsonErrorModel;

    open spec fn view(&self) -> JsonErrorModel {
        match self {
            JsonError::Json(e) => JsonErrorModel::Json(e@),
            JsonError::Options(e) => JsonErrorModel::Options(e@),
            JsonError::ExpectedString => JsonErrorModel::ExpectedString,
            JsonError::ExpectedKey => JsonErrorModel::ExpectedKey,
            JsonError::ExpectedValue => JsonErrorModel::ExpectedValue,
            JsonError::UnterminatedString => JsonErrorModel::UnterminatedString,
            JsonError::UnterminatedContainer => JsonErrorModel::UnterminatedContainer,
            JsonError::UnterminatedObject => JsonErrorModel::UnterminatedObject,
            JsonError::UnterminatedSelectedObject => JsonErrorModel::UnterminatedSelectedObject,
            JsonError::UnterminatedSelectedArray => JsonErrorModel::UnterminatedSelectedArray,
            JsonError::ObjectSeparator => JsonErrorModel::ObjectSeparator,
            JsonError::SelectedObjectSeparator => JsonErrorModel::SelectedObjectSeparator,
            JsonError::SelectedArraySeparator => JsonErrorModel::SelectedArraySeparator,
            JsonError::Syntax => JsonErrorModel::Syntax,
            JsonError::NotFound => JsonErrorModel::NotFound,
            JsonError::NotAnIndex => JsonErrorModel::NotAnIndex,
            JsonError::PathMissing(s) => JsonErrorModel::PathMissing(s@),
            JsonError::DuplicateKey(s) => JsonErrorModel::DuplicateKey(s@),
            JsonError::NotTabular(s) => JsonErrorModel::NotTabular(text::opt_view(*s)),
            JsonError::NotContainer => JsonErrorModel::NotContainer,
            JsonError::SourceChanged => JsonErrorModel::SourceChanged,
            JsonError::WrongFormat => JsonErrorModel::WrongFormat,
            JsonError::Expected(c) => JsonErrorModel::Expected(*c),
        }
    }
}

impl JsonErrorModel {
    /// The text shown for the error.
    pub open spec fn text(self) -> Seq<char> {
        match self {
            JsonErrorModel::Json(e) => e.message,
            JsonErrorModel::Options(e) => e.text(),
            JsonErrorModel::ExpectedString => "expected JSON string"@,
            JsonErrorModel::ExpectedKey => "expected JSON object key"@,
            JsonErrorModel::ExpectedValue => "expected JSON value"@,
            JsonErrorModel::UnterminatedString => "unterminated JSON string"@,
            JsonErrorModel::UnterminatedContainer => "unterminated JSON container"@,
            JsonErrorModel::UnterminatedObject => "unterminated JSON object"@,
            JsonErrorModel::UnterminatedSelectedObject => "unterminated selected JSON object"@,
            JsonErrorModel::UnterminatedSelectedArray => "unterminated selected JSON array"@,
            JsonErrorModel::ObjectSeparator => "invalid JSON object separator"@,
            JsonErrorModel::SelectedObjectSeparator => "invalid selected JSON object separator"@,
            JsonErrorModel::SelectedArraySeparator => "invalid selected JSON array separator"@,
            JsonErrorModel::Syntax => "invalid JSON syntax"@,
            JsonErrorModel::NotFound => "JSON starting path was not found"@,
            JsonErrorModel::NotAnIndex => "JSON Pointer array segment is not an index"@,
            JsonErrorModel::PathMissing(path) => "JSON starting path '"@ + path
                + "' was not found"@,
            JsonErrorModel::DuplicateKey(key) => "duplicate object member key '"@ + key + "'"@,
            JsonErrorModel::NotTabular(Some(warning)) => warning + "; "@
                + "JSON starting path does not identify a tabular object or array"@,
            JsonErrorModel::NotTabular(None) =>
                "JSON starting path does not identify a tabular object or array"@,
            JsonErrorModel::NotContainer =>
                "JSON starting path does not identify an object or array"@,
            JsonErrorModel::SourceChanged =>
                "source changed during incremental access; reload is required"@,
            JsonErrorModel::WrongFormat => "JSON adapter requires json or ndjson format"@,
            JsonErrorModel::Expected(c) => "expected '"@ + seq![c] + "' in JSON input"@,
        }
    }
}

impl JsonError {
    /// The text shown for the error.
    pub fn message(&self) -> (r: String)
        ensures
            r@ == self@.text(),
    {
        match self {
            JsonError::Json(e) => e.message.as_str().to_owned(),
            JsonError::Options(e) => e.message(),
            JsonError::ExpectedString => "expected JSON string".to_owned(),
            JsonError::ExpectedKey => "expected JSON object key".to_owned(),
            JsonError::ExpectedValue => "expected JSON value".to_owned(),
            JsonError::UnterminatedString => "unterminated JSON string".to_owned(),
            JsonError::UnterminatedContainer => "unterminated JSON container".to_owned(),
            JsonError::UnterminatedObject => "unterminated JSON object".to_owned(),
            JsonError::UnterminatedSelectedObject => "unterminated selected JSON object".to_owned(),
            JsonError::UnterminatedSelectedArray => "unterminated selected JSON array".to_owned(),
            JsonError::ObjectSeparator => "invalid JSON object separator".to_owned(),
            JsonError::SelectedObjectSeparator =>
                "invalid selected JSON object separator".to_owned(),
            JsonError::SelectedArraySeparator => "invalid selected JSON array separator".to_owned(),
            JsonError::Syntax => "invalid JSON syntax".to_owned(),
            JsonError::NotFound => "JSON starting path was not found".to_owned(),
            JsonError::NotAnIndex => "JSON Pointer array segment is not an index".to_owned(),
            JsonError::PathMissing(path) => concat3(
                "JSON starting path '",
                path,
                "' was not found",
            ),
            JsonError::DuplicateKey(key) => concat3("duplicate object member key '", key, "'"),
            JsonError::NotTabular(Some(warning)) => concat3(
                warning,
                "; ",
                "JSON starting path does not identify a tabular object or array",
            ),
            JsonError::NotTabular(None) =>
                "JSON starting path does not identify a tabular object or array".to_owned(),
            JsonError::NotContainer =>
                "JSON starting path does not identify an object or array".to_owned(),
            JsonError::SourceChanged =>
                "source changed during incremental access; reload is required".to_owned(),
            JsonError::WrongFormat => "JSON adapter requires json or ndjson format".to_owned(),
            JsonError::Expected(c) => {
                let mut shown = String::new();
                shown.push(*c);
                assert(shown@ =~= seq![*c]);
                concat3("expected '", &shown, "' in JSON input")
            },
        }
    }
}

// ---------------------------------------------------------------------------
// Bytes
// ---------------------------------------------------------------------------

/// White space between the parts of a JSON text.
pub open spec fn is_space(b: u8) -> bool {
    b == 0x20 || b == 0x09 || b == 0x0a || b == 0x0c || b == 0x0d
}

/// The first position from `at` on that holds no white space, or the end.
pub open spec fn solid(bytes: Seq<u8>, at: int) -> int
    decreases bytes.len() - at,
{
    if 0 <= at < bytes.len() && is_space(bytes[at]) {
        solid(bytes, at + 1)
    } else {
        at
    }
}

/// The position behind the string whose opening quote stands before `at`: a
/// backslash takes the byte behind it along.
pub open spec fn string_end(bytes: Seq<u8>, at: int) -> Option<int>
    decreases bytes.len() - at,
{
    if at < 0 || at >= bytes.len() {
        None
    } else if bytes[at] == 0x5c {
        if at + 1 < bytes.len() {
            string_end(bytes, at + 2)
        } else {
            None
        }
    } else if bytes[at] == 0x22 {
        Some(at + 1)
    } else {
        string_end(bytes, at + 1)
    }
}

/// Whether a byte closes the container that another one opened.
pub open spec fn closes(opened: u8, b: u8) -> bool {
    opened == 0x7b && b == 0x7d || opened == 0x5b && b == 0x5d
}

/// The position behind the containers in `open`, of which the last is the
/// innermost, read on from `at`.
pub open spec fn container_end(bytes: Seq<u8>, at: int, open: Seq<u8>) -> Result<
    int,
    JsonErrorModel,
>
    decreases bytes.len() - at,
{
    if open.len() == 0 {
        Ok(at)
    } else if at < 0 || at >= bytes.len() {
        Err(JsonErrorModel::UnterminatedContainer)
    } else if bytes[at] == 0x22 {
        match string_end(bytes, at + 1) {
            None => Err(JsonErrorModel::UnterminatedString),
            Some(end) => if at < end <= bytes.len() {
                container_end(bytes, end, open)
            } else {
                Err(JsonErrorModel::UnterminatedString)
            },
        }
    } else if bytes[at] == 0x7b || bytes[at] == 0x5b {
        container_end(bytes, at + 1, open.push(bytes[at]))
    } else if closes(open.last(), bytes[at]) {
        container_end(bytes, at + 1, open.drop_last())
    } else {
        container_end(bytes, at + 1, open)
    }
}

/// Whether a byte ends a number or a literal name.
pub open spec fn ends_scalar(b: u8) -> bool {
    is_space(b) || b == 0x2c || b == 0x5d || b == 0x7d
}

/// The first position from `at` on that ends a scalar, or the end.
pub open spec fn scalar_end(bytes: Seq<u8>, at: int) -> int
    decreases bytes.len() - at,
{
    if 0 <= at < bytes.len() && !ends_scalar(bytes[at]) {
        scalar_end(bytes, at + 1)
    } else {
        at
    }
}

/// The position behind the value that begins at `start`.
pub open spec fn value_end(bytes: Seq<u8>, start: int) -> Result<int, JsonErrorModel> {
    if bytes[start] == 0x22 {
        match string_end(bytes, start + 1) {
            None => Err(JsonErrorModel::UnterminatedString),
            Some(end) => Ok(end),
        }
    } else if bytes[start] == 0x7b || bytes[start] == 0x5b {
        container_end(bytes, start + 1, seq![bytes[start]])
    } else {
        Ok(scalar_end(bytes, start + 1))
    }
}

/// Where the next value begins, and the position behind it.
pub open spec fn value_range(bytes: Seq<u8>, at: int) -> Result<(int, int), JsonErrorModel> {
    let start = solid(bytes, at);
    if start >= bytes.len() {
        Err(JsonErrorModel::ExpectedValue)
    } else {
        match value_end(bytes, start) {
            Ok(end) => Ok((start, end)),
            Err(e) => Err(e),
        }
    }
}

/// The string that comes next, and the position behind it.
pub open spec fn key_at(bytes: Seq<u8>, at: int) -> Result<(Seq<char>, int), JsonErrorModel> {
    let start = solid(bytes, at);
    if start >= bytes.len() {
        Err(JsonErrorModel::ExpectedString)
    } else if bytes[start] != 0x22 {
        Err(JsonErrorModel::ExpectedKey)
    } else {
        match string_end(bytes, start + 1) {
            None => Err(JsonErrorModel::UnterminatedString),
            Some(end) => match json_value::json_string_read(bytes.subrange(start, end)) {
                Ok(key) => Ok((key, end)),
                Err(e) => Err(JsonErrorModel::Json(e)),
            },
        }
    }
}

/// The next byte that is no white space, and the position behind it.
pub open spec fn next_byte(bytes: Seq<u8>, at: int) -> Option<(u8, int)> {
    let start = solid(bytes, at);
    if start >= bytes.len() {
        None
    } else {
        Some((bytes[start], start + 1))
    }
}

/// Skipping white space goes forward and stays within the bytes.
pub proof fn lemma_solid(bytes: Seq<u8>, at: int)
    requires
        0 <= at <= bytes.len(),
    ensures
        at <= solid(bytes, at) <= bytes.len(),
        solid(bytes, at) < bytes.len() ==> !is_space(bytes[solid(bytes, at)]),
    decreases bytes.len() - at,
{
    if at < bytes.len() && is_space(bytes[at]) {
        lemma_solid(bytes, at + 1);
    }
}

/// Skipping white space where there is none stays there.
pub proof fn lemma_solid_stays(bytes: Seq<u8>, at: int)
    requires
        0 <= at <= bytes.len(),
    ensures
        solid(bytes, solid(bytes, at)) == solid(bytes, at),
{
    lemma_solid(bytes, at);
}

/// A string ends behind the position that it is read from, within the bytes.
pub proof fn lemma_string_end(bytes: Seq<u8>, at: int)
    requires
        0 <= at,
    ensures
        string_end(bytes, at) matches Some(end) ==> at < end <= bytes.len(),
    decreases bytes.len() - at,
{
    if at < bytes.len() {
        if bytes[at] == 0x5c {
            if at + 1 < bytes.len() {
                lemma_string_end(bytes, at + 2);
            }
        } else if bytes[at] != 0x22 {
            lemma_string_end(bytes, at + 1);
        }
    }
}

/// A container ends no earlier than where it is read from, within the bytes.
pub proof fn lemma_container_end(bytes: Seq<u8>, at: int, open: Seq<u8>)
    requires
        0 <= at <= bytes.len(),
    ensures
        container_end(bytes, at, open) matches Ok(end) ==> at <= end <= bytes.len(),
    decreases bytes.len() - at,
{
    if open.len() > 0 && at < bytes.len() {
        if bytes[at] == 0x22 {
            lemma_string_end(bytes, at + 1);
            if let Some(end) = string_end(bytes, at + 1) {
                lemma_container_end(bytes, end, open);
            }
        } else if bytes[at] == 0x7b || bytes[at] == 0x5b {
            lemma_container_end(bytes, at + 1, open.push(bytes[at]));
        } else if closes(open.last(), bytes[at]) {
            lemma_container_end(bytes, at + 1, open.drop_last());
        } else {
            lemma_container_end(bytes, at + 1, open);
        }
    }
}

/// A scalar ends no earlier than where it is read from, within the bytes.
pub proof fn lemma_scalar_end(bytes: Seq<u8>, at: int)
    requires
        0 <= at <= bytes.len(),
    ensures
        at <= scalar_end(bytes, at) <= bytes.len(),
    decreases bytes.len() - at,
{
    if at < bytes.len() && !ends_scalar(bytes[at]) {
        lemma_scalar_end(bytes, at + 1);
    }
}

/// A value is not empty and stays within the bytes.
pub proof fn lemma_value_range(bytes: Seq<u8>, at: int)
    requires
        0 <= at <= bytes.len(),
    ensures
        value_range(bytes, at) matches Ok((start, end)) ==> at <= start < end <= bytes.len(),
{
    lemma_solid(bytes, at);
    let start = solid(bytes, at);
    if start < bytes.len() {
        lemma_string_end(bytes, start + 1);
        lemma_container_end(bytes, start + 1, seq![bytes[start]]);
        lemma_scalar_end(bytes, start + 1);
    }
}

/// A key is read forward and within the bytes.
pub proof fn lemma_key_at(bytes: Seq<u8>, at: int)
    requires
        0 <= at <= bytes.len(),
    ensures
        key_at(bytes, at) matches Ok((_, end)) ==> at < end <= bytes.len(),
{
    lemma_solid(bytes, at);
    lemma_string_end(bytes, solid(bytes, at) + 1);
}

/// The next byte is read forward and within the bytes.
pub proof fn lemma_next_byte(bytes: Seq<u8>, at: int)
    requires
        0 <= at <= bytes.len(),
    ensures
        next_byte(bytes, at) matches Some((_, end)) ==> at < end <= bytes.len(),
{
    lemma_solid(bytes, at);
}

/// Whether a byte is white space.
pub fn space(b: u8) -> (r: bool)
    ensures
        r == is_space(b),
{
    b == 0x20 || b == 0x09 || b == 0x0a || b == 0x0c || b == 0x0d
}

/// The first position from `at` on that holds no white space, if there is one.
pub fn skip_whitespace(bytes: &[u8], at: usize) -> (r: Option<usize>)
    requires
        at <= bytes@.len(),
    ensures
        match r {
            Some(n) => n == solid(bytes@, at as int) && at <= n < bytes@.len() && !is_space(
                bytes@[n as int],
            ),
            None => solid(bytes@, at as int) == bytes@.len(),
        },
{
    let mut i: usize = at;
    while i < bytes.len() && space(bytes[i])
        invariant
            at <= i <= bytes@.len(),
            solid(bytes@, at as int) == solid(bytes@, i as int),
        decreases bytes@.len() - i,
    {
        i = i + 1;
    }
    if i < bytes.len() {
        Some(i)
    } else {
        None
    }
}

/// The next byte that is no white space, and the position behind it.
pub fn read_non_whitespace(bytes: &[u8], at: usize) -> (r: Option<(u8, usize)>)
    requires
        at <= bytes@.len(),
    ensures
        match (r, next_byte(bytes@, at as int)) {
            (Some((b, n)), Some((c, m))) => b == c && n == m && at < n <= bytes@.len(),
            (None, None) => true,
            _ => false,
        },
{
    match skip_whitespace(bytes, at) {
        Some(n) => Some((bytes[n], n + 1)),
        None => None,
    }
}

/// Reads one given byte, after white space.
pub fn expect_json_byte(bytes: &[u8], at: usize, expected: u8) -> (r: Result<usize, JsonError>)
    requires
        at <= bytes@.len(),
    ensures
        match r {
            Ok(n) => next_byte(bytes@, at as int) == Some((expected, n as int)) && at < n
                <= bytes@.len(),
            Err(e) => e == JsonError::Syntax && !(next_byte(bytes@, at as int) matches Some((b, _))
                && b == expected),
        },
{
    match read_non_whitespace(bytes, at) {
        Some((b, n)) => if b == expected {
            Ok(n)
        } else {
            Err(JsonError::Syntax)
        },
        None => Err(JsonError::Syntax),
    }
}

/// The position behind the string whose opening quote stands before `at`.
pub fn skip_string(bytes: &[u8], at: usize) -> (r: Option<usize>)
    requires
        at <= bytes@.len(),
    ensures
        match (r, string_end(bytes@, at as int)) {
            (Some(n), Some(m)) => n == m && at < n <= bytes@.len(),
            (None, None) => true,
            _ => false,
        },
{
    let mut i: usize = at;
    while i < bytes.len()
        invariant
            at <= i <= bytes@.len(),
            string_end(bytes@, at as int) == string_end(bytes@, i as int),
        decreases bytes@.len() - i,
    {
        let b: u8 = bytes[i];
        if b == 0x5c {
            if bytes.len() - i < 2 {
                return None;
            }
            i = i + 2;
        } else if b == 0x22 {
            return Some(i + 1);
        } else {
            i = i + 1;
        }
    }
    None
}

/// The string that comes next, and the position behind it.
pub fn read_json_string(bytes: &[u8], at: usize) -> (r: Result<(String, usize), JsonError>)
    requires
        at <= bytes@.len(),
    ensures
        match (r, key_at(bytes@, at as int)) {
            (Ok((key, n)), Ok((model, m))) => key@ == model && n == m && at < n <= bytes@.len(),
            (Err(e), Err(m)) => e@ == m,
            _ => false,
        },
{
    let start: usize = match skip_whitespace(bytes, at) {
        Some(n) => n,
        None => {
            return Err(JsonError::ExpectedString);
        },
    };
    if bytes[start] != 0x22 {
        return Err(JsonError::ExpectedKey);
    }
    match skip_string(bytes, start + 1) {
        None => Err(JsonError::UnterminatedString),
        Some(end) => match read_json_text(slice_subrange(bytes, start, end)) {
            Ok(key) => Ok((key, end)),
            Err(e) => Err(JsonError::Json(e)),
        },
    }
}

fn skip_container(bytes: &[u8], at: usize, opened: u8) -> (r: Result<usize, JsonError>)
    requires
        at <= bytes@.len(),
    ensures
        match (r, container_end(bytes@, at as int, seq![opened])) {
            (Ok(n), Ok(m)) => n == m && at <= n <= bytes@.len(),
            (Err(e), Err(m)) => e@ == m,
            _ => false,
        },
{
    let mut open: Vec<u8> = Vec::new();
    open.push(opened);
    assert(open@ =~= seq![opened]);
    let mut i: usize = at;
    while open.len() > 0
        invariant
            at <= i <= bytes@.len(),
            container_end(bytes@, at as int, seq![opened]) == container_end(
                bytes@,
                i as int,
                open@,
            ),
        decreases bytes@.len() - i, open@.len(),
    {
        if i >= bytes.len() {
            return Err(JsonError::UnterminatedContainer);
        }
        let b: u8 = bytes[i];
        if b == 0x22 {
            match skip_string(bytes, i + 1) {
                None => {
                    return Err(JsonError::UnterminatedString);
                },
                Some(end) => {
                    i = end;
                },
            }
        } else {
            let last: u8 = open[open.len() - 1];
            if b == 0x7b || b == 0x5b {
                open.push(b);
            } else if (last == 0x7b && b == 0x7d) || (last == 0x5b && b == 0x5d) {
                let ghost before = open@;
                open.pop();
                assert(open@ =~= before.drop_last());
            }
            i = i + 1;
        }
    }
    Ok(i)
}

fn skip_scalar(bytes: &[u8], at: usize) -> (r: usize)
    requires
        at <= bytes@.len(),
    ensures
        r == scalar_end(bytes@, at as int),
        at <= r <= bytes@.len(),
{
    let mut i: usize = at;
    while i < bytes.len() && !(space(bytes[i]) || bytes[i] == 0x2c || bytes[i] == 0x5d || bytes[i]
        == 0x7d)
        invariant
            at <= i <= bytes@.len(),
            scalar_end(bytes@, at as int) == scalar_end(bytes@, i as int),
        decreases bytes@.len() - i,
    {
        i = i + 1;
    }
    i
}

/// Where the next value begins, and the position behind it.
pub fn skip_json_value(bytes: &[u8], at: usize) -> (r: Result<(usize, usize), JsonError>)
    requires
        at <= bytes@.len(),
    ensures
        match (r, value_range(bytes@, at as int)) {
            (Ok((start, end)), Ok((s, e))) => start == s && end == e && at <= start < end
                <= bytes@.len(),
            (Err(e), Err(m)) => e@ == m,
            _ => false,
        },
{
    let start: usize = match skip_whitespace(bytes, at) {
        Some(n) => n,
        None => {
            return Err(JsonError::ExpectedValue);
        },
    };
    let first: u8 = bytes[start];
    if first == 0x22 {
        match skip_string(bytes, start + 1) {
            None => Err(JsonError::UnterminatedString),
            Some(end) => Ok((start, end)),
        }
    } else if first == 0x7b || first == 0x5b {
        match skip_container(bytes, start + 1, first) {
            Ok(end) => Ok((start, end)),
            Err(e) => Err(e),
        }
    } else {
        Ok((start, skip_scalar(bytes, start + 1)))
    }
}

// ---------------------------------------------------------------------------
// Pointers
// ---------------------------------------------------------------------------

/// Where the value that a path of keys selects begins: at the first member of
/// each name, and at the item of each index.
pub open spec fn located(bytes: Seq<u8>, at: int, keys: Seq<Seq<char>>) -> Result<
    int,
    JsonErrorModel,
>
    decreases keys.len(), bytes.len() - at,
    when 0 <= at <= bytes.len()
{
    let start = solid(bytes, at);
    proof {
        lemma_solid(bytes, at);
    }
    if start >= bytes.len() {
        Err(JsonErrorModel::NotFound)
    } else if keys.len() == 0 {
        Ok(start)
    } else if bytes[start] == 0x7b {
        located_member(bytes, start + 1, keys)
    } else if bytes[start] == 0x5b {
        match text::unsigned_value(keys[0], usize::MAX as nat) {
            None => Err(JsonErrorModel::NotAnIndex),
            Some(target) => located_item(bytes, start + 1, keys, target),
        }
    } else {
        Err(JsonErrorModel::NotFound)
    }
}

/// The value that a path selects among the members of an object, read from `at`.
pub open spec fn located_member(bytes: Seq<u8>, at: int, keys: Seq<Seq<char>>) -> Result<
    int,
    JsonErrorModel,
>
    decreases keys.len(), bytes.len() - at,
    when 0 <= at <= bytes.len() && keys.len() > 0
{
    let start = solid(bytes, at);
    proof {
        lemma_solid(bytes, at);
        if start < bytes.len() {
            lemma_key_at(bytes, start);
        }
    }
    if start >= bytes.len() {
        Err(JsonErrorModel::UnterminatedObject)
    } else if bytes[start] == 0x7d {
        Err(JsonErrorModel::NotFound)
    } else {
        match key_at(bytes, start) {
            Err(e) => Err(e),
            Ok((key, key_end)) => {
                proof {
                    lemma_next_byte(bytes, key_end);
                }
                match next_byte(bytes, key_end) {
                    Some((0x3a, colon)) => if key == keys[0] {
                        located(bytes, colon, keys.drop_first())
                    } else {
                        proof {
                            lemma_value_range(bytes, colon);
                        }
                        match value_range(bytes, colon) {
                            Err(e) => Err(e),
                            Ok((_, end)) => {
                                proof {
                                    lemma_next_byte(bytes, end);
                                }
                                match next_byte(bytes, end) {
                                    Some((0x2c, next)) => located_member(bytes, next, keys),
                                    Some((0x7d, _)) => Err(JsonErrorModel::NotFound),
                                    _ => Err(JsonErrorModel::ObjectSeparator),
                                }
                            },
                        }
                    },
                    _ => Err(JsonErrorModel::Syntax),
                }
            },
        }
    }
}

/// The value that a path selects among the items of an array, read from `at`,
/// where `left` items come before the selected one.
pub open spec fn located_item(bytes: Seq<u8>, at: int, keys: Seq<Seq<char>>, left: nat) -> Result<
    int,
    JsonErrorModel,
>
    decreases keys.len(), bytes.len() - at,
    when 0 <= at <= bytes.len() && keys.len() > 0
{
    let start = solid(bytes, at);
    proof {
        lemma_solid(bytes, at);
    }
    if start >= bytes.len() || bytes[start] == 0x5d {
        Err(JsonErrorModel::NotFound)
    } else if left == 0 {
        located(bytes, start, keys.drop_first())
    } else {
        proof {
            lemma_value_range(bytes, start);
        }
        match value_range(bytes, start) {
            Err(e) => Err(e),
            Ok((_, end)) => {
                proof {
                    lemma_next_byte(bytes, end);
                }
                match next_byte(bytes, end) {
                    Some((0x2c, next)) => located_item(bytes, next, keys, (left - 1) as nat),
                    _ => Err(JsonErrorModel::NotFound),
                }
            },
        }
    }
}

/// Where the value that the keys from `from` on select begins.
pub fn locate_json_segments(
    bytes: &[u8],
    at: usize,
    keys: &Vec<String>,
    from: usize,
) -> (r: Result<usize, JsonError>)
    requires
        at <= bytes@.len(),
        from <= keys@.len(),
    ensures
        match (r, located(bytes@, at as int, text::views(keys@).skip(from as int))) {
            (Ok(n), Ok(m)) => n == m && at <= n < bytes@.len() && !is_space(bytes@[n as int]),
            (Err(e), Err(m)) => e@ == m,
            _ => false,
        },
    decreases keys@.len() - from,
{
    let ghost path = text::views(keys@).skip(from as int);
    let start: usize = match skip_whitespace(bytes, at) {
        Some(n) => n,
        None => {
            return Err(JsonError::NotFound);
        },
    };
    if from == keys.len() {
        return Ok(start);
    }
    assert(path[0] == keys@[from as int]@);
    assert(path.drop_first() =~= text::views(keys@).skip(from + 1));
    if bytes[start] == 0x7b {
        let mut here: usize = start + 1;
        loop
            invariant
                start < here <= bytes@.len(),
                at <= start,
                from < keys.len(),
                path == text::views(keys@).skip(from as int),
                path[0] == keys@[from as int]@,
                path.drop_first() == text::views(keys@).skip(from + 1),
                located(bytes@, at as int, path) == located_member(bytes@, here as int, path),
            decreases bytes@.len() - here,
        {
            let offset: usize = match skip_whitespace(bytes, here) {
                Some(n) => n,
                None => {
                    return Err(JsonError::UnterminatedObject);
                },
            };
            if bytes[offset] == 0x7d {
                return Err(JsonError::NotFound);
            }
            let (key, key_end) = match read_json_string(bytes, offset) {
                Ok(found) => found,
                Err(e) => {
                    return Err(e);
                },
            };
            let colon: usize = match expect_json_byte(bytes, key_end, 0x3a) {
                Ok(n) => n,
                Err(e) => {
                    return Err(e);
                },
            };
            if same(&key, &keys[from]) {
                return locate_json_segments(bytes, colon, keys, from + 1);
            }
            let (_, end) = match skip_json_value(bytes, colon) {
                Ok(range) => range,
                Err(e) => {
                    return Err(e);
                },
            };
            match read_non_whitespace(bytes, end) {
                Some((0x2c, next)) => {
                    here = next;
                },
                Some((0x7d, _)) => {
                    return Err(JsonError::NotFound);
                },
                _ => {
                    return Err(JsonError::ObjectSeparator);
                },
            }
        }
    }
    if bytes[start] == 0x5b {
        let target: usize = match parse_usize(&keys[from]) {
            Some(n) => n,
            None => {
                return Err(JsonError::NotAnIndex);
            },
        };
        let mut here: usize = start + 1;
        let mut left: usize = target;
        loop
            invariant
                start < here <= bytes@.len(),
                at <= start,
                from < keys.len(),
                path == text::views(keys@).skip(from as int),
                path.drop_first() == text::views(keys@).skip(from + 1),
                located(bytes@, at as int, path) == located_item(
                    bytes@,
                    here as int,
                    path,
                    left as nat,
                ),
            decreases bytes@.len() - here,
        {
            let offset: usize = match skip_whitespace(bytes, here) {
                Some(n) => n,
                None => {
                    return Err(JsonError::NotFound);
                },
            };
            if bytes[offset] == 0x5d {
                return Err(JsonError::NotFound);
            }
            if left == 0 {
                return locate_json_segments(bytes, offset, keys, from + 1);
            }
            let (_, end) = match skip_json_value(bytes, offset) {
                Ok(range) => range,
                Err(e) => {
                    return Err(e);
                },
            };
            match read_non_whitespace(bytes, end) {
                Some((0x2c, next)) => {
                    here = next;
                    left = left - 1;
                },
                _ => {
                    return Err(JsonError::NotFound);
                },
            }
        }
    }
    Err(JsonError::NotFound)
}

/// The keys that an optional path selects by: none for no path.
pub open spec fn keys_of(pointer: Option<JsonPointer>) -> Seq<Seq<char>> {
    match pointer {
        Some(p) => p.keys(),
        None => Seq::empty(),
    }
}

/// Where the value that an optional path selects begins.
pub fn locate_json_pointer(bytes: &[u8], pointer: &Option<JsonPointer>) -> (r: Result<
    usize,
    JsonError,
>)
    ensures
        match (r, located(bytes@, 0, keys_of(*pointer))) {
            (Ok(n), Ok(m)) => n == m && n < bytes@.len() && !is_space(bytes@[n as int]),
            (Err(e), Err(m)) => e@ == m,
            _ => false,
        },
{
    match pointer {
        Some(p) => {
            let keys = p.segments();
            assert(text::views(keys@).skip(0) =~= text::views(keys@));
            locate_json_segments(bytes, 0, keys, 0)
        },
        None => {
            let keys: Vec<String> = Vec::new();
            assert(text::views(keys@).skip(0) =~= Seq::<Seq<char>>::empty());
            locate_json_segments(bytes, 0, &keys, 0)
        },
    }
}

/// White space is passed over and nothing else: what is found is the first byte behind
/// it.
pub proof fn white_space_is_passed_over(bytes: Seq<u8>, at: int)
    requires
        0 <= at <= bytes.len(),
    ensures
        at <= solid(bytes, at) <= bytes.len(),
        solid(bytes, at) < bytes.len() ==> bytes[solid(bytes, at)] != ' ' as u8 && bytes[solid(
            bytes,
            at,
        )] != '\n' as u8 && bytes[solid(bytes, at)] != '\t' as u8 && bytes[solid(bytes, at)]
            != '\r' as u8,
        forall|i: int|
            at <= i < solid(bytes, at) ==> #[trigger] bytes[i] == ' ' as u8 || bytes[i]
                == '\n' as u8 || bytes[i] == '\t' as u8 || bytes[i] == '\r' as u8 || bytes[i]
                == 0x0c,
        next_byte(bytes, at) is None <==> solid(bytes, at) == bytes.len(),
        next_byte(bytes, at) matches Some((b, next)) ==> next == solid(bytes, at) + 1 && b
            == bytes[solid(bytes, at)],
    decreases bytes.len() - at,
{
    if at < bytes.len() && is_space(bytes[at]) {
        white_space_is_passed_over(bytes, at + 1);
    }
}

/// A string ends behind its first quote that no backslash stands before.
pub proof fn strings_end_at_a_bare_quote(bytes: Seq<u8>, at: int, n: int)
    requires
        0 <= at <= n < bytes.len(),
        bytes[n] == '"' as u8,
        forall|i: int| at <= i < n ==> #[trigger] bytes[i] != '"' as u8 && bytes[i] != '\\' as u8,
    ensures
        string_end(bytes, at) == Some(n + 1),
        0 < at && bytes[at - 1] == '"' as u8 ==> value_end(bytes, at - 1) == Ok::<
            int,
            JsonErrorModel,
        >(n + 1),
    decreases n - at,
{
    if at < n {
        assert(bytes[at] != '"' as u8 && bytes[at] != '\\' as u8);
        strings_end_at_a_bare_quote(bytes, at + 1, n);
    }
}

/// A backslash keeps the byte behind it from ending a string, and a string that breaks
/// off has no end.
pub proof fn backslashes_keep_strings_open(bytes: Seq<u8>, at: int)
    requires
        0 <= at < bytes.len(),
        bytes[at] == '\\' as u8,
    ensures
        at + 1 < bytes.len() ==> string_end(bytes, at) == string_end(bytes, at + 2),
        at + 1 == bytes.len() ==> string_end(bytes, at) is None,
        string_end(bytes, bytes.len() as int) is None,
{
}

/// A scalar ends before white space, a comma or a closing bracket.
pub proof fn scalars_end_before_separators(bytes: Seq<u8>, at: int)
    requires
        0 <= at <= bytes.len(),
    ensures
        at <= scalar_end(bytes, at) <= bytes.len(),
        scalar_end(bytes, at) < bytes.len() ==> ({
            let b = bytes[scalar_end(bytes, at)];
            b == ',' as u8 || b == ']' as u8 || b == '}' as u8 || b == ' ' as u8 || b == '\n' as u8
                || b == '\t' as u8 || b == '\r' as u8 || b == 0x0c
        }),
        forall|i: int|
            at <= i < scalar_end(bytes, at) ==> #[trigger] bytes[i] != ',' as u8 && bytes[i]
                != ']' as u8 && bytes[i] != '}' as u8 && bytes[i] != ' ' as u8,
    decreases bytes.len() - at,
{
    if at < bytes.len() && !ends_scalar(bytes[at]) {
        scalars_end_before_separators(bytes, at + 1);
    }
}

/// A bracket is closed by its own kind, and an empty container ends behind it.
pub proof fn containers_are_closed_by_their_kind(bytes: Seq<u8>, start: int)
    requires
        0 <= start,
        start + 1 < bytes.len(),
    ensures
        closes('{' as u8, '}' as u8),
        closes('[' as u8, ']' as u8),
        !closes('{' as u8, ']' as u8),
        !closes('[' as u8, '}' as u8),
        bytes[start] == '{' as u8 && bytes[start + 1] == '}' as u8 ==> value_end(bytes, start)
            == Ok::<int, JsonErrorModel>(start + 2),
        bytes[start] == '[' as u8 && bytes[start + 1] == ']' as u8 ==> value_end(bytes, start)
            == Ok::<int, JsonErrorModel>(start + 2),
{
    let brace = seq!['{' as u8];
    let bracket = seq!['[' as u8];
    assert(brace.drop_last() =~= Seq::<u8>::empty());
    assert(bracket.drop_last() =~= Seq::<u8>::empty());
    assert(container_end(bytes, start + 2, Seq::empty()) == Ok::<int, JsonErrorModel>(start + 2));
}

/// Each fault of JSON is told in its own words.
pub proof fn faults_of_json_are_told_apart(s: Seq<char>, c: char)
    ensures
        JsonErrorModel::PathMissing(s).text() == "JSON starting path '"@ + s + "' was not found"@,
        JsonErrorModel::DuplicateKey(s).text() == "duplicate object member key '"@ + s + seq!['\''],
        JsonErrorModel::Expected(c).text() == "expected '"@ + seq![c] + "' in JSON input"@,
        JsonErrorModel::NotTabular(Some(s)).text() == s + "; "@
            + "JSON starting path does not identify a tabular object or array"@,
        JsonErrorModel::NotTabular(None).text()
            == "JSON starting path does not identify a tabular object or array"@,
        JsonErrorModel::NotContainer.text()
            == "JSON starting path does not identify an object or array"@,
        JsonErrorModel::NotFound.text() == "JSON starting path was not found"@,
        JsonErrorModel::NotAnIndex.text() == "JSON Pointer array segment is not an index"@,
        JsonErrorModel::ExpectedKey.text() == "expected JSON object key"@,
        JsonErrorModel::ExpectedString.text() == "expected JSON string"@,
        JsonErrorModel::ExpectedValue.text() == "expected JSON value"@,
        JsonErrorModel::UnterminatedString.text() == "unterminated JSON string"@,
        JsonErrorModel::UnterminatedContainer.text() == "unterminated JSON container"@,
        JsonErrorModel::UnterminatedObject.text() == "unterminated JSON object"@,
        JsonErrorModel::UnterminatedSelectedObject.text() == "unterminated selected JSON object"@,
        JsonErrorModel::UnterminatedSelectedArray.text() == "unterminated selected JSON array"@,
        JsonErrorModel::ObjectSeparator.text() == "invalid JSON object separator"@,
        JsonErrorModel::SelectedObjectSeparator.text()
            == "invalid selected JSON object separator"@,
        JsonErrorModel::SelectedArraySeparator.text() == "invalid selected JSON array separator"@,
        JsonErrorModel::Syntax.text() == "invalid JSON syntax"@,
        JsonErrorModel::SourceChanged.text()
            == "source changed during incremental access; reload is required"@,
        JsonErrorModel::WrongFormat.text() == "JSON adapter requires json or ndjson format"@,
{
    reveal_strlit("'");
    assert("'"@ =~= seq!['\'']);
}

} // verus!
