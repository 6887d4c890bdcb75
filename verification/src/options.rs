//! Options for opening a source: formats, object modes, JSON pointers, and how
//! command-line, saved-view and default choices combine.

use vstd::prelude::*;

use crate::table::{RowLimit, SortDirection, SourceFilterOperator, SourceOperand};
use crate::text::{
    self, chars_of, concat3, concat5, replace_char, same, split_chars, string_of_range,
};

verus! {

/// How many bytes a bounded schema scan reads: 100 MiB.
pub const DEFAULT_SCHEMA_SCAN_BYTES: u64 = 104857600;

/// How large an input must be before it is read lazily: 100 MiB.
pub const DEFAULT_LAZY_THRESHOLD_BYTES: u64 = 104857600;

/// How a selected object is read as a table.
#[derive(Debug, Clone, Copy, PartialEq, Eq, Structural)]
pub enum ObjectMode {
    Auto,
    Record,
    Entries,
}

impl ObjectMode {
    /// The name of the mode.
    pub open spec fn name(self) -> Seq<char> {
        match self {
            ObjectMode::Auto => "auto"@,
            ObjectMode::Record => "record"@,
            ObjectMode::Entries => "entries"@,
        }
    }

    /// The mode with the given name.
    pub open spec fn named(value: Seq<char>) -> Option<ObjectMode> {
        if value == "auto"@ {
            Some(ObjectMode::Auto)
        } else if value == "record"@ {
            Some(ObjectMode::Record)
        } else if value == "entries"@ {
            Some(ObjectMode::Entries)
        } else {
            None
        }
    }

    /// The name of the mode.
    pub fn label(self) -> (r: &'static str)
        ensures
            r@ == self.name(),
    {
        match self {
            ObjectMode::Auto => "auto",
            ObjectMode::Record => "record",
            ObjectMode::Entries => "entries",
        }
    }

    /// The mode with the given name.
    pub fn parse(value: &str) -> (r: Result<ObjectMode, SourceOptionError>)
        ensures
            match (r, ObjectMode::named(value@)) {
                (Ok(mode), Some(m)) => mode == m,
                (Err(e), None) => e@ == SourceOptionErrorModel::InvalidObjectMode(value@),
                _ => false,
            },
    {
        if same(value, "auto") {
            Ok(ObjectMode::Auto)
        } else if same(value, "record") {
            Ok(ObjectMode::Record)
        } else if same(value, "entries") {
            Ok(ObjectMode::Entries)
        } else {
            Err(SourceOptionError::InvalidObjectMode(value.to_owned()))
        }
    }
}

impl Default for ObjectMode {
    fn default() -> (r: Self)
        ensures
            r == ObjectMode::Auto,
    {
        ObjectMode::Auto
    }
}

/// Where a requested object mode came from.
#[derive(Debug, Clone, Copy, PartialEq, Eq, Structural)]
pub enum ObjectModeOrigin {
    Default,
    SavedView,
    Cli,
}

impl Default for ObjectModeOrigin {
    fn default() -> (r: Self)
        ensures
            r == ObjectModeOrigin::Default,
    {
        ObjectModeOrigin::Default
    }
}

/// How a selected object was read as a table.
#[derive(Debug, Clone, Copy, PartialEq, Eq, Structural)]
pub enum ResolvedObjectMode {
    Record,
    Entries,
}

impl ResolvedObjectMode {
    /// The name of the mode.
    pub open spec fn name(self) -> Seq<char> {
        match self {
            ResolvedObjectMode::Record => "record"@,
            ResolvedObjectMode::Entries => "entries"@,
        }
    }

    /// The name of the mode.
    pub fn label(self) -> (r: &'static str)
        ensures
            r@ == self.name(),
    {
        match self {
            ResolvedObjectMode::Record => "record",
            ResolvedObjectMode::Entries => "entries",
        }
    }
}

/// A requested object mode and what became of it.
#[derive(Debug, Clone, Copy, PartialEq, Eq, Structural)]
pub struct ObjectModeResolution {
    pub requested: ObjectMode,
    pub resolved: ResolvedObjectMode,
}

/// The kind of value that a path selects.
#[derive(Debug, Clone, Copy, PartialEq, Eq, Structural)]
pub enum SelectedValueShape {
    Object,
    Array,
    Scalar,
}

impl SelectedValueShape {
    /// The name of the shape.
    pub open spec fn name(self) -> Seq<char> {
        match self {
            SelectedValueShape::Object => "object"@,
            SelectedValueShape::Array => "array"@,
            SelectedValueShape::Scalar => "scalar"@,
        }
    }

    /// The name of the shape.
    pub fn label(self) -> (r: &'static str)
        ensures
            r@ == self.name(),
    {
        match self {
            SelectedValueShape::Object => "object",
            SelectedValueShape::Array => "array",
            SelectedValueShape::Scalar => "scalar",
        }
    }
}

/// The kind of table that a selected value becomes.
#[derive(Debug, Clone, Copy, PartialEq, Eq, Structural)]
pub enum SelectedTableShape {
    ArrayRows,
    ObjectRecord,
    ObjectEntries,
}

/// How a selected value is read: no table shape means that it has no rows.
#[derive(Debug, Clone, PartialEq, Eq)]
pub struct SelectedShapeResolution {
    pub table_shape: Option<SelectedTableShape>,
    pub object_mode: Option<ObjectModeResolution>,
    pub warning: Option<String>,
}

/// The mode an object is read in: automatic choice follows the detector.
pub open spec fn object_mode_for(requested: ObjectMode, auto_entries: bool) -> ResolvedObjectMode {
    match requested {
        ObjectMode::Entries => ResolvedObjectMode::Entries,
        ObjectMode::Record => ResolvedObjectMode::Record,
        ObjectMode::Auto => if auto_entries {
            ResolvedObjectMode::Entries
        } else {
            ResolvedObjectMode::Record
        },
    }
}

/// The table shape of a value that is no object: only an array has rows.
pub open spec fn plain_table_shape(selected: SelectedValueShape) -> Option<SelectedTableShape> {
    if selected is Array {
        Some(SelectedTableShape::ArrayRows)
    } else {
        None
    }
}

/// What is said of a saved object mode that does not fit the selected value.
pub open spec fn ignored_mode_warning(
    requested: ObjectMode,
    selected: SelectedValueShape,
) -> Seq<char> {
    "saved object_mode '"@ + requested.name() + "' is incompatible with the selected "@
        + selected.name() + " and was ignored"@
}

/// Reads a selected value as a table.
///
/// An object takes the requested mode, or the detected one. Any other value
/// accepts automatic mode; a mode asked for by a saved view is ignored with a
/// warning, and one from elsewhere is refused.
pub fn resolve_selected_shape(
    selected: SelectedValueShape,
    requested: ObjectMode,
    origin: ObjectModeOrigin,
    auto_entries: bool,
) -> (r: Result<SelectedShapeResolution, SourceOptionError>)
    ensures
        r is Err <==> selected !is Object && requested !is Auto && origin !is SavedView,
        r matches Err(e) ==> e@ == (SourceOptionErrorModel::ObjectModeRequiresObject {
            mode: requested,
        }),
        r matches Ok(shape) ==> {
            &&& selected is Object ==> {
                &&& shape.table_shape == Some(
                    match object_mode_for(requested, auto_entries) {
                        ResolvedObjectMode::Record => SelectedTableShape::ObjectRecord,
                        ResolvedObjectMode::Entries => SelectedTableShape::ObjectEntries,
                    },
                )
                &&& shape.object_mode == Some(
                    ObjectModeResolution {
                        requested,
                        resolved: object_mode_for(requested, auto_entries),
                    },
                )
                &&& shape.warning is None
            }
            &&& selected !is Object ==> {
                &&& shape.table_shape == plain_table_shape(selected)
                &&& shape.object_mode is None
                &&& text::opt_view(shape.warning) == if requested is Auto {
                    None
                } else {
                    Some(ignored_mode_warning(requested, selected))
                }
            }
        },
{
    if selected == SelectedValueShape::Object {
        let resolved = match requested {
            ObjectMode::Auto => if auto_entries {
                ResolvedObjectMode::Entries
            } else {
                ResolvedObjectMode::Record
            },
            ObjectMode::Record => ResolvedObjectMode::Record,
            ObjectMode::Entries => ResolvedObjectMode::Entries,
        };
        let table_shape = match resolved {
            ResolvedObjectMode::Record => SelectedTableShape::ObjectRecord,
            ResolvedObjectMode::Entries => SelectedTableShape::ObjectEntries,
        };
        return Ok(
            SelectedShapeResolution {
                table_shape: Some(table_shape),
                object_mode: Some(ObjectModeResolution { requested, resolved }),
                warning: None,
            },
        );
    }
    let table_shape = if selected == SelectedValueShape::Array {
        Some(SelectedTableShape::ArrayRows)
    } else {
        None
    };
    if requested != ObjectMode::Auto {
        if origin != ObjectModeOrigin::SavedView {
            return Err(SourceOptionError::ObjectModeRequiresObject { mode: requested });
        }
        let warning = concat5(
            "saved object_mode '",
            requested.label(),
            "' is incompatible with the selected ",
            selected.label(),
            " and was ignored",
        );
        return Ok(
            SelectedShapeResolution { table_shape, object_mode: None, warning: Some(warning) },
        );
    }
    Ok(SelectedShapeResolution { table_shape, object_mode: None, warning: None })
}

/// The format of an input.
#[derive(Debug, Clone, Copy, PartialEq, Eq, Structural)]
pub enum InputFormat {
    Auto,
    Delimited,
    Json,
    Ndjson,
    Sqlite,
}

impl InputFormat {
    /// The name of the format.
    pub open spec fn name(self) -> Seq<char> {
        match self {
            InputFormat::Auto => "auto"@,
            InputFormat::Delimited => "delimited"@,
            InputFormat::Json => "json"@,
            InputFormat::Ndjson => "ndjson"@,
            InputFormat::Sqlite => "sqlite"@,
        }
    }

    /// The format with the given name.
    pub open spec fn named(value: Seq<char>) -> Option<InputFormat> {
        if value == "auto"@ {
            Some(InputFormat::Auto)
        } else if value == "delimited"@ {
            Some(InputFormat::Delimited)
        } else if value == "json"@ {
            Some(InputFormat::Json)
        } else if value == "ndjson"@ {
            Some(InputFormat::Ndjson)
        } else if value == "sqlite"@ {
            Some(InputFormat::Sqlite)
        } else {
            None
        }
    }

    /// The name of the format.
    pub fn label(self) -> (r: &'static str)
        ensures
            r@ == self.name(),
    {
        match self {
            InputFormat::Auto => "auto",
            InputFormat::Delimited => "delimited",
            InputFormat::Json => "json",
            InputFormat::Ndjson => "ndjson",
            InputFormat::Sqlite => "sqlite",
        }
    }

    /// The format with the given name.
    pub fn parse(value: &str) -> (r: Result<InputFormat, SourceOptionError>)
        ensures
            match (r, InputFormat::named(value@)) {
                (Ok(format), Some(f)) => format == f,
                (Err(e), None) => e@ == SourceOptionErrorModel::InvalidFormat(value@),
                _ => false,
            },
    {
        if same(value, "auto") {
            Ok(InputFormat::Auto)
        } else if same(value, "delimited") {
            Ok(InputFormat::Delimited)
        } else if same(value, "json") {
            Ok(InputFormat::Json)
        } else if same(value, "ndjson") {
            Ok(InputFormat::Ndjson)
        } else if same(value, "sqlite") {
            Ok(InputFormat::Sqlite)
        } else {
            Err(SourceOptionError::InvalidFormat(value.to_owned()))
        }
    }
}

impl Default for InputFormat {
    fn default() -> (r: Self)
        ensures
            r == InputFormat::Auto,
    {
        InputFormat::Auto
    }
}

/// How much of a structured input is read to find its columns.
#[derive(Debug, Clone, Copy, PartialEq, Eq, Structural)]
pub enum SchemaScan {
    Default,
    Full,
}

impl SchemaScan {
    /// The policy with the given name.
    pub open spec fn named(value: Seq<char>) -> Option<SchemaScan> {
        if value == "default"@ {
            Some(SchemaScan::Default)
        } else if value == "full"@ {
            Some(SchemaScan::Full)
        } else {
            None
        }
    }

    /// The policy with the given name.
    pub fn parse(value: &str) -> (r: Result<SchemaScan, SourceOptionError>)
        ensures
            match (r, SchemaScan::named(value@)) {
                (Ok(scan), Some(s)) => scan == s,
                (Err(e), None) => e@ == SourceOptionErrorModel::InvalidSchemaScan(value@),
                _ => false,
            },
    {
        if same(value, "default") {
            Ok(SchemaScan::Default)
        } else if same(value, "full") {
            Ok(SchemaScan::Full)
        } else {
            Err(SourceOptionError::InvalidSchemaScan(value.to_owned()))
        }
    }
}

impl Default for SchemaScan {
    fn default() -> (r: Self)
        ensures
            r == SchemaScan::Default,
    {
        SchemaScan::Default
    }
}

// ---------------------------------------------------------------------------
// JSON pointers
// ---------------------------------------------------------------------------

/// A key with the pointer escapes for `~` and `/`.
pub open spec fn escaped(key: Seq<char>) -> Seq<char> {
    text::replaced(text::replaced(key, '~', "~0"@), '/', "~1"@)
}

/// The key that an escaped pointer segment denotes; a `~` before anything but
/// `0` or `1` denotes none.
pub open spec fn unescaped(segment: Seq<char>) -> Option<Seq<char>>
    decreases segment.len(),
{
    if segment.len() == 0 {
        Some(Seq::empty())
    } else if segment[0] != '~' {
        match unescaped(segment.skip(1)) {
            Some(rest) => Some(seq![segment[0]] + rest),
            None => None,
        }
    } else if segment.len() >= 2 && (segment[1] == '0' || segment[1] == '1') {
        match unescaped(segment.skip(2)) {
            Some(rest) => Some(
                seq![if segment[1] == '0' {
                    '~'
                } else {
                    '/'
                }] + rest,
            ),
            None => None,
        }
    } else {
        None
    }
}

/// The keys of escaped segments, where every one denotes a key.
pub open spec fn unescaped_all(segments: Seq<Seq<char>>) -> Option<Seq<Seq<char>>>
    decreases segments.len(),
{
    if segments.len() == 0 {
        Some(Seq::empty())
    } else {
        match (unescaped_all(segments.drop_last()), unescaped(segments.last())) {
            (Some(front), Some(key)) => Some(front.push(key)),
            _ => None,
        }
    }
}

/// The keys of a pointer: none for the empty one; otherwise it must begin with
/// `/`, and its keys stand between slashes.
pub open spec fn pointer_keys(value: Seq<char>) -> Option<Seq<Seq<char>>> {
    if value.len() == 0 {
        Some(Seq::empty())
    } else if value[0] != '/' {
        None
    } else {
        unescaped_all(text::split_on(value.skip(1), '/'))
    }
}

/// A JSON pointer: a path of keys from the root of a document.
#[derive(Debug, PartialEq, Eq, Hash)]
pub struct StructuredPath {
    encoded: String,
    segments: Vec<String>,
}

impl View for StructuredPath {
    type V = Seq<char>;

    /// The pointer as written.
    closed spec fn view(&self) -> Seq<char> {
        self.encoded@
    }
}

/// The pointer of an optional path.
pub open spec fn path_view(path: Option<StructuredPath>) -> Option<Seq<char>> {
    match path {
        Some(p) => Some(p@),
        None => None,
    }
}

impl StructuredPath {
    #[verifier::type_invariant]
    spec fn decoded(self) -> bool {
        pointer_keys(self.encoded@) == Some(text::views(self.segments@))
    }

    /// The keys of the path.
    pub closed spec fn keys(self) -> Seq<Seq<char>> {
        text::views(self.segments@)
    }

    /// The path that selects the whole document.
    pub fn root() -> (r: StructuredPath)
        ensures
            r@ == Seq::<char>::empty(),
            r.keys() == Seq::<Seq<char>>::empty(),
    {
        let segments: Vec<String> = Vec::new();
        assert(text::views(segments@) =~= Seq::<Seq<char>>::empty());
        StructuredPath { encoded: String::new(), segments }
    }

    /// The pointer as written.
    pub fn as_str(&self) -> (r: &str)
        ensures
            r@ == self@,
    {
        &self.encoded
    }

    /// The keys of the path.
    pub fn segments(&self) -> (r: &Vec<String>)
        ensures
            text::views(r@) == self.keys(),
            pointer_keys(self@) == Some(self.keys()),
    {
        proof {
            use_type_invariant(self);
        }
        &self.segments
    }

    /// A key with the pointer escapes for `~` and `/`.
    pub fn encode_segment(segment: &str) -> (r: String)
        ensures
            r@ == escaped(segment@),
    {
        replace_char(&replace_char(segment, '~', "~0"), '/', "~1")
    }

    /// The path that a pointer denotes.
    pub fn parse(value: &str) -> (r: Result<StructuredPath, SourceOptionError>)
        ensures
            match (r, pointer_keys(value@)) {
                (Ok(path), Some(keys)) => path@ == value@ && path.keys() == keys,
                (Err(e), None) => e@ == SourceOptionErrorModel::InvalidJsonPointer(value@),
                _ => false,
            },
    {
        let v = chars_of(value);
        if v.len() == 0 {
            assert(value@ =~= Seq::<char>::empty());
            return Ok(StructuredPath::root());
        }
        if v[0] != '/' {
            return Err(SourceOptionError::InvalidJsonPointer(value.to_owned()));
        }
        let tail = string_of_range(&v, 1, v.len());
        assert(tail@ =~= value@.skip(1));
        let parts = split_chars(&tail, '/');
        let mut segments: Vec<String> = Vec::new();
        let mut i: usize = 0;
        while i < parts.len()
            invariant
                i <= parts.len(),
                unescaped_all(text::views(parts@).take(i as int)) == Some(text::views(segments@)),
                value@.len() > 0,
                value@[0] == '/',
                text::views(parts@) == text::split_on(value@.skip(1), '/'),
            decreases parts.len() - i,
        {
            let ghost now = text::views(parts@).take(i + 1);
            assert(now.drop_last() =~= text::views(parts@).take(i as int));
            assert(now.last() == parts@[i as int]@);
            match decode_pointer_segment(&parts[i]) {
                Some(key) => {
                    proof {
                        text::lemma_views_push(segments@, key);
                    }
                    segments.push(key);
                },
                None => {
                    proof {
                        lemma_unescaped_none(text::views(parts@), i + 1);
                    }
                    return Err(SourceOptionError::InvalidJsonPointer(value.to_owned()));
                },
            }
            i = i + 1;
        }
        assert(text::views(parts@).take(parts@.len() as int) =~= text::views(parts@));
        Ok(StructuredPath { encoded: value.to_owned(), segments })
    }
}

impl Clone for StructuredPath {
    fn clone(&self) -> (r: Self)
        ensures
            r@ == self@,
            r.keys() == self.keys(),
    {
        proof {
            use_type_invariant(self);
        }
        let segments = self.segments.clone();
        assert(text::views(segments@) =~= text::views(self.segments@));
        StructuredPath { encoded: self.encoded.clone(), segments }
    }
}

/// A path within a JSON document.
pub type JsonPointer = StructuredPath;

proof fn lemma_unescaped_none(segments: Seq<Seq<char>>, n: int)
    requires
        0 <= n <= segments.len(),
        unescaped_all(segments.take(n)) is None,
    ensures
        unescaped_all(segments) is None,
    decreases segments.len() - n,
{
    if n < segments.len() {
        assert(segments.take(n + 1).drop_last() =~= segments.take(n));
        lemma_unescaped_none(segments, n + 1);
    } else {
        assert(segments.take(n) =~= segments);
    }
}

proof fn lemma_unescaped_step(front: Seq<char>, key: Seq<char>, rest: Seq<char>)
    ensures
        unescaped(front + rest) == match unescaped(rest) {
            Some(tail) => Some(key + tail),
            None => None,
        } <== ({
            ||| front.len() == 1 && front[0] != '~' && key == front
            ||| front == seq!['~', '0'] && key == seq!['~']
            ||| front == seq!['~', '1'] && key == seq!['/']
        }),
{
    let s = front + rest;
    if front.len() == 1 && front[0] != '~' && key == front {
        assert(s.skip(1) =~= rest);
        assert(seq![s[0]] =~= key);
    } else if (front == seq!['~', '0'] && key == seq!['~']) || (front == seq!['~', '1'] && key
        == seq!['/']) {
        assert(s.skip(2) =~= rest);
        assert(s[0] == '~' && s[1] == front[1]);
    }
}

/// The key that an escaped pointer segment denotes.
fn decode_pointer_segment(segment: &str) -> (r: Option<String>)
    ensures
        text::opt_view(r) == unescaped(segment@),
{
    let v = chars_of(segment);
    let mut decoded = String::new();
    let mut i: usize = 0;
    assert(v@.skip(0) =~= v@);
    proof {
        match unescaped(v@) {
            Some(tail) => {
                assert(Seq::<char>::empty() + tail =~= tail);
            },
            None => {},
        }
    }
    while i < v.len()
        invariant
            i <= v.len(),
            v@ == segment@,
            unescaped(v@) == match unescaped(v@.skip(i as int)) {
                Some(tail) => Some(decoded@ + tail),
                None => None,
            },
        decreases v.len() - i,
    {
        let ghost here = v@.skip(i as int);
        let ghost before = decoded@;
        let c = v[i];
        if c != '~' {
            proof {
                assert(here.skip(1) =~= v@.skip(i + 1));
                match unescaped(v@.skip(i + 1)) {
                    Some(tail) => {
                        assert(before + (seq![c] + tail) =~= before.push(c) + tail);
                    },
                    None => {},
                }
            }
            decoded.push(c);
            i = i + 1;
        } else {
            if i + 1 >= v.len() {
                return None;
            }
            let d = v[i + 1];
            proof {
                assert(here[1] == d);
                assert(here.skip(2) =~= v@.skip(i + 2));
                let k = if d == '0' {
                    '~'
                } else {
                    '/'
                };
                match unescaped(v@.skip(i + 2)) {
                    Some(tail) => {
                        assert(before + (seq![k] + tail) =~= before.push(k) + tail);
                    },
                    None => {},
                }
            }
            if d == '0' {
                decoded.push('~');
            } else if d == '1' {
                decoded.push('/');
            } else {
                return None;
            }
            i = i + 2;
        }
    }
    assert(v@.skip(v@.len() as int) =~= Seq::<char>::empty());
    assert(decoded@ + Seq::<char>::empty() =~= decoded@);
    Some(decoded)
}

proof fn lemma_unescaped_append(a: Seq<char>, b: Seq<char>, ka: Seq<char>, kb: Seq<char>)
    requires
        unescaped(a) == Some(ka),
        unescaped(b) == Some(kb),
    ensures
        unescaped(a + b) == Some(ka + kb),
    decreases a.len(),
{
    if a.len() == 0 {
        assert(a + b =~= b);
        assert(ka + kb =~= kb);
    } else if a[0] != '~' {
        let rest = unescaped(a.skip(1))->0;
        lemma_unescaped_append(a.skip(1), b, rest, kb);
        assert((a + b).skip(1) =~= a.skip(1) + b);
        assert(seq![a[0]] + (rest + kb) =~= ka + kb);
    } else {
        let rest = unescaped(a.skip(2))->0;
        lemma_unescaped_append(a.skip(2), b, rest, kb);
        assert((a + b).skip(2) =~= a.skip(2) + b);
        let k = if a[1] == '0' {
            '~'
        } else {
            '/'
        };
        assert(seq![k] + (rest + kb) =~= ka + kb);
    }
}

/// One character of a key, escaped.
pub open spec fn escaped_char(c: char) -> Seq<char> {
    if c == '~' {
        seq!['~', '0']
    } else if c == '/' {
        seq!['~', '1']
    } else {
        seq![c]
    }
}

proof fn lemma_replaced_append(a: Seq<char>, b: Seq<char>, c: char, to: Seq<char>)
    ensures
        text::replaced(a + b, c, to) == text::replaced(a, c, to) + text::replaced(b, c, to),
    decreases b.len(),
{
    if b.len() == 0 {
        assert(a + b =~= a);
        assert(text::replaced(a, c, to) + text::replaced(b, c, to) =~= text::replaced(a, c, to));
    } else {
        assert((a + b).drop_last() =~= a + b.drop_last());
        lemma_replaced_append(a, b.drop_last(), c, to);
        assert(text::replaced(a + b, c, to) =~= text::replaced(a, c, to) + text::replaced(b, c, to));
    }
}

proof fn lemma_replaced_single(x: char, c: char, to: Seq<char>)
    ensures
        text::replaced(seq![x], c, to) == (if x == c {
            to
        } else {
            seq![x]
        }),
{
    reveal_with_fuel(text::replaced, 2);
    assert(seq![x].drop_last() =~= Seq::<char>::empty());
    assert(text::replaced(seq![x], c, to) =~= (if x == c {
        to
    } else {
        seq![x]
    }));
}

/// Escaping works character by character.
proof fn lemma_escaped_push(key: Seq<char>, c: char)
    ensures
        escaped(key.push(c)) == escaped(key) + escaped_char(c),
{
    reveal_strlit("~0");
    reveal_strlit("~1");
    let tilde = "~0"@;
    let slash = "~1"@;
    assert(tilde =~= seq!['~', '0']);
    assert(slash =~= seq!['~', '1']);
    assert(key.push(c) =~= key + seq![c]);
    lemma_replaced_append(key, seq![c], '~', tilde);
    lemma_replaced_single(c, '~', tilde);
    let first = text::replaced(key, '~', tilde);
    if c == '~' {
        lemma_replaced_append(first, tilde, '/', slash);
        assert(tilde =~= seq!['~'] + seq!['0']);
        lemma_replaced_append(seq!['~'], seq!['0'], '/', slash);
        lemma_replaced_single('~', '/', slash);
        lemma_replaced_single('0', '/', slash);
    } else {
        lemma_replaced_append(first, seq![c], '/', slash);
        lemma_replaced_single(c, '/', slash);
    }
}

/// Decoding an encoded key gives the key back.
pub proof fn escaped_key_round_trips(key: Seq<char>)
    ensures
        unescaped(escaped(key)) == Some(key),
    decreases key.len(),
{
    if key.len() == 0 {
        assert(escaped(key) =~= Seq::<char>::empty());
        assert(key =~= Seq::<char>::empty());
    } else {
        let front = key.drop_last();
        let c = key.last();
        escaped_key_round_trips(front);
        lemma_escaped_push(front, c);
        assert(front.push(c) =~= key);
        let e = escaped_char(c);
        assert(e.skip(1).len() == 0 || e.skip(2).len() == 0);
        lemma_unescaped_step(e, seq![c], Seq::empty());
        assert(e + Seq::<char>::empty() =~= e);
        assert(seq![c] + Seq::<char>::empty() =~= seq![c]);
        assert(unescaped(Seq::<char>::empty()) == Some(Seq::<char>::empty()));
        assert(unescaped(e) == Some(seq![c]));
        lemma_unescaped_append(escaped(front), e, front, seq![c]);
        assert(front + seq![c] =~= key);
    }
}

/// An encoded key holds no slash, so it stays one segment of a pointer.
pub proof fn escaped_key_has_no_slash(key: Seq<char>)
    ensures
        !escaped(key).contains('/'),
    decreases key.len(),
{
    if key.len() == 0 {
        assert(escaped(key) =~= Seq::<char>::empty());
    } else {
        escaped_key_has_no_slash(key.drop_last());
        lemma_escaped_push(key.drop_last(), key.last());
        assert(key.drop_last().push(key.last()) =~= key);
        let front = escaped(key.drop_last());
        let whole = escaped(key);
        assert forall|i: int| 0 <= i < whole.len() implies whole[i] != '/' by {
            if i < front.len() {
                assert(whole[i] == front[i]);
            }
        }
    }
}

/// The pointer of a path: each key escaped, behind a slash.
pub open spec fn pointer_of(keys: Seq<Seq<char>>) -> Seq<char>
    decreases keys.len(),
{
    if keys.len() == 0 {
        Seq::empty()
    } else {
        pointer_of(keys.drop_last()) + seq!['/'] + escaped(keys.last())
    }
}

proof fn lemma_split_append_plain(a: Seq<char>, b: Seq<char>, sep: char)
    requires
        !b.contains(sep),
    ensures
        text::split_on(a + b, sep) == text::split_on(a, sep).drop_last().push(text::split_on(a, sep).last() + b),
    decreases b.len(),
{
    text::lemma_split_nonempty(a, sep);
    let parts = text::split_on(a, sep);
    if b.len() == 0 {
        assert(a + b =~= a);
        assert(parts.last() + b =~= parts.last());
        assert(parts =~= parts.drop_last().push(parts.last()));
    } else {
        assert((a + b).drop_last() =~= a + b.drop_last());
        assert forall|i: int| 0 <= i < b.drop_last().len() implies b.drop_last()[i] != sep by {
            assert(b[i] != sep);
        }
        lemma_split_append_plain(a, b.drop_last(), sep);
        assert(b[b.len() - 1] != sep);
        let prior = parts.drop_last().push(parts.last() + b.drop_last());
        assert(prior.drop_last() =~= parts.drop_last());
        assert((parts.last() + b.drop_last()).push(b.last()) =~= parts.last() + b);
    }
}

/// Parsing the pointer of a path gives its keys back.
pub proof fn pointer_round_trips(keys: Seq<Seq<char>>)
    ensures
        pointer_keys(pointer_of(keys)) == Some(keys),
    decreases keys.len(),
{
    if keys.len() == 0 {
        assert(keys =~= Seq::<Seq<char>>::empty());
    } else {
        let front = keys.drop_last();
        let e = escaped(keys.last());
        pointer_round_trips(front);
        escaped_key_round_trips(keys.last());
        escaped_key_has_no_slash(keys.last());
        lemma_pointer_starts(keys);
        let p = pointer_of(keys);
        if front.len() == 0 {
            assert(p =~= seq!['/'] + e);
            assert(p.skip(1) =~= e);
            assert(Seq::<char>::empty() + e =~= e);
            lemma_split_append_plain(Seq::empty(), e, '/');
            let parts = text::split_on(e, '/');
            assert(parts =~= seq![e]);
            assert(parts.drop_last() =~= Seq::<Seq<char>>::empty());
            assert(unescaped_all(parts.drop_last()) == Some(Seq::<Seq<char>>::empty()));
            assert(Seq::<Seq<char>>::empty().push(keys.last()) =~= keys);
        } else {
            lemma_pointer_starts(front);
            let q = pointer_of(front);
            let tail = q.skip(1) + seq!['/'];
            assert(p.skip(1) =~= tail + e);
            lemma_split_append_plain(tail, e, '/');
            assert(tail.drop_last() =~= q.skip(1));
            let before = text::split_on(q.skip(1), '/');
            assert(text::split_on(tail, '/') == before.push(Seq::empty()));
            assert(text::split_on(tail, '/').drop_last() =~= before);
            assert(text::split_on(tail, '/').last() + e =~= e);
            assert(text::split_on(p.skip(1), '/') =~= before.push(e));
            assert(before.push(e).drop_last() =~= before);
            assert(front.push(keys.last()) =~= keys);
        }
    }
}

/// Whether a `~` stands at `i` that begins no escape: neither `0` nor `1`
/// follows it.
pub open spec fn stray_tilde(s: Seq<char>, i: int) -> bool {
    0 <= i < s.len() && s[i] == '~' && !(i + 1 < s.len() && (s[i + 1] == '0' || s[i + 1] == '1'))
}

/// Whether some `~` of a text begins no escape.
pub open spec fn has_stray_tilde(s: Seq<char>) -> bool {
    exists|i: int| #[trigger] stray_tilde(s, i)
}

proof fn lemma_stray_segment(segment: Seq<char>)
    ensures
        unescaped(segment) is None <==> has_stray_tilde(segment),
    decreases segment.len(),
{
    if segment.len() == 0 {
    } else {
        let n: int = if segment[0] != '~' {
            1
        } else {
            2
        };
        if segment[0] == '~' && !(segment.len() >= 2 && (segment[1] == '0' || segment[1] == '1')) {
            assert(stray_tilde(segment, 0));
        } else {
            let rest = segment.skip(n);
            lemma_stray_segment(rest);
            if has_stray_tilde(rest) {
                let i = choose|i: int| stray_tilde(rest, i);
                assert(stray_tilde(segment, i + n));
            }
            if has_stray_tilde(segment) {
                let i = choose|i: int| stray_tilde(segment, i);
                assert(stray_tilde(rest, i - n));
            }
        }
    }
}

proof fn lemma_stray_segments(segments: Seq<Seq<char>>)
    ensures
        unescaped_all(segments) is None <==> exists|k: int|
            0 <= k < segments.len() && has_stray_tilde(#[trigger] segments[k]),
    decreases segments.len(),
{
    if segments.len() > 0 {
        let front = segments.drop_last();
        lemma_stray_segments(front);
        lemma_stray_segment(segments.last());
        assert forall|k: int| 0 <= k < front.len() implies front[k] == segments[k] by {}
        if exists|k: int| 0 <= k < front.len() && has_stray_tilde(#[trigger] front[k]) {
            let k = choose|k: int| 0 <= k < front.len() && has_stray_tilde(#[trigger] front[k]);
            assert(has_stray_tilde(segments[k]));
        }
        if exists|k: int| 0 <= k < segments.len() && has_stray_tilde(#[trigger] segments[k]) {
            let k = choose|k: int| 0 <= k < segments.len() && has_stray_tilde(#[trigger] segments[k]);
            if k < front.len() {
                assert(has_stray_tilde(front[k]));
            }
        }
    }
}

/// Whether a text ends in a `~`.
spec fn ends_open(s: Seq<char>) -> bool {
    s.len() > 0 && s.last() == '~'
}

/// Whether a `~` is followed by a character that makes no escape of it.
spec fn has_broken_escape(s: Seq<char>) -> bool
    decreases s.len(),
{
    s.len() > 0 && (has_broken_escape(s.drop_last()) || ends_open(s.drop_last()) && s.last() != '0'
        && s.last() != '1')
}

proof fn lemma_broken_escape(s: Seq<char>)
    ensures
        has_stray_tilde(s) <==> has_broken_escape(s) || ends_open(s),
    decreases s.len(),
{
    if s.len() > 0 {
        let front = s.drop_last();
        lemma_broken_escape(front);
        if ends_open(s) {
            assert(stray_tilde(s, s.len() - 1));
        }
        if has_broken_escape(front) {
            lemma_broken_stray(s);
        } else if ends_open(front) && s.last() != '0' && s.last() != '1' {
            assert(stray_tilde(s, s.len() - 2));
        }
        if has_stray_tilde(s) {
            let i = choose|i: int| stray_tilde(s, i);
            if i < s.len() - 2 {
                lemma_stray_broken(s, i);
            }
        }
    }
}

proof fn lemma_broken_stray(s: Seq<char>)
    requires
        has_broken_escape(s),
    ensures
        exists|i: int| i + 1 < s.len() && #[trigger] stray_tilde(s, i),
    decreases s.len(),
{
    let front = s.drop_last();
    if has_broken_escape(front) {
        lemma_broken_stray(front);
        let i = choose|i: int| i + 1 < front.len() && #[trigger] stray_tilde(front, i);
        assert(stray_tilde(s, i));
    } else {
        assert(stray_tilde(s, s.len() - 2));
    }
}

proof fn lemma_stray_broken(s: Seq<char>, i: int)
    requires
        stray_tilde(s, i),
        i + 1 < s.len(),
    ensures
        has_broken_escape(s),
    decreases s.len(),
{
    if i + 2 < s.len() {
        assert(stray_tilde(s.drop_last(), i));
        lemma_stray_broken(s.drop_last(), i);
    }
}

proof fn lemma_stray_split(s: Seq<char>)
    ensures
        text::split_on(s, '/').len() > 0,
        ends_open(s) == ends_open(text::split_on(s, '/').last()),
        has_broken_escape(s) <==> has_broken_escape(text::split_on(s, '/').last()) || exists|k: int|
            0 <= k < text::split_on(s, '/').len() - 1 && has_stray_tilde(
                #[trigger] text::split_on(s, '/')[k],
            ),
    decreases s.len(),
{
    let parts = text::split_on(s, '/');
    if s.len() > 0 {
        let front = s.drop_last();
        let before = text::split_on(front, '/');
        lemma_stray_split(front);
        lemma_broken_escape(before.last());
        if s.last() == '/' {
            assert(parts == before.push(Seq::empty()));
        } else {
            let l = before.last().push(s.last());
            assert(parts == before.drop_last().push(l));
            assert(l.drop_last() =~= before.last());
        }
        if has_broken_escape(s) {
            if exists|k: int| 0 <= k < before.len() - 1 && has_stray_tilde(#[trigger] before[k]) {
                let k = choose|k: int|
                    0 <= k < before.len() - 1 && has_stray_tilde(#[trigger] before[k]);
                assert(parts[k] == before[k]);
            } else if s.last() == '/' {
                assert(parts[before.len() - 1] == before.last());
            }
        }
        if exists|k: int| 0 <= k < parts.len() - 1 && has_stray_tilde(#[trigger] parts[k]) {
            let k = choose|k: int| 0 <= k < parts.len() - 1 && has_stray_tilde(#[trigger] parts[k]);
            assert(parts[k] == before[k]);
        }
    }
}

/// A pointer is refused exactly if it is not empty and either does not begin
/// with `/` or holds a `~` that neither `0` nor `1` follows.
pub proof fn pointer_refusal(value: Seq<char>)
    ensures
        pointer_keys(value) is None <==> value.len() > 0 && (value[0] != '/' || has_stray_tilde(
            value,
        )),
{
    if value.len() > 0 && value[0] == '/' {
        let rest = value.skip(1);
        let parts = text::split_on(rest, '/');
        lemma_stray_segments(parts);
        lemma_stray_split(rest);
        lemma_broken_escape(rest);
        lemma_broken_escape(parts.last());
        if has_stray_tilde(rest) {
            let i = choose|i: int| stray_tilde(rest, i);
            assert(stray_tilde(value, i + 1));
            if !exists|k: int| 0 <= k < parts.len() - 1 && has_stray_tilde(#[trigger] parts[k]) {
                assert(has_stray_tilde(parts[parts.len() - 1]));
            }
        }
        if has_stray_tilde(value) {
            let i = choose|i: int| stray_tilde(value, i);
            assert(stray_tilde(rest, i - 1));
        }
        if exists|k: int| 0 <= k < parts.len() && has_stray_tilde(#[trigger] parts[k]) {
            let k = choose|k: int| 0 <= k < parts.len() && has_stray_tilde(#[trigger] parts[k]);
            assert(has_stray_tilde(parts[k]));
        }
    }
}

proof fn lemma_pointer_starts(keys: Seq<Seq<char>>)
    requires
        keys.len() > 0,
    ensures
        pointer_of(keys).len() > 0,
        pointer_of(keys)[0] == '/',
    decreases keys.len(),
{
    reveal_with_fuel(pointer_of, 2);
    if keys.drop_last().len() > 0 {
        lemma_pointer_starts(keys.drop_last());
    }
}

// ---------------------------------------------------------------------------
// Errors
// ---------------------------------------------------------------------------

/// Why options for a source were refused.
#[derive(Debug, Clone, PartialEq, Eq)]
pub enum SourceOptionError {
    InvalidFormat(String),
    InvalidSchemaScan(String),
    InvalidObjectMode(String),
    InvalidJsonPointer(String),
    JsonPathRequiresStructuredFormat,
    TableQueryConflict,
    ObjectModeRequiresObject { mode: ObjectMode },
}

/// The model of an option error.
pub enum SourceOptionErrorModel {
    InvalidFormat(Seq<char>),
    InvalidSchemaScan(Seq<char>),
    InvalidObjectMode(Seq<char>),
    InvalidJsonPointer(Seq<char>),
    JsonPathRequiresStructuredFormat,
    TableQueryConflict,
    ObjectModeRequiresObject { mode: ObjectMode },
}

impl View for SourceOptionError {
    type V = SourceOptionErrorModel;

    open spec fn view(&self) -> SourceOptionErrorModel {
        match self {
            SourceOptionError::InvalidFormat(s) => SourceOptionErrorModel::InvalidFormat(s@),
            SourceOptionError::InvalidSchemaScan(s) => SourceOptionErrorModel::InvalidSchemaScan(
                s@,
            ),
            SourceOptionError::InvalidObjectMode(s) => SourceOptionErrorModel::InvalidObjectMode(
                s@,
            ),
            SourceOptionError::InvalidJsonPointer(s) => SourceOptionErrorModel::InvalidJsonPointer(
                s@,
            ),
            SourceOptionError::JsonPathRequiresStructuredFormat =>
                SourceOptionErrorModel::JsonPathRequiresStructuredFormat,
            SourceOptionError::TableQueryConflict => SourceOptionErrorModel::TableQueryConflict,
            SourceOptionError::ObjectModeRequiresObject { mode } =>
                SourceOptionErrorModel::ObjectModeRequiresObject { mode: *mode },
        }
    }
}

impl SourceOptionErrorModel {
    /// The text shown for the error.
    pub open spec fn text(self) -> Seq<char> {
        match self {
            SourceOptionErrorModel::InvalidFormat(s) => "invalid input format '"@ + s
                + "' (expected auto, delimited, json, ndjson, or sqlite)"@,
            SourceOptionErrorModel::InvalidSchemaScan(s) => "invalid schema scan policy '"@ + s
                + "' (expected default or full)"@,
            SourceOptionErrorModel::InvalidObjectMode(s) => "invalid object mode '"@ + s
                + "' (expected auto, record, or entries)"@,
            SourceOptionErrorModel::InvalidJsonPointer(s) => "invalid RFC 6901 JSON Pointer '"@ + s
                + "'"@,
            SourceOptionErrorModel::JsonPathRequiresStructuredFormat =>
                "JSON starting paths require JSON or NDJSON input"@,
            SourceOptionErrorModel::TableQueryConflict =>
                "source table and native query are mutually exclusive"@,
            SourceOptionErrorModel::ObjectModeRequiresObject { mode } => "object mode '"@
                + mode.name() + "' requires an input with a selected object/map"@,
        }
    }
}

impl SourceOptionError {
    /// The text shown for the error.
    pub fn message(&self) -> (r: String)
        ensures
            r@ == self@.text(),
    {
        match self {
            SourceOptionError::InvalidFormat(s) => concat3(
                "invalid input format '",
                s,
                "' (expected auto, delimited, json, ndjson, or sqlite)",
            ),
            SourceOptionError::InvalidSchemaScan(s) => concat3(
                "invalid schema scan policy '",
                s,
                "' (expected default or full)",
            ),
            SourceOptionError::InvalidObjectMode(s) => concat3(
                "invalid object mode '",
                s,
                "' (expected auto, record, or entries)",
            ),
            SourceOptionError::InvalidJsonPointer(s) => concat3(
                "invalid RFC 6901 JSON Pointer '",
                s,
                "'",
            ),
            SourceOptionError::JsonPathRequiresStructuredFormat =>
                "JSON starting paths require JSON or NDJSON input".to_owned(),
            SourceOptionError::TableQueryConflict =>
                "source table and native query are mutually exclusive".to_owned(),
            SourceOptionError::ObjectModeRequiresObject { mode } => concat3(
                "object mode '",
                mode.label(),
                "' requires an input with a selected object/map",
            ),
        }
    }
}

// ---------------------------------------------------------------------------
// Option sets
// ---------------------------------------------------------------------------

/// How quotes are read in delimited text.
#[derive(Debug, Clone, Copy, PartialEq, Eq, Structural)]
pub enum Quoting {
    Minimal,
    NonNumeric,
    All,
    Never,
}

/// How delimited text is read.
#[derive(Debug, PartialEq, Eq)]
pub struct ParseOptions {
    pub encoding: Option<String>,
    pub delimiter: Option<u8>,
    pub quoting: Option<Quoting>,
    pub quote_char: u8,
}

/// The model of parse options.
pub struct ParseModel {
    pub encoding: Option<Seq<char>>,
    pub delimiter: Option<u8>,
    pub quoting: Option<Quoting>,
    pub quote_char: u8,
}

impl View for ParseOptions {
    type V = ParseModel;

    open spec fn view(&self) -> ParseModel {
        ParseModel {
            encoding: text::opt_view(self.encoding),
            delimiter: self.delimiter,
            quoting: self.quoting,
            quote_char: self.quote_char,
        }
    }
}

impl Default for ParseOptions {
    fn default() -> (r: Self)
        ensures
            r.encoding is None,
            r.delimiter is None,
            r.quoting is None,
            r.quote_char == 0x22,
    {
        ParseOptions { encoding: None, delimiter: None, quoting: None, quote_char: 0x22 }
    }
}

impl Clone for ParseOptions {
    fn clone(&self) -> (r: Self)
        ensures
            r == *self,
    {
        ParseOptions {
            encoding: self.encoding.clone(),
            delimiter: self.delimiter,
            quoting: self.quoting,
            quote_char: self.quote_char,
        }
    }
}

/// A filter to apply while reading a source.
#[derive(Debug, PartialEq, Eq)]
pub struct SourceFilterRequest {
    pub column: String,
    pub operator: SourceFilterOperator,
    pub operand: Option<SourceOperand>,
}

impl Clone for SourceFilterRequest {
    fn clone(&self) -> (r: Self)
        ensures
            r == *self,
    {
        SourceFilterRequest {
            column: self.column.clone(),
            operator: self.operator,
            operand: self.operand.clone(),
        }
    }
}

/// A sort to apply while reading a source.
#[derive(Debug, PartialEq, Eq)]
pub struct SourceSortRequest {
    pub column: String,
    pub direction: SortDirection,
}

impl Clone for SourceSortRequest {
    fn clone(&self) -> (r: Self)
        ensures
            r == *self,
    {
        SourceSortRequest { column: self.column.clone(), direction: self.direction }
    }
}

/// Everything that decides how a source is opened.
#[derive(Debug, PartialEq)]
pub struct OpenOptions {
    pub format: InputFormat,
    pub delimited: ParseOptions,
    pub json_path: Option<JsonPointer>,
    pub object_mode: ObjectMode,
    pub object_mode_origin: ObjectModeOrigin,
    pub schema_scan: SchemaScan,
    pub table: Option<String>,
    pub native_query: Option<String>,
    pub limit: Option<RowLimit>,
    pub source_filters: Vec<SourceFilterRequest>,
    pub source_sort: Vec<SourceSortRequest>,
    /// Prepare rows incrementally for a direct table preview.
    pub preview: bool,
    pub lazy_threshold_bytes: u64,
    pub schema_scan_bytes: u64,
}

impl Default for OpenOptions {
    fn default() -> (r: Self)
        ensures
            r.format == InputFormat::Auto,
            r.delimited.encoding is None,
            r.delimited.delimiter is None,
            r.delimited.quoting is None,
            r.delimited.quote_char == 0x22,
            r.json_path is None,
            r.object_mode == ObjectMode::Auto,
            r.object_mode_origin == ObjectModeOrigin::Default,
            r.schema_scan == SchemaScan::Default,
            r.table is None,
            r.native_query is None,
            r.limit is None,
            r.source_filters@.len() == 0,
            r.source_sort@.len() == 0,
            !r.preview,
            r.lazy_threshold_bytes == DEFAULT_LAZY_THRESHOLD_BYTES,
            r.schema_scan_bytes == DEFAULT_SCHEMA_SCAN_BYTES,
    {
        OpenOptions {
            format: InputFormat::Auto,
            delimited: ParseOptions::default(),
            json_path: None,
            object_mode: ObjectMode::Auto,
            object_mode_origin: ObjectModeOrigin::Default,
            schema_scan: SchemaScan::Default,
            table: None,
            native_query: None,
            limit: None,
            source_filters: Vec::new(),
            source_sort: Vec::new(),
            preview: false,
            lazy_threshold_bytes: DEFAULT_LAZY_THRESHOLD_BYTES,
            schema_scan_bytes: DEFAULT_SCHEMA_SCAN_BYTES,
        }
    }
}

/// Two option sets that say the same.
pub open spec fn same_options(a: OpenOptions, b: OpenOptions) -> bool {
    &&& a.format == b.format
    &&& a.delimited == b.delimited
    &&& path_view(a.json_path) == path_view(b.json_path)
    &&& a.object_mode == b.object_mode
    &&& a.object_mode_origin == b.object_mode_origin
    &&& a.schema_scan == b.schema_scan
    &&& a.table == b.table
    &&& a.native_query == b.native_query
    &&& a.limit == b.limit
    &&& a.source_filters@ == b.source_filters@
    &&& a.source_sort@ == b.source_sort@
    &&& a.preview == b.preview
    &&& a.lazy_threshold_bytes == b.lazy_threshold_bytes
    &&& a.schema_scan_bytes == b.schema_scan_bytes
}

/// A copy of an optional path.
fn clone_path(path: &Option<JsonPointer>) -> (r: Option<JsonPointer>)
    ensures
        path_view(r) == path_view(*path),
{
    match path {
        Some(p) => Some(p.clone()),
        None => None,
    }
}

/// A copy of a filter list.
fn clone_filters(v: &Vec<SourceFilterRequest>) -> (r: Vec<SourceFilterRequest>)
    ensures
        r@ == v@,
{
    let r = v.clone();
    assert(r@ =~= v@);
    r
}

/// A copy of a sort list.
fn clone_sorts(v: &Vec<SourceSortRequest>) -> (r: Vec<SourceSortRequest>)
    ensures
        r@ == v@,
{
    let r = v.clone();
    assert(r@ =~= v@);
    r
}

impl Clone for OpenOptions {
    fn clone(&self) -> (r: Self)
        ensures
            same_options(r, *self),
    {
        OpenOptions {
            format: self.format,
            delimited: self.delimited.clone(),
            json_path: clone_path(&self.json_path),
            object_mode: self.object_mode,
            object_mode_origin: self.object_mode_origin,
            schema_scan: self.schema_scan,
            table: self.table.clone(),
            native_query: self.native_query.clone(),
            limit: self.limit,
            source_filters: clone_filters(&self.source_filters),
            source_sort: clone_sorts(&self.source_sort),
            preview: self.preview,
            lazy_threshold_bytes: self.lazy_threshold_bytes,
            schema_scan_bytes: self.schema_scan_bytes,
        }
    }
}

/// The choices made on the command line or by a saved view.
#[derive(Debug, PartialEq)]
pub struct SourceOptionOverrides {
    pub format: Option<InputFormat>,
    pub json_path: Option<JsonPointer>,
    pub object_mode: Option<ObjectMode>,
    pub schema_scan: Option<SchemaScan>,
    pub table: Option<String>,
    pub native_query: Option<String>,
    pub limit: Option<RowLimit>,
    pub source_filters: Option<Vec<SourceFilterRequest>>,
    pub source_sort: Option<Vec<SourceSortRequest>>,
}

impl Default for SourceOptionOverrides {
    fn default() -> (r: Self)
        ensures
            r.is_empty(),
    {
        SourceOptionOverrides {
            format: None,
            json_path: None,
            object_mode: None,
            schema_scan: None,
            table: None,
            native_query: None,
            limit: None,
            source_filters: None,
            source_sort: None,
        }
    }
}

impl SourceOptionOverrides {
    /// Nothing is chosen.
    pub open spec fn is_empty(self) -> bool {
        &&& self.format is None
        &&& self.json_path is None
        &&& self.object_mode is None
        &&& self.schema_scan is None
        &&& self.table is None
        &&& self.native_query is None
        &&& self.limit is None
        &&& self.source_filters is None
        &&& self.source_sort is None
    }
}

/// The first of two choices that is made.
pub open spec fn first_choice<T>(a: Option<T>, b: Option<T>) -> Option<T> {
    if a is Some {
        a
    } else {
        b
    }
}

/// The elements of an optional list.
pub open spec fn list_view<T>(v: Option<Vec<T>>) -> Option<Seq<T>> {
    match v {
        Some(list) => Some(list@),
        None => None,
    }
}

/// A choice with a default.
pub open spec fn choice_or<T>(a: Option<T>, default: T) -> T {
    match a {
        Some(x) => x,
        None => default,
    }
}

/// The relation and the query of merged options: they are chosen together, by
/// the command line if it names either, by the saved view if it names either.
pub open spec fn merged_target(
    defaults: OpenOptions,
    saved: SourceOptionOverrides,
    cli: SourceOptionOverrides,
) -> (Option<String>, Option<String>) {
    if cli.native_query is Some {
        (None, cli.native_query)
    } else if cli.table is Some {
        (cli.table, None)
    } else if saved.native_query is Some || saved.table is Some {
        (saved.table, saved.native_query)
    } else {
        (defaults.table, defaults.native_query)
    }
}

/// The object mode of merged options and who asked for it.
pub open spec fn merged_mode(
    defaults: OpenOptions,
    saved: SourceOptionOverrides,
    cli: SourceOptionOverrides,
) -> (ObjectMode, ObjectModeOrigin) {
    match (cli.object_mode, saved.object_mode) {
        (Some(mode), _) => (mode, ObjectModeOrigin::Cli),
        (None, Some(mode)) => (mode, ObjectModeOrigin::SavedView),
        (None, None) => (defaults.object_mode, defaults.object_mode_origin),
    }
}

/// `r` takes each option from the command line, else from the saved view, else
/// from the defaults.
pub open spec fn is_merge(
    r: OpenOptions,
    defaults: OpenOptions,
    saved: SourceOptionOverrides,
    cli: SourceOptionOverrides,
) -> bool {
    &&& r.format == choice_or(first_choice(cli.format, saved.format), defaults.format)
    &&& path_view(r.json_path) == first_choice(
        path_view(cli.json_path),
        first_choice(path_view(saved.json_path), path_view(defaults.json_path)),
    )
    &&& (r.object_mode, r.object_mode_origin) == merged_mode(defaults, saved, cli)
    &&& r.schema_scan == choice_or(
        first_choice(cli.schema_scan, saved.schema_scan),
        defaults.schema_scan,
    )
    &&& (r.table, r.native_query) == merged_target(defaults, saved, cli)
    &&& r.limit == first_choice(cli.limit, first_choice(saved.limit, defaults.limit))
    &&& r.source_filters@ == choice_or(
        first_choice(list_view(cli.source_filters), list_view(saved.source_filters)),
        defaults.source_filters@,
    )
    &&& r.source_sort@ == choice_or(
        first_choice(list_view(cli.source_sort), list_view(saved.source_sort)),
        defaults.source_sort@,
    )
    &&& r.delimited == defaults.delimited
    &&& r.preview == defaults.preview
    &&& r.lazy_threshold_bytes == defaults.lazy_threshold_bytes
    &&& r.schema_scan_bytes == defaults.schema_scan_bytes
}

impl OpenOptions {
    /// Combines the choices of the command line, a saved view and the defaults.
    pub fn merge(
        defaults: OpenOptions,
        saved: &SourceOptionOverrides,
        cli: &SourceOptionOverrides,
    ) -> (r: OpenOptions)
        ensures
            is_merge(r, defaults, *saved, *cli),
    {
        let (object_mode, object_mode_origin) = match (cli.object_mode, saved.object_mode) {
            (Some(mode), _) => (mode, ObjectModeOrigin::Cli),
            (None, Some(mode)) => (mode, ObjectModeOrigin::SavedView),
            (None, None) => (defaults.object_mode, defaults.object_mode_origin),
        };
        let (table, native_query) = if cli.native_query.is_some() {
            (None, cli.native_query.clone())
        } else if cli.table.is_some() {
            (cli.table.clone(), None)
        } else if saved.native_query.is_some() || saved.table.is_some() {
            (saved.table.clone(), saved.native_query.clone())
        } else {
            (defaults.table, defaults.native_query)
        };
        let format = match (cli.format, saved.format) {
            (Some(f), _) => f,
            (None, Some(f)) => f,
            (None, None) => defaults.format,
        };
        let schema_scan = match (cli.schema_scan, saved.schema_scan) {
            (Some(s), _) => s,
            (None, Some(s)) => s,
            (None, None) => defaults.schema_scan,
        };
        let json_path = if cli.json_path.is_some() {
            clone_path(&cli.json_path)
        } else if saved.json_path.is_some() {
            clone_path(&saved.json_path)
        } else {
            defaults.json_path
        };
        let limit = if cli.limit.is_some() {
            cli.limit
        } else if saved.limit.is_some() {
            saved.limit
        } else {
            defaults.limit
        };
        let source_filters = match (&cli.source_filters, &saved.source_filters) {
            (Some(f), _) => clone_filters(f),
            (None, Some(f)) => clone_filters(f),
            (None, None) => defaults.source_filters,
        };
        let source_sort = match (&cli.source_sort, &saved.source_sort) {
            (Some(s), _) => clone_sorts(s),
            (None, Some(s)) => clone_sorts(s),
            (None, None) => defaults.source_sort,
        };
        OpenOptions {
            format,
            delimited: defaults.delimited,
            json_path,
            object_mode,
            object_mode_origin,
            schema_scan,
            table,
            native_query,
            limit,
            source_filters,
            source_sort,
            preview: defaults.preview,
            lazy_threshold_bytes: defaults.lazy_threshold_bytes,
            schema_scan_bytes: defaults.schema_scan_bytes,
        }
    }

    /// What is wrong with the options, if anything: a path into delimited text
    /// comes before a relation named beside a query.
    pub open spec fn fault(self) -> Option<SourceOptionErrorModel> {
        if self.format is Delimited && self.json_path is Some {
            Some(SourceOptionErrorModel::JsonPathRequiresStructuredFormat)
        } else if self.table is Some && self.native_query is Some {
            Some(SourceOptionErrorModel::TableQueryConflict)
        } else {
            None
        }
    }

    /// Refuses options that contradict each other.
    pub fn validate(&self) -> (r: Result<(), SourceOptionError>)
        ensures
            match r {
                Ok(_) => self.fault() is None,
                Err(e) => self.fault() == Some(e@),
            },
    {
        if self.format == InputFormat::Delimited && self.json_path.is_some() {
            return Err(SourceOptionError::JsonPathRequiresStructuredFormat);
        }
        if self.table.is_some() && self.native_query.is_some() {
            return Err(SourceOptionError::TableQueryConflict);
        }
        Ok(())
    }
}

/// An option chosen on the command line wins over the saved view and the defaults.
pub proof fn command_line_outranks_saved_view(
    r: OpenOptions,
    defaults: OpenOptions,
    saved: SourceOptionOverrides,
    cli: SourceOptionOverrides,
)
    requires
        is_merge(r, defaults, saved, cli),
    ensures
        cli.format is Some ==> r.format == cli.format->0,
        cli.json_path is Some ==> path_view(r.json_path) == path_view(cli.json_path),
        cli.object_mode is Some ==> r.object_mode == cli.object_mode->0 && r.object_mode_origin
            is Cli,
        cli.schema_scan is Some ==> r.schema_scan == cli.schema_scan->0,
        cli.limit is Some ==> r.limit == cli.limit,
        cli.native_query is Some ==> r.native_query == cli.native_query && r.table is None,
        cli.table is Some && cli.native_query is None ==> r.table == cli.table && r.native_query
            is None,
{
}

/// With nothing chosen on the command line or by a saved view, merging keeps the defaults.
pub proof fn merging_nothing_keeps_defaults(
    r: OpenOptions,
    defaults: OpenOptions,
    saved: SourceOptionOverrides,
    cli: SourceOptionOverrides,
)
    requires
        is_merge(r, defaults, saved, cli),
        saved.is_empty(),
        cli.is_empty(),
    ensures
        same_options(r, defaults),
{
}

/// Merging never brings a relation and a query together: merged options hold
/// both only where the saved view or the defaults already did.
pub proof fn merging_keeps_table_and_query_apart(
    r: OpenOptions,
    defaults: OpenOptions,
    saved: SourceOptionOverrides,
    cli: SourceOptionOverrides,
)
    requires
        is_merge(r, defaults, saved, cli),
        !(saved.table is Some && saved.native_query is Some),
        !(defaults.table is Some && defaults.native_query is Some),
    ensures
        !(r.table is Some && r.native_query is Some),
{
}

/// Each input format is read by its own name, and is called by it.
pub proof fn input_formats_are_read_by_their_names(value: Seq<char>)
    ensures
        InputFormat::named(value) == Some(InputFormat::Auto) <==> value == "auto"@,
        InputFormat::named(value) == Some(InputFormat::Delimited) <==> value == "delimited"@,
        InputFormat::named(value) == Some(InputFormat::Json) <==> value == "json"@,
        InputFormat::named(value) == Some(InputFormat::Ndjson) <==> value == "ndjson"@,
        InputFormat::named(value) == Some(InputFormat::Sqlite) <==> value == "sqlite"@,
        InputFormat::named(value) is None <==> value != "auto"@ && value != "delimited"@ && value != "json"@ && value != "ndjson"@ && value != "sqlite"@,
        InputFormat::Auto.name() == "auto"@,
        InputFormat::Delimited.name() == "delimited"@,
        InputFormat::Json.name() == "json"@,
        InputFormat::Ndjson.name() == "ndjson"@,
        InputFormat::Sqlite.name() == "sqlite"@,
{
    reveal_strlit("auto");
    reveal_strlit("delimited");
    reveal_strlit("json");
    reveal_strlit("ndjson");
    reveal_strlit("sqlite");
    assert("auto"@.len() == 4);
    assert("delimited"@.len() == 9);
    assert("json"@.len() == 4);
    assert("ndjson"@.len() == 6);
    assert("sqlite"@.len() == 6);
    assert("auto"@[0] != "json"@[0]);
    assert("ndjson"@[0] != "sqlite"@[0]);
}

/// Each object mode is read by its own name, and is called by it.
pub proof fn object_modes_are_read_by_their_names(value: Seq<char>)
    ensures
        ObjectMode::named(value) == Some(ObjectMode::Auto) <==> value == "auto"@,
        ObjectMode::named(value) == Some(ObjectMode::Record) <==> value == "record"@,
        ObjectMode::named(value) == Some(ObjectMode::Entries) <==> value == "entries"@,
        ObjectMode::named(value) is None <==> value != "auto"@ && value != "record"@ && value != "entries"@,
        ObjectMode::Auto.name() == "auto"@,
        ObjectMode::Record.name() == "record"@,
        ObjectMode::Entries.name() == "entries"@,
        ResolvedObjectMode::Record.name() == "record"@,
        ResolvedObjectMode::Entries.name() == "entries"@,
        SelectedValueShape::Object.name() == "object"@,
        SelectedValueShape::Array.name() == "array"@,
        SelectedValueShape::Scalar.name() == "scalar"@,
{
    reveal_strlit("auto");
    reveal_strlit("record");
    reveal_strlit("entries");
    assert("auto"@.len() == 4);
    assert("record"@.len() == 6);
    assert("entries"@.len() == 7);
}

/// Each way of scanning for columns is read by its own name.
pub proof fn scans_are_read_by_their_names(value: Seq<char>)
    ensures
        SchemaScan::named(value) == Some(SchemaScan::Default) <==> value == "default"@,
        SchemaScan::named(value) == Some(SchemaScan::Full) <==> value == "full"@,
        SchemaScan::named(value) is None <==> value != "default"@ && value != "full"@,
{
    reveal_strlit("default");
    reveal_strlit("full");
    assert("default"@.len() == 7);
    assert("full"@.len() == 4);
}

/// An object is read in the mode that is asked for, and only where none is asked for in
/// the mode that it looks like; of the other shapes an array alone is a table.
pub proof fn asked_modes_outrank_looks(auto_entries: bool)
    ensures
        object_mode_for(ObjectMode::Entries, auto_entries) is Entries,
        object_mode_for(ObjectMode::Record, auto_entries) is Record,
        object_mode_for(ObjectMode::Auto, auto_entries) is Entries <==> auto_entries,
        object_mode_for(ObjectMode::Auto, auto_entries) is Record <==> !auto_entries,
        plain_table_shape(SelectedValueShape::Array) == Some(SelectedTableShape::ArrayRows),
        plain_table_shape(SelectedValueShape::Scalar) is None,
{
}

/// A saved view decides what the command line leaves open, and the defaults what both
/// leave open; what is asked of a relation goes by the first of them that names a
/// relation or a query.
pub proof fn saved_view_outranks_defaults(
    r: OpenOptions,
    defaults: OpenOptions,
    saved: SourceOptionOverrides,
    cli: SourceOptionOverrides,
)
    requires
        is_merge(r, defaults, saved, cli),
    ensures
        cli.format is None && saved.format is Some ==> r.format == saved.format->0,
        cli.format is None && saved.format is None ==> r.format == defaults.format,
        cli.json_path is None && saved.json_path is Some ==> path_view(r.json_path) == path_view(
            saved.json_path,
        ),
        cli.json_path is None && saved.json_path is None ==> path_view(r.json_path) == path_view(
            defaults.json_path,
        ),
        cli.object_mode is None && saved.object_mode is Some ==> r.object_mode
            == saved.object_mode->0 && r.object_mode_origin is SavedView,
        cli.object_mode is None && saved.object_mode is None ==> r.object_mode
            == defaults.object_mode && r.object_mode_origin == defaults.object_mode_origin,
        cli.schema_scan is None && saved.schema_scan is Some ==> r.schema_scan
            == saved.schema_scan->0,
        cli.schema_scan is None && saved.schema_scan is None ==> r.schema_scan
            == defaults.schema_scan,
        cli.limit is None && saved.limit is Some ==> r.limit == saved.limit,
        cli.limit is None && saved.limit is None ==> r.limit == defaults.limit,
        cli.source_filters matches Some(list) ==> r.source_filters@ == list@,
        cli.source_filters is None && saved.source_filters is Some ==> r.source_filters@
            == saved.source_filters->0@,
        cli.source_filters is None && saved.source_filters is None ==> r.source_filters@
            == defaults.source_filters@,
        cli.source_sort matches Some(list) ==> r.source_sort@ == list@,
        cli.source_sort is None && saved.source_sort is Some ==> r.source_sort@
            == saved.source_sort->0@,
        cli.source_sort is None && saved.source_sort is None ==> r.source_sort@
            == defaults.source_sort@,
        cli.native_query is None && cli.table is None && (saved.table is Some
            || saved.native_query is Some) ==> r.table == saved.table && r.native_query
            == saved.native_query,
        cli.native_query is None && cli.table is None && saved.table is None && saved.native_query
            is None ==> r.table == defaults.table && r.native_query == defaults.native_query,
        r.delimited == defaults.delimited,
        r.preview == defaults.preview,
        r.lazy_threshold_bytes == defaults.lazy_threshold_bytes,
        r.schema_scan_bytes == defaults.schema_scan_bytes,
{
}

/// Options are refused exactly where a path into JSON meets the delimited format or a
/// relation meets a query; where both are so, the path is told.
pub proof fn options_are_refused_for_two_reasons(options: OpenOptions)
    ensures
        options.fault() is None <==> !(options.format is Delimited && options.json_path is Some)
            && !(options.table is Some && options.native_query is Some),
        options.fault() == Some(SourceOptionErrorModel::JsonPathRequiresStructuredFormat)
            <==> options.format is Delimited && options.json_path is Some,
        options.fault() == Some(SourceOptionErrorModel::TableQueryConflict) ==> options.table
            is Some && options.native_query is Some,
{
}

/// The escapes of a pointer: the tilde and the slash have one of their own, and every
/// other character stands for itself.
pub proof fn pointer_escapes_are_the_two(c: char)
    ensures
        escaped(seq!['~']) == seq!['~', '0'],
        escaped(seq!['/']) == seq!['~', '1'],
        c != '~' && c != '/' ==> escaped(seq![c]) == seq![c],
        unescaped(seq!['~', '0']) == Some(seq!['~']),
        unescaped(seq!['~', '1']) == Some(seq!['/']),
        unescaped(seq!['~']) is None,
        pointer_keys(Seq::empty()) == Some(Seq::<Seq<char>>::empty()),
        pointer_keys(seq!['/']) == Some(seq![Seq::<char>::empty()]),
        c != '/' ==> pointer_keys(seq![c]) is None,
{
    reveal_strlit("~0");
    reveal_strlit("~1");
    assert("~0"@ =~= seq!['~', '0']);
    assert("~1"@ =~= seq!['~', '1']);
    let none = Seq::<char>::empty();
    text::replacing_goes_by_characters(none, seq!['~'], '~', "~0"@);
    text::replacing_goes_by_characters(none, seq!['/'], '/', "~1"@);
    text::replacing_goes_by_characters(none, seq!['~', '0'], '/', "~1"@);
    text::replacing_goes_by_characters(none, seq!['/'], '~', "~0"@);
    text::replacing_goes_by_characters(none, seq![c], '~', "~0"@);
    text::replacing_goes_by_characters(none, seq![c], '/', "~1"@);
    assert(unescaped(none) == Some(none));
    let tilde = seq!['~', '0'];
    let slash = seq!['~', '1'];
    assert(tilde.skip(2) =~= none);
    assert(slash.skip(2) =~= none);
    assert(seq!['~'] + none =~= seq!['~']);
    assert(seq!['/'] + none =~= seq!['/']);
    assert(seq!['/'].skip(1) =~= none);
    assert(text::split_on(none, '/') =~= seq![none]);
    let one = seq![none];
    assert(one.drop_last() =~= Seq::<Seq<char>>::empty());
    assert(unescaped_all(one.drop_last()) == Some(Seq::<Seq<char>>::empty()));
    assert(Seq::<Seq<char>>::empty().push(none) =~= one);
}

/// Each fault of options is told with the value that it is about, and a mode that a view
/// asked for in vain with what was selected instead.
pub proof fn option_faults_tell_their_value(s: Seq<char>)
    ensures
        SourceOptionErrorModel::InvalidFormat(s).text() == "invalid input format '"@ + s
            + "' (expected auto, delimited, json, ndjson, or sqlite)"@,
        SourceOptionErrorModel::InvalidSchemaScan(s).text() == "invalid schema scan policy '"@ + s
            + "' (expected default or full)"@,
        SourceOptionErrorModel::InvalidObjectMode(s).text() == "invalid object mode '"@ + s
            + "' (expected auto, record, or entries)"@,
        SourceOptionErrorModel::InvalidJsonPointer(s).text() == "invalid RFC 6901 JSON Pointer '"@
            + s + "'"@,
        SourceOptionErrorModel::JsonPathRequiresStructuredFormat.text()
            == "JSON starting paths require JSON or NDJSON input"@,
        SourceOptionErrorModel::TableQueryConflict.text()
            == "source table and native query are mutually exclusive"@,
        (SourceOptionErrorModel::ObjectModeRequiresObject { mode: ObjectMode::Record }).text()
            == "object mode '"@ + "record"@ + "' requires an input with a selected object/map"@,
        ignored_mode_warning(ObjectMode::Record, SelectedValueShape::Array)
            == "saved object_mode '"@ + "record"@ + "' is incompatible with the selected "@
            + "array"@ + " and was ignored"@,
        ignored_mode_warning(ObjectMode::Entries, SelectedValueShape::Scalar)
            == "saved object_mode '"@ + "entries"@ + "' is incompatible with the selected "@
            + "scalar"@ + " and was ignored"@,
{
}

} // verus!
