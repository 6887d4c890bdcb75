//! Where input comes from, and the file names that say what it is.

use vstd::prelude::*;
use vstd::string::*;

use crate::text::{
    self, ascii_lower, ascii_lower_char, chars_of, concat2, concat3, digit, same, split_at_first,
    split_at_last, split_chars, starts_with,
};

verus! {

// ---------------------------------------------------------------------------
// Paths
// ---------------------------------------------------------------------------

/// The parts of a path that name something: neither empty nor the current directory.
pub open spec fn path_parts(parts: Seq<Seq<char>>) -> Seq<Seq<char>>
    decreases parts.len(),
{
    if parts.len() == 0 {
        Seq::empty()
    } else {
        let front = path_parts(parts.drop_last());
        if parts.last().len() == 0 || parts.last() == "."@ {
            front
        } else {
            front.push(parts.last())
        }
    }
}

/// The last part of a path, unless the path has none or leads upwards.
pub open spec fn file_name(path: Seq<char>) -> Option<Seq<char>> {
    let parts = path_parts(text::split_on(path, '/'));
    if parts.len() == 0 || parts.last() == ".."@ {
        None
    } else {
        Some(parts.last())
    }
}

/// What stands before and behind the last dot of a file name; a name whose only
/// dot comes first has no extension.
pub open spec fn split_extension(name: Seq<char>) -> (Seq<char>, Option<Seq<char>>) {
    match text::rsplit_once(name, '.') {
        Some((stem, extension)) => if stem.len() == 0 {
            (name, None)
        } else {
            (stem, Some(extension))
        },
        None => (name, None),
    }
}

/// The extension of the file that a path names.
pub open spec fn extension(path: Seq<char>) -> Option<Seq<char>> {
    match file_name(path) {
        Some(name) => split_extension(name).1,
        None => None,
    }
}

/// The name of the file that a path names, without its extension.
pub open spec fn file_stem(path: Seq<char>) -> Option<Seq<char>> {
    match file_name(path) {
        Some(name) => Some(split_extension(name).0),
        None => None,
    }
}

/// The last part of a path.
pub fn file_name_of(path: &str) -> (r: Option<String>)
    ensures
        text::opt_view(r) == file_name(path@),
{
    let parts = split_chars(path, '/');
    let ghost model = text::views(parts@);
    let mut last: Option<String> = None;
    let mut i: usize = 0;
    while i < parts.len()
        invariant
            i <= parts.len(),
            model == text::views(parts@),
            ({
                let front = path_parts(model.take(i as int));
                text::opt_view(last) == if front.len() == 0 {
                    None
                } else {
                    Some(front.last())
                }
            }),
        decreases parts.len() - i,
    {
        assert(model.take(i + 1).drop_last() =~= model.take(i as int));
        assert(model.take(i + 1).last() == parts@[i as int]@);
        if !parts[i].as_str().is_empty() && !same(&parts[i], ".") {
            last = Some(parts[i].clone());
        }
        i = i + 1;
    }
    assert(model.take(model.len() as int) =~= model);
    match last {
        Some(name) => if same(&name, "..") {
            None
        } else {
            Some(name)
        },
        None => None,
    }
}

/// What stands before and behind the last dot of a file name.
pub fn split_file_name(name: &str) -> (r: (String, Option<String>))
    ensures
        (r.0@, text::opt_view(r.1)) == split_extension(name@),
{
    match split_at_last(name, '.') {
        Some((stem, extension)) => if stem.as_str().is_empty() {
            (name.to_owned(), None)
        } else {
            (stem, Some(extension))
        },
        None => (name.to_owned(), None),
    }
}

/// The extension of the file that a path names.
pub fn extension_of(path: &str) -> (r: Option<String>)
    ensures
        text::opt_view(r) == extension(path@),
{
    match file_name_of(path) {
        Some(name) => split_file_name(&name).1,
        None => None,
    }
}

/// The name of the file that a path names, without its extension.
pub fn file_stem_of(path: &str) -> (r: Option<String>)
    ensures
        text::opt_view(r) == file_stem(path@),
{
    match file_name_of(path) {
        Some(name) => Some(split_file_name(&name).0),
        None => None,
    }
}

/// A path below a directory.
pub open spec fn path_below(dir: Seq<char>, name: Seq<char>) -> Seq<char> {
    if dir.len() == 0 || dir.last() == '/' {
        dir + name
    } else {
        dir + "/"@ + name
    }
}

/// A path below a directory.
pub fn join_path(dir: &str, name: &str) -> (r: String)
    ensures
        r@ == path_below(dir@, name@),
{
    let v = chars_of(dir);
    if v.len() == 0 || v[v.len() - 1] == '/' {
        concat2(dir, name)
    } else {
        concat3(dir, "/", name)
    }
}

// ---------------------------------------------------------------------------
// Targets and sources
// ---------------------------------------------------------------------------

/// Whether `c` may stand in a URL scheme behind its first letter.
pub open spec fn is_scheme_char(c: char) -> bool {
    let l = text::lower_char(c);
    ||| 'a' as u32 <= l as u32 <= 'z' as u32
    ||| text::is_digit(c)
    ||| c == '+'
    ||| c == '-'
    ||| c == '.'
}

/// Whether `s` is a URL scheme: letters, digits, `+`, `-` and `.` behind a
/// letter, and more than the one letter of a drive.
pub open spec fn is_scheme(s: Seq<char>) -> bool {
    &&& s.len() > 1
    &&& 'a' as u32 <= text::lower_char(s[0]) as u32 <= 'z' as u32
    &&& forall|i: int| 0 <= i < s.len() ==> is_scheme_char(#[trigger] s[i])
}

/// The scheme of a target that is a URL, in small letters.
pub open spec fn url_scheme(target: Seq<char>) -> Option<Seq<char>> {
    match text::split_once(target, ':') {
        Some((scheme, rest)) => if is_scheme(scheme) && text::has_prefix(rest, "//"@) {
            Some(text::lower(scheme))
        } else {
            None
        },
        None => None,
    }
}

/// What the command line names as input.
#[derive(Debug, Clone, PartialEq, Eq)]
pub enum SourceTarget {
    Stdin,
    Path(String),
    Url { scheme: String, url: String },
}

/// The model of a target.
pub enum TargetModel {
    Stdin,
    Path(Seq<char>),
    Url { scheme: Seq<char>, url: Seq<char> },
}

impl View for SourceTarget {
    type V = TargetModel;

    open spec fn view(&self) -> TargetModel {
        match self {
            SourceTarget::Stdin => TargetModel::Stdin,
            SourceTarget::Path(p) => TargetModel::Path(p@),
            SourceTarget::Url { scheme, url } => TargetModel::Url { scheme: scheme@, url: url@ },
        }
    }
}

/// What a command-line value names: a hyphen is standard input, a URL has a
/// scheme, and anything else is a path.
pub open spec fn target_of(value: Seq<char>) -> TargetModel {
    if value == "-"@ {
        TargetModel::Stdin
    } else {
        match url_scheme(value) {
            Some(scheme) => TargetModel::Url { scheme, url: value },
            None => TargetModel::Path(value),
        }
    }
}

/// The scheme of a target that is a URL.
fn scheme_of(target: &str) -> (r: Option<String>)
    ensures
        text::opt_view(r) == url_scheme(target@),
{
    match split_at_first(target, ':') {
        Some((scheme, rest)) => {
            let v = chars_of(&scheme);
            if v.len() <= 1 || !starts_with(&rest, "//") {
                return None;
            }
            let l: u32 = ascii_lower_char(v[0]) as u32;
            if l < 97 || l > 122 {
                return None;
            }
            let mut i: usize = 0;
            while i < v.len()
                invariant
                    i <= v.len(),
                    v@ == scheme@,
                    text::pair_view(Some((scheme, rest))) == text::split_once(target@, ':'),
                    forall|k: int| 0 <= k < i ==> is_scheme_char(#[trigger] v@[k]),
                decreases v.len() - i,
            {
                let c = v[i];
                let l: u32 = ascii_lower_char(c) as u32;
                if !((97 <= l && l <= 122) || digit(c) || c == '+' || c == '-' || c == '.') {
                    assert(!is_scheme_char(v@[i as int]));
                    return None;
                }
                i = i + 1;
            }
            Some(ascii_lower(&scheme))
        },
        None => None,
    }
}

impl SourceTarget {
    /// What a command-line value names.
    pub fn from_cli_value(value: &str) -> (r: SourceTarget)
        ensures
            r@ == target_of(value@),
    {
        if same(value, "-") {
            return SourceTarget::Stdin;
        }
        match scheme_of(value) {
            Some(scheme) => SourceTarget::Url { scheme, url: value.to_owned() },
            None => SourceTarget::Path(value.to_owned()),
        }
    }
}

/// Where input comes from. Standard input can also be read as it arrives.
#[derive(Debug, Clone, PartialEq, Eq)]
pub enum InputSource {
    Path(String),
    Stdin,
    StreamingStdin,
    Url { scheme: String, url: String },
}

/// The model of a source.
pub enum SourceModel {
    Path(Seq<char>),
    Stdin,
    StreamingStdin,
    Url { scheme: Seq<char>, url: Seq<char> },
}

impl View for InputSource {
    type V = SourceModel;

    open spec fn view(&self) -> SourceModel {
        match self {
            InputSource::Path(p) => SourceModel::Path(p@),
            InputSource::Stdin => SourceModel::Stdin,
            InputSource::StreamingStdin => SourceModel::StreamingStdin,
            InputSource::Url { scheme, url } => SourceModel::Url { scheme: scheme@, url: url@ },
        }
    }
}

impl SourceModel {
    /// What the source is called.
    pub open spec fn name(self) -> Seq<char> {
        match self {
            SourceModel::Path(p) => p,
            SourceModel::Stdin => "stdin"@,
            SourceModel::StreamingStdin => "stdin"@,
            SourceModel::Url { url, .. } => url,
        }
    }
}

impl InputSource {
    /// The source that a command-line value names.
    pub fn from_cli_value(value: &str) -> (r: InputSource)
        ensures
            r@ == (match target_of(value@) {
                TargetModel::Stdin => SourceModel::Stdin,
                TargetModel::Path(p) => SourceModel::Path(p),
                TargetModel::Url { scheme, url } => SourceModel::Url { scheme, url },
            }),
    {
        match SourceTarget::from_cli_value(value) {
            SourceTarget::Stdin => InputSource::Stdin,
            SourceTarget::Path(p) => InputSource::Path(p),
            SourceTarget::Url { scheme, url } => InputSource::Url { scheme, url },
        }
    }

    /// What the source is called.
    pub fn display_name(&self) -> (r: String)
        ensures
            r@ == self@.name(),
    {
        match self {
            InputSource::Path(p) => p.as_str().to_owned(),
            InputSource::Stdin => "stdin".to_owned(),
            InputSource::StreamingStdin => "stdin".to_owned(),
            InputSource::Url { url, .. } => url.as_str().to_owned(),
        }
    }
}

// ---------------------------------------------------------------------------
// Laws
// ---------------------------------------------------------------------------

/// Whether a text can be the name of a file.
pub open spec fn is_plain_name(name: Seq<char>) -> bool {
    name.len() > 0 && text::lacks(name, '/') && name != "."@ && name != ".."@
}

/// The name of a file is what stands behind the last slash of its path, with or without
/// a slash behind it.
pub proof fn names_stand_behind_the_last_slash(dir: Seq<char>, name: Seq<char>)
    requires
        is_plain_name(name),
    ensures
        file_name(name) == Some(name),
        file_name(dir.push('/') + name) == Some(name),
        file_name((dir.push('/') + name).push('/')) == Some(name),
{
    text::splits_stand_between_separators(dir, name, '/');
    assert(seq![name].drop_last() =~= Seq::<Seq<char>>::empty());
    assert(path_parts(seq![name]).last() == name);
    let whole = dir.push('/') + name;
    let parts = text::split_on(dir, '/').push(name);
    assert(parts.drop_last() =~= text::split_on(dir, '/'));
    assert(path_parts(parts).last() == name);
    let none = Seq::<char>::empty();
    text::splits_stand_between_separators(whole, none, '/');
    assert(whole.push('/') + none =~= whole.push('/'));
    let longer = parts.push(none);
    assert(longer.drop_last() =~= parts);
}

/// What stands behind the last dot of a name is its extension and what stands before
/// it the stem; a dot at the beginning begins no extension.
pub proof fn extensions_stand_behind_the_last_dot(stem: Seq<char>, e: Seq<char>)
    requires
        text::lacks(e, '.'),
    ensures
        stem.len() > 0 ==> split_extension(stem.push('.') + e) == (stem, Some(e)),
        stem.len() == 0 ==> split_extension(stem.push('.') + e) == (
            stem.push('.') + e,
            None::<Seq<char>>,
        ),
        split_extension(e) == (e, None::<Seq<char>>),
{
    let name = stem.push('.') + e;
    text::splitting_once_parts_at_the_character(name, '.');
    text::splitting_once_parts_at_the_character(e, '.');
    assert(!text::lacks(name, '.')) by {
        assert(name[stem.len() as int] == '.');
    }
    let parts = text::rsplit_once(name, '.')->0;
    lemma_parted_once(stem, e, parts.0, parts.1);
}

proof fn lemma_parted_once(a: Seq<char>, b: Seq<char>, x: Seq<char>, y: Seq<char>)
    requires
        a.push('.') + b == x.push('.') + y,
        text::lacks(b, '.'),
        text::lacks(y, '.'),
    ensures
        a == x,
        b == y,
{
    let s = a.push('.') + b;
    assert(s.len() == a.len() + 1 + b.len());
    assert((x.push('.') + y).len() == x.len() + 1 + y.len());
    assert(s[a.len() as int] == '.');
    assert(s[x.len() as int] == '.');
    if a.len() < x.len() {
        let i = x.len() - a.len() - 1;
        assert(0 <= i < b.len());
        assert(b[i] == s[a.len() + 1 + i]);
    }
    if x.len() < a.len() {
        let i = a.len() - x.len() - 1;
        assert(0 <= i < y.len());
        assert(y[i] == (x.push('.') + y)[x.len() + 1 + i]);
    }
    assert(a =~= s.take(a.len() as int));
    assert(x =~= s.take(x.len() as int));
    assert(b =~= s.skip(a.len() as int + 1));
    assert(y =~= s.skip(x.len() as int + 1));
}

/// The extension and the stem of a path are those of its name.
pub proof fn paths_have_the_extension_of_their_name(dir: Seq<char>, stem: Seq<char>, e: Seq<char>)
    requires
        stem.len() > 0,
        text::lacks(e, '.'),
        is_plain_name(stem.push('.') + e),
    ensures
        extension(dir.push('/') + (stem.push('.') + e)) == Some(e),
        file_stem(dir.push('/') + (stem.push('.') + e)) == Some(stem),
        extension(stem.push('.') + e) == Some(e),
        file_stem(stem.push('.') + e) == Some(stem),
{
    names_stand_behind_the_last_slash(dir, stem.push('.') + e);
    extensions_stand_behind_the_last_dot(stem, e);
}

/// A name that is put below a directory is the name of the path, and exactly one slash
/// stands between them.
pub proof fn names_are_put_below_directories(dir: Seq<char>, name: Seq<char>)
    requires
        is_plain_name(name),
    ensures
        file_name(path_below(dir, name)) == Some(name),
        dir.len() > 0 && dir.last() != '/' ==> path_below(dir, name) == dir.push('/') + name,
        path_below(dir.push('/'), name) == dir.push('/') + name,
        path_below(Seq::empty(), name) == name,
{
    reveal_strlit("/");
    assert(Seq::<char>::empty() + name =~= name);
    assert(dir + "/"@ =~= dir.push('/'));
    names_stand_behind_the_last_slash(dir, name);
    if dir.len() == 0 {
        assert(dir + name =~= name);
    } else if dir.last() == '/' {
        names_stand_behind_the_last_slash(dir.drop_last(), name);
        assert(dir.drop_last().push('/') =~= dir);
    }
}

/// A scheme in front of a colon and two slashes makes a target a URL, whatever the case
/// of its letters.
pub proof fn schemes_make_urls(scheme: Seq<char>, rest: Seq<char>)
    requires
        is_scheme(scheme),
    ensures
        url_scheme(scheme + seq![':', '/', '/'] + rest) == Some(text::lower(scheme)),
        target_of(scheme + seq![':', '/', '/'] + rest) == (TargetModel::Url {
            scheme: text::lower(scheme),
            url: scheme + seq![':', '/', '/'] + rest,
        }),
{
    reveal_strlit("//");
    reveal_strlit("-");
    let whole = scheme + seq![':', '/', '/'] + rest;
    assert forall|i: int| 0 <= i < scheme.len() implies #[trigger] scheme[i] != ':' by {
        assert(is_scheme_char(scheme[i]));
    }
    text::lemma_first_of_unique(whole, ':', scheme.len() as int);
    assert(whole.take(scheme.len() as int) =~= scheme);
    let behind = whole.skip(scheme.len() as int + 1);
    assert(behind.take(2) =~= "//"@);
    assert(whole.len() > "-"@.len());
}

/// A scheme has two characters or more, begins with a letter, and goes on with letters,
/// digits, plus, minus and dot.
pub proof fn schemes_begin_with_a_letter(s: Seq<char>, c: char)
    ensures
        is_scheme(seq![c] + s) ==> s.len() > 0 && ('a' <= c <= 'z' || 'A' <= c <= 'Z'),
        is_scheme(s) ==> (is_scheme(s.push(c)) <==> ('a' <= c <= 'z' || 'A' <= c <= 'Z' || '0' <= c
            <= '9' || c == '+' || c == '-' || c == '.')),
        ('a' <= c <= 'z' || 'A' <= c <= 'Z') ==> is_scheme(seq![c, 'x']) && !is_scheme(seq![c]),
{
    assert((seq![c] + s)[0] == c);
    let grown = s.push(c);
    assert(grown[s.len() as int] == c);
    if is_scheme(s) && is_scheme_char(c) {
        assert forall|i: int| 0 <= i < grown.len() implies is_scheme_char(#[trigger] grown[i]) by {
            if i < s.len() {
                assert(grown[i] == s[i]);
            }
        }
    }
}

/// A single dash is the standard input, and every target that is no URL is a path; no
/// target without a colon is a URL.
pub proof fn other_targets_are_paths(value: Seq<char>)
    ensures
        target_of(seq!['-']) is Stdin,
        target_of(value) is Stdin ==> value == seq!['-'],
        text::lacks(value, ':') ==> url_scheme(value) is None,
        value != seq!['-'] && url_scheme(value) is None ==> target_of(value) == TargetModel::Path(
            value,
        ),
        value != seq!['-'] && text::lacks(value, ':') ==> target_of(value) == TargetModel::Path(
            value,
        ),
{
    reveal_strlit("-");
    assert("-"@ =~= seq!['-']);
    text::splitting_once_parts_at_the_character(value, ':');
}

/// A source is called by its path or its URL, and both kinds of standard input alike.
pub proof fn sources_are_called_by_their_place(s: Seq<char>, scheme: Seq<char>)
    ensures
        SourceModel::Path(s).name() == s,
        (SourceModel::Url { scheme, url: s }).name() == s,
        SourceModel::Stdin.name() == "stdin"@,
        SourceModel::StreamingStdin.name() == "stdin"@,
{
}

} // verus!
