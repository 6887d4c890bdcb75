//! Patterns for file names and column keys.

use vstd::prelude::*;
use vstd::string::*;

use crate::text::{self, chars_of, concat3, has_char, same, same_ignoring_case};

verus! {

// ---------------------------------------------------------------------------
// Regular expressions
// ---------------------------------------------------------------------------

/// What `regex::Regex::new` says against a pattern.
pub uninterp spec fn regex_fault(pattern: Seq<char>) -> Option<Seq<char>>;

/// Whether the regular expression that `regex::Regex::new` makes of a pattern is
/// found in a text by `Regex::is_match`; a pattern that is none is found nowhere.
pub uninterp spec fn regex_found(pattern: Seq<char>, text: Seq<char>) -> bool;

/// `regex::Regex::new`: the text of its error for a pattern that is no regular
/// expression. Which patterns those are is left to that function.
#[verifier::external_body]
pub(crate) fn check_regex(pattern: &str) -> (r: Option<String>)
    ensures
        text::opt_view(r) == regex_fault(pattern@),
{
    regex::Regex::new(pattern).err().map(|e| e.to_string())
}

/// `regex::Regex::new` and `Regex::is_match`: whether a pattern is a regular
/// expression that is found in a text. What it matches is left to them.
#[verifier::external_body]
pub(crate) fn regex_matches(pattern: &str, text: &str) -> (r: bool)
    ensures
        r == regex_found(pattern@, text@),
{
    regex::Regex::new(pattern).is_ok_and(|regex| regex.is_match(text))
}

/// Whether a character has a meaning of its own in a regular expression.
pub open spec fn is_meta(c: char) -> bool {
    c == '\\' || c == '.' || c == '+' || c == '*' || c == '?' || c == '(' || c == ')' || c == '|'
        || c == '[' || c == ']' || c == '{' || c == '}' || c == '^' || c == '$' || c == '#' || c
        == '&' || c == '-' || c == '~'
}

/// A character that stands for itself in a regular expression.
pub open spec fn literal_char(c: char) -> Seq<char> {
    if is_meta(c) {
        seq!['\\', c]
    } else {
        seq![c]
    }
}

/// `regex::escape` on one character: a backslash before it where it would have a
/// meaning of its own.
#[verifier::external_body]
fn escape_char(c: char) -> (r: String)
    ensures
        r@ == literal_char(c),
{
    regex::escape(&c.to_string())
}

// ---------------------------------------------------------------------------
// Globs
// ---------------------------------------------------------------------------

/// Whether a text has a wildcard.
pub open spec fn is_wildcard(value: Seq<char>) -> bool {
    value.contains('*') || value.contains('?') || value.contains('[')
}

/// Whether a text has a wildcard.
pub fn is_wildcard_pattern(value: &str) -> (r: bool)
    ensures
        r == is_wildcard(value@),
{
    has_char(value, '*') || has_char(value, '?') || has_char(value, '[')
}

/// What is wrong with the brackets of a pattern from `i` on, where `open` says
/// that a bracket was opened before.
pub open spec fn bracket_fault(pattern: Seq<char>, i: int, open: bool) -> Option<Seq<char>>
    decreases pattern.len() - i,
{
    if i < 0 || i >= pattern.len() {
        if open {
            Some("unmatched opening bracket"@)
        } else {
            None
        }
    } else if pattern[i] == '[' {
        if open {
            Some("nested character classes are not supported"@)
        } else {
            bracket_fault(pattern, i + 1, true)
        }
    } else if pattern[i] == ']' {
        if open {
            bracket_fault(pattern, i + 1, false)
        } else {
            Some("unmatched closing bracket"@)
        }
    } else {
        bracket_fault(pattern, i + 1, open)
    }
}

/// Refuses a pattern whose brackets do not match.
pub fn validate_glob_pattern(raw: &str) -> (r: Result<(), &'static str>)
    ensures
        match (r, bracket_fault(raw@, 0, false)) {
            (Ok(_), None) => true,
            (Err(message), Some(m)) => message@ == m,
            _ => false,
        },
{
    let v = chars_of(raw);
    let mut open = false;
    let mut i: usize = 0;
    while i < v.len()
        invariant
            i <= v@.len(),
            v@ == raw@,
            bracket_fault(raw@, 0, false) == bracket_fault(raw@, i as int, open),
        decreases v@.len() - i,
    {
        if v[i] == '[' {
            if open {
                return Err("nested character classes are not supported");
            }
            open = true;
        } else if v[i] == ']' {
            if !open {
                return Err("unmatched closing bracket");
            }
            open = false;
        }
        i = i + 1;
    }
    if open {
        Err("unmatched opening bracket")
    } else {
        Ok(())
    }
}

/// A character of a glob as a regular expression.
pub open spec fn glob_char(c: char) -> Seq<char> {
    if c == '*' {
        ".*"@
    } else if c == '?' {
        "."@
    } else if c == '[' || c == ']' {
        seq![c]
    } else {
        literal_char(c)
    }
}

/// The characters of a glob as a regular expression.
pub open spec fn glob_chars(pattern: Seq<char>) -> Seq<char>
    decreases pattern.len(),
{
    if pattern.len() == 0 {
        Seq::empty()
    } else {
        glob_chars(pattern.drop_last()) + glob_char(pattern.last())
    }
}

/// A glob as a regular expression for a whole text.
pub open spec fn glob_regex(pattern: Seq<char>) -> Seq<char> {
    "^"@ + glob_chars(pattern) + "$"@
}

/// A regular expression that ignores case.
pub open spec fn ignoring_case(regex: Seq<char>) -> Seq<char> {
    "(?i:"@ + regex + ")"@
}

/// A glob as a regular expression, as a file system compares names.
pub open spec fn platform_glob_regex(pattern: Seq<char>, ignore_case: bool) -> Seq<char> {
    if ignore_case {
        ignoring_case(glob_regex(pattern))
    } else {
        glob_regex(pattern)
    }
}

/// A glob as a regular expression for a whole text.
pub fn glob_to_regex_base(pattern: &str) -> (r: String)
    ensures
        r@ == glob_regex(pattern@),
{
    let v = chars_of(pattern);
    let mut body = String::new();
    let mut i: usize = 0;
    assert(v@.take(0) =~= Seq::<char>::empty());
    while i < v.len()
        invariant
            i <= v@.len(),
            body@ == glob_chars(v@.take(i as int)),
        decreases v@.len() - i,
    {
        let ghost now = v@.take(i + 1);
        assert(now.drop_last() =~= v@.take(i as int));
        assert(now.last() == v@[i as int]);
        let c: char = v[i];
        if c == '*' {
            body.append(".*");
        } else if c == '?' {
            body.append(".");
        } else if c == '[' || c == ']' {
            let ghost before = body@;
            body.push(c);
            assert(body@ =~= before + seq![c]);
        } else {
            body.append(&escape_char(c));
        }
        i = i + 1;
    }
    assert(v@.take(v@.len() as int) =~= v@);
    concat3("^", &body, "$")
}

/// A glob as a regular expression, as a file system compares names.
pub fn glob_to_regex(pattern: &str, ignore_case: bool) -> (r: String)
    ensures
        r@ == platform_glob_regex(pattern@, ignore_case),
{
    let regex = glob_to_regex_base(pattern);
    if ignore_case {
        concat3("(?i:", &regex, ")")
    } else {
        regex
    }
}

/// A glob as a regular expression that ignores case.
pub fn glob_to_regex_case_insensitive(pattern: &str) -> (r: String)
    ensures
        r@ == ignoring_case(glob_regex(pattern@)),
{
    concat3("(?i:", &glob_to_regex_base(pattern), ")")
}

/// Whether a file name fits a glob.
pub fn glob_matches(pattern: &str, value: &str, ignore_case: bool) -> (r: bool)
    ensures
        r == regex_found(platform_glob_regex(pattern@, ignore_case), value@),
{
    regex_matches(&glob_to_regex(pattern, ignore_case), value)
}

/// Whether a column fits a glob.
pub open spec fn column_fits(pattern: Seq<char>, value: Seq<char>) -> bool {
    regex_found(ignoring_case(glob_regex(pattern)), value)
}

/// Whether a column fits a glob.
pub fn column_glob_matches(pattern: &str, value: &str) -> (r: bool)
    ensures
        r == column_fits(pattern@, value@),
{
    regex_matches(&glob_to_regex_case_insensitive(pattern), value)
}

/// Whether a character is part of a wildcard.
pub open spec fn is_wild(c: char) -> bool {
    c == '*' || c == '?' || c == '[' || c == ']'
}

/// How many characters of a pattern stand for themselves.
pub open spec fn specificity(pattern: Seq<char>) -> nat
    decreases pattern.len(),
{
    if pattern.len() == 0 {
        0
    } else {
        specificity(pattern.drop_last()) + if is_wild(pattern.last()) {
            0nat
        } else {
            1nat
        }
    }
}

/// How many characters of a pattern stand for themselves.
pub fn wildcard_specificity(pattern: &str) -> (r: usize)
    ensures
        r == specificity(pattern@),
{
    let v = chars_of(pattern);
    let mut count: usize = 0;
    let mut i: usize = 0;
    assert(v@.take(0) =~= Seq::<char>::empty());
    while i < v.len()
        invariant
            i <= v.len(),
            count <= i,
            count == specificity(v@.take(i as int)),
        decreases v@.len() - i,
    {
        let ghost now = v@.take(i + 1);
        assert(now.drop_last() =~= v@.take(i as int));
        assert(now.last() == v@[i as int]);
        let c: char = v[i];
        if !(c == '*' || c == '?' || c == '[' || c == ']') {
            count = count + 1;
        }
        i = i + 1;
    }
    assert(v@.take(v@.len() as int) =~= v@);
    count
}

// ---------------------------------------------------------------------------
// File names
// ---------------------------------------------------------------------------

/// How a pattern for file names is read.
#[derive(Debug, Clone, Copy, PartialEq, Eq, Structural)]
pub enum FilenamePatternKind {
    Exact,
    Glob,
    Regex,
}

/// A pattern for file names.
#[derive(Debug, PartialEq, Eq)]
pub struct FilenamePattern {
    pub raw: String,
    pub kind: FilenamePatternKind,
}

/// The model of a pattern for file names.
pub struct PatternModel {
    pub raw: Seq<char>,
    pub kind: FilenamePatternKind,
}

impl View for FilenamePattern {
    type V = PatternModel;

    open spec fn view(&self) -> PatternModel {
        PatternModel { raw: self.raw@, kind: self.kind }
    }
}

impl Clone for FilenamePattern {
    fn clone(&self) -> (r: Self)
        ensures
            r@ == self@,
    {
        FilenamePattern { raw: self.raw.clone(), kind: self.kind }
    }
}

/// The models of a list of patterns.
pub open spec fn pattern_views(v: Seq<FilenamePattern>) -> Seq<PatternModel> {
    Seq::new(v.len(), |i: int| v[i]@)
}

/// How a pattern is read: an anchor makes a regular expression, a wildcard a glob.
pub open spec fn pattern_kind(raw: Seq<char>) -> FilenamePatternKind {
    if raw.len() > 0 && (raw[0] == '^' || raw.last() == '$') {
        FilenamePatternKind::Regex
    } else if is_wildcard(raw) {
        FilenamePatternKind::Glob
    } else {
        FilenamePatternKind::Exact
    }
}

/// How a pattern is read.
pub fn classify_filename_pattern(raw: &str) -> (r: FilenamePatternKind)
    ensures
        r == pattern_kind(raw@),
{
    let v = chars_of(raw);
    if v.len() > 0 && (v[0] == '^' || v[v.len() - 1] == '$') {
        FilenamePatternKind::Regex
    } else if is_wildcard_pattern(raw) {
        FilenamePatternKind::Glob
    } else {
        FilenamePatternKind::Exact
    }
}

/// How closely a pattern names a file.
#[derive(Debug, Clone, Copy, PartialEq, Eq, Structural)]
pub enum MatchRank {
    Exact,
    Glob,
    Regex,
}

impl MatchRank {
    /// Closer matches come first.
    pub open spec fn order(self) -> int {
        match self {
            MatchRank::Exact => 0,
            MatchRank::Glob => 1,
            MatchRank::Regex => 2,
        }
    }

    /// Whether this match is closer.
    pub fn closer(self, other: MatchRank) -> (r: bool)
        ensures
            r == (self.order() < other.order()),
    {
        match (self, other) {
            (MatchRank::Exact, MatchRank::Exact) => false,
            (MatchRank::Exact, _) => true,
            (MatchRank::Glob, MatchRank::Regex) => true,
            _ => false,
        }
    }
}

/// Whether names are the same, as a file system compares them.
pub open spec fn same_name(left: Seq<char>, right: Seq<char>, ignore_case: bool) -> bool {
    if ignore_case {
        text::lower(left) == text::lower(right)
    } else {
        left == right
    }
}

/// Whether names are the same, as a file system compares them.
pub fn platform_eq(left: &str, right: &str, ignore_case: bool) -> (r: bool)
    ensures
        r == same_name(left@, right@, ignore_case),
{
    if ignore_case {
        same_ignoring_case(left, right)
    } else {
        same(left, right)
    }
}

/// How a pattern fits a file name.
pub open spec fn pattern_rank(pattern: PatternModel, name: Seq<char>, ignore_case: bool) -> Option<
    MatchRank,
> {
    match pattern.kind {
        FilenamePatternKind::Exact => if same_name(pattern.raw, name, ignore_case) {
            Some(MatchRank::Exact)
        } else {
            None
        },
        FilenamePatternKind::Glob => if regex_found(
            platform_glob_regex(pattern.raw, ignore_case),
            name,
        ) {
            Some(MatchRank::Glob)
        } else {
            None
        },
        FilenamePatternKind::Regex => if regex_found(
            if ignore_case {
                ignoring_case(pattern.raw)
            } else {
                pattern.raw
            },
            name,
        ) {
            Some(MatchRank::Regex)
        } else {
            None
        },
    }
}

/// How a pattern fits a file name.
pub fn match_filename_pattern(pattern: &FilenamePattern, name: &str, ignore_case: bool) -> (r:
    Option<MatchRank>)
    ensures
        r == pattern_rank(pattern@, name@, ignore_case),
{
    match pattern.kind {
        FilenamePatternKind::Exact => if platform_eq(&pattern.raw, name, ignore_case) {
            Some(MatchRank::Exact)
        } else {
            None
        },
        FilenamePatternKind::Glob => if glob_matches(&pattern.raw, name, ignore_case) {
            Some(MatchRank::Glob)
        } else {
            None
        },
        FilenamePatternKind::Regex => {
            let found = if ignore_case {
                regex_matches(&concat3("(?i:", &pattern.raw, ")"), name)
            } else {
                regex_matches(&pattern.raw, name)
            };
            if found {
                Some(MatchRank::Regex)
            } else {
                None
            }
        },
    }
}

/// The closer of two matches.
pub open spec fn closer_of(a: Option<MatchRank>, b: Option<MatchRank>) -> Option<MatchRank> {
    match (a, b) {
        (Some(x), Some(y)) => if y.order() < x.order() {
            b
        } else {
            a
        },
        (None, _) => b,
        (_, None) => a,
    }
}

/// The closest match among the first `n` patterns.
pub open spec fn best_rank(
    patterns: Seq<PatternModel>,
    n: int,
    name: Seq<char>,
    ignore_case: bool,
) -> Option<MatchRank>
    decreases n,
{
    if n <= 0 || n > patterns.len() {
        None
    } else {
        closer_of(
            best_rank(patterns, n - 1, name, ignore_case),
            pattern_rank(patterns[n - 1], name, ignore_case),
        )
    }
}

/// The closest match among patterns.
pub fn best_match_rank(patterns: &Vec<FilenamePattern>, name: &str, ignore_case: bool) -> (r:
    Option<MatchRank>)
    ensures
        r == best_rank(pattern_views(patterns@), patterns@.len() as int, name@, ignore_case),
{
    let ghost all = pattern_views(patterns@);
    let mut best: Option<MatchRank> = None;
    let mut i: usize = 0;
    while i < patterns.len()
        invariant
            i <= patterns@.len(),
            all == pattern_views(patterns@),
            best == best_rank(all, i as int, name@, ignore_case),
        decreases patterns@.len() - i,
    {
        let rank = match_filename_pattern(&patterns[i], name, ignore_case);
        best = match (best, rank) {
            (Some(x), Some(y)) => if y.closer(x) {
                Some(y)
            } else {
                Some(x)
            },
            (None, other) => other,
            (other, None) => other,
        };
        i = i + 1;
    }
    best
}

/// A pattern that names the file itself outranks globs and regular expressions.
pub proof fn exact_names_rank_first(
    patterns: Seq<PatternModel>,
    n: int,
    name: Seq<char>,
    ignore_case: bool,
    at: int,
)
    requires
        0 <= at < n <= patterns.len(),
        pattern_rank(patterns[at], name, ignore_case) == Some(MatchRank::Exact),
    ensures
        best_rank(patterns, n, name, ignore_case) == Some(MatchRank::Exact),
    decreases n,
{
    if at < n - 1 {
        exact_names_rank_first(patterns, n - 1, name, ignore_case, at);
    }
}

/// A name becomes a pattern of a regular expression character by character: a star
/// stands for any text and a question mark for any character, brackets stay, and every
/// other character with a meaning of its own loses it.
pub proof fn globs_are_rewritten_by_characters(a: Seq<char>, c: char)
    ensures
        glob_chars(Seq::empty()) == Seq::<char>::empty(),
        glob_chars(a.push(c)) == glob_chars(a) + glob_chars(seq![c]),
        glob_chars(seq!['*']) == seq!['.', '*'],
        glob_chars(seq!['?']) == seq!['.'],
        glob_chars(seq!['[']) == seq!['['],
        glob_chars(seq![']']) == seq![']'],
        glob_chars(seq!['.']) == seq!['\\', '.'],
        glob_chars(seq!['\\']) == seq!['\\', '\\'],
        c == '+' || c == '(' || c == ')' || c == '|' || c == '{' || c == '}' || c == '^' || c == '$'
            || c == '#' || c == '&' || c == '-' || c == '~' ==> glob_chars(seq![c]) == seq![
            '\\',
            c,
        ],
        'a' <= c <= 'z' || 'A' <= c <= 'Z' || '0' <= c <= '9' || c == '_' || c == ' ' || c == '/'
            || c > '~' ==> glob_chars(seq![c]) == seq![c],
{
    reveal_strlit(".*");
    reveal_strlit(".");
    let none = Seq::<char>::empty();
    assert(glob_chars(none) =~= none);
    assert forall|d: char| glob_chars(#[trigger] seq![d]) == glob_char(d) by {
        assert(seq![d].drop_last() =~= none);
        assert(none + glob_char(d) =~= glob_char(d));
    }
    assert(a.push(c).drop_last() =~= a);
    assert(glob_char('*') =~= seq!['.', '*']);
    assert(glob_char('?') =~= seq!['.']);
    assert(glob_chars(a.push(c)) == glob_chars(a) + glob_char(c));
    assert(glob_chars(seq![c]) == glob_char(c));
}

/// The regular expression of a pattern covers the whole name, from its beginning to its
/// end, and stands in a group that ignores case where case is ignored.
pub proof fn globs_cover_whole_names(pattern: Seq<char>, value: Seq<char>)
    ensures
        platform_glob_regex(pattern, false) == seq!['^'] + glob_chars(pattern) + seq!['$'],
        platform_glob_regex(pattern, true) == seq!['(', '?', 'i', ':'] + platform_glob_regex(
            pattern,
            false,
        ) + seq![')'],
        column_fits(pattern, value) == regex_found(platform_glob_regex(pattern, true), value),
{
    reveal_strlit("^");
    reveal_strlit("$");
    reveal_strlit("(?i:");
    reveal_strlit(")");
    assert("^"@ =~= seq!['^']);
    assert("$"@ =~= seq!['$']);
    assert("(?i:"@ =~= seq!['(', '?', 'i', ':']);
    assert(")"@ =~= seq![')']);
}

/// A name is a wildcard exactly where it holds a star, a question mark or an opening
/// bracket, wherever that stands.
pub proof fn wildcards_hold_a_sign(a: Seq<char>, c: char, b: Seq<char>)
    ensures
        c == '*' || c == '?' || c == '[' ==> is_wildcard(a.push(c) + b),
        c != '*' && c != '?' && c != '[' ==> is_wildcard(a.push(c) + b) == is_wildcard(a + b),
        !is_wildcard(Seq::empty()),
{
    let s = a.push(c) + b;
    let t = a + b;
    assert(s[a.len() as int] == c);
    assert forall|d: char| d != c implies (s.contains(d) <==> #[trigger] t.contains(d)) by {
        if s.contains(d) {
            let i = choose|i: int| 0 <= i < s.len() && s[i] == d;
            let k: int = if i < a.len() {
                i
            } else {
                i - 1
            };
            assert(t[k] == d);
        }
        if t.contains(d) {
            let i = choose|i: int| 0 <= i < t.len() && t[i] == d;
            let k: int = if i < a.len() {
                i
            } else {
                i + 1
            };
            assert(s[k] == d);
        }
    }
}

/// How many opening brackets stand among the first `n` characters, less the closing
/// ones.
pub open spec fn bracket_depth(pattern: Seq<char>, n: int) -> int
    decreases n,
{
    if n <= 0 || n > pattern.len() {
        0
    } else if pattern[n - 1] == '[' {
        bracket_depth(pattern, n - 1) + 1
    } else if pattern[n - 1] == ']' {
        bracket_depth(pattern, n - 1) - 1
    } else {
        bracket_depth(pattern, n - 1)
    }
}

/// The brackets of a pattern are in order exactly where at every place at most one is
/// open, none is closed before it was opened, and all are closed in the end.
pub proof fn brackets_open_and_close(pattern: Seq<char>)
    ensures
        bracket_fault(pattern, 0, false) is None <==> (bracket_depth(pattern, pattern.len() as int)
            == 0 && forall|n: int|
            0 <= n <= pattern.len() ==> 0 <= #[trigger] bracket_depth(pattern, n) <= 1),
{
    lemma_brackets(pattern, 0, false);
}

proof fn lemma_brackets(pattern: Seq<char>, i: int, open: bool)
    requires
        0 <= i <= pattern.len(),
        bracket_depth(pattern, i) == if open {
            1int
        } else {
            0
        },
        forall|n: int| 0 <= n <= i ==> 0 <= #[trigger] bracket_depth(pattern, n) <= 1,
    ensures
        bracket_fault(pattern, i, open) is None <==> (bracket_depth(pattern, pattern.len() as int)
            == 0 && forall|n: int|
            0 <= n <= pattern.len() ==> 0 <= #[trigger] bracket_depth(pattern, n) <= 1),
    decreases pattern.len() - i,
{
    if i < pattern.len() {
        let depth = bracket_depth(pattern, i + 1);
        assert(depth == bracket_depth(pattern, i) + if pattern[i] == '[' {
            1int
        } else if pattern[i] == ']' {
            -1int
        } else {
            0
        });
        if 0 <= depth <= 1 {
            lemma_brackets(pattern, i + 1, depth == 1);
        } else {
            assert(!(0 <= bracket_depth(pattern, i + 1) <= 1));
        }
    }
}

/// A pattern is the more specific the more characters it holds that stand for
/// themselves.
pub proof fn plain_characters_make_specific(pattern: Seq<char>, c: char)
    ensures
        specificity(Seq::empty()) == 0,
        c == '*' || c == '?' || c == '[' || c == ']' ==> specificity(pattern.push(c))
            == specificity(pattern),
        c != '*' && c != '?' && c != '[' && c != ']' ==> specificity(pattern.push(c))
            == specificity(pattern) + 1,
{
    assert(pattern.push(c).drop_last() =~= pattern);
}

/// A pattern with the sign of a beginning in front or of an end behind is a regular
/// expression, any other with a wildcard a glob, and the rest are names.
pub proof fn patterns_show_their_kind(raw: Seq<char>)
    ensures
        pattern_kind(seq!['^'] + raw) is Regex,
        pattern_kind(raw.push('$')) is Regex,
        pattern_kind(raw) is Regex ==> raw[0] == '^' || raw.last() == '$',
        pattern_kind(raw) is Glob ==> raw.contains('*') || raw.contains('?') || raw.contains('['),
        pattern_kind(raw) is Exact ==> !raw.contains('*') && !raw.contains('?') && !raw.contains(
            '[',
        ),
{
    assert((seq!['^'] + raw)[0] == '^');
}

/// Names are the same where their characters are, apart from case where it is ignored.
pub proof fn names_are_compared_by_characters(a: Seq<char>, b: Seq<char>)
    ensures
        same_name(a, b, false) <==> a == b,
        same_name(a, a, true),
        same_name(a, b, true) == same_name(b, a, true),
        same_name(a, text::lower(a), true),
        same_name(a, b, true) ==> a.len() == b.len(),
{
    text::lowering_changes_capitals_alone(a, 'a');
    text::lowering_changes_capitals_alone(b, 'a');
}

/// Each kind of pattern matches in its own way and gives the rank of its name: a name
/// by being the same, a glob and a regular expression by being found.
pub proof fn patterns_rank_by_their_kind(pattern: PatternModel, name: Seq<char>, ignore_case: bool)
    ensures
        pattern.kind is Exact ==> (pattern_rank(pattern, name, ignore_case) == Some(
            MatchRank::Exact,
        ) <==> same_name(pattern.raw, name, ignore_case)),
        pattern.kind is Glob ==> (pattern_rank(pattern, name, ignore_case) == Some(MatchRank::Glob)
            <==> regex_found(platform_glob_regex(pattern.raw, ignore_case), name)),
        pattern.kind is Regex && !ignore_case ==> (pattern_rank(pattern, name, ignore_case) == Some(
            MatchRank::Regex,
        ) <==> regex_found(pattern.raw, name)),
        pattern.kind is Regex && ignore_case ==> (pattern_rank(pattern, name, ignore_case) == Some(
            MatchRank::Regex,
        ) <==> regex_found(seq!['(', '?', 'i', ':'] + pattern.raw + seq![')'], name)),
        pattern_rank(pattern, name, ignore_case) matches Some(MatchRank::Exact)
            ==> pattern.kind is Exact,
        pattern_rank(pattern, name, ignore_case) matches Some(MatchRank::Glob)
            ==> pattern.kind is Glob,
        pattern_rank(pattern, name, ignore_case) matches Some(MatchRank::Regex)
            ==> pattern.kind is Regex,
{
    globs_cover_whole_names(pattern.raw, name);
    reveal_strlit("(?i:");
    reveal_strlit(")");
    assert("(?i:"@ =~= seq!['(', '?', 'i', ':']);
    assert(")"@ =~= seq![')']);
}

/// The best rank of a list of patterns is the rank of one of them, and none of them has
/// a better one: names come before globs, and globs before regular expressions.
pub proof fn best_rank_is_the_closest(
    patterns: Seq<PatternModel>,
    n: int,
    name: Seq<char>,
    ignore_case: bool,
)
    requires
        0 <= n <= patterns.len(),
    ensures
        best_rank(patterns, n, name, ignore_case) is None <==> forall|i: int|
            0 <= i < n ==> pattern_rank(#[trigger] patterns[i], name, ignore_case) is None,
        best_rank(patterns, n, name, ignore_case) matches Some(MatchRank::Glob) ==> forall|i: int|
            0 <= i < n ==> pattern_rank(#[trigger] patterns[i], name, ignore_case) != Some(
                MatchRank::Exact,
            ),
        best_rank(patterns, n, name, ignore_case) matches Some(MatchRank::Regex) ==> forall|i: int|
            0 <= i < n ==> pattern_rank(#[trigger] patterns[i], name, ignore_case) is None
                || pattern_rank(patterns[i], name, ignore_case) == Some(MatchRank::Regex),
        best_rank(patterns, n, name, ignore_case) is Some ==> exists|i: int|
            0 <= i < n && pattern_rank(#[trigger] patterns[i], name, ignore_case) == best_rank(
                patterns,
                n,
                name,
                ignore_case,
            ),
    decreases n,
{
    if n > 0 {
        best_rank_is_the_closest(patterns, n - 1, name, ignore_case);
        let before = best_rank(patterns, n - 1, name, ignore_case);
        let now = best_rank(patterns, n, name, ignore_case);
        let last = pattern_rank(patterns[n - 1], name, ignore_case);
        if now is Some && now != last {
            let i = choose|i: int|
                0 <= i < n - 1 && pattern_rank(#[trigger] patterns[i], name, ignore_case) == before;
            assert(pattern_rank(patterns[i], name, ignore_case) == now);
        }
    }
}

} // verus!
