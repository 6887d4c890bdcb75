//! Comments in view files, and how they are kept when a view is saved again.

use vstd::prelude::*;
use vstd::string::*;

use crate::text::{
    self, chars_of, concat2, concat3, decimal_of_usize, digit, join, lines_of, same,
    split_at_first, split_at_last, starts_with_char, string_of_range, strip_prefix, strip_suffix,
    trim, trim_end, trim_start, white,
};

verus! {

// ---------------------------------------------------------------------------
// Comments in a line
// ---------------------------------------------------------------------------

/// Where the comment of a line starts, looked for from `i` on. A mark inside quotes
/// starts none, and a line that is a comment as a whole has none.
pub open spec fn comment_start(
    line: Seq<char>,
    i: int,
    single: bool,
    double: bool,
    escaped: bool,
) -> Option<int>
    decreases line.len() - i,
{
    if i < 0 || i >= line.len() {
        None
    } else if line[i] == '\\' && double && !escaped {
        comment_start(line, i + 1, single, double, true)
    } else if line[i] == '\'' && !double {
        comment_start(line, i + 1, !single, double, false)
    } else if line[i] == '"' && !single && !escaped {
        comment_start(line, i + 1, single, !double, false)
    } else if line[i] == '#' && !single && !double {
        if text::trimmed(line.take(i)).len() == 0 {
            None
        } else {
            Some(i)
        }
    } else {
        comment_start(line, i + 1, single, double, false)
    }
}

/// What a line holds before its comment, and the comment.
pub open spec fn line_comment(line: Seq<char>) -> Option<(Seq<char>, Seq<char>)> {
    match comment_start(line, 0, false, false, false) {
        Some(i) => Some((text::drop_white(line.take(i)), line.skip(i))),
        None => None,
    }
}

/// What a line holds before its comment, and the comment.
pub fn split_yaml_inline_comment(line: &str) -> (r: Option<(String, String)>)
    ensures
        text::pair_view(r) == line_comment(line@),
{
    let chars = chars_of(line);
    let mut single = false;
    let mut double = false;
    let mut escaped = false;
    let mut i: usize = 0;
    while i < chars.len()
        invariant
            i <= chars@.len(),
            chars@ == line@,
            comment_start(line@, 0, false, false, false) == comment_start(
                line@,
                i as int,
                single,
                double,
                escaped,
            ),
        decreases chars@.len() - i,
    {
        let c = chars[i];
        if c == '\\' && double && !escaped {
            escaped = true;
        } else if c == '\'' && !double {
            single = !single;
            escaped = false;
        } else if c == '"' && !single && !escaped {
            double = !double;
            escaped = false;
        } else if c == '#' && !single && !double {
            let content = string_of_range(&chars, 0, i);
            assert(content@ =~= line@.take(i as int));
            if trim(&content).as_str().is_empty() {
                return None;
            }
            let comment = string_of_range(&chars, i, chars.len());
            assert(comment@ =~= line@.skip(i as int));
            return Some((trim_end(&content), comment));
        } else {
            escaped = false;
        }
        i = i + 1;
    }
    None
}

// ---------------------------------------------------------------------------
// Paths of lines
// ---------------------------------------------------------------------------

/// How many bytes a character takes in UTF-8.
pub open spec fn char_bytes(c: char) -> nat {
    if (c as u32) < 0x80 {
        1
    } else if (c as u32) < 0x800 {
        2
    } else if (c as u32) < 0x10000 {
        3
    } else {
        4
    }
}

/// How many bytes of white space a line begins with, as far as they can be counted.
pub open spec fn indent_of(line: Seq<char>) -> nat
    decreases line.len(),
{
    if line.len() > 0 && text::is_white(line[0]) {
        let more = char_bytes(line[0]) + indent_of(line.skip(1));
        if more > usize::MAX {
            usize::MAX as nat
        } else {
            more
        }
    } else {
        0
    }
}

fn bytes_of_char(c: char) -> (r: usize)
    ensures
        r == char_bytes(c),
{
    let n: u32 = c as u32;
    if n < 0x80 {
        1
    } else if n < 0x800 {
        2
    } else if n < 0x10000 {
        3
    } else {
        4
    }
}

fn line_indent(line: &str) -> (r: usize)
    ensures
        r == indent_of(line@),
{
    let chars = chars_of(line);
    let mut n: usize = 0;
    assert(chars@.skip(0) =~= chars@);
    while n < chars.len() && white(chars[n])
        invariant
            n <= chars@.len(),
            forall|k: int| 0 <= k < n ==> text::is_white(#[trigger] chars@[k]),
        decreases chars@.len() - n,
    {
        n = n + 1;
    }
    let ghost end = n as int;
    let mut indent: usize = 0;
    assert(chars@.skip(end).len() > 0 ==> chars@.skip(end)[0] == chars@[end]);
    while n > 0
        invariant
            n <= end <= chars@.len(),
            forall|k: int| 0 <= k < end ==> text::is_white(#[trigger] chars@[k]),
            indent == indent_of(chars@.skip(n as int)),
        decreases n,
    {
        n = n - 1;
        assert(chars@.skip(n as int)[0] == chars@[n as int]);
        assert(chars@.skip(n as int).skip(1) =~= chars@.skip(n + 1));
        indent = indent.saturating_add(bytes_of_char(chars[n]));
    }
    assert(chars@.skip(0) =~= chars@);
    indent
}

/// A key without white space around it and without the quotes it stands in.
pub open spec fn path_key(key: Seq<char>) -> Seq<char> {
    let bare = text::trimmed(key);
    match unquoted(bare, "\""@) {
        Some(inner) => inner,
        None => match unquoted(bare, "'"@) {
            Some(inner) => inner,
            None => bare,
        },
    }
}

/// What stands between two quotes.
pub open spec fn unquoted(text: Seq<char>, quote: Seq<char>) -> Option<Seq<char>> {
    match text::without_prefix(text, quote) {
        Some(rest) => text::without_suffix(rest, quote),
        None => None,
    }
}

fn strip_quotes(text: &str, quote: &str) -> (r: Option<String>)
    ensures
        text::opt_view(r) == unquoted(text@, quote@),
{
    match strip_prefix(text, quote) {
        Some(rest) => strip_suffix(&rest, quote),
        None => None,
    }
}

/// A key without white space around it and without the quotes it stands in.
pub fn saved_view_yaml_path_key(key: &str) -> (r: String)
    ensures
        r@ == path_key(key@),
{
    let bare = trim(key);
    match strip_quotes(&bare, "\"") {
        Some(inner) => inner,
        None => match strip_quotes(&bare, "'") {
            Some(inner) => inner,
            None => bare,
        },
    }
}

/// Follows the lines of a view file: the keys that a line stands under, each with
/// its indent, and how many items each list had so far.
#[derive(Debug)]
pub struct SavedViewYamlPathTracker {
    pub stack: Vec<(usize, String)>,
    pub sequence_indices: Vec<(String, usize)>,
}

/// The model of what is followed.
pub struct TrackerModel {
    pub stack: Seq<(usize, Seq<char>)>,
    pub indices: Seq<(Seq<char>, usize)>,
}

/// The keys that a line stands under.
pub open spec fn stack_view(stack: Seq<(usize, String)>) -> Seq<(usize, Seq<char>)> {
    Seq::new(stack.len(), |i: int| (stack[i].0, stack[i].1@))
}

/// The items of lists.
pub open spec fn indices_view(indices: Seq<(String, usize)>) -> Seq<(Seq<char>, usize)> {
    Seq::new(indices.len(), |i: int| (indices[i].0@, indices[i].1))
}

impl View for SavedViewYamlPathTracker {
    type V = TrackerModel;

    open spec fn view(&self) -> TrackerModel {
        TrackerModel {
            stack: stack_view(self.stack@),
            indices: indices_view(self.sequence_indices@),
        }
    }
}

/// Before the first line.
pub open spec fn fresh_tracker() -> TrackerModel {
    TrackerModel { stack: Seq::empty(), indices: Seq::empty() }
}

impl Default for SavedViewYamlPathTracker {
    fn default() -> (r: Self)
        ensures
            r@ == fresh_tracker(),
    {
        let r = SavedViewYamlPathTracker { stack: Vec::new(), sequence_indices: Vec::new() };
        assert(r@.stack =~= Seq::empty());
        assert(r@.indices =~= Seq::empty());
        r
    }
}

/// The keys of a stack.
pub open spec fn stack_keys(stack: Seq<(usize, Seq<char>)>) -> Seq<Seq<char>> {
    Seq::new(stack.len(), |i: int| stack[i].1)
}

/// The path of the keys that a line stands under.
pub open spec fn stack_path(stack: Seq<(usize, Seq<char>)>) -> Seq<char> {
    text::joined(stack_keys(stack), "."@)
}

/// The first `n` keys that stand further left than a line.
pub open spec fn left_of(stack: Seq<(usize, Seq<char>)>, indent: nat, n: int) -> Seq<
    (usize, Seq<char>),
>
    decreases n,
{
    if n <= 0 || n > stack.len() {
        Seq::empty()
    } else if stack[n - 1].0 < indent {
        left_of(stack, indent, n - 1).push(stack[n - 1])
    } else {
        left_of(stack, indent, n - 1)
    }
}

/// How many items the list at a path had, looked for from `from` on.
pub open spec fn items_at(indices: Seq<(Seq<char>, usize)>, path: Seq<char>, from: int) -> usize
    decreases indices.len() - from,
{
    if from < 0 || from >= indices.len() {
        0
    } else if indices[from].0 == path {
        indices[from].1
    } else {
        items_at(indices, path, from + 1)
    }
}

/// One more item, as far as they can be counted.
pub open spec fn one_more(n: usize) -> usize {
    if n < usize::MAX {
        (n + 1) as usize
    } else {
        n
    }
}

/// The counts with one more item at a path, looked for from `from` on.
pub open spec fn with_item(indices: Seq<(Seq<char>, usize)>, path: Seq<char>, from: int) -> Seq<
    (Seq<char>, usize),
>
    decreases indices.len() - from,
{
    if from < 0 || from >= indices.len() {
        indices.push((path, 1))
    } else if indices[from].0 == path {
        indices.update(from, (path, one_more(indices[from].1)))
    } else {
        with_item(indices, path, from + 1)
    }
}

/// What follows a key and its value: the path of the key, under which the next lines
/// stand if it has no value.
pub open spec fn after_mapping(tracker: TrackerModel, content: Seq<char>) -> (
    TrackerModel,
    Option<Seq<char>>,
) {
    match text::split_once(content, ':') {
        None => (tracker, None),
        Some((key, value)) => {
            let name = path_key(key);
            if name.len() == 0 {
                (tracker, None)
            } else {
                let above = stack_path(tracker.stack);
                let path = if above.len() == 0 {
                    name
                } else {
                    above + "."@ + name
                };
                if text::trimmed(value).len() == 0 {
                    let indent: usize = if tracker.stack.len() == 0 {
                        0
                    } else if tracker.stack.last().0 > usize::MAX - 2 {
                        usize::MAX
                    } else {
                        (tracker.stack.last().0 + 2) as usize
                    };
                    (
                        TrackerModel { stack: tracker.stack.push((indent, name)), ..tracker },
                        Some(path),
                    )
                } else {
                    (tracker, Some(path))
                }
            }
        },
    }
}

/// What follows a line without its comment.
pub open spec fn after_content(tracker: TrackerModel, content: Seq<char>) -> (
    TrackerModel,
    Option<Seq<char>>,
) {
    let text = text::skip_white(content);
    if text.len() == 0 || text[0] == '#' {
        (tracker, None)
    } else {
        let indent = indent_of(content);
        let stack = left_of(tracker.stack, indent, tracker.stack.len() as int);
        match text::without_prefix(text, "- "@) {
            Some(rest) => {
                let parent = stack_path(stack);
                let index = text::decimal(items_at(tracker.indices, parent, 0) as nat);
                let entered = TrackerModel {
                    stack: stack.push((indent as usize, index)),
                    indices: with_item(tracker.indices, parent, 0),
                };
                let (next, path) = after_mapping(entered, rest);
                match path {
                    Some(path) => (next, Some(path)),
                    None => (next, Some(stack_path(next.stack))),
                }
            },
            None => after_mapping(TrackerModel { stack, ..tracker }, text),
        }
    }
}

/// A line without its comment.
pub open spec fn line_content(line: Seq<char>) -> Seq<char> {
    match line_comment(line) {
        Some((content, _)) => content,
        None => line,
    }
}

proof fn lemma_stack_push(stack: Seq<(usize, String)>, item: (usize, String))
    ensures
        stack_view(stack.push(item)) == stack_view(stack).push((item.0, item.1@)),
{
    assert(stack_view(stack.push(item)) =~= stack_view(stack).push((item.0, item.1@)));
}

impl SavedViewYamlPathTracker {
    fn current_path(&self) -> (r: String)
        ensures
            r@ == stack_path(self@.stack),
    {
        let mut keys: Vec<String> = Vec::new();
        let mut i: usize = 0;
        while i < self.stack.len()
            invariant
                i <= self.stack@.len(),
                keys@.len() == i,
                forall|k: int| 0 <= k < i ==> (#[trigger] keys@[k])@ == self.stack@[k].1@,
            decreases self.stack@.len() - i,
        {
            keys.push(self.stack[i].1.clone());
            i = i + 1;
        }
        assert(text::views(keys@) =~= stack_keys(self@.stack));
        join(&keys, ".")
    }

    fn leave(&mut self, indent: usize)
        ensures
            final(self)@ == (TrackerModel {
                stack: left_of(old(self)@.stack, indent as nat, old(self)@.stack.len() as int),
                ..old(self)@
            }),
    {
        let ghost all = self@.stack;
        let mut kept: Vec<(usize, String)> = Vec::new();
        let mut i: usize = 0;
        assert(stack_view(kept@) =~= left_of(all, indent as nat, 0));
        while i < self.stack.len()
            invariant
                i <= self.stack@.len(),
                all == stack_view(self.stack@),
                stack_view(kept@) == left_of(all, indent as nat, i as int),
            decreases self.stack@.len() - i,
        {
            if self.stack[i].0 < indent {
                let item = (self.stack[i].0, self.stack[i].1.clone());
                proof {
                    lemma_stack_push(kept@, item);
                }
                kept.push(item);
            }
            i = i + 1;
        }
        self.stack = kept;
    }

    fn count_item(&mut self, path: &str) -> (r: usize)
        ensures
            r == items_at(old(self)@.indices, path@, 0),
            final(self)@ == (TrackerModel {
                indices: with_item(old(self)@.indices, path@, 0),
                ..old(self)@
            }),
    {
        let ghost all = self@.indices;
        let mut i: usize = 0;
        while i < self.sequence_indices.len()
            invariant
                i <= self.sequence_indices@.len(),
                all == indices_view(self.sequence_indices@),
                all == old(self)@.indices,
                self.stack == old(self).stack,
                items_at(all, path@, 0) == items_at(all, path@, i as int),
                with_item(all, path@, 0) == with_item(all, path@, i as int),
            decreases self.sequence_indices@.len() - i,
        {
            assert(all[i as int] == (
                self.sequence_indices@[i as int].0@,
                self.sequence_indices@[i as int].1,
            ));
            if same(&self.sequence_indices[i].0, path) {
                let n: usize = self.sequence_indices[i].1;
                let next: usize = n.saturating_add(1);
                self.sequence_indices.set(i, (path.to_owned(), next));
                assert(indices_view(self.sequence_indices@) =~= all.update(
                    i as int,
                    (path@, one_more(n)),
                ));
                return n;
            }
            i = i + 1;
        }
        self.sequence_indices.push((path.to_owned(), 1));
        assert(indices_view(self.sequence_indices@) =~= all.push((path@, 1)));
        0
    }

    fn enter(&mut self, indent: usize, key: String)
        ensures
            final(self)@ == (TrackerModel {
                stack: old(self)@.stack.push((indent, key@)),
                ..old(self)@
            }),
    {
        proof {
            lemma_stack_push(self.stack@, (indent, key));
        }
        self.stack.push((indent, key));
    }

    fn path_for_mapping(&mut self, content: &str) -> (r: Option<String>)
        ensures
            (final(self)@, text::opt_view(r)) == after_mapping(old(self)@, content@),
    {
        let (key, value) = match split_at_first(content, ':') {
            Some(pair) => pair,
            None => {
                return None;
            },
        };
        let name = saved_view_yaml_path_key(&key);
        if name.as_str().is_empty() {
            return None;
        }
        let above = self.current_path();
        let path = if above.as_str().is_empty() {
            name.clone()
        } else {
            concat3(&above, ".", &name)
        };
        if trim(&value).as_str().is_empty() {
            let depth: usize = self.stack.len();
            let indent: usize = if depth == 0 {
                0
            } else {
                self.stack[depth - 1].0.saturating_add(2)
            };
            assert(depth > 0 ==> self@.stack.last().0 == self.stack@[depth - 1].0);
            self.enter(indent, name);
        }
        Some(path)
    }

    /// The path of a line without its comment.
    pub fn path_for_content(&mut self, content: &str) -> (r: Option<String>)
        ensures
            (final(self)@, text::opt_view(r)) == after_content(old(self)@, content@),
    {
        let text = trim_start(content);
        if text.as_str().is_empty() || starts_with_char(&text, '#') {
            return None;
        }
        let indent: usize = line_indent(content);
        self.leave(indent);
        match strip_prefix(&text, "- ") {
            Some(rest) => {
                let parent = self.current_path();
                let index: usize = self.count_item(&parent);
                self.enter(indent, decimal_of_usize(index));
                match self.path_for_mapping(&rest) {
                    Some(path) => Some(path),
                    None => Some(self.current_path()),
                }
            },
            None => self.path_for_mapping(&text),
        }
    }

    /// The path of a line.
    pub fn path_for_line(&mut self, line: &str) -> (r: Option<String>)
        ensures
            (final(self)@, text::opt_view(r)) == after_content(old(self)@, line_content(line@)),
    {
        match split_yaml_inline_comment(line) {
            Some((content, _)) => self.path_for_content(&content),
            None => self.path_for_content(line),
        }
    }
}

// ---------------------------------------------------------------------------
// Comments of a file
// ---------------------------------------------------------------------------

/// A text that holds nothing but digits.
pub open spec fn only_digits(s: Seq<char>) -> bool {
    forall|i: int| 0 <= i < s.len() ==> text::is_digit(#[trigger] s[i])
}

/// The path that stands for any item of the list that an item belongs to.
pub open spec fn wildcard_path(path: Seq<char>) -> Option<Seq<char>> {
    match text::rsplit_once(path, '.') {
        Some((prefix, suffix)) => if only_digits(suffix) {
            Some(prefix + ".*"@)
        } else {
            None
        },
        None => None,
    }
}

fn has_only_digits(s: &str) -> (r: bool)
    ensures
        r == only_digits(s@),
{
    let chars = chars_of(s);
    let mut i: usize = 0;
    while i < chars.len()
        invariant
            i <= chars@.len(),
            chars@ == s@,
            forall|k: int| 0 <= k < i ==> text::is_digit(#[trigger] chars@[k]),
        decreases chars@.len() - i,
    {
        if !digit(chars[i]) {
            return false;
        }
        i = i + 1;
    }
    true
}

/// The path that stands for any item of the list that an item belongs to.
pub fn saved_view_sequence_wildcard_path(path: &str) -> (r: Option<String>)
    ensures
        text::opt_view(r) == wildcard_path(path@),
{
    match split_at_last(path, '.') {
        Some((prefix, suffix)) => if has_only_digits(&suffix) {
            Some(concat2(&prefix, ".*"))
        } else {
            None
        },
        None => None,
    }
}

/// The comments of a file, each with its path. A later one counts.
pub open spec fn comments_view(comments: Seq<(String, String)>) -> Seq<(Seq<char>, Seq<char>)> {
    Seq::new(comments.len(), |i: int| (comments[i].0@, comments[i].1@))
}

/// What has been read of a file: where it is, and the comments.
pub struct ReadComments {
    pub tracker: TrackerModel,
    pub comments: Seq<(Seq<char>, Seq<char>)>,
}

/// The comments with that of a path, and of the items beside it.
pub open spec fn with_comment(
    comments: Seq<(Seq<char>, Seq<char>)>,
    path: Seq<char>,
    comment: Seq<char>,
) -> Seq<(Seq<char>, Seq<char>)> {
    match wildcard_path(path) {
        Some(any) => comments.push((any, comment)).push((path, comment)),
        None => comments.push((path, comment)),
    }
}

/// What has been read of a file after its first `n` lines.
pub open spec fn comments_read(lines: Seq<Seq<char>>, n: int) -> ReadComments
    decreases n,
{
    if n <= 0 || n > lines.len() {
        ReadComments { tracker: fresh_tracker(), comments: Seq::empty() }
    } else {
        let before = comments_read(lines, n - 1);
        let line = lines[n - 1];
        let (tracker, path) = after_content(before.tracker, line_content(line));
        match (line_comment(line), path) {
            (Some((_, comment)), Some(path)) => ReadComments {
                tracker,
                comments: with_comment(before.comments, path, text::trimmed(comment)),
            },
            _ => ReadComments { tracker, ..before },
        }
    }
}

/// The comments behind the lines of a file, each with the path of its line.
pub fn saved_view_inline_comments(existing: &str) -> (r: Vec<(String, String)>)
    ensures
        comments_view(r@) == comments_read(
            text::lines(existing@),
            text::lines(existing@).len() as int,
        ).comments,
{
    let file = lines_of(existing);
    let ghost all = text::lines(existing@);
    let mut tracker = SavedViewYamlPathTracker::default();
    let mut comments: Vec<(String, String)> = Vec::new();
    let mut i: usize = 0;
    assert(comments_view(comments@) =~= Seq::empty());
    while i < file.len()
        invariant
            i <= file@.len(),
            all == text::views(file@),
            tracker@ == comments_read(all, i as int).tracker,
            comments_view(comments@) == comments_read(all, i as int).comments,
        decreases file@.len() - i,
    {
        assert(all[i as int] == file@[i as int]@);
        match split_yaml_inline_comment(&file[i]) {
            None => {
                let _ = tracker.path_for_line(&file[i]);
            },
            Some((content, comment)) => {
                if let Some(path) = tracker.path_for_content(&content) {
                    let text = trim(&comment);
                    let ghost before = comments@;
                    if let Some(any) = saved_view_sequence_wildcard_path(&path) {
                        comments.push((any, text.clone()));
                        assert(comments_view(comments@) =~= comments_view(before).push(
                            (any@, text@),
                        ));
                    }
                    let ghost middle = comments@;
                    comments.push((path, text));
                    assert(comments_view(comments@) =~= comments_view(middle).push((path@, text@)));
                }
            },
        }
        i = i + 1;
    }
    comments
}

/// The last comment of a path among the first `n`.
pub open spec fn comment_at(comments: Seq<(Seq<char>, Seq<char>)>, path: Seq<char>, n: int) -> Option<
    Seq<char>,
>
    decreases n,
{
    if n <= 0 || n > comments.len() {
        None
    } else if comments[n - 1].0 == path {
        Some(comments[n - 1].1)
    } else {
        comment_at(comments, path, n - 1)
    }
}

/// The comment for a path: its own, or that of the items beside it.
pub open spec fn comment_for(comments: Seq<(Seq<char>, Seq<char>)>, path: Seq<char>) -> Option<
    Seq<char>,
> {
    match comment_at(comments, path, comments.len() as int) {
        Some(comment) => Some(comment),
        None => match wildcard_path(path) {
            Some(any) => comment_at(comments, any, comments.len() as int),
            None => None,
        },
    }
}

fn find_comment(comments: &Vec<(String, String)>, path: &str) -> (r: Option<String>)
    ensures
        text::opt_view(r) == comment_at(comments_view(comments@), path@, comments@.len() as int),
{
    let ghost all = comments_view(comments@);
    let mut n: usize = comments.len();
    while n > 0
        invariant
            n <= comments@.len(),
            all == comments_view(comments@),
            comment_at(all, path@, comments@.len() as int) == comment_at(all, path@, n as int),
        decreases n,
    {
        assert(all[n - 1] == (comments@[n - 1].0@, comments@[n - 1].1@));
        if same(&comments[n - 1].0, path) {
            return Some(comments[n - 1].1.clone());
        }
        n = n - 1;
    }
    None
}

fn comment_of(comments: &Vec<(String, String)>, path: &str) -> (r: Option<String>)
    ensures
        text::opt_view(r) == comment_for(comments_view(comments@), path@),
{
    match find_comment(comments, path) {
        Some(comment) => Some(comment),
        None => match saved_view_sequence_wildcard_path(path) {
            Some(any) => find_comment(comments, &any),
            None => None,
        },
    }
}

/// A line with a comment behind it, if there is one for its path.
pub open spec fn commented(
    line: Seq<char>,
    path: Option<Seq<char>>,
    comments: Seq<(Seq<char>, Seq<char>)>,
) -> Seq<char> {
    match path {
        Some(path) => match comment_for(comments, path) {
            Some(comment) => line.push(' ') + comment,
            None => line,
        },
        None => line,
    }
}

/// Where a file is after its first `n` lines.
pub open spec fn tracker_after(lines: Seq<Seq<char>>, n: int) -> TrackerModel
    decreases n,
{
    if n <= 0 || n > lines.len() {
        fresh_tracker()
    } else {
        after_content(tracker_after(lines, n - 1), line_content(lines[n - 1])).0
    }
}

/// The path of a line of a file.
pub open spec fn line_path(lines: Seq<Seq<char>>, i: int) -> Option<Seq<char>> {
    after_content(tracker_after(lines, i), line_content(lines[i])).1
}

/// The first `n` lines with their comments, each ended.
pub open spec fn commented_lines(
    lines: Seq<Seq<char>>,
    n: int,
    comments: Seq<(Seq<char>, Seq<char>)>,
) -> Seq<char>
    decreases n,
{
    if n <= 0 || n > lines.len() {
        Seq::empty()
    } else {
        (commented_lines(lines, n - 1, comments) + commented(
            lines[n - 1],
            line_path(lines, n - 1),
            comments,
        )).push('\n')
    }
}

/// A text with comments behind the lines whose paths have one.
pub fn apply_saved_view_inline_comments(yaml: &str, comments: &Vec<(String, String)>) -> (r: String)
    ensures
        r@ == commented_lines(
            text::lines(yaml@),
            text::lines(yaml@).len() as int,
            comments_view(comments@),
        ),
{
    let file = lines_of(yaml);
    let ghost all = text::lines(yaml@);
    let ghost known = comments_view(comments@);
    let mut tracker = SavedViewYamlPathTracker::default();
    let mut out = String::new();
    let mut i: usize = 0;
    assert(out@ =~= Seq::<char>::empty());
    while i < file.len()
        invariant
            i <= file@.len(),
            all == text::views(file@),
            known == comments_view(comments@),
            tracker@ == tracker_after(all, i as int),
            out@ == commented_lines(all, i as int, known),
        decreases file@.len() - i,
    {
        assert(all[i as int] == file@[i as int]@);
        let mut line = file[i].clone();
        if let Some(path) = tracker.path_for_line(&line) {
            if let Some(comment) = comment_of(comments, &path) {
                line.push(' ');
                line.append(&comment);
            }
        }
        out.append(&line);
        out.push('\n');
        i = i + 1;
    }
    out
}

/// Whether a line is blank or a comment as a whole.
pub open spec fn is_comment_line(line: Seq<char>) -> bool {
    text::trimmed(line).len() == 0 || (text::skip_white(line).len() > 0 && text::skip_white(line)[0] == '#')
}

/// How many lines from `n` on are blank or comments before the first other one.
pub open spec fn header_end(lines: Seq<Seq<char>>, n: int) -> int
    decreases lines.len() - n,
{
    if n < 0 || n >= lines.len() || !is_comment_line(lines[n]) {
        n
    } else {
        header_end(lines, n + 1)
    }
}

/// The comments above the first line of a file.
pub open spec fn header_block(text: Seq<char>) -> Seq<char> {
    text::joined(text::lines(text).take(header_end(text::lines(text), 0)), "\n"@)
}

/// The comments above the first line of a file.
pub fn saved_view_header_comment_block(existing: &str) -> (r: String)
    ensures
        r@ == header_block(existing@),
{
    let file = lines_of(existing);
    let ghost all = text::lines(existing@);
    let mut header: Vec<String> = Vec::new();
    let mut i: usize = 0;
    assert(text::views(header@) =~= all.take(0));
    while i < file.len()
        invariant
            i <= file@.len(),
            all == text::views(file@),
            all == text::lines(existing@),
            text::views(header@) == all.take(i as int),
            header_end(all, 0) == header_end(all, i as int),
        decreases file@.len() - i,
    {
        assert(all[i as int] == file@[i as int]@);
        let marked = starts_with_char(&trim_start(&file[i]), '#');
        if !trim(&file[i]).as_str().is_empty() && !marked {
            return join(&header, "\n");
        }
        proof {
            text::lemma_views_push(header@, file@[i as int]);
            assert(all.take(i + 1) =~= all.take(i as int).push(all[i as int]));
        }
        header.push(file[i].clone());
        i = i + 1;
    }
    join(&header, "\n")
}

/// A text with the comments of a file that it replaces.
pub open spec fn merged_comments(existing: Seq<char>, yaml: Seq<char>) -> Seq<char> {
    let comments = comments_read(text::lines(existing), text::lines(existing).len() as int).comments;
    let body = commented_lines(text::lines(yaml), text::lines(yaml).len() as int, comments);
    if header_block(existing).len() == 0 {
        body
    } else {
        header_block(existing) + "\n"@ + body
    }
}

/// A text with the comments of a file that it replaces.
pub fn merge_saved_view_comments(existing: &str, yaml: &str) -> (r: String)
    ensures
        r@ == merged_comments(existing@, yaml@),
{
    let header = saved_view_header_comment_block(existing);
    let comments = saved_view_inline_comments(existing);
    let body = apply_saved_view_inline_comments(yaml, &comments);
    if header.as_str().is_empty() {
        body
    } else {
        concat3(&header, "\n", &body)
    }
}

// ---------------------------------------------------------------------------
// Laws
// ---------------------------------------------------------------------------

/// A comment is only ever put behind a line: the line itself stays as it is.
pub proof fn comments_follow_their_lines(
    line: Seq<char>,
    path: Option<Seq<char>>,
    comments: Seq<(Seq<char>, Seq<char>)>,
)
    ensures
        text::has_prefix(commented(line, path, comments), line),
{
    assert(commented(line, path, comments).take(line.len() as int) =~= line);
}

proof fn lemma_read_tracker(lines: Seq<Seq<char>>, n: int)
    requires
        0 <= n <= lines.len(),
    ensures
        comments_read(lines, n).tracker == tracker_after(lines, n),
    decreases n,
{
    if n > 0 {
        lemma_read_tracker(lines, n - 1);
    }
}

proof fn lemma_comments_kept(lines: Seq<Seq<char>>, n: int, m: int, path: Seq<char>)
    requires
        0 <= n <= m <= lines.len(),
        comment_at(
            comments_read(lines, n).comments,
            path,
            comments_read(lines, n).comments.len() as int,
        ) is Some,
    ensures
        comment_at(
            comments_read(lines, m).comments,
            path,
            comments_read(lines, m).comments.len() as int,
        ) is Some,
    decreases m - n,
{
    if n < m {
        lemma_comments_kept(lines, n, m - 1, path);
        let before = comments_read(lines, m - 1);
        let now = comments_read(lines, m);
        let (tracker, place) = after_content(before.tracker, line_content(lines[m - 1]));
        let old_comments = before.comments;
        if let Some((_, comment)) = line_comment(lines[m - 1]) {
            if let Some(place) = place {
                lemma_comment_added(old_comments, path, place, text::trimmed(comment));
            }
        }
    }
}

proof fn lemma_comment_prefix(
    shorter: Seq<(Seq<char>, Seq<char>)>,
    longer: Seq<(Seq<char>, Seq<char>)>,
    path: Seq<char>,
    n: int,
)
    requires
        0 <= n <= shorter.len() <= longer.len(),
        longer.take(shorter.len() as int) == shorter,
    ensures
        comment_at(shorter, path, n) == comment_at(longer, path, n),
    decreases n,
{
    if n > 0 {
        assert(longer[n - 1] == longer.take(shorter.len() as int)[n - 1]);
        lemma_comment_prefix(shorter, longer, path, n - 1);
    }
}

proof fn lemma_comment_added(
    comments: Seq<(Seq<char>, Seq<char>)>,
    path: Seq<char>,
    place: Seq<char>,
    comment: Seq<char>,
)
    requires
        comment_at(comments, path, comments.len() as int) is Some,
    ensures
        ({
            let more = with_comment(comments, place, comment);
            comment_at(more, path, more.len() as int) is Some
        }),
{
    let more = with_comment(comments, place, comment);
    assert(more.take(comments.len() as int) =~= comments);
    lemma_comment_prefix(comments, more, path, comments.len() as int);
    reveal_with_fuel(comment_at, 3);
}

/// Where a line of the file that is replaced has a comment, every line of the new
/// text with the same path gets one.
pub proof fn comments_survive_merging(existing: Seq<char>, yaml: Seq<char>, i: int, k: int)
    requires
        0 <= i < text::lines(existing).len(),
        0 <= k < text::lines(yaml).len(),
        line_comment(text::lines(existing)[i]) is Some,
        line_path(text::lines(existing), i) is Some,
        line_path(text::lines(existing), i) == line_path(text::lines(yaml), k),
    ensures
        comment_for(
            comments_read(text::lines(existing), text::lines(existing).len() as int).comments,
            line_path(text::lines(yaml), k)->0,
        ) is Some,
{
    let file = text::lines(existing);
    let path = line_path(file, i)->0;
    lemma_read_tracker(file, i);
    let now = comments_read(file, i + 1).comments;
    assert(now.last().0 == path);
    assert(comment_at(now, path, now.len() as int) is Some);
    lemma_comments_kept(file, i + 1, file.len() as int, path);
}

/// The lines of a text, each ended.
pub open spec fn ended_lines(lines: Seq<Seq<char>>, n: int) -> Seq<char>
    decreases n,
{
    if n <= 0 || n > lines.len() {
        Seq::empty()
    } else {
        (ended_lines(lines, n - 1) + lines[n - 1]).push('\n')
    }
}

proof fn lemma_uncommented(lines: Seq<Seq<char>>, n: int)
    requires
        0 <= n <= lines.len(),
    ensures
        commented_lines(lines, n, Seq::empty()) == ended_lines(lines, n),
    decreases n,
{
    if n > 0 {
        lemma_uncommented(lines, n - 1);
    }
}

/// A file without comments adds nothing to the text that replaces it.
pub proof fn files_without_comments_add_nothing(existing: Seq<char>, yaml: Seq<char>)
    requires
        header_block(existing).len() == 0,
        comments_read(text::lines(existing), text::lines(existing).len() as int).comments.len() == 0,
    ensures
        merged_comments(existing, yaml) == ended_lines(text::lines(yaml), text::lines(yaml).len() as int),
{
    assert(comments_read(text::lines(existing), text::lines(existing).len() as int).comments =~= Seq::empty());
    lemma_uncommented(text::lines(yaml), text::lines(yaml).len() as int);
}

/// A comment begins at the first sign behind something else than white space and outside
/// of quotes, and the content is what stands before it, without white space at its end.
pub proof fn comments_stand_behind_content(content: Seq<char>, comment: Seq<char>)
    requires
        text::trimmed(content).len() > 0,
        text::lacks(content, '#'),
        text::lacks(content, '"'),
        text::lacks(content, '\''),
    ensures
        line_comment(content.push('#') + comment) == Some(
            (text::drop_white(content), seq!['#'] + comment),
        ),
        line_comment(content) is None,
        line_content(content.push('#') + comment) == text::drop_white(content),
        line_content(content) == content,
{
    let line = content.push('#') + comment;
    let n = content.len() as int;
    assert(line.take(n) =~= content);
    assert forall|k: int| 0 <= k < n implies #[trigger] line[k] != '#' && line[k] != '"' && line[k]
        != '\'' by {
        assert(line[k] == content[k]);
    }
    lemma_unquoted_comment(line, 0, n);
    assert(line.skip(n) =~= seq!['#'] + comment);
    lemma_plain_line(content, 0);
}

proof fn lemma_unquoted_comment(line: Seq<char>, i: int, n: int)
    requires
        0 <= i <= n < line.len(),
        line[n] == '#',
        text::trimmed(line.take(n)).len() > 0,
        forall|k: int|
            0 <= k < n ==> #[trigger] line[k] != '#' && line[k] != '"' && line[k] != '\'',
    ensures
        comment_start(line, i, false, false, false) == Some(n),
    decreases n - i,
{
    if i < n {
        assert(line[i] != '#' && line[i] != '"' && line[i] != '\'');
        lemma_unquoted_comment(line, i + 1, n);
    }
}

proof fn lemma_plain_line(line: Seq<char>, i: int)
    requires
        0 <= i <= line.len(),
        text::lacks(line, '#'),
        text::lacks(line, '"'),
        text::lacks(line, '\''),
    ensures
        comment_start(line, i, false, false, false) is None,
    decreases line.len() - i,
{
    if i < line.len() {
        lemma_plain_line(line, i + 1);
    }
}

/// A sign inside of quotes begins no comment.
pub proof fn quoted_signs_begin_no_comment(
    before: Seq<char>,
    quoted: Seq<char>,
    after: Seq<char>,
)
    requires
        text::lacks(before, '#'),
        text::lacks(before, '"'),
        text::lacks(before, '\''),
        text::lacks(quoted, '\''),
        text::lacks(after, '#'),
        text::lacks(after, '"'),
        text::lacks(after, '\''),
    ensures
        line_comment(before.push('\'') + quoted.push('\'') + after) is None,
{
    let line = before.push('\'') + quoted.push('\'') + after;
    let a = before.len() as int;
    let b = a + 1 + quoted.len();
    assert(line[a] == '\'');
    assert(line[b] == '\'');
    assert forall|k: int| 0 <= k < a implies #[trigger] line[k] != '#' && line[k] != '"' && line[k]
        != '\'' by {
        assert(line[k] == before[k]);
    }
    assert forall|k: int| a < k < b implies #[trigger] line[k] != '\'' by {
        assert(line[k] == quoted[k - a - 1]);
    }
    assert forall|k: int| b < k < line.len() implies #[trigger] line[k] != '#' && line[k] != '"'
        && line[k] != '\'' by {
        assert(line[k] == after[k - b - 1]);
    }
    lemma_quoted_passes(line, 0, a, b);
}

proof fn lemma_quoted_passes(line: Seq<char>, i: int, a: int, b: int)
    requires
        0 <= i <= line.len(),
        0 <= a < b < line.len(),
        line[a] == '\'',
        line[b] == '\'',
        forall|k: int|
            0 <= k < a ==> #[trigger] line[k] != '#' && line[k] != '"' && line[k] != '\'',
        forall|k: int| a < k < b ==> #[trigger] line[k] != '\'',
        forall|k: int|
            b < k < line.len() ==> #[trigger] line[k] != '#' && line[k] != '"' && line[k] != '\'',
    ensures
        comment_start(line, i, a < i <= b, false, false) is None,
    decreases line.len() - i,
{
    if i < line.len() {
        lemma_quoted_passes(line, i + 1, a, b);
    }
}

/// The indent of a line is what its white space takes, byte by byte.
pub proof fn blanks_indent_by_one(rest: Seq<char>)
    ensures
        indent_of(rest) < usize::MAX ==> indent_of(seq![' '] + rest) == indent_of(rest) + 1,
        rest.len() > 0 && !text::is_white(rest[0]) ==> indent_of(rest) == 0,
        indent_of(Seq::empty()) == 0,
{
    let line = seq![' '] + rest;
    assert(line.skip(1) =~= rest);
    assert(line[0] == ' ');
}

/// A key is taken without the white space and the quotes around it.
pub proof fn keys_lose_their_quotes(key: Seq<char>)
    requires
        key.len() > 0,
        text::trimmed(key) == key,
        text::trimmed(seq!['"'] + key + seq!['"']) == seq!['"'] + key + seq!['"'],
        text::trimmed(seq!['\''] + key + seq!['\'']) == seq!['\''] + key + seq!['\''],
        key[0] != '"',
        key[0] != '\'',
    ensures
        path_key(key) == key,
        path_key(seq!['"'] + key + seq!['"']) == key,
        path_key(seq!['\''] + key + seq!['\'']) == key,
{
    reveal_strlit("\"");
    reveal_strlit("'");
    assert("\""@ =~= seq!['"']);
    assert("'"@ =~= seq!['\'']);
    let double = seq!['"'] + key + seq!['"'];
    let single = seq!['\''] + key + seq!['\''];
    assert(double =~= seq!['"'] + (key + seq!['"']));
    assert(single =~= seq!['\''] + (key + seq!['\'']));
    text::parts_can_be_taken_off(seq!['"'], key + seq!['"'], double);
    text::parts_can_be_taken_off(key, seq!['"'], double);
    text::parts_can_be_taken_off(seq!['\''], key + seq!['\''], single);
    text::parts_can_be_taken_off(key, seq!['\''], single);
    assert(key.take(1)[0] == key[0]);
    assert(single.take(1)[0] == '\'');
    assert(seq!['"'][0] == '"' && seq!['\''][0] == '\'');
}

/// A line further to the right stands below the lines to its left, which are all that is
/// kept above it, in their order.
pub proof fn lines_stand_below_those_to_their_left(
    stack: Seq<(usize, Seq<char>)>,
    indent: nat,
    n: int,
)
    requires
        0 <= n < stack.len(),
    ensures
        left_of(stack, indent, 0).len() == 0,
        stack[n].0 < indent ==> left_of(stack, indent, n + 1) == left_of(stack, indent, n).push(
            stack[n],
        ),
        stack[n].0 >= indent ==> left_of(stack, indent, n + 1) == left_of(stack, indent, n),
        stack_path(Seq::empty()).len() == 0,
{
}

/// The path of a line is made of the keys above it with dots between them.
pub proof fn paths_join_the_keys_above(
    stack: Seq<(usize, Seq<char>)>,
    indent: usize,
    key: Seq<char>,
)
    ensures
        stack_path(seq![(indent, key)]) == key,
        stack.len() > 0 ==> stack_path(stack.push((indent, key))) == stack_path(stack).push('.')
            + key,
{
    reveal_strlit(".");
    assert(stack_keys(seq![(indent, key)]) =~= seq![key]);
    assert(stack_keys(stack.push((indent, key))) =~= stack_keys(stack).push(key));
    assert(stack_keys(stack).push(key).drop_last() =~= stack_keys(stack));
    assert(stack_path(stack) + "."@ =~= stack_path(stack).push('.'));
}

/// The items of a list are counted from none, each list for itself.
pub proof fn items_are_counted_list_by_list(
    indices: Seq<(Seq<char>, usize)>,
    path: Seq<char>,
    other: Seq<char>,
    from: int,
)
    requires
        0 <= from <= indices.len(),
    ensures
        items_at(Seq::empty(), path, 0) == 0,
        items_at(indices, path, from) < usize::MAX ==> items_at(
            with_item(indices, path, from),
            path,
            from,
        ) == items_at(indices, path, from) + 1,
        other != path ==> items_at(with_item(indices, path, from), other, from) == items_at(
            indices,
            other,
            from,
        ),
    decreases indices.len() - from,
{
    let then = with_item(indices, path, from);
    if from < indices.len() {
        if indices[from].0 != path {
            items_are_counted_list_by_list(indices, path, other, from + 1);
            lemma_item_kept(indices, path, from + 1, from);
        } else if other != path {
            lemma_items_alike(indices, then, other, from + 1);
        }
    } else {
        assert(then[from] == (path, 1usize));
        assert(items_at(then, other, from + 1) == 0);
    }
}

proof fn lemma_item_kept(indices: Seq<(Seq<char>, usize)>, path: Seq<char>, from: int, k: int)
    requires
        0 <= k < from <= indices.len(),
    ensures
        with_item(indices, path, from)[k] == indices[k],
        with_item(indices, path, from).len() >= indices.len(),
    decreases indices.len() - from,
{
    if from < indices.len() && indices[from].0 != path {
        lemma_item_kept(indices, path, from + 1, k);
    }
}

proof fn lemma_items_alike(
    a: Seq<(Seq<char>, usize)>,
    b: Seq<(Seq<char>, usize)>,
    path: Seq<char>,
    from: int,
)
    requires
        a.len() == b.len(),
        0 <= from,
        forall|k: int| from <= k < a.len() ==> a[k] == #[trigger] b[k],
    ensures
        items_at(a, path, from) == items_at(b, path, from),
    decreases a.len() - from,
{
    if from < a.len() {
        assert(a[from] == b[from]);
        lemma_items_alike(a, b, path, from + 1);
    }
}

/// A path that ends in a number has a path for any number, and no other has.
pub proof fn numbered_paths_have_a_common_path(prefix: Seq<char>, n: nat, key: Seq<char>)
    requires
        text::lacks(key, '.'),
    ensures
        wildcard_path(prefix.push('.') + text::decimal(n)) == Some(prefix + seq!['.', '*']),
        wildcard_path(key) is None,
        !only_digits(key) ==> wildcard_path(prefix.push('.') + key) is None,
{
    reveal_strlit(".*");
    assert(".*"@ =~= seq!['.', '*']);
    text::digits_have_their_value(n);
    let digits = text::decimal(n);
    assert forall|i: int| 0 <= i < digits.len() implies #[trigger] digits[i] != '.' by {
        assert(text::is_digit(digits[i]));
    }
    lemma_last_dot(prefix, digits);
    lemma_last_dot(prefix, key);
    text::splitting_once_parts_at_the_character(key, '.');
}

proof fn lemma_last_dot(a: Seq<char>, b: Seq<char>)
    requires
        text::lacks(b, '.'),
    ensures
        text::rsplit_once(a.push('.') + b, '.') == Some((a, b)),
{
    let s = a.push('.') + b;
    text::splitting_once_parts_at_the_character(s, '.');
    assert(s[a.len() as int] == '.');
    let parts = text::rsplit_once(s, '.')->0;
    let x = parts.0;
    let y = parts.1;
    assert(s.len() == a.len() + 1 + b.len());
    assert(s.len() == x.len() + 1 + y.len());
    assert(s[x.len() as int] == '.');
    if a.len() < x.len() {
        let i = x.len() - a.len() - 1;
        assert(b[i] == s[a.len() + 1 + i]);
    }
    if x.len() < a.len() {
        let i = a.len() - x.len() - 1;
        assert(y[i] == (x.push('.') + y)[x.len() + 1 + i]);
    }
    assert(a =~= s.take(a.len() as int));
    assert(x =~= s.take(x.len() as int));
    assert(b =~= s.skip(a.len() as int + 1));
    assert(y =~= s.skip(x.len() as int + 1));
}

/// The last comment at a path is taken, or else the last at the path for any number.
pub proof fn last_comment_is_taken(
    comments: Seq<(Seq<char>, Seq<char>)>,
    path: Seq<char>,
    comment: Seq<char>,
    other: Seq<char>,
)
    ensures
        comment_for(comments.push((path, comment)), path) == Some(comment),
        other != path ==> comment_at(
            comments.push((other, comment)),
            path,
            comments.len() as int + 1,
        ) == comment_at(comments, path, comments.len() as int),
        comment_at(comments, path, comments.len() as int) is None ==> comment_for(comments, path)
            == match wildcard_path(path) {
            Some(any) => comment_at(comments, any, comments.len() as int),
            None => None,
        },
{
    let longer = comments.push((path, comment));
    assert(longer[comments.len() as int] == (path, comment));
    let more = comments.push((other, comment));
    assert(more.take(comments.len() as int) =~= comments);
    lemma_comment_prefix(comments, more, path, comments.len() as int);
}

/// The lines of white space and of comments at the beginning of a file are kept in front
/// of it, up to the first other line.
pub proof fn beginnings_are_kept(lines: Seq<Seq<char>>, n: int)
    requires
        0 <= n <= lines.len(),
    ensures
        n <= header_end(lines, n) <= lines.len(),
        header_end(lines, n) < lines.len() ==> text::trimmed(lines[header_end(lines, n)]).len() > 0,
        forall|i: int|
            n <= i < header_end(lines, n) ==> text::trimmed(#[trigger] lines[i]).len() == 0 || (
            text::skip_white(lines[i]).len() > 0 && text::skip_white(lines[i])[0] == '#'),
        header_end(lines, n) < lines.len() ==> !(text::skip_white(
            lines[header_end(lines, n)],
        ).len() > 0 && text::skip_white(lines[header_end(lines, n)])[0] == '#'),
    decreases lines.len() - n,
{
    if n < lines.len() && is_comment_line(lines[n]) {
        beginnings_are_kept(lines, n + 1);
    }
}

/// A line with a key and a value has the path of its key below the keys above it, and
/// leaves what stands above the next line as it is; a key without a value stands above
/// the lines that are further to the right.
pub proof fn keys_have_a_path_below_the_others(
    tracker: TrackerModel,
    key: Seq<char>,
    value: Seq<char>,
)
    requires
        text::lacks(key, ':'),
        path_key(key).len() > 0,
    ensures
        ({
            let (next, path) = after_mapping(tracker, key.push(':') + value);
            let above = stack_path(tracker.stack);
            &&& above.len() == 0 ==> path == Some(path_key(key))
            &&& above.len() > 0 ==> path == Some(above.push('.') + path_key(key))
            &&& text::trimmed(value).len() > 0 ==> next == tracker
            &&& text::trimmed(value).len() == 0 ==> {
                &&& next.stack.len() == tracker.stack.len() + 1
                &&& next.stack.drop_last() == tracker.stack
                &&& stack_keys(next.stack).last() == path_key(key)
                &&& next.indices == tracker.indices
            }
        }),
        after_mapping(tracker, key) == (tracker, None::<Seq<char>>),
{
    reveal_strlit(".");
    let content = key.push(':') + value;
    text::lemma_first_of_unique(content, ':', key.len() as int);
    assert(content.take(key.len() as int) =~= key);
    assert(content.skip(key.len() as int + 1) =~= value);
    text::splitting_once_parts_at_the_character(key, ':');
    let above = stack_path(tracker.stack);
    assert(above + "."@ =~= above.push('.'));
    let next = match after_mapping(tracker, content) {
        (next, _) => next,
    };
    if text::trimmed(value).len() == 0 {
        assert(next.stack.drop_last() =~= tracker.stack);
    }
}

/// A line of white space or with a comment alone has no path and changes nothing.
pub proof fn blank_lines_have_no_path(tracker: TrackerModel, content: Seq<char>)
    requires
        text::skip_white(content).len() == 0 || text::skip_white(content)[0] == '#',
    ensures
        after_content(tracker, content) == (tracker, None::<Seq<char>>),
{
}

/// A line of a mapping stands below the lines to its left, and an item of a list below
/// those and under its number in the list.
pub proof fn lines_stand_by_their_indent(tracker: TrackerModel, content: Seq<char>)
    requires
        text::skip_white(content).len() > 0,
        text::skip_white(content)[0] != '#',
    ensures
        ({
            let text = text::skip_white(content);
            let stack = left_of(tracker.stack, indent_of(content), tracker.stack.len() as int);
            let parent = stack_path(stack);
            &&& text[0] != '-' ==> after_content(tracker, content) == after_mapping(
                TrackerModel { stack, indices: tracker.indices },
                text,
            )
            &&& text.len() >= 2 && text[0] == '-' && text[1] == ' ' ==> {
                let entered = TrackerModel {
                    stack: stack.push(
                        (
                            indent_of(content) as usize,
                            text::decimal(items_at(tracker.indices, parent, 0) as nat),
                        ),
                    ),
                    indices: with_item(tracker.indices, parent, 0),
                };
                let (next, path) = after_mapping(entered, text.skip(2));
                &&& path is Some ==> after_content(tracker, content) == (next, path)
                &&& path is None ==> after_content(tracker, content) == (
                    next,
                    Some(stack_path(next.stack)),
                )
            }
        }),
{
    reveal_strlit("- ");
    let text = text::skip_white(content);
    if text.len() >= 2 {
        assert(text.take(2)[0] == text[0]);
        assert(text.take(2)[1] == text[1]);
        if text[0] == '-' && text[1] == ' ' {
            assert(text.take(2) =~= "- "@);
        }
    }
}

/// A comment under a numbered path is noted for that path and for any number.
pub proof fn numbered_comments_are_noted_twice(
    comments: Seq<(Seq<char>, Seq<char>)>,
    prefix: Seq<char>,
    n: nat,
    m: nat,
    comment: Seq<char>,
)
    requires
        n != m,
        comment_at(comments, prefix.push('.') + text::decimal(m), comments.len() as int) is None,
    ensures
        ({
            let more = with_comment(comments, prefix.push('.') + text::decimal(n), comment);
            &&& comment_for(more, prefix.push('.') + text::decimal(n)) == Some(comment)
            &&& comment_for(more, prefix.push('.') + text::decimal(m)) == Some(comment)
            &&& more.take(comments.len() as int) == comments
        }),
{
    let none = Seq::<char>::empty();
    numbered_paths_have_a_common_path(prefix, n, none);
    numbered_paths_have_a_common_path(prefix, m, none);
    let path = prefix.push('.') + text::decimal(n);
    let other = prefix.push('.') + text::decimal(m);
    let any = prefix + seq!['.', '*'];
    let more = with_comment(comments, path, comment);
    let k = comments.len() as int;
    assert(more =~= comments.push((any, comment)).push((path, comment)));
    assert(more.take(k) =~= comments);
    lemma_comment_prefix(comments, more, other, k);
    text::digits_have_their_value(n);
    text::digits_have_their_value(m);
    let p = prefix.len() as int + 1;
    assert(path.skip(p) =~= text::decimal(n));
    assert(other.skip(p) =~= text::decimal(m));
    assert(any.skip(p) =~= seq!['*']);
    assert(!text::is_digit('*'));
    assert(text::is_digit(text::decimal(m)[0]));
    assert(text::is_digit(text::decimal(n)[0]));
    assert(seq!['*'][0] == '*');
    assert(other != any);
    assert(path != any);
    assert(other != path);
    assert(comment_at(more, other, k + 1) == comment_at(more, other, k));
    assert(comment_at(more, other, k + 2) is None);
    assert(comment_at(more, any, k + 2) == comment_at(more, any, k + 1));
    assert(comment_at(more, any, k + 1) == Some(comment));
}

/// White space indents by the bytes that it takes in UTF-8.
pub proof fn white_space_indents_by_its_bytes(rest: Seq<char>)
    requires
        indent_of(rest) <= usize::MAX - 4,
    ensures
        indent_of(seq!['\t'] + rest) == indent_of(rest) + 1,
        indent_of(seq!['\u{a0}'] + rest) == indent_of(rest) + 2,
        indent_of(seq!['\u{2003}'] + rest) == indent_of(rest) + 3,
        indent_of(seq!['\u{3000}'] + rest) == indent_of(rest) + 3,
{
    let a = seq!['\t'] + rest;
    let b = seq!['\u{a0}'] + rest;
    let c = seq!['\u{2003}'] + rest;
    let d = seq!['\u{3000}'] + rest;
    assert(a.skip(1) =~= rest && a[0] == '\t');
    assert(b.skip(1) =~= rest && b[0] == '\u{a0}');
    assert(c.skip(1) =~= rest && c[0] == '\u{2003}');
    assert(d.skip(1) =~= rest && d[0] == '\u{3000}');
}

/// What is kept in front of a file is made of its first lines, the very first among them
/// where it is a comment; a file that begins with anything else has nothing kept.
pub proof fn first_lines_are_kept_in_front(text: Seq<char>)
    ensures
        ({
            let lines = text::lines(text);
            let n = header_end(lines, 0);
            &&& header_block(text) == text::joined(lines.take(n), seq!['\n'])
            &&& lines.len() > 0 && text::trimmed(lines[0]).len() > 0 && !(text::skip_white(
                lines[0],
            ).len() > 0 && text::skip_white(lines[0])[0] == '#') ==> header_block(text).len() == 0
            &&& lines.len() == 1 && text::skip_white(lines[0]).len() > 0 && text::skip_white(
                lines[0],
            )[0] == '#' ==> header_block(text) == lines[0]
        }),
{
    reveal_strlit("\n");
    assert("\n"@ =~= seq!['\n']);
    let lines = text::lines(text);
    let n = header_end(lines, 0);
    if lines.len() > 0 && text::trimmed(lines[0]).len() > 0 && !(text::skip_white(lines[0]).len()
        > 0 && text::skip_white(lines[0])[0] == '#') {
        assert(n == 0);
        assert(lines.take(0).len() == 0);
    }
    if lines.len() == 1 && is_comment_line(lines[0]) {
        assert(header_end(lines, 1) == 1);
        assert(lines.take(1) =~= lines);
    }
}

} // verus!
