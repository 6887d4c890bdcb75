//! Character-level text operations, specified over `Seq<char>`.
//!
//! A `String` or `&str` is modelled by its characters. The spec functions here
//! say what trimming, splitting, joining and number syntax mean; the executable
//! functions beside them compute exactly those values.

use vstd::prelude::*;
use vstd::string::*;

verus! {

/// `String::push` appends one character to the end of the string.
pub assume_specification[ std::string::String::push ](s: &mut std::string::String, c: char)
    ensures
        final(s)@ == old(s)@.push(c),
;

/// The characters of each string of a sequence.
pub open spec fn views(v: Seq<String>) -> Seq<Seq<char>> {
    Seq::new(v.len(), |i: int| v[i]@)
}

/// The characters of each cell of each row.
pub open spec fn row_views(v: Seq<Vec<String>>) -> Seq<Seq<Seq<char>>> {
    Seq::new(v.len(), |i: int| views(v[i]@))
}

/// The characters of an optional string.
pub open spec fn opt_view(s: Option<String>) -> Option<Seq<char>> {
    match s {
        Some(t) => Some(t@),
        None => None,
    }
}

/// The characters of an optional string slice.
pub open spec fn opt_str_view(s: Option<&str>) -> Option<Seq<char>> {
    match s {
        Some(t) => Some(t@),
        None => None,
    }
}

pub proof fn lemma_views_push(v: Seq<String>, s: String)
    ensures
        views(v.push(s)) == views(v).push(s@),
{
    assert(views(v.push(s)) =~= views(v).push(s@));
}

/// The characters of a string, in order.
pub fn chars_of(s: &str) -> (v: Vec<char>)
    ensures
        v@ == s@,
{
    let mut v: Vec<char> = Vec::new();
    for c in it: s.chars()
        invariant
            it.seq() == s@,
            v@ == s@.take(it.index() as int),
    {
        proof {
            assert(s@.take(it.index() + 1) =~= s@.take(it.index() as int).push(c));
        }
        v.push(c);
    }
    assert(s@.take(s@.len() as int) =~= s@);
    v
}

/// The string made of `v[from..to]`.
pub fn string_of_range(v: &Vec<char>, from: usize, to: usize) -> (s: String)
    requires
        from <= to <= v.len(),
    ensures
        s@ == v@.subrange(from as int, to as int),
{
    let mut s = String::new();
    let mut i: usize = from;
    while i < to
        invariant
            from <= i <= to <= v.len(),
            s@ == v@.subrange(from as int, i as int),
        decreases to - i,
    {
        assert(v@.subrange(from as int, i + 1) =~= v@.subrange(from as int, i as int).push(
            v@[i as int],
        ));
        s.push(v[i]);
        i = i + 1;
    }
    s
}

/// The string made of all the given characters.
pub fn string_of(v: &Vec<char>) -> (s: String)
    ensures
        s@ == v@,
{
    let s = string_of_range(v, 0, v.len());
    assert(v@.subrange(0, v@.len() as int) =~= v@);
    s
}

/// Whether two strings hold the same characters.
pub fn same(a: &str, b: &str) -> (r: bool)
    ensures
        r == (a@ == b@),
{
    a.to_owned() == b.to_owned()
}

/// Whether two optional strings are both absent or hold the same characters.
pub fn same_opt(a: &Option<String>, b: &Option<String>) -> (r: bool)
    ensures
        r == (opt_view(*a) == opt_view(*b)),
{
    match (a, b) {
        (Some(x), Some(y)) => same(x, y),
        (None, None) => true,
        _ => false,
    }
}

/// `a` followed by `b`.
pub fn concat2(a: &str, b: &str) -> (r: String)
    ensures
        r@ == a@ + b@,
{
    let mut s = a.to_owned();
    s.append(b);
    s
}

/// `a`, `b` and `c` in a row.
pub fn concat3(a: &str, b: &str, c: &str) -> (r: String)
    ensures
        r@ == a@ + b@ + c@,
{
    let mut s = a.to_owned();
    s.append(b);
    s.append(c);
    s
}

/// The five strings in a row.
pub fn concat5(a: &str, b: &str, c: &str, d: &str, e: &str) -> (r: String)
    ensures
        r@ == a@ + b@ + c@ + d@ + e@,
{
    let mut s = a.to_owned();
    s.append(b);
    s.append(c);
    s.append(d);
    s.append(e);
    s
}

/// Whether `v` holds a string with the characters of `s`.
pub fn contains_text(v: &Vec<String>, s: &str) -> (r: bool)
    ensures
        r == views(v@).contains(s@),
{
    let mut i: usize = 0;
    while i < v.len()
        invariant
            i <= v.len(),
            forall|k: int| 0 <= k < i ==> v@[k]@ != s@,
        decreases v.len() - i,
    {
        if same(&v[i], s) {
            assert(views(v@)[i as int] == s@);
            return true;
        }
        i = i + 1;
    }
    assert forall|k: int| 0 <= k < views(v@).len() implies views(v@)[k] != s@ by {
        assert(v@[k]@ != s@);
    }
    false
}

// ---------------------------------------------------------------------------
// White space and trimming
// ---------------------------------------------------------------------------

/// The characters with the Unicode `White_Space` property.
pub open spec fn is_white(c: char) -> bool {
    let n = c as u32;
    ||| 0x9 <= n <= 0xd
    ||| n == 0x20
    ||| n == 0x85
    ||| n == 0xa0
    ||| n == 0x1680
    ||| 0x2000 <= n <= 0x200a
    ||| n == 0x2028
    ||| n == 0x2029
    ||| n == 0x202f
    ||| n == 0x205f
    ||| n == 0x3000
}

/// Whether `c` has the Unicode `White_Space` property.
pub fn white(c: char) -> (r: bool)
    ensures
        r == is_white(c),
{
    let n: u32 = c as u32;
    (0x9 <= n && n <= 0xd) || n == 0x20 || n == 0x85 || n == 0xa0 || n == 0x1680 || (0x2000 <= n
        && n <= 0x200a) || n == 0x2028 || n == 0x2029 || n == 0x202f || n == 0x205f || n == 0x3000
}

/// `s` without its leading white space.
pub open spec fn skip_white(s: Seq<char>) -> Seq<char>
    decreases s.len(),
{
    if s.len() > 0 && is_white(s[0]) {
        skip_white(s.skip(1))
    } else {
        s
    }
}

/// `s` without its trailing white space.
pub open spec fn drop_white(s: Seq<char>) -> Seq<char>
    decreases s.len(),
{
    if s.len() > 0 && is_white(s.last()) {
        drop_white(s.drop_last())
    } else {
        s
    }
}

/// `s` without leading and trailing white space.
pub open spec fn trimmed(s: Seq<char>) -> Seq<char> {
    drop_white(skip_white(s))
}

/// `s` without its leading white space.
pub fn trim_start(s: &str) -> (r: String)
    ensures
        r@ == skip_white(s@),
{
    let v = chars_of(s);
    let mut i: usize = 0;
    assert(v@.skip(0) =~= v@);
    while i < v.len() && white(v[i])
        invariant
            i <= v.len(),
            skip_white(v@.skip(i as int)) == skip_white(v@),
        decreases v.len() - i,
    {
        assert(v@.skip(i as int).skip(1) =~= v@.skip(i + 1));
        i = i + 1;
    }
    assert(v@.skip(i as int) =~= v@.subrange(i as int, v@.len() as int));
    string_of_range(&v, i, v.len())
}

/// `s` without its trailing white space.
pub fn trim_end(s: &str) -> (r: String)
    ensures
        r@ == drop_white(s@),
{
    let v = chars_of(s);
    let mut i: usize = v.len();
    assert(v@.take(v@.len() as int) =~= v@);
    while i > 0 && white(v[i - 1])
        invariant
            i <= v.len(),
            drop_white(v@.take(i as int)) == drop_white(v@),
        decreases i,
    {
        assert(v@.take(i as int).drop_last() =~= v@.take(i - 1));
        i = i - 1;
    }
    assert(v@.take(i as int) =~= v@.subrange(0, i as int));
    string_of_range(&v, 0, i)
}

/// `s` without leading and trailing white space.
pub fn trim(s: &str) -> (r: String)
    ensures
        r@ == trimmed(s@),
{
    trim_end(&trim_start(s))
}

/// `s` without its leading run of `c`.
pub open spec fn skip_char(s: Seq<char>, c: char) -> Seq<char>
    decreases s.len(),
{
    if s.len() > 0 && s[0] == c {
        skip_char(s.skip(1), c)
    } else {
        s
    }
}

/// `s` without its leading run of `c`.
pub fn trim_start_char(s: &str, c: char) -> (r: String)
    ensures
        r@ == skip_char(s@, c),
{
    let v = chars_of(s);
    let mut i: usize = 0;
    assert(v@.skip(0) =~= v@);
    while i < v.len() && v[i] == c
        invariant
            i <= v.len(),
            skip_char(v@.skip(i as int), c) == skip_char(v@, c),
        decreases v.len() - i,
    {
        assert(v@.skip(i as int).skip(1) =~= v@.skip(i + 1));
        i = i + 1;
    }
    assert(v@.skip(i as int) =~= v@.subrange(i as int, v@.len() as int));
    string_of_range(&v, i, v.len())
}

// ---------------------------------------------------------------------------
// Searching
// ---------------------------------------------------------------------------

/// The first position of `c` in `s`, or `s.len()` where it does not occur.
pub open spec fn first_of(s: Seq<char>, c: char) -> int
    decreases s.len(),
{
    if s.len() == 0 || s[0] == c {
        0
    } else {
        1 + first_of(s.skip(1), c)
    }
}

/// The last position of `c` in `s`, or -1 where it does not occur.
pub open spec fn last_of(s: Seq<char>, c: char) -> int
    decreases s.len(),
{
    if s.len() == 0 {
        -1
    } else if s.last() == c {
        s.len() - 1
    } else {
        last_of(s.drop_last(), c)
    }
}

pub proof fn lemma_first_of(s: Seq<char>, c: char)
    ensures
        0 <= first_of(s, c) <= s.len(),
        first_of(s, c) < s.len() ==> s[first_of(s, c)] == c,
        forall|k: int| 0 <= k < first_of(s, c) ==> s[k] != c,
    decreases s.len(),
{
    if s.len() > 0 && s[0] != c {
        lemma_first_of(s.skip(1), c);
        assert forall|k: int| 0 <= k < first_of(s, c) implies s[k] != c by {
            if k > 0 {
                assert(s[k] == s.skip(1)[k - 1]);
            }
        }
    }
}

/// A position that holds `c`, with none before it, is the first one.
pub proof fn lemma_first_of_unique(s: Seq<char>, c: char, n: int)
    requires
        0 <= n <= s.len(),
        n < s.len() ==> s[n] == c,
        forall|k: int| 0 <= k < n ==> s[k] != c,
    ensures
        first_of(s, c) == n,
{
    lemma_first_of(s, c);
    let m = first_of(s, c);
    if m < n {
        assert(s[m] != c);
    } else if n < m {
        assert(s[n] != c);
    }
}

/// The first position of `c`, or the length.
pub fn find_char(v: &Vec<char>, c: char) -> (n: usize)
    ensures
        n == first_of(v@, c),
        n <= v.len(),
{
    let mut i: usize = 0;
    while i < v.len() && v[i] != c
        invariant
            i <= v.len(),
            forall|k: int| 0 <= k < i ==> v@[k] != c,
        decreases v.len() - i,
    {
        i = i + 1;
    }
    proof {
        lemma_first_of_unique(v@, c, i as int);
    }
    i
}

/// The text before and after the first `c`.
pub open spec fn split_once(s: Seq<char>, c: char) -> Option<(Seq<char>, Seq<char>)> {
    let n = first_of(s, c);
    if n < s.len() {
        Some((s.take(n), s.skip(n + 1)))
    } else {
        None
    }
}

/// The text before and after the last `c`.
pub open spec fn rsplit_once(s: Seq<char>, c: char) -> Option<(Seq<char>, Seq<char>)> {
    let n = last_of(s, c);
    if n >= 0 {
        Some((s.take(n), s.skip(n + 1)))
    } else {
        None
    }
}

/// The characters of both halves of a split.
pub open spec fn pair_view(p: Option<(String, String)>) -> Option<(Seq<char>, Seq<char>)> {
    match p {
        Some((a, b)) => Some((a@, b@)),
        None => None,
    }
}

/// The text before and after the first `c`.
pub fn split_at_first(s: &str, c: char) -> (r: Option<(String, String)>)
    ensures
        pair_view(r) == split_once(s@, c),
{
    let v = chars_of(s);
    let n: usize = find_char(&v, c);
    if n < v.len() {
        let a = string_of_range(&v, 0, n);
        let b = string_of_range(&v, n + 1, v.len());
        assert(a@ =~= s@.take(n as int));
        assert(b@ =~= s@.skip(n + 1));
        Some((a, b))
    } else {
        None
    }
}

/// The text before and after the last `c`.
pub fn split_at_last(s: &str, c: char) -> (r: Option<(String, String)>)
    ensures
        pair_view(r) == rsplit_once(s@, c),
{
    let v = chars_of(s);
    let mut i: usize = v.len();
    assert(v@.take(v@.len() as int) =~= v@);
    while i > 0 && v[i - 1] != c
        invariant
            i <= v.len(),
            last_of(v@.take(i as int), c) == last_of(v@, c),
        decreases i,
    {
        assert(v@.take(i as int).drop_last() =~= v@.take(i - 1));
        i = i - 1;
    }
    if i > 0 {
        assert(last_of(v@, c) == i - 1);
        let a = string_of_range(&v, 0, i - 1);
        let b = string_of_range(&v, i, v.len());
        assert(a@ =~= s@.take(i - 1));
        assert(b@ =~= s@.skip(i as int));
        Some((a, b))
    } else {
        None
    }
}

/// Whether `s` begins with `p`.
pub open spec fn has_prefix(s: Seq<char>, p: Seq<char>) -> bool {
    p.len() <= s.len() && s.take(p.len() as int) == p
}

/// Whether `s` ends with `p`.
pub open spec fn has_suffix(s: Seq<char>, p: Seq<char>) -> bool {
    p.len() <= s.len() && s.skip(s.len() - p.len()) == p
}

/// `s` without the prefix `p`, where it has it.
pub open spec fn without_prefix(s: Seq<char>, p: Seq<char>) -> Option<Seq<char>> {
    if has_prefix(s, p) {
        Some(s.skip(p.len() as int))
    } else {
        None
    }
}

/// `s` without the suffix `p`, where it has it.
pub open spec fn without_suffix(s: Seq<char>, p: Seq<char>) -> Option<Seq<char>> {
    if has_suffix(s, p) {
        Some(s.take(s.len() - p.len()))
    } else {
        None
    }
}

/// `s` without the prefix `p`, where it has it.
pub fn strip_prefix(s: &str, p: &str) -> (r: Option<String>)
    ensures
        opt_view(r) == without_prefix(s@, p@),
{
    let v = chars_of(s);
    let q = chars_of(p);
    if q.len() > v.len() {
        return None;
    }
    let head = string_of_range(&v, 0, q.len());
    assert(head@ =~= s@.take(p@.len() as int));
    if !same(&head, p) {
        return None;
    }
    let rest = string_of_range(&v, q.len(), v.len());
    assert(rest@ =~= s@.skip(p@.len() as int));
    Some(rest)
}

/// `s` without the suffix `p`, where it has it.
pub fn strip_suffix(s: &str, p: &str) -> (r: Option<String>)
    ensures
        opt_view(r) == without_suffix(s@, p@),
{
    let v = chars_of(s);
    let q = chars_of(p);
    if q.len() > v.len() {
        return None;
    }
    let cut: usize = v.len() - q.len();
    let tail = string_of_range(&v, cut, v.len());
    assert(tail@ =~= s@.skip(s@.len() - p@.len()));
    if !same(&tail, p) {
        return None;
    }
    let rest = string_of_range(&v, 0, cut);
    assert(rest@ =~= s@.take(s@.len() - p@.len()));
    Some(rest)
}

/// Whether `s` begins with `p`.
pub fn starts_with(s: &str, p: &str) -> (r: bool)
    ensures
        r == has_prefix(s@, p@),
{
    strip_prefix(s, p).is_some()
}

/// Whether `s` begins with the character `c`.
pub fn starts_with_char(s: &str, c: char) -> (r: bool)
    ensures
        r == (s@.len() > 0 && s@[0] == c),
{
    let v = chars_of(s);
    v.len() > 0 && v[0] == c
}

/// Whether `s` holds the character `c`.
pub fn has_char(s: &str, c: char) -> (r: bool)
    ensures
        r == s@.contains(c),
{
    let v = chars_of(s);
    let n: usize = find_char(&v, c);
    proof {
        lemma_first_of(s@, c);
        if n < v.len() {
            assert(s@[n as int] == c);
        }
    }
    n < v.len()
}

// ---------------------------------------------------------------------------
// Splitting and joining
// ---------------------------------------------------------------------------

/// The parts of `s` between occurrences of `sep`; always at least one.
pub open spec fn split_on(s: Seq<char>, sep: char) -> Seq<Seq<char>>
    decreases s.len(),
{
    if s.len() == 0 {
        seq![Seq::<char>::empty()]
    } else {
        let before = split_on(s.drop_last(), sep);
        if s.last() == sep {
            before.push(Seq::empty())
        } else {
            before.drop_last().push(before.last().push(s.last()))
        }
    }
}

pub proof fn lemma_split_nonempty(s: Seq<char>, sep: char)
    ensures
        split_on(s, sep).len() >= 1,
    decreases s.len(),
{
    if s.len() > 0 {
        lemma_split_nonempty(s.drop_last(), sep);
    }
}

/// The parts of `s` between occurrences of `sep`.
pub fn split_chars(s: &str, sep: char) -> (r: Vec<String>)
    ensures
        views(r@) == split_on(s@, sep),
        r@.len() >= 1,
{
    let v = chars_of(s);
    let mut done: Vec<String> = Vec::new();
    let mut cur = String::new();
    let mut i: usize = 0;
    assert(views(done@).push(cur@) =~= split_on(v@.take(0), sep));
    while i < v.len()
        invariant
            i <= v.len(),
            views(done@).push(cur@) == split_on(v@.take(i as int), sep),
        decreases v.len() - i,
    {
        let c = v[i];
        let ghost before = split_on(v@.take(i as int), sep);
        proof {
            assert(v@.take(i + 1).drop_last() =~= v@.take(i as int));
            assert(before.drop_last() =~= views(done@));
        }
        if c == sep {
            proof {
                lemma_views_push(done@, cur);
            }
            done.push(cur);
            cur = String::new();
        } else {
            cur.push(c);
        }
        assert(views(done@).push(cur@) =~= split_on(v@.take(i + 1), sep));
        i = i + 1;
    }
    assert(v@.take(v@.len() as int) =~= v@);
    proof {
        lemma_views_push(done@, cur);
    }
    done.push(cur);
    done
}

/// `s` without one final carriage return.
pub open spec fn without_cr(s: Seq<char>) -> Seq<char> {
    if s.len() > 0 && s.last() == '\r' {
        s.drop_last()
    } else {
        s
    }
}

/// The lines of a text: each ends at a line feed, whose preceding carriage
/// return belongs to the line ending, and a last line may go without one.
pub open spec fn lines(s: Seq<char>) -> Seq<Seq<char>> {
    let parts = split_on(s, '\n');
    let ended = Seq::new((parts.len() - 1) as nat, |i: int| without_cr(parts[i]));
    if parts.last().len() == 0 {
        ended
    } else {
        ended.push(parts.last())
    }
}

/// The lines of a text.
pub fn lines_of(s: &str) -> (r: Vec<String>)
    ensures
        views(r@) == lines(s@),
{
    let parts = split_chars(s, '\n');
    let n: usize = parts.len() - 1;
    let ghost model = split_on(s@, '\n');
    let mut out: Vec<String> = Vec::new();
    let mut i: usize = 0;
    while i < n
        invariant
            i <= n,
            n + 1 == parts.len(),
            model == views(parts@),
            views(out@) == Seq::new(i as nat, |k: int| without_cr(model[k])),
        decreases n - i,
    {
        let line = chars_of(&parts[i]);
        let text = if line.len() > 0 && line[line.len() - 1] == '\r' {
            string_of_range(&line, 0, line.len() - 1)
        } else {
            string_of(&line)
        };
        assert(text@ =~= without_cr(model[i as int]));
        proof {
            lemma_views_push(out@, text);
        }
        out.push(text);
        assert(views(out@) =~= Seq::new((i + 1) as nat, |k: int| without_cr(model[k])));
        i = i + 1;
    }
    assert(model.last() == parts@[n as int]@);
    if !parts[n].as_str().is_empty() {
        let last = parts[n].clone();
        proof {
            lemma_views_push(out@, last);
        }
        out.push(last);
    }
    assert(views(out@) =~= lines(s@));
    out
}

/// The parts with `sep` between each two.
pub open spec fn joined(parts: Seq<Seq<char>>, sep: Seq<char>) -> Seq<char>
    decreases parts.len(),
{
    if parts.len() == 0 {
        Seq::empty()
    } else if parts.len() == 1 {
        parts[0]
    } else {
        joined(parts.drop_last(), sep) + sep + parts.last()
    }
}

/// The parts with `sep` between each two.
pub fn join(parts: &Vec<String>, sep: &str) -> (r: String)
    ensures
        r@ == joined(views(parts@), sep@),
{
    let mut out = String::new();
    let mut i: usize = 0;
    while i < parts.len()
        invariant
            i <= parts.len(),
            out@ == joined(views(parts@).take(i as int), sep@),
        decreases parts.len() - i,
    {
        let ghost now = views(parts@).take(i + 1);
        assert(now.drop_last() =~= views(parts@).take(i as int));
        assert(now.last() == parts@[i as int]@);
        if i > 0 {
            out.append(sep);
        }
        out.append(&parts[i]);
        assert(out@ =~= joined(now, sep@));
        i = i + 1;
    }
    assert(views(parts@).take(parts@.len() as int) =~= views(parts@));
    out
}

/// `s` with every `c` replaced by `to`.
pub open spec fn replaced(s: Seq<char>, c: char, to: Seq<char>) -> Seq<char>
    decreases s.len(),
{
    if s.len() == 0 {
        Seq::empty()
    } else if s.last() == c {
        replaced(s.drop_last(), c, to) + to
    } else {
        replaced(s.drop_last(), c, to).push(s.last())
    }
}

/// `s` with every `c` replaced by `to`.
pub fn replace_char(s: &str, c: char, to: &str) -> (r: String)
    ensures
        r@ == replaced(s@, c, to@),
{
    let v = chars_of(s);
    let mut out = String::new();
    let mut i: usize = 0;
    while i < v.len()
        invariant
            i <= v.len(),
            out@ == replaced(v@.take(i as int), c, to@),
        decreases v.len() - i,
    {
        assert(v@.take(i + 1).drop_last() =~= v@.take(i as int));
        if v[i] == c {
            out.append(to);
        } else {
            out.push(v[i]);
        }
        i = i + 1;
    }
    assert(v@.take(v@.len() as int) =~= v@);
    out
}

// ---------------------------------------------------------------------------
// ASCII case
// ---------------------------------------------------------------------------

/// `c` with an ASCII capital made small.
pub open spec fn lower_char(c: char) -> char {
    if 'A' as u32 <= c as u32 <= 'Z' as u32 {
        (c as u32 + 32) as char
    } else {
        c
    }
}

/// `s` with ASCII capitals made small.
pub open spec fn lower(s: Seq<char>) -> Seq<char> {
    Seq::new(s.len(), |i: int| lower_char(s[i]))
}

/// `c` with an ASCII capital made small.
pub fn ascii_lower_char(c: char) -> (r: char)
    ensures
        r == lower_char(c),
{
    let n: u32 = c as u32;
    if 65 <= n && n <= 90 {
        let b: u8 = (n as u8) + 32;
        b as char
    } else {
        c
    }
}

/// `s` with ASCII capitals made small.
pub fn ascii_lower(s: &str) -> (r: String)
    ensures
        r@ == lower(s@),
{
    let v = chars_of(s);
    let mut out = String::new();
    let mut i: usize = 0;
    while i < v.len()
        invariant
            i <= v.len(),
            out@ == lower(v@.take(i as int)),
        decreases v.len() - i,
    {
        assert(lower(v@.take(i + 1)) =~= lower(v@.take(i as int)).push(lower_char(v@[i as int])));
        out.push(ascii_lower_char(v[i]));
        i = i + 1;
    }
    assert(v@.take(v@.len() as int) =~= v@);
    out
}

/// Whether two strings are the same but for ASCII case.
pub fn same_ignoring_case(a: &str, b: &str) -> (r: bool)
    ensures
        r == (lower(a@) == lower(b@)),
{
    same(&ascii_lower(a), &ascii_lower(b))
}

// ---------------------------------------------------------------------------
// Numbers in text
// ---------------------------------------------------------------------------

/// The decimal digits 0 to 9.
pub open spec fn is_digit(c: char) -> bool {
    '0' as u32 <= c as u32 <= '9' as u32
}

/// Whether `c` is one of the decimal digits 0 to 9.
pub fn digit(c: char) -> (r: bool)
    ensures
        r == is_digit(c),
{
    let n: u32 = c as u32;
    48 <= n && n <= 57
}

/// The digit character of a number below ten.
pub open spec fn digit_char(d: nat) -> char {
    ('0' as u32 + d) as char
}

/// A number written in decimal.
pub open spec fn decimal(n: nat) -> Seq<char>
    decreases n,
{
    if n < 10 {
        seq![digit_char(n)]
    } else {
        decimal(n / 10).push(digit_char(n % 10))
    }
}

/// A number written in decimal.
pub fn decimal_of(n: u64) -> (r: String)
    ensures
        r@ == decimal(n as nat),
    decreases n,
{
    let d: u8 = (n % 10) as u8;
    let c = (48u8 + d) as char;
    let mut out = if n < 10 {
        String::new()
    } else {
        decimal_of(n / 10)
    };
    out.push(c);
    assert(n < 10 ==> out@ =~= seq![digit_char(n as nat)]);
    out
}

/// A size written in decimal.
pub fn decimal_of_usize(n: usize) -> (r: String)
    ensures
        r@ == decimal(n as nat),
{
    decimal_of(n as u64)
}

/// Whether `s` is one or more decimal digits.
pub open spec fn all_digits(s: Seq<char>) -> bool {
    s.len() > 0 && forall|i: int| 0 <= i < s.len() ==> is_digit(#[trigger] s[i])
}

/// The number that a run of digits denotes.
pub open spec fn digits_value(s: Seq<char>) -> nat
    decreases s.len(),
{
    if s.len() == 0 {
        0
    } else {
        (digits_value(s.drop_last()) * 10 + (s.last() as u32 - '0' as u32)) as nat
    }
}

/// An unsigned decimal number of at most `max`, with an optional plus sign.
pub open spec fn unsigned_value(s: Seq<char>, max: nat) -> Option<nat> {
    let body = if s.len() > 1 && s[0] == '+' {
        s.skip(1)
    } else {
        s
    };
    if all_digits(body) && digits_value(body) <= max {
        Some(digits_value(body))
    } else {
        None
    }
}

/// A signed decimal number within 64 bits, with an optional sign.
pub open spec fn signed_value(s: Seq<char>) -> Option<int> {
    if s.len() > 1 && s[0] == '-' {
        let body = s.skip(1);
        if all_digits(body) && digits_value(body) <= 0x8000_0000_0000_0000 {
            Some(-(digits_value(body) as int))
        } else {
            None
        }
    } else {
        match unsigned_value(s, 0x7fff_ffff_ffff_ffff) {
            Some(n) => Some(n as int),
            None => None,
        }
    }
}

/// Adding digits never makes a number smaller.
pub proof fn lemma_digits_grow(s: Seq<char>, n: int)
    requires
        0 <= n <= s.len(),
        forall|i: int| 0 <= i < s.len() ==> is_digit(#[trigger] s[i]),
    ensures
        digits_value(s.take(n)) <= digits_value(s),
    decreases s.len() - n,
{
    if n < s.len() {
        lemma_digits_grow(s, n + 1);
        assert(s.take(n + 1).drop_last() =~= s.take(n));
        assert(is_digit(s[n]));
    } else {
        assert(s.take(n) =~= s);
    }
}

/// The value of the digits `v[from..]`, where they are digits and it is at most `max`.
fn digits_of(v: &Vec<char>, from: usize, max: u64) -> (r: Option<u64>)
    requires
        from <= v.len(),
    ensures
        match r {
            Some(n) => all_digits(v@.skip(from as int)) && n == digits_value(v@.skip(from as int))
                && n <= max,
            None => !(all_digits(v@.skip(from as int)) && digits_value(v@.skip(from as int))
                <= max),
        },
{
    if from == v.len() {
        return None;
    }
    let ghost body = v@.skip(from as int);
    let mut n: u64 = 0;
    let mut i: usize = from;
    while i < v.len()
        invariant
            from <= i <= v.len(),
            body == v@.skip(from as int),
            n <= max,
            n == digits_value(body.take(i - from)),
            forall|k: int| 0 <= k < i - from ==> is_digit(#[trigger] body[k]),
        decreases v.len() - i,
    {
        let c = v[i];
        assert(body[i - from] == c);
        if !digit(c) {
            assert(!is_digit(body[i - from]));
            return None;
        }
        let d: u64 = (c as u32 - 48) as u64;
        assert(body.take(i + 1 - from).drop_last() =~= body.take(i - from));
        proof {
            if all_digits(body) {
                lemma_digits_grow(body, i + 1 - from);
            }
        }
        let wide: u128 = (n as u128) * 10 + (d as u128);
        if wide > max as u128 {
            return None;
        }
        n = wide as u64;
        i = i + 1;
    }
    assert(body.take(body.len() as int) =~= body);
    Some(n)
}

/// An unsigned decimal number of at most `max`, with an optional plus sign.
pub fn parse_unsigned(s: &str, max: u64) -> (r: Option<u64>)
    ensures
        match r {
            Some(n) => unsigned_value(s@, max as nat) == Some(n as nat),
            None => unsigned_value(s@, max as nat) is None,
        },
{
    let v = chars_of(s);
    let from: usize = if v.len() > 1 && v[0] == '+' {
        1
    } else {
        0
    };
    assert(v@.skip(0) =~= v@);
    digits_of(&v, from, max)
}

/// A size with an optional plus sign.
pub fn parse_usize(s: &str) -> (r: Option<usize>)
    ensures
        match r {
            Some(n) => unsigned_value(s@, usize::MAX as nat) == Some(n as nat),
            None => unsigned_value(s@, usize::MAX as nat) is None,
        },
{
    match parse_unsigned(s, usize::MAX as u64) {
        Some(n) => Some(n as usize),
        None => None,
    }
}

/// A signed decimal number within 64 bits.
pub fn parse_signed(s: &str) -> (r: Option<i64>)
    ensures
        match r {
            Some(n) => signed_value(s@) == Some(n as int),
            None => signed_value(s@) is None,
        },
{
    let v = chars_of(s);
    if v.len() > 1 && v[0] == '-' {
        match digits_of(&v, 1, 0x8000_0000_0000_0000) {
            Some(n) => {
                let wide: i128 = -(n as i128);
                Some(wide as i64)
            },
            None => None,
        }
    } else {
        match parse_unsigned(s, 0x7fff_ffff_ffff_ffff) {
            Some(n) => Some(n as i64),
            None => None,
        }
    }
}

/// One or more digits somewhere in `s`, with an optional point: the mantissa of
/// a decimal floating-point number.
pub open spec fn is_mantissa(s: Seq<char>) -> bool {
    let n = first_of(s, '.');
    let whole = s.take(n);
    let part = if n < s.len() {
        s.skip(n + 1)
    } else {
        Seq::empty()
    };
    &&& whole.len() == 0 || all_digits(whole)
    &&& part.len() == 0 || all_digits(part)
    &&& whole.len() + part.len() > 0
}

/// Digits with an optional sign.
pub open spec fn is_exponent(s: Seq<char>) -> bool {
    all_digits(s) || (s.len() > 0 && (s[0] == '+' || s[0] == '-') && all_digits(s.skip(1)))
}

/// A decimal floating-point number without its sign, in small letters.
pub open spec fn is_unsigned_float(s: Seq<char>) -> bool {
    let n = first_of(s, 'e');
    ||| s == "inf"@
    ||| s == "infinity"@
    ||| s == "nan"@
    ||| is_mantissa(s.take(n)) && (n == s.len() || is_exponent(s.skip(n + 1)))
}

/// The syntax of floating-point numbers: an optional sign, then digits with an
/// optional point and exponent, or a name of infinity or not-a-number, in any case.
pub open spec fn is_float(s: Seq<char>) -> bool {
    let t = lower(s);
    if t.len() > 0 && (t[0] == '+' || t[0] == '-') {
        is_unsigned_float(t.skip(1))
    } else {
        is_unsigned_float(t)
    }
}

/// Whether `v[from..to]` is one or more digits.
fn digits_between(v: &Vec<char>, from: usize, to: usize) -> (r: bool)
    requires
        from <= to <= v.len(),
    ensures
        r == all_digits(v@.subrange(from as int, to as int)),
{
    let ghost body = v@.subrange(from as int, to as int);
    let mut i: usize = from;
    while i < to
        invariant
            from <= i <= to <= v.len(),
            body == v@.subrange(from as int, to as int),
            forall|k: int| 0 <= k < i - from ==> is_digit(#[trigger] body[k]),
        decreases to - i,
    {
        assert(body[i - from] == v@[i as int]);
        if !digit(v[i]) {
            return false;
        }
        i = i + 1;
    }
    from < to
}

/// Whether `s` is the mantissa of a floating-point number.
fn mantissa(s: &str) -> (r: bool)
    ensures
        r == is_mantissa(s@),
{
    let v = chars_of(s);
    let n: usize = find_char(&v, '.');
    assert(v@.subrange(0, n as int) =~= s@.take(n as int));
    let whole = n == 0 || digits_between(&v, 0, n);
    if n < v.len() {
        assert(v@.subrange(n + 1, v@.len() as int) =~= s@.skip(n + 1));
        let part = n + 1 == v.len() || digits_between(&v, n + 1, v.len());
        whole && part && v.len() > 1
    } else {
        whole && n > 0
    }
}

/// Whether `s` is the exponent of a floating-point number.
fn exponent(s: &str) -> (r: bool)
    ensures
        r == is_exponent(s@),
{
    let v = chars_of(s);
    assert(v@.subrange(0, v@.len() as int) =~= v@);
    if digits_between(&v, 0, v.len()) {
        return true;
    }
    if v.len() > 0 && (v[0] == '+' || v[0] == '-') {
        assert(v@.subrange(1, v@.len() as int) =~= v@.skip(1));
        digits_between(&v, 1, v.len())
    } else {
        false
    }
}

/// Whether `s` reads as a floating-point number.
pub fn parses_as_float(s: &str) -> (r: bool)
    ensures
        r == is_float(s@),
{
    let t = ascii_lower(s);
    let v = chars_of(&t);
    let from: usize = if v.len() > 0 && (v[0] == '+' || v[0] == '-') {
        1
    } else {
        0
    };
    let body = string_of_range(&v, from, v.len());
    assert(v@.subrange(1, v@.len() as int) =~= v@.skip(1) || v@.len() == 0);
    assert(v@.subrange(0, v@.len() as int) =~= v@);
    if same(&body, "inf") || same(&body, "infinity") || same(&body, "nan") {
        return true;
    }
    let w = chars_of(&body);
    let n: usize = find_char(&w, 'e');
    let head = string_of_range(&w, 0, n);
    assert(head@ =~= body@.take(n as int));
    if !mantissa(&head) {
        return false;
    }
    if n == w.len() {
        return true;
    }
    let tail = string_of_range(&w, n + 1, w.len());
    assert(tail@ =~= body@.skip(n + 1));
    exponent(&tail)
}

/// Whether `a` comes before `b` in the order of their characters, from `i` on.
pub open spec fn before_from(a: Seq<char>, b: Seq<char>, i: int) -> bool
    decreases b.len() - i,
{
    if i < 0 || i >= b.len() {
        false
    } else if i >= a.len() {
        true
    } else if a[i] == b[i] {
        before_from(a, b, i + 1)
    } else {
        a[i] < b[i]
    }
}

/// Whether `a` comes before `b` in the order of their characters.
pub open spec fn text_before(a: Seq<char>, b: Seq<char>) -> bool {
    before_from(a, b, 0)
}

proof fn lemma_before_asymmetric(a: Seq<char>, b: Seq<char>, i: int)
    requires
        before_from(a, b, i),
    ensures
        !before_from(b, a, i),
    decreases b.len() - i,
{
    if 0 <= i < b.len() && i < a.len() && a[i] == b[i] {
        lemma_before_asymmetric(a, b, i + 1);
    }
}

proof fn lemma_before_transitive(a: Seq<char>, b: Seq<char>, c: Seq<char>, i: int)
    requires
        before_from(a, b, i),
        before_from(b, c, i),
    ensures
        before_from(a, c, i),
    decreases b.len() - i,
{
    if 0 <= i < b.len() && i < a.len() && i < c.len() && a[i] == b[i] && b[i] == c[i] {
        lemma_before_transitive(a, b, c, i + 1);
    }
}

proof fn lemma_before_total(a: Seq<char>, b: Seq<char>, i: int)
    requires
        0 <= i <= a.len(),
        i <= b.len(),
        !before_from(a, b, i),
        !before_from(b, a, i),
    ensures
        a.skip(i) == b.skip(i),
    decreases b.len() - i,
{
    if i < b.len() && i < a.len() {
        lemma_before_total(a, b, i + 1);
        assert(a.skip(i) =~= seq![a[i]] + a.skip(i + 1));
        assert(b.skip(i) =~= seq![b[i]] + b.skip(i + 1));
    } else {
        assert(a.skip(i) =~= b.skip(i));
    }
}

/// The order of texts is a strict total order: no text comes before itself, one
/// that comes before another which comes before a third comes before the third,
/// and of two different texts one comes before the other.
pub proof fn text_order(a: Seq<char>, b: Seq<char>, c: Seq<char>)
    ensures
        text_before(a, b) ==> !text_before(b, a),
        text_before(a, b) && text_before(b, c) ==> text_before(a, c),
        !text_before(a, b) && !text_before(b, a) ==> a == b,
{
    if text_before(a, b) {
        lemma_before_asymmetric(a, b, 0);
        if text_before(b, c) {
            lemma_before_transitive(a, b, c, 0);
        }
    } else if !text_before(b, a) {
        lemma_before_total(a, b, 0);
        assert(a.skip(0) =~= a);
        assert(b.skip(0) =~= b);
    }
}

/// Whether `a` comes before `b` in the order of their characters.
pub fn precedes_text(a: &str, b: &str) -> (r: bool)
    ensures
        r == text_before(a@, b@),
{
    let x = chars_of(a);
    let y = chars_of(b);
    let mut i: usize = 0;
    while i < y.len()
        invariant
            i <= y@.len(),
            i <= x@.len(),
            x@ == a@,
            y@ == b@,
            before_from(a@, b@, 0) == before_from(a@, b@, i as int),
        decreases y@.len() - i,
    {
        if i >= x.len() {
            return true;
        }
        if x[i] != y[i] {
            return x[i] < y[i];
        }
        i = i + 1;
    }
    false
}

/// Whether a character stands nowhere in a text.
pub open spec fn lacks(s: Seq<char>, c: char) -> bool {
    forall|i: int| 0 <= i < s.len() ==> #[trigger] s[i] != c
}

/// Text without the separator that is put behind another belongs to its last part.
pub proof fn lemma_split_grows(a: Seq<char>, b: Seq<char>, sep: char)
    requires
        lacks(b, sep),
    ensures
        split_on(a + b, sep) == split_on(a, sep).drop_last().push(split_on(a, sep).last() + b),
    decreases b.len(),
{
    lemma_split_nonempty(a, sep);
    let parts = split_on(a, sep);
    if b.len() == 0 {
        assert(a + b =~= a);
        assert(parts.last() + b =~= parts.last());
        assert(parts =~= parts.drop_last().push(parts.last()));
    } else {
        let front = b.drop_last();
        assert((a + b).drop_last() =~= a + front);
        assert(lacks(front, sep)) by {
            assert forall|i: int| 0 <= i < front.len() implies #[trigger] front[i] != sep by {
                assert(b[i] != sep);
            }
        }
        lemma_split_grows(a, front, sep);
        assert(b[b.len() - 1] != sep);
        let prior = parts.drop_last().push(parts.last() + front);
        assert(prior.drop_last() =~= parts.drop_last());
        assert((parts.last() + front).push(b.last()) =~= parts.last() + b);
    }
}

/// A text without the separator is its own only part, and a separator with such a text
/// behind it adds that text as one more part.
pub proof fn splits_stand_between_separators(a: Seq<char>, b: Seq<char>, sep: char)
    requires
        lacks(b, sep),
    ensures
        split_on(b, sep) == seq![b],
        split_on(a.push(sep) + b, sep) == split_on(a, sep).push(b),
{
    let none = Seq::<char>::empty();
    lemma_split_grows(none, b, sep);
    assert(none + b =~= b);
    assert(split_on(none, sep) =~= seq![none]);
    assert(split_on(b, sep) =~= seq![b]);
    let ended = a.push(sep);
    assert(ended.drop_last() =~= a);
    lemma_split_grows(ended, b, sep);
    let parts = split_on(ended, sep);
    assert(parts == split_on(a, sep).push(none));
    assert(parts.drop_last() =~= split_on(a, sep));
    assert(none + b =~= b);
}

/// Splitting a text and joining its parts with the separator gives the text back, and
/// no part holds the separator.
pub proof fn splitting_and_joining_undo_each_other(s: Seq<char>, sep: char)
    ensures
        joined(split_on(s, sep), seq![sep]) == s,
        forall|i: int| 0 <= i < split_on(s, sep).len() ==> lacks(#[trigger] split_on(s, sep)[i], sep),
    decreases s.len(),
{
    let parts = split_on(s, sep);
    if s.len() > 0 {
        let front = s.drop_last();
        splitting_and_joining_undo_each_other(front, sep);
        lemma_split_nonempty(front, sep);
        let before = split_on(front, sep);
        if s.last() == sep {
            assert(parts.drop_last() =~= before);
            assert(joined(parts, seq![sep]) =~= front + seq![sep]);
        } else {
            assert(parts.drop_last() =~= before.drop_last());
            assert(lacks(before[before.len() - 1], sep));
            let grown = before.last().push(s.last());
            assert forall|i: int| 0 <= i < grown.len() implies #[trigger] grown[i] != sep by {
                if i < before.last().len() {
                    assert(before.last()[i] != sep);
                }
            }
            assert forall|i: int| 0 <= i < parts.len() implies lacks(#[trigger] parts[i], sep) by {
                if i < parts.len() - 1 {
                    assert(parts[i] == before[i]);
                }
            }
            if parts.len() == 1 {
                assert(parts[0] =~= s);
            } else {
                assert(joined(parts, seq![sep]) =~= joined(before, seq![sep]).push(s.last()));
            }
        }
        assert(front.push(s.last()) =~= s);
    }
}

/// Joining adds one separator between a text and what is joined to it.
pub proof fn joining_adds_separators(parts: Seq<Seq<char>>, part: Seq<char>, sep: Seq<char>)
    ensures
        joined(Seq::empty(), sep) == Seq::<char>::empty(),
        joined(seq![part], sep) == part,
        parts.len() > 0 ==> joined(parts.push(part), sep) == joined(parts, sep) + sep + part,
{
    assert(parts.push(part).drop_last() =~= parts);
}

/// Trimming drops white space at both ends and nothing else: what is left is a stretch
/// of the text that neither begins nor ends with white space, with only white space
/// around it.
pub proof fn trimming_drops_only_white_space(s: Seq<char>)
    ensures
        ({
            let rest = skip_white(s);
            let kept = trimmed(s);
            let from = s.len() - rest.len();
            &&& 0 <= from && from + kept.len() <= s.len()
            &&& kept == s.subrange(from, from + kept.len())
            &&& kept.len() > 0 ==> !is_white(kept[0]) && !is_white(kept.last())
            &&& forall|i: int| 0 <= i < from ==> is_white(#[trigger] s[i])
            &&& forall|i: int| from + kept.len() <= i < s.len() ==> is_white(#[trigger] s[i])
        }),
{
    lemma_skipped(s);
    let rest = skip_white(s);
    let from = s.len() - rest.len();
    lemma_dropped(rest);
    let kept = trimmed(s);
    assert(kept =~= s.subrange(from, from + kept.len()));
    assert forall|i: int| from + kept.len() <= i < s.len() implies is_white(#[trigger] s[i]) by {
        assert(rest[i - from] == s[i]);
    }
    if kept.len() > 0 {
        assert(kept[0] == rest[0]);
    }
}

proof fn lemma_skipped(s: Seq<char>)
    ensures
        ({
            let rest = skip_white(s);
            let from = s.len() - rest.len();
            &&& 0 <= from
            &&& rest == s.skip(from)
            &&& rest.len() > 0 ==> !is_white(rest[0])
            &&& forall|i: int| 0 <= i < from ==> is_white(#[trigger] s[i])
        }),
    decreases s.len(),
{
    if s.len() > 0 && is_white(s[0]) {
        lemma_skipped(s.skip(1));
        let from = s.len() - skip_white(s).len();
        assert(s.skip(1).skip(from - 1) =~= s.skip(from));
        assert forall|i: int| 0 <= i < from implies is_white(#[trigger] s[i]) by {
            if i > 0 {
                assert(s.skip(1)[i - 1] == s[i]);
            }
        }
    } else {
        assert(s.skip(0) =~= s);
    }
}

proof fn lemma_dropped(s: Seq<char>)
    ensures
        ({
            let kept = drop_white(s);
            &&& kept.len() <= s.len()
            &&& kept == s.take(kept.len() as int)
            &&& kept.len() > 0 ==> !is_white(kept.last())
            &&& forall|i: int| kept.len() <= i < s.len() ==> is_white(#[trigger] s[i])
        }),
    decreases s.len(),
{
    let kept = drop_white(s);
    if s.len() > 0 && is_white(s.last()) {
        lemma_dropped(s.drop_last());
        assert(s.drop_last().take(kept.len() as int) =~= s.take(kept.len() as int));
        assert forall|i: int| kept.len() <= i < s.len() implies is_white(#[trigger] s[i]) by {
            if i < s.len() - 1 {
                assert(s.drop_last()[i] == s[i]);
            }
        }
    } else {
        assert(s.take(s.len() as int) =~= s);
    }
}

/// The blank, the tabs, the line ends and the blanks of other widths are white space, and
/// no letter, digit or sign is.
pub proof fn white_space_is_blank(c: char)
    ensures
        is_white(' ') && is_white('\t') && is_white('\n') && is_white('\r'),
        is_white('\u{b}') && is_white('\u{c}') && is_white('\u{a0}') && is_white('\u{3000}'),
        '!' <= c <= '~' ==> !is_white(c),
        c < '\t' || ('\r' < c < ' ') ==> !is_white(c),
        is_white('\u{85}') && is_white('\u{1680}') && is_white('\u{2000}') && is_white('\u{200a}'),
        is_white('\u{2028}') && is_white('\u{2029}') && is_white('\u{202f}') && is_white('\u{205f}'),
        !is_white('\u{200b}') && !is_white('\u{feff}'),
        '~' < c < '\u{1680}' && c != '\u{85}' && c != '\u{a0}' ==> !is_white(c),
        '\u{1680}' < c < '\u{2000}' || '\u{205f}' < c < '\u{3000}' || c > '\u{3000}' ==> !is_white(
            c,
        ),
        '\u{2000}' <= c <= '\u{200a}' ==> is_white(c),
        '\u{200a}' < c < '\u{2028}' || '\u{2029}' < c < '\u{202f}' || '\u{202f}' < c < '\u{205f}'
            ==> !is_white(c),
{
}

/// Splitting at the first or the last of a character parts the text there, and only
/// where the text holds the character.
pub proof fn splitting_once_parts_at_the_character(s: Seq<char>, c: char)
    ensures
        split_once(s, c) is None <==> lacks(s, c),
        rsplit_once(s, c) is None <==> lacks(s, c),
        split_once(s, c) matches Some((a, b)) ==> s == a.push(c) + b && lacks(a, c),
        rsplit_once(s, c) matches Some((a, b)) ==> s == a.push(c) + b && lacks(b, c),
{
    lemma_first_of(s, c);
    lemma_last_place(s, c);
    let n = first_of(s, c);
    if n < s.len() {
        assert(s =~= s.take(n).push(c) + s.skip(n + 1));
        assert(!lacks(s, c)) by {
            assert(s[n] == c);
        }
    }
    let m = last_of(s, c);
    if m >= 0 {
        assert(s =~= s.take(m).push(c) + s.skip(m + 1));
        let b = s.skip(m + 1);
        assert forall|i: int| 0 <= i < b.len() implies #[trigger] b[i] != c by {
            assert(s[m + 1 + i] != c);
        }
        assert(!lacks(s, c)) by {
            assert(s[m] == c);
        }
    }
}

proof fn lemma_last_place(s: Seq<char>, c: char)
    ensures
        -1 <= last_of(s, c) < s.len(),
        last_of(s, c) >= 0 ==> s[last_of(s, c)] == c,
        forall|i: int| last_of(s, c) < i < s.len() ==> #[trigger] s[i] != c,
    decreases s.len(),
{
    if s.len() > 0 && s.last() != c {
        lemma_last_place(s.drop_last(), c);
        assert forall|i: int| last_of(s, c) < i < s.len() implies #[trigger] s[i] != c by {
            if i < s.len() - 1 {
                assert(s.drop_last()[i] == s[i]);
            }
        }
        if last_of(s, c) >= 0 {
            assert(s.drop_last()[last_of(s, c)] == s[last_of(s, c)]);
        }
    }
}

/// Where a text is put together of two parts, the first can be taken off its beginning
/// and the second off its end.
pub proof fn parts_can_be_taken_off(a: Seq<char>, b: Seq<char>, s: Seq<char>)
    ensures
        without_prefix(a + b, a) == Some(b),
        without_suffix(a + b, b) == Some(a),
        without_prefix(s, a) matches Some(rest) ==> s == a + rest,
        without_suffix(s, b) matches Some(rest) ==> s == rest + b,
        has_prefix(s, a) <==> without_prefix(s, a) is Some,
        has_suffix(s, b) <==> without_suffix(s, b) is Some,
{
    assert((a + b).take(a.len() as int) =~= a);
    assert((a + b).skip(a.len() as int) =~= b);
    assert((a + b).skip((a + b).len() - b.len()) =~= b);
    assert((a + b).take((a + b).len() - b.len()) =~= a);
    if has_prefix(s, a) {
        assert(s =~= s.take(a.len() as int) + s.skip(a.len() as int));
    }
    if has_suffix(s, b) {
        assert(s =~= s.take(s.len() - b.len()) + s.skip(s.len() - b.len()));
    }
}

/// A line that is ended by a line feed, with a carriage return before it or not, is
/// one more line; text behind the last line end is a line of its own, and none is
/// added where nothing stands there.
pub proof fn lines_end_at_line_feeds(a: Seq<char>, line: Seq<char>)
    requires
        lacks(line, '\n'),
        a.len() == 0 || a.last() == '\n',
    ensures
        lines(Seq::empty()).len() == 0,
        line.len() > 0 ==> lines(a + line) == lines(a).push(line),
        line.len() == 0 || line.last() != '\r' ==> lines(a + line.push('\n')) == lines(a).push(
            line,
        ),
        lines(a + line.push('\r').push('\n')) == lines(a).push(line),
{
    let none = Seq::<char>::empty();
    assert(split_on(none, '\n') =~= seq![none]);
    lemma_split_nonempty(a, '\n');
    let parts = split_on(a, '\n');
    if a.len() == 0 {
        assert(a =~= none);
    }
    assert(parts.last().len() == 0);
    assert(parts.last() =~= none);
    lemma_split_grows(a, line, '\n');
    assert(none + line =~= line);
    let whole = split_on(a + line, '\n');
    assert(whole == parts.drop_last().push(line));
    if line.len() > 0 {
        assert(lines(a + line) =~= lines(a).push(line));
    }
    let ended = a + line.push('\n');
    assert(ended.drop_last() =~= a + line);
    assert(split_on(ended, '\n') == whole.push(none));
    if line.len() == 0 || line.last() != '\r' {
        assert(lines(ended) =~= lines(a).push(line));
    }
    let returned = line.push('\r');
    assert(lacks(returned, '\n'));
    lemma_split_grows(a, returned, '\n');
    assert(none + returned =~= returned);
    let full = a + returned.push('\n');
    assert(full.drop_last() =~= a + returned);
    let longer = split_on(a + returned, '\n');
    assert(longer == parts.drop_last().push(returned));
    assert(split_on(full, '\n') == longer.push(none));
    assert(returned.drop_last() =~= line);
    assert(lines(full) =~= lines(a).push(line));
}

/// Replacing goes character by character: it keeps every other character and puts the
/// replacement where the character stood.
pub proof fn replacing_goes_by_characters(a: Seq<char>, b: Seq<char>, c: char, to: Seq<char>)
    ensures
        replaced(a + b, c, to) == replaced(a, c, to) + replaced(b, c, to),
        replaced(seq![c], c, to) == to,
        lacks(b, c) ==> replaced(b, c, to) == b,
    decreases b.len(),
{
    assert(seq![c].drop_last() =~= Seq::<char>::empty());
    assert(replaced(seq![c].drop_last(), c, to) =~= Seq::<char>::empty());
    assert(replaced(seq![c], c, to) =~= to);
    if b.len() == 0 {
        assert(a + b =~= a);
        assert(replaced(a, c, to) + replaced(b, c, to) =~= replaced(a, c, to));
        assert(replaced(b, c, to) =~= b);
    } else {
        let front = b.drop_last();
        replacing_goes_by_characters(a, front, c, to);
        assert((a + b).drop_last() =~= a + front);
        assert(replaced(a + b, c, to) =~= replaced(a, c, to) + replaced(b, c, to));
        if lacks(b, c) {
            assert forall|i: int| 0 <= i < front.len() implies #[trigger] front[i] != c by {
                assert(b[i] != c);
            }
            assert(b[b.len() - 1] != c);
            assert(replaced(b, c, to) =~= b);
        }
    }
}

/// Lowering keeps the length of a text and everything but the capital letters, of
/// which it makes the small letter of the same name; it changes nothing twice.
pub proof fn lowering_changes_capitals_alone(s: Seq<char>, c: char)
    ensures
        lower(s).len() == s.len(),
        lower(s.push(c)).drop_last() == lower(s),
        c < 'A' || 'Z' < c ==> lower(s.push(c)).last() == c,
        'A' <= c <= 'Z' ==> 'a' <= lower(s.push(c)).last() <= 'z' && lower(s.push(c)).last() as u32
            - 'a' as u32 == c as u32 - 'A' as u32,
        lower(lower(s)) == lower(s),
{
    assert(lower(s.push(c)).drop_last() =~= lower(s));
    assert(lower(lower(s)) =~= lower(s));
}

/// The digits of a number have the value of the number, and the first of them is zero
/// only where it is the only one.
pub proof fn digits_have_their_value(n: nat)
    ensures
        all_digits(decimal(n)),
        digits_value(decimal(n)) == n,
        decimal(n).len() > 1 ==> decimal(n)[0] != '0',
    decreases n,
{
    if n < 10 {
        assert(decimal(n).drop_last() =~= Seq::<char>::empty());
        assert(digits_value(decimal(n)) == digits_value(Seq::<char>::empty()) * 10 + n);
    } else {
        digits_have_their_value(n / 10);
        let front = decimal(n / 10);
        assert(decimal(n).drop_last() =~= front);
        assert(decimal(n).last() == digit_char(n % 10));
        assert forall|i: int| 0 <= i < decimal(n).len() implies is_digit(
            #[trigger] decimal(n)[i],
        ) by {
            if i < front.len() {
                assert(decimal(n)[i] == front[i]);
            }
        }
        assert(decimal(n)[0] == front[0]);
        if front.len() == 1 {
            assert(n / 10 < 10) by {
                if n / 10 >= 10 {
                    assert(decimal(n / 10 / 10).len() > 0) by {
                        digits_have_their_value(n / 10 / 10);
                    }
                }
            }
            assert(front[0] == digit_char(n / 10));
        }
    }
}

/// A number reads back as it is written, with a plus sign too, and with a minus sign
/// below zero, as far as it fits; a text that is empty or holds a sign alone is none.
pub proof fn numbers_read_back(n: nat, max: nat)
    ensures
        n <= max ==> unsigned_value(decimal(n), max) == Some(n),
        n <= max ==> unsigned_value(seq!['+'] + decimal(n), max) == Some(n),
        n > max ==> unsigned_value(decimal(n), max) is None,
        n <= 0x7fff_ffff_ffff_ffff ==> signed_value(decimal(n)) == Some(n as int),
        n > 0x7fff_ffff_ffff_ffff ==> signed_value(decimal(n)) is None,
        n <= 0x8000_0000_0000_0000 ==> signed_value(seq!['-'] + decimal(n)) == Some(-(n as int)),
        n > 0x8000_0000_0000_0000 ==> signed_value(seq!['-'] + decimal(n)) is None,
        unsigned_value(Seq::empty(), max) is None,
        unsigned_value(seq!['+'], max) is None,
        unsigned_value(seq!['-'] + decimal(n), max) is None,
        signed_value(seq!['-']) is None,
{
    digits_have_their_value(n);
    let digits = decimal(n);
    assert(is_digit(digits[0]));
    let plus = seq!['+'] + digits;
    assert(plus.skip(1) =~= digits);
    assert(plus[0] == '+');
    let minus = seq!['-'] + digits;
    assert(minus.skip(1) =~= digits);
    assert(minus[0] == '-');
    assert(!is_digit(minus[0]));
    assert(!is_digit(seq!['+'][0]));
    assert(!is_digit(seq!['-'][0]));
}

/// A text stands before another where it is a beginning of it, or where it has the
/// smaller character at the first place in which they differ.
pub proof fn first_difference_decides(
    common: Seq<char>,
    a: char,
    rest: Seq<char>,
    b: char,
    other: Seq<char>,
)
    ensures
        text_before(common, common.push(a) + rest),
        !text_before(common, common),
        !text_before(common.push(a) + rest, common),
        a < b ==> text_before(common.push(a) + rest, common.push(b) + other),
        b < a ==> !text_before(common.push(a) + rest, common.push(b) + other),
{
    assert(common.take(common.len() as int) =~= common);
    assert((common.push(a) + rest).take(common.len() as int) =~= common);
    assert((common.push(b) + other).take(common.len() as int) =~= common);
    lemma_common_beginning(common, common.push(a) + rest, common, 0);
    lemma_common_beginning(common, common, common, 0);
    lemma_common_beginning(common.push(a) + rest, common, common, 0);
    lemma_common_beginning(common.push(a) + rest, common.push(b) + other, common, 0);
}

proof fn lemma_common_beginning(a: Seq<char>, b: Seq<char>, common: Seq<char>, i: int)
    requires
        0 <= i <= common.len(),
        has_prefix(a, common),
        has_prefix(b, common),
    ensures
        before_from(a, b, i) == before_from(a, b, common.len() as int),
    decreases common.len() - i,
{
    if i < common.len() {
        assert(a.take(common.len() as int)[i] == a[i]);
        assert(b.take(common.len() as int)[i] == b[i]);
        lemma_common_beginning(a, b, common, i + 1);
    }
}

/// A number is digits, with a part behind a point or not, with an exponent or not; a sign
/// may stand before it, and case says nothing.
pub proof fn numbers_have_their_forms(n: nat, m: nat, k: nat)
    ensures
        is_float(decimal(n)),
        is_float(seq!['-'] + decimal(n)),
        is_float(seq!['+'] + decimal(n)),
        is_float(decimal(n).push('.')),
        is_float(decimal(n).push('.') + decimal(m)),
        is_float(seq!['.'] + decimal(m)),
        is_float(decimal(n).push('e') + decimal(k)),
        is_float(decimal(n).push('E') + decimal(k)),
        is_float(decimal(n).push('e') + (seq!['-'] + decimal(k))),
        is_float(decimal(n).push('e') + (seq!['+'] + decimal(k))),
        !is_float(Seq::empty()),
        !is_float(seq!['.']),
        !is_float(seq!['-']),
        !is_float(decimal(n).push('e')),
        !is_float(decimal(n).push('x')),
        !is_float(decimal(n).push(' ')),
{
    reveal_strlit("inf");
    reveal_strlit("infinity");
    reveal_strlit("nan");
    assert("inf"@[0] == 'i' && "infinity"@[0] == 'i' && "nan"@[0] == 'n');
    digits_have_their_value(n);
    digits_have_their_value(m);
    digits_have_their_value(k);
    let a = decimal(n);
    let b = decimal(m);
    let c = decimal(k);
    let none = Seq::<char>::empty();
    lemma_lower_plain(a);
    lemma_lower_plain(b);
    lemma_lower_plain(c);
    lemma_plain_mantissa(a);
    assert(is_digit(a[0]));
    lemma_float_of(a, a, none);
    let dotted = a.push('.');
    lemma_mantissa(a, none);
    assert(a.push('.') + none =~= dotted);
    lemma_float_of(dotted, dotted, none);
    let parted = a.push('.') + b;
    lemma_mantissa(a, b);
    lemma_float_of(parted, parted, none);
    let part = seq!['.'] + b;
    lemma_mantissa(none, b);
    assert(none.push('.') + b =~= part);
    lemma_float_of(part, part, none);
    let minus = seq!['-'] + c;
    assert(minus.skip(1) =~= c);
    assert(is_exponent(c));
    assert(is_exponent(minus));
    let small = a.push('e') + c;
    let shifted = a.push('e') + minus;
    lemma_float_of(small, a, c);
    lemma_float_of(shifted, a, minus);
    let plus = seq!['+'] + c;
    assert(plus.skip(1) =~= c);
    assert(is_exponent(plus));
    let raised = a.push('e') + plus;
    lemma_float_of(raised, a, plus);
    assert(lower(raised) =~= raised);
    assert(lower(small) =~= small);
    assert(lower(shifted) =~= shifted);
    let big = a.push('E') + c;
    assert(lower(big) =~= small);
    assert(lower(parted) =~= parted);
    assert(lower(part) =~= part);
    assert(lower(dotted) =~= dotted);
    let negative = seq!['-'] + a;
    let positive = seq!['+'] + a;
    assert(lower(negative) =~= negative);
    assert(lower(positive) =~= positive);
    assert(negative.skip(1) =~= a);
    assert(positive.skip(1) =~= a);
    assert(lower(none) =~= none);
    assert(none.take(first_of(none, 'e')) =~= none);
    assert(!is_mantissa(none)) by {
        assert(none.take(first_of(none, '.')) =~= none);
    }
    let dot = seq!['.'];
    assert(lower(dot) =~= dot);
    lemma_first_of(dot, 'e');
    assert(dot.take(1) =~= dot);
    lemma_first_of(dot, '.');
    assert(first_of(dot, '.') == 0);
    assert(dot.take(0) =~= none);
    assert(dot.skip(1) =~= none);
    assert(!is_mantissa(dot));
    let dash = seq!['-'];
    assert(lower(dash) =~= dash);
    assert(dash.skip(1) =~= none);
    let open = a.push('e');
    assert(lower(open) =~= open);
    lemma_first_of_unique(open, 'e', a.len() as int);
    assert(open.skip(a.len() as int + 1) =~= none);
    assert(!is_exponent(none));
    lemma_strange_end(a, 'x');
    lemma_strange_end(a, ' ');
}

proof fn lemma_lower_plain(digits: Seq<char>)
    requires
        all_digits(digits),
    ensures
        lower(digits) == digits,
{
    assert forall|i: int| 0 <= i < digits.len() implies #[trigger] lower(digits)[i]
        == digits[i] by {
        assert(is_digit(digits[i]));
    }
    assert(lower(digits) =~= digits);
}

proof fn lemma_plain_mantissa(digits: Seq<char>)
    requires
        all_digits(digits),
    ensures
        is_mantissa(digits),
{
    lemma_first_of(digits, '.');
    let n = first_of(digits, '.');
    if n < digits.len() {
        assert(is_digit(digits[n]));
    }
    assert(digits.take(n) =~= digits);
}

proof fn lemma_mantissa(whole: Seq<char>, part: Seq<char>)
    requires
        whole.len() == 0 || all_digits(whole),
        part.len() == 0 || all_digits(part),
        whole.len() + part.len() > 0,
    ensures
        is_mantissa(whole.push('.') + part),
{
    let s = whole.push('.') + part;
    let n = whole.len() as int;
    assert forall|i: int| 0 <= i < n implies #[trigger] s[i] != '.' by {
        assert(is_digit(whole[i]));
    }
    lemma_first_of_unique(s, '.', n);
    assert(s.take(n) =~= whole);
    assert(s.skip(n + 1) =~= part);
}

proof fn lemma_float_of(s: Seq<char>, head: Seq<char>, exponent: Seq<char>)
    requires
        is_mantissa(head),
        head.len() > 0,
        head[0] == '.' || is_digit(head[0]),
        forall|i: int| 0 <= i < head.len() ==> (#[trigger] head[i] == '.' || is_digit(head[i])),
        s == head && exponent.len() == 0 || s == head.push('e') + exponent && is_exponent(exponent),
    ensures
        is_unsigned_float(s),
        s[0] == head[0],
{
    let n = head.len() as int;
    assert forall|i: int| 0 <= i < n implies #[trigger] s[i] != 'e' by {
        assert(s[i] == head[i]);
    }
    if s == head {
        lemma_first_of(s, 'e');
        assert(first_of(s, 'e') == n);
        assert(s.take(n) =~= head);
    } else {
        lemma_first_of_unique(s, 'e', n);
        assert(s.take(n) =~= head);
        assert(s.skip(n + 1) =~= exponent);
    }
}

proof fn lemma_strange_end(digits: Seq<char>, c: char)
    requires
        all_digits(digits),
        c == 'x' || c == ' ',
    ensures
        !is_float(digits.push(c)),
{
    reveal_strlit("inf");
    reveal_strlit("infinity");
    reveal_strlit("nan");
    let s = digits.push(c);
    let n = digits.len() as int;
    lemma_lower_plain(digits);
    assert(lower(s) =~= s);
    assert(is_digit(digits[0]));
    assert(s[0] == digits[0]);
    assert("inf"@[0] == 'i' && "infinity"@[0] == 'i' && "nan"@[0] == 'n');
    assert forall|i: int| 0 <= i < s.len() implies #[trigger] s[i] != 'e' && s[i] != '.' by {
        if i < n {
            assert(is_digit(digits[i]));
        }
    }
    lemma_first_of(s, 'e');
    assert(s.take(n + 1) =~= s);
    lemma_first_of(s, '.');
    assert(first_of(s, '.') == n + 1);
    assert(!is_digit(s[n]));
    assert(!all_digits(s));
}

} // verus!
