//! Delimited text: guessing the delimiter, splitting records, padding rows, and
//! reading headers and columns from them.

use vstd::prelude::*;
use vstd::string::*;

use crate::encoding::{self, IngestError, IngestErrorModel, decode_input};
use crate::options::{ParseModel, ParseOptions, Quoting};
use crate::text::{self, chars_of, join, lines_of, string_of, string_of_range, trim, white};

verus! {

// ---------------------------------------------------------------------------
// Guessing the delimiter
// ---------------------------------------------------------------------------

/// How a line is read up to some point: the fields so far, the quote that is
/// open, and the character read last.
pub struct FieldScan {
    pub fields: nat,
    pub quote: Option<char>,
    pub previous: char,
}

/// Reading one more character. A quote opens or closes unless a backslash stands
/// before it; a delimiter outside quotes starts a field.
pub open spec fn scan_step(s: FieldScan, c: char, delimiter: char) -> FieldScan {
    if (c == '"' || c == '\'') && s.previous != '\\' {
        FieldScan {
            fields: s.fields,
            quote: if s.quote == Some(c) {
                None
            } else if s.quote is None {
                Some(c)
            } else {
                s.quote
            },
            previous: c,
        }
    } else if c == delimiter && s.quote is None {
        FieldScan { fields: s.fields + 1, quote: s.quote, previous: c }
    } else {
        FieldScan { fields: s.fields, quote: s.quote, previous: c }
    }
}

/// Reading a whole line.
pub open spec fn scan_line(line: Seq<char>, delimiter: char) -> FieldScan
    decreases line.len(),
{
    if line.len() == 0 {
        FieldScan { fields: 1, quote: None, previous: '\0' }
    } else {
        scan_step(scan_line(line.drop_last(), delimiter), line.last(), delimiter)
    }
}

/// The number of fields of a line.
pub open spec fn field_count(line: Seq<char>, delimiter: char) -> nat {
    scan_line(line, delimiter).fields
}

/// The number of fields of a line.
fn count_fields(line: &str, delimiter: char) -> (r: u128)
    ensures
        r == field_count(line@, delimiter),
        r >= 1,
        r <= usize::MAX as nat + 1,
{
    let v = chars_of(line);
    let mut fields: u128 = 1;
    let mut quote: Option<char> = None;
    let mut previous: char = '\0';
    let mut i: usize = 0;
    while i < v.len()
        invariant
            i <= v.len(),
            1 <= fields <= i + 1,
            scan_line(v@.take(i as int), delimiter) == (FieldScan {
                fields: fields as nat,
                quote,
                previous,
            }),
        decreases v.len() - i,
    {
        let c = v[i];
        assert(v@.take(i + 1).drop_last() =~= v@.take(i as int));
        assert(v@.take(i + 1).last() == c);
        if (c == '"' || c == '\'') && previous != '\\' {
            quote = match quote {
                Some(q) => if q == c {
                    None
                } else {
                    quote
                },
                None => Some(c),
            };
        } else if c == delimiter && quote.is_none() {
            fields = fields + 1;
        }
        previous = c;
        i = i + 1;
    }
    assert(v@.take(v@.len() as int) =~= v@);
    fields
}

/// The lines that hold more than white space.
pub open spec fn nonblank(lines: Seq<Seq<char>>) -> Seq<Seq<char>>
    decreases lines.len(),
{
    if lines.len() == 0 {
        Seq::empty()
    } else {
        let front = nonblank(lines.drop_last());
        if text::trimmed(lines.last()).len() > 0 {
            front.push(lines.last())
        } else {
            front
        }
    }
}

/// The lines that the delimiter is guessed from: the first twenty that are not blank.
pub open spec fn sniff_sample(text: Seq<char>) -> Seq<Seq<char>> {
    let all = nonblank(text::lines(text));
    if all.len() > 20 {
        all.take(20)
    } else {
        all
    }
}

/// The lines that the delimiter is guessed from.
fn sample_lines(text: &str) -> (r: Vec<String>)
    ensures
        text::views(r@) == sniff_sample(text@),
{
    let all = lines_of(text);
    let ghost model = text::lines(text@);
    let mut sample: Vec<String> = Vec::new();
    let mut i: usize = 0;
    assert(text::views(sample@) =~= nonblank(model.take(0)));
    while i < all.len() && sample.len() < 20
        invariant
            i <= all.len(),
            text::views(all@) == model,
            sample.len() <= 20,
            text::views(sample@) == nonblank(model.take(i as int)),
        decreases all.len() - i,
    {
        assert(model.take(i + 1).drop_last() =~= model.take(i as int));
        assert(model.take(i + 1).last() == all@[i as int]@);
        if !trim(&all[i]).as_str().is_empty() {
            let line = all[i].clone();
            proof {
                text::lemma_views_push(sample@, line);
            }
            sample.push(line);
        }
        i = i + 1;
    }
    proof {
        lemma_nonblank_prefix(model, i as int);
        if i == all.len() {
            assert(model.take(i as int) =~= model);
        }
        assert(text::views(sample@) =~= sniff_sample(text@));
    }
    sample
}

proof fn lemma_nonblank_prefix(lines: Seq<Seq<char>>, n: int)
    requires
        0 <= n <= lines.len(),
    ensures
        nonblank(lines.take(n)).len() <= nonblank(lines).len(),
        nonblank(lines).take(nonblank(lines.take(n)).len() as int) == nonblank(lines.take(n)),
    decreases lines.len(),
{
    if n == lines.len() {
        assert(lines.take(n) =~= lines);
        assert(nonblank(lines).take(nonblank(lines).len() as int) =~= nonblank(lines));
    } else {
        let front = lines.drop_last();
        lemma_nonblank_prefix(front, n);
        assert(front.take(n) =~= lines.take(n));
        let small = nonblank(lines.take(n));
        assert(nonblank(lines).take(small.len() as int) =~= nonblank(front).take(
            small.len() as int,
        ));
    }
}

/// The field counts above one, line by line.
pub open spec fn split_counts(lines: Seq<Seq<char>>, delimiter: char) -> Seq<nat>
    decreases lines.len(),
{
    if lines.len() == 0 {
        Seq::empty()
    } else {
        let front = split_counts(lines.drop_last(), delimiter);
        let n = field_count(lines.last(), delimiter);
        if n > 1 {
            front.push(n)
        } else {
            front
        }
    }
}

/// How often `n` occurs in `counts`.
pub open spec fn occurrences(counts: Seq<nat>, n: nat) -> nat
    decreases counts.len(),
{
    if counts.len() == 0 {
        0
    } else {
        occurrences(counts.drop_last(), n) + if counts.last() == n {
            1nat
        } else {
            0nat
        }
    }
}

/// How well a delimiter fits: a hundred for each line that agrees with the first
/// line that it splits, plus the number of fields of that line.
pub open spec fn score(lines: Seq<Seq<char>>, delimiter: u8) -> Option<nat> {
    let counts = split_counts(lines, delimiter as char);
    if counts.len() == 0 {
        None
    } else {
        Some(occurrences(counts, counts[0]) * 100 + counts[0])
    }
}

/// How well a delimiter fits.
fn score_delimiter(lines: &Vec<String>, delimiter: u8) -> (r: Option<u128>)
    requires
        lines@.len() <= 20,
    ensures
        match r {
            Some(n) => score(text::views(lines@), delimiter) == Some(n as nat),
            None => score(text::views(lines@), delimiter) is None,
        },
{
    let ghost model = text::views(lines@);
    let mut first: u128 = 0;
    let mut agreeing: u128 = 0;
    let mut i: usize = 0;
    while i < lines.len()
        invariant
            i <= lines.len() <= 20,
            model == text::views(lines@),
            agreeing <= i,
            first <= usize::MAX as nat + 1,
            ({
                let counts = split_counts(model.take(i as int), delimiter as char);
                if first == 0 {
                    counts.len() == 0 && agreeing == 0
                } else {
                    counts.len() > 0 && counts[0] == first && agreeing == occurrences(
                        counts,
                        first as nat,
                    )
                }
            }),
        decreases lines.len() - i,
    {
        assert(model.take(i + 1).drop_last() =~= model.take(i as int));
        assert(model.take(i + 1).last() == lines@[i as int]@);
        let n: u128 = count_fields(&lines[i], delimiter as char);
        let ghost front = split_counts(model.take(i as int), delimiter as char);
        if n > 1 {
            if first == 0 {
                first = n;
            }
            if n == first {
                agreeing = agreeing + 1;
            }
            proof {
                assert(front.push(n as nat).drop_last() =~= front);
                if front.len() == 0 {
                    assert(occurrences(front, first as nat) == 0);
                }
            }
        }
        i = i + 1;
    }
    assert(model.take(model.len() as int) =~= model);
    if first == 0 {
        None
    } else {
        Some(agreeing * 100 + first)
    }
}

/// The best of the candidates for some lines, with its score; of equally good
/// ones the last.
pub open spec fn best_delimiter(lines: Seq<Seq<char>>, candidates: Seq<u8>) -> Option<(u8, nat)>
    decreases candidates.len(),
{
    if candidates.len() == 0 {
        None
    } else {
        let before = best_delimiter(lines, candidates.drop_last());
        match score(lines, candidates.last()) {
            None => before,
            Some(n) => match before {
                Some((d, m)) => if m > n {
                    before
                } else {
                    Some((candidates.last(), n))
                },
                None => Some((candidates.last(), n)),
            },
        }
    }
}

/// The delimiters that are considered: comma, tab, semicolon, bar and space.
pub open spec fn delimiter_candidates() -> Seq<u8> {
    seq![0x2cu8, 0x09u8, 0x3bu8, 0x7cu8, 0x20u8]
}

/// The delimiter that a text seems to use.
pub open spec fn sniffed(text: Seq<char>) -> Option<u8> {
    match best_delimiter(sniff_sample(text), delimiter_candidates()) {
        Some((d, _)) => Some(d),
        None => None,
    }
}

/// Guesses the delimiter of a text from its first lines.
pub fn sniff_delimiter(text: &str) -> (r: Option<u8>)
    ensures
        r == sniffed(text@),
{
    let sample = sample_lines(text);
    let candidates: Vec<u8> = vec![0x2cu8, 0x09u8, 0x3bu8, 0x7cu8, 0x20u8];
    assert(candidates@ =~= delimiter_candidates());
    let mut best: Option<(u8, u128)> = None;
    let mut i: usize = 0;
    while i < candidates.len()
        invariant
            i <= candidates.len(),
            sample.len() <= 20,
            match best {
                Some((d, n)) => best_delimiter(text::views(sample@), candidates@.take(i as int)) == Some(
                    (d, n as nat),
                ),
                None => best_delimiter(text::views(sample@), candidates@.take(i as int)) is None,
            },
        decreases candidates.len() - i,
    {
        assert(candidates@.take(i + 1).drop_last() =~= candidates@.take(i as int));
        if let Some(n) = score_delimiter(&sample, candidates[i]) {
            let better = match best {
                Some((_, m)) => m <= n,
                None => true,
            };
            if better {
                best = Some((candidates[i], n));
            }
        }
        i = i + 1;
    }
    assert(candidates@.take(candidates@.len() as int) =~= candidates@);
    match best {
        Some((d, _)) => Some(d),
        None => None,
    }
}

proof fn lemma_best_is_candidate(lines: Seq<Seq<char>>, candidates: Seq<u8>)
    ensures
        match best_delimiter(lines, candidates) {
            Some((d, n)) => {
                &&& candidates.contains(d)
                &&& score(lines, d) == Some(n)
                &&& forall|k: int|
                    0 <= k < candidates.len() ==> match score(lines, #[trigger] candidates[k]) {
                        Some(m) => m <= n,
                        None => true,
                    }
            },
            None => forall|k: int|
                0 <= k < candidates.len() ==> score(lines, #[trigger] candidates[k]) is None,
        },
    decreases candidates.len(),
{
    if candidates.len() > 0 {
        let front = candidates.drop_last();
        lemma_best_is_candidate(lines, front);
        assert(candidates.contains(candidates.last())) by {
            assert(candidates[candidates.len() - 1] == candidates.last());
        }
        assert forall|k: int| 0 <= k < front.len() implies candidates[k] == front[k] by {}
        match best_delimiter(lines, front) {
            Some((d, _)) => {
                let k = choose|k: int| 0 <= k < front.len() && front[k] == d;
                assert(candidates[k] == d);
            },
            None => {},
        }
        assert forall|k: int| 0 <= k < candidates.len() implies match best_delimiter(
            lines,
            candidates,
        ) {
            Some((d, n)) => match score(lines, #[trigger] candidates[k]) {
                Some(m) => m <= n,
                None => true,
            },
            None => score(lines, candidates[k]) is None,
        } by {
            if k < front.len() {
                assert(candidates[k] == front[k]);
            }
        }
    }
}

/// A guessed delimiter is one of the candidates, and no other candidate scores higher.
pub proof fn sniffed_delimiter_scores_highest(text: Seq<char>)
    ensures
        match sniffed(text) {
            Some(d) => {
                &&& delimiter_candidates().contains(d)
                &&& score(sniff_sample(text), d) is Some
                &&& forall|k: int|
                    0 <= k < delimiter_candidates().len() ==> match score(
                        sniff_sample(text),
                        #[trigger] delimiter_candidates()[k],
                    ) {
                        Some(m) => m <= score(sniff_sample(text), d)->0,
                        None => true,
                    }
            },
            None => forall|k: int|
                0 <= k < delimiter_candidates().len() ==> score(
                    sniff_sample(text),
                    #[trigger] delimiter_candidates()[k],
                ) is None,
        },
{
    lemma_best_is_candidate(sniff_sample(text), delimiter_candidates());
}

// ---------------------------------------------------------------------------
// Space-delimited text
// ---------------------------------------------------------------------------

/// The words of a line, given the quote that is open and the word begun so far.
/// Quotes hold white space together and are dropped, a backslash takes the next
/// character as it is, and empty words are left out.
pub open spec fn shell_words(
    line: Seq<char>,
    quote: Option<char>,
    current: Seq<char>,
) -> Seq<Seq<char>>
    decreases line.len(),
{
    if line.len() == 0 {
        if current.len() > 0 {
            seq![current]
        } else {
            Seq::empty()
        }
    } else {
        let c = line[0];
        let rest = line.skip(1);
        if (c == '"' || c == '\'') && quote == Some(c) {
            shell_words(rest, None, current)
        } else if (c == '"' || c == '\'') && quote is None {
            shell_words(rest, Some(c), current)
        } else if c == '\\' {
            if rest.len() > 0 {
                shell_words(rest.skip(1), quote, current.push(rest[0]))
            } else {
                shell_words(rest, quote, current)
            }
        } else if text::is_white(c) && quote is None {
            if current.len() > 0 {
                seq![current] + shell_words(rest, None, Seq::empty())
            } else {
                shell_words(rest, None, Seq::empty())
            }
        } else {
            shell_words(rest, quote, current.push(c))
        }
    }
}

/// The words of a line.
pub fn split_shell_like(line: &str) -> (r: Vec<String>)
    ensures
        text::views(r@) == shell_words(line@, None, Seq::empty()),
{
    let v = chars_of(line);
    let mut parts: Vec<String> = Vec::new();
    let mut current = String::new();
    let mut quote: Option<char> = None;
    let mut i: usize = 0;
    let ghost goal = shell_words(v@, None, Seq::empty());
    proof {
        assert(v@.skip(0) =~= v@);
        assert(text::views(parts@) + goal =~= goal);
    }
    while i < v.len()
        invariant
            i <= v.len(),
            goal == text::views(parts@) + shell_words(v@.skip(i as int), quote, current@),
        decreases v.len() - i,
    {
        let c = v[i];
        let ghost rest = v@.skip(i as int).skip(1);
        assert(rest =~= v@.skip(i + 1));
        let is_quote = c == '"' || c == '\'';
        let closes = match quote {
            Some(q) => q == c,
            None => false,
        };
        if is_quote && closes {
            quote = None;
        } else if is_quote && quote.is_none() {
            quote = Some(c);
        } else if c == '\\' {
            if i + 1 < v.len() {
                assert(rest.skip(1) =~= v@.skip(i + 2));
                current.push(v[i + 1]);
                i = i + 1;
            }
        } else if white(c) && quote.is_none() {
            if !current.as_str().is_empty() {
                proof {
                    text::lemma_views_push(parts@, current);
                    assert(text::views(parts@) + (seq![current@] + shell_words(
                        rest,
                        None,
                        Seq::empty(),
                    )) =~= text::views(parts@).push(current@) + shell_words(rest, None, Seq::empty()));
                }
                parts.push(current);
                current = String::new();
            } else {
                assert(current@ =~= Seq::<char>::empty());
            }
        } else {
            current.push(c);
        }
        i = i + 1;
    }
    proof {
        assert(v@.skip(v@.len() as int).len() == 0);
        if current@.len() > 0 {
            text::lemma_views_push(parts@, current);
            assert(text::views(parts@) + seq![current@] =~= text::views(parts@).push(current@));
        } else {
            assert(text::views(parts@) + Seq::<Seq<char>>::empty() =~= text::views(parts@));
        }
    }
    if !current.as_str().is_empty() {
        parts.push(current);
    }
    parts
}

/// A first line without the mark of a comment.
pub open spec fn without_comment_mark(line: Seq<char>) -> Seq<char> {
    if line.len() > 0 && (line[0] == '#' || line[0] == '%') {
        line.skip(1)
    } else {
        line
    }
}

/// A first line without the mark of a comment.
pub fn strip_comment_mark(line: &str) -> (r: String)
    ensures
        r@ == without_comment_mark(line@),
{
    let v = chars_of(line);
    if v.len() > 0 && (v[0] == '#' || v[0] == '%') {
        assert(v@.subrange(1, v@.len() as int) =~= v@.skip(1));
        string_of_range(&v, 1, v.len())
    } else {
        string_of(&v)
    }
}

/// The words of line `i` of a space-delimited text, with one space between them.
pub open spec fn spaced_line(lines: Seq<Seq<char>>, i: int) -> Seq<char> {
    let line = if i == 0 {
        without_comment_mark(lines[i])
    } else {
        lines[i]
    };
    text::joined(shell_words(line, None, Seq::empty()), " "@)
}

/// A space-delimited text with exactly one space between the words of each line.
pub open spec fn spaced(text: Seq<char>) -> Seq<char> {
    let all = text::lines(text);
    text::joined(Seq::new(all.len(), |i: int| spaced_line(all, i)), "\n"@)
}

/// A space-delimited text with exactly one space between the words of each line.
pub fn normalize_space_delimited(text: &str) -> (r: String)
    ensures
        r@ == spaced(text@),
{
    let all = lines_of(text);
    let ghost model = text::lines(text@);
    let mut out: Vec<String> = Vec::new();
    let mut i: usize = 0;
    assert(text::views(out@) =~= Seq::new(0, |k: int| spaced_line(model, k)));
    while i < all.len()
        invariant
            i <= all.len(),
            text::views(all@) == model,
            text::views(out@) == Seq::new(i as nat, |k: int| spaced_line(model, k)),
        decreases all.len() - i,
    {
        assert(model[i as int] == all@[i as int]@);
        let line = if i == 0 {
            strip_comment_mark(&all[i])
        } else {
            all[i].clone()
        };
        let words = split_shell_like(&line);
        let text_line = join(&words, " ");
        proof {
            text::lemma_views_push(out@, text_line);
        }
        out.push(text_line);
        assert(text::views(out@) =~= Seq::new((i + 1) as nat, |k: int| spaced_line(model, k)));
        i = i + 1;
    }
    join(&out, "\n")
}

// ---------------------------------------------------------------------------
// Records and rows
// ---------------------------------------------------------------------------

/// The records that `csv::Reader::records` reads from a text, or the text of the
/// error that it stops at.
pub uninterp spec fn csv_records(
    text: Seq<char>,
    delimiter: u8,
    quote: u8,
    quoting: bool,
) -> Result<Seq<Seq<Seq<char>>>, Seq<char>>;

/// The characters of rows or of an error text.
pub open spec fn records_view(r: Result<Vec<Vec<String>>, String>) -> Result<
    Seq<Seq<Seq<char>>>,
    Seq<char>,
> {
    match r {
        Ok(rows) => Ok(text::row_views(rows@)),
        Err(e) => Err(e@),
    }
}

/// `csv::Reader::records` on the bytes of the text, built without headers and
/// with records of any length: all records, or the text of the first error. How
/// records are cut is left to that function; the delimiter, the quote character
/// and whether quotes count are handed to it as they are.
#[verifier::external_body]
fn read_records(text: &str, delimiter: u8, quote: u8, quoting: bool) -> (r: Result<
    Vec<Vec<String>>,
    String,
>)
    ensures
        records_view(r) == csv_records(text@, delimiter, quote, quoting),
{
    let mut builder = csv::ReaderBuilder::new();
    builder.has_headers(false).flexible(true).delimiter(delimiter).quote(quote).quoting(quoting);
    let mut reader = builder.from_reader(text.as_bytes());
    reader.records().map(|record| {
        record.map(|row| row.iter().map(|cell| cell.to_owned()).collect::<Vec<String>>())
    }).collect::<Result<Vec<Vec<String>>, csv::Error>>().map_err(|error| error.to_string())
}

/// The length of the longest row.
pub open spec fn widest<T>(rows: Seq<Seq<T>>) -> nat
    decreases rows.len(),
{
    if rows.len() == 0 {
        0
    } else {
        let front = widest(rows.drop_last());
        if rows.last().len() > front {
            rows.last().len()
        } else {
            front
        }
    }
}

/// `row` with empty cells up to a length of `n`.
pub open spec fn padded_row(row: Seq<Seq<char>>, n: nat) -> Seq<Seq<char>> {
    Seq::new(
        n,
        |i: int|
            if i < row.len() {
                row[i]
            } else {
                Seq::empty()
            },
    )
}

/// Rows of one length: each padded with empty cells to the longest.
pub open spec fn padded(rows: Seq<Seq<Seq<char>>>) -> Seq<Seq<Seq<char>>> {
    Seq::new(rows.len(), |i: int| padded_row(rows[i], widest(rows)))
}

pub proof fn lemma_widest<T>(rows: Seq<Seq<T>>)
    ensures
        forall|i: int| 0 <= i < rows.len() ==> (#[trigger] rows[i]).len() <= widest(rows),
    decreases rows.len(),
{
    if rows.len() > 0 {
        lemma_widest(rows.drop_last());
        assert forall|i: int| 0 <= i < rows.len() implies (#[trigger] rows[i]).len() <= widest(
            rows,
        ) by {
            if i < rows.len() - 1 {
                assert(rows[i] == rows.drop_last()[i]);
            }
        }
    }
}

/// The length of the longest row.
pub fn widest_row(rows: &Vec<Vec<String>>) -> (r: usize)
    ensures
        r == widest(text::row_views(rows@)),
{
    let ghost model = text::row_views(rows@);
    let mut max: usize = 0;
    let mut i: usize = 0;
    while i < rows.len()
        invariant
            i <= rows.len(),
            model == text::row_views(rows@),
            max == widest(model.take(i as int)),
        decreases rows.len() - i,
    {
        assert(model.take(i + 1).drop_last() =~= model.take(i as int));
        assert(model.take(i + 1).last() == text::views(rows@[i as int]@));
        if rows[i].len() > max {
            max = rows[i].len();
        }
        i = i + 1;
    }
    assert(model.take(model.len() as int) =~= model);
    max
}

/// Adds empty cells up to a length of `n`.
pub fn pad_row(row: &mut Vec<String>, n: usize)
    requires
        old(row)@.len() <= n,
    ensures
        text::views(final(row)@) == padded_row(text::views(old(row)@), n as nat),
{
    let ghost before = row@;
    while row.len() < n
        invariant
            before.len() <= row.len() <= n,
            forall|k: int| 0 <= k < before.len() ==> row@[k] == before[k],
            forall|k: int| before.len() <= k < row.len() ==> row@[k]@ == Seq::<char>::empty(),
        decreases n - row.len(),
    {
        row.push(String::new());
    }
    assert(text::views(row@) =~= padded_row(text::views(before), n as nat));
}

/// Pads every row with empty cells to the length of the longest.
pub fn pad_rows(rows: Vec<Vec<String>>) -> (r: Vec<Vec<String>>)
    ensures
        text::row_views(r@) == padded(text::row_views(rows@)),
{
    let ghost model = text::row_views(rows@);
    let max: usize = widest_row(&rows);
    let mut out: Vec<Vec<String>> = Vec::new();
    let mut i: usize = 0;
    proof {
        lemma_widest(model);
    }
    while i < rows.len()
        invariant
            i <= rows.len(),
            model == text::row_views(rows@),
            max == widest(model),
            forall|k: int| 0 <= k < model.len() ==> (#[trigger] model[k]).len() <= widest(model),
            text::row_views(out@) == Seq::new(i as nat, |k: int| padded_row(model[k], max as nat)),
        decreases rows.len() - i,
    {
        let mut row = rows[i].clone();
        assert(text::views(row@) =~= text::views(rows@[i as int]@));
        assert(model[i as int].len() <= widest(model));
        pad_row(&mut row, max);
        let ghost before = out@;
        let ghost cells = text::views(row@);
        assert(cells == padded_row(model[i as int], max as nat));
        out.push(row);
        assert(text::row_views(out@) =~= text::row_views(before).push(cells));
        assert(text::row_views(out@) =~= Seq::new(
            (i + 1) as nat,
            |k: int| padded_row(model[k], max as nat),
        ));
        i = i + 1;
    }
    assert(text::row_views(out@) =~= padded(model));
    out
}

/// Padding makes a rectangle: every row gets the length of the longest one,
/// keeps its own cells in place, and the added cells are empty.
pub proof fn padding_is_rectangular(rows: Seq<Seq<Seq<char>>>)
    ensures
        padded(rows).len() == rows.len(),
        forall|i: int|
            0 <= i < rows.len() ==> {
                &&& (#[trigger] padded(rows)[i]).len() == widest(rows)
                &&& padded(rows)[i].take(rows[i].len() as int) == rows[i]
                &&& forall|j: int|
                    rows[i].len() <= j < widest(rows) ==> padded(rows)[i][j] == Seq::<char>::empty()
            },
{
    lemma_widest(rows);
    assert forall|i: int| 0 <= i < rows.len() implies {
        &&& (#[trigger] padded(rows)[i]).len() == widest(rows)
        &&& padded(rows)[i].take(rows[i].len() as int) == rows[i]
        &&& forall|j: int|
            rows[i].len() <= j < widest(rows) ==> padded(rows)[i][j] == Seq::<char>::empty()
    } by {
        assert(rows[i].len() <= widest(rows));
        assert(padded(rows)[i].take(rows[i].len() as int) =~= rows[i]);
    }
}

/// Padding rows that are already padded changes nothing.
pub proof fn padding_is_idempotent(rows: Seq<Seq<Seq<char>>>)
    ensures
        padded(padded(rows)) == padded(rows),
{
    padding_is_rectangular(rows);
    let once = padded(rows);
    lemma_widest_uniform(once, widest(rows));
    if rows.len() > 0 {
        assert(widest(once) == widest(rows));
    }
    assert forall|i: int| 0 <= i < once.len() implies padded(once)[i] == once[i] by {
        assert(once[i].len() == widest(rows));
        assert(padded(once)[i] =~= once[i]);
    }
    assert(padded(once) =~= once);
}

proof fn lemma_widest_uniform<T>(rows: Seq<Seq<T>>, n: nat)
    requires
        forall|i: int| 0 <= i < rows.len() ==> (#[trigger] rows[i]).len() == n,
    ensures
        rows.len() > 0 ==> widest(rows) == n,
    decreases rows.len(),
{
    if rows.len() > 0 {
        let front = rows.drop_last();
        assert forall|i: int| 0 <= i < front.len() implies (#[trigger] front[i]).len() == n by {
            assert(front[i] == rows[i]);
        }
        lemma_widest_uniform(front, n);
        assert(rows[rows.len() - 1].len() == n);
        reveal_with_fuel(widest, 2);
    }
}

/// The delimiter that a text is read with: the requested one, else the guess,
/// else a comma.
pub open spec fn delimiter_for(text: Seq<char>, options: ParseModel) -> u8 {
    match options.delimiter {
        Some(d) => d,
        None => match sniffed(text) {
            Some(d) => d,
            None => 0x2c,
        },
    }
}

/// The text that records are cut from: space-delimited text is evened out first.
pub open spec fn record_text(text: Seq<char>, delimiter: u8) -> Seq<char> {
    if delimiter == 0x20 {
        spaced(text)
    } else {
        text
    }
}

/// The rows of a decoded text.
pub open spec fn decoded_rows(text: Seq<char>, options: ParseModel) -> Result<
    Seq<Seq<Seq<char>>>,
    IngestErrorModel,
> {
    let delimiter = delimiter_for(text, options);
    rows_of_records(
        csv_records(
            record_text(text, delimiter),
            delimiter,
            options.quote_char,
            options.quoting != Some(Quoting::Never),
        ),
    )
}

/// The rows made of records, or the error that reading them gave.
pub open spec fn rows_of_records(records: Result<Seq<Seq<Seq<char>>>, Seq<char>>) -> Result<
    Seq<Seq<Seq<char>>>,
    IngestErrorModel,
> {
    match records {
        Ok(rows) => Ok(padded(rows)),
        Err(e) => Err(IngestErrorModel::Csv(e)),
    }
}

/// The model of parsed rows.
pub open spec fn rows_view(r: Result<Vec<Vec<String>>, IngestError>) -> Result<
    Seq<Seq<Seq<char>>>,
    IngestErrorModel,
> {
    match r {
        Ok(rows) => Ok(text::row_views(rows@)),
        Err(e) => Err(e@),
    }
}

/// Makes rows of records.
pub fn rows_from_records(records: Result<Vec<Vec<String>>, String>) -> (r: Result<
    Vec<Vec<String>>,
    IngestError,
>)
    ensures
        rows_view(r) == rows_of_records(records_view(records)),
{
    match records {
        Ok(rows) => Ok(pad_rows(rows)),
        Err(e) => Err(IngestError::Csv(e)),
    }
}

/// Reads the rows of a decoded text.
pub fn parse_decoded_rows(text: &str, options: &ParseOptions) -> (r: Result<
    Vec<Vec<String>>,
    IngestError,
>)
    ensures
        rows_view(r) == decoded_rows(text@, options@),
{
    let delimiter: u8 = match options.delimiter {
        Some(d) => d,
        None => match sniff_delimiter(text) {
            Some(d) => d,
            None => 0x2c,
        },
    };
    let quoting = match options.quoting {
        Some(q) => q != Quoting::Never,
        None => true,
    };
    let records = if delimiter == 0x20 {
        let even = normalize_space_delimited(text);
        read_records(&even, delimiter, options.quote_char, quoting)
    } else {
        read_records(text, delimiter, options.quote_char, quoting)
    };
    rows_from_records(records)
}

/// The rows of an input, decoded under the encoding that the options ask for.
pub open spec fn input_rows(
    bytes: Seq<u8>,
    options: ParseModel,
    locale: Option<Seq<char>>,
) -> Result<Seq<Seq<Seq<char>>>, IngestErrorModel> {
    match encoding::input_text(bytes, options.encoding, locale) {
        Ok(decoded) => decoded_rows(decoded.text, options),
        Err(e) => Err(e),
    }
}

/// An optional string as an optional slice.
pub fn as_slice(s: &Option<String>) -> (r: Option<&str>)
    ensures
        text::opt_str_view(r) == text::opt_view(*s),
{
    match s {
        Some(t) => Some(t.as_str()),
        None => None,
    }
}

/// Reads the rows of an input. `locale` is the encoding label of the environment.
pub fn parse_rows(bytes: &[u8], options: &ParseOptions, locale: &Option<String>) -> (r: Result<
    Vec<Vec<String>>,
    IngestError,
>)
    requires
        bytes@.len() <= encoding::max_input(),
    ensures
        rows_view(r) == input_rows(bytes@, options@, text::opt_view(*locale)),
{
    match decode_input(bytes, as_slice(&options.encoding), locale) {
        Ok(decoded) => parse_decoded_rows(&decoded.text, options),
        Err(e) => Err(e),
    }
}

// ---------------------------------------------------------------------------
// What is guessed and read
// ---------------------------------------------------------------------------

/// Whether a delimiter splits every line into the same number of fields.
pub open spec fn splits_alike(lines: Seq<Seq<char>>, delimiter: u8, fields: nat) -> bool {
    forall|i: int|
        0 <= i < lines.len() ==> field_count(#[trigger] lines[i], delimiter as char) == fields
}

proof fn lemma_alike(lines: Seq<Seq<char>>, delimiter: u8, fields: nat)
    requires
        fields > 1,
        splits_alike(lines, delimiter, fields),
    ensures
        split_counts(lines, delimiter as char).len() == lines.len(),
        lines.len() > 0 ==> split_counts(lines, delimiter as char)[0] == fields,
        occurrences(split_counts(lines, delimiter as char), fields) == lines.len(),
    decreases lines.len(),
{
    if lines.len() > 0 {
        let front = lines.drop_last();
        assert forall|i: int| 0 <= i < front.len() implies field_count(
            #[trigger] front[i],
            delimiter as char,
        ) == fields by {
            assert(front[i] == lines[i]);
        }
        lemma_alike(front, delimiter, fields);
        assert(field_count(lines[lines.len() - 1], delimiter as char) == fields);
        let counts = split_counts(lines, delimiter as char);
        assert(counts.drop_last() =~= split_counts(front, delimiter as char));
    }
}

proof fn lemma_counts(lines: Seq<Seq<char>>, delimiter: u8)
    ensures
        split_counts(lines, delimiter as char).len() <= lines.len(),
        forall|k: int|
            0 <= k < split_counts(lines, delimiter as char).len() ==> {
                &&& #[trigger] split_counts(lines, delimiter as char)[k] > 1
                &&& exists|i: int|
                    0 <= i < lines.len() && field_count(#[trigger] lines[i], delimiter as char)
                        == split_counts(lines, delimiter as char)[k]
            },
        split_counts(lines, delimiter as char).len() == lines.len() ==> forall|i: int|
            0 <= i < lines.len() ==> field_count(#[trigger] lines[i], delimiter as char)
                == split_counts(lines, delimiter as char)[i],
    decreases lines.len(),
{
    if lines.len() > 0 {
        let front = lines.drop_last();
        let before = split_counts(front, delimiter as char);
        let counts = split_counts(lines, delimiter as char);
        lemma_counts(front, delimiter);
        assert forall|k: int| 0 <= k < counts.len() implies #[trigger] counts[k] > 1 && exists|i: int|
            0 <= i < lines.len() && field_count(#[trigger] lines[i], delimiter as char)
                == counts[k] by {
            if k < before.len() {
                assert(counts[k] == before[k]);
                let i = choose|i: int|
                    0 <= i < front.len() && field_count(#[trigger] front[i], delimiter as char)
                        == before[k];
                assert(field_count(lines[i], delimiter as char) == counts[k]);
            } else {
                assert(field_count(lines[lines.len() - 1], delimiter as char) == counts[k]);
            }
        }
        if counts.len() == lines.len() {
            assert forall|i: int| 0 <= i < lines.len() implies field_count(
                #[trigger] lines[i],
                delimiter as char,
            ) == counts[i] by {
                if i < front.len() {
                    assert(front[i] == lines[i]);
                }
            }
        }
    }
}

proof fn lemma_occurrences(counts: Seq<nat>, n: nat)
    ensures
        occurrences(counts, n) <= counts.len(),
        occurrences(counts, n) == counts.len() ==> forall|k: int|
            0 <= k < counts.len() ==> #[trigger] counts[k] == n,
    decreases counts.len(),
{
    if counts.len() > 0 {
        lemma_occurrences(counts.drop_last(), n);
        if occurrences(counts, n) == counts.len() {
            assert forall|k: int| 0 <= k < counts.len() implies #[trigger] counts[k] == n by {
                if k < counts.len() - 1 {
                    assert(counts.drop_last()[k] == counts[k]);
                }
            }
        }
    }
}

proof fn lemma_disagreement(lines: Seq<Seq<char>>, delimiter: u8)
    requires
        forall|n: nat| n > 1 ==> !#[trigger] splits_alike(lines, delimiter, n),
        forall|i: int|
            0 <= i < lines.len() ==> field_count(#[trigger] lines[i], delimiter as char) < 100,
    ensures
        score(lines, delimiter) matches Some(n) ==> n < lines.len() * 100,
{
    let counts = split_counts(lines, delimiter as char);
    if counts.len() > 0 {
        lemma_counts(lines, delimiter);
        lemma_occurrences(counts, counts[0]);
        assert(counts[0] > 1);
        let i = choose|i: int|
            0 <= i < lines.len() && field_count(#[trigger] lines[i], delimiter as char)
                == counts[0];
        assert(field_count(lines[i], delimiter as char) < 100);
        if occurrences(counts, counts[0]) == lines.len() {
            assert forall|j: int| 0 <= j < lines.len() implies field_count(
                #[trigger] lines[j],
                delimiter as char,
            ) == counts[0] by {
                assert(counts[j] == counts[0]);
            }
            assert(splits_alike(lines, delimiter, counts[0]));
        }
        let agreeing = occurrences(counts, counts[0]);
        assert(agreeing + 1 <= lines.len());
        assert(agreeing * 100 + counts[0] < (agreeing + 1) * 100);
    }
}

/// Whether a delimiter is one of comma, tab, semicolon, bar and space.
pub open spec fn is_usual(delimiter: u8) -> bool {
    delimiter as char == ',' || delimiter as char == '\t' || delimiter as char == ';' || delimiter as char
        == '|' || delimiter as char == ' '
}

/// Where one of the candidates splits all lines that are looked at into the same
/// number of fields, two at least and fewer than a hundred, and none of the others
/// does so, nor splits a line into a hundred, that candidate is guessed: how many
/// lines agree counts for more than how many fields there are.
pub proof fn agreement_outranks_fields(text: Seq<char>, delimiter: u8, fields: nat)
    requires
        sniff_sample(text).len() > 0,
        is_usual(delimiter),
        1 < fields < 100,
        splits_alike(sniff_sample(text), delimiter, fields),
        forall|other: u8, n: nat|
            is_usual(other) && other != delimiter && n > 1 ==> !#[trigger] splits_alike(sniff_sample(text), other, n),
        forall|other: u8, i: int|
            is_usual(other) && 0 <= i < sniff_sample(text).len() ==> #[trigger] field_count(
                sniff_sample(text)[i],
                other as char,
            ) < 100,
    ensures
        sniffed(text) == Some(delimiter),
{
    let lines = sniff_sample(text);
    let all = delimiter_candidates();
    lemma_alike(lines, delimiter, fields);
    sniffed_delimiter_scores_highest(text);
    let place: int = if delimiter == 0x2c {
        0
    } else if delimiter == 0x09 {
        1
    } else if delimiter == 0x3b {
        2
    } else if delimiter == 0x7c {
        3
    } else {
        4
    };
    assert(all[place] == delimiter);
    assert(score(lines, delimiter) is Some);
    let best = sniffed(text)->0;
    if best != delimiter {
        let k = choose|k: int| 0 <= k < all.len() && all[k] == best;
        assert forall|n: nat| n > 1 implies !#[trigger] splits_alike(lines, best, n) by {}
        assert forall|i: int| 0 <= i < lines.len() implies field_count(
            #[trigger] lines[i],
            best as char,
        ) < 100 by {}
        lemma_disagreement(lines, best);
    }
}

/// A delimiter is guessed exactly where one of comma, tab, semicolon, bar and space
/// splits one of the lines that are looked at.
pub proof fn guesses_split_a_line(text: Seq<char>)
    ensures
        sniffed(text) is None <==> forall|i: int|
            0 <= i < sniff_sample(text).len() ==> {
                &&& field_count(#[trigger] sniff_sample(text)[i], ',') <= 1
                &&& field_count(sniff_sample(text)[i], '\t') <= 1
                &&& field_count(sniff_sample(text)[i], ';') <= 1
                &&& field_count(sniff_sample(text)[i], '|') <= 1
                &&& field_count(sniff_sample(text)[i], ' ') <= 1
            },
{
    let lines = sniff_sample(text);
    let all = delimiter_candidates();
    sniffed_delimiter_scores_highest(text);
    assert(all[0] as char == ',' && all[1] as char == '\t' && all[2] as char == ';' && all[3] as char
        == '|' && all[4] as char == ' ');
    lemma_no_counts(lines, ',');
    lemma_no_counts(lines, '\t');
    lemma_no_counts(lines, ';');
    lemma_no_counts(lines, '|');
    lemma_no_counts(lines, ' ');
    if sniffed(text) is None {
        assert forall|k: int| 0 <= k < all.len() implies split_counts(
            lines,
            #[trigger] all[k] as char,
        ).len() == 0 by {
            assert(score(lines, all[k]) is None);
        }
    } else {
        let d = sniffed(text)->0;
        let k = choose|k: int| 0 <= k < all.len() && all[k] == d;
        assert(split_counts(lines, all[k] as char).len() > 0);
    }
}

proof fn lemma_no_counts(lines: Seq<Seq<char>>, delimiter: char)
    ensures
        split_counts(lines, delimiter).len() == 0 <==> forall|i: int|
            0 <= i < lines.len() ==> field_count(#[trigger] lines[i], delimiter) <= 1,
    decreases lines.len(),
{
    if lines.len() > 0 {
        let front = lines.drop_last();
        lemma_no_counts(front, delimiter);
        assert forall|i: int| 0 <= i < front.len() implies front[i] == lines[i] by {}
        if split_counts(lines, delimiter).len() == 0 {
            assert forall|i: int| 0 <= i < lines.len() implies field_count(
                #[trigger] lines[i],
                delimiter,
            ) <= 1 by {
                if i < front.len() {
                    assert(field_count(front[i], delimiter) <= 1);
                }
            }
        } else if forall|i: int|
            0 <= i < lines.len() ==> field_count(#[trigger] lines[i], delimiter) <= 1 {
            assert(field_count(lines[lines.len() - 1], delimiter) <= 1);
            assert forall|i: int| 0 <= i < front.len() implies field_count(
                #[trigger] front[i],
                delimiter,
            ) <= 1 by {
                assert(field_count(lines[i], delimiter) <= 1);
            }
        }
    }
}

proof fn lemma_plain_scan(line: Seq<char>, delimiter: char)
    requires
        !line.contains('"'),
        !line.contains('\''),
    ensures
        scan_line(line, delimiter).quote is None,
        field_count(line, delimiter) == text::split_on(line, delimiter).len(),
    decreases line.len(),
{
    text::lemma_split_nonempty(line, delimiter);
    if line.len() > 0 {
        let front = line.drop_last();
        assert forall|i: int| 0 <= i < front.len() implies front[i] != '"' && front[i] != '\'' by {
            assert(front[i] == line[i]);
            assert(line.contains(line[i]));
        }
        assert(line.contains(line[line.len() - 1]));
        lemma_plain_scan(front, delimiter);
        text::lemma_split_nonempty(front, delimiter);
    }
}

/// A line without quotes has as many fields as there are parts between its
/// delimiters.
pub proof fn plain_fields_stand_between_delimiters(line: Seq<char>, delimiter: char)
    requires
        !line.contains('"'),
        !line.contains('\''),
    ensures
        field_count(line, delimiter) == text::split_on(line, delimiter).len(),
{
    lemma_plain_scan(line, delimiter);
}

proof fn lemma_quoted_scan(inner: Seq<char>, quote: char, delimiter: char)
    requires
        quote == '"' || quote == '\'',
        !inner.contains(quote),
    ensures
        scan_line(seq![quote] + inner, delimiter).fields == 1,
        scan_line(seq![quote] + inner, delimiter).quote == Some(quote),
        inner.len() > 0 ==> scan_line(seq![quote] + inner, delimiter).previous == inner.last(),
        inner.len() == 0 ==> scan_line(seq![quote] + inner, delimiter).previous == quote,
    decreases inner.len(),
{
    let line = seq![quote] + inner;
    if inner.len() == 0 {
        assert(line =~= seq![quote]);
        assert(line.drop_last() =~= Seq::<char>::empty());
        reveal_with_fuel(scan_line, 2);
    } else {
        assert(line.drop_last() =~= seq![quote] + inner.drop_last());
        assert forall|i: int| 0 <= i < inner.drop_last().len() implies inner.drop_last()[i]
            != quote by {
            assert(inner.contains(inner[i]));
        }
        assert(inner.contains(inner[inner.len() - 1]));
        lemma_quoted_scan(inner.drop_last(), quote, delimiter);
    }
}

/// What stands in quotes is one field, whatever delimiters it holds.
pub proof fn quotes_keep_a_field_together(inner: Seq<char>, quote: char, delimiter: char)
    requires
        quote == '"' || quote == '\'',
        !inner.contains(quote),
        inner.len() > 0 ==> inner.last() != '\\',
    ensures
        field_count(seq![quote] + inner + seq![quote], delimiter) == 1,
{
    let line = seq![quote] + inner + seq![quote];
    assert(line.drop_last() =~= seq![quote] + inner);
    lemma_quoted_scan(inner, quote, delimiter);
}

/// The lines that a delimiter is guessed from are lines of the text that are not
/// blank, at most twenty of them, and all of them if there are no more.
pub proof fn guesses_look_at_the_first_lines(text: Seq<char>, i: int)
    requires
        0 <= i < text::lines(text).len(),
    ensures
        sniff_sample(text).len() <= 20,
        sniff_sample(text).len() < 20 && text::trimmed(text::lines(text)[i]).len() > 0
            ==> sniff_sample(text).contains(text::lines(text)[i]),
        !sniff_sample(text).contains(Seq::<char>::empty()),
{
    let all = text::lines(text);
    lemma_nonblank(all);
    if text::trimmed(all[i]).len() > 0 {
        let k = choose|k: int| 0 <= k < nonblank(all).len() && nonblank(all)[k] == all[i];
        if nonblank(all).len() <= 20 {
            assert(sniff_sample(text)[k] == all[i]);
        }
    }
    assert(text::trimmed(Seq::<char>::empty()).len() == 0);
    assert forall|k: int| 0 <= k < sniff_sample(text).len() implies sniff_sample(text)[k]
        != Seq::<char>::empty() by {
        assert(sniff_sample(text)[k] == nonblank(all)[k]);
    }
}

proof fn lemma_nonblank(lines: Seq<Seq<char>>)
    ensures
        forall|k: int|
            0 <= k < nonblank(lines).len() ==> text::trimmed(#[trigger] nonblank(lines)[k]).len()
                > 0,
        forall|i: int|
            0 <= i < lines.len() && text::trimmed(#[trigger] lines[i]).len() > 0 ==> nonblank(
                lines,
            ).contains(lines[i]),
    decreases lines.len(),
{
    if lines.len() > 0 {
        let front = lines.drop_last();
        lemma_nonblank(front);
        assert forall|i: int| 0 <= i < lines.len() && text::trimmed(#[trigger] lines[i]).len()
            > 0 implies nonblank(lines).contains(lines[i]) by {
            if i < front.len() {
                assert(front[i] == lines[i]);
                let k = choose|k: int|
                    0 <= k < nonblank(front).len() && nonblank(front)[k] == lines[i];
                assert(nonblank(lines)[k] == lines[i]);
            } else {
                assert(nonblank(lines)[nonblank(lines).len() - 1] == lines[i]);
            }
        }
    }
}

proof fn lemma_word(word: Seq<char>, current: Seq<char>)
    requires
        forall|i: int| 0 <= i < word.len() ==> is_word_char(#[trigger] word[i]),
        current.len() > 0 || word.len() > 0,
    ensures
        shell_words(word, None, current) == seq![current + word],
    decreases word.len(),
{
    if word.len() == 0 {
        assert(current + word =~= current);
    } else {
        assert(is_word_char(word[0]));
        let rest = word.skip(1);
        assert forall|i: int| 0 <= i < rest.len() implies is_word_char(#[trigger] rest[i]) by {
            assert(rest[i] == word[i + 1]);
        }
        lemma_word(rest, current.push(word[0]));
        assert(current.push(word[0]) + rest =~= current + word);
    }
}

/// Whether a character stands for itself in a word: no white space, quote or
/// backslash.
pub open spec fn is_word_char(c: char) -> bool {
    !text::is_white(c) && c != '"' && c != '\'' && c != '\\'
}

proof fn lemma_word_then(word: Seq<char>, current: Seq<char>, rest: Seq<char>)
    requires
        forall|i: int| 0 <= i < word.len() ==> is_word_char(#[trigger] word[i]),
        current.len() + word.len() > 0,
    ensures
        shell_words(word + seq![' '] + rest, None, current) == seq![current + word] + shell_words(
            rest,
            None,
            Seq::empty(),
        ),
    decreases word.len(),
{
    let line = word + seq![' '] + rest;
    if word.len() == 0 {
        assert(line.skip(1) =~= rest);
        assert(current + word =~= current);
    } else {
        assert(is_word_char(word[0]));
        let tail = word.skip(1);
        assert forall|i: int| 0 <= i < tail.len() implies is_word_char(#[trigger] tail[i]) by {
            assert(tail[i] == word[i + 1]);
        }
        assert(line.skip(1) =~= tail + seq![' '] + rest);
        lemma_word_then(tail, current.push(word[0]), rest);
        assert(current.push(word[0]) + tail =~= current + word);
    }
}

/// Words are split at blanks and kept as they are: a plain word is one word, and a
/// plain word before a blank comes before the words that follow it. Blanks before a
/// word count for nothing.
pub proof fn blanks_split_words(word: Seq<char>, rest: Seq<char>)
    requires
        word.len() > 0,
        forall|i: int| 0 <= i < word.len() ==> is_word_char(#[trigger] word[i]),
    ensures
        shell_words(word, None, Seq::empty()) == seq![word],
        shell_words(word + seq![' '] + rest, None, Seq::empty()) == seq![word] + shell_words(
            rest,
            None,
            Seq::empty(),
        ),
        shell_words(seq![' '] + rest, None, Seq::empty()) == shell_words(rest, None, Seq::empty()),
{
    let none = Seq::<char>::empty();
    lemma_word(word, none);
    lemma_word_then(word, none, rest);
    assert(none + word =~= word);
    assert((seq![' '] + rest).skip(1) =~= rest);
}

proof fn lemma_quoted_word(inner: Seq<char>, quote: char, current: Seq<char>)
    requires
        quote == '"' || quote == '\'',
        !inner.contains(quote),
        !inner.contains('\\'),
        current.len() + inner.len() > 0,
    ensures
        shell_words(inner + seq![quote], Some(quote), current) == seq![current + inner],
    decreases inner.len(),
{
    let line = inner + seq![quote];
    if inner.len() == 0 {
        assert(line[0] == quote);
        assert(line.skip(1) =~= Seq::<char>::empty());
        assert(shell_words(line.skip(1), None, current) == seq![current]);
        assert(current + inner =~= current);
    } else {
        let rest = inner.skip(1);
        assert(inner.contains(inner[0]));
        assert forall|i: int| 0 <= i < rest.len() implies rest[i] != quote && rest[i] != '\\' by {
            assert(inner.contains(inner[i + 1]));
        }
        assert(line.skip(1) =~= rest + seq![quote]);
        lemma_quoted_word(rest, quote, current.push(inner[0]));
        assert(current.push(inner[0]) + rest =~= current + inner);
    }
}

/// What stands in quotes is one word, blanks and all, without its quotes.
pub proof fn quotes_keep_a_word_together(inner: Seq<char>, quote: char)
    requires
        quote == '"' || quote == '\'',
        inner.len() > 0,
        !inner.contains(quote),
        !inner.contains('\\'),
    ensures
        shell_words(seq![quote] + inner + seq![quote], None, Seq::empty()) == seq![inner],
{
    let line = seq![quote] + inner + seq![quote];
    assert(line.skip(1) =~= inner + seq![quote]);
    lemma_quoted_word(inner, quote, Seq::empty());
    assert(Seq::<char>::empty() + inner =~= inner);
}

/// A backslash keeps the character behind it from meaning anything.
pub proof fn backslashes_keep_characters(c: char, current: Seq<char>, quote: Option<char>)
    ensures
        shell_words(seq!['\\', c], quote, current) == seq![current.push(c)],
{
    let line = seq!['\\', c];
    assert(line.skip(1)[0] == c);
    assert(line.skip(1).skip(1) =~= Seq::<char>::empty());
    assert(shell_words(Seq::<char>::empty(), quote, current.push(c)) =~= seq![current.push(c)]);
}

/// A mark at the beginning of a first line is dropped, once, and nothing else is.
pub proof fn comment_marks_are_dropped(line: Seq<char>)
    ensures
        without_comment_mark(seq!['#'] + line) == line,
        without_comment_mark(seq!['%'] + line) == line,
        (line.len() == 0 || line[0] != '#' && line[0] != '%') ==> without_comment_mark(line) == line,
{
    assert((seq!['#'] + line).skip(1) =~= line);
    assert((seq!['%'] + line).skip(1) =~= line);
}

/// A text that is split at blanks keeps its lines: the words of each line, one blank
/// between two of them, and only the first line loses a comment mark.
pub proof fn spaced_lines_keep_their_words(text: Seq<char>, i: int)
    requires
        0 <= i < text::lines(text).len(),
    ensures
        spaced_line(text::lines(text), i) == text::joined(
            shell_words(
                if i == 0 {
                    without_comment_mark(text::lines(text)[0])
                } else {
                    text::lines(text)[i]
                },
                None,
                Seq::empty(),
            ),
            seq![' '],
        ),
        text::lines(text).len() == 1 ==> spaced(text) == spaced_line(text::lines(text), 0),
{
    reveal_strlit(" ");
    assert(" "@ =~= seq![' ']);
    let all = text::lines(text);
    if all.len() == 1 {
        let parts = Seq::new(all.len(), |k: int| spaced_line(all, k));
        assert(parts[0] == spaced_line(all, 0));
    }
}

/// A delimiter that is asked for is taken, else the one that is guessed, else a
/// comma. Rows are what the records hold, padded; a text with blanks between its
/// fields is read with one blank between two words, every other text as it is, and
/// quotes count unless they never do.
pub proof fn delimiters_are_asked_for_or_guessed(text: Seq<char>, options: ParseModel)
    ensures
        options.delimiter matches Some(d) ==> delimiter_for(text, options) == d,
        options.delimiter is None && sniffed(text) is Some ==> Some(delimiter_for(text, options))
            == sniffed(text),
        options.delimiter is None && sniffed(text) is None ==> delimiter_for(text, options) as char
            == ',',
        delimiter_for(text, options) as char != ' ' ==> record_text(
            text,
            delimiter_for(text, options),
        ) == text,
        record_text(text, ' ' as u8) == spaced(text),
        ({
            let d = delimiter_for(text, options);
            let records = csv_records(
                record_text(text, d),
                d,
                options.quote_char,
                !(options.quoting matches Some(q) && q is Never),
            );
            match decoded_rows(text, options) {
                Ok(rows) => records matches Ok(found) && rows == padded(found),
                Err(e) => records matches Err(message) && e == IngestErrorModel::Csv(message),
            }
        }),
{
}

proof fn lemma_best_is_last(lines: Seq<Seq<char>>, candidates: Seq<u8>)
    ensures
        best_delimiter(lines, candidates) matches Some((d, n)) ==> exists|k: int|
            0 <= k < candidates.len() && #[trigger] candidates[k] == d && forall|j: int|
                k < j < candidates.len() ==> (score(lines, #[trigger] candidates[j]) matches Some(m)
                    ==> m < n),
    decreases candidates.len(),
{
    if candidates.len() > 0 {
        let front = candidates.drop_last();
        lemma_best_is_last(lines, front);
        lemma_best_is_candidate(lines, front);
        let last = candidates.len() - 1;
        if let Some((d, n)) = best_delimiter(lines, candidates) {
            if best_delimiter(lines, front) == Some((d, n)) && (score(lines, candidates.last()) matches Some(
                m,
            ) ==> m < n) {
                let k = choose|k: int|
                    0 <= k < front.len() && #[trigger] front[k] == d && forall|j: int|
                        k < j < front.len() ==> (score(lines, #[trigger] front[j]) matches Some(m)
                            ==> m < n);
                assert(candidates[k] == d);
                assert forall|j: int| k < j < candidates.len() implies (score(
                    lines,
                    #[trigger] candidates[j],
                ) matches Some(m) ==> m < n) by {
                    if j < last {
                        assert(front[j] == candidates[j]);
                    }
                }
            } else {
                assert(candidates[last] == d);
            }
        }
    }
}

proof fn lemma_same_counts(lines: Seq<Seq<char>>, a: u8, b: u8)
    requires
        forall|i: int|
            0 <= i < lines.len() ==> field_count(#[trigger] lines[i], a as char) == field_count(
                lines[i],
                b as char,
            ),
    ensures
        split_counts(lines, a as char) == split_counts(lines, b as char),
    decreases lines.len(),
{
    if lines.len() > 0 {
        let front = lines.drop_last();
        assert forall|i: int| 0 <= i < front.len() implies field_count(#[trigger] front[i], a as char)
            == field_count(front[i], b as char) by {
            assert(front[i] == lines[i]);
        }
        lemma_same_counts(front, a, b);
        assert(field_count(lines[lines.len() - 1], a as char) == field_count(
            lines[lines.len() - 1],
            b as char,
        ));
    }
}

/// Of two candidates that split every line alike, the one that comes first among
/// comma, tab, semicolon, bar and space is never guessed.
pub proof fn ties_go_to_the_later_candidate(text: Seq<char>, i: int, j: int)
    requires
        0 <= i < j < 5,
        ({
            let usual = seq![',', '\t', ';', '|', ' '];
            forall|k: int|
                0 <= k < sniff_sample(text).len() ==> field_count(
                    #[trigger] sniff_sample(text)[k],
                    usual[i],
                ) == field_count(sniff_sample(text)[k], usual[j])
        }),
    ensures
        sniffed(text) matches Some(d) ==> d as char != seq![',', '\t', ';', '|', ' '][i],
{
    let lines = sniff_sample(text);
    let all = delimiter_candidates();
    let usual = seq![',', '\t', ';', '|', ' '];
    assert forall|k: int| 0 <= k < 5 implies #[trigger] all[k] as char == usual[k] by {}
    lemma_same_counts(lines, all[i], all[j]);
    lemma_best_is_last(lines, all);
    lemma_best_is_candidate(lines, all);
    if let Some((d, n)) = best_delimiter(lines, all) {
        let k = choose|k: int|
            0 <= k < all.len() && #[trigger] all[k] == d && forall|m: int|
                k < m < all.len() ==> (score(lines, #[trigger] all[m]) matches Some(s) ==> s < n);
        if k == i {
            assert(score(lines, all[j]) == score(lines, all[i]));
            assert(false);
        }
    }
}

/// Rows are made as wide as the widest, which one of them is, with empty cells at the end
/// of the others.
pub proof fn rows_are_made_equally_wide(rows: Seq<Seq<Seq<char>>>, i: int, k: int)
    requires
        0 <= i < rows.len(),
    ensures
        padded(rows).len() == rows.len(),
        padded(rows)[i].len() == widest(rows),
        rows[i].len() <= widest(rows),
        exists|j: int| 0 <= j < rows.len() && (#[trigger] rows[j]).len() == widest(rows),
        0 <= k < rows[i].len() ==> padded(rows)[i][k] == rows[i][k],
        rows[i].len() <= k < widest(rows) ==> padded(rows)[i][k] == Seq::<char>::empty(),
{
    lemma_widest_row(rows, i);
}

proof fn lemma_widest_row(rows: Seq<Seq<Seq<char>>>, i: int)
    requires
        0 <= i < rows.len(),
    ensures
        rows[i].len() <= widest(rows),
        exists|j: int| 0 <= j < rows.len() && (#[trigger] rows[j]).len() == widest(rows),
    decreases rows.len(),
{
    let front = rows.drop_last();
    if front.len() > 0 {
        lemma_widest_row(
            front,
            if i < front.len() {
                i
            } else {
                0
            },
        );
        let j = choose|j: int| 0 <= j < front.len() && (#[trigger] front[j]).len() == widest(front);
        assert(rows[j].len() == widest(front));
        assert(rows[rows.len() - 1].len() == rows.last().len());
        if i < front.len() {
            assert(front[i] == rows[i]);
        }
    } else {
        assert(widest(front) == 0);
        assert(rows[0].len() == widest(rows));
    }
}

/// Text is read into the records that stand in it, with the delimiter and the quotes that
/// are asked for, and without quotes where they are refused; blanks are made even where
/// they part the fields.
pub proof fn texts_are_read_as_asked(text: Seq<char>, options: ParseModel, d: u8)
    requires
        options.delimiter == Some(d),
    ensures
        ({
            let quoting = options.quoting != Some(Quoting::Never);
            let content = if d == ' ' as u8 {
                spaced(text)
            } else {
                text
            };
            match csv_records(content, d, options.quote_char, quoting) {
                Ok(records) => decoded_rows(text, options) == Ok::<
                    Seq<Seq<Seq<char>>>,
                    IngestErrorModel,
                >(padded(records)),
                Err(e) => decoded_rows(text, options) == Err::<
                    Seq<Seq<Seq<char>>>,
                    IngestErrorModel,
                >(IngestErrorModel::Csv(e)),
            }
        }),
{
}

/// Bytes are decoded before they are read, and what cannot be decoded is told.
pub proof fn bytes_are_decoded_first(
    bytes: Seq<u8>,
    options: ParseModel,
    locale: Option<Seq<char>>,
)
    ensures
        encoding::input_text(bytes, options.encoding, locale) matches Ok(decoded) ==> input_rows(
            bytes,
            options,
            locale,
        ) == decoded_rows(decoded.text, options),
        encoding::input_text(bytes, options.encoding, locale) matches Err(e) ==> input_rows(
            bytes,
            options,
            locale,
        ) == Err::<Seq<Seq<Seq<char>>>, IngestErrorModel>(e),
{
}

} // verus!
