//! Output of a view: formats, table layout and terminal styles.

use vstd::prelude::*;

use crate::json_value::{self, Json, quote_json};
use crate::table::{ColumnAlignment, RowCount};
use crate::text::{
    self, chars_of, concat2, concat3, concat5, decimal_of, decimal_of_usize, join,
    string_of_range, trim,
};

verus! {

/// The format in which a view is written.
#[derive(Debug, Clone, Copy, PartialEq, Eq, Structural)]
pub enum OutputFormat {
    Table,
    Json,
    Jsonl,
}

/// When output is coloured.
#[derive(Debug, Clone, Copy, PartialEq, Eq, Structural)]
pub enum ColorOutput {
    Auto,
    Always,
    Never,
}

impl Default for ColorOutput {
    fn default() -> (r: Self)
        ensures
            r == ColorOutput::Auto,
    {
        ColorOutput::Auto
    }
}

/// How the program runs: at a terminal, or writing once.
#[derive(Debug, Clone, Copy, PartialEq, Eq, Structural)]
pub enum ExecutionMode {
    Interactive { emit_on_exit: Option<OutputFormat> },
    Batch(OutputFormat),
}

/// How the program runs: at a terminal if that is asked for, or if nothing is and
/// standard output is one.
pub fn resolve_execution_mode(
    interactive: bool,
    output: Option<OutputFormat>,
    stdout_is_terminal: bool,
) -> (r: ExecutionMode)
    ensures
        r == (if interactive {
            ExecutionMode::Interactive { emit_on_exit: output }
        } else if output is Some {
            ExecutionMode::Batch(output->0)
        } else if stdout_is_terminal {
            ExecutionMode::Interactive { emit_on_exit: None }
        } else {
            ExecutionMode::Batch(OutputFormat::Table)
        }),
{
    if interactive {
        ExecutionMode::Interactive { emit_on_exit: output }
    } else if let Some(format) = output {
        ExecutionMode::Batch(format)
    } else if stdout_is_terminal {
        ExecutionMode::Interactive { emit_on_exit: None }
    } else {
        ExecutionMode::Batch(OutputFormat::Table)
    }
}

/// What has to be known of a view before it can be written.
#[derive(Debug, Clone, Copy, PartialEq, Eq, Structural)]
pub struct OutputRequirements {
    pub complete_rows: bool,
    pub stable_widths: bool,
    pub rendered_values: bool,
    pub conditional_styles: bool,
}

impl Default for OutputRequirements {
    fn default() -> (r: Self)
        ensures
            r == (OutputRequirements {
                complete_rows: false,
                stable_widths: false,
                rendered_values: false,
                conditional_styles: false,
            }),
    {
        OutputRequirements {
            complete_rows: false,
            stable_widths: false,
            rendered_values: false,
            conditional_styles: false,
        }
    }
}

// ---------------------------------------------------------------------------
// Styles
// ---------------------------------------------------------------------------

/// A colour of a terminal.
#[derive(Debug, Clone, Copy, PartialEq, Eq, Structural)]
pub enum Color {
    Reset,
    Black,
    Red,
    Green,
    Yellow,
    Blue,
    Magenta,
    Cyan,
    Gray,
    DarkGray,
    LightRed,
    LightGreen,
    LightYellow,
    LightBlue,
    LightMagenta,
    LightCyan,
    White,
    Rgb(u8, u8, u8),
    Indexed(u8),
}

/// How many text attributes there are.
pub const MODIFIER_COUNT: usize = 9;

/// A set of text attributes.
#[derive(Debug, Clone, Copy, PartialEq, Eq, Structural)]
pub struct Modifiers {
    pub bold: bool,
    pub dim: bool,
    pub italic: bool,
    pub underlined: bool,
    pub slow_blink: bool,
    pub rapid_blink: bool,
    pub reversed: bool,
    pub hidden: bool,
    pub crossed_out: bool,
}

impl Modifiers {
    /// Whether the attribute at a place is set, in the order of their codes.
    pub open spec fn has(self, i: int) -> bool {
        ||| i == 0 && self.bold
        ||| i == 1 && self.dim
        ||| i == 2 && self.italic
        ||| i == 3 && self.underlined
        ||| i == 4 && self.slow_blink
        ||| i == 5 && self.rapid_blink
        ||| i == 6 && self.reversed
        ||| i == 7 && self.hidden
        ||| i == 8 && self.crossed_out
    }

    /// Whether the attribute at a place is set.
    pub fn holds(self, i: usize) -> (r: bool)
        ensures
            r == self.has(i as int),
    {
        match i {
            0 => self.bold,
            1 => self.dim,
            2 => self.italic,
            3 => self.underlined,
            4 => self.slow_blink,
            5 => self.rapid_blink,
            6 => self.reversed,
            7 => self.hidden,
            8 => self.crossed_out,
            _ => false,
        }
    }

    /// No attribute.
    pub fn none() -> (r: Modifiers)
        ensures
            forall|i: int| 0 <= i < MODIFIER_COUNT ==> !#[trigger] r.has(i),
    {
        Modifiers {
            bold: false,
            dim: false,
            italic: false,
            underlined: false,
            slow_blink: false,
            rapid_blink: false,
            reversed: false,
            hidden: false,
            crossed_out: false,
        }
    }

    /// The attributes of either set.
    pub fn union(self, other: Modifiers) -> (r: Modifiers)
        ensures
            forall|i: int|
                0 <= i < MODIFIER_COUNT ==> #[trigger] r.has(i) == (self.has(i) || other.has(i)),
    {
        Modifiers {
            bold: self.bold || other.bold,
            dim: self.dim || other.dim,
            italic: self.italic || other.italic,
            underlined: self.underlined || other.underlined,
            slow_blink: self.slow_blink || other.slow_blink,
            rapid_blink: self.rapid_blink || other.rapid_blink,
            reversed: self.reversed || other.reversed,
            hidden: self.hidden || other.hidden,
            crossed_out: self.crossed_out || other.crossed_out,
        }
    }

    /// The attributes of this set that are not in the other.
    pub fn difference(self, other: Modifiers) -> (r: Modifiers)
        ensures
            forall|i: int|
                0 <= i < MODIFIER_COUNT ==> #[trigger] r.has(i) == (self.has(i) && !other.has(i)),
    {
        Modifiers {
            bold: self.bold && !other.bold,
            dim: self.dim && !other.dim,
            italic: self.italic && !other.italic,
            underlined: self.underlined && !other.underlined,
            slow_blink: self.slow_blink && !other.slow_blink,
            rapid_blink: self.rapid_blink && !other.rapid_blink,
            reversed: self.reversed && !other.reversed,
            hidden: self.hidden && !other.hidden,
            crossed_out: self.crossed_out && !other.crossed_out,
        }
    }
}

/// How a cell looks: its colours, the attributes it has and those it must not have.
#[derive(Debug, Clone, Copy, PartialEq, Eq, Structural)]
pub struct Style {
    pub fg: Option<Color>,
    pub bg: Option<Color>,
    pub added: Modifiers,
    pub removed: Modifiers,
}

/// The style that changes nothing.
pub open spec fn is_plain(style: Style) -> bool {
    &&& style.fg is None
    &&& style.bg is None
    &&& forall|i: int| 0 <= i < MODIFIER_COUNT ==> !#[trigger] style.added.has(i)
    &&& forall|i: int| 0 <= i < MODIFIER_COUNT ==> !#[trigger] style.removed.has(i)
}

impl Default for Style {
    fn default() -> (r: Self)
        ensures
            is_plain(r),
    {
        Style { fg: None, bg: None, added: Modifiers::none(), removed: Modifiers::none() }
    }
}

/// Whether a style is a base with another laid over it: what the upper one says
/// counts, and what it does not speak of stays.
pub open spec fn is_overlay(r: Style, base: Style, upper: Style) -> bool {
    &&& r.fg == (if upper.fg is Some {
        upper.fg
    } else {
        base.fg
    })
    &&& r.bg == (if upper.bg is Some {
        upper.bg
    } else {
        base.bg
    })
    &&& forall|i: int|
        0 <= i < MODIFIER_COUNT ==> #[trigger] r.added.has(i) == ((base.added.has(i)
            || upper.added.has(i)) && !upper.removed.has(i))
    &&& forall|i: int|
        0 <= i < MODIFIER_COUNT ==> #[trigger] r.removed.has(i) == ((base.removed.has(i)
            && !upper.added.has(i)) || upper.removed.has(i))
}

/// A style with another laid over it.
pub fn overlay_style(base: Style, upper: Style) -> (r: Style)
    ensures
        is_overlay(r, base, upper),
{
    let fg = match upper.fg {
        Some(color) => Some(color),
        None => base.fg,
    };
    let bg = match upper.bg {
        Some(color) => Some(color),
        None => base.bg,
    };
    let added = base.added.union(upper.added).difference(upper.removed);
    let removed = base.removed.difference(upper.added).union(upper.removed);
    Style { fg, bg, added, removed }
}

/// The code of a named colour in the foreground.
pub open spec fn named_code(color: Color) -> int {
    match color {
        Color::Reset => 39,
        Color::Black => 30,
        Color::Red => 31,
        Color::Green => 32,
        Color::Yellow => 33,
        Color::Blue => 34,
        Color::Magenta => 35,
        Color::Cyan => 36,
        Color::Gray => 37,
        Color::DarkGray => 90,
        Color::LightRed => 91,
        Color::LightGreen => 92,
        Color::LightYellow => 93,
        Color::LightBlue => 94,
        Color::LightMagenta => 95,
        Color::LightCyan => 96,
        Color::White => 97,
        Color::Rgb(..) => 38,
        Color::Indexed(_) => 38,
    }
}

/// The terminal code of a colour.
pub open spec fn color_code(color: Color, background: bool) -> Seq<char> {
    let shift: int = if background {
        10
    } else {
        0
    };
    let code = text::decimal((named_code(color) + shift) as nat);
    match color {
        Color::Rgb(r, g, b) => text::joined(
            seq![code, "2"@, text::decimal(r as nat), text::decimal(g as nat), text::decimal(b as nat)],
            ";"@,
        ),
        Color::Indexed(index) => text::joined(seq![code, "5"@, text::decimal(index as nat)], ";"@),
        _ => code,
    }
}

/// The terminal code of a colour.
pub fn ansi_color(color: Color, background: bool) -> (r: String)
    ensures
        r@ == color_code(color, background),
{
    let named: u64 = match color {
        Color::Reset => 39,
        Color::Black => 30,
        Color::Red => 31,
        Color::Green => 32,
        Color::Yellow => 33,
        Color::Blue => 34,
        Color::Magenta => 35,
        Color::Cyan => 36,
        Color::Gray => 37,
        Color::DarkGray => 90,
        Color::LightRed => 91,
        Color::LightGreen => 92,
        Color::LightYellow => 93,
        Color::LightBlue => 94,
        Color::LightMagenta => 95,
        Color::LightCyan => 96,
        Color::White => 97,
        Color::Rgb(_, _, _) => 38,
        Color::Indexed(_) => 38,
    };
    let shift: u64 = if background {
        10
    } else {
        0
    };
    let code = decimal_of(named + shift);
    let mut parts: Vec<String> = Vec::new();
    parts.push(code);
    match color {
        Color::Rgb(r, g, b) => {
            parts.push("2".to_owned());
            parts.push(decimal_of(r as u64));
            parts.push(decimal_of(g as u64));
            parts.push(decimal_of(b as u64));
            assert(text::views(parts@) =~= seq![
                parts@[0]@,
                "2"@,
                text::decimal(r as nat),
                text::decimal(g as nat),
                text::decimal(b as nat),
            ]);
            join(&parts, ";")
        },
        Color::Indexed(index) => {
            parts.push("5".to_owned());
            parts.push(decimal_of(index as u64));
            assert(text::views(parts@) =~= seq![parts@[0]@, "5"@, text::decimal(index as nat)]);
            join(&parts, ";")
        },
        _ => {
            let out = join(&parts, ";");
            assert(text::views(parts@) =~= seq![parts@[0]@]);
            out
        },
    }
}

/// The codes of the first `n` attributes that are set, numbered from one.
pub open spec fn modifier_codes(added: Modifiers, n: int) -> Seq<Seq<char>>
    decreases n,
{
    if n <= 0 {
        Seq::empty()
    } else if added.has(n - 1) {
        modifier_codes(added, n - 1).push(text::decimal(n as nat))
    } else {
        modifier_codes(added, n - 1)
    }
}

/// The codes of a style.
pub open spec fn style_codes(style: Style) -> Seq<Seq<char>> {
    let fg = match style.fg {
        Some(color) => seq![color_code(color, false)],
        None => Seq::empty(),
    };
    let bg = match style.bg {
        Some(color) => seq![color_code(color, true)],
        None => Seq::empty(),
    };
    fg + bg + modifier_codes(style.added, MODIFIER_COUNT as int)
}

/// The sequence that switches a style on; nothing for a style without codes.
pub open spec fn style_start(style: Style) -> Seq<char> {
    if style_codes(style).len() == 0 {
        Seq::empty()
    } else {
        "\x1b["@ + text::joined(style_codes(style), ";"@) + "m"@
    }
}

/// The sequence that switches a style on.
pub fn ansi_start(style: Style) -> (r: String)
    ensures
        r@ == style_start(style),
{
    let mut codes: Vec<String> = Vec::new();
    if let Some(fg) = style.fg {
        codes.push(ansi_color(fg, false));
    }
    if let Some(bg) = style.bg {
        codes.push(ansi_color(bg, true));
    }
    let ghost colors = text::views(codes@);
    proof {
        let fg = match style.fg {
            Some(color) => seq![color_code(color, false)],
            None => Seq::empty(),
        };
        let bg = match style.bg {
            Some(color) => seq![color_code(color, true)],
            None => Seq::empty(),
        };
        assert(colors =~= fg + bg);
    }
    let added = style.added;
    let mut i: usize = 0;
    assert(colors + modifier_codes(added, 0) =~= colors);
    while i < MODIFIER_COUNT
        invariant
            i <= MODIFIER_COUNT,
            text::views(codes@) == colors + modifier_codes(added, i as int),
        decreases MODIFIER_COUNT - i,
    {
        let ghost before = codes@;
        if added.holds(i) {
            codes.push(decimal_of(i as u64 + 1));
            proof {
                text::lemma_views_push(before, codes@.last());
                assert(text::views(codes@) =~= colors + modifier_codes(added, i + 1));
            }
        }
        i = i + 1;
    }
    assert(text::views(codes@).len() == codes@.len());
    if codes.len() == 0 {
        let empty = String::new();
        assert(empty@ =~= Seq::<char>::empty());
        empty
    } else {
        concat3("\x1b[", &join(&codes, ";"), "m")
    }
}

// ---------------------------------------------------------------------------
// Text in cells
// ---------------------------------------------------------------------------

/// Control characters.
pub open spec fn is_control(c: char) -> bool {
    (c as u32) < 0x20 || 0x7f <= (c as u32) < 0xa0
}

/// The hexadecimal digit of a number below sixteen.
pub open spec fn hex_digit(n: int) -> char {
    if n < 10 {
        ('0' as u32 + n) as char
    } else {
        ('A' as u32 + (n - 10)) as char
    }
}

/// How a character is shown: a control character by its escape.
pub open spec fn shown_char(c: char) -> Seq<char> {
    if c == '\n' {
        "\\n"@
    } else if c == '\r' {
        "\\r"@
    } else if c == '\t' {
        "\\t"@
    } else if c as u32 == 0x1b {
        "\\e"@
    } else if is_control(c) {
        "\\u{00"@ + seq![hex_digit((c as u32 / 16) as int), hex_digit((c as u32 % 16) as int)] + "}"@
    } else {
        seq![c]
    }
}

/// A text with its control characters made visible.
pub open spec fn normalized(s: Seq<char>) -> Seq<char>
    decreases s.len(),
{
    if s.len() == 0 {
        Seq::empty()
    } else {
        normalized(s.drop_last()) + shown_char(s.last())
    }
}

fn hex(n: u32) -> (r: char)
    requires
        n < 16,
    ensures
        r == hex_digit(n as int),
{
    match n {
        0 => '0',
        1 => '1',
        2 => '2',
        3 => '3',
        4 => '4',
        5 => '5',
        6 => '6',
        7 => '7',
        8 => '8',
        9 => '9',
        10 => 'A',
        11 => 'B',
        12 => 'C',
        13 => 'D',
        14 => 'E',
        _ => 'F',
    }
}

fn show_char(out: &mut String, c: char)
    ensures
        final(out)@ == old(out)@ + shown_char(c),
{
    let code: u32 = c as u32;
    if c == '\n' {
        out.append("\\n");
    } else if c == '\r' {
        out.append("\\r");
    } else if c == '\t' {
        out.append("\\t");
    } else if code == 0x1b {
        out.append("\\e");
    } else if code < 0x20 || (0x7f <= code && code < 0xa0) {
        out.append("\\u{00");
        out.push(hex(code / 16));
        out.push(hex(code % 16));
        out.append("}");
        assert(out@ =~= old(out)@ + shown_char(c));
    } else {
        out.push(c);
        assert(out@ =~= old(out)@ + shown_char(c));
    }
}

/// A text with its control characters made visible.
pub fn normalize_controls(value: &str) -> (r: String)
    ensures
        r@ == normalized(value@),
{
    let chars = chars_of(value);
    let mut out = String::new();
    let mut i: usize = 0;
    assert(out@ =~= normalized(chars@.take(0)));
    while i < chars.len()
        invariant
            i <= chars@.len(),
            out@ == normalized(chars@.take(i as int)),
        decreases chars@.len() - i,
    {
        show_char(&mut out, chars[i]);
        proof {
            let now = chars@.take(i + 1);
            assert(now.drop_last() =~= chars@.take(i as int));
            assert(now.last() == chars@[i as int]);
        }
        i = i + 1;
    }
    assert(chars@.take(chars@.len() as int) =~= chars@);
    out
}

/// The columns that `unicode_width` gives a character.
pub uninterp spec fn char_columns(c: char) -> Option<usize>;

/// `UnicodeWidthChar::width`: how many columns of a terminal a character takes,
/// and nothing for a control character. A printable ASCII character takes one.
/// The widths of other characters are left to that crate's tables.
#[verifier::external_body]
fn char_width(c: char) -> (r: Option<usize>)
    ensures
        r == char_columns(c),
        r is None <==> is_control(c),
        0x20 <= c as u32 <= 0x7e ==> r == Some(1usize),
{
    unicode_width::UnicodeWidthChar::width(c)
}

/// Whether a character is one of the printable characters of ASCII.
pub open spec fn is_printable(c: char) -> bool {
    0x20 <= c as u32 <= 0x7e
}

/// The columns that a character takes: one for a printable character of ASCII, and
/// none for a control character.
pub open spec fn columns_of(c: char) -> nat {
    if is_printable(c) {
        1
    } else if is_control(c) {
        0
    } else {
        match char_columns(c) {
            Some(n) => n as nat,
            None => 0,
        }
    }
}

fn columns(c: char) -> (r: usize)
    ensures
        r == columns_of(c),
{
    match char_width(c) {
        Some(n) => n,
        None => 0,
    }
}

/// The columns that a text takes.
pub open spec fn text_columns(s: Seq<char>) -> nat
    decreases s.len(),
{
    if s.len() == 0 {
        0
    } else {
        text_columns(s.drop_last()) + columns_of(s.last())
    }
}

/// A number of columns, as far as it can be counted.
pub open spec fn counted(n: nat) -> nat {
    if n > usize::MAX {
        usize::MAX as nat
    } else {
        n
    }
}

/// The columns that a text takes.
pub fn display_width(value: &str) -> (r: usize)
    ensures
        r == counted(text_columns(value@)),
        (forall|i: int| 0 <= i < value@.len() ==> is_printable(#[trigger] value@[i])) ==> r
            == counted(value@.len()),
{
    proof {
        if forall|i: int| 0 <= i < value@.len() ==> is_printable(#[trigger] value@[i]) {
            printable_text_takes_its_length(value@, 0);
        }
    }
    let chars = chars_of(value);
    let mut used: usize = 0;
    let mut i: usize = 0;
    while i < chars.len()
        invariant
            i <= chars@.len(),
            used == counted(text_columns(chars@.take(i as int))),
        decreases chars@.len() - i,
    {
        let width: usize = columns(chars[i]);
        used = used.saturating_add(width);
        proof {
            let now = chars@.take(i + 1);
            assert(now.drop_last() =~= chars@.take(i as int));
            assert(now.last() == chars@[i as int]);
        }
        i = i + 1;
    }
    assert(chars@.take(chars@.len() as int) =~= chars@);
    used
}

/// How many characters of a text fit in `width` columns, beginning with `n` that do.
pub open spec fn fitting(s: Seq<char>, width: nat, n: int) -> int
    decreases s.len() - n,
{
    if n < 0 || n >= s.len() || text_columns(s.take(n + 1)) > width {
        n
    } else {
        fitting(s, width, n + 1)
    }
}

/// The longest beginning of a text of which every part fits in `width` columns.
pub open spec fn clipped(s: Seq<char>, width: nat) -> Seq<char> {
    s.take(fitting(s, width, 0))
}

/// The longest beginning of a text that fits in `width` columns.
pub fn clip_display_width(value: &str, width: usize) -> (r: String)
    ensures
        r@ == clipped(value@, width as nat),
        text_columns(r@) <= width,
{
    let chars = chars_of(value);
    let mut out = String::new();
    let mut used: usize = 0;
    let mut i: usize = 0;
    assert(out@ =~= chars@.take(0));
    while i < chars.len()
        invariant
            i <= chars@.len(),
            chars@ == value@,
            out@ == chars@.take(i as int),
            used == text_columns(chars@.take(i as int)),
            used <= width,
            fitting(chars@, width as nat, 0) == fitting(chars@, width as nat, i as int),
        decreases chars@.len() - i,
    {
        proof {
            let now = chars@.take(i + 1);
            assert(now.drop_last() =~= chars@.take(i as int));
            assert(now.last() == chars@[i as int]);
        }
        let char_width: usize = columns(chars[i]);
        if char_width > width - used {
            return out;
        }
        out.push(chars[i]);
        assert(out@ =~= chars@.take(i + 1));
        used = used + char_width;
        i = i + 1;
    }
    out
}

proof fn lemma_fitting_printable(s: Seq<char>, width: nat, n: int)
    requires
        0 <= n <= s.len(),
        n <= width,
        forall|i: int| 0 <= i < s.len() ==> is_printable(#[trigger] s[i]),
    ensures
        fitting(s, width, n) == if s.len() <= width {
            s.len() as int
        } else {
            width as int
        },
    decreases s.len() - n,
{
    if n < s.len() {
        let now = s.take(n + 1);
        assert forall|i: int| 0 <= i < now.len() implies is_printable(#[trigger] now[i]) by {
            assert(now[i] == s[i]);
        }
        lemma_printable_columns(now);
        if n < width {
            lemma_fitting_printable(s, width, n + 1);
        }
    }
}

proof fn lemma_printable_columns(s: Seq<char>)
    requires
        forall|i: int| 0 <= i < s.len() ==> is_printable(#[trigger] s[i]),
    ensures
        text_columns(s) == s.len(),
    decreases s.len(),
{
    if s.len() > 0 {
        let front = s.drop_last();
        assert forall|i: int| 0 <= i < front.len() implies is_printable(#[trigger] front[i]) by {
            assert(front[i] == s[i]);
        }
        assert(is_printable(s[s.len() - 1]));
        lemma_printable_columns(front);
    }
}

/// A text of printable ASCII takes as many columns as it has characters, so that
/// clipping it keeps as many characters as there are columns.
pub proof fn printable_text_takes_its_length(s: Seq<char>, width: nat)
    requires
        forall|i: int| 0 <= i < s.len() ==> is_printable(#[trigger] s[i]),
    ensures
        text_columns(s) == s.len(),
        clipped(s, width) == if s.len() <= width {
            s
        } else {
            s.take(width as int)
        },
{
    lemma_printable_columns(s);
    lemma_fitting_printable(s, width, 0);
    assert(s.take(s.len() as int) =~= s);
}

/// A text of `n` blanks.
pub open spec fn blanks(n: nat) -> Seq<char> {
    Seq::new(n, |i: int| ' ')
}

proof fn lemma_columns_append(a: Seq<char>, b: Seq<char>)
    ensures
        text_columns(a + b) == text_columns(a) + text_columns(b),
    decreases b.len(),
{
    if b.len() == 0 {
        assert(a + b =~= a);
    } else {
        assert((a + b).drop_last() =~= a + b.drop_last());
        lemma_columns_append(a, b.drop_last());
    }
}

fn blank_text(n: usize) -> (r: String)
    ensures
        r@ == blanks(n as nat),
        text_columns(r@) == n,
{
    let mut out = String::new();
    let mut used: usize = 0;
    assert(out@ =~= blanks(0));
    while used < n
        invariant
            used <= n,
            out@ == blanks(used as nat),
            text_columns(out@) == used,
        decreases n - used,
    {
        let ghost before = out@;
        let step: usize = columns(' ');
        out.push(' ');
        assert(out@.drop_last() =~= before);
        assert(out@ =~= blanks((used + 1) as nat));
        used = used + step;
    }
    out
}

/// The text of a cell in a column: clipped to its width and padded on the side
/// away from the text, except that the last column is not padded on the right.
pub open spec fn aligned(
    s: Seq<char>,
    width: nat,
    alignment: ColumnAlignment,
    final_column: bool,
) -> Seq<char> {
    let text = clipped(s, width);
    let padding = blanks((width - text_columns(text)) as nat);
    match alignment {
        ColumnAlignment::Right => padding + text,
        ColumnAlignment::Left => if final_column {
            text
        } else {
            text + padding
        },
    }
}

/// The text of a cell in a column. It takes the whole width of the column, unless
/// it is left-aligned in the last one.
pub fn align_cell(
    value: &str,
    width: usize,
    alignment: ColumnAlignment,
    final_column: bool,
) -> (r: String)
    ensures
        r@ == aligned(value@, width as nat, alignment, final_column),
        text_columns(r@) <= width,
        !(alignment is Left && final_column) ==> text_columns(r@) == width,
{
    let text = clip_display_width(value, width);
    let used: usize = display_width(&text);
    let padding = blank_text(width - used);
    proof {
        lemma_columns_append(padding@, text@);
        lemma_columns_append(text@, padding@);
    }
    match alignment {
        ColumnAlignment::Right => concat2(&padding, &text),
        ColumnAlignment::Left => if final_column {
            text
        } else {
            concat2(&text, &padding)
        },
    }
}

// ---------------------------------------------------------------------------
// Prepared output
// ---------------------------------------------------------------------------

/// How a column is laid out.
#[derive(Debug, Clone, Copy, PartialEq, Eq, Structural)]
pub struct PreparedColumn {
    pub alignment: ColumnAlignment,
    pub width_override: Option<usize>,
}

/// A cell and how it looks.
#[derive(Debug, PartialEq, Eq)]
pub struct PreparedCell {
    pub text: String,
    pub style: Style,
}

/// The model of a cell.
pub struct PreparedCellModel {
    pub text: Seq<char>,
    pub style: Style,
}

impl View for PreparedCell {
    type V = PreparedCellModel;

    open spec fn view(&self) -> PreparedCellModel {
        PreparedCellModel { text: self.text@, style: self.style }
    }
}

impl Clone for PreparedCell {
    fn clone(&self) -> (r: Self)
        ensures
            r@ == self@,
    {
        PreparedCell { text: self.text.clone(), style: self.style }
    }
}

/// The cells of a row.
pub open spec fn cells_view(cells: Seq<PreparedCell>) -> Seq<PreparedCellModel> {
    Seq::new(cells.len(), |i: int| cells[i]@)
}

/// The rows of a view, ready to be written.
#[derive(Debug, PartialEq, Eq)]
pub struct PreparedRows {
    pub rows: Vec<Vec<PreparedCell>>,
}

impl View for PreparedRows {
    type V = Seq<Seq<PreparedCellModel>>;

    open spec fn view(&self) -> Seq<Seq<PreparedCellModel>> {
        Seq::new(self.rows@.len(), |i: int| cells_view(self.rows@[i]@))
    }
}

impl PreparedRows {
    /// How many rows there are.
    pub fn len(&self) -> (r: usize)
        ensures
            r == self@.len(),
    {
        self.rows.len()
    }

    /// The cells of a row.
    pub fn row(&self, index: usize) -> (r: &Vec<PreparedCell>)
        requires
            index < self@.len(),
        ensures
            cells_view(r@) == self@[index as int],
    {
        &self.rows[index]
    }

    /// Whether there is no row.
    pub fn is_empty(&self) -> (r: bool)
        ensures
            r == (self@.len() == 0),
    {
        self.rows.len() == 0
    }
}

/// A view, ready to be written.
#[derive(Debug, PartialEq, Eq)]
pub struct PreparedOutput {
    pub header_visible: bool,
    pub header: Vec<PreparedCell>,
    pub rows: PreparedRows,
    pub columns: Vec<PreparedColumn>,
    pub gap: usize,
}

/// The model of a view that is ready to be written.
pub struct OutputModel {
    pub header_visible: bool,
    pub header: Seq<PreparedCellModel>,
    pub rows: Seq<Seq<PreparedCellModel>>,
    pub columns: Seq<PreparedColumn>,
    pub gap: nat,
}

impl View for PreparedOutput {
    type V = OutputModel;

    open spec fn view(&self) -> OutputModel {
        OutputModel {
            header_visible: self.header_visible,
            header: cells_view(self.header@),
            rows: self.rows@,
            columns: self.columns@,
            gap: self.gap as nat,
        }
    }
}

/// What a view shows.
#[derive(Debug, PartialEq, Eq)]
pub struct ViewContent {
    pub header_visible: bool,
    pub header: Option<Vec<String>>,
    pub rows: Vec<Vec<String>>,
    pub conditional_styles: Vec<Vec<Option<Style>>>,
    pub alignments: Vec<ColumnAlignment>,
    pub width_overrides: Vec<Option<usize>>,
    pub gap: usize,
}

/// The style that a rule gives a cell, if it gives one.
pub open spec fn conditional_style(styles: Seq<Vec<Option<Style>>>, row: int, column: int) -> Option<
    Style,
> {
    if 0 <= row < styles.len() && 0 <= column < styles[row]@.len() {
        styles[row]@[column]
    } else {
        None
    }
}

/// Whether a cell is prepared from a text: with the style of all cells, and over it
/// the style that a rule gives, if those count.
pub open spec fn is_prepared_cell(
    r: PreparedCellModel,
    text: Seq<char>,
    base: Style,
    conditional: Option<Style>,
) -> bool {
    &&& r.text == text
    &&& match conditional {
        Some(upper) => is_overlay(r.style, base, upper),
        None => r.style == base,
    }
}

/// Whether a row is prepared from its texts.
pub open spec fn is_prepared_row(
    r: Seq<PreparedCellModel>,
    content: ViewContent,
    row: int,
    base: Style,
    conditional: bool,
) -> bool {
    &&& r.len() == content.rows@[row]@.len()
    &&& forall|i: int|
        0 <= i < r.len() ==> is_prepared_cell(
            #[trigger] r[i],
            content.rows@[row]@[i]@,
            base,
            if conditional {
                conditional_style(content.conditional_styles@, row, i)
            } else {
                None
            },
        )
}

/// Whether an output is prepared from a view.
pub open spec fn is_prepared(
    r: OutputModel,
    content: ViewContent,
    header_style: Style,
    cell_style: Style,
    conditional: bool,
) -> bool {
    &&& r.header_visible == content.header_visible
    &&& match content.header {
        Some(names) => {
            &&& r.header.len() == names@.len()
            &&& forall|i: int|
                0 <= i < names@.len() ==> #[trigger] r.header[i] == (PreparedCellModel {
                    text: names@[i]@,
                    style: header_style,
                })
        },
        None => r.header.len() == 0,
    }
    &&& r.rows.len() == content.rows@.len()
    &&& forall|row: int|
        0 <= row < r.rows.len() ==> is_prepared_row(
            #[trigger] r.rows[row],
            content,
            row,
            cell_style,
            conditional,
        )
    &&& r.columns.len() == if content.alignments@.len() <= content.width_overrides@.len() {
        content.alignments@.len()
    } else {
        content.width_overrides@.len()
    }
    &&& forall|i: int|
        0 <= i < r.columns.len() ==> #[trigger] r.columns[i] == (PreparedColumn {
            alignment: content.alignments@[i],
            width_override: content.width_overrides@[i],
        })
    &&& r.gap == content.gap
}

fn prepare_row(
    content: &ViewContent,
    row: usize,
    base: Style,
    conditional: bool,
) -> (r: Vec<PreparedCell>)
    requires
        row < content.rows@.len(),
    ensures
        is_prepared_row(cells_view(r@), *content, row as int, base, conditional),
{
    let texts = &content.rows[row];
    let mut out: Vec<PreparedCell> = Vec::new();
    let mut i: usize = 0;
    while i < texts.len()
        invariant
            row < content.rows@.len(),
            *texts == content.rows@[row as int],
            i <= texts@.len(),
            out@.len() == i,
            forall|k: int|
                0 <= k < i ==> is_prepared_cell(
                    (#[trigger] out@[k])@,
                    texts@[k]@,
                    base,
                    if conditional {
                        conditional_style(content.conditional_styles@, row as int, k)
                    } else {
                        None
                    },
                ),
        decreases texts@.len() - i,
    {
        let mut style = base;
        if conditional && row < content.conditional_styles.len() && i
            < content.conditional_styles[row].len() {
            if let Some(upper) = content.conditional_styles[row][i] {
                style = overlay_style(base, upper);
            }
        }
        out.push(PreparedCell { text: texts[i].clone(), style });
        i = i + 1;
    }
    out
}

/// Prepares a view for writing. The styles that rules give count only if they are
/// required.
pub fn prepare(
    content: &ViewContent,
    header_style: Style,
    cell_style: Style,
    requirements: OutputRequirements,
) -> (r: PreparedOutput)
    ensures
        is_prepared(r@, *content, header_style, cell_style, requirements.conditional_styles),
{
    let mut header: Vec<PreparedCell> = Vec::new();
    if let Some(names) = &content.header {
        let mut i: usize = 0;
        while i < names.len()
            invariant
                i <= names@.len(),
                header@.len() == i,
                forall|k: int|
                    0 <= k < i ==> (#[trigger] header@[k])@ == (PreparedCellModel {
                        text: names@[k]@,
                        style: header_style,
                    }),
            decreases names@.len() - i,
        {
            header.push(PreparedCell { text: names[i].clone(), style: header_style });
            i = i + 1;
        }
    }
    let mut rows: Vec<Vec<PreparedCell>> = Vec::new();
    let mut row: usize = 0;
    while row < content.rows.len()
        invariant
            row <= content.rows@.len(),
            rows@.len() == row,
            forall|k: int|
                0 <= k < row ==> is_prepared_row(
                    cells_view((#[trigger] rows@[k])@),
                    *content,
                    k,
                    cell_style,
                    requirements.conditional_styles,
                ),
        decreases content.rows@.len() - row,
    {
        rows.push(prepare_row(content, row, cell_style, requirements.conditional_styles));
        row = row + 1;
    }
    let mut columns: Vec<PreparedColumn> = Vec::new();
    let mut i: usize = 0;
    while i < content.alignments.len() && i < content.width_overrides.len()
        invariant
            i <= content.alignments@.len(),
            i <= content.width_overrides@.len(),
            columns@.len() == i,
            forall|k: int|
                0 <= k < i ==> #[trigger] columns@[k] == (PreparedColumn {
                    alignment: content.alignments@[k],
                    width_override: content.width_overrides@[k],
                }),
        decreases content.alignments@.len() - i,
    {
        columns.push(
            PreparedColumn {
                alignment: content.alignments[i],
                width_override: content.width_overrides[i],
            },
        );
        i = i + 1;
    }
    PreparedOutput {
        header_visible: content.header_visible,
        header,
        rows: PreparedRows { rows },
        columns,
        gap: content.gap,
    }
}

// ---------------------------------------------------------------------------
// Fixed-width tables
// ---------------------------------------------------------------------------

/// A row with its control characters made visible.
pub open spec fn normalized_cells(row: Seq<PreparedCellModel>) -> Seq<PreparedCellModel> {
    Seq::new(
        row.len(),
        |i: int| PreparedCellModel { text: normalized(row[i].text), style: row[i].style },
    )
}

fn normalize_row(row: &Vec<PreparedCell>) -> (r: Vec<PreparedCell>)
    ensures
        cells_view(r@) == normalized_cells(cells_view(row@)),
{
    let mut out: Vec<PreparedCell> = Vec::new();
    let mut i: usize = 0;
    while i < row.len()
        invariant
            i <= row@.len(),
            out@.len() == i,
            forall|k: int|
                0 <= k < i ==> (#[trigger] out@[k])@ == normalized_cells(cells_view(row@))[k],
        decreases row@.len() - i,
    {
        out.push(PreparedCell { text: normalize_controls(&row[i].text), style: row[i].style });
        i = i + 1;
    }
    assert(cells_view(out@) =~= normalized_cells(cells_view(row@)));
    out
}

/// The columns that the cell of a row takes; none where there is no cell.
pub open spec fn cell_columns(row: Seq<PreparedCellModel>, column: int) -> nat {
    if 0 <= column < row.len() {
        counted(text_columns(normalized(row[column].text)))
    } else {
        0
    }
}

/// The larger of two numbers.
pub open spec fn larger(a: nat, b: nat) -> nat {
    if a >= b {
        a
    } else {
        b
    }
}

/// The widest cell of a column among the header and the first `n` rows.
pub open spec fn widest(prepared: OutputModel, column: int, n: int) -> nat
    decreases n,
{
    if n <= 0 || n > prepared.rows.len() {
        larger(1, cell_columns(prepared.header, column))
    } else {
        larger(widest(prepared, column, n - 1), cell_columns(prepared.rows[n - 1], column))
    }
}

/// The width of a column: the one it is given, or that of its widest cell, and one
/// at least.
pub open spec fn column_width(prepared: OutputModel, column: int) -> nat {
    match prepared.columns[column].width_override {
        Some(width) => larger(width as nat, 1),
        None => widest(prepared, column, prepared.rows.len() as int),
    }
}

fn wider(width: usize, row: &Vec<PreparedCell>, column: usize) -> (r: usize)
    ensures
        r == larger(width as nat, cell_columns(cells_view(row@), column as int)),
{
    if column < row.len() {
        let cell: usize = display_width(&normalize_controls(&row[column].text));
        if width >= cell {
            width
        } else {
            cell
        }
    } else {
        width
    }
}

/// The width of each column.
pub fn resolved_widths(prepared: &PreparedOutput) -> (r: Vec<usize>)
    ensures
        r@.len() == prepared@.columns.len(),
        forall|i: int| 0 <= i < r@.len() ==> #[trigger] r@[i] == column_width(prepared@, i),
{
    let mut widths: Vec<usize> = Vec::new();
    let mut column: usize = 0;
    while column < prepared.columns.len()
        invariant
            column <= prepared.columns@.len(),
            widths@.len() == column,
            forall|i: int| 0 <= i < column ==> #[trigger] widths@[i] == column_width(prepared@, i),
        decreases prepared.columns@.len() - column,
    {
        let width: usize = match prepared.columns[column].width_override {
            Some(width) => if width >= 1 {
                width
            } else {
                1
            },
            None => {
                let mut widest_cell: usize = wider(1, &prepared.header, column);
                let mut row: usize = 0;
                while row < prepared.rows.len()
                    invariant
                        row <= prepared.rows@.len(),
                        widest_cell == widest(prepared@, column as int, row as int),
                    decreases prepared.rows@.len() - row,
                {
                    widest_cell = wider(widest_cell, prepared.rows.row(row), column);
                    row = row + 1;
                }
                widest_cell
            },
        };
        widths.push(width);
        column = column + 1;
    }
    widths
}

/// A text without the blanks at its end.
pub open spec fn without_final_blanks(s: Seq<char>) -> Seq<char>
    decreases s.len(),
{
    if s.len() > 0 && s.last() == ' ' {
        without_final_blanks(s.drop_last())
    } else {
        s
    }
}

fn drop_final_blanks(s: &str) -> (r: String)
    ensures
        r@ == without_final_blanks(s@),
{
    let chars = chars_of(s);
    let mut n: usize = chars.len();
    assert(chars@.take(n as int) =~= chars@);
    while n > 0 && chars[n - 1] == ' '
        invariant
            n <= chars@.len(),
            without_final_blanks(chars@) == without_final_blanks(chars@.take(n as int)),
        decreases n,
    {
        assert(chars@.take(n as int).drop_last() =~= chars@.take(n - 1));
        n = n - 1;
    }
    assert(chars@.subrange(0, n as int) =~= chars@.take(n as int));
    string_of_range(&chars, 0, n)
}

/// How many of the first `n` cells there are up to the last that is not blank.
pub open spec fn filled(cells: Seq<PreparedCellModel>, n: int) -> int
    decreases n,
{
    if n <= 0 {
        0
    } else if n <= cells.len() && without_final_blanks(cells[n - 1].text).len() > 0 {
        n
    } else {
        filled(cells, n - 1)
    }
}

/// How many columns of a line are written.
pub open spec fn written_columns(
    cells: Seq<PreparedCellModel>,
    columns: Seq<PreparedColumn>,
    trim: bool,
) -> int {
    if trim {
        filled(cells, columns.len() as int)
    } else {
        columns.len() as int
    }
}

/// A text in a style.
pub open spec fn styled(text: Seq<char>, style: Option<Style>) -> Seq<char> {
    match style {
        Some(style) => if style_start(style).len() == 0 {
            text
        } else {
            style_start(style) + text + "\x1b[0m"@
        },
        None => text,
    }
}

/// What a line holds of a column. `count` columns of it are written.
pub open spec fn column_text(
    cells: Seq<PreparedCellModel>,
    column: PreparedColumn,
    width: nat,
    index: int,
    count: int,
    color: ColorOutput,
    trim: bool,
) -> Seq<char> {
    let last = index + 1 == count;
    let text = if index < cells.len() {
        cells[index].text
    } else {
        Seq::empty()
    };
    let aligned_text = aligned(text, width, column.alignment, last);
    let shown = if last && trim {
        without_final_blanks(aligned_text)
    } else {
        aligned_text
    };
    styled(
        shown,
        if color is Always && index < cells.len() {
            Some(cells[index].style)
        } else {
            None
        },
    )
}

/// The first `n` of `count` columns of a line, with the gap between them.
pub open spec fn line_text(
    cells: Seq<PreparedCellModel>,
    prepared: OutputModel,
    n: int,
    count: int,
    color: ColorOutput,
    trim: bool,
) -> Seq<char>
    decreases n,
{
    if n <= 0 {
        Seq::empty()
    } else {
        let piece = column_text(
            cells,
            prepared.columns[n - 1],
            column_width(prepared, n - 1),
            n - 1,
            count,
            color,
            trim,
        );
        if n == 1 {
            piece
        } else {
            line_text(cells, prepared, n - 1, count, color, trim) + blanks(prepared.gap) + piece
        }
    }
}

/// The line of a row.
pub open spec fn table_line(
    cells: Seq<PreparedCellModel>,
    prepared: OutputModel,
    color: ColorOutput,
    trim: bool,
) -> Seq<char> {
    let count = written_columns(cells, prepared.columns, trim);
    line_text(cells, prepared, count, count, color, trim) + "\n"@
}

/// The lines of the first `n` rows.
pub open spec fn row_lines(prepared: OutputModel, n: int, color: ColorOutput, trim: bool) -> Seq<
    char,
>
    decreases n,
{
    if n <= 0 || n > prepared.rows.len() {
        Seq::empty()
    } else {
        row_lines(prepared, n - 1, color, trim) + table_line(
            normalized_cells(prepared.rows[n - 1]),
            prepared,
            color,
            trim,
        )
    }
}

/// A table: the header, if there is one to show, and the rows.
pub open spec fn table_text(prepared: OutputModel, color: ColorOutput, trim: bool) -> Seq<char> {
    let header = if prepared.header_visible && prepared.header.len() > 0 {
        table_line(normalized_cells(prepared.header), prepared, color, trim)
    } else {
        Seq::empty()
    };
    header + row_lines(prepared, prepared.rows.len() as int, color, trim)
}

fn count_filled(cells: &Vec<PreparedCell>, n: usize) -> (r: usize)
    ensures
        r == filled(cells_view(cells@), n as int),
        r <= n,
{
    let mut i: usize = n;
    while i > 0
        invariant
            i <= n,
            filled(cells_view(cells@), n as int) == filled(cells_view(cells@), i as int),
        decreases i,
    {
        if i <= cells.len() {
            let text = drop_final_blanks(&cells[i - 1].text);
            assert(cells_view(cells@)[i - 1].text == cells@[i - 1].text@);
            if !text.as_str().is_empty() {
                return i;
            }
        }
        i = i - 1;
    }
    0
}

fn style_text(text: &str, style: Option<Style>) -> (r: String)
    ensures
        r@ == styled(text@, style),
{
    match style {
        Some(style) => {
            let start = ansi_start(style);
            if start.as_str().is_empty() {
                text.to_owned()
            } else {
                concat3(&start, text, "\x1b[0m")
            }
        },
        None => text.to_owned(),
    }
}

fn write_line(
    cells: &Vec<PreparedCell>,
    prepared: &PreparedOutput,
    widths: &Vec<usize>,
    color: ColorOutput,
    trim_trailing: bool,
) -> (r: String)
    requires
        widths@.len() == prepared@.columns.len(),
        forall|i: int|
            0 <= i < widths@.len() ==> #[trigger] widths@[i] == column_width(prepared@, i),
    ensures
        r@ == table_line(cells_view(cells@), prepared@, color, trim_trailing),
{
    let ghost model = cells_view(cells@);
    let total: usize = prepared.columns.len();
    let count: usize = if trim_trailing {
        count_filled(cells, total)
    } else {
        total
    };
    let gap = blank_text(prepared.gap);
    let mut out = String::new();
    let mut index: usize = 0;
    assert(out@ =~= Seq::<char>::empty());
    while index < count
        invariant
            index <= count <= total,
            total == prepared.columns@.len(),
            widths@.len() == total,
            model == cells_view(cells@),
            forall|i: int|
                0 <= i < widths@.len() ==> #[trigger] widths@[i] == column_width(prepared@, i),
            gap@ == blanks(prepared.gap as nat),
            out@ == line_text(model, prepared@, index as int, count as int, color, trim_trailing),
        decreases count - index,
    {
        if index > 0 {
            out.append(&gap);
        }
        let last = index + 1 == count;
        let empty = String::new();
        assert(empty@ =~= Seq::<char>::empty());
        let (text, style) = if index < cells.len() {
            (
                &cells[index].text,
                if color == ColorOutput::Always {
                    Some(cells[index].style)
                } else {
                    None
                },
            )
        } else {
            (&empty, None)
        };
        let mut shown = align_cell(text, widths[index], prepared.columns[index].alignment, last);
        if last && trim_trailing {
            shown = drop_final_blanks(&shown);
        }
        assert(index < model.len() ==> model[index as int].text == cells@[index as int].text@);
        let piece = style_text(&shown, style);
        out.append(&piece);
        index = index + 1;
    }
    out.append("\n");
    out
}

fn write_table(prepared: &PreparedOutput, color: ColorOutput, trim_trailing: bool) -> (r: String)
    ensures
        r@ == table_text(prepared@, color, trim_trailing),
{
    let widths = resolved_widths(prepared);
    let mut out = String::new();
    assert(out@ =~= Seq::<char>::empty());
    if prepared.header_visible && prepared.header.len() > 0 {
        let header = normalize_row(&prepared.header);
        out = write_line(&header, prepared, &widths, color, trim_trailing);
    }
    let ghost head = out@;
    let mut row: usize = 0;
    assert(out@ =~= head + row_lines(prepared@, 0, color, trim_trailing));
    while row < prepared.rows.len()
        invariant
            row <= prepared.rows@.len(),
            widths@.len() == prepared@.columns.len(),
            forall|i: int|
                0 <= i < widths@.len() ==> #[trigger] widths@[i] == column_width(prepared@, i),
            out@ == head + row_lines(prepared@, row as int, color, trim_trailing),
        decreases prepared.rows@.len() - row,
    {
        let cells = normalize_row(prepared.rows.row(row));
        let line = write_line(&cells, prepared, &widths, color, trim_trailing);
        out.append(&line);
        row = row + 1;
        assert(out@ =~= head + row_lines(prepared@, row as int, color, trim_trailing));
    }
    out
}

// ---------------------------------------------------------------------------
// Formats
// ---------------------------------------------------------------------------

/// A way of writing a view.
pub trait OutputAdapter {
    /// What has to be known of a view.
    spec fn required(&self) -> OutputRequirements;

    /// Whether the output can be coloured.
    spec fn colored(&self) -> bool;

    /// What is written for a view.
    spec fn written(&self, prepared: OutputModel, color: ColorOutput) -> Seq<char>;

    fn requirements(&self) -> (r: OutputRequirements)
        ensures
            r == self.required(),
    ;

    fn supports_color(&self) -> (r: bool)
        ensures
            r == self.colored(),
    ;

    fn write(&self, prepared: &PreparedOutput, color: ColorOutput) -> (r: String)
        ensures
            r@ == self.written(prepared@, color),
    ;
}

/// Writes a table with columns of fixed width.
#[derive(Debug, Clone, Copy, PartialEq, Eq, Structural)]
pub struct FixedWidthTableAdapter {
    pub trim_trailing: bool,
}

impl Default for FixedWidthTableAdapter {
    fn default() -> (r: Self)
        ensures
            !r.trim_trailing,
    {
        FixedWidthTableAdapter { trim_trailing: false }
    }
}

impl OutputAdapter for FixedWidthTableAdapter {
    open spec fn required(&self) -> OutputRequirements {
        OutputRequirements {
            complete_rows: true,
            stable_widths: true,
            rendered_values: true,
            conditional_styles: true,
        }
    }

    open spec fn colored(&self) -> bool {
        true
    }

    open spec fn written(&self, prepared: OutputModel, color: ColorOutput) -> Seq<char> {
        table_text(prepared, color, self.trim_trailing)
    }

    fn requirements(&self) -> (r: OutputRequirements) {
        OutputRequirements {
            complete_rows: true,
            stable_widths: true,
            rendered_values: true,
            conditional_styles: true,
        }
    }

    fn supports_color(&self) -> (r: bool) {
        true
    }

    fn write(&self, prepared: &PreparedOutput, color: ColorOutput) -> (r: String) {
        write_table(prepared, color, self.trim_trailing)
    }
}

/// Writes the values as JSON, without styles and at full width. Cells go by their
/// position, so that labels may repeat or be missing.
#[derive(Debug, Clone, Copy, PartialEq, Eq, Structural)]
pub struct JsonAdapter {
    pub lines: bool,
}

/// The texts of cells as JSON strings.
pub open spec fn quoted_texts(cells: Seq<PreparedCellModel>) -> Seq<Seq<char>> {
    Seq::new(cells.len(), |i: int| json_value::json_quoted(cells[i].text))
}

/// The texts of cells as a JSON array.
pub open spec fn text_array(cells: Seq<PreparedCellModel>) -> Seq<char> {
    "["@ + text::joined(quoted_texts(cells), ","@) + "]"@
}

/// The labels that are written: those of a header that is shown.
pub open spec fn written_labels(prepared: OutputModel) -> Seq<PreparedCellModel> {
    if prepared.header_visible {
        prepared.header
    } else {
        Seq::empty()
    }
}

/// The first `n` rows, each a JSON object on a line of its own.
pub open spec fn json_lines(prepared: OutputModel, n: int) -> Seq<char>
    decreases n,
{
    if n <= 0 || n > prepared.rows.len() {
        Seq::empty()
    } else {
        json_lines(prepared, n - 1) + ("{\"columns\":"@ + text_array(written_labels(prepared))
            + ",\"values\":"@ + text_array(prepared.rows[n - 1]) + "}\n"@)
    }
}

/// The rows as JSON arrays.
pub open spec fn row_arrays(prepared: OutputModel) -> Seq<Seq<char>> {
    Seq::new(prepared.rows.len(), |i: int| text_array(prepared.rows[i]))
}

/// The whole view as one JSON object.
pub open spec fn json_document(prepared: OutputModel) -> Seq<char> {
    "{\"columns\":"@ + text_array(written_labels(prepared)) + ",\"rows\":["@ + text::joined(
        row_arrays(prepared),
        ","@,
    ) + "]}\n"@
}

fn array_text(cells: &Vec<PreparedCell>) -> (r: String)
    ensures
        r@ == text_array(cells_view(cells@)),
        is_unbroken(r@),
{
    let mut parts: Vec<String> = Vec::new();
    let mut i: usize = 0;
    while i < cells.len()
        invariant
            i <= cells@.len(),
            parts@.len() == i,
            forall|k: int|
                0 <= k < i ==> (#[trigger] parts@[k])@ == json_value::json_quoted(cells@[k].text@)
                    && is_unbroken(parts@[k]@),
        decreases cells@.len() - i,
    {
        let quoted = quote_json(&cells[i].text);
        assert(is_unbroken(quoted@));
        parts.push(quoted);
        i = i + 1;
    }
    assert(text::views(parts@) =~= quoted_texts(cells_view(cells@)));
    proof {
        reveal_strlit("[");
        reveal_strlit(",");
        reveal_strlit("]");
        lemma_joined_unbroken(text::views(parts@), ","@);
    }
    concat3("[", &join(&parts, ","), "]")
}

fn label_array(prepared: &PreparedOutput) -> (r: String)
    ensures
        r@ == text_array(written_labels(prepared@)),
        is_unbroken(r@),
{
    if prepared.header_visible {
        array_text(&prepared.header)
    } else {
        let none: Vec<PreparedCell> = Vec::new();
        assert(cells_view(none@) =~= Seq::<PreparedCellModel>::empty());
        array_text(&none)
    }
}

fn write_json_lines(prepared: &PreparedOutput) -> (r: String)
    ensures
        r@ == json_lines(prepared@, prepared@.rows.len() as int),
        line_breaks(r@) == prepared@.rows.len(),
{
    let labels = label_array(prepared);
    let mut out = String::new();
    let mut row: usize = 0;
    assert(out@ =~= Seq::<char>::empty());
    while row < prepared.rows.len()
        invariant
            row <= prepared.rows@.len(),
            labels@ == text_array(written_labels(prepared@)),
            is_unbroken(labels@),
            out@ == json_lines(prepared@, row as int),
            line_breaks(out@) == row,
        decreases prepared.rows@.len() - row,
    {
        let values = array_text(prepared.rows.row(row));
        let line = concat5("{\"columns\":", &labels, ",\"values\":", &values, "}\n");
        proof {
            reveal_strlit("{\"columns\":");
            reveal_strlit(",\"values\":");
            lemma_closed_line(
                "{\"columns\":"@ + labels@ + ",\"values\":"@ + values@,
                "}\n"@,
            );
            lemma_breaks_append(out@, line@);
        }
        out.append(&line);
        row = row + 1;
    }
    out
}

fn write_json_document(prepared: &PreparedOutput) -> (r: String)
    ensures
        r@ == json_document(prepared@),
        line_breaks(r@) == 1,
{
    let labels = label_array(prepared);
    let mut arrays: Vec<String> = Vec::new();
    let mut row: usize = 0;
    while row < prepared.rows.len()
        invariant
            row <= prepared.rows@.len(),
            arrays@.len() == row,
            forall|k: int|
                0 <= k < row ==> (#[trigger] arrays@[k])@ == text_array(prepared@.rows[k])
                    && is_unbroken(arrays@[k]@),
        decreases prepared.rows@.len() - row,
    {
        arrays.push(array_text(prepared.rows.row(row)));
        row = row + 1;
    }
    assert(text::views(arrays@) =~= row_arrays(prepared@));
    let rows = join(&arrays, ",");
    proof {
        reveal_strlit(",");
        reveal_strlit("{\"columns\":");
        reveal_strlit(",\"rows\":[");
        lemma_joined_unbroken(text::views(arrays@), ","@);
        lemma_closed_line("{\"columns\":"@ + labels@ + ",\"rows\":["@ + rows@, "]}\n"@);
    }
    concat5("{\"columns\":", &labels, ",\"rows\":[", &rows, "]}\n")
}

impl OutputAdapter for JsonAdapter {
    open spec fn required(&self) -> OutputRequirements {
        OutputRequirements {
            complete_rows: true,
            stable_widths: false,
            rendered_values: true,
            conditional_styles: false,
        }
    }

    open spec fn colored(&self) -> bool {
        false
    }

    open spec fn written(&self, prepared: OutputModel, color: ColorOutput) -> Seq<char> {
        if self.lines {
            json_lines(prepared, prepared.rows.len() as int)
        } else {
            json_document(prepared)
        }
    }

    fn requirements(&self) -> (r: OutputRequirements) {
        OutputRequirements {
            complete_rows: true,
            stable_widths: false,
            rendered_values: true,
            conditional_styles: false,
        }
    }

    fn supports_color(&self) -> (r: bool) {
        false
    }

    /// A row takes one line, and so does a whole document.
    fn write(&self, prepared: &PreparedOutput, color: ColorOutput) -> (r: String)
        ensures
            line_breaks(r@) == (if self.lines {
                prepared@.rows.len()
            } else {
                1
            }),
    {
        if self.lines {
            write_json_lines(prepared)
        } else {
            write_json_document(prepared)
        }
    }
}

proof fn lemma_closed_line(line: Seq<char>, close: Seq<char>)
    requires
        is_unbroken(line),
        close == "}\n"@ || close == "]}\n"@,
    ensures
        line_breaks(line + close) == 1,
{
    reveal_strlit("}\n");
    reveal_strlit("]}\n");
    let last = close.len() - 1;
    assert(close[last] == '\n');
    assert((line + close).drop_last() =~= line + close.drop_last());
    assert(is_unbroken(line + close.drop_last()));
    lemma_unbroken(line + close.drop_last());
}

/// Why a view is not written.
#[derive(Debug, Clone, Copy, PartialEq, Eq, Structural)]
pub enum OutputError {
    ColorUnsupported,
}

impl OutputError {
    /// What is said of the error.
    pub fn message(self) -> (r: String)
        ensures
            r@ == "output format does not support --color always"@,
    {
        "output format does not support --color always".to_owned()
    }
}

/// What has to be known of a view for a format: the styles that rules give only if
/// the output is coloured.
pub open spec fn required_for(format: OutputFormat, color: ColorOutput) -> OutputRequirements {
    OutputRequirements {
        complete_rows: true,
        stable_widths: format is Table,
        rendered_values: true,
        conditional_styles: format is Table && color is Always,
    }
}

/// Which formats cannot be coloured as asked.
pub open spec fn refuses_color(format: OutputFormat, color: ColorOutput) -> bool {
    color is Always && format !is Table
}

/// What has to be known of a view for a format, or why it cannot be written.
pub fn view_requirements(format: OutputFormat, color: ColorOutput) -> (r: Result<
    OutputRequirements,
    OutputError,
>)
    ensures
        r == if refuses_color(format, color) {
            Err(OutputError::ColorUnsupported)
        } else {
            Ok(required_for(format, color))
        },
{
    let (supported, mut requirements) = match format {
        OutputFormat::Table => {
            let adapter = FixedWidthTableAdapter::default();
            (adapter.supports_color(), adapter.requirements())
        },
        OutputFormat::Json => {
            let adapter = JsonAdapter { lines: false };
            (adapter.supports_color(), adapter.requirements())
        },
        OutputFormat::Jsonl => {
            let adapter = JsonAdapter { lines: true };
            (adapter.supports_color(), adapter.requirements())
        },
    };
    if color == ColorOutput::Always && !supported {
        return Err(OutputError::ColorUnsupported);
    }
    requirements.conditional_styles = requirements.conditional_styles && color
        == ColorOutput::Always;
    Ok(requirements)
}

/// What is written for a view in a format.
pub open spec fn view_text(format: OutputFormat, color: ColorOutput, prepared: OutputModel) -> Seq<
    char,
> {
    match format {
        OutputFormat::Table => table_text(prepared, color, false),
        OutputFormat::Json => json_document(prepared),
        OutputFormat::Jsonl => json_lines(prepared, prepared.rows.len() as int),
    }
}

/// Writes a view in a format.
pub fn write_view(format: OutputFormat, color: ColorOutput, prepared: &PreparedOutput) -> (r: Result<
    String,
    OutputError,
>)
    ensures
        match r {
            Ok(text) => !refuses_color(format, color) && text@ == view_text(
                format,
                color,
                prepared@,
            ),
            Err(error) => refuses_color(format, color) && error is ColorUnsupported,
        },
        r matches Ok(text) ==> line_breaks(text@) == view_lines(format, prepared@),
{
    view_requirements(format, color)?;
    proof {
        tables_have_a_line_for_each_row(prepared@, color, false);
    }
    Ok(
        match format {
            OutputFormat::Table => FixedWidthTableAdapter::default().write(prepared, color),
            OutputFormat::Json => (JsonAdapter { lines: false }).write(prepared, color),
            OutputFormat::Jsonl => (JsonAdapter { lines: true }).write(prepared, color),
        },
    )
}

/// How many lines a view takes: one for each row of a table and one for its
/// header, one for a JSON document, or one for each row of JSON lines.
pub open spec fn view_lines(format: OutputFormat, prepared: OutputModel) -> int {
    match format {
        OutputFormat::Table => prepared.rows.len() + (if prepared.header_visible
            && prepared.header.len() > 0 {
            1int
        } else {
            0int
        }),
        OutputFormat::Json => 1,
        OutputFormat::Jsonl => prepared.rows.len() as int,
    }
}

/// What is said below a preview of the rows that follow.
pub open spec fn more_rows(remaining: Option<RowCount>) -> Seq<char> {
    match remaining {
        Some(RowCount::Exact(count)) => text::decimal(count as nat) + " more rows...\n"@,
        Some(_) => "more rows...\n"@,
        None => Seq::empty(),
    }
}

/// What has to be known of a view for a preview: nothing but the styles, if the
/// output is coloured.
pub fn preview_requirements(color: ColorOutput) -> (r: OutputRequirements)
    ensures
        r == (OutputRequirements {
            complete_rows: false,
            stable_widths: false,
            rendered_values: false,
            conditional_styles: color is Always,
        }),
{
    let mut requirements = OutputRequirements::default();
    requirements.conditional_styles = color == ColorOutput::Always;
    requirements
}

/// Writes a preview: the table without blanks at the ends of lines, and what is
/// said of the rows that follow.
pub fn write_preview(color: ColorOutput, prepared: &PreparedOutput, remaining: Option<RowCount>) -> (r:
    String)
    ensures
        r@ == table_text(prepared@, color, true) + more_rows(remaining),
{
    let adapter = FixedWidthTableAdapter { trim_trailing: true };
    let mut out = adapter.write(prepared, color);
    match remaining {
        Some(RowCount::Exact(count)) => {
            let line = concat2(&decimal_of_usize(count), " more rows...\n");
            out.append(&line);
        },
        Some(_) => out.append("more rows...\n"),
        None => {
            assert(out@ + more_rows(remaining) =~= out@);
        },
    }
    out
}

/// What went wrong with writing or flushing.
#[derive(Debug, PartialEq, Eq)]
pub enum WriteFault {
    BrokenPipe,
    Failed(String),
}

/// What becomes of writing or flushing: that nobody reads on is no failure.
pub fn output_result(outcome: Result<(), WriteFault>) -> (r: Result<(), WriteFault>)
    ensures
        r == if outcome matches Err(fault) && fault is Failed {
            outcome
        } else {
            Ok(())
        },
{
    match outcome {
        Ok(()) => Ok(()),
        Err(WriteFault::BrokenPipe) => Ok(()),
        Err(fault) => Err(fault),
    }
}

// ---------------------------------------------------------------------------
// Laws
// ---------------------------------------------------------------------------

proof fn lemma_shown_char(c: char)
    ensures
        forall|i: int| 0 <= i < shown_char(c).len() ==> !is_control(#[trigger] shown_char(c)[i]),
{
    reveal_strlit("\\n");
    reveal_strlit("\\r");
    reveal_strlit("\\t");
    reveal_strlit("\\e");
    reveal_strlit("\\u{00");
    reveal_strlit("}");
}

/// A text that is made visible holds no control character.
pub proof fn shown_text_has_no_controls(s: Seq<char>)
    ensures
        forall|i: int| 0 <= i < normalized(s).len() ==> !is_control(#[trigger] normalized(s)[i]),
    decreases s.len(),
{
    if s.len() > 0 {
        shown_text_has_no_controls(s.drop_last());
        lemma_shown_char(s.last());
        let front = normalized(s.drop_last());
        let back = shown_char(s.last());
        assert forall|i: int| 0 <= i < normalized(s).len() implies !is_control(
            #[trigger] normalized(s)[i],
        ) by {
            if i < front.len() {
                assert(normalized(s)[i] == front[i]);
            } else {
                assert(normalized(s)[i] == back[i - front.len()]);
            }
        }
    }
}

proof fn lemma_visible_stays(s: Seq<char>)
    requires
        forall|i: int| 0 <= i < s.len() ==> !is_control(#[trigger] s[i]),
    ensures
        normalized(s) == s,
    decreases s.len(),
{
    if s.len() > 0 {
        assert forall|i: int| 0 <= i < s.drop_last().len() implies !is_control(
            #[trigger] s.drop_last()[i],
        ) by {
            assert(s.drop_last()[i] == s[i]);
        }
        lemma_visible_stays(s.drop_last());
        assert(!is_control(s[s.len() - 1]));
        assert(normalized(s) =~= s);
    } else {
        assert(normalized(s) =~= s);
    }
}

/// To make a visible text visible again changes nothing.
pub proof fn showing_again_changes_nothing(s: Seq<char>)
    ensures
        normalized(normalized(s)) == normalized(s),
{
    shown_text_has_no_controls(s);
    lemma_visible_stays(normalized(s));
}

proof fn lemma_columns_grow(s: Seq<char>, n: int, m: int)
    requires
        0 <= n <= m <= s.len(),
    ensures
        text_columns(s.take(n)) <= text_columns(s.take(m)),
    decreases m - n,
{
    if n < m {
        lemma_columns_grow(s, n, m - 1);
        assert(s.take(m).drop_last() =~= s.take(m - 1));
    }
}

proof fn lemma_fitting(s: Seq<char>, width: nat, n: int)
    requires
        0 <= n <= s.len(),
    ensures
        n <= fitting(s, width, n) <= s.len(),
        text_columns(s.take(n)) <= width ==> text_columns(s.take(fitting(s, width, n))) <= width,
        fitting(s, width, n) < s.len() ==> text_columns(s.take(fitting(s, width, n) + 1)) > width,
    decreases s.len() - n,
{
    if n < s.len() && text_columns(s.take(n + 1)) <= width {
        lemma_fitting(s, width, n + 1);
    }
}

/// A clipped text fits, and no longer beginning of the text does.
pub proof fn clipping_keeps_what_fits(s: Seq<char>, width: nat, n: int)
    requires
        0 <= n <= s.len(),
    ensures
        text_columns(clipped(s, width)) <= width,
        text_columns(s.take(n)) <= width ==> n <= clipped(s, width).len(),
{
    assert(s.take(0).len() == 0);
    lemma_fitting(s, width, 0);
    let most = fitting(s, width, 0);
    if most < n {
        lemma_columns_grow(s, most + 1, n);
    }
}

proof fn lemma_widest(prepared: OutputModel, column: int, n: int, row: int)
    requires
        0 <= row < n <= prepared.rows.len(),
    ensures
        widest(prepared, column, n) >= cell_columns(prepared.rows[row], column),
    decreases n,
{
    if row < n - 1 {
        lemma_widest(prepared, column, n - 1, row);
    }
}

/// A column that is given no width shows the whole of every cell in it.
pub proof fn unset_columns_show_whole_cells(prepared: OutputModel, column: int, row: int)
    requires
        0 <= row < prepared.rows.len(),
        0 <= column < prepared.columns.len(),
        column < prepared.rows[row].len(),
        prepared.columns[column].width_override is None,
        text_columns(normalized(prepared.rows[row][column].text)) <= usize::MAX,
    ensures
        ({
            let text = normalized(prepared.rows[row][column].text);
            clipped(text, column_width(prepared, column)) == text
        }),
{
    let text = normalized(prepared.rows[row][column].text);
    let width = column_width(prepared, column);
    lemma_widest(prepared, column, prepared.rows.len() as int, row);
    assert(text.take(text.len() as int) =~= text);
    clipping_keeps_what_fits(text, width, text.len() as int);
    assert(text.take(0).len() == 0);
    lemma_fitting(text, width, 0);
    assert(clipped(text, width) =~= text);
}

/// A text without a line break in it.
pub open spec fn is_unbroken(s: Seq<char>) -> bool {
    forall|i: int| 0 <= i < s.len() ==> #[trigger] s[i] != '\n'
}

proof fn lemma_decimal_unbroken(n: nat)
    ensures
        is_unbroken(text::decimal(n)),
    decreases n,
{
    if n >= 10 {
        lemma_decimal_unbroken(n / 10);
    }
}

proof fn lemma_joined_unbroken(parts: Seq<Seq<char>>, sep: Seq<char>)
    requires
        is_unbroken(sep),
        forall|i: int| 0 <= i < parts.len() ==> is_unbroken(#[trigger] parts[i]),
    ensures
        is_unbroken(text::joined(parts, sep)),
    decreases parts.len(),
{
    if parts.len() > 1 {
        assert forall|i: int| 0 <= i < parts.drop_last().len() implies is_unbroken(
            #[trigger] parts.drop_last()[i],
        ) by {
            assert(parts.drop_last()[i] == parts[i]);
        }
        lemma_joined_unbroken(parts.drop_last(), sep);
        assert(is_unbroken(parts[parts.len() - 1]));
    } else if parts.len() == 1 {
        assert(is_unbroken(parts[0]));
    }
}

proof fn lemma_color_unbroken(color: Color, background: bool)
    ensures
        is_unbroken(color_code(color, background)),
{
    reveal_strlit(";");
    reveal_strlit("2");
    reveal_strlit("5");
    let shift: int = if background {
        10
    } else {
        0
    };
    let code = text::decimal((named_code(color) + shift) as nat);
    lemma_decimal_unbroken((named_code(color) + shift) as nat);
    match color {
        Color::Rgb(r, g, b) => {
            lemma_decimal_unbroken(r as nat);
            lemma_decimal_unbroken(g as nat);
            lemma_decimal_unbroken(b as nat);
            lemma_joined_unbroken(
                seq![code, "2"@, text::decimal(r as nat), text::decimal(g as nat), text::decimal(b as nat)],
                ";"@,
            );
        },
        Color::Indexed(index) => {
            lemma_decimal_unbroken(index as nat);
            lemma_joined_unbroken(seq![code, "5"@, text::decimal(index as nat)], ";"@);
        },
        _ => {},
    }
}

proof fn lemma_modifiers_unbroken(added: Modifiers, n: int)
    ensures
        forall|i: int|
            0 <= i < modifier_codes(added, n).len() ==> is_unbroken(
                #[trigger] modifier_codes(added, n)[i],
            ),
    decreases n,
{
    if n > 0 {
        lemma_modifiers_unbroken(added, n - 1);
        lemma_decimal_unbroken(n as nat);
        let before = modifier_codes(added, n - 1);
        let now = modifier_codes(added, n);
        assert forall|i: int| 0 <= i < now.len() implies is_unbroken(#[trigger] now[i]) by {
            if i < before.len() {
                assert(now[i] == before[i]);
            }
        }
    }
}

proof fn lemma_style_unbroken(style: Style)
    ensures
        is_unbroken(style_start(style)),
{
    reveal_strlit("\x1b[");
    reveal_strlit("m");
    reveal_strlit(";");
    let codes = style_codes(style);
    if let Some(color) = style.fg {
        lemma_color_unbroken(color, false);
    }
    if let Some(color) = style.bg {
        lemma_color_unbroken(color, true);
    }
    lemma_modifiers_unbroken(style.added, MODIFIER_COUNT as int);
    assert forall|i: int| 0 <= i < codes.len() implies is_unbroken(#[trigger] codes[i]) by {}
    lemma_joined_unbroken(codes, ";"@);
}

proof fn lemma_blanks_dropped(s: Seq<char>)
    ensures
        without_final_blanks(s).len() <= s.len(),
        without_final_blanks(s) == s.take(without_final_blanks(s).len() as int),
    decreases s.len(),
{
    if s.len() > 0 && s.last() == ' ' {
        lemma_blanks_dropped(s.drop_last());
        let n = without_final_blanks(s).len() as int;
        assert(s.drop_last().take(n) =~= s.take(n));
    } else {
        assert(s.take(s.len() as int) =~= s);
    }
}

proof fn lemma_column_unbroken(
    cells: Seq<PreparedCellModel>,
    column: PreparedColumn,
    width: nat,
    index: int,
    count: int,
    color: ColorOutput,
    trim: bool,
)
    requires
        0 <= index,
        index < cells.len() ==> is_unbroken(cells[index].text),
    ensures
        is_unbroken(column_text(cells, column, width, index, count, color, trim)),
{
    reveal_strlit("\x1b[0m");
    let text = if index < cells.len() {
        cells[index].text
    } else {
        Seq::empty()
    };
    let last = index + 1 == count;
    lemma_fitting(text, width, 0);
    assert(is_unbroken(clipped(text, width)));
    let whole = aligned(text, width, column.alignment, last);
    assert(is_unbroken(whole));
    lemma_blanks_dropped(whole);
    assert(is_unbroken(without_final_blanks(whole)));
    if index < cells.len() {
        lemma_style_unbroken(cells[index].style);
    }
}

proof fn lemma_line_unbroken(
    cells: Seq<PreparedCellModel>,
    prepared: OutputModel,
    n: int,
    count: int,
    color: ColorOutput,
    trim: bool,
)
    requires
        forall|i: int| 0 <= i < cells.len() ==> is_unbroken((#[trigger] cells[i]).text),
    ensures
        is_unbroken(line_text(cells, prepared, n, count, color, trim)),
    decreases n,
{
    if n > 0 {
        lemma_line_unbroken(cells, prepared, n - 1, count, color, trim);
        lemma_column_unbroken(
            cells,
            prepared.columns[n - 1],
            column_width(prepared, n - 1),
            n - 1,
            count,
            color,
            trim,
        );
    }
}

/// How many line breaks a text has.
pub open spec fn line_breaks(s: Seq<char>) -> nat
    decreases s.len(),
{
    if s.len() == 0 {
        0
    } else {
        line_breaks(s.drop_last()) + if s.last() == '\n' {
            1nat
        } else {
            0nat
        }
    }
}

proof fn lemma_breaks_append(a: Seq<char>, b: Seq<char>)
    ensures
        line_breaks(a + b) == line_breaks(a) + line_breaks(b),
    decreases b.len(),
{
    if b.len() == 0 {
        assert(a + b =~= a);
    } else {
        assert((a + b).drop_last() =~= a + b.drop_last());
        lemma_breaks_append(a, b.drop_last());
    }
}

proof fn lemma_unbroken(s: Seq<char>)
    requires
        is_unbroken(s),
    ensures
        line_breaks(s) == 0,
    decreases s.len(),
{
    if s.len() > 0 {
        assert(is_unbroken(s.drop_last())) by {
            assert forall|i: int| 0 <= i < s.len() - 1 implies #[trigger] s.drop_last()[i]
                != '\n' by {
                assert(s.drop_last()[i] == s[i]);
            }
        }
        lemma_unbroken(s.drop_last());
        assert(s[s.len() - 1] != '\n');
    }
}

proof fn lemma_line_breaks(
    row: Seq<PreparedCellModel>,
    prepared: OutputModel,
    color: ColorOutput,
    trim: bool,
)
    ensures
        line_breaks(table_line(normalized_cells(row), prepared, color, trim)) == 1,
{
    reveal_strlit("\n");
    let cells = normalized_cells(row);
    assert forall|i: int| 0 <= i < cells.len() implies is_unbroken((#[trigger] cells[i]).text) by {
        shown_text_has_no_controls(row[i].text);
        let text = cells[i].text;
        assert forall|k: int| 0 <= k < text.len() implies #[trigger] text[k] != '\n' by {
            assert(!is_control(normalized(row[i].text)[k]));
        }
    }
    let count = written_columns(cells, prepared.columns, trim);
    let line = line_text(cells, prepared, count, count, color, trim);
    lemma_line_unbroken(cells, prepared, count, count, color, trim);
    lemma_unbroken(line);
    lemma_breaks_append(line, "\n"@);
    assert("\n"@.drop_last().len() == 0);
    assert(line_breaks("\n"@.drop_last()) == 0);
}

proof fn lemma_row_breaks(prepared: OutputModel, n: int, color: ColorOutput, trim: bool)
    requires
        0 <= n <= prepared.rows.len(),
    ensures
        line_breaks(row_lines(prepared, n, color, trim)) == n,
    decreases n,
{
    if n > 0 {
        lemma_row_breaks(prepared, n - 1, color, trim);
        lemma_line_breaks(prepared.rows[n - 1], prepared, color, trim);
        lemma_breaks_append(
            row_lines(prepared, n - 1, color, trim),
            table_line(normalized_cells(prepared.rows[n - 1]), prepared, color, trim),
        );
    }
}

/// A table has a line for each row and one for the header, whatever the cells hold.
pub proof fn tables_have_a_line_for_each_row(
    prepared: OutputModel,
    color: ColorOutput,
    trim: bool,
)
    ensures
        line_breaks(table_text(prepared, color, trim)) == prepared.rows.len() + (if prepared
            .header_visible && prepared.header.len() > 0 {
            1int
        } else {
            0int
        }),
{
    let header = if prepared.header_visible && prepared.header.len() > 0 {
        table_line(normalized_cells(prepared.header), prepared, color, trim)
    } else {
        Seq::empty()
    };
    lemma_line_breaks(prepared.header, prepared, color, trim);
    lemma_row_breaks(prepared, prepared.rows.len() as int, color, trim);
    lemma_breaks_append(header, row_lines(prepared, prepared.rows.len() as int, color, trim));
}

/// A right-aligned cell ends with its clipped text and has only blanks before it; a
/// left-aligned one begins with it and has only blanks behind it. The blanks fill the
/// width, except behind a left-aligned cell of the last column, where there are none.
pub proof fn cells_stand_on_their_side(s: Seq<char>, width: nat, final_column: bool)
    ensures
        ({
            let text = clipped(s, width);
            let gap = width - text_columns(text);
            let right = aligned(s, width, ColumnAlignment::Right, final_column);
            let left = aligned(s, width, ColumnAlignment::Left, final_column);
            &&& right.len() == text.len() + gap
            &&& right.skip(gap) == text
            &&& forall|i: int| 0 <= i < gap ==> #[trigger] right[i] == ' '
            &&& left.len() == text.len() + if final_column {
                0
            } else {
                gap
            }
            &&& left.take(text.len() as int) == text
            &&& forall|i: int| text.len() <= i < left.len() ==> #[trigger] left[i] == ' '
        }),
{
    clipping_keeps_what_fits(s, width, 0);
    let text = clipped(s, width);
    let gap = width - text_columns(text);
    let right = aligned(s, width, ColumnAlignment::Right, final_column);
    let left = aligned(s, width, ColumnAlignment::Left, final_column);
    assert(right.skip(gap) =~= text);
    assert(left.take(text.len() as int) =~= text);
}

/// Clipping keeps a beginning of a text, and the whole text where it fits.
pub proof fn clipping_keeps_a_beginning(s: Seq<char>, width: nat)
    ensures
        clipped(s, width).len() <= s.len(),
        clipped(s, width) == s.take(clipped(s, width).len() as int),
        text_columns(s) <= width ==> clipped(s, width) == s,
{
    lemma_fitting_within(s, width, 0);
    assert(s.take(s.len() as int) =~= s);
    clipping_keeps_what_fits(s, width, s.len() as int);
    assert(clipped(s, width) =~= s.take(clipped(s, width).len() as int));
}

proof fn lemma_fitting_within(s: Seq<char>, width: nat, n: int)
    requires
        0 <= n <= s.len(),
    ensures
        n <= fitting(s, width, n) <= s.len(),
    decreases s.len() - n,
{
    if n < s.len() && text_columns(s.take(n + 1)) <= width {
        lemma_fitting_within(s, width, n + 1);
    }
}

/// The text of a cell in a line without colours.
pub open spec fn cell_in_line(
    cells: Seq<PreparedCellModel>,
    prepared: OutputModel,
    i: int,
    count: int,
) -> Seq<char> {
    aligned(
        if i < cells.len() {
            cells[i].text
        } else {
            Seq::empty()
        },
        column_width(prepared, i),
        prepared.columns[i].alignment,
        i + 1 == count,
    )
}

proof fn lemma_line_joins(
    cells: Seq<PreparedCellModel>,
    prepared: OutputModel,
    n: int,
    count: int,
    color: ColorOutput,
)
    requires
        color !is Always,
        0 <= n <= count,
    ensures
        line_text(cells, prepared, n, count, color, false) == text::joined(
            Seq::new(n as nat, |i: int| cell_in_line(cells, prepared, i, count)),
            blanks(prepared.gap),
        ),
    decreases n,
{
    if n > 0 {
        lemma_line_joins(cells, prepared, n - 1, count, color);
        let now = Seq::new(n as nat, |i: int| cell_in_line(cells, prepared, i, count));
        let before = Seq::new((n - 1) as nat, |i: int| cell_in_line(cells, prepared, i, count));
        assert(now.drop_last() =~= before);
    }
}

/// A line without colours is its cells, each aligned in its own column, with the gap
/// between two of them and a line end behind the last; a row that is too short has
/// empty cells at its end.
pub proof fn lines_join_their_cells(
    cells: Seq<PreparedCellModel>,
    prepared: OutputModel,
    color: ColorOutput,
)
    requires
        color !is Always,
    ensures
        table_line(cells, prepared, color, false) == text::joined(
            Seq::new(
                prepared.columns.len(),
                |i: int| cell_in_line(cells, prepared, i, prepared.columns.len() as int),
            ),
            blanks(prepared.gap),
        ) + seq!['\n'],
{
    let n = prepared.columns.len() as int;
    reveal_strlit("\n");
    assert("\n"@ =~= seq!['\n']);
    lemma_line_joins(cells, prepared, n, n, color);
}

/// The gap is made of blanks alone.
pub proof fn gaps_are_blank(n: nat)
    ensures
        blanks(n).len() == n,
        forall|i: int| 0 <= i < n ==> #[trigger] blanks(n)[i] == ' ',
{
}

proof fn lemma_split_behind(a: Seq<char>, b: Seq<char>)
    requires
        is_unbroken(b),
    ensures
        text::split_on(a + b, '\n') == text::split_on(a, '\n').drop_last().push(
            text::split_on(a, '\n').last() + b,
        ),
    decreases b.len(),
{
    text::lemma_split_nonempty(a, '\n');
    let parts = text::split_on(a, '\n');
    if b.len() == 0 {
        assert(a + b =~= a);
        assert(parts.last() + b =~= parts.last());
        assert(parts =~= parts.drop_last().push(parts.last()));
    } else {
        let front = b.drop_last();
        assert((a + b).drop_last() =~= a + front);
        assert forall|i: int| 0 <= i < front.len() implies #[trigger] front[i] != '\n' by {
            assert(front[i] == b[i]);
        }
        lemma_split_behind(a, front);
        assert(b[b.len() - 1] != '\n');
        let prior = parts.drop_last().push(parts.last() + front);
        assert(prior.drop_last() =~= parts.drop_last());
        assert((parts.last() + front).push(b.last()) =~= parts.last() + b);
    }
}

proof fn lemma_line_behind(a: Seq<char>, line: Seq<char>)
    requires
        is_unbroken(line),
        text::split_on(a, '\n').last().len() == 0,
    ensures
        text::split_on(a + (line + "\n"@), '\n') == text::split_on(a, '\n').drop_last().push(
            line,
        ).push(Seq::empty()),
{
    reveal_strlit("\n");
    lemma_split_behind(a, line);
    let whole = a + (line + "\n"@);
    assert(whole.drop_last() =~= a + line);
    assert(whole.last() == '\n');
    assert(text::split_on(a, '\n').last() + line =~= line);
}

proof fn lemma_row_unbroken(
    row: Seq<PreparedCellModel>,
    prepared: OutputModel,
    color: ColorOutput,
    trim: bool,
)
    ensures
        is_unbroken(
            line_text(
                normalized_cells(row),
                prepared,
                written_columns(normalized_cells(row), prepared.columns, trim),
                written_columns(normalized_cells(row), prepared.columns, trim),
                color,
                trim,
            ),
        ),
{
    let cells = normalized_cells(row);
    assert forall|i: int| 0 <= i < cells.len() implies is_unbroken((#[trigger] cells[i]).text) by {
        shown_text_has_no_controls(row[i].text);
        let text = cells[i].text;
        assert forall|k: int| 0 <= k < text.len() implies #[trigger] text[k] != '\n' by {
            assert(!is_control(normalized(row[i].text)[k]));
        }
    }
    let count = written_columns(cells, prepared.columns, trim);
    lemma_line_unbroken(cells, prepared, count, count, color, trim);
}

proof fn lemma_rows_split(
    a: Seq<char>,
    prepared: OutputModel,
    n: int,
    color: ColorOutput,
    trim: bool,
)
    requires
        0 <= n <= prepared.rows.len(),
        text::split_on(a, '\n').last().len() == 0,
    ensures
        ({
            let parts = text::split_on(a + row_lines(prepared, n, color, trim), '\n');
            let h = text::split_on(a, '\n').len() - 1;
            &&& parts.len() == h + n + 1
            &&& parts.last().len() == 0
            &&& parts.take(h) == text::split_on(a, '\n').take(h)
            &&& forall|i: int|
                0 <= i < n ==> (#[trigger] parts[h + i]) + "\n"@ == table_line(
                    normalized_cells(prepared.rows[i]),
                    prepared,
                    color,
                    trim,
                )
        }),
    decreases n,
{
    text::lemma_split_nonempty(a, '\n');
    let h = text::split_on(a, '\n').len() - 1;
    if n > 0 {
        lemma_rows_split(a, prepared, n - 1, color, trim);
        let cells = normalized_cells(prepared.rows[n - 1]);
        let count = written_columns(cells, prepared.columns, trim);
        let line = line_text(cells, prepared, count, count, color, trim);
        let front = a + row_lines(prepared, n - 1, color, trim);
        lemma_row_unbroken(prepared.rows[n - 1], prepared, color, trim);
        lemma_line_behind(front, line);
        assert(front + (line + "\n"@) =~= a + row_lines(prepared, n, color, trim));
        let before = text::split_on(front, '\n');
        let parts = text::split_on(a + row_lines(prepared, n, color, trim), '\n');
        assert(parts == before.drop_last().push(line).push(Seq::empty()));
        assert(parts.take(h) =~= before.take(h));
        assert forall|i: int| 0 <= i < n implies (#[trigger] parts[h + i]) + "\n"@ == table_line(
            normalized_cells(prepared.rows[i]),
            prepared,
            color,
            trim,
        ) by {
            if i < n - 1 {
                assert(parts[h + i] == before[h + i]);
            }
        }
    } else {
        assert(a + row_lines(prepared, 0, color, trim) =~= a);
    }
}

/// A table is its lines one after another: that of the header first, where it is
/// shown, and then that of each row in turn.
pub proof fn tables_show_rows_in_order(
    prepared: OutputModel,
    color: ColorOutput,
    trim: bool,
    i: int,
)
    requires
        0 <= i < prepared.rows.len(),
    ensures
        ({
            let lines = text::split_on(table_text(prepared, color, trim), '\n');
            let shown = prepared.header_visible && prepared.header.len() > 0;
            let h: int = if shown {
                1
            } else {
                0
            };
            &&& lines.len() == h + prepared.rows.len() + 1
            &&& lines.last().len() == 0
            &&& shown ==> lines[0] + seq!['\n'] == table_line(
                normalized_cells(prepared.header),
                prepared,
                color,
                trim,
            )
            &&& lines[h + i] + seq!['\n'] == table_line(
                normalized_cells(prepared.rows[i]),
                prepared,
                color,
                trim,
            )
        }),
{
    reveal_strlit("\n");
    assert("\n"@ =~= seq!['\n']);
    let none = Seq::<char>::empty();
    assert(text::split_on(none, '\n') =~= seq![none]);
    if prepared.header_visible && prepared.header.len() > 0 {
        let cells = normalized_cells(prepared.header);
        let count = written_columns(cells, prepared.columns, trim);
        let line = line_text(cells, prepared, count, count, color, trim);
        lemma_row_unbroken(prepared.header, prepared, color, trim);
        lemma_line_behind(none, line);
        let header = line + "\n"@;
        assert(none + header =~= header);
        let first = text::split_on(header, '\n');
        assert(first == text::split_on(none, '\n').drop_last().push(line).push(none));
        assert(first.len() == 2 && first[0] == line);
        lemma_rows_split(header, prepared, prepared.rows.len() as int, color, trim);
        let lines = text::split_on(table_text(prepared, color, trim), '\n');
        assert(lines.take(1)[0] == first.take(1)[0]);
    } else {
        lemma_rows_split(none, prepared, prepared.rows.len() as int, color, trim);
    }
}

proof fn lemma_widest_cells(prepared: OutputModel, column: int, n: int)
    requires
        0 <= n <= prepared.rows.len(),
    ensures
        widest(prepared, column, n) >= 1,
        widest(prepared, column, n) >= cell_columns(prepared.header, column),
        forall|i: int|
            0 <= i < n ==> cell_columns(#[trigger] prepared.rows[i], column) <= widest(
                prepared,
                column,
                n,
            ),
        widest(prepared, column, n) == 1 || widest(prepared, column, n) == cell_columns(
            prepared.header,
            column,
        ) || exists|i: int|
            0 <= i < n && cell_columns(#[trigger] prepared.rows[i], column) == widest(
                prepared,
                column,
                n,
            ),
    decreases n,
{
    if n > 0 {
        lemma_widest_cells(prepared, column, n - 1);
        let last = cell_columns(prepared.rows[n - 1], column);
        if widest(prepared, column, n) != last && widest(prepared, column, n) != 1 && widest(
            prepared,
            column,
            n,
        ) != cell_columns(prepared.header, column) {
            let i = choose|i: int|
                0 <= i < n - 1 && cell_columns(#[trigger] prepared.rows[i], column) == widest(
                    prepared,
                    column,
                    n - 1,
                );
            assert(cell_columns(prepared.rows[i], column) == widest(prepared, column, n));
        }
    }
}

/// A column has the width that it is given, or else just that of its widest cell, the
/// one in the header counting too, and never less than one.
pub proof fn columns_are_as_wide_as_needed(prepared: OutputModel, column: int)
    requires
        0 <= column < prepared.columns.len(),
    ensures
        column_width(prepared, column) >= 1,
        prepared.columns[column].width_override matches Some(w) ==> column_width(prepared, column)
            == if w > 0 {
            w as nat
        } else {
            1
        },
        prepared.columns[column].width_override is None ==> {
            let width = column_width(prepared, column);
            &&& cell_columns(prepared.header, column) <= width
            &&& forall|i: int|
                0 <= i < prepared.rows.len() ==> cell_columns(#[trigger] prepared.rows[i], column)
                    <= width
            &&& width == 1 || width == cell_columns(prepared.header, column) || exists|i: int|
                0 <= i < prepared.rows.len() && cell_columns(#[trigger] prepared.rows[i], column)
                    == width
        },
{
    lemma_widest_cells(prepared, column, prepared.rows.len() as int);
}

/// A cell counts as wide as its text is shown, and one that is missing as nothing.
pub proof fn cells_count_as_they_are_shown(row: Seq<PreparedCellModel>, column: int)
    ensures
        0 <= column < row.len() && text_columns(normalized(row[column].text)) <= usize::MAX
            ==> cell_columns(row, column) == text_columns(normalized(row[column].text)),
        column >= row.len() ==> cell_columns(row, column) == 0,
        normalized_cells(row).len() == row.len(),
        0 <= column < row.len() ==> normalized_cells(row)[column].text == normalized(
            row[column].text,
        ) && normalized_cells(row)[column].style == row[column].style,
{
}

proof fn lemma_normalized_append(a: Seq<char>, b: Seq<char>)
    ensures
        normalized(a + b) == normalized(a) + normalized(b),
    decreases b.len(),
{
    if b.len() == 0 {
        assert(a + b =~= a);
        assert(normalized(a) + normalized(b) =~= normalized(a));
    } else {
        assert((a + b).drop_last() =~= a + b.drop_last());
        lemma_normalized_append(a, b.drop_last());
        assert(normalized(a + b) =~= normalized(a) + normalized(b));
    }
}

/// Control characters are shown as their escapes and everything else as it is,
/// character by character.
pub proof fn controls_are_shown_as_escapes(a: Seq<char>, c: char, b: Seq<char>)
    ensures
        normalized(a + b) == normalized(a) + normalized(b),
        normalized(seq!['\n']) == seq!['\\', 'n'],
        normalized(seq!['\r']) == seq!['\\', 'r'],
        normalized(seq!['\t']) == seq!['\\', 't'],
        normalized(seq!['\u{1b}']) == seq!['\\', 'e'],
        normalized(seq!['\u{0}']) == seq!['\\', 'u', '{', '0', '0', '0', '0', '}'],
        normalized(seq!['\u{9f}']) == seq!['\\', 'u', '{', '0', '0', '9', 'F', '}'],
        !(c as u32 <= 0x1f || 0x7f <= c as u32 <= 0x9f) ==> normalized(seq![c]) == seq![c],
        c as u32 <= 0x1f || 0x7f <= c as u32 <= 0x9f ==> normalized(seq![c]).len() >= 2
            && normalized(seq![c])[0] == '\\',
{
    lemma_normalized_append(a, b);
    reveal_strlit("\\n");
    reveal_strlit("\\r");
    reveal_strlit("\\t");
    reveal_strlit("\\e");
    reveal_strlit("\\u{00");
    reveal_strlit("}");
    assert forall|d: char| normalized(#[trigger] seq![d]) == shown_char(d) by {
        assert(seq![d].drop_last() =~= Seq::<char>::empty());
        assert(normalized(seq![d].drop_last()) =~= Seq::<char>::empty());
        assert(Seq::<char>::empty() + shown_char(d) =~= shown_char(d));
    }
    assert(normalized(seq!['\n']) =~= seq!['\\', 'n']);
    assert(normalized(seq!['\r']) =~= seq!['\\', 'r']);
    assert(normalized(seq!['\t']) =~= seq!['\\', 't']);
    assert(normalized(seq!['\u{1b}']) =~= seq!['\\', 'e']);
    assert(normalized(seq!['\u{0}']) =~= seq!['\\', 'u', '{', '0', '0', '0', '0', '}']);
    assert(normalized(seq!['\u{9f}']) =~= seq!['\\', 'u', '{', '0', '0', '9', 'F', '}']);
}

/// The eight colours have codes one after another, their light forms lie sixty above
/// them, and a colour of the background lies ten above the same colour of the text.
pub proof fn color_codes_are_in_order(r: u8, g: u8, b: u8)
    ensures
        named_code(Color::Black) == 30,
        named_code(Color::Red) == named_code(Color::Black) + 1,
        named_code(Color::Green) == named_code(Color::Red) + 1,
        named_code(Color::Yellow) == named_code(Color::Green) + 1,
        named_code(Color::Blue) == named_code(Color::Yellow) + 1,
        named_code(Color::Magenta) == named_code(Color::Blue) + 1,
        named_code(Color::Cyan) == named_code(Color::Magenta) + 1,
        named_code(Color::Gray) == named_code(Color::Cyan) + 1,
        named_code(Color::DarkGray) == named_code(Color::Black) + 60,
        named_code(Color::LightRed) == named_code(Color::Red) + 60,
        named_code(Color::LightGreen) == named_code(Color::Green) + 60,
        named_code(Color::LightYellow) == named_code(Color::Yellow) + 60,
        named_code(Color::LightBlue) == named_code(Color::Blue) + 60,
        named_code(Color::LightMagenta) == named_code(Color::Magenta) + 60,
        named_code(Color::LightCyan) == named_code(Color::Cyan) + 60,
        named_code(Color::White) == named_code(Color::Gray) + 60,
        named_code(Color::Reset) == 39,
        forall|color: Color|
            !(color is Rgb || color is Indexed) ==> #[trigger] color_code(color, false)
                == text::decimal(named_code(color) as nat),
        forall|color: Color|
            !(color is Rgb || color is Indexed) ==> #[trigger] color_code(color, true)
                == text::decimal((named_code(color) + 10) as nat),
        color_code(Color::Rgb(r, g, b), false) == text::joined(
            seq![
                text::decimal(38),
                text::decimal(2),
                text::decimal(r as nat),
                text::decimal(g as nat),
                text::decimal(b as nat),
            ],
            seq![';'],
        ),
        color_code(Color::Rgb(r, g, b), true) == text::joined(
            seq![
                text::decimal(48),
                text::decimal(2),
                text::decimal(r as nat),
                text::decimal(g as nat),
                text::decimal(b as nat),
            ],
            seq![';'],
        ),
        color_code(Color::Indexed(r), false) == text::joined(
            seq![text::decimal(38), text::decimal(5), text::decimal(r as nat)],
            seq![';'],
        ),
        color_code(Color::Indexed(r), true) == text::joined(
            seq![text::decimal(48), text::decimal(5), text::decimal(r as nat)],
            seq![';'],
        ),
{
    reveal_strlit("2");
    reveal_strlit("5");
    reveal_strlit(";");
    assert("2"@ =~= text::decimal(2));
    assert("5"@ =~= text::decimal(5));
    assert(";"@ =~= seq![';']);
}

proof fn lemma_modifier_codes(added: Modifiers, n: int, k: int)
    requires
        0 <= k < n,
    ensures
        added.has(k) ==> modifier_codes(added, n).contains(text::decimal((k + 1) as nat)),
    decreases n,
{
    if added.has(k) {
        let now = modifier_codes(added, n);
        if k < n - 1 {
            lemma_modifier_codes(added, n - 1, k);
            let before = modifier_codes(added, n - 1);
            let i = choose|i: int|
                0 <= i < before.len() && before[i] == text::decimal((k + 1) as nat);
            assert(now[i] == before[i]);
        } else {
            assert(now[now.len() - 1] == text::decimal((k + 1) as nat));
        }
    }
}

/// A style begins with its colour, then that of its background, and each of its
/// attributes adds its number; one without any of them writes nothing.
pub proof fn styles_start_with_their_codes(style: Style)
    ensures
        style.fg matches Some(color) ==> style_codes(style).len() > 0 && style_codes(style)[0]
            == color_code(color, false),
        style.fg is None && style.bg is Some ==> style_codes(style).len() > 0 && style_codes(
            style,
        )[0] == color_code(style.bg->0, true),
        style.fg is Some && style.bg is Some ==> style_codes(style).len() > 1 && style_codes(
            style,
        )[1] == color_code(style.bg->0, true),
        style.added.bold ==> style_codes(style).contains(text::decimal(1)),
        style.added.dim ==> style_codes(style).contains(text::decimal(2)),
        style.added.italic ==> style_codes(style).contains(text::decimal(3)),
        style.added.underlined ==> style_codes(style).contains(text::decimal(4)),
        style.added.slow_blink ==> style_codes(style).contains(text::decimal(5)),
        style.added.rapid_blink ==> style_codes(style).contains(text::decimal(6)),
        style.added.reversed ==> style_codes(style).contains(text::decimal(7)),
        style.added.hidden ==> style_codes(style).contains(text::decimal(8)),
        style.added.crossed_out ==> style_codes(style).contains(text::decimal(9)),
        style_codes(style).len() > 0 ==> style_start(style) == seq!['\u{1b}', '['] + text::joined(
            style_codes(style),
            seq![';'],
        ) + seq!['m'],
        is_plain(style) ==> style_start(style).len() == 0,
{
    reveal_strlit("\x1b[");
    reveal_strlit(";");
    reveal_strlit("m");
    assert("\x1b["@ =~= seq!['\u{1b}', '[']);
    assert(";"@ =~= seq![';']);
    assert("m"@ =~= seq!['m']);
    let codes = style_codes(style);
    let tail = modifier_codes(style.added, MODIFIER_COUNT as int);
    assert forall|k: int| 0 <= k < 9 && #[trigger] style.added.has(k) implies codes.contains(
        text::decimal((k + 1) as nat),
    ) by {
        lemma_modifier_codes(style.added, 9, k);
        let i = choose|i: int| 0 <= i < tail.len() && tail[i] == text::decimal((k + 1) as nat);
        assert(codes[codes.len() - tail.len() + i] == tail[i]);
    }
    assert(style.added.has(0) == style.added.bold);
    assert(style.added.has(1) == style.added.dim);
    assert(style.added.has(2) == style.added.italic);
    assert(style.added.has(3) == style.added.underlined);
    assert(style.added.has(4) == style.added.slow_blink);
    assert(style.added.has(5) == style.added.rapid_blink);
    assert(style.added.has(6) == style.added.reversed);
    assert(style.added.has(7) == style.added.hidden);
    assert(style.added.has(8) == style.added.crossed_out);
    if is_plain(style) {
        lemma_no_modifiers(style.added, 9);
    }
}

proof fn lemma_no_modifiers(added: Modifiers, n: int)
    requires
        0 <= n <= 9,
        forall|i: int| 0 <= i < MODIFIER_COUNT ==> !#[trigger] added.has(i),
    ensures
        modifier_codes(added, n).len() == 0,
    decreases n,
{
    if n > 0 {
        lemma_no_modifiers(added, n - 1);
        assert(!added.has(n - 1));
    }
}

/// Where two styles lie over each other, the upper one decides what it says something
/// about, and the lower one the rest.
pub proof fn upper_styles_win(r: Style, base: Style, upper: Style)
    requires
        is_overlay(r, base, upper),
    ensures
        upper.fg is Some ==> r.fg == upper.fg,
        upper.fg is None ==> r.fg == base.fg,
        upper.bg is Some ==> r.bg == upper.bg,
        upper.bg is None ==> r.bg == base.bg,
        upper.added.bold && !upper.removed.bold ==> r.added.bold && !r.removed.bold,
        upper.removed.bold ==> !r.added.bold && r.removed.bold,
        !upper.added.bold && !upper.removed.bold ==> r.added.bold == base.added.bold
            && r.removed.bold == base.removed.bold,
        upper.added.crossed_out && !upper.removed.crossed_out ==> r.added.crossed_out,
        upper.removed.crossed_out ==> !r.added.crossed_out,
{
    assert(r.added.has(0) == r.added.bold && r.removed.has(0) == r.removed.bold);
    assert(base.added.has(0) == base.added.bold && base.removed.has(0) == base.removed.bold);
    assert(upper.added.has(0) == upper.added.bold && upper.removed.has(0) == upper.removed.bold);
    assert(r.added.has(8) == r.added.crossed_out);
    assert(upper.added.has(8) == upper.added.crossed_out && upper.removed.has(8)
        == upper.removed.crossed_out);
}

/// Text is put between the codes of its style and the code that ends all styles, and
/// stays as it is without a style.
pub proof fn styled_text_is_framed(text: Seq<char>, style: Style)
    ensures
        styled(text, None) == text,
        style_start(style).len() == 0 ==> styled(text, Some(style)) == text,
        style_start(style).len() > 0 ==> styled(text, Some(style)) == style_start(style) + text
            + seq!['\u{1b}', '[', '0', 'm'],
{
    reveal_strlit("\x1b[0m");
    assert("\x1b[0m"@ =~= seq!['\u{1b}', '[', '0', 'm']);
}

/// Dropping the blanks at the end drops nothing else, and all of them.
pub proof fn final_blanks_are_dropped(s: Seq<char>)
    ensures
        ({
            let kept = without_final_blanks(s);
            &&& kept.len() <= s.len()
            &&& kept == s.take(kept.len() as int)
            &&& kept.len() > 0 ==> kept.last() != ' '
            &&& forall|i: int| kept.len() <= i < s.len() ==> #[trigger] s[i] == ' '
        }),
    decreases s.len(),
{
    if s.len() > 0 && s.last() == ' ' {
        final_blanks_are_dropped(s.drop_last());
        let kept = without_final_blanks(s);
        assert(s.take(kept.len() as int) =~= s.drop_last().take(kept.len() as int));
        assert forall|i: int| kept.len() <= i < s.len() implies #[trigger] s[i] == ' ' by {
            if i < s.len() - 1 {
                assert(s.drop_last()[i] == s[i]);
            }
        }
    } else {
        assert(s.take(s.len() as int) =~= s);
    }
}

/// A table without blanks at the ends of its lines writes the columns up to the last
/// one in which the row has more than blanks; any other table writes them all.
pub proof fn empty_columns_at_the_end_are_left_out(
    cells: Seq<PreparedCellModel>,
    columns: Seq<PreparedColumn>,
)
    ensures
        written_columns(cells, columns, false) == columns.len(),
        ({
            let n = written_columns(cells, columns, true);
            &&& 0 <= n <= columns.len()
            &&& n > 0 ==> n <= cells.len() && without_final_blanks(cells[n - 1].text).len() > 0
            &&& forall|i: int|
                n <= i < columns.len() && i < cells.len() ==> without_final_blanks(
                    (#[trigger] cells[i]).text,
                ).len() == 0
        }),
{
    lemma_filled(cells, columns.len() as int);
}

proof fn lemma_filled(cells: Seq<PreparedCellModel>, n: int)
    requires
        0 <= n,
    ensures
        0 <= filled(cells, n) <= n,
        filled(cells, n) > 0 ==> filled(cells, n) <= cells.len() && without_final_blanks(
            cells[filled(cells, n) - 1].text,
        ).len() > 0,
        forall|i: int|
            filled(cells, n) <= i < n && i < cells.len() ==> without_final_blanks(
                (#[trigger] cells[i]).text,
            ).len() == 0,
    decreases n,
{
    if n > 0 && !(n <= cells.len() && without_final_blanks(cells[n - 1].text).len() > 0) {
        lemma_filled(cells, n - 1);
    }
}

/// A prepared view holds the texts of the view, each in its place: those of the header
/// in the style of headers, and those of the rows in the style of cells, over which
/// the style of a rule lies where such styles count and the cell has one.
pub proof fn prepared_views_keep_texts_and_styles(
    r: OutputModel,
    content: ViewContent,
    header_style: Style,
    cell_style: Style,
    conditional: bool,
    row: int,
    i: int,
)
    requires
        is_prepared(r, content, header_style, cell_style, conditional),
        0 <= row < content.rows@.len(),
        0 <= i < content.rows@[row]@.len(),
    ensures
        r.header_visible == content.header_visible,
        r.gap == content.gap,
        r.rows.len() == content.rows@.len(),
        r.rows[row].len() == content.rows@[row]@.len(),
        r.rows[row][i].text == content.rows@[row]@[i]@,
        !conditional ==> r.rows[row][i].style == cell_style,
        row >= content.conditional_styles@.len() ==> r.rows[row][i].style == cell_style,
        conditional && row < content.conditional_styles@.len() && i
            < content.conditional_styles@[row]@.len() ==> match content.conditional_styles@[row]@[i] {
            Some(upper) => upper.fg is Some ==> r.rows[row][i].style.fg == upper.fg,
            None => r.rows[row][i].style == cell_style,
        },
        content.header matches Some(names) ==> r.header.len() == names@.len() && forall|k: int|
            0 <= k < names@.len() ==> (#[trigger] r.header[k]).text == names@[k]@ && r.header[k].style
                == header_style,
        content.header is None ==> r.header.len() == 0,
        forall|k: int|
            0 <= k < r.columns.len() ==> (#[trigger] r.columns[k]).alignment
                == content.alignments@[k] && r.columns[k].width_override
                == content.width_overrides@[k],
{
    assert(is_prepared_row(r.rows[row], content, row, cell_style, conditional));
    let cell = r.rows[row][i];
    assert(is_prepared_cell(
        cell,
        content.rows@[row]@[i]@,
        cell_style,
        if conditional {
            conditional_style(content.conditional_styles@, row, i)
        } else {
            None
        },
    ));
}

/// A row as JSON is an array of its texts, each quoted, with commas between them.
pub proof fn json_rows_quote_their_texts(cells: Seq<PreparedCellModel>)
    ensures
        text_array(cells) == seq!['['] + text::joined(
            Seq::new(cells.len(), |i: int| json_value::json_quoted(cells[i].text)),
            seq![','],
        ) + seq![']'],
{
    reveal_strlit("[");
    reveal_strlit("]");
    reveal_strlit(",");
    assert("["@ =~= seq!['[']);
    assert("]"@ =~= seq![']']);
    assert(","@ =~= seq![',']);
    assert(quoted_texts(cells) =~= Seq::new(
        cells.len(),
        |i: int| json_value::json_quoted(cells[i].text),
    ));
}

/// A JSON document holds the labels under `columns`, none where the header is not
/// shown, and then the rows under `rows`, in their order.
pub proof fn json_documents_hold_labels_and_rows(prepared: OutputModel)
    ensures
        json_document(prepared) == "{\"columns\":"@ + text_array(
            if prepared.header_visible {
                prepared.header
            } else {
                Seq::empty()
            },
        ) + ",\"rows\":["@ + text::joined(
            Seq::new(prepared.rows.len(), |i: int| text_array(prepared.rows[i])),
            seq![','],
        ) + "]}\n"@,
{
    reveal_strlit(",");
    assert(","@ =~= seq![',']);
    assert(row_arrays(prepared) =~= Seq::new(
        prepared.rows.len(),
        |i: int| text_array(prepared.rows[i]),
    ));
}

/// JSON lines repeat the labels in the line of each row, and one more row is one more
/// line at the end.
pub proof fn json_lines_come_row_by_row(prepared: OutputModel, n: int)
    requires
        0 <= n < prepared.rows.len(),
    ensures
        json_lines(prepared, 0) == Seq::<char>::empty(),
        json_lines(prepared, n + 1) == json_lines(prepared, n) + ("{\"columns\":"@ + text_array(
            if prepared.header_visible {
                prepared.header
            } else {
                Seq::empty()
            },
        ) + ",\"values\":"@ + text_array(prepared.rows[n]) + "}\n"@),
{
}

/// Only a table can be coloured, only a table needs widths, rules for colours count
/// only in a table that is coloured, and each format writes its own text.
pub proof fn formats_write_their_own_text(color: ColorOutput, prepared: OutputModel)
    ensures
        !refuses_color(OutputFormat::Table, color),
        refuses_color(OutputFormat::Json, color) <==> color is Always,
        refuses_color(OutputFormat::Jsonl, color) <==> color is Always,
        forall|format: OutputFormat|
            {
                let needed = #[trigger] required_for(format, color);
                &&& needed.complete_rows && needed.rendered_values
                &&& needed.stable_widths <==> format is Table
                &&& needed.conditional_styles <==> format is Table && color is Always
            },
        view_text(OutputFormat::Table, color, prepared) == table_text(prepared, color, false),
        view_text(OutputFormat::Json, color, prepared) == json_document(prepared),
        view_text(OutputFormat::Jsonl, color, prepared) == json_lines(
            prepared,
            prepared.rows.len() as int,
        ),
        view_lines(OutputFormat::Json, prepared) == 1,
        view_lines(OutputFormat::Jsonl, prepared) == prepared.rows.len(),
{
}

/// Below a preview stands how many rows follow, where that is known, and nothing where
/// none do.
pub proof fn previews_tell_what_follows(count: usize)
    ensures
        more_rows(None) == Seq::<char>::empty(),
        more_rows(Some(RowCount::Exact(count))) == text::decimal(count as nat)
            + " more rows...\n"@,
        more_rows(Some(RowCount::AtLeast(count))) == "more rows...\n"@,
        more_rows(Some(RowCount::Unknown)) == "more rows...\n"@,
{
}

/// The digits of an escape are the usual sixteen, in their order.
pub proof fn escapes_have_sixteen_digits(n: int)
    ensures
        hex_digit(0) == '0',
        hex_digit(9) == '9',
        hex_digit(10) == 'A',
        hex_digit(15) == 'F',
        0 <= n < 9 || 10 <= n < 15 ==> hex_digit(n + 1) as u32 == hex_digit(n) as u32 + 1,
{
}

/// A cell is shown in its own style where colours are asked for, and plainly otherwise;
/// a cell that is missing has no style. Where blanks at the ends of lines are dropped, the
/// last cell loses those at its end and no other cell does.
pub proof fn cells_are_shown_in_their_style(
    cells: Seq<PreparedCellModel>,
    column: PreparedColumn,
    width: nat,
    index: int,
    count: int,
    color: ColorOutput,
)
    requires
        0 <= index < count,
        index < cells.len(),
    ensures
        ({
            let last = index + 1 == count;
            let text = aligned(cells[index].text, width, column.alignment, last);
            let short = without_final_blanks(text);
            let style = if color is Always {
                Some(cells[index].style)
            } else {
                None
            };
            &&& column_text(cells, column, width, index, count, color, false) == styled(text, style)
            &&& last ==> column_text(cells, column, width, index, count, color, true) == styled(
                short,
                style,
            )
            &&& !last ==> column_text(cells, column, width, index, count, color, true) == styled(
                text,
                style,
            )
            &&& column_text(Seq::empty(), column, width, index, count, color, false) == aligned(
                Seq::empty(),
                width,
                column.alignment,
                last,
            )
        }),
{
}

proof fn lemma_styled_line(
    cells: Seq<PreparedCellModel>,
    prepared: OutputModel,
    n: int,
    count: int,
    color: ColorOutput,
    trim: bool,
)
    requires
        0 <= n <= count,
    ensures
        line_text(cells, prepared, n, count, color, trim) == text::joined(
            Seq::new(
                n as nat,
                |i: int|
                    column_text(
                        cells,
                        prepared.columns[i],
                        column_width(prepared, i),
                        i,
                        count,
                        color,
                        trim,
                    ),
            ),
            blanks(prepared.gap),
        ),
    decreases n,
{
    let piece = |i: int|
        column_text(
            cells,
            prepared.columns[i],
            column_width(prepared, i),
            i,
            count,
            color,
            trim,
        );
    if n > 0 {
        lemma_styled_line(cells, prepared, n - 1, count, color, trim);
        let now = Seq::new(n as nat, piece);
        assert(now.drop_last() =~= Seq::new((n - 1) as nat, piece));
    }
}

/// A line, coloured or not, is its cells in the order of their columns with the gap
/// between two of them, as many as are written, and a line end.
pub proof fn lines_join_their_styled_cells(
    cells: Seq<PreparedCellModel>,
    prepared: OutputModel,
    color: ColorOutput,
    trim: bool,
)
    ensures
        ({
            let count = written_columns(cells, prepared.columns, trim);
            table_line(cells, prepared, color, trim) == text::joined(
                Seq::new(
                    count as nat,
                    |i: int|
                        column_text(
                            cells,
                            prepared.columns[i],
                            column_width(prepared, i),
                            i,
                            count,
                            color,
                            trim,
                        ),
                ),
                blanks(prepared.gap),
            ) + seq!['\n']
        }),
{
    reveal_strlit("\n");
    assert("\n"@ =~= seq!['\n']);
    empty_columns_at_the_end_are_left_out(cells, prepared.columns);
    let count = written_columns(cells, prepared.columns, trim);
    lemma_styled_line(cells, prepared, count, count, color, trim);
}

/// The columns of a text are those of its characters together: one for a printable
/// character of ASCII, none for a control character.
pub proof fn texts_take_the_columns_of_their_characters(s: Seq<char>, c: char)
    ensures
        text_columns(Seq::empty()) == 0,
        text_columns(s.push(c)) == text_columns(s) + columns_of(c),
        ' ' <= c <= '~' ==> columns_of(c) == 1,
        c < ' ' ==> columns_of(c) == 0,
{
    assert(s.push(c).drop_last() =~= s);
}

} // verus!
