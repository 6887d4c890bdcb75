//! Keys, and the editing of a line of text with them.

use vstd::prelude::*;

use crate::text::{chars_of, string_of_range};

verus! {

/// A key of the keyboard.
#[derive(Debug, Clone, Copy, PartialEq, Eq, Structural)]
pub enum KeyCode {
    Esc,
    Enter,
    Backspace,
    Tab,
    BackTab,
    Left,
    Right,
    Up,
    Down,
    Char(char),
    Other,
}

/// The keys held down with another.
#[derive(Debug, Clone, Copy, PartialEq, Eq, Structural)]
pub enum KeyModifiers {
    Plain,
    Shift,
    Control,
    Other,
}

/// A key that was pressed.
#[derive(Debug, Clone, Copy, PartialEq, Eq, Structural)]
pub struct KeyEvent {
    pub code: KeyCode,
    pub modifiers: KeyModifiers,
}

/// The character that a key types: none with a modifier other than shift.
pub open spec fn typed(event: KeyEvent) -> Option<char> {
    match event.code {
        KeyCode::Char(c) => if event.modifiers is Plain || event.modifiers is Shift {
            Some(c)
        } else {
            None
        },
        _ => None,
    }
}

/// The character that a key types.
pub fn typed_char(event: KeyEvent) -> (r: Option<char>)
    ensures
        r == typed(event),
{
    match event.code {
        KeyCode::Char(c) => if event.modifiers == KeyModifiers::Plain || event.modifiers
            == KeyModifiers::Shift {
            Some(c)
        } else {
            None
        },
        _ => None,
    }
}

/// Whether a key ends a line: Enter, or a line end that arrives as a character.
pub open spec fn ends_line(event: KeyEvent) -> bool {
    event.code is Enter || event.code == KeyCode::Char('\n') || event.code == KeyCode::Char('\r')
}

/// Whether a key ends a line.
pub fn is_line_end(event: KeyEvent) -> (r: bool)
    ensures
        r == ends_line(event),
{
    match event.code {
        KeyCode::Enter => true,
        KeyCode::Char(c) => c == '\n' || c == '\r',
        _ => false,
    }
}

/// A text without its last character, if it has one.
pub open spec fn shortened(s: Seq<char>) -> Seq<char> {
    if s.len() == 0 {
        s
    } else {
        s.drop_last()
    }
}

/// A text without its last character, if it has one.
pub fn shorten(s: &str) -> (r: String)
    ensures
        r@ == shortened(s@),
{
    let chars = chars_of(s);
    let n: usize = chars.len();
    if n == 0 {
        let empty = String::new();
        assert(empty@ =~= s@);
        empty
    } else {
        assert(chars@.subrange(0, n - 1) =~= chars@.drop_last());
        string_of_range(&chars, 0, n - 1)
    }
}

/// Typing a character and deleting the last one undo each other, and only a character
/// without other modifiers than shift is typed.
pub proof fn typing_and_deleting_undo_each_other(s: Seq<char>, c: char, modifiers: KeyModifiers)
    ensures
        shortened(s.push(c)) == s,
        shortened(Seq::<char>::empty()) == Seq::<char>::empty(),
        typed(KeyEvent { code: KeyCode::Char(c), modifiers }) == Some(c) <==> modifiers is Plain
            || modifiers is Shift,
        forall|event: KeyEvent| #[trigger]
            typed(event) is Some ==> event.code == KeyCode::Char(typed(event)->0),
        ends_line(KeyEvent { code: KeyCode::Enter, modifiers }),
        ends_line(KeyEvent { code: KeyCode::Char(c), modifiers }) <==> c == '\n' || c == '\r',
        !ends_line(KeyEvent { code: KeyCode::Esc, modifiers }),
        !ends_line(KeyEvent { code: KeyCode::Tab, modifiers }),
        !ends_line(KeyEvent { code: KeyCode::Backspace, modifiers }),
{
    assert(s.push(c).drop_last() =~= s);
}

/// The key of a line end and both its characters end a line; no other key does, and a key
/// with a modifier other than the shift types nothing.
pub proof fn line_ends_end_a_line(event: KeyEvent, c: char)
    ensures
        event.code is Enter ==> ends_line(event),
        event.code == KeyCode::Char('\n') || event.code == KeyCode::Char('\r') ==> ends_line(event),
        event.code == KeyCode::Char(c) && c != '\n' && c != '\r' ==> !ends_line(event),
        event.code is Esc || event.code is Tab || event.code is Backspace ==> !ends_line(event),
        event.code == KeyCode::Char(c) && (event.modifiers is Plain || event.modifiers is Shift)
            ==> typed(event) == Some(c),
        event.modifiers !is Plain && event.modifiers !is Shift ==> typed(event) is None,
        event.code is Enter || event.code is Esc ==> typed(event) is None,
{
}

} // verus!
