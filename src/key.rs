use vstd::prelude::*;

verus! {

/// One decoded key press.
#[derive(Clone, Copy, Debug, PartialEq, Eq, Structural)]
pub enum KeyEvent {
    /// A character to insert.
    Char(char),
    /// A character typed with the control key held.
    Ctrl(char),
    Left,
    Right,
    Up,
    Down,
    Backspace,
    Delete,
    Home,
    End,
    /// Line feed or carriage return: the line is finished.
    Submit,
    /// A key this editor does not act on.
    Unrecognized,
}

/// The key that a typed character stands for: line feed and carriage return
/// finish the line, any other character is inserted.
pub open spec fn char_key(c: char) -> KeyEvent {
    if c == '\n' || c == '\r' {
        KeyEvent::Submit
    } else {
        KeyEvent::Char(c)
    }
}

/// Classifies a typed character.
pub fn key_for_char(c: char) -> (k: KeyEvent)
    ensures
        k == char_key(c),
{
    if c == '\n' || c == '\r' {
        KeyEvent::Submit
    } else {
        KeyEvent::Char(c)
    }
}

} // verus!
