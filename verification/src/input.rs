//! What the keys do.

use vstd::prelude::*;

verus! {

/// A key, as far as the timer tells keys apart.
#[derive(Clone, Copy, Debug, PartialEq, Eq, Structural)]
pub enum Key {
    Char(char),
    Esc,
    Other,
}

/// What a key stroke asks for.
#[derive(Clone, Copy, Debug, PartialEq, Eq, Structural)]
pub enum Choice {
    Quit,
    Toggle,
    Nothing,
}

/// What a key stroke asks for: `q`, `Q` and escape leave, the space bar starts or stops a session.
/// Only the pressing of a key counts, not its repetition or release.
pub fn on_key(pressed: bool, key: Key) -> (r: Choice)
    ensures
        r == Choice::Quit <==> pressed && (key == Key::Char('q') || key == Key::Char('Q') || key
            == Key::Esc),
        r == Choice::Toggle <==> pressed && key == Key::Char(' '),
{
    if !pressed {
        return Choice::Nothing;
    }
    match key {
        Key::Char(c) => if c == 'q' || c == 'Q' {
            Choice::Quit
        } else if c == ' ' {
            Choice::Toggle
        } else {
            Choice::Nothing
        },
        Key::Esc => Choice::Quit,
        Key::Other => Choice::Nothing,
    }
}

} // verus!
