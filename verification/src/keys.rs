use vstd::prelude::*;

verus! {

/// The keys the monitor distinguishes; every other key is `Other`.
#[derive(Clone, Copy, Debug, PartialEq, Eq, Structural)]
pub enum KeyCode {
    Up,
    Down,
    Home,
    End,
    Enter,
    Esc,
    Backspace,
    Char(char),
    Other,
}

/// A key press: its code and whether Control was held.
#[derive(Clone, Copy, Debug, PartialEq, Eq, Structural)]
pub struct Key {
    pub code: KeyCode,
    pub ctrl: bool,
}

/// Whether a key press asks to quit: `q`, `Esc`, or Control-`c`.
pub open spec fn quit_key(key: Key) -> bool {
    key.code == KeyCode::Char('q') || key.code == KeyCode::Esc || (key.code == KeyCode::Char('c')
        && key.ctrl)
}

/// Returns `true` if the key event represents a quit action.
pub fn is_quit(key: &Key) -> (r: bool)
    ensures
        r == quit_key(*key),
{
    match key.code {
        KeyCode::Char('q') | KeyCode::Esc => true,
        KeyCode::Char('c') => key.ctrl,
        _ => false,
    }
}

} // verus!
