//! Key presses as plain values, independent of the terminal backend.
use vstd::prelude::*;

verus! {

/// The key that was pressed.
#[derive(Clone, Copy, Debug, PartialEq, Eq, Structural)]
pub enum KeyCode {
    Char(char),
    Up,
    Down,
    Left,
    Right,
    Home,
    End,
    PageUp,
    PageDown,
    Enter,
    Esc,
    Backspace,
    Delete,
    Tab,
    BackTab,
    Other,
}

/// A key press with its modifier flags.
#[derive(Clone, Copy, Debug, PartialEq, Eq, Structural)]
pub struct Key {
    pub code: KeyCode,
    pub ctrl: bool,
    pub alt: bool,
    pub shift: bool,
}

/// The keys that no view takes for itself outside of search capture, and
/// that the application handles: `q`, `?`, `s`, `i`, Tab and Shift-Tab.
pub open spec fn global_key(key: Key) -> bool {
    &&& !key.ctrl
    &&& match key.code {
        KeyCode::Char(c) => c == 'q' || c == '?' || c == 's' || c == 'i',
        KeyCode::Tab | KeyCode::BackTab => true,
        _ => false,
    }
}

impl Key {
    /// A key pressed without modifiers.
    pub fn plain(code: KeyCode) -> (r: Key)
        ensures
            r.code == code,
            !r.ctrl && !r.alt && !r.shift,
    {
        Key { code, ctrl: false, alt: false, shift: false }
    }

    /// A key pressed together with Control.
    pub fn ctrl(code: KeyCode) -> (r: Key)
        ensures
            r.code == code,
            r.ctrl && !r.alt && !r.shift,
    {
        Key { code, ctrl: true, alt: false, shift: false }
    }
}

} // verus!
