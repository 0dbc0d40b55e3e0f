use vstd::prelude::*;

verus! {

/// A key of the keyboard, as the screens tell keys apart.
#[derive(Debug, Clone, Copy)]
pub enum KeyCode {
    Esc,
    Enter,
    Up,
    Down,
    Left,
    Right,
    Backspace,
    Delete,
    Home,
    End,
    Char(char),
    Other,
}

/// A key press: the key, and whether Control was the only modifier held.
#[derive(Debug, Clone, Copy)]
pub struct KeyPress {
    pub code: KeyCode,
    pub ctrl: bool,
}

/// Whether the key is an arrow key.
pub fn is_arrow(code: KeyCode) -> (b: bool)
    ensures
        b == (code is Up || code is Down || code is Left || code is Right),
{
    match code {
        KeyCode::Up | KeyCode::Down | KeyCode::Left | KeyCode::Right => true,
        _ => false,
    }
}

/// Nanoseconds within which an Esc after an arrow key is taken for part of the arrow's
/// escape sequence.
pub const ESC_DEBOUNCE_NANOS: u128 = 50_000_000;

/// Whether a key press is dropped: an Esc less than 50 ms (`since_arrow_nanos`) after the
/// last arrow key, which under load is the tail of the arrow's escape sequence.
pub fn is_spurious_esc(code: KeyCode, since_arrow_nanos: u128) -> (b: bool)
    ensures
        b == (code is Esc && since_arrow_nanos < ESC_DEBOUNCE_NANOS),
{
    match code {
        KeyCode::Esc => since_arrow_nanos < ESC_DEBOUNCE_NANOS,
        _ => false,
    }
}

} // verus!
