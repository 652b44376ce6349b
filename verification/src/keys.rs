//! Keyboard input, as the terminal reports it to the screens of the program.
use vstd::prelude::*;

verus! {

/// A key.
#[derive(Clone, Copy, Debug, PartialEq, Eq, Structural)]
pub enum KeyCode {
    Char(char),
    Enter,
    Esc,
    Tab,
    BackTab,
    Backspace,
    Up,
    Down,
    Left,
    Right,
    PageUp,
    PageDown,
    Home,
    End,
    Delete,
    Function(u8),
    Other,
}

/// A key press: the key and whether Control and Shift were held.
#[derive(Clone, Copy, Debug, PartialEq, Eq, Structural)]
pub struct KeyInput {
    pub code: KeyCode,
    pub ctrl: bool,
    pub shift: bool,
}

/// Control-C, which quits from every screen.
pub open spec fn is_interrupt(k: KeyInput) -> bool {
    k.code == KeyCode::Char('c') && k.ctrl
}

} // verus!
