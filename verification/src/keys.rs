//! Plain-value model of terminal input events.
//!
//! The surrounding application translates the terminal library's event types
//! into these before handing them to the interaction core, so every decision
//! the core makes about input is stated and checked over plain data.

use vstd::prelude::*;

verus! {

/// A key, as the interaction core distinguishes them.
#[derive(Debug, Clone, Copy, PartialEq, Eq, Structural)]
pub enum KeyCode {
    Char(char),
    Enter,
    Backspace,
    Delete,
    Left,
    Right,
    Up,
    Down,
    Home,
    End,
    Tab,
    BackTab,
    Esc,
    PageUp,
    PageDown,
    Other,
}

/// Modifier keys held during a key press.
#[derive(Debug, Clone, Copy, PartialEq, Eq, Structural)]
pub struct KeyModifiers {
    pub ctrl: bool,
    pub alt: bool,
    pub shift: bool,
}

/// A key press with its modifiers.
#[derive(Debug, Clone, Copy, PartialEq, Eq, Structural)]
pub struct KeyEvent {
    pub code: KeyCode,
    pub modifiers: KeyModifiers,
}

impl KeyEvent {
    /// A key press with explicit modifiers.
    pub fn new(code: KeyCode, modifiers: KeyModifiers) -> (r: KeyEvent)
        ensures
            r == (KeyEvent { code, modifiers }),
    {
        KeyEvent { code, modifiers }
    }

    /// A key press with no modifiers.
    pub fn plain(code: KeyCode) -> (r: KeyEvent)
        ensures
            r == (KeyEvent { code, modifiers: KeyModifiers { ctrl: false, alt: false, shift: false } }),
    {
        KeyEvent { code, modifiers: KeyModifiers { ctrl: false, alt: false, shift: false } }
    }

    /// A character press with control held.
    pub fn ctrl(c: char) -> (r: KeyEvent)
        ensures
            r == (KeyEvent {
                code: KeyCode::Char(c),
                modifiers: KeyModifiers { ctrl: true, alt: false, shift: false },
            }),
    {
        KeyEvent {
            code: KeyCode::Char(c),
            modifiers: KeyModifiers { ctrl: true, alt: false, shift: false },
        }
    }

    /// A character press with alt held.
    pub fn alt(c: char) -> (r: KeyEvent)
        ensures
            r == (KeyEvent {
                code: KeyCode::Char(c),
                modifiers: KeyModifiers { ctrl: false, alt: true, shift: false },
            }),
    {
        KeyEvent {
            code: KeyCode::Char(c),
            modifiers: KeyModifiers { ctrl: false, alt: true, shift: false },
        }
    }
}

/// Mouse event kinds the interaction core reacts to.
#[derive(Debug, Clone, Copy, PartialEq, Eq, Structural)]
pub enum MouseKind {
    LeftDown,
    LeftDrag,
    ButtonUp,
    ScrollUp,
    ScrollDown,
    Other,
}

/// A mouse event with its screen position.
#[derive(Debug, Clone, Copy, PartialEq, Eq, Structural)]
pub struct MouseEvent {
    pub kind: MouseKind,
    pub column: u16,
    pub row: u16,
}

} // verus!
