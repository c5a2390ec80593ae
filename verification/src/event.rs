//! Small predicates over key events, used by the surrounding loop.

use vstd::prelude::*;
use crate::keys::{KeyCode, KeyEvent};

verus! {

/// The key asks to quit: a plain `q`, or control-c.
pub fn is_quit(key: &KeyEvent) -> (r: bool)
    ensures
        r == ((key.code == KeyCode::Char('q') && !key.modifiers.ctrl && !key.modifiers.alt
            && !key.modifiers.shift) || (key.code == KeyCode::Char('c') && key.modifiers.ctrl
            && !key.modifiers.alt && !key.modifiers.shift)),
{
    (key.code == KeyCode::Char('q') && !key.modifiers.ctrl && !key.modifiers.alt
        && !key.modifiers.shift) || (key.code == KeyCode::Char('c') && key.modifiers.ctrl
        && !key.modifiers.alt && !key.modifiers.shift)
}

/// The key navigates up.
pub fn is_up(key: &KeyEvent) -> (r: bool)
    ensures
        r == (key.code == KeyCode::Up || key.code == KeyCode::Char('k')),
{
    key.code == KeyCode::Up || key.code == KeyCode::Char('k')
}

/// The key navigates down.
pub fn is_down(key: &KeyEvent) -> (r: bool)
    ensures
        r == (key.code == KeyCode::Down || key.code == KeyCode::Char('j')),
{
    key.code == KeyCode::Down || key.code == KeyCode::Char('j')
}

/// The key jumps to the first row.
pub fn is_first(key: &KeyEvent) -> (r: bool)
    ensures
        r == (key.code == KeyCode::Home || key.code == KeyCode::Char('g')),
{
    key.code == KeyCode::Home || key.code == KeyCode::Char('g')
}

/// The key jumps to the last row.
pub fn is_last(key: &KeyEvent) -> (r: bool)
    ensures
        r == (key.code == KeyCode::End || (key.code == KeyCode::Char('G') && key.modifiers.shift)),
{
    key.code == KeyCode::End || (key.code == KeyCode::Char('G') && key.modifiers.shift)
}

} // verus!
