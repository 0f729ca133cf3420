//! The keyboard events that the engine's state machines understand,
//! independent of any terminal backend.

use vstd::prelude::*;

verus! {

/// One key press. `Ctrl` carries a character struck together with the
/// control key; keys the engine does not react to arrive as `Other`.
#[derive(Debug, Clone, Copy, PartialEq, Eq, Structural)]
pub enum Key {
    Char(char),
    Ctrl(char),
    Enter,
    Esc,
    Backspace,
    Left,
    Right,
    Up,
    Down,
    Tab,
    Other,
}

} // verus!
