//! The key presses that the library reacts to, decoded by the caller from the
//! terminal's raw input.
use vstd::prelude::*;

verus! {

/// A decoded key press.
#[derive(Clone, Copy, Debug, PartialEq, Eq, Structural)]
pub enum Key {
    /// A printable character.
    Char(char),
    /// A function key, by number (`F(1)` is F1).
    F(u8),
    Backspace,
    Tab,
    BackTab,
    Esc,
    Enter,
    /// Any key that has no meaning here.
    Other,
}

} // verus!
