use vstd::prelude::*;

verus! {

/// Directions a cursor movement can take, including the two absolute
/// line-relative targets.
#[derive(PartialEq, Eq, Structural, Debug, Copy, Clone)]
pub enum CursorDirections {
    LineBegin,
    LineEnd,
    Up,
    Down,
    Left,
    Right,
}

/// Whether the edit session keeps running or has been told to exit.
#[derive(PartialEq, Eq, Structural, Debug, Copy, Clone)]
pub enum EditorHealth {
    Exit,
    Healthy,
}

/// The two editing modes; command-line and search entry are sub-states
/// entered from Normal (see `SubMode`).
#[derive(PartialEq, Eq, Structural, Debug, Copy, Clone)]
pub enum EditorModes {
    Normal,
    Insert,
}

/// Key classification helpers.
pub struct Keys;

impl Keys {
    /// True for ASCII control characters and DEL.
    pub fn is_cntrl(c: usize) -> (r: bool)
        ensures
            r == (c == 127 || c <= 31),
    {
        c == 127 || c <= 31
    }

    /// True for the ASCII digit bytes '0' through '9'.
    pub fn is_number(c: usize) -> (r: bool)
        ensures
            r == (48 <= c && c <= 57),
    {
        c >= 48 && c <= 57
    }

    /// The control-key combination for a letter: its low five bits.
    pub fn cntrl(c: u8) -> (r: u8)
        ensures
            r == c & 0x1f,
    {
        c & 0x1f
    }
}

} // verus!
