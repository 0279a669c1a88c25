//! The size of the pseudo-terminal, as the shell is told it.

use vstd::prelude::*;

verus! {

/// The size of a terminal in character cells, as the terminal-size control
/// call takes it. The call has 16 bits for each number.
#[derive(Clone, Copy, Debug, PartialEq, Eq, Structural)]
pub struct Winsize {
    pub ws_row: u16,
    pub ws_col: u16,
}

impl Winsize {
    /// The size to tell the shell for a screen of `columns` by `lines`
    /// cells: of each number the low 16 bits.
    pub open spec fn of(columns: usize, lines: usize) -> Winsize {
        Winsize { ws_row: (lines % 0x1_0000) as u16, ws_col: (columns % 0x1_0000) as u16 }
    }

    /// The size to tell the shell for a screen of `columns` by `lines`
    /// cells.
    pub fn new(columns: usize, lines: usize) -> (size: Winsize)
        ensures
            size == Winsize::of(columns, lines),
    {
        Winsize { ws_row: (lines % 0x1_0000) as u16, ws_col: (columns % 0x1_0000) as u16 }
    }
}

} // verus!
