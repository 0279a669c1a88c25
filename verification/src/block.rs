//! One character cell of the screen.

use vstd::prelude::*;
use crate::color::Argb;

verus! {

/// A character cell. The glyph `'\0'` means that nothing was painted there:
/// the cell shows its background only, which is not the same as a space.
#[derive(Clone, Copy, Debug, PartialEq, Eq, Structural)]
pub struct Block {
    pub c: char,
    pub fg: Argb,
    pub bg: Argb,
    pub bold: bool,
}

impl Block {
    /// The unpainted cell with the given colors.
    pub open spec fn blank(fg: Argb, bg: Argb) -> Block {
        Block { c: '\0', fg, bg, bold: false }
    }

    /// This cell with its glyph taken away and its background set to `bg`.
    pub open spec fn cleared(self, bg: Argb) -> Block {
        Block { c: '\0', fg: self.fg, bg, bold: self.bold }
    }

    /// This cell showing `c` in `fg`; the background stays.
    pub open spec fn painted(self, c: char, fg: Argb, bold: bool) -> Block {
        Block { c, fg, bg: self.bg, bold }
    }

    /// Whether nothing is painted in the cell.
    pub open spec fn is_empty(self) -> bool {
        self.c == '\0'
    }

    pub fn empty(fg: Argb, bg: Argb) -> (b: Block)
        ensures
            b == Block::blank(fg, bg),
    {
        Block { c: '\0', fg, bg, bold: false }
    }
}

} // verus!
