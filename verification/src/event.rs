//! What goes into the engine and what comes out of it: the display updates
//! of the escape-sequence interpreter, the input events of the window, and
//! the commands for the rendering surface.

use vstd::prelude::*;
use crate::color::Argb;

verus! {

/// One update of the display, as the escape-sequence interpreter reports it.
/// Positions and sizes are in cells. A color is the interpreter's palette
/// color as red, green and blue in the low 24 bits.
#[derive(Clone, Debug, PartialEq, Eq)]
pub enum DisplayEvent {
    /// Show the glyph `c` in cell `(x, y)`.
    Char { x: usize, y: usize, c: char, color: u32, bold: bool },
    /// Send `data` back to the shell, as the answer to a query.
    Input { data: Vec<u8> },
    /// Clear the rectangle to the background `color`.
    Rect { x: usize, y: usize, w: usize, h: usize, color: u32 },
    /// Show the alternate screen, or the primary one again.
    ScreenBuffer { alternate: bool, clear: bool },
    /// Move a rectangle of the screen, as a scroll does.
    Move { from_x: usize, from_y: usize, to_x: usize, to_y: usize, w: usize, h: usize },
    /// Ask for a screen of `w` by `h` cells.
    Resize { w: usize, h: usize },
    /// Name the window.
    Title { title: String },
}

/// What a display update says, with its bytes and its text as sequences.
pub enum Update {
    Char { x: usize, y: usize, c: char, color: u32, bold: bool },
    Input { data: Seq<u8> },
    Rect { x: usize, y: usize, w: usize, h: usize, color: u32 },
    ScreenBuffer { alternate: bool, clear: bool },
    Move { from_x: usize, from_y: usize, to_x: usize, to_y: usize, w: usize, h: usize },
    Resize { w: usize, h: usize },
    Title { title: Seq<char> },
}

impl View for DisplayEvent {
    type V = Update;

    open spec fn view(&self) -> Update {
        match *self {
            DisplayEvent::Char { x, y, c, color, bold } => Update::Char { x, y, c, color, bold },
            DisplayEvent::Input { data } => Update::Input { data: data@ },
            DisplayEvent::Rect { x, y, w, h, color } => Update::Rect { x, y, w, h, color },
            DisplayEvent::ScreenBuffer { alternate, clear } => Update::ScreenBuffer {
                alternate,
                clear,
            },
            DisplayEvent::Move { from_x, from_y, to_x, to_y, w, h } => Update::Move {
                from_x,
                from_y,
                to_x,
                to_y,
                w,
                h,
            },
            DisplayEvent::Resize { w, h } => Update::Resize { w, h },
            DisplayEvent::Title { title } => Update::Title { title: title@ },
        }
    }
}

/// What a list of display updates says.
pub open spec fn update_views(events: Seq<DisplayEvent>) -> Seq<Update> {
    events.map_values(|event: DisplayEvent| event@)
}

/// One input event of the window.
#[derive(Clone, Copy, Debug, PartialEq, Eq, Structural)]
pub enum InputEvent {
    /// A key went down or up. `character` is what the key types, `'\0'`
    /// where it types nothing.
    Key { character: char, scancode: u8, pressed: bool },
    /// The pointer is at pixel `(x, y)`.
    Mouse { x: i32, y: i32 },
    /// The mouse buttons that are held now.
    Button { left: bool, middle: bool, right: bool },
    /// The wheel was turned.
    Scroll { x: i32, y: i32 },
    /// The window is now `width` by `height` pixels.
    Resize { width: u32, height: u32 },
    /// The window was closed.
    Quit,
    /// Anything else: it is of no concern to a terminal.
    Other,
}

/// One thing for the rendering surface to do. The engine decides what is
/// drawn; whoever owns the window carries the commands out, in order.
///
/// Where a command speaks of cells it says how large a cell is, in pixels:
/// cell `(x, y)` has its top left pixel at `(x * block_width, y *
/// block_height)`.
#[derive(Clone, Debug, PartialEq, Eq)]
pub enum Command {
    /// Fill the whole surface with `color`.
    Clear { color: Argb },
    /// Overwrite a rectangle of cells with `color`.
    Rect {
        x: usize,
        y: usize,
        w: usize,
        h: usize,
        block_width: usize,
        block_height: usize,
        color: Argb,
    },
    /// Draw the glyph `c` into cell `(x, y)`, as tall as the cell, in the
    /// bold font or the regular one.
    Glyph {
        x: usize,
        y: usize,
        block_width: usize,
        block_height: usize,
        c: char,
        bold: bool,
        color: Argb,
    },
    /// Invert the colors of a rectangle of pixels.
    Invert { x: usize, y: usize, w: usize, h: usize },
    /// Move the pixels of a rectangle of cells.
    Move {
        from_x: usize,
        from_y: usize,
        to_x: usize,
        to_y: usize,
        w: usize,
        h: usize,
        block_width: usize,
        block_height: usize,
    },
    /// Make the window as large as `w` by `h` cells.
    Resize { w: usize, h: usize, block_width: usize, block_height: usize },
    /// Name the window.
    Title { title: String },
    /// Put `text` on the system clipboard.
    Copy { text: String },
    /// Read the system clipboard and hand its text to the engine's `paste`.
    Paste,
    /// Show what was drawn.
    Sync,
}

} // verus!
