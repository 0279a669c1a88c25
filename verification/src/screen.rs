//! The mathematical model of a terminal session: what the console holds and
//! what each operation makes of it.

use vstd::prelude::*;
use crate::block::Block;
use crate::color::{blend, Argb};
use crate::event::{Command, InputEvent, Update};
use crate::grid::{
    clipped, in_span, rect_cleared, rect_covers, resized, selection_text_of, wiped, with_char,
};
use crate::interpreter::{lines_allowed, TermState, TerminalView};
use crate::keys::{
    key_action, key_bytes, mouse_report, pointer_cell, KeyAction, BUTTON_DRAG, BUTTON_LEFT,
    BUTTON_WHEEL_DOWN, BUTTON_WHEEL_UP, SCANCODE_CTRL, SCANCODE_LEFT_SHIFT, SCANCODE_MINUS,
    SCANCODE_PLUS, SCANCODE_RIGHT_SHIFT,
};
use crate::grid::{cell_index, lemma_cell_in_grid, lemma_resized_keeps_overlap, resized_cell};
use crate::region::{lemma_move_is_copy_through_temporary, moved, RowMove};

verus! {

/// What a command says, with its texts as sequences of characters.
pub enum CommandView {
    Clear { color: Argb },
    Rect {
        x: usize,
        y: usize,
        w: usize,
        h: usize,
        block_width: usize,
        block_height: usize,
        color: Argb,
    },
    Glyph {
        x: usize,
        y: usize,
        block_width: usize,
        block_height: usize,
        c: char,
        bold: bool,
        color: Argb,
    },
    Invert { x: usize, y: usize, w: usize, h: usize },
    Move {
        from_x: usize,
        from_y: usize,
        to_x: usize,
        to_y: usize,
        w: usize,
        h: usize,
        block_width: usize,
        block_height: usize,
    },
    Resize { w: usize, h: usize, block_width: usize, block_height: usize },
    Title { title: Seq<char> },
    Copy { text: Seq<char> },
    Paste,
    Sync,
}

impl View for Command {
    type V = CommandView;

    open spec fn view(&self) -> CommandView {
        match *self {
            Command::Clear { color } => CommandView::Clear { color },
            Command::Rect { x, y, w, h, block_width, block_height, color } => CommandView::Rect {
                x,
                y,
                w,
                h,
                block_width,
                block_height,
                color,
            },
            Command::Glyph {
                x,
                y,
                block_width,
                block_height,
                c,
                bold,
                color,
            } => CommandView::Glyph { x, y, block_width, block_height, c, bold, color },
            Command::Invert { x, y, w, h } => CommandView::Invert { x, y, w, h },
            Command::Move {
                from_x,
                from_y,
                to_x,
                to_y,
                w,
                h,
                block_width,
                block_height,
            } => CommandView::Move { from_x, from_y, to_x, to_y, w, h, block_width, block_height },
            Command::Resize { w, h, block_width, block_height } => CommandView::Resize {
                w,
                h,
                block_width,
                block_height,
            },
            Command::Title { title } => CommandView::Title { title: title@ },
            Command::Copy { text } => CommandView::Copy { text: text@ },
            Command::Paste => CommandView::Paste,
            Command::Sync => CommandView::Sync,
        }
    }
}

/// What a list of commands says.
pub open spec fn views(commands: Seq<Command>) -> Seq<CommandView> {
    commands.map_values(|c: Command| c@)
}

/// The rows from `start` on, `count` of them, as far as they can be
/// numbered.
pub open spec fn rows(start: int, count: int) -> Set<usize> {
    Set::new(|r: usize| start <= r < start + count)
}

/// Whether there can be grids of `w` by `h` cells: their cells can be
/// counted, and the interpreter can have a screen of as many lines.
pub open spec fn grid_allowed(w: usize, h: usize) -> bool {
    w * h <= usize::MAX && lines_allowed(h)
}

/// The smallest and the largest block width that the user can ask for.
pub const MIN_BLOCK_WIDTH: usize = 4;

pub const MAX_BLOCK_WIDTH: usize = 48;

/// The block width that a request for `width` gives.
pub open spec fn clamped_block_width(width: int) -> usize {
    if width < MIN_BLOCK_WIDTH {
        MIN_BLOCK_WIDTH
    } else if width > MAX_BLOCK_WIDTH {
        MAX_BLOCK_WIDTH
    } else {
        width as usize
    }
}

/// What is drawn to show cell `i` of `cells` again: its background, and its
/// glyph where it has one.
pub open spec fn cell_repaint(
    cells: Seq<Block>,
    width: int,
    block_width: usize,
    block_height: usize,
    i: int,
) -> Seq<CommandView> {
    let x = (i % width) as usize;
    let y = (i / width) as usize;
    let back = seq![
        CommandView::Rect { x, y, w: 1, h: 1, block_width, block_height, color: cells[i].bg },
    ];
    if cells[i].c == '\0' {
        back
    } else {
        back.push(
            CommandView::Glyph {
                x,
                y,
                block_width,
                block_height,
                c: cells[i].c,
                bold: cells[i].bold,
                color: cells[i].fg,
            },
        )
    }
}

/// What is drawn to show the first `n` cells of `cells` again, row by row.
pub open spec fn repaint(
    cells: Seq<Block>,
    width: int,
    block_width: usize,
    block_height: usize,
    n: int,
) -> Seq<CommandView>
    decreases n,
{
    if n <= 0 {
        Seq::empty()
    } else {
        repaint(cells, width, block_width, block_height, n - 1) + cell_repaint(
            cells,
            width,
            block_width,
            block_height,
            n - 1,
        )
    }
}

/// The state of a terminal session, as mathematics sees it.
#[verifier::ext_equal]
pub struct Screen {
    /// The interpreter and what is held back of the shell's output.
    pub terminal: TerminalView,
    /// What the interpreter last told of itself.
    pub state: TermState,
    /// The commands that the surface has not been given yet.
    pub commands: Seq<CommandView>,
    /// The size of the two grids, in cells.
    pub width: usize,
    pub height: usize,
    /// Whether the grid on display is the alternate one.
    pub alternate: bool,
    /// The grid on display and the one that waits.
    pub grid: Seq<Block>,
    pub alt_grid: Seq<Block>,
    /// The rows that changed since the surface was last shown.
    pub changed: Set<usize>,
    pub mouse_x: u16,
    pub mouse_y: u16,
    pub mouse_left: bool,
    /// Whether the control modifier and the shift modifier are held.
    pub ctrl: bool,
    pub shift: bool,
    /// The bytes that the shell has not been sent yet.
    pub input: Seq<u8>,
    pub requested: usize,
    /// The size of a cell, in pixels.
    pub block_width: usize,
    pub block_height: usize,
    pub alpha: u8,
    /// The selection, from the cell where the drag began to the cell where
    /// it is now, and the selection that is highlighted on the surface.
    pub selection: Option<(usize, usize)>,
    pub last_selection: Option<(usize, usize)>,
}

impl Screen {
    /// Both grids hold `width * height` cells, and a cell has a size.
    pub open spec fn wf(self) -> bool {
        &&& self.grid.len() == self.width * self.height
        &&& self.alt_grid.len() == self.width * self.height
        &&& self.block_width > 0
        &&& self.block_height > 0
    }

    /// The screen with one more command for the surface.
    pub open spec fn emit(self, command: CommandView) -> Screen {
        Screen { commands: self.commands.push(command), ..self }
    }

    /// The screen with more commands for the surface.
    pub open spec fn emit_all(self, commands: Seq<CommandView>) -> Screen {
        Screen { commands: self.commands + commands, ..self }
    }

    /// The screen with more rows marked as changed.
    pub open spec fn mark(self, rows: Set<usize>) -> Screen {
        Screen { changed: self.changed.union(rows), ..self }
    }

    /// A palette color as the surface shows it in this session.
    pub open spec fn shade(self, rgb: u32) -> Argb {
        Argb { data: blend(self.alpha, rgb) }
    }

    /// The cell that a new grid is filled with: nothing painted, in the
    /// interpreter's current colors.
    pub open spec fn fill(self) -> Block {
        Block::blank(self.shade(self.state.foreground), self.shade(self.state.background))
    }

    /// The command that inverts the cell `(x, y)`, if its pixels can be
    /// numbered at all.
    pub open spec fn cell_inverts(self, x: int, y: int) -> Seq<CommandView> {
        if x * self.block_width <= usize::MAX && y * self.block_height <= usize::MAX {
            seq![
                CommandView::Invert {
                    x: (x * self.block_width) as usize,
                    y: (y * self.block_height) as usize,
                    w: self.block_width,
                    h: self.block_height,
                },
            ]
        } else {
            Seq::empty()
        }
    }

    /// Whether the interpreter shows a cursor and has it on its screen.
    pub open spec fn cursor_shown(self) -> bool {
        self.state.cursor && self.state.x < self.state.w && self.state.y < self.state.h
    }

    /// The screen after the cursor's cell was inverted, where a cursor is
    /// shown, and its row marked.
    pub open spec fn toggle_cursor(self) -> Screen {
        if self.cursor_shown() {
            self.emit_all(self.cell_inverts(self.state.x as int, self.state.y as int)).mark(
                set![self.state.y],
            )
        } else {
            self
        }
    }

    /// The screen after the cells from `lo` up to, not including, `hi` were
    /// inverted one by one and their rows marked.
    pub open spec fn toggle_cells(self, lo: int, hi: int) -> Screen
        decreases hi - lo,
    {
        if hi <= lo {
            self
        } else {
            let before = self.toggle_cells(lo, hi - 1);
            let x = (hi - 1) % (self.width as int);
            let y = (hi - 1) / (self.width as int);
            before.emit_all(self.cell_inverts(x, y)).mark(set![y as usize])
        }
    }

    /// The screen after a selection's highlight was put on or taken off. A
    /// grid without columns has no cell to highlight.
    pub open spec fn toggle_selection(self, selection: Option<(usize, usize)>) -> Screen {
        match selection {
            Some((a, b)) => if self.width > 0 {
                if a < b {
                    self.toggle_cells(a as int, b as int)
                } else {
                    self.toggle_cells(b as int, a as int)
                }
            } else {
                self
            },
            None => self,
        }
    }

    /// The move of a rectangle of cells on the grid.
    pub open spec fn cell_move(
        self,
        from_x: usize,
        from_y: usize,
        to_x: usize,
        to_y: usize,
        w: usize,
        h: usize,
    ) -> RowMove {
        RowMove { stride: self.width, sub: 1, from_x, from_y, to_x, to_y, len: w, rows: h }
    }

    /// The screen after one display update.
    pub open spec fn apply(self, event: Update) -> Screen {
        match event {
            Update::Char { x, y, c, color, bold } => if x < self.width && y < self.height {
                Screen {
                    grid: with_char(
                        self.grid,
                        self.width as int,
                        self.height as int,
                        x as int,
                        y as int,
                        c,
                        self.shade(color),
                        bold,
                    ),
                    ..self.emit(
                        CommandView::Glyph {
                            x,
                            y,
                            block_width: self.block_width,
                            block_height: self.block_height,
                            c,
                            bold,
                            color: self.shade(color),
                        },
                    ).mark(set![y])
                }
            } else {
                self
            },
            Update::Input { data } => Screen { input: self.input + data, ..self },
            Update::Rect { x, y, w, h, color } => {
                let part_w = clipped(self.width as int, x as int, w as int) as usize;
                let part_h = clipped(self.height as int, y as int, h as int) as usize;
                if part_w > 0 && part_h > 0 {
                    Screen {
                        grid: rect_cleared(
                            self.grid,
                            self.width as int,
                            self.height as int,
                            x as int,
                            y as int,
                            w as int,
                            h as int,
                            self.shade(color),
                        ),
                        ..self.emit(
                            CommandView::Rect {
                                x,
                                y,
                                w: part_w,
                                h: part_h,
                                block_width: self.block_width,
                                block_height: self.block_height,
                                color: self.shade(color),
                            },
                        ).mark(rows(y as int, part_h as int))
                    }
                } else {
                    self
                }
            },
            Update::ScreenBuffer { alternate, clear } => if self.alternate != alternate {
                let back = self.shade(self.state.background);
                let shown = if clear {
                    wiped(self.alt_grid, back)
                } else {
                    self.alt_grid
                };
                Screen {
                    alternate,
                    grid: shown,
                    alt_grid: self.grid,
                    ..self.emit(CommandView::Clear { color: back }).emit_all(
                        repaint(
                            shown,
                            self.width as int,
                            self.block_width,
                            self.block_height,
                            shown.len() as int,
                        ),
                    ).mark(rows(0, self.height as int))
                }
            } else {
                self
            },
            Update::Move { from_x, from_y, to_x, to_y, w, h } => Screen {
                grid: moved(self.grid, self.cell_move(from_x, from_y, to_x, to_y, w, h)),
                ..self.emit(
                    CommandView::Move {
                        from_x,
                        from_y,
                        to_x,
                        to_y,
                        w,
                        h,
                        block_width: self.block_width,
                        block_height: self.block_height,
                    },
                ).mark(rows(to_y as int, h as int))
            },
            Update::Resize { w, h } => self.emit(
                CommandView::Resize {
                    w,
                    h,
                    block_width: self.block_width,
                    block_height: self.block_height,
                },
            ),
            Update::Title { title } => self.emit(CommandView::Title { title }),
        }
    }

    /// The screen after the first `n` of the display updates, in order.
    pub open spec fn apply_all(self, events: Seq<Update>, n: int) -> Screen
        decreases n,
    {
        if n <= 0 {
            self
        } else {
            self.apply_all(events, n - 1).apply(events[n - 1])
        }
    }

    /// The screen after the surface was shown, if any row had changed.
    pub open spec fn synced(self) -> Screen {
        Screen {
            commands: if self.changed.is_empty() {
                self.commands
            } else {
                self.commands.push(CommandView::Sync)
            },
            changed: Set::empty(),
            ..self
        }
    }

    /// The screen after the surface was shown, changed or not.
    pub open spec fn redrawn(self) -> Screen {
        Screen { commands: self.commands.push(CommandView::Sync), changed: Set::empty(), ..self }
    }

    /// The screen after a batch of display updates, with the interpreter's
    /// state `after` it. The highlight of the selection that was shown and
    /// the cursor are taken off the surface before the updates are drawn,
    /// and the cursor and the current selection are put on after them, so
    /// that nothing stays inverted that should not be.
    pub open spec fn written(self, events: Seq<Update>, after: TermState, show: bool)
        -> Screen {
        let uncovered = self.toggle_selection(self.last_selection).toggle_cursor();
        let updated = uncovered.apply_all(events, events.len() as int);
        let covered = (Screen { state: after, ..updated }).toggle_cursor().toggle_selection(
            self.selection,
        );
        let done = Screen { last_selection: self.selection, ..covered };
        if show {
            done.synced()
        } else {
            done
        }
    }

    /// The screen after the shell wrote `bytes`: the terminal takes the
    /// output, and the display updates that it gives are drawn as one
    /// batch. Where nothing was written the interpreter is not asked, and
    /// only the overlay of cursor and selection is brought up to date.
    pub open spec fn wrote(self, bytes: Seq<u8>, show: bool) -> Screen {
        if bytes.len() == 0 {
            self.written(Seq::empty(), self.state, show)
        } else {
            let after = self.terminal.after(bytes);
            (Screen { terminal: after, ..self }).written(
                self.terminal.updates(bytes),
                after.told(),
                show,
            )
        }
    }

    /// The screen after its grids were made `w` by `h` cells and the
    /// interpreter was told so. Both grids keep what they
    /// showed where old and new size overlap; the old picture is drawn
    /// again; the selection is gone.
    pub open spec fn reallocated(self, w: usize, h: usize) -> Screen {
        let after = self.terminal.sized(w, h);
        let back = self.shade(self.state.background);
        let drawn = self.emit(CommandView::Clear { color: back }).emit_all(
            repaint(
                self.grid,
                self.width as int,
                self.block_width,
                self.block_height,
                self.grid.len() as int,
            ),
        ).mark(rows(0, self.height as int));
        let sized = Screen {
            terminal: after,
            state: after.told(),
            width: w,
            height: h,
            grid: resized(
                self.grid,
                self.width as int,
                self.height as int,
                w as int,
                h as int,
                self.fill(),
            ),
            alt_grid: resized(
                self.alt_grid,
                self.width as int,
                self.height as int,
                w as int,
                h as int,
                self.fill(),
            ),
            selection: None,
            ..drawn
        };
        if sized.cursor_shown() {
            sized.emit_all(sized.cell_inverts(sized.state.x as int, sized.state.y as int))
        } else {
            sized
        }
    }

    /// The screen after it was asked for a grid of `w` by `h` cells: a new
    /// one where the grids or the interpreter's screen are of another size,
    /// and nothing otherwise.
    pub open spec fn resized_to(self, w: usize, h: usize) -> Screen {
        if w != self.state.w || h != self.state.h || w != self.width || h != self.height {
            self.reallocated(w, h)
        } else {
            self
        }
    }

    /// The screen with cells `width` pixels wide, or as near to that as a
    /// cell may be, and twice as tall.
    pub open spec fn with_block_width(self, width: int) -> Screen {
        Screen {
            block_width: clamped_block_width(width),
            block_height: (2 * clamped_block_width(width)) as usize,
            ..self
        }
    }

    /// The text of the selection.
    pub open spec fn selection_text(self) -> Seq<char> {
        match self.selection {
            Some((a, b)) => selection_text_of(self.grid, a as int, b as int),
            None => Seq::empty(),
        }
    }

    /// The primary grid, on display or not.
    pub open spec fn primary(self) -> Seq<Block> {
        if self.alternate {
            self.alt_grid
        } else {
            self.grid
        }
    }

    /// Whether `now` differs from this screen only in what is to be drawn
    /// and in the rows that count as changed.
    pub open spec fn only_drawn(self, now: Screen) -> bool {
        now == (Screen { commands: now.commands, changed: now.changed, ..self })
    }

    /// The screen as a session begins with it: two empty grids of `columns`
    /// by `lines` cells in the interpreter's colors, and a surface that is
    /// cleared to the background and shown.
    pub open spec fn initial(
        terminal: TerminalView,
        columns: usize,
        lines: usize,
        block_width: usize,
        block_height: usize,
        alpha: u8,
    ) -> Screen {
        let state = terminal.told();
        let fill = Block::blank(
            Argb { data: blend(alpha, state.foreground) },
            Argb { data: blend(alpha, state.background) },
        );
        Screen {
            terminal,
            state,
            commands: seq![
                CommandView::Clear { color: Argb { data: blend(alpha, state.background) } },
                CommandView::Sync,
            ],
            width: columns,
            height: lines,
            alternate: false,
            grid: Seq::new((columns * lines) as nat, |i: int| fill),
            alt_grid: Seq::new((columns * lines) as nat, |i: int| fill),
            changed: Set::empty(),
            mouse_x: 0,
            mouse_y: 0,
            mouse_left: false,
            ctrl: false,
            shift: false,
            input: Seq::empty(),
            requested: 0,
            block_width,
            block_height,
            alpha,
            selection: None,
            last_selection: None,
        }
    }

    /// The screen with more bytes on their way to the shell.
    pub open spec fn send(self, bytes: Seq<u8>) -> Screen {
        Screen { input: self.input + bytes, ..self }
    }

    /// The screen after it was asked for a grid of `w` by `h` cells, where
    /// there can be such a grid at all.
    pub open spec fn resized_if_possible(self, w: usize, h: usize) -> Screen {
        if grid_allowed(w, h) {
            self.resized_to(w, h)
        } else {
            self
        }
    }

    /// The screen after the user asked for cells `block_width` pixels wide
    /// in a window of `window_width` by `window_height` pixels: the cells
    /// get their new size, the grids as many cells as the window has room
    /// for, and the surface is shown.
    pub open spec fn rescaled(
        self,
        block_width: int,
        window_width: u32,
        window_height: u32,
    ) -> Screen {
        self.with_block_width(block_width).fitted(window_width, window_height)
    }

    /// The screen after its grids were fitted to a window of `window_width`
    /// by `window_height` pixels, and the surface shown.
    pub open spec fn fitted(self, window_width: u32, window_height: u32)
        -> Screen {
        self.resized_if_possible(
            self.room(window_width, window_height).0,
            self.room(window_width, window_height).1,
        ).synced()
    }

    /// The size in cells that an input event asks the grids to take in a
    /// window of `window_width` by `window_height` pixels, if it asks for
    /// one: the chords that change the size of a cell do, with the new size
    /// of the cell, and so does a window that was resized.
    pub open spec fn asked_size(self, event: InputEvent, window_width: u32, window_height: u32)
        -> Option<(usize, usize)> {
        match event {
            InputEvent::Key { character, scancode, pressed } => if pressed && self.ctrl && (
            scancode == SCANCODE_MINUS || scancode == SCANCODE_PLUS) {
                let scaled = self.with_block_width(
                    if scancode == SCANCODE_MINUS {
                        self.block_width - 1
                    } else {
                        self.block_width + 1
                    },
                );
                Some(scaled.room(window_width, window_height))
            } else {
                None
            },
            InputEvent::Scroll { x, y } => if self.ctrl {
                let scaled = self.with_block_width(
                    if y > 0 {
                        self.block_width + 1
                    } else if y < 0 {
                        self.block_width - 1
                    } else {
                        self.block_width as int
                    },
                );
                Some(scaled.room(window_width, window_height))
            } else {
                None
            },
            InputEvent::Resize { width, height } => Some(self.room(width, height)),
            _ => None,
        }
    }

    /// How many cells a window of `window_width` by `window_height` pixels
    /// has room for, across and down.
    pub open spec fn room(self, window_width: u32, window_height: u32) -> (usize, usize) {
        (
            (window_width as int / self.block_width as int) as usize,
            (window_height as int / self.block_height as int) as usize,
        )
    }

    /// The screen after a key went down (`pressed`) or up.
    pub open spec fn typed(
        self,
        character: char,
        scancode: u8,
        pressed: bool,
        window_width: u32,
        window_height: u32,
    ) -> Screen {
        if scancode == SCANCODE_CTRL {
            Screen { ctrl: pressed, ..self }
        } else if scancode == SCANCODE_LEFT_SHIFT || scancode == SCANCODE_RIGHT_SHIFT {
            Screen { shift: pressed, ..self }
        } else if !pressed {
            self
        } else if scancode == SCANCODE_MINUS && self.ctrl {
            self.rescaled(self.block_width - 1, window_width, window_height)
        } else if scancode == SCANCODE_PLUS && self.ctrl {
            self.rescaled(self.block_width + 1, window_width, window_height)
        } else {
            match key_bytes(scancode) {
                Some(bytes) => self.send(bytes),
                None => match key_action(character, self.ctrl, self.shift) {
                    KeyAction::Send(c) => if c == '\0' {
                        self
                    } else {
                        self.send(vstd::utf8::encode_scalar(c as u32))
                    },
                    KeyAction::Copy => self.emit(
                        CommandView::Copy { text: self.selection_text() },
                    ),
                    KeyAction::Paste => self.emit(CommandView::Paste),
                },
            }
        }
    }

    /// The index of the cell in column `x` and row `y`, both counted from
    /// 1, and no more than `usize` holds.
    pub open spec fn pointer_index(self, x: u16, y: u16) -> usize {
        let column = if x > 0 {
            x - 1
        } else {
            0
        };
        let line = if y > 0 {
            y - 1
        } else {
            0
        };
        if line * self.width + column <= usize::MAX {
            (line * self.width + column) as usize
        } else {
            usize::MAX
        }
    }

    /// The screen after the pointer moved to pixel `(x, y)`, and the
    /// selection that this asks for. An application that wants mouse
    /// reports gets one where the pointer changes cell with the left
    /// button held, with the cell that the pointer is in now, and nothing
    /// is selected; otherwise a drag with the left button stretches the
    /// selection to the cell under the pointer.
    pub open spec fn pointed(self, x: i32, y: i32) -> (Screen, Option<(usize, usize)>) {
        let column = pointer_cell(x, self.block_width);
        let line = pointer_cell(y, self.block_height);
        let reported = if self.state.mouse_rxvt && self.state.mouse_btn && self.mouse_left && (
        column != self.mouse_x || line != self.mouse_y) {
            self.send(mouse_report(BUTTON_DRAG, column, line, false))
        } else {
            self
        };
        let index = self.pointer_index(column, line);
        let next = if !self.state.mouse_rxvt && self.mouse_left {
            match self.selection {
                Some(selection) => Some((selection.0, index)),
                None => Some((index, index)),
            }
        } else {
            self.selection
        };
        (Screen { mouse_x: column, mouse_y: line, ..reported }, next)
    }

    /// The screen after the mouse buttons changed, and the selection that
    /// this asks for. An application that wants mouse reports gets one for
    /// the left button going down or up; otherwise the left button going
    /// down begins a selection at the cell under the pointer.
    pub open spec fn clicked(self, left: bool) -> (Screen, Option<(usize, usize)>) {
        let reported = if self.state.mouse_rxvt && left && !self.mouse_left {
            self.send(mouse_report(BUTTON_LEFT, self.mouse_x, self.mouse_y, false))
        } else if self.state.mouse_rxvt && !left && self.mouse_left {
            self.send(mouse_report(BUTTON_LEFT, self.mouse_x, self.mouse_y, true))
        } else {
            self
        };
        let index = self.pointer_index(self.mouse_x, self.mouse_y);
        let next = if !self.state.mouse_rxvt && left && !self.mouse_left {
            Some((index, index))
        } else {
            self.selection
        };
        (Screen { mouse_left: left, ..reported }, next)
    }

    /// The screen after the wheel was turned by `y`: with the control
    /// modifier held the cells grow or shrink by a pixel, and otherwise an
    /// application that wants mouse reports gets one.
    pub open spec fn scrolled(
        self,
        y: i32,
        window_width: u32,
        window_height: u32,
    ) -> Screen {
        if self.ctrl {
            let step: int = if y > 0 {
                1
            } else if y < 0 {
                -1
            } else {
                0
            };
            self.rescaled(self.block_width + step, window_width, window_height)
        } else if self.state.mouse_rxvt && y > 0 {
            self.send(mouse_report(BUTTON_WHEEL_UP, self.mouse_x, self.mouse_y, false))
        } else if self.state.mouse_rxvt && y < 0 {
            self.send(mouse_report(BUTTON_WHEEL_DOWN, self.mouse_x, self.mouse_y, false))
        } else {
            self
        }
    }

    /// The screen after an input event was handled, apart from the
    /// selection, and the selection that the event asks for. Only the
    /// mouse asks for a selection; after every other event the selection
    /// is the one that the screen has after it, which is none where the
    /// grids were made anew.
    pub open spec fn handled(
        self,
        event: InputEvent,
        window_width: u32,
        window_height: u32,
    ) -> (Screen, Option<(usize, usize)>) {
        match event {
            InputEvent::Key { character, scancode, pressed } => {
                let typed = self.typed(
                    character,
                    scancode,
                    pressed,
                    window_width,
                    window_height,
                );
                (typed, typed.selection)
            },
            InputEvent::Mouse { x, y } => self.pointed(x, y),
            InputEvent::Button { left, middle, right } => self.clicked(left),
            InputEvent::Scroll { x, y } => {
                let scrolled = self.scrolled(y, window_width, window_height);
                (scrolled, scrolled.selection)
            },
            InputEvent::Resize { width, height } => {
                let fitted = self.fitted(width, height);
                (fitted, fitted.selection)
            },
            InputEvent::Quit => (self, self.selection),
            InputEvent::Other => (self, self.selection),
        }
    }

    /// The screen after the selection that an event asked for was taken
    /// over: where it is not the one that the screen has, the highlight is
    /// moved to it and the surface shown.
    pub open spec fn selected(self, next: Option<(usize, usize)>) -> Screen {
        if next != self.selection {
            (Screen { selection: next, ..self }).written(Seq::empty(), self.state, true)
        } else {
            self
        }
    }

    /// The screen after one input event of a window of `window_width` by
    /// `window_height` pixels.
    pub open spec fn after_input(
        self,
        event: InputEvent,
        window_width: u32,
        window_height: u32,
    ) -> Screen {
        let (handled, next) = self.handled(event, window_width, window_height);
        handled.selected(next)
    }
}


/// Going to the alternate screen and coming back leaves the primary grid as
/// it was: after the update that shows the alternate screen, cleared or
/// not, and the update that shows the primary one again, the grid on
/// display is the primary grid of before, cell for cell. The two grids
/// change places; neither is copied.
pub proof fn lemma_alternate_round_trip(s: Screen, clear_going: bool, clear_coming: bool)
    ensures
        ({
            let there = s.apply(Update::ScreenBuffer { alternate: true, clear: clear_going });
            let back = there.apply(
                Update::ScreenBuffer { alternate: false, clear: clear_coming },
            );
            &&& there.alternate
            &&& there.primary() == s.primary()
            &&& !back.alternate
            &&& !clear_coming ==> back.grid == s.primary()
        }),
{
}

/// The text of the selection is read off the grid on display and the
/// selection, and off nothing else: as long as neither changes, the text is
/// the same however often it is asked for.
pub proof fn lemma_selection_text_is_stable(a: Screen, b: Screen)
    requires
        a.grid == b.grid,
        a.selection == b.selection,
    ensures
        a.selection_text() == b.selection_text(),
{
}

/// A glyph that is put into a cell of the grid is what that cell shows
/// afterwards, and the cell's row counts as changed. Showing the surface
/// leaves no row that counts as changed.
pub proof fn lemma_char_is_shown(s: Screen, x: usize, y: usize, c: char, color: u32, bold: bool)
    requires
        s.wf(),
        x < s.width,
        y < s.height,
    ensures
        ({
            let shown = s.apply(Update::Char { x, y, c, color, bold });
            &&& 0 <= cell_index(s.width as int, x as int, y as int) < shown.grid.len()
            &&& shown.grid[cell_index(s.width as int, x as int, y as int)] == (Block {
                c,
                fg: s.shade(color),
                bg: s.grid[cell_index(s.width as int, x as int, y as int)].bg,
                bold,
            })
            &&& shown.changed.contains(y)
            &&& shown.synced().changed.is_empty()
            &&& shown.redrawn().changed.is_empty()
        }),
{
    lemma_cell_in_grid(s.width as int, s.height as int, x as int, y as int);
}

/// A scroll moves what the grid shows without losing any of it: after the
/// update that moves a rectangle of `w` by `h` cells which lies inside the
/// grid at its source and at its target, each cell of the target shows
/// what the matching cell of the source showed before the move, whether
/// the two rectangles overlap or not and whichever way the move goes.
pub proof fn lemma_scroll_keeps_content(
    s: Screen,
    from_x: usize,
    from_y: usize,
    to_x: usize,
    to_y: usize,
    w: usize,
    h: usize,
)
    requires
        s.wf(),
        from_x + w <= s.width,
        to_x + w <= s.width,
        from_y + h <= s.height,
        to_y + h <= s.height,
    ensures
        ({
            let after = s.apply(Update::Move { from_x, from_y, to_x, to_y, w, h });
            &&& after.grid.len() == s.grid.len()
            &&& forall|x: int, y: int|
                0 <= x < w && 0 <= y < h ==> after.grid[#[trigger] cell_index(
                    s.width as int,
                    to_x + x,
                    to_y + y,
                )] == s.grid[cell_index(s.width as int, from_x + x, from_y + y)]
        }),
{
    let m = s.cell_move(from_x, from_y, to_x, to_y, w, h);
    let n = s.grid.len() as int;
    let width = s.width as int;
    lemma_move_is_copy_through_temporary(s.grid, m);
    let after = s.apply(Update::Move { from_x, from_y, to_x, to_y, w, h });
    assert forall|x: int, y: int| 0 <= x < w && 0 <= y < h implies after.grid[#[trigger] cell_index(
        width,
        to_x + x,
        to_y + y,
    )] == s.grid[cell_index(width, from_x + x, from_y + y)] by {
        lemma_cell_in_grid(width, s.height as int, from_x + x, from_y + y);
        lemma_cell_in_grid(width, s.height as int, to_x + x, to_y + y);
        assert(m.from_line(y, 0) == from_y + y) by (nonlinear_arith)
            requires
                m.from_line(y, 0) == (from_y + y) * 1 + 0,
        ;
        assert(m.to_line(y, 0) == to_y + y) by (nonlinear_arith)
            requires
                m.to_line(y, 0) == (to_y + y) * 1 + 0,
        ;
        assert((from_y + y + 1) * width <= s.height * width && (to_y + y + 1) * width <= s.height
            * width && (from_y + y + 1) * width == (from_y + y) * width + width && (to_y + y + 1)
            * width == (to_y + y) * width + width) by (nonlinear_arith)
            requires
                from_y + y + 1 <= s.height,
                to_y + y + 1 <= s.height,
                width >= 0,
        ;
        assert(n == s.height * width) by (nonlinear_arith)
            requires
                n == s.width * s.height,
                width == s.width,
        ;
        assert(m.source(y, 0) == (from_y + y) * width + from_x);
        assert(m.target(y, 0) == (to_y + y) * width + to_x);
        assert(m.fits(y, 0, n));
        assert(m.target_at(y, 0, x) == cell_index(width, to_x + x, to_y + y));
        assert(m.source(y, 0) + x == cell_index(width, from_x + x, from_y + y));
        assert(moved(s.grid, m)[m.target_at(y, 0, x)] == s.grid[m.source(y, 0) + x]);
    }
}


/// A cell is never narrower than 4 pixels nor wider than 48 once its size
/// was asked for, and always twice as tall as wide.
pub proof fn lemma_block_size_bounds(s: Screen, width: int)
    ensures
        MIN_BLOCK_WIDTH <= s.with_block_width(width).block_width <= MAX_BLOCK_WIDTH,
        s.with_block_width(width).block_height == 2 * s.with_block_width(width).block_width,
        MIN_BLOCK_WIDTH <= width <= MAX_BLOCK_WIDTH ==> s.with_block_width(width).block_width
            == width,
        s.wf() ==> s.with_block_width(width).wf(),
{
}

/// The shell's output reaches the terminal: after output that is not empty
/// the terminal is the one that has taken it, and the state that the screen
/// keeps is what that terminal tells.
pub proof fn lemma_output_reaches_terminal(s: Screen, bytes: Seq<u8>, show: bool)
    requires
        bytes.len() > 0,
    ensures
        s.wrote(bytes, show).terminal == s.terminal.after(bytes),
        s.wrote(bytes, show).state == s.terminal.after(bytes).told(),
{
    let after = s.terminal.after(bytes);
    let taken = Screen { terminal: after, ..s };
    lemma_batch_keeps_terminal(taken, s.terminal.updates(bytes), after.told(), show);
}

/// A batch of display updates leaves the terminal as it is, and the screen
/// with the state that it was given.
proof fn lemma_batch_keeps_terminal(s: Screen, events: Seq<Update>, after: TermState, show: bool)
    ensures
        s.written(events, after, show).terminal == s.terminal,
        s.written(events, after, show).state == after,
{
    let uncovered = s.toggle_selection(s.last_selection).toggle_cursor();
    lemma_selection_keeps_terminal(s, s.last_selection);
    let updated = uncovered.apply_all(events, events.len() as int);
    lemma_updates_keep_terminal(uncovered, events, events.len() as int);
    let given = Screen { state: after, ..updated };
    lemma_selection_keeps_terminal(given.toggle_cursor(), s.selection);
}

/// The highlight of a selection leaves terminal and state as they are.
proof fn lemma_selection_keeps_terminal(s: Screen, selection: Option<(usize, usize)>)
    ensures
        s.toggle_selection(selection).terminal == s.terminal,
        s.toggle_selection(selection).state == s.state,
{
    match selection {
        Some((a, b)) => {
            lemma_cells_keep_terminal(s, a as int, b as int);
            lemma_cells_keep_terminal(s, b as int, a as int);
        },
        None => {},
    }
}

/// Inverting cells leaves terminal and state as they are.
proof fn lemma_cells_keep_terminal(s: Screen, lo: int, hi: int)
    ensures
        s.toggle_cells(lo, hi).terminal == s.terminal,
        s.toggle_cells(lo, hi).state == s.state,
    decreases hi - lo,
{
    if hi > lo {
        lemma_cells_keep_terminal(s, lo, hi - 1);
    }
}

/// Display updates leave the terminal as it is.
proof fn lemma_updates_keep_terminal(s: Screen, events: Seq<Update>, n: int)
    ensures
        s.apply_all(events, n).terminal == s.terminal,
    decreases n,
{
    if n > 0 {
        lemma_updates_keep_terminal(s, events, n - 1);
    }
}

/// A new size loses nothing of the shell's output: what was held back of it
/// stays held back, so the output that comes after the grids were resized
/// is cut into the same units as it would have been without.
pub proof fn lemma_new_size_keeps_held_output(s: Screen, w: usize, h: usize, bytes: Seq<u8>)
    ensures
        s.resized_to(w, h).terminal.held == s.terminal.held,
        s.resized_to(w, h).terminal.units(bytes) == s.terminal.units(bytes),
        s.resized_to(w, h).terminal.after(bytes).held == s.terminal.after(bytes).held,
{
}

/// Grids of a new size hold as many cells as the size says, and keep what
/// they showed: after the grids were made `w` by `h` cells each of the two
/// holds exactly `w * h` cells, a cell that the old grid had as well shows
/// what it showed there, and every other cell is empty in the colors that
/// were current. Nothing is selected any more.
pub proof fn lemma_reallocation_keeps_overlap(s: Screen, w: usize, h: usize)
    requires
        s.wf(),
    ensures
        ({
            let t = s.reallocated(w, h);
            &&& t.wf()
            &&& t.width == w
            &&& t.height == h
            &&& t.grid.len() == w * h
            &&& t.alt_grid.len() == w * h
            &&& t.selection is None
            &&& forall|x: int, y: int|
                0 <= x < w && 0 <= y < h ==> 0 <= #[trigger] cell_index(w as int, x, y) < w * h
                    && t.grid[cell_index(w as int, x, y)] == resized_cell(
                    s.grid,
                    s.width as int,
                    s.height as int,
                    s.fill(),
                    x,
                    y,
                ) && t.alt_grid[cell_index(w as int, x, y)] == resized_cell(
                    s.alt_grid,
                    s.width as int,
                    s.height as int,
                    s.fill(),
                    x,
                    y,
                )
        }),
{
    lemma_resized_keeps_overlap(
        s.grid,
        s.width as int,
        s.height as int,
        w as int,
        h as int,
        s.fill(),
    );
    lemma_resized_keeps_overlap(
        s.alt_grid,
        s.width as int,
        s.height as int,
        w as int,
        h as int,
        s.fill(),
    );
}

/// Whether a display update keeps to the lines of the grid. A glyph and a
/// cleared rectangle always do; a move does where its rectangle ends where
/// a line of the grid ends at the latest, at its source and at its target.
pub open spec fn keeps_to_lines(s: Screen, event: Update) -> bool {
    match event {
        Update::Move { from_x, from_y, to_x, to_y, w, h } => from_x + w <= s.width && to_x
            + w <= s.width,
        _ => true,
    }
}

/// No cell changes without its row being marked: after a display update
/// that keeps to the lines of the grid, the row of every cell of the grid
/// on display that is not what it was counts as changed.
pub proof fn lemma_changed_cells_are_marked(s: Screen, event: Update, i: int)
    requires
        s.wf(),
        keeps_to_lines(s, event),
        0 <= i < s.grid.len(),
        s.apply(event).grid.len() == s.grid.len(),
        s.apply(event).grid[i] != s.grid[i],
    ensures
        0 <= i / (s.width as int) < s.height,
        s.apply(event).changed.contains((i / (s.width as int)) as usize),
{
    let width = s.width as int;
    let height = s.height as int;
    let n = s.grid.len() as int;
    crate::grid::lemma_index_in_grid(width, height, i);
    let row = i / width;
    match event {
        Update::Char { x, y, c, color, bold } => {
            assert(i == cell_index(width, x as int, y as int));
            lemma_line_of(width, x as int, 1, y as int, i);
        },
        Update::Rect { x, y, w, h, color } => {
            let part_w = clipped(width, x as int, w as int);
            let part_h = clipped(height, y as int, h as int);
            assert(rect_covers(width, x as int, y as int, part_w, part_h, i));
            let r = choose|r: int|
                y <= r < y + part_h && #[trigger] in_span(width, x as int, part_w, r, i);
            lemma_line_of(width, x as int, part_w, r, i);
            assert(rows(y as int, part_h).contains(row as usize));
        },
        Update::ScreenBuffer { alternate, clear } => {
            assert(rows(0, height).contains(row as usize));
        },
        Update::Move { from_x, from_y, to_x, to_y, w, h } => {
            let m = s.cell_move(from_x, from_y, to_x, to_y, w, h);
            lemma_move_is_copy_through_temporary(s.grid, m);
            assert(m.writes(n, i));
            let (y, l) = choose|y: int, l: int| #[trigger] m.hits(y, l, n, i);
            assert(m.to_line(y, l) == to_y + y) by (nonlinear_arith)
                requires
                    m.to_line(y, l) == (to_y + y) * 1 + l,
                    0 <= l < 1,
            ;
            lemma_line_of(width, to_x as int, w as int, to_y + y, i);
            assert(rows(to_y as int, h as int).contains(row as usize));
        },
        _ => {},
    }
}

/// An item in a span that ends where its line ends at the latest is on that
/// line.
proof fn lemma_line_of(width: int, x: int, w: int, r: int, i: int)
    requires
        0 <= x,
        x + w <= width,
        0 <= r,
        r * width + x <= i < r * width + x + w,
    ensures
        i / width == r,
{
    assert(r * width == width * r) by (nonlinear_arith);
    vstd::arithmetic::div_mod::lemma_fundamental_div_mod_converse(i, width, r, i - r * width);
}

} // verus!
