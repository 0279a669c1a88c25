//! The terminal session: two grids of cells, the overlay of cursor and
//! selection, the bytes on their way to the shell, and the commands on
//! their way to the rendering surface.

use vstd::prelude::*;
use std::collections::BTreeSet;
use crate::block::Block;
use crate::color::Argb;
use crate::event::{update_views, Command, DisplayEvent, InputEvent};
use crate::grid;
use crate::interpreter;
use crate::interpreter::{TermState, Terminal};
use crate::keys;
use crate::keys::KeyAction;
use crate::region::{move_rows, RowMove};
use crate::screen::{
    cell_repaint, grid_allowed, repaint, rows, views, CommandView, Screen, MAX_BLOCK_WIDTH,
    MIN_BLOCK_WIDTH,
};

verus! {

/// A terminal session.
///
/// The console owns the escape-sequence interpreter and everything that is
/// on the screen. It does not own the window: what is to be drawn it puts
/// down as commands, and whoever owns the window takes them with
/// `take_commands` and carries them out in order.
pub struct Console {
    /// The escape-sequence interpreter.
    pub ransid: Terminal,
    /// What the interpreter told of itself when it was last asked.
    pub state: TermState,
    /// The commands that the surface has not been given yet.
    pub commands: Vec<Command>,
    /// The size of the two grids, in cells.
    pub width: usize,
    pub height: usize,
    pub alternate: bool,
    pub grid: Vec<Block>,
    pub alt_grid: Vec<Block>,
    pub changed: BTreeSet<usize>,
    pub mouse_x: u16,
    pub mouse_y: u16,
    pub mouse_left: bool,
    pub ctrl: bool,
    pub shift: bool,
    pub input: Vec<u8>,
    pub requested: usize,
    pub block_width: usize,
    pub block_height: usize,
    pub alpha: u8,
    pub selection: Option<(usize, usize)>,
    pub last_selection: Option<(usize, usize)>,
}

impl View for Console {
    type V = Screen;

    open spec fn view(&self) -> Screen {
        Screen {
            terminal: self.ransid@,
            state: self.state,
            commands: views(self.commands@),
            width: self.width,
            height: self.height,
            alternate: self.alternate,
            grid: self.grid@,
            alt_grid: self.alt_grid@,
            changed: self.changed@,
            mouse_x: self.mouse_x,
            mouse_y: self.mouse_y,
            mouse_left: self.mouse_left,
            ctrl: self.ctrl,
            shift: self.shift,
            input: self.input@,
            requested: self.requested,
            block_width: self.block_width,
            block_height: self.block_height,
            alpha: self.alpha,
            selection: self.selection,
            last_selection: self.last_selection,
        }
    }
}

/// `std::io::Error`, which `write` has in its type and never returns.
#[verifier::external_type_specification]
#[verifier::external_body]
pub struct ExIoError(std::io::Error);

/// The opacity of everything a session draws.
pub const ALPHA: u8 = 224;

/// Whether two selections are the same.
fn same_selection(a: Option<(usize, usize)>, b: Option<(usize, usize)>) -> (same: bool)
    ensures
        same == (a == b),
{
    match (a, b) {
        (Some(p), Some(q)) => p.0 == q.0 && p.1 == q.1,
        (None, None) => true,
        _ => false,
    }
}

/// Puts one more command at the end of the list.
fn emit(commands: &mut Vec<Command>, command: Command)
    ensures
        views(final(commands)@) == views(old(commands)@).push(command@),
{
    commands.push(command);
    assert(views(commands@) =~= views(old(commands)@).push(command@));
}

/// Marks the rows from `start` on, `count` of them, as changed.
fn mark_rows(changed: &mut BTreeSet<usize>, start: usize, count: usize)
    ensures
        final(changed)@ == old(changed)@.union(rows(start as int, count as int)),
{
    let room = usize::MAX - start;
    let n = if count > room {
        room + 1
    } else {
        count
    };
    let mut k: usize = 0;
    assert(changed@ =~= old(changed)@.union(rows(start as int, 0)));
    while k < n
        invariant
            k <= n,
            start + n <= usize::MAX + 1,
            changed@ == old(changed)@.union(rows(start as int, k as int)),
        decreases n - k,
    {
        changed.insert(start + k);
        assert(changed@ =~= old(changed)@.union(rows(start as int, k + 1)));
        k += 1;
    }
    assert(rows(start as int, n as int) =~= rows(start as int, count as int));
}

impl Console {
    /// Puts down the command that inverts a rectangle of pixels.
    pub fn invert(&mut self, x: usize, y: usize, w: usize, h: usize)
        ensures
            final(self)@ == old(self)@.emit(CommandView::Invert { x, y, w, h }),
    {
        emit(&mut self.commands, Command::Invert { x, y, w, h });
        assert(self@ =~= old(self)@.emit(CommandView::Invert { x, y, w, h }));
    }

    /// Shows the surface if a row has changed since it was last shown.
    pub fn sync(&mut self)
        ensures
            final(self)@ == old(self)@.synced(),
    {
        if !self.changed.is_empty() {
            emit(&mut self.commands, Command::Sync);
        }
        self.changed.clear();
        assert(self@ =~= old(self)@.synced());
    }

    /// Shows the surface, changed or not. After it no row counts as
    /// changed.
    pub fn redraw(&mut self)
        ensures
            final(self)@ == old(self)@.redrawn(),
    {
        emit(&mut self.commands, Command::Sync);
        self.changed.clear();
        assert(self@ =~= old(self)@.redrawn());
    }

    /// Makes the cells `block_width` pixels wide, though no less than 4 and
    /// no more than 48, and twice as tall as wide.
    pub fn set_block_size(&mut self, block_width: usize)
        ensures
            final(self)@ == old(self)@.with_block_width(block_width as int),
    {
        self.block_width = if block_width < MIN_BLOCK_WIDTH {
            MIN_BLOCK_WIDTH
        } else if block_width > MAX_BLOCK_WIDTH {
            MAX_BLOCK_WIDTH
        } else {
            block_width
        };
        self.block_height = self.block_width * 2;
        assert(self@ =~= old(self)@.with_block_width(block_width as int));
    }

    /// The text of the selection: the glyphs of the selected cells, with
    /// one line break for each run of empty cells that a glyph follows.
    pub fn selection_text(&self) -> (text: String)
        ensures
            text@ == self@.selection_text(),
    {
        match self.selection {
            Some((a, b)) => grid::extract_text(&self.grid, a, b),
            None => String::new(),
        }
    }

    /// Takes the text of the clipboard as input for the shell.
    pub fn paste(&mut self, text: &str)
        ensures
            final(self)@ == (Screen {
                input: old(self)@.input + vstd::utf8::encode_utf8(text@),
                ..old(self)@
            }),
    {
        self.input.extend_from_slice(text.as_bytes());
        assert(self@ =~= (Screen {
            input: old(self)@.input + vstd::utf8::encode_utf8(text@),
            ..old(self)@
        }));
    }

    /// Hands out the commands that were put down since the last call, in
    /// order, and keeps none.
    pub fn take_commands(&mut self) -> (commands: Vec<Command>)
        ensures
            views(commands@) == old(self)@.commands,
            final(self)@ == (Screen { commands: Seq::empty(), ..old(self)@ }),
    {
        let mut commands: Vec<Command> = Vec::new();
        std::mem::swap(&mut commands, &mut self.commands);
        assert(self@ =~= (Screen { commands: Seq::empty(), ..old(self)@ }));
        commands
    }

    /// Puts down the command that inverts the cell `(x, y)`.
    fn toggle_cell(&mut self, x: usize, y: usize)
        ensures
            final(self)@ == old(self)@.emit_all(old(self)@.cell_inverts(x as int, y as int)),
    {
        if let Some(left) = x.checked_mul(self.block_width) {
            if let Some(top) = y.checked_mul(self.block_height) {
                let w = self.block_width;
                let h = self.block_height;
                self.invert(left, top, w, h);
            }
        }
        assert(self@ =~= old(self)@.emit_all(old(self)@.cell_inverts(x as int, y as int)));
    }

    /// Inverts the cursor's cell where a cursor is shown.
    fn toggle_cursor(&mut self)
        ensures
            final(self)@ == old(self)@.toggle_cursor(),
            old(self)@.only_drawn(final(self)@),
    {
        if self.state.cursor && self.state.x < self.state.w && self.state.y < self.state.h {
            let x = self.state.x;
            let y = self.state.y;
            self.toggle_cell(x, y);
            self.changed.insert(y);
        }
        assert(self@ =~= old(self)@.toggle_cursor());
    }

    /// Puts a selection's highlight on, or takes it off.
    fn toggle_selection(&mut self, selection: Option<(usize, usize)>)
        ensures
            final(self)@ == old(self)@.toggle_selection(selection),
            old(self)@.only_drawn(final(self)@),
    {
        if let Some((a, b)) = selection {
            if self.width > 0 {
                let lo = if a < b {
                    a
                } else {
                    b
                };
                let hi = if a < b {
                    b
                } else {
                    a
                };
                let mut i = lo;
                while i < hi
                    invariant
                        lo <= i <= hi,
                        self.width > 0,
                        self.width == old(self).width,
                        self.block_width == old(self).block_width,
                        self.block_height == old(self).block_height,
                        self@ == old(self)@.toggle_cells(lo as int, i as int),
                        old(self)@.only_drawn(self@),
                    decreases hi - i,
                {
                    let x = i % self.width;
                    let y = i / self.width;
                    let ghost before = self@;
                    self.toggle_cell(x, y);
                    self.changed.insert(y);
                    assert(self@ =~= before.emit_all(old(self)@.cell_inverts(x as int, y as int)).mark(
                        set![y],
                    ));
                    i += 1;
                }
            }
        }
    }

    /// Draws the grid on display again, cell by cell.
    fn repaint(&mut self)
        requires
            old(self)@.wf(),
        ensures
            final(self)@ == old(self)@.emit_all(
                repaint(
                    old(self)@.grid,
                    old(self)@.width as int,
                    old(self)@.block_width,
                    old(self)@.block_height,
                    old(self)@.grid.len() as int,
                ),
            ),
            old(self)@.only_drawn(final(self)@),
    {
        let n = self.grid.len();
        let mut i: usize = 0;
        assert(self@ =~= old(self)@.emit_all(Seq::empty()));
        while i < n
            invariant
                i <= n,
                n == self.grid@.len(),
                n == self.width * self.height,
                self@ == old(self)@.emit_all(
                    repaint(
                        old(self)@.grid,
                        old(self)@.width as int,
                        old(self)@.block_width,
                        old(self)@.block_height,
                        i as int,
                    ),
                ),
            decreases n - i,
        {
            assert(self.width > 0) by (nonlinear_arith)
                requires
                    i < self.width * self.height,
            ;
            let x = i % self.width;
            let y = i / self.width;
            let block = self.grid[i];
            let ghost before = self@;
            emit(
                &mut self.commands,
                Command::Rect {
                    x,
                    y,
                    w: 1,
                    h: 1,
                    block_width: self.block_width,
                    block_height: self.block_height,
                    color: block.bg,
                },
            );
            if block.c != '\0' {
                emit(
                    &mut self.commands,
                    Command::Glyph {
                        x,
                        y,
                        block_width: self.block_width,
                        block_height: self.block_height,
                        c: block.c,
                        bold: block.bold,
                        color: block.fg,
                    },
                );
            }
            assert(self@ =~= before.emit_all(
                cell_repaint(
                    old(self)@.grid,
                    old(self)@.width as int,
                    old(self)@.block_width,
                    old(self)@.block_height,
                    i as int,
                ),
            ));
            assert(self@ =~= old(self)@.emit_all(
                repaint(
                    old(self)@.grid,
                    old(self)@.width as int,
                    old(self)@.block_width,
                    old(self)@.block_height,
                    i + 1,
                ),
            ));
            i += 1;
        }
    }

    /// Takes one display update of the interpreter: changes the grid on
    /// display, puts down what is to be drawn, and marks the rows that
    /// changed.
    pub fn apply_event(&mut self, event: &DisplayEvent)
        requires
            old(self)@.wf(),
        ensures
            final(self)@ == old(self)@.apply(event@),
            final(self)@.wf(),
            final(self)@.selection == old(self)@.selection,
            final(self)@.last_selection == old(self)@.last_selection,
            final(self)@.state == old(self)@.state,
            final(self)@.terminal == old(self)@.terminal,
    {
        match event {
            DisplayEvent::Char { x, y, c, color, bold } => if *x < self.width && *y < self.height {
                let fg = Argb::with_alpha(self.alpha, *color);
                emit(
                    &mut self.commands,
                    Command::Glyph {
                        x: *x,
                        y: *y,
                        block_width: self.block_width,
                        block_height: self.block_height,
                        c: *c,
                        bold: *bold,
                        color: fg,
                    },
                );
                grid::put_char(&mut self.grid, self.width, self.height, *x, *y, *c, fg, *bold);
                self.changed.insert(*y);
            },
            DisplayEvent::Input { data } => {
                self.input.extend_from_slice(data.as_slice());
            },
            DisplayEvent::Rect { x, y, w, h, color } => {
                let part_w = grid::clip(self.width, *x, *w);
                let part_h = grid::clip(self.height, *y, *h);
                if part_w > 0 && part_h > 0 {
                    let bg = Argb::with_alpha(self.alpha, *color);
                    emit(
                        &mut self.commands,
                        Command::Rect {
                            x: *x,
                            y: *y,
                            w: part_w,
                            h: part_h,
                            block_width: self.block_width,
                            block_height: self.block_height,
                            color: bg,
                        },
                    );
                    grid::clear_rect(&mut self.grid, self.width, self.height, *x, *y, *w, *h, bg);
                    mark_rows(&mut self.changed, *y, part_h);
                }
            },
            DisplayEvent::ScreenBuffer { alternate, clear } => {
                if self.alternate != *alternate {
                    let bg = Argb::with_alpha(self.alpha, self.state.background);
                    std::mem::swap(&mut self.grid, &mut self.alt_grid);
                    if *clear {
                        grid::wipe(&mut self.grid, bg);
                    }
                    emit(&mut self.commands, Command::Clear { color: bg });
                    self.repaint();
                    mark_rows(&mut self.changed, 0, self.height);
                    self.alternate = *alternate;
                }
            },
            DisplayEvent::Move { from_x, from_y, to_x, to_y, w, h } => {
                emit(
                    &mut self.commands,
                    Command::Move {
                        from_x: *from_x,
                        from_y: *from_y,
                        to_x: *to_x,
                        to_y: *to_y,
                        w: *w,
                        h: *h,
                        block_width: self.block_width,
                        block_height: self.block_height,
                    },
                );
                let m = RowMove {
                    stride: self.width,
                    sub: 1,
                    from_x: *from_x,
                    from_y: *from_y,
                    to_x: *to_x,
                    to_y: *to_y,
                    len: *w,
                    rows: *h,
                };
                move_rows(self.grid.as_mut_slice(), &m);
                mark_rows(&mut self.changed, *to_y, *h);
            },
            DisplayEvent::Resize { w, h } => {
                emit(
                    &mut self.commands,
                    Command::Resize {
                        w: *w,
                        h: *h,
                        block_width: self.block_width,
                        block_height: self.block_height,
                    },
                );
            },
            DisplayEvent::Title { title } => {
                emit(&mut self.commands, Command::Title { title: title.clone() });
            },
        }
        assert(self@ =~= old(self)@.apply(event@));
    }

    /// Takes a batch of display updates together with the state that the
    /// interpreter is in after them. The overlay of cursor and selection is
    /// taken off before the updates are drawn and put on again after them;
    /// with `sync` the surface is shown at the end.
    pub fn apply_events(&mut self, events: &Vec<DisplayEvent>, after: TermState, sync: bool)
        requires
            old(self)@.wf(),
        ensures
            final(self)@ == old(self)@.written(update_views(events@), after, sync),
            final(self)@.wf(),
            final(self)@.state == after,
            final(self)@.terminal == old(self)@.terminal,
    {
        let selection = self.selection;
        let last_selection = self.last_selection;
        self.toggle_selection(last_selection);
        self.toggle_cursor();
        let ghost uncovered = self@;
        let mut i: usize = 0;
        while i < events.len()
            invariant
                i <= events.len(),
                self@.wf(),
                self@.terminal == old(self)@.terminal,
                self@ == uncovered.apply_all(update_views(events@), i as int),
            decreases events.len() - i,
        {
            self.apply_event(&events[i]);
            i += 1;
        }
        self.state = after;
        self.toggle_cursor();
        self.toggle_selection(selection);
        self.last_selection = selection;
        if sync {
            self.sync();
        }
    }

    /// Begins a session in a window of `width` by `height` pixels with
    /// cells of `block_width` by `block_height` pixels: an interpreter and
    /// two empty grids for as many cells as the window has room for, and a
    /// surface that is cleared to the background and shown.
    pub fn new(width: u32, height: u32, block_width: usize, block_height: usize) -> (console:
        Console)
        requires
            block_width > 0,
            block_height > 0,
            grid_allowed(
                (width as int / block_width as int) as usize,
                (height as int / block_height as int) as usize,
            ),
        ensures
            console@ == Screen::initial(
                console@.terminal,
                (width as int / block_width as int) as usize,
                (height as int / block_height as int) as usize,
                block_width,
                block_height,
                ALPHA,
            ),
            console@.wf(),
            console@.state.w == console@.width,
            console@.state.h == console@.height,
            console@.state.x == 0,
            console@.state.y == 0,
            console@.state.cursor,
            !console@.state.mouse_rxvt,
            !console@.state.mouse_btn,
            console@.state.foreground == interpreter::rgb_of(interpreter::Tone::Ansi(7)),
            console@.state.background == interpreter::rgb_of(interpreter::Tone::Ansi(0)),
            console@.terminal.held.len() == 0,
            console@.state == console@.terminal.told(),
    {
        let columns = width as usize / block_width;
        let lines = height as usize / block_height;
        let ransid = interpreter::begin(columns, lines);
        let state = interpreter::state_of(&ransid);
        let fg = Argb::with_alpha(ALPHA, state.foreground);
        let bg = Argb::with_alpha(ALPHA, state.background);
        let cells = grid::filled(columns * lines, Block::empty(fg, bg));
        let alt_cells = grid::filled(columns * lines, Block::empty(fg, bg));
        let mut commands: Vec<Command> = Vec::new();
        emit(&mut commands, Command::Clear { color: bg });
        emit(&mut commands, Command::Sync);
        let console = Console {
            ransid,
            state,
            commands,
            width: columns,
            height: lines,
            alternate: false,
            grid: cells,
            alt_grid: alt_cells,
            changed: BTreeSet::new(),
            mouse_x: 0,
            mouse_y: 0,
            mouse_left: false,
            ctrl: false,
            shift: false,
            input: Vec::new(),
            requested: 0,
            block_width,
            block_height,
            alpha: ALPHA,
            selection: None,
            last_selection: None,
        };
        assert(console@ =~= Screen::initial(
            ransid@,
            columns,
            lines,
            block_width,
            block_height,
            ALPHA,
        ));
        console
    }

    /// Hands the output of the shell to the interpreter and draws the display
    /// updates that it makes of it. All of `buf` is taken; what it ends in
    /// the middle of is held back until more comes. With nothing to
    /// interpret the interpreter is not asked, and only the overlay of
    /// cursor and selection is brought up to date.
    pub fn write(&mut self, buf: &[u8], sync: bool) -> (written: Result<usize, std::io::Error>)
        requires
            old(self)@.wf(),
        ensures
            written is Ok,
            written->Ok_0 == buf@.len(),
            final(self)@ == old(self)@.wrote(buf@, sync),
            final(self)@.wf(),
            buf@.len() > 0 ==> final(self)@.terminal.held == crate::framing::Cutting::of(
                old(self)@.terminal.held,
                buf@,
            ).held,
            buf@.len() == 0 ==> final(self)@.terminal == old(self)@.terminal,
            buf@.len() > 0 ==> final(self)@.terminal == old(self)@.terminal.after(buf@)
                && final(self)@.state == final(self)@.terminal.told(),
    {
        if buf.len() == 0 {
            let events: Vec<DisplayEvent> = Vec::new();
            let state = self.state;
            self.apply_events(&events, state, sync);
            assert(update_views(events@) =~= Seq::empty());
        } else {
            let events = interpreter::feed(&mut self.ransid, buf);
            let state = interpreter::state_of(&self.ransid);
            self.apply_events(&events, state, sync);
        }
        Ok(buf.len())
    }

    /// Makes both grids `w` by `h` cells, unless the interpreter's screen
    /// is of that size already. What the grids showed stays where the old
    /// and the new size overlap, and new cells are empty in the current
    /// colors. The old picture is drawn again, the interpreter is told the
    /// new size, and the selection is given up.
    pub fn resize_grid(&mut self, w: usize, h: usize)
        requires
            old(self)@.wf(),
            grid_allowed(w, h),
        ensures
            final(self)@ == old(self)@.resized_to(w, h),
            final(self)@.wf(),
            final(self)@.terminal.held == old(self)@.terminal.held,
            final(self)@.state.w == w,
            final(self)@.state.h == h,
            final(self)@.width == w,
            final(self)@.height == h,
            final(self)@.grid.len() == w * h,
            final(self)@.alt_grid.len() == w * h,
            forall|x: int, y: int|
                0 <= x < w && 0 <= y < h && x < old(self)@.width && y < old(self)@.height ==> {
                    &&& 0 <= #[trigger] grid::cell_index(w as int, x, y) < w * h
                    &&& final(self)@.grid[grid::cell_index(w as int, x, y)] == old(
                        self,
                    )@.grid[grid::cell_index(old(self)@.width as int, x, y)]
                    &&& final(self)@.alt_grid[grid::cell_index(w as int, x, y)] == old(
                        self,
                    )@.alt_grid[grid::cell_index(old(self)@.width as int, x, y)]
                },
    {
        proof {
            assert forall|x: int, y: int| 0 <= x < w && 0 <= y < h implies 0
                <= #[trigger] grid::cell_index(w as int, x, y) < w * h by {
                grid::lemma_cell_in_grid(w as int, h as int, x, y);
            }
        }
        if w != self.state.w || h != self.state.h || w != self.width || h != self.height {
            let fg = Argb::with_alpha(self.alpha, self.state.foreground);
            let bg = Argb::with_alpha(self.alpha, self.state.background);
            let fill = Block::empty(fg, bg);
            let cells = grid::reallocated(&self.grid, self.width, self.height, w, h, fill);
            let alt_cells = grid::reallocated(&self.alt_grid, self.width, self.height, w, h, fill);
            emit(&mut self.commands, Command::Clear { color: bg });
            self.repaint();
            mark_rows(&mut self.changed, 0, self.height);
            interpreter::resized(&mut self.ransid, w, h);
            self.state = interpreter::state_of(&self.ransid);
            self.grid = cells;
            self.alt_grid = alt_cells;
            self.width = w;
            self.height = h;
            if self.state.cursor && self.state.x < self.state.w && self.state.y < self.state.h {
                let x = self.state.x;
                let y = self.state.y;
                self.toggle_cell(x, y);
            }
            self.selection = None;
            proof {
                grid::lemma_resized_keeps_overlap(
                    old(self)@.grid,
                    old(self)@.width as int,
                    old(self)@.height as int,
                    w as int,
                    h as int,
                    old(self)@.fill(),
                );
                grid::lemma_resized_keeps_overlap(
                    old(self)@.alt_grid,
                    old(self)@.width as int,
                    old(self)@.height as int,
                    w as int,
                    h as int,
                    old(self)@.fill(),
                );
            }
            assert(self@ =~= old(self)@.reallocated(w, h));
        }
    }

    /// Fits the grids to a window of `window_width` by `window_height`
    /// pixels and shows the surface. A window with room for more cells
    /// than there can be is not fitted to.
    pub fn fit(&mut self, window_width: u32, window_height: u32)
        requires
            old(self)@.wf(),
        ensures
            final(self)@ == old(self)@.fitted(window_width, window_height),
            final(self)@.wf(),
            final(self)@.terminal.held == old(self)@.terminal.held,
            final(self)@.changed.is_empty(),
            ({
                let (w, h) = old(self)@.room(window_width, window_height);
                grid_allowed(w, h) ==> final(self)@.state.w == w && final(self)@.state.h == h
                    && final(self)@.width == w && final(self)@.height == h
            }),
    {
        let w = window_width as usize / self.block_width;
        let h = window_height as usize / self.block_height;
        if w.checked_mul(h).is_some() && h <= (isize::MAX / 2) as usize {
            self.resize_grid(w, h);
        }
        self.sync();
    }

    /// Handles a key going down or up.
    fn key(
        &mut self,
        character: char,
        scancode: u8,
        pressed: bool,
        window_width: u32,
        window_height: u32,
    )
        requires
            old(self)@.wf(),
        ensures
            final(self)@ == old(self)@.typed(
                character,
                scancode,
                pressed,
                window_width,
                window_height),
            final(self)@.wf(),
            final(self)@.terminal.held == old(self)@.terminal.held,
            old(self)@.asked_size(
                InputEvent::Key { character, scancode, pressed },
                window_width,
                window_height,
            ) is None ==> final(self)@.terminal == old(self)@.terminal,
            final(self)@.selection == old(self)@.selection || final(self)@.selection is None,
            old(self)@.asked_size(
                InputEvent::Key { character, scancode, pressed },
                window_width,
                window_height,
            ) matches Some((w, h)) ==> (grid_allowed(w, h) ==> final(self)@.state.w == w
                && final(self)@.state.h == h && final(self)@.width == w && final(self)@.height
                == h),
    {
        if scancode == keys::SCANCODE_CTRL {
            self.ctrl = pressed;
        } else if scancode == keys::SCANCODE_LEFT_SHIFT || scancode == keys::SCANCODE_RIGHT_SHIFT {
            self.shift = pressed;
        } else if pressed {
            if scancode == keys::SCANCODE_MINUS && self.ctrl {
                let block_width = self.block_width - 1;
                self.set_block_size(block_width);
                self.fit(window_width, window_height);
            } else if scancode == keys::SCANCODE_PLUS && self.ctrl {
                let block_width = self.block_width.saturating_add(1);
                self.set_block_size(block_width);
                self.fit(window_width, window_height);
            } else if !keys::push_key(&mut self.input, scancode) {
                match keys::action_of(character, self.ctrl, self.shift) {
                    KeyAction::Send(c) => {
                        if c != '\0' {
                            keys::push_char(&mut self.input, c);
                        }
                    },
                    KeyAction::Copy => {
                        let text = self.selection_text();
                        emit(&mut self.commands, Command::Copy { text });
                    },
                    KeyAction::Paste => {
                        emit(&mut self.commands, Command::Paste);
                    },
                }
            }
        }
        assert(self@ =~= old(self)@.typed(
            character,
            scancode,
            pressed,
            window_width,
            window_height));
    }

    /// The index of the cell in column `x` and row `y`, counted from 1.
    fn pointer_index(&self, x: u16, y: u16) -> (index: usize)
        ensures
            index == self@.pointer_index(x, y),
    {
        let column = if x > 0 {
            (x - 1) as usize
        } else {
            0
        };
        let line = if y > 0 {
            (y - 1) as usize
        } else {
            0
        };
        match line.checked_mul(self.width) {
            Some(start) => match start.checked_add(column) {
                Some(index) => index,
                None => usize::MAX,
            },
            None => usize::MAX,
        }
    }

    /// Handles the pointer moving; returns the selection this asks for.
    fn pointer(&mut self, x: i32, y: i32) -> (next: Option<(usize, usize)>)
        requires
            old(self)@.wf(),
        ensures
            (final(self)@, next) == old(self)@.pointed(x, y),
            final(self)@.wf(),
    {
        let column = keys::cell_of_pointer(x, self.block_width);
        let line = keys::cell_of_pointer(y, self.block_height);
        let mut next = self.selection;
        if self.state.mouse_rxvt {
            if self.state.mouse_btn && self.mouse_left && (column != self.mouse_x || line
                != self.mouse_y) {
                keys::push_mouse_report(&mut self.input, keys::BUTTON_DRAG, column, line, false);
            }
        } else if self.mouse_left {
            let index = self.pointer_index(column, line);
            next = match self.selection {
                Some(selection) => Some((selection.0, index)),
                None => Some((index, index)),
            };
        }
        self.mouse_x = column;
        self.mouse_y = line;
        assert(self@ =~= old(self)@.pointed(x, y).0);
        next
    }

    /// Handles the buttons changing; returns the selection this asks for.
    fn button(&mut self, left: bool) -> (next: Option<(usize, usize)>)
        requires
            old(self)@.wf(),
        ensures
            (final(self)@, next) == old(self)@.clicked(left),
            final(self)@.wf(),
    {
        let mut next = self.selection;
        if self.state.mouse_rxvt {
            if left {
                if !self.mouse_left {
                    keys::push_mouse_report(
                        &mut self.input,
                        keys::BUTTON_LEFT,
                        self.mouse_x,
                        self.mouse_y,
                        false,
                    );
                }
            } else if self.mouse_left {
                keys::push_mouse_report(
                    &mut self.input,
                    keys::BUTTON_LEFT,
                    self.mouse_x,
                    self.mouse_y,
                    true,
                );
            }
        } else if left && !self.mouse_left {
            let index = self.pointer_index(self.mouse_x, self.mouse_y);
            next = Some((index, index));
        }
        self.mouse_left = left;
        assert(self@ =~= old(self)@.clicked(left).0);
        next
    }

    /// Handles the wheel turning.
    fn wheel(&mut self, y: i32, window_width: u32, window_height: u32)
        requires
            old(self)@.wf(),
        ensures
            final(self)@ == old(self)@.scrolled(
                y,
                window_width,
                window_height),
            final(self)@.wf(),
            final(self)@.terminal.held == old(self)@.terminal.held,
            old(self)@.asked_size(InputEvent::Scroll { x: 0, y }, window_width, window_height)
                is None ==> final(self)@.terminal == old(self)@.terminal,
            old(self)@.asked_size(InputEvent::Scroll { x: 0, y }, window_width, window_height)
                matches Some((w, h)) ==> (grid_allowed(w, h) ==> final(self)@.state.w == w
                && final(self)@.state.h == h && final(self)@.width == w && final(self)@.height
                == h),
    {
        if self.ctrl {
            let block_width = if y > 0 {
                self.block_width.saturating_add(1)
            } else if y < 0 {
                self.block_width - 1
            } else {
                self.block_width
            };
            self.set_block_size(block_width);
            self.fit(window_width, window_height);
        } else if self.state.mouse_rxvt {
            if y > 0 {
                keys::push_mouse_report(
                    &mut self.input,
                    keys::BUTTON_WHEEL_UP,
                    self.mouse_x,
                    self.mouse_y,
                    false,
                );
            } else if y < 0 {
                keys::push_mouse_report(
                    &mut self.input,
                    keys::BUTTON_WHEEL_DOWN,
                    self.mouse_x,
                    self.mouse_y,
                    false,
                );
            }
        }
        assert(self@ =~= old(self)@.scrolled(y, window_width, window_height));
    }

    /// Handles one input event of the window, which is `window_width` by
    /// `window_height` pixels at the time. Keys and mouse reports become
    /// bytes for the shell; a drag changes the selection; the chords for
    /// cell size, copy and paste and a resized window act on the session
    /// itself.
    pub fn input(&mut self, event: InputEvent, window_width: u32, window_height: u32)
        requires
            old(self)@.wf(),
        ensures
            final(self)@ == old(self)@.after_input(
                event,
                window_width,
                window_height),
            final(self)@.wf(),
            final(self)@.terminal.held == old(self)@.terminal.held,
            old(self)@.asked_size(event, window_width, window_height) is None
                ==> final(self)@.terminal == old(self)@.terminal,
            old(self)@.asked_size(event, window_width, window_height) matches Some((w, h)) ==> (
            grid_allowed(w, h) ==> final(self)@.state.w == w && final(self)@.state.h == h
                && final(self)@.width == w && final(self)@.height == h && final(self)@.grid.len()
                == w * h && final(self)@.alt_grid.len() == w * h),
    {
        let next = match event {
            InputEvent::Key { character, scancode, pressed } => {
                self.key(character, scancode, pressed, window_width, window_height);
                self.selection
            },
            InputEvent::Mouse { x, y } => self.pointer(x, y),
            InputEvent::Button { left, middle, right } => self.button(left),
            InputEvent::Scroll { x, y } => {
                self.wheel(y, window_width, window_height);
                self.selection
            },
            InputEvent::Resize { width, height } => {
                self.fit(width, height);
                self.selection
            },
            InputEvent::Quit => self.selection,
            InputEvent::Other => self.selection,
        };
        if !same_selection(next, self.selection) {
            self.selection = next;
            let events: Vec<DisplayEvent> = Vec::new();
            let state = self.state;
            self.apply_events(&events, state, true);
            assert(update_views(events@) =~= Seq::empty());
        }
    }
}

} // verus!
