//! The escape-sequence interpreter, as far as the engine sees it.
//!
//! The interpreter turns the bytes that the shell writes into display
//! updates and keeps the cursor and the modes. The engine hands it bytes,
//! takes its updates, and reads a few things of its state. Nothing here says
//! what the interpreter makes of a given byte.
//!
//! The interpreter does not check its arithmetic. So the output is cut into
//! units, each plain output or one whole sequence, and a unit is handed over
//! only if `admitted` lets it through: from where the cursor and the margins
//! are, with the numbers that stand in the unit, nothing that the
//! interpreter reckons leaves its bounds. A unit that is not let through is
//! dropped, and a cursor that has strayed too far is put back first.
//!
//! What the interpreter reports for given bytes, and what becomes of it,
//! has a name each (`reported`, `fed`), so that what a terminal makes of
//! the shell's output is a function of the terminal and the output:
//! `TerminalView::after` and `TerminalView::updates`.

use vstd::prelude::*;
use ransid::Console as Interpreter;
use ransid::Color as PaletteColor;
use ransid::Event as Reported;
use crate::event::{update_views, DisplayEvent, Update};
use crate::framing::{begins_string, cut, is_string_start, unit_views, Cutting, CANCEL, ESCAPE};

verus! {

/// `ransid::Console`, the interpreter. Nothing is known of what is inside
/// one.
#[verifier::external_type_specification]
#[verifier::external_body]
pub struct ExInterpreter(Interpreter);

/// `ransid::Color`, a color of the interpreter's palette. Nothing is known
/// of what is inside one.
#[verifier::external_type_specification]
#[verifier::external_body]
pub struct ExPaletteColor(PaletteColor);

/// A color of the interpreter's palette: one of the 256 numbered colors, or
/// red, green and blue.
#[derive(Clone, Copy, Debug, PartialEq, Eq, Structural)]
pub enum Tone {
    Ansi(u8),
    True(u8, u8, u8),
}

/// The red, green and blue that the palette has for a color, in the low 24
/// bits: what `ransid::Color::as_rgb` returns for it.
pub uninterp spec fn rgb_of(tone: Tone) -> u32;

/// The color that a `ransid::Color` holds.
pub uninterp spec fn tone(color: PaletteColor) -> Tone;

/// What the engine reads of the interpreter's state.
#[derive(Clone, Copy, Debug, PartialEq, Eq, Structural)]
pub struct TermState {
    /// The cursor's column and row.
    pub x: usize,
    pub y: usize,
    /// The size of the screen that the interpreter lays its output out on.
    pub w: usize,
    pub h: usize,
    /// Whether the cursor is shown.
    pub cursor: bool,
    /// Whether the application asked for mouse reports.
    pub mouse_rxvt: bool,
    /// Whether it asked for reports of the pointer moving with a button
    /// held.
    pub mouse_btn: bool,
    /// The current colors, red, green and blue in the low 24 bits.
    pub foreground: u32,
    pub background: u32,
}

/// What the interpreter holds, as far as the engine reads it: where its
/// cursor is, how large its screen is, which lines of it scroll, its modes
/// and its colors.
#[derive(Clone, Copy, Debug, PartialEq, Eq, Structural)]
pub struct Bearings {
    pub x: usize,
    pub y: usize,
    pub w: usize,
    pub h: usize,
    pub top_margin: usize,
    pub bottom_margin: usize,
    pub cursor: bool,
    pub mouse_rxvt: bool,
    pub mouse_btn: bool,
    pub foreground: Tone,
    pub background: Tone,
}

/// The bearings that an interpreter holds: the fields of those names of
/// `ransid::Console::state`.
pub uninterp spec fn bearings(term: Interpreter) -> Bearings;

/// One display update as the interpreter hands it out, its colors still in
/// the palette.
pub enum RawEvent {
    Char(usize, usize, char, PaletteColor, bool),
    Input(Vec<u8>),
    Rect(usize, usize, usize, usize, PaletteColor),
    ScreenBuffer(bool, bool),
    Move(usize, usize, usize, usize, usize, usize),
    Resize(usize, usize),
    Title(String),
}

/// The updates that an interpreter reports when it is fed `bytes`: what
/// `ransid::Console::write` hands to its callback, in order.
pub uninterp spec fn reported(term: Interpreter, bytes: Seq<u8>) -> Seq<RawEvent>;

/// The interpreter after it was fed `bytes`: what `ransid::Console::write`
/// leaves of it.
pub uninterp spec fn fed(term: Interpreter, bytes: Seq<u8>) -> Interpreter;

/// The interpreter after it was told that its screen is `w` by `h` cells:
/// what `ransid::Console::resize` leaves of it.
pub uninterp spec fn sized(term: Interpreter, w: usize, h: usize) -> Interpreter;

/// The interpreter after its cursor was put to column `x` of line `y`.
pub uninterp spec fn placed(term: Interpreter, x: usize, y: usize) -> Interpreter;

/// The largest screen, in columns and in lines, that the interpreter is
/// handed output for.
pub const SIZE_LIMIT: usize = 0x3FFF_FFFF;

/// The largest number in a control sequence that the interpreter is handed.
pub const PARAM_LIMIT: u32 = 1_000_000;

/// Whether the interpreter's screen is one that it can be handed output
/// for: it has a line and a column and is not larger than the limit, and
/// the lines that scroll lie on it.
pub open spec fn roomy(b: Bearings) -> bool {
    &&& 1 <= b.h <= SIZE_LIMIT
    &&& 1 <= b.w <= SIZE_LIMIT
    &&& b.top_margin <= b.bottom_margin < b.h
}

/// Whether the interpreter's reckoning stays in bounds from these bearings:
/// the screen is roomy, the cursor is no further right than just behind the
/// last column, and no further down than a scroll can take up.
pub open spec fn steady(b: Bearings) -> bool {
    &&& roomy(b)
    &&& b.x <= b.w
    &&& b.y <= 2 * b.bottom_margin
}

/// The place nearest to the cursor from which the interpreter's reckoning
/// stays in bounds: no further right than just behind the last column, and
/// no further down than a scroll can take up.
pub open spec fn nearest(b: Bearings) -> (usize, usize) {
    (
        if b.x > b.w {
            b.w
        } else {
            b.x
        },
        if b.y > 2 * b.bottom_margin {
            (2 * b.bottom_margin) as usize
        } else {
            b.y
        },
    )
}

/// The largest number that was completed in the first `n` bytes of `s`, and
/// the number that is being read: digits make a number, and `;` ends one.
pub open spec fn param_scan(s: Seq<u8>, n: int) -> (int, int)
    decreases n,
{
    if n <= 0 {
        (0, 0)
    } else {
        let (largest, current) = param_scan(s, n - 1);
        let b = s[n - 1];
        if 0x30 <= b <= 0x39 {
            (largest, current * 10 + (b - 0x30))
        } else if b == 0x3B {
            (
                if current > largest {
                    current
                } else {
                    largest
                },
                0,
            )
        } else {
            (largest, current)
        }
    }
}

/// The largest number that stands in `s`.
pub open spec fn largest_param(s: Seq<u8>) -> int {
    let (largest, current) = param_scan(s, s.len() as int);
    if current > largest {
        current
    } else {
        largest
    }
}

/// Whether `s` is output without an escape sequence in it.
pub open spec fn is_plain(s: Seq<u8>) -> bool {
    forall|i: int| 0 <= i < s.len() ==> s[i] != ESCAPE
}

/// Whether `s` is one whole escape sequence that is neither a control
/// sequence nor a string: the escape, intermediate bytes if any, and a
/// final byte.
pub open spec fn is_escape(s: Seq<u8>) -> bool {
    &&& s.len() >= 2
    &&& s[0] == ESCAPE
    &&& forall|i: int| 1 <= i < s.len() - 1 ==> 0x20 <= #[trigger] s[i] <= 0x2F
    &&& 0x30 <= s[s.len() - 1] <= 0x7E
    &&& s.len() == 2 ==> !begins_longer(s[1])
}

/// Whether the byte after an escape begins a control sequence or a string.
pub open spec fn begins_longer(b: u8) -> bool {
    b == 0x5B || begins_string(b)
}

/// Whether `s` is one whole control sequence that the interpreter can take
/// from the bearings `b`: the escape, `[`, parameter and intermediate
/// bytes, and a final byte; no number in it above the limit; and where it
/// scrolls (finals `S` and `T`), by no more lines than scroll.
pub open spec fn is_control(b: Bearings, s: Seq<u8>) -> bool {
    &&& s.len() >= 3
    &&& s[0] == ESCAPE
    &&& s[1] == 0x5B
    &&& forall|i: int| 2 <= i < s.len() - 1 ==> 0x20 <= #[trigger] s[i] <= 0x3F
    &&& 0x40 <= s[s.len() - 1] <= 0x7E
    &&& largest_param(s) <= PARAM_LIMIT
    &&& (s[s.len() - 1] == 0x53 || s[s.len() - 1] == 0x54) ==> largest_param(s)
        <= b.bottom_margin + 1
}

/// Whether `s` is a string, ended or not: the escape, the byte that says
/// which string, and bytes without an escape among them.
pub open spec fn is_string(s: Seq<u8>) -> bool {
    &&& s.len() >= 2
    &&& s[0] == ESCAPE
    &&& begins_string(s[1])
    &&& forall|i: int| 2 <= i < s.len() ==> s[i] != ESCAPE
}

/// Whether the interpreter can be handed `unit` from the bearings `b`
/// without its reckoning leaving its bounds. The unit begins with a cancel,
/// after which the interpreter is in the middle of nothing, and goes on as
/// plain output, one escape sequence, one control sequence or one string.
pub open spec fn admitted(b: Bearings, unit: Seq<u8>) -> bool {
    &&& steady(b)
    &&& unit.len() >= 1
    &&& unit[0] == CANCEL
    &&& {
        let rest = unit.subrange(1, unit.len() as int);
        is_plain(rest) || is_escape(rest) || is_control(b, rest) || is_string(rest)
    }
}

/// Whether the interpreter can have a screen of `h` lines. It reckons with
/// its lines in signed numbers of the machine's width, and adds two of them
/// at a time.
pub open spec fn lines_allowed(h: usize) -> bool {
    h <= isize::MAX / 2
}

/// The state that the engine reads off bearings: the colors are looked up
/// in the palette.
pub open spec fn told_by(b: Bearings) -> TermState {
    TermState {
        x: b.x,
        y: b.y,
        w: b.w,
        h: b.h,
        cursor: b.cursor,
        mouse_rxvt: b.mouse_rxvt,
        mouse_btn: b.mouse_btn,
        foreground: rgb_of(b.foreground),
        background: rgb_of(b.background),
    }
}

/// What an update of the interpreter says, with its colors looked up in the
/// palette.
pub open spec fn update_of(raw: RawEvent) -> Update {
    match raw {
        RawEvent::Char(x, y, c, color, bold) => Update::Char {
            x,
            y,
            c,
            color: rgb_of(tone(color)),
            bold,
        },
        RawEvent::Input(data) => Update::Input { data: data@ },
        RawEvent::Rect(x, y, w, h, color) => Update::Rect {
            x,
            y,
            w,
            h,
            color: rgb_of(tone(color)),
        },
        RawEvent::ScreenBuffer(alternate, clear) => Update::ScreenBuffer { alternate, clear },
        RawEvent::Move(from_x, from_y, to_x, to_y, w, h) => Update::Move {
            from_x,
            from_y,
            to_x,
            to_y,
            w,
            h,
        },
        RawEvent::Resize(w, h) => Update::Resize { w, h },
        RawEvent::Title(title) => Update::Title { title: title@ },
    }
}

/// What a list of updates of the interpreter says.
pub open spec fn updates_of(raw: Seq<RawEvent>) -> Seq<Update> {
    raw.map_values(|event: RawEvent| update_of(event))
}

/// The interpreter as it is made ready for a unit: where its screen is
/// roomy and its cursor has strayed, the cursor is put to the nearest place
/// from which the reckoning stays in bounds.
pub open spec fn readied(term: Interpreter) -> Interpreter {
    let b = bearings(term);
    if roomy(b) && !steady(b) {
        placed(term, nearest(b).0, nearest(b).1)
    } else {
        term
    }
}

/// The interpreter after it was offered one unit, and the updates that it
/// reported: it is made ready, and is fed the unit if it can take it from
/// its bearings then. A unit that it cannot take is dropped.
pub open spec fn delivered(term: Interpreter, unit: Seq<u8>) -> (Interpreter, Seq<RawEvent>) {
    let ready = readied(term);
    if admitted(bearings(ready), unit) {
        (fed(ready, unit), reported(ready, unit))
    } else {
        (ready, Seq::empty())
    }
}

/// The interpreter after it was offered the first `n` of the units, in
/// order, and the updates that it reported.
pub open spec fn delivered_all(term: Interpreter, units: Seq<Seq<u8>>, n: int) -> (
    Interpreter,
    Seq<RawEvent>,
)
    decreases n,
{
    if n <= 0 {
        (term, Seq::empty())
    } else {
        let (before, raw) = delivered_all(term, units, n - 1);
        let (after, more) = delivered(before, units[n - 1]);
        (after, raw + more)
    }
}

/// What a terminal is: the interpreter, and the end of the shell's output
/// so far where that is the beginning of a sequence or of a character.
pub struct TerminalView {
    pub term: Interpreter,
    pub held: Seq<u8>,
}

impl TerminalView {
    /// What the interpreter tells of its state.
    pub open spec fn told(self) -> TermState {
        told_by(bearings(self.term))
    }

    /// The units that `bytes` are cut into, after what was held back.
    pub open spec fn units(self, bytes: Seq<u8>) -> Seq<Seq<u8>> {
        Cutting::of(self.held, bytes).units
    }

    /// The terminal after the shell wrote `bytes`: the output is cut into
    /// units after what was held back, the interpreter is offered the
    /// units in order, and what the output ends in the middle of is held
    /// back.
    pub open spec fn after(self, bytes: Seq<u8>) -> TerminalView {
        TerminalView {
            term: delivered_all(self.term, self.units(bytes), self.units(bytes).len() as int).0,
            held: Cutting::of(self.held, bytes).held,
        }
    }

    /// The terminal after it was told that the screen is `w` by `h` cells:
    /// what is held back stays.
    pub open spec fn sized(self, w: usize, h: usize) -> TerminalView {
        TerminalView { term: sized(self.term, w, h), ..self }
    }

    /// The display updates that the shell's output `bytes` gives, in order.
    pub open spec fn updates(self, bytes: Seq<u8>) -> Seq<Update> {
        updates_of(
            delivered_all(self.term, self.units(bytes), self.units(bytes).len() as int).1,
        )
    }
}

/// The interpreter, and the end of the shell's output so far where that is
/// the beginning of a sequence or of a character. Only the functions of
/// this file make one and hand it output, so that an interpreter is never
/// handed anything that was not let through.
pub struct Terminal {
    term: Interpreter,
    held: Vec<u8>,
}

impl View for Terminal {
    type V = TerminalView;

    closed spec fn view(&self) -> TerminalView {
        TerminalView { term: self.term, held: self.held@ }
    }
}

impl Terminal {
    /// The bytes that are held back until the rest of their sequence or
    /// character comes.
    pub fn held(&self) -> (bytes: &Vec<u8>)
        ensures
            bytes@ == self@.held,
    {
        &self.held
    }
}

/// `ransid::Console::new`, with the fields that `State::new` gives the new
/// interpreter: a screen of `w` by `h` cells that scrolls as a whole, the
/// cursor shown in the top left cell, no mouse reports asked for, and the
/// colors 7 on 0.
#[verifier::external_body]
fn start(w: usize, h: usize) -> (term: Interpreter)
    requires
        lines_allowed(h),
    ensures
        bearings(term) == (Bearings {
            x: 0,
            y: 0,
            w,
            h,
            top_margin: 0,
            bottom_margin: if h > 0 {
                (h - 1) as usize
            } else {
                0
            },
            cursor: true,
            mouse_rxvt: false,
            mouse_btn: false,
            foreground: Tone::Ansi(7),
            background: Tone::Ansi(0),
        }),
{
    Interpreter::new(w, h)
}

/// `ransid::Console::resize`: the interpreter is told that the screen is
/// now `w` by `h` cells. The interpreter afterwards goes by the one before
/// and the size alone, and is named `sized`. That is the size of its screen
/// from then on; its cursor, modes and colors stay as they are. Of the
/// lines that scroll nothing more is claimed.
#[verifier::external_body]
fn resize(term: &mut Interpreter, w: usize, h: usize)
    requires
        lines_allowed(h),
    ensures
        *final(term) == sized(*old(term), w, h),
        bearings(*final(term)) == (Bearings {
            w,
            h,
            top_margin: bearings(*final(term)).top_margin,
            bottom_margin: bearings(*final(term)).bottom_margin,
            ..bearings(*old(term))
        }),
{
    term.resize(w, h)
}

/// `ransid::Console::write`: feeds `bytes` to the interpreter and collects
/// the updates it reports, in order. Both the updates and the interpreter
/// afterwards go by the interpreter before and the bytes alone; they are
/// named `reported` and `fed`, and nothing more is claimed of either.
///
/// The interpreter reckons with cursor, margins and the numbers of control
/// sequences without checking, so it is handed only what `admitted` lets
/// through. From steady bearings plain output scrolls by one line at a
/// time; an escape sequence moves the cursor by one line at most; a control
/// sequence is one call with numbers that are bounded, and scrolls by no
/// more lines than there are. The cancel at the front makes all of this
/// hold whatever the interpreter was handed before.
#[verifier::external_body]
fn interpret(term: &mut Interpreter, bytes: &[u8]) -> (events: Vec<RawEvent>)
    requires
        admitted(bearings(*old(term)), bytes@),
    ensures
        events@ == reported(*old(term), bytes@),
        *final(term) == fed(*old(term), bytes@),
{
    let mut events = Vec::new();
    term.write(bytes, |event| events.push(match event {
        Reported::Char { x, y, c, color, bold, .. } => RawEvent::Char(x, y, c, color, bold),
        Reported::Input { data } => RawEvent::Input(data.to_vec()),
        Reported::Rect { x, y, w, h, color } => RawEvent::Rect(x, y, w, h, color),
        Reported::ScreenBuffer { alternate, clear } => RawEvent::ScreenBuffer(alternate, clear),
        Reported::Move { from_x, from_y, to_x, to_y, w, h } => RawEvent::Move(from_x, from_y, to_x, to_y, w, h),
        Reported::Resize { w, h } => RawEvent::Resize(w, h),
        Reported::Title { title } => RawEvent::Title(title),
    }));
    events
}

/// Reads the fields of `ransid::Console::state` that the engine goes by.
#[verifier::external_body]
fn sight(term: &Interpreter) -> (b: Bearings)
    ensures
        b == bearings(*term),
{
    Bearings {
        x: term.state.x,
        y: term.state.y,
        w: term.state.w,
        h: term.state.h,
        top_margin: term.state.top_margin,
        bottom_margin: term.state.bottom_margin,
        cursor: term.state.cursor,
        mouse_rxvt: term.state.mouse_rxvt,
        mouse_btn: term.state.mouse_btn,
        foreground: match term.state.foreground { PaletteColor::Ansi(v) => Tone::Ansi(v), PaletteColor::TrueColor(r, g, b) => Tone::True(r, g, b) },
        background: match term.state.background { PaletteColor::Ansi(v) => Tone::Ansi(v), PaletteColor::TrueColor(r, g, b) => Tone::True(r, g, b) },
    }
}

/// Writes the fields `x` and `y` of `ransid::Console::state`: the cursor is
/// put to column `x` of line `y`, and nothing else changes.
#[verifier::external_body]
fn place(term: &mut Interpreter, x: usize, y: usize)
    ensures
        *final(term) == placed(*old(term), x, y),
        bearings(*final(term)) == (Bearings { x, y, ..bearings(*old(term)) }),
{
    term.state.x = x;
    term.state.y = y;
}

/// Tells the two kinds of `ransid::Color` apart.
#[verifier::external_body]
fn tone_of(color: PaletteColor) -> (held: Tone)
    ensures
        held == tone(color),
{
    match color {
        PaletteColor::Ansi(value) => Tone::Ansi(value),
        PaletteColor::TrueColor(r, g, b) => Tone::True(r, g, b),
    }
}

/// `ransid::Color::as_rgb`: the palette color as red, green and blue. A
/// color that is given as red, green and blue is those three, below a top
/// byte of ones.
#[verifier::external_body]
fn palette_rgb(tone: Tone) -> (rgb: u32)
    ensures
        rgb == rgb_of(tone),
        tone matches Tone::True(r, g, b) ==> rgb == 0xFF00_0000u32 | ((r as u32) << 16) | ((
        g as u32) << 8) | (b as u32),
{
    match tone {
        Tone::Ansi(value) => PaletteColor::Ansi(value),
        Tone::True(r, g, b) => PaletteColor::TrueColor(r, g, b),
    }.as_rgb()
}

/// Looks the colors of an update up in the palette.
pub(crate) fn resolve(raw: &RawEvent) -> (event: DisplayEvent)
    ensures
        event@ == update_of(*raw),
{
    match raw {
        RawEvent::Char(x, y, c, color, bold) => DisplayEvent::Char {
            x: *x,
            y: *y,
            c: *c,
            color: palette_rgb(tone_of(*color)),
            bold: *bold,
        },
        RawEvent::Input(data) => DisplayEvent::Input { data: data.clone() },
        RawEvent::Rect(x, y, w, h, color) => DisplayEvent::Rect {
            x: *x,
            y: *y,
            w: *w,
            h: *h,
            color: palette_rgb(tone_of(*color)),
        },
        RawEvent::ScreenBuffer(alternate, clear) => DisplayEvent::ScreenBuffer {
            alternate: *alternate,
            clear: *clear,
        },
        RawEvent::Move(from_x, from_y, to_x, to_y, w, h) => DisplayEvent::Move {
            from_x: *from_x,
            from_y: *from_y,
            to_x: *to_x,
            to_y: *to_y,
            w: *w,
            h: *h,
        },
        RawEvent::Resize(w, h) => DisplayEvent::Resize { w: *w, h: *h },
        RawEvent::Title(title) => DisplayEvent::Title { title: title.clone() },
    }
}

/// Looks the colors of a list of updates up in the palette.
pub(crate) fn resolve_all(raw: &Vec<RawEvent>) -> (events: Vec<DisplayEvent>)
    ensures
        update_views(events@) == updates_of(raw@),
{
    let mut events: Vec<DisplayEvent> = Vec::new();
    let mut i: usize = 0;
    while i < raw.len()
        invariant
            i <= raw.len(),
            events@.len() == i,
            forall|j: int| 0 <= j < i ==> (#[trigger] events@[j])@ == update_of(raw@[j]),
        decreases raw.len() - i,
    {
        events.push(resolve(&raw[i]));
        i += 1;
    }
    assert(update_views(events@) =~= updates_of(raw@));
    events
}

/// Reads the interpreter's bearings and looks its colors up.
fn read(term: &Interpreter) -> (state: TermState)
    ensures
        state == told_by(bearings(*term)),
{
    let b = sight(term);
    TermState {
        x: b.x,
        y: b.y,
        w: b.w,
        h: b.h,
        cursor: b.cursor,
        mouse_rxvt: b.mouse_rxvt,
        mouse_btn: b.mouse_btn,
        foreground: palette_rgb(b.foreground),
        background: palette_rgb(b.background),
    }
}

/// Reads the interpreter's state and looks its colors up.
pub(crate) fn state_of(terminal: &Terminal) -> (state: TermState)
    ensures
        state == terminal@.told(),
{
    read(&terminal.term)
}

/// Makes a terminal for a screen of `w` by `h` cells: the interpreter has a
/// screen of that size, the cursor shown in the top left cell, no mouse
/// reports asked for and the colors 7 on 0, and nothing is held back.
pub(crate) fn begin(w: usize, h: usize) -> (terminal: Terminal)
    requires
        lines_allowed(h),
    ensures
        terminal@.held.len() == 0,
        terminal@.told() == (TermState {
            x: 0,
            y: 0,
            w,
            h,
            cursor: true,
            mouse_rxvt: false,
            mouse_btn: false,
            foreground: rgb_of(Tone::Ansi(7)),
            background: rgb_of(Tone::Ansi(0)),
        }),
{
    Terminal { term: start(w, h), held: Vec::new() }
}

/// Tells the interpreter that the screen is now `w` by `h` cells. Its
/// screen is of that size from then on; cursor, modes and colors stay, and
/// so does what is held back.
pub(crate) fn resized(terminal: &mut Terminal, w: usize, h: usize)
    requires
        lines_allowed(h),
    ensures
        final(terminal)@ == old(terminal)@.sized(w, h),
        final(terminal)@.told() == (TermState { w, h, ..old(terminal)@.told() }),
{
    resize(&mut terminal.term, w, h);
}

/// Decides whether the interpreter's screen is roomy.
pub fn is_roomy(b: &Bearings) -> (ok: bool)
    ensures
        ok == roomy(*b),
{
    1 <= b.h && b.h <= SIZE_LIMIT && 1 <= b.w && b.w <= SIZE_LIMIT && b.top_margin
        <= b.bottom_margin && b.bottom_margin < b.h
}

/// Decides whether the bearings are steady.
pub fn is_steady(b: &Bearings) -> (ok: bool)
    ensures
        ok == steady(*b),
{
    is_roomy(b) && b.x <= b.w && b.y <= 2 * b.bottom_margin
}

/// Finds the place nearest to the cursor from which the interpreter's
/// reckoning stays in bounds.
pub fn put_back(b: &Bearings) -> (to: (usize, usize))
    requires
        roomy(*b),
    ensures
        to == nearest(*b),
        steady(Bearings { x: to.0, y: to.1, ..*b }),
{
    (
        if b.x > b.w {
            b.w
        } else {
            b.x
        },
        if b.y > 2 * b.bottom_margin {
            2 * b.bottom_margin
        } else {
            b.y
        },
    )
}

/// The larger of the two numbers of a scan.
pub open spec fn scan_max(scan: (int, int)) -> int {
    if scan.1 > scan.0 {
        scan.1
    } else {
        scan.0
    }
}

/// The largest number only grows as more bytes are read.
proof fn lemma_scan_grows(s: Seq<u8>, m: int, n: int)
    requires
        0 <= m <= n,
    ensures
        0 <= param_scan(s, m).0,
        0 <= param_scan(s, m).1,
        scan_max(param_scan(s, m)) <= scan_max(param_scan(s, n)),
    decreases n,
{
    if m > 0 {
        lemma_scan_grows(s, m - 1, m - 1);
    }
    if m < n {
        lemma_scan_grows(s, m, n - 1);
        lemma_scan_grows(s, n - 1, n - 1);
    }
}

/// Whether `s` from byte `from` on holds no escape.
fn no_escape(s: &[u8], from: usize) -> (none: bool)
    requires
        from <= s@.len(),
    ensures
        none == (forall|i: int| from <= i < s@.len() ==> s@[i] != ESCAPE),
{
    let mut i: usize = from;
    while i < s.len()
        invariant
            from <= i <= s@.len(),
            forall|j: int| from <= j < i ==> s@[j] != ESCAPE,
        decreases s@.len() - i,
    {
        if s[i] == ESCAPE {
            return false;
        }
        i += 1;
    }
    true
}

/// Whether the bytes of `s` from `from` up to `to` all lie from `low` to
/// `high`.
fn all_within(s: &[u8], from: usize, to: usize, low: u8, high: u8) -> (all: bool)
    requires
        from <= to <= s@.len(),
    ensures
        all == (forall|i: int| from <= i < to ==> low <= #[trigger] s@[i] <= high),
{
    let mut i: usize = from;
    while i < to
        invariant
            from <= i <= to <= s@.len(),
            forall|j: int| from <= j < i ==> low <= #[trigger] s@[j] <= high,
        decreases to - i,
    {
        if !(low <= s[i] && s[i] <= high) {
            return false;
        }
        i += 1;
    }
    true
}

/// The largest number that stands in `s`, or none where it is above the
/// limit.
fn largest_number(s: &[u8]) -> (most: Option<u32>)
    ensures
        match most {
            Some(n) => n == largest_param(s@) && n <= PARAM_LIMIT,
            None => largest_param(s@) > PARAM_LIMIT,
        },
{
    let mut largest: u32 = 0;
    let mut current: u32 = 0;
    let mut j: usize = 0;
    while j < s.len()
        invariant
            j <= s@.len(),
            largest <= PARAM_LIMIT,
            current <= PARAM_LIMIT,
            param_scan(s@, j as int) == (largest as int, current as int),
        decreases s@.len() - j,
    {
        let b = s[j];
        if 0x30 <= b && b <= 0x39 {
            let next: u64 = current as u64 * 10 + (b - 0x30) as u64;
            if next > PARAM_LIMIT as u64 {
                proof {
                    assert(param_scan(s@, j + 1).1 == next);
                    lemma_scan_grows(s@, j + 1, s@.len() as int);
                }
                return None;
            }
            current = next as u32;
        } else if b == 0x3B {
            if current > largest {
                largest = current;
            }
            current = 0;
        }
        j += 1;
    }
    Some(
        if current > largest {
            current
        } else {
            largest
        },
    )
}

/// Decides whether `s` is one whole escape sequence.
fn check_escape(s: &[u8]) -> (ok: bool)
    ensures
        ok == is_escape(s@),
{
    let n = s.len();
    if n < 2 || s[0] != ESCAPE {
        return false;
    }
    let last = s[n - 1];
    if !(0x30 <= last && last <= 0x7E) {
        return false;
    }
    if n == 2 && (last == 0x5B || is_string_start(last)) {
        return false;
    }
    all_within(s, 1, n - 1, 0x20, 0x2F)
}

/// Decides whether `s` is one whole control sequence that the interpreter
/// can take from the bearings `b`.
fn check_control(b: &Bearings, s: &[u8]) -> (ok: bool)
    requires
        b.bottom_margin < SIZE_LIMIT,
    ensures
        ok == is_control(*b, s@),
{
    let n = s.len();
    if n < 3 || s[0] != ESCAPE || s[1] != 0x5B {
        return false;
    }
    let last = s[n - 1];
    if !(0x40 <= last && last <= 0x7E) {
        return false;
    }
    if !all_within(s, 2, n - 1, 0x20, 0x3F) {
        return false;
    }
    match largest_number(s) {
        Some(most) => !((last == 0x53 || last == 0x54) && most as usize > b.bottom_margin + 1),
        None => false,
    }
}

/// Decides whether `s` is a string.
fn check_string(s: &[u8]) -> (ok: bool)
    ensures
        ok == is_string(s@),
{
    let n = s.len();
    if n < 2 || s[0] != ESCAPE || !is_string_start(s[1]) {
        return false;
    }
    no_escape(s, 2)
}

/// Decides whether the interpreter can be handed `unit` from the bearings
/// `b`.
pub fn vet(b: &Bearings, unit: &Vec<u8>) -> (ok: bool)
    ensures
        ok == admitted(*b, unit@),
{
    if !is_steady(b) {
        return false;
    }
    if unit.len() < 1 || unit[0] != CANCEL {
        return false;
    }
    let rest = vstd::slice::slice_subrange(unit.as_slice(), 1, unit.len());
    no_escape(rest, 0) || check_escape(rest) || check_control(b, rest) || check_string(rest)
}

/// Offers one unit to the interpreter and collects the updates. A cursor
/// that has strayed beyond what the interpreter can reckon with is put back
/// to the nearest place first; a unit that the interpreter cannot take is
/// dropped.
fn deliver(term: &mut Interpreter, unit: &Vec<u8>, raw: &mut Vec<RawEvent>)
    ensures
        *final(term) == delivered(*old(term), unit@).0,
        final(raw)@ == old(raw)@ + delivered(*old(term), unit@).1,
{
    let mut b = sight(term);
    if is_roomy(&b) && !is_steady(&b) {
        let to = put_back(&b);
        place(term, to.0, to.1);
        b = sight(term);
    }
    if vet(&b, unit) {
        let mut events = interpret(term, unit.as_slice());
        raw.append(&mut events);
    } else {
        assert(raw@ =~= old(raw)@ + Seq::<RawEvent>::empty());
    }
}

/// Feeds the shell's output `bytes` to the interpreter and returns its
/// updates, in order. What the output ends in the middle of is held back
/// until more comes.
pub(crate) fn feed(terminal: &mut Terminal, bytes: &[u8]) -> (events: Vec<DisplayEvent>)
    ensures
        final(terminal)@ == old(terminal)@.after(bytes@),
        update_views(events@) == old(terminal)@.updates(bytes@),
        final(terminal)@.held == Cutting::of(old(terminal)@.held, bytes@).held,
{
    let units = cut(&mut terminal.held, bytes);
    let ghost all = unit_views(units@);
    let mut raw: Vec<RawEvent> = Vec::new();
    let mut i: usize = 0;
    while i < units.len()
        invariant
            i <= units@.len(),
            all == unit_views(units@),
            terminal.held@ == Cutting::of(old(terminal)@.held, bytes@).held,
            (terminal.term, raw@) == delivered_all(old(terminal)@.term, all, i as int),
        decreases units@.len() - i,
    {
        assert(all[i as int] == units@[i as int]@);
        deliver(&mut terminal.term, &units[i], &mut raw);
        i += 1;
    }
    resolve_all(&raw)
}

} // verus!
