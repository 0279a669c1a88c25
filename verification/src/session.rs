//! The decisions of the session loop.
//!
//! The loop waits for the window and for the pseudo-terminal, and whatever
//! happens it reports to `handle`, which changes the console and says what
//! the loop does next. The loop does the reading, the writing and the
//! waiting; it decides nothing.

use vstd::prelude::*;
use crate::console::Console;
use crate::event::InputEvent;
use crate::framing::{held_character, held_sequence, lemma_pieces_pass_as_one, passed};
use crate::interpreter::TermState;
use crate::pty::Winsize;
use crate::screen::{lemma_output_reaches_terminal, Screen};

verus! {

/// Something that the session loop has seen.
#[derive(Clone, Copy, Debug)]
pub enum LoopEvent<'a> {
    /// The window had an input event, and is `window_width` by
    /// `window_height` pixels.
    Window { event: InputEvent, window_width: u32, window_height: u32 },
    /// The shell has written `data`. With `flush` the surface is to be
    /// shown whether a row changed or not.
    Output { data: &'a [u8], flush: bool },
    /// The shell has closed its side of the pseudo-terminal.
    Closed,
    /// The pseudo-terminal has nothing to read for now.
    Idle,
    /// The bytes on their way to the shell were written (`ok`), or writing
    /// them failed.
    Sent { ok: bool },
    /// The shell has ended (`exited`), or it still runs.
    Child { exited: bool },
}

/// What the session loop does next.
#[derive(Clone, Copy, Debug, PartialEq, Eq, Structural)]
pub enum Action {
    /// Go on.
    Continue,
    /// Tell the pseudo-terminal its new size, and go on.
    SetWinsize(Winsize),
    /// End the session: stop the shell if it still runs, and wait for it.
    Stop,
}

/// What the loop does after a window event that was not the window
/// closing: where the interpreter's screen has changed its size the shell
/// is told.
pub open spec fn size_action(before: TermState, after: TermState) -> Action {
    if before.w != after.w || before.h != after.h {
        Action::SetWinsize(Winsize::of(after.w, after.h))
    } else {
        Action::Continue
    }
}

/// The screen after the output `bytes` of the shell was taken and shown
/// and, with `flush`, shown whether a row changed or not.
pub open spec fn output_taken(before: Screen, bytes: Seq<u8>, flush: bool) -> Screen {
    let written = before.wrote(bytes, true);
    if flush {
        written.redrawn()
    } else {
        written
    }
}

/// The shell's output reaches the interpreter in order with nothing lost,
/// in however many packets it comes: after two packets in a row, neither of
/// them empty, the units
/// that were cut off hand on, together with the beginning of a character
/// that is held back, the same bytes in the same order as the units of the
/// two packets as one, and the same sequence is held back.
pub proof fn lemma_packets_pass_as_one(
    before: Screen,
    first: Seq<u8>,
    rest: Seq<u8>,
    flush_first: bool,
    flush_rest: bool,
)
    requires
        first.len() > 0,
        rest.len() > 0,
    ensures
        ({
            let between = output_taken(before, first, flush_first);
            let after = output_taken(between, rest, flush_rest);
            let whole = output_taken(before, first + rest, flush_rest);
            &&& passed(before.terminal.units(first)) + passed(between.terminal.units(rest))
                + held_character(after.terminal.held) == passed(
                before.terminal.units(first + rest),
            ) + held_character(whole.terminal.held)
            &&& held_sequence(after.terminal.held) == held_sequence(whole.terminal.held)
        }),
{
    lemma_pieces_pass_as_one(before.terminal.held, first, rest);
    lemma_output_reaches_terminal(before, first, true);
    lemma_output_reaches_terminal(before, first + rest, true);
    lemma_output_reaches_terminal(output_taken(before, first, flush_first), rest, true);
}

/// Whether the console `after` and the action are what follows from the
/// console `before` and the event.
pub open spec fn follows(before: Screen, event: LoopEvent, after: Screen, action: Action)
    -> bool {
    match event {
        LoopEvent::Window { event, window_width, window_height } => {
            &&& after == before.after_input(event, window_width, window_height)
            &&& action == if event is Quit {
                Action::Stop
            } else {
                size_action(before.state, after.state)
            }
        },
        LoopEvent::Output { data, flush } => {
            &&& after == output_taken(before, data@, flush)
            &&& action == Action::Continue
        },
        LoopEvent::Closed => after == before && action == Action::Stop,
        LoopEvent::Idle => after == before && action == Action::Continue,
        LoopEvent::Sent { ok } => if ok {
            after == (Screen { input: Seq::empty(), ..before }) && action == Action::Continue
        } else {
            after == before && action == Action::Stop
        },
        LoopEvent::Child { exited } => after == before && action == if exited {
            Action::Stop
        } else {
            Action::Continue
        },
    }
}

/// Whether the loop has bytes to write to the shell before it looks at the
/// shell's state.
pub fn has_input(console: &Console) -> (pending: bool)
    ensures
        pending == (console@.input.len() > 0),
{
    console.input.len() > 0
}

/// Takes one event of the session loop and says what the loop does next.
///
/// A closed window, a closed pseudo-terminal, a failed write and an ended
/// shell all end the session. Input events go to the console, and the
/// shell is told where they changed the size of the screen. The shell's
/// output goes to the console and is shown. Bytes that were written are
/// forgotten.
pub fn handle(console: &mut Console, event: LoopEvent) -> (action: Action)
    requires
        old(console)@.wf(),
    ensures
        follows(old(console)@, event, final(console)@, action),
        final(console)@.wf(),
{
    match event {
        LoopEvent::Window { event, window_width, window_height } => {
            let before = console.state;
            console.input(event, window_width, window_height);
            match event {
                InputEvent::Quit => Action::Stop,
                _ => {
                    if before.w != console.state.w || before.h != console.state.h {
                        Action::SetWinsize(Winsize::new(console.state.w, console.state.h))
                    } else {
                        Action::Continue
                    }
                },
            }
        },
        LoopEvent::Output { data, flush } => {
            let _ = console.write(data, true);
            if flush {
                console.redraw();
            }
            Action::Continue
        },
        LoopEvent::Closed => Action::Stop,
        LoopEvent::Idle => Action::Continue,
        LoopEvent::Sent { ok } => {
            if ok {
                console.input.clear();
                assert(console@ =~= (Screen { input: Seq::empty(), ..old(console)@ }));
                Action::Continue
            } else {
                Action::Stop
            }
        },
        LoopEvent::Child { exited } => {
            if exited {
                Action::Stop
            } else {
                Action::Continue
            }
        },
    }
}

/// Splits a packet of the pseudo-terminal that carries its flags in its
/// first byte: the shell's output is what follows that byte, and the lowest
/// bit of the byte asks for the surface to be shown.
pub fn split_packet(packet: &[u8], count: usize) -> (parts: (bool, &[u8]))
    requires
        1 <= count <= packet@.len(),
    ensures
        parts.0 == (packet@[0] & 1 == 1),
        parts.1@ == packet@.subrange(1, count as int),
{
    let flush = packet[0] & 1 == 1;
    let data = vstd::slice::slice_subrange(packet, 1, count);
    (flush, data)
}

} // verus!
