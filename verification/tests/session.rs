use orbterm::before_exec::{before_exec, PreExec, PreExecCall};
use orbterm::config::Config;
use orbterm::console::Console;
use orbterm::event::{Command, InputEvent};
use orbterm::geometry::Geometry;
use orbterm::pty::Winsize;
use orbterm::session::{handle, has_input, split_packet, Action, LoopEvent};

fn console() -> Console {
    let mut console = Console::new(640, 384, 8, 16);
    console.take_commands();
    console
}

fn window(event: InputEvent) -> LoopEvent<'static> {
    LoopEvent::Window { event, window_width: 640, window_height: 384 }
}

#[test]
fn closing_the_window_stops_the_session() {
    let mut console = console();
    assert_eq!(handle(&mut console, window(InputEvent::Quit)), Action::Stop);
    assert!(console.take_commands().is_empty());
}

#[test]
fn key_goes_to_the_shell_and_the_loop_goes_on() {
    let mut console = console();
    assert!(!has_input(&console));
    let action = handle(
        &mut console,
        window(InputEvent::Key { character: 'l', scancode: 0x26, pressed: true }),
    );
    assert_eq!(action, Action::Continue);
    assert!(has_input(&console));
    assert_eq!(console.input, b"l".to_vec());
    assert_eq!(handle(&mut console, LoopEvent::Sent { ok: true }), Action::Continue);
    assert!(!has_input(&console));
    assert!(console.input.is_empty());
}

#[test]
fn failed_write_stops_the_session_and_keeps_the_bytes() {
    let mut console = console();
    console.input.extend_from_slice(b"abc");
    assert_eq!(handle(&mut console, LoopEvent::Sent { ok: false }), Action::Stop);
    assert_eq!(console.input, b"abc".to_vec());
}

#[test]
fn resized_window_tells_the_shell_its_new_size() {
    let mut console = console();
    let action = handle(&mut console, window(InputEvent::Resize { width: 800, height: 480 }));
    assert_eq!(action, Action::SetWinsize(Winsize { ws_row: 30, ws_col: 100 }));
    assert_eq!((console.width, console.height), (100, 30));
    let again = handle(&mut console, window(InputEvent::Resize { width: 807, height: 495 }));
    assert_eq!(again, Action::Continue);
    let rows_only = handle(&mut console, window(InputEvent::Resize { width: 800, height: 496 }));
    assert_eq!(rows_only, Action::SetWinsize(Winsize { ws_row: 31, ws_col: 100 }));
}

#[test]
fn changed_cell_size_tells_the_shell_its_new_size() {
    let mut console = console();
    handle(&mut console, window(InputEvent::Key { character: '\0', scancode: 0x1D, pressed: true }));
    let action = handle(
        &mut console,
        window(InputEvent::Key { character: '+', scancode: 0x4E, pressed: true }),
    );
    assert_eq!(action, Action::SetWinsize(Winsize { ws_row: 21, ws_col: 71 }));
}

#[test]
fn output_is_drawn_and_shown() {
    let mut console = console();
    let action = handle(&mut console, LoopEvent::Output { data: b"hi", flush: true });
    assert_eq!(action, Action::Continue);
    assert_eq!(console.grid[0].c, 'h');
    assert_eq!(console.grid[1].c, 'i');
    assert!(console.changed.is_empty());
    let commands = console.take_commands();
    assert_eq!(commands[commands.len() - 2..], [Command::Sync, Command::Sync]);
    handle(&mut console, LoopEvent::Output { data: b"!", flush: false });
    let commands = console.take_commands();
    assert_eq!(commands.iter().filter(|command| **command == Command::Sync).count(), 1);
    assert_eq!(console.grid[2].c, '!');
}

#[test]
fn output_that_asks_a_question_leaves_an_answer_to_send() {
    let mut console = console();
    handle(&mut console, LoopEvent::Output { data: b"\x1b[6n", flush: true });
    assert!(has_input(&console));
    assert_eq!(console.input, b"\x1b[1;1R".to_vec());
}

#[test]
fn closed_terminal_and_ended_shell_stop_the_session() {
    let mut console = console();
    assert_eq!(handle(&mut console, LoopEvent::Closed), Action::Stop);
    assert_eq!(handle(&mut console, LoopEvent::Idle), Action::Continue);
    assert_eq!(handle(&mut console, LoopEvent::Child { exited: false }), Action::Continue);
    assert_eq!(handle(&mut console, LoopEvent::Child { exited: true }), Action::Stop);
    assert!(console.take_commands().is_empty());
    assert!(console.input.is_empty());
}

#[test]
fn split_packet_takes_the_flag_off_the_front() {
    let packet = [1u8, b'a', b'b', b'c', 0, 0];
    assert_eq!(split_packet(&packet, 4), (true, &b"abc"[..]));
    assert_eq!(split_packet(&packet, 1), (true, &b""[..]));
    let packet = [0xFEu8, b'x', b'y'];
    assert_eq!(split_packet(&packet, 3), (false, &b"xy"[..]));
    let packet = [3u8, b'x'];
    assert_eq!(split_packet(&packet, 2), (true, &b"x"[..]));
}

#[test]
fn winsize_takes_the_low_sixteen_bits() {
    assert_eq!(Winsize::new(80, 24), Winsize { ws_row: 24, ws_col: 80 });
    assert_eq!(Winsize::new(0, 0), Winsize { ws_row: 0, ws_col: 0 });
    assert_eq!(Winsize::new(65535, 65536), Winsize { ws_row: 0, ws_col: 65535 });
    assert_eq!(Winsize::new(65536 + 5, 3 * 65536 + 7), Winsize { ws_row: 7, ws_col: 5 });
    assert_eq!(Winsize::new(70000, 24).ws_col, 70000u32 as u16);
}

#[test]
fn before_exec_makes_both_calls_in_order() {
    assert_eq!(before_exec(None), PreExec::Call(PreExecCall::NewSession));
    assert_eq!(
        before_exec(Some((PreExecCall::NewSession, 0))),
        PreExec::Call(PreExecCall::ControllingTerminal)
    );
    assert_eq!(
        before_exec(Some((PreExecCall::NewSession, 4711))),
        PreExec::Call(PreExecCall::ControllingTerminal)
    );
    assert_eq!(before_exec(Some((PreExecCall::ControllingTerminal, 0))), PreExec::Done);
}

#[test]
fn before_exec_gives_up_at_the_first_failure() {
    assert_eq!(
        before_exec(Some((PreExecCall::NewSession, -1))),
        PreExec::Failed(PreExecCall::NewSession)
    );
    assert_eq!(
        before_exec(Some((PreExecCall::ControllingTerminal, -1))),
        PreExec::Failed(PreExecCall::ControllingTerminal)
    );
    assert_eq!(
        before_exec(Some((PreExecCall::ControllingTerminal, i32::MIN))),
        PreExec::Failed(PreExecCall::ControllingTerminal)
    );
}

#[test]
fn geometry_scales_with_the_display() {
    assert_eq!(
        Geometry::new(1920, 1080),
        Geometry { block_width: 8, block_height: 16, columns: 128, lines: 48 }
    );
    assert_eq!(
        Geometry::new(3840, 2160),
        Geometry { block_width: 16, block_height: 32, columns: 128, lines: 48 }
    );
    assert_eq!(
        Geometry::new(800, 600),
        Geometry { block_width: 8, block_height: 16, columns: 80, lines: 30 }
    );
    assert_eq!(
        Geometry::new(640, 1599),
        Geometry { block_width: 8, block_height: 16, columns: 64, lines: 48 }
    );
    assert_eq!(
        Geometry::new(0, 0),
        Geometry { block_width: 8, block_height: 16, columns: 0, lines: 0 }
    );
    assert_eq!(
        Geometry::new(u32::MAX, u32::MAX),
        Geometry {
            block_width: 8 * 2_684_355,
            block_height: 16 * 2_684_355,
            columns: 128,
            lines: 48,
        }
    );
}

#[test]
fn default_config_names_no_font() {
    let config = Config::default();
    assert_eq!(config.font, "");
    assert_eq!(config.font_bold, "");
    assert_eq!(config, Config { font: String::new(), font_bold: String::new() });
}

#[test]
fn output_in_two_packets_shows_as_in_one() {
    let output: &[u8] = b"one \x1b[1;32mtwo\x1b[0m \xe2\x82\xac\r\n\x1b[2;5Hthree\x1b]0;name\x07!";
    let mut whole = console();
    handle(&mut whole, LoopEvent::Output { data: output, flush: true });
    for at in 1..output.len() {
        let mut pieces = console();
        handle(&mut pieces, LoopEvent::Output { data: &output[..at], flush: false });
        handle(&mut pieces, LoopEvent::Output { data: &output[at..], flush: true });
        assert_eq!(pieces.grid, whole.grid, "split at {}", at);
        assert_eq!(pieces.state, whole.state, "split at {}", at);
        assert_eq!(*pieces.ransid.held(), *whole.ransid.held());
    }
    assert_eq!(whole.grid[0].c, 'o');
    assert_eq!(whole.grid[4].c, 't');
    assert_eq!(whole.grid[8].c, '\u{20ac}');
    assert_eq!(whole.grid[80 + 4].c, 't');
    assert_eq!(whole.grid[80 + 9].c, '!');
}
