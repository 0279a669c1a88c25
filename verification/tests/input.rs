use orbterm::console::Console;
use orbterm::event::{Command, InputEvent};
use orbterm::keys::{
    action_of, cell_of_pointer, push_char, push_decimal, push_key, push_mouse_report, KeyAction,
};

const WIDTH: u32 = 640;
const HEIGHT: u32 = 384;

fn console() -> Console {
    let mut console = Console::new(WIDTH, HEIGHT, 8, 16);
    console.take_commands();
    console
}

fn key(console: &mut Console, character: char, scancode: u8) {
    console.input(InputEvent::Key { character, scancode, pressed: true }, WIDTH, HEIGHT);
    console.input(InputEvent::Key { character, scancode, pressed: false }, WIDTH, HEIGHT);
}

fn hold_ctrl(console: &mut Console) {
    console.input(InputEvent::Key { character: '\0', scancode: 0x1D, pressed: true }, WIDTH, HEIGHT);
}

fn hold_shift(console: &mut Console) {
    console.input(InputEvent::Key { character: '\0', scancode: 0x2A, pressed: true }, WIDTH, HEIGHT);
}

fn release_shift(console: &mut Console) {
    console.input(
        InputEvent::Key { character: '\0', scancode: 0x2A, pressed: false },
        WIDTH,
        HEIGHT,
    );
}

fn release_ctrl(console: &mut Console) {
    console.input(
        InputEvent::Key { character: '\0', scancode: 0x1D, pressed: false },
        WIDTH,
        HEIGHT,
    );
}

fn sent(console: &mut Console) -> Vec<u8> {
    std::mem::take(&mut console.input)
}

#[test]
fn plain_character_is_sent_as_utf8() {
    let mut console = console();
    key(&mut console, 'a', 0x1E);
    assert_eq!(sent(&mut console), vec![0x61]);
    key(&mut console, 'C', 0x2E);
    assert_eq!(sent(&mut console), vec![0x43]);
    key(&mut console, '\u{e9}', 0x12);
    assert_eq!(sent(&mut console), vec![0xC3, 0xA9]);
    key(&mut console, '\u{20ac}', 0x12);
    assert_eq!(sent(&mut console), vec![0xE2, 0x82, 0xAC]);
    key(&mut console, '\u{1F600}', 0x12);
    assert_eq!(sent(&mut console), vec![0xF0, 0x9F, 0x98, 0x80]);
}

#[test]
fn control_with_letter_sends_control_code() {
    let mut console = console();
    hold_ctrl(&mut console);
    assert!(console.ctrl);
    key(&mut console, 'C', 0x2E);
    assert_eq!(sent(&mut console), vec![0x03]);
    key(&mut console, 'c', 0x2E);
    assert_eq!(sent(&mut console), vec![0x03]);
    key(&mut console, 'V', 0x2F);
    assert_eq!(sent(&mut console), vec![0x16]);
    assert!(console.take_commands().is_empty());
    key(&mut console, 'a', 0x1E);
    assert_eq!(sent(&mut console), vec![0x01]);
    key(&mut console, 'z', 0x2C);
    assert_eq!(sent(&mut console), vec![0x1A]);
    key(&mut console, 'A', 0x1E);
    assert_eq!(sent(&mut console), vec![0x01]);
    key(&mut console, 'Z', 0x2C);
    assert_eq!(sent(&mut console), vec![0x1A]);
    key(&mut console, '1', 0x02);
    assert_eq!(sent(&mut console), vec![0x31]);
    release_ctrl(&mut console);
    assert!(!console.ctrl);
    key(&mut console, 'c', 0x2E);
    assert_eq!(sent(&mut console), vec![0x63]);
}

#[test]
fn line_feed_is_sent_as_carriage_return() {
    let mut console = console();
    key(&mut console, '\n', 0x1C);
    assert_eq!(sent(&mut console), vec![0x0D]);
    hold_ctrl(&mut console);
    key(&mut console, '\n', 0x1C);
    assert_eq!(sent(&mut console), vec![0x0D]);
}

#[test]
fn key_without_character_sends_nothing() {
    let mut console = console();
    key(&mut console, '\0', 0x2A);
    assert_eq!(sent(&mut console), Vec::<u8>::new());
    console.input(InputEvent::Key { character: 'a', scancode: 0x1E, pressed: false }, WIDTH, HEIGHT);
    assert_eq!(sent(&mut console), Vec::<u8>::new());
}

#[test]
fn named_keys_send_their_sequences() {
    let table: [(u8, &[u8]); 11] = [
        (0x0E, b"\x7F"),
        (0x47, b"\x1B[H"),
        (0x48, b"\x1B[A"),
        (0x49, b"\x1B[5~"),
        (0x4B, b"\x1B[D"),
        (0x4D, b"\x1B[C"),
        (0x4F, b"\x1B[F"),
        (0x50, b"\x1B[B"),
        (0x51, b"\x1B[6~"),
        (0x52, b"\x1B[2~"),
        (0x53, b"\x1B[3~"),
    ];
    for (scancode, bytes) in table {
        let mut console = console();
        key(&mut console, '\0', scancode);
        assert_eq!(sent(&mut console), bytes.to_vec());
        let mut out = vec![9u8];
        assert!(push_key(&mut out, scancode));
        assert_eq!(out[1..], *bytes);
    }
    let mut out = Vec::new();
    assert!(!push_key(&mut out, 0x1E));
    assert!(!push_key(&mut out, 0x4A));
    assert!(!push_key(&mut out, 0x4E));
    assert!(out.is_empty());
}

#[test]
fn named_key_wins_over_its_character() {
    let mut console = console();
    key(&mut console, 'x', 0x48);
    assert_eq!(sent(&mut console), b"\x1B[A".to_vec());
}

#[test]
fn action_of_tells_copy_and_paste_from_letters() {
    assert_eq!(action_of('C', true, true), KeyAction::Copy);
    assert_eq!(action_of('V', true, true), KeyAction::Paste);
    assert_eq!(action_of('C', true, false), KeyAction::Send('\u{3}'));
    assert_eq!(action_of('V', true, false), KeyAction::Send('\u{16}'));
    assert_eq!(action_of('C', false, true), KeyAction::Send('C'));
    assert_eq!(action_of('V', false, true), KeyAction::Send('V'));
    assert_eq!(action_of('C', false, false), KeyAction::Send('C'));
    assert_eq!(action_of('c', true, false), KeyAction::Send('\u{3}'));
    assert_eq!(action_of('c', true, true), KeyAction::Send('\u{3}'));
    assert_eq!(action_of('v', true, false), KeyAction::Send('\u{16}'));
    assert_eq!(action_of('B', true, true), KeyAction::Send('\u{2}'));
    assert_eq!(action_of('[', true, false), KeyAction::Send('['));
    assert_eq!(action_of('@', true, false), KeyAction::Send('@'));
    assert_eq!(action_of('`', true, false), KeyAction::Send('`'));
    assert_eq!(action_of('{', true, false), KeyAction::Send('{'));
    assert_eq!(action_of('\n', false, false), KeyAction::Send('\r'));
    assert_eq!(action_of('\n', true, true), KeyAction::Send('\r'));
    assert_eq!(action_of('\0', false, false), KeyAction::Send('\0'));
}

#[test]
fn shift_is_tracked_as_control_is() {
    let mut console = console();
    assert!(!console.shift);
    hold_shift(&mut console);
    assert!(console.shift);
    console.input(InputEvent::Key { character: '\0', scancode: 0x36, pressed: false }, WIDTH, HEIGHT);
    assert!(!console.shift);
    console.input(InputEvent::Key { character: '\0', scancode: 0x36, pressed: true }, WIDTH, HEIGHT);
    assert!(console.shift);
    release_shift(&mut console);
    assert!(!console.shift);
    assert_eq!(sent(&mut console), Vec::<u8>::new());
}

#[test]
fn control_shift_c_copies_the_selection() {
    let mut console = console();
    console.write(b"AB\x1b[1;5HCD", true).unwrap();
    console.take_commands();
    console.selection = Some((0, 6));
    hold_ctrl(&mut console);
    hold_shift(&mut console);
    key(&mut console, 'C', 0x2E);
    assert_eq!(sent(&mut console), Vec::<u8>::new());
    assert_eq!(console.take_commands(), vec![Command::Copy { text: String::from("AB\nCD") }]);
    release_shift(&mut console);
    key(&mut console, 'C', 0x2E);
    assert_eq!(sent(&mut console), vec![0x03]);
    assert!(console.take_commands().is_empty());
}

#[test]
fn control_shift_v_asks_for_the_clipboard() {
    let mut console = console();
    hold_ctrl(&mut console);
    hold_shift(&mut console);
    key(&mut console, 'V', 0x2F);
    assert_eq!(sent(&mut console), Vec::<u8>::new());
    assert_eq!(console.take_commands(), vec![Command::Paste]);
    console.paste("ls\n");
    assert_eq!(sent(&mut console), b"ls\n".to_vec());
}

#[test]
fn control_plus_and_minus_change_the_cell_size() {
    let mut console = console();
    hold_ctrl(&mut console);
    key(&mut console, '+', 0x4E);
    assert_eq!((console.block_width, console.block_height), (9, 18));
    assert_eq!((console.width, console.height), (71, 21));
    assert_eq!(console.grid.len(), 71 * 21);
    assert_eq!((console.state.w, console.state.h), (71, 21));
    assert!(console.changed.is_empty());
    assert_eq!(console.take_commands().last(), Some(&Command::Sync));
    key(&mut console, '-', 0x4A);
    key(&mut console, '-', 0x4A);
    assert_eq!((console.block_width, console.block_height), (7, 14));
    assert_eq!((console.width, console.height), (91, 27));
    assert_eq!(sent(&mut console), Vec::<u8>::new());
}

#[test]
fn cell_size_stays_within_its_bounds() {
    let mut console = console();
    hold_ctrl(&mut console);
    for _ in 0..10 {
        key(&mut console, '-', 0x4A);
    }
    assert_eq!((console.block_width, console.block_height), (4, 8));
    assert_eq!((console.width, console.height), (160, 48));
    for _ in 0..60 {
        key(&mut console, '+', 0x4E);
    }
    assert_eq!((console.block_width, console.block_height), (48, 96));
    assert_eq!((console.width, console.height), (13, 4));
}

#[test]
fn plus_and_minus_without_control_type_their_characters() {
    let mut console = console();
    key(&mut console, '+', 0x4E);
    key(&mut console, '-', 0x4A);
    assert_eq!(sent(&mut console), b"+-".to_vec());
    assert_eq!((console.block_width, console.block_height), (8, 16));
}

#[test]
fn control_wheel_changes_the_cell_size() {
    let mut console = console();
    hold_ctrl(&mut console);
    console.input(InputEvent::Scroll { x: 0, y: 3 }, WIDTH, HEIGHT);
    assert_eq!(console.block_width, 9);
    console.input(InputEvent::Scroll { x: 0, y: -1 }, WIDTH, HEIGHT);
    console.input(InputEvent::Scroll { x: 0, y: -7 }, WIDTH, HEIGHT);
    assert_eq!(console.block_width, 7);
    console.input(InputEvent::Scroll { x: 5, y: 0 }, WIDTH, HEIGHT);
    assert_eq!(console.block_width, 7);
    assert_eq!((console.width, console.height), (91, 27));
}

#[test]
fn wheel_without_reports_is_ignored() {
    let mut console = console();
    console.input(InputEvent::Scroll { x: 0, y: 1 }, WIDTH, HEIGHT);
    console.input(InputEvent::Scroll { x: 0, y: -1 }, WIDTH, HEIGHT);
    assert_eq!(sent(&mut console), Vec::<u8>::new());
    assert!(console.take_commands().is_empty());
}

#[test]
fn drag_selects_from_the_cell_of_the_press_to_the_cell_of_the_pointer() {
    let mut console = console();
    console.input(InputEvent::Mouse { x: 19, y: 53 }, WIDTH, HEIGHT);
    assert_eq!((console.mouse_x, console.mouse_y), (3, 4));
    assert_eq!(console.selection, None);
    console.input(InputEvent::Button { left: true, middle: false, right: false }, WIDTH, HEIGHT);
    assert!(console.mouse_left);
    assert_eq!(console.selection, Some((242, 242)));
    console.input(InputEvent::Mouse { x: 41, y: 53 }, WIDTH, HEIGHT);
    assert_eq!((console.mouse_x, console.mouse_y), (6, 4));
    assert_eq!(console.selection, Some((3 * 80 + 2, 3 * 80 + 5)));
    assert_eq!(console.last_selection, console.selection);
    console.input(InputEvent::Button { left: false, middle: false, right: false }, WIDTH, HEIGHT);
    assert!(!console.mouse_left);
    assert_eq!(console.selection, Some((242, 245)));
    console.input(InputEvent::Mouse { x: 100, y: 100 }, WIDTH, HEIGHT);
    assert_eq!(console.selection, Some((242, 245)));
    assert_eq!(sent(&mut console), Vec::<u8>::new());
}

#[test]
fn drag_highlights_the_selected_cells() {
    let mut console = console();
    console.write(b"\x1b[?25l", true).unwrap();
    console.input(InputEvent::Mouse { x: 19, y: 53 }, WIDTH, HEIGHT);
    console.input(InputEvent::Button { left: true, middle: false, right: false }, WIDTH, HEIGHT);
    console.take_commands();
    console.input(InputEvent::Mouse { x: 41, y: 53 }, WIDTH, HEIGHT);
    assert_eq!(
        console.take_commands(),
        vec![
            Command::Invert { x: 16, y: 48, w: 8, h: 16 },
            Command::Invert { x: 24, y: 48, w: 8, h: 16 },
            Command::Invert { x: 32, y: 48, w: 8, h: 16 },
            Command::Sync,
        ]
    );
    assert!(console.changed.is_empty());
}

#[test]
fn press_without_a_pointer_position_selects_the_first_cell() {
    let mut console = console();
    console.input(InputEvent::Button { left: true, middle: false, right: false }, WIDTH, HEIGHT);
    assert_eq!(console.selection, Some((0, 0)));
}

#[test]
fn other_buttons_select_nothing() {
    let mut console = console();
    console.input(InputEvent::Mouse { x: 19, y: 53 }, WIDTH, HEIGHT);
    console.input(InputEvent::Button { left: false, middle: true, right: true }, WIDTH, HEIGHT);
    assert_eq!(console.selection, None);
    assert!(!console.mouse_left);
}

#[test]
fn pointer_outside_the_window_counts_as_the_nearest_cell() {
    assert_eq!(cell_of_pointer(0, 8), 1);
    assert_eq!(cell_of_pointer(7, 8), 1);
    assert_eq!(cell_of_pointer(8, 8), 2);
    assert_eq!(cell_of_pointer(-1, 8), 1);
    assert_eq!(cell_of_pointer(i32::MIN, 8), 1);
    assert_eq!(cell_of_pointer(i32::MAX, 8), 65535);
    assert_eq!(cell_of_pointer(65534, 1), 65535);
    assert_eq!(cell_of_pointer(65533, 1), 65534);
    assert_eq!(cell_of_pointer(1000, usize::MAX), 1);
}

fn reporting_console() -> Console {
    let mut console = console();
    console.write(b"\x1b[?1015h\x1b[?1002h", true).unwrap();
    assert!(console.state.mouse_rxvt);
    assert!(console.state.mouse_btn);
    console.take_commands();
    console
}

#[test]
fn mouse_reports_press_drag_and_release() {
    let mut console = reporting_console();
    console.input(InputEvent::Mouse { x: 19, y: 53 }, WIDTH, HEIGHT);
    assert_eq!(sent(&mut console), Vec::<u8>::new());
    console.input(InputEvent::Button { left: true, middle: false, right: false }, WIDTH, HEIGHT);
    assert_eq!(sent(&mut console), b"\x1B[<0;3;4M".to_vec());
    console.input(InputEvent::Button { left: true, middle: false, right: false }, WIDTH, HEIGHT);
    assert_eq!(sent(&mut console), Vec::<u8>::new());
    console.input(InputEvent::Mouse { x: 20, y: 54 }, WIDTH, HEIGHT);
    assert_eq!(sent(&mut console), Vec::<u8>::new());
    console.input(InputEvent::Mouse { x: 41, y: 53 }, WIDTH, HEIGHT);
    assert_eq!(sent(&mut console), b"\x1B[<32;6;4M".to_vec());
    assert_eq!((console.mouse_x, console.mouse_y), (6, 4));
    console.input(InputEvent::Mouse { x: 41, y: 200 }, WIDTH, HEIGHT);
    assert_eq!(sent(&mut console), b"\x1B[<32;6;13M".to_vec());
    console.input(InputEvent::Mouse { x: 47, y: 207 }, WIDTH, HEIGHT);
    assert_eq!(sent(&mut console), Vec::<u8>::new());
    console.input(InputEvent::Button { left: false, middle: false, right: false }, WIDTH, HEIGHT);
    assert_eq!(sent(&mut console), b"\x1B[<0;6;13m".to_vec());
    console.input(InputEvent::Button { left: false, middle: false, right: false }, WIDTH, HEIGHT);
    assert_eq!(sent(&mut console), Vec::<u8>::new());
    assert_eq!(console.selection, None);
    assert!(console.take_commands().is_empty());
}

#[test]
fn mouse_reports_no_drag_unless_asked_for() {
    let mut console = console();
    console.write(b"\x1b[?1015h", true).unwrap();
    console.input(InputEvent::Mouse { x: 19, y: 53 }, WIDTH, HEIGHT);
    console.input(InputEvent::Button { left: true, middle: false, right: false }, WIDTH, HEIGHT);
    assert_eq!(sent(&mut console), b"\x1B[<0;3;4M".to_vec());
    console.input(InputEvent::Mouse { x: 41, y: 53 }, WIDTH, HEIGHT);
    assert_eq!(sent(&mut console), Vec::<u8>::new());
    assert_eq!(console.selection, None);
}

#[test]
fn mouse_reports_the_wheel() {
    let mut console = reporting_console();
    console.input(InputEvent::Mouse { x: 8 * 11, y: 16 * 2 }, WIDTH, HEIGHT);
    console.input(InputEvent::Scroll { x: 0, y: 1 }, WIDTH, HEIGHT);
    assert_eq!(sent(&mut console), b"\x1B[<64;12;3M".to_vec());
    console.input(InputEvent::Scroll { x: 0, y: -2 }, WIDTH, HEIGHT);
    assert_eq!(sent(&mut console), b"\x1B[<65;12;3M".to_vec());
    console.input(InputEvent::Scroll { x: 4, y: 0 }, WIDTH, HEIGHT);
    assert_eq!(sent(&mut console), Vec::<u8>::new());
}

#[test]
fn push_mouse_report_formats_the_numbers() {
    let mut out = vec![b'x'];
    push_mouse_report(&mut out, 0, 1, 1, false);
    assert_eq!(out, b"x\x1B[<0;1;1M".to_vec());
    let mut out = Vec::new();
    push_mouse_report(&mut out, 65, 65535, 100, true);
    assert_eq!(out, b"\x1B[<65;65535;100m".to_vec());
    assert_eq!(out, format!("\x1B[<{};{};{}m", 65, 65535, 100).into_bytes());
}

#[test]
fn push_decimal_writes_the_digits() {
    for n in [0u32, 1, 9, 10, 11, 99, 100, 101, 1000, 65535, 4_294_967_295] {
        let mut out = vec![b'#'];
        push_decimal(&mut out, n);
        assert_eq!(out, format!("#{}", n).into_bytes());
    }
}

#[test]
fn push_char_agrees_with_the_standard_encoding() {
    let samples = [
        '\0', '\u{1}', 'a', '\u{7f}', '\u{80}', '\u{7ff}', '\u{800}', '\u{d7ff}', '\u{e000}',
        '\u{ffff}', '\u{10000}', '\u{1f600}', '\u{10ffff}',
    ];
    for c in samples {
        let mut out = vec![b'|'];
        push_char(&mut out, c);
        let mut buffer = [0u8; 4];
        let mut expected = vec![b'|'];
        expected.extend_from_slice(c.encode_utf8(&mut buffer).as_bytes());
        assert_eq!(out, expected);
    }
}

#[test]
fn window_resize_fits_the_grid_and_gives_up_the_selection() {
    let mut console = console();
    console.write(b"abc", true).unwrap();
    console.selection = Some((0, 2));
    console.last_selection = Some((0, 2));
    console.input(InputEvent::Resize { width: 800, height: 480 }, WIDTH, HEIGHT);
    assert_eq!((console.width, console.height), (100, 30));
    assert_eq!((console.state.w, console.state.h), (100, 30));
    assert_eq!(console.grid.len(), 3000);
    assert_eq!(console.grid[0].c, 'a');
    assert_eq!(console.selection, None);
    assert!(console.changed.is_empty());
}

#[test]
fn window_of_the_same_size_keeps_the_selection() {
    let mut console = console();
    console.selection = Some((0, 2));
    console.last_selection = Some((0, 2));
    console.input(InputEvent::Resize { width: 647, height: 390 }, WIDTH, HEIGHT);
    assert_eq!((console.width, console.height), (80, 24));
    assert_eq!(console.selection, Some((0, 2)));
}

#[test]
fn quit_and_other_events_change_nothing() {
    let mut console = console();
    console.write(b"abc", true).unwrap();
    console.take_commands();
    let grid = console.grid.clone();
    console.input(InputEvent::Quit, WIDTH, HEIGHT);
    console.input(InputEvent::Other, WIDTH, HEIGHT);
    assert_eq!(console.grid, grid);
    assert!(console.input.is_empty());
    assert!(console.take_commands().is_empty());
}
