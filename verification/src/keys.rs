//! What the keyboard and the mouse send to the shell.

use vstd::prelude::*;
use vstd::utf8::encode_scalar;

verus! {

/// The control modifier's scancode.
pub const SCANCODE_CTRL: u8 = 0x1D;

/// The scancodes of the two shift keys.
pub const SCANCODE_LEFT_SHIFT: u8 = 0x2A;

pub const SCANCODE_RIGHT_SHIFT: u8 = 0x36;

/// The keypad's minus and plus, which with the control modifier make the
/// cells smaller and larger.
pub const SCANCODE_MINUS: u8 = 0x4A;

pub const SCANCODE_PLUS: u8 = 0x4E;

/// The bytes that a key without a character sends, by its scancode: the
/// sequences of a standard terminal.
pub open spec fn key_bytes(scancode: u8) -> Option<Seq<u8>> {
    if scancode == 0x0E {
        Some(seq![0x7Fu8])
    } else if scancode == 0x47 {
        Some(seq![0x1Bu8, 0x5B, 0x48])
    } else if scancode == 0x48 {
        Some(seq![0x1Bu8, 0x5B, 0x41])
    } else if scancode == 0x49 {
        Some(seq![0x1Bu8, 0x5B, 0x35, 0x7E])
    } else if scancode == 0x4B {
        Some(seq![0x1Bu8, 0x5B, 0x44])
    } else if scancode == 0x4D {
        Some(seq![0x1Bu8, 0x5B, 0x43])
    } else if scancode == 0x4F {
        Some(seq![0x1Bu8, 0x5B, 0x46])
    } else if scancode == 0x50 {
        Some(seq![0x1Bu8, 0x5B, 0x42])
    } else if scancode == 0x51 {
        Some(seq![0x1Bu8, 0x5B, 0x36, 0x7E])
    } else if scancode == 0x52 {
        Some(seq![0x1Bu8, 0x5B, 0x32, 0x7E])
    } else if scancode == 0x53 {
        Some(seq![0x1Bu8, 0x5B, 0x33, 0x7E])
    } else {
        None
    }
}

/// Appends `ESC [` and `last` to `out`.
fn push_csi(out: &mut Vec<u8>, last: u8)
    ensures
        final(out)@ == old(out)@ + seq![0x1Bu8, 0x5B, last],
{
    out.push(0x1B);
    out.push(0x5B);
    out.push(last);
    assert(out@ =~= old(out)@ + seq![0x1Bu8, 0x5B, last]);
}

/// Appends `ESC [`, `digit` and `~` to `out`.
fn push_csi_tilde(out: &mut Vec<u8>, digit: u8)
    ensures
        final(out)@ == old(out)@ + seq![0x1Bu8, 0x5B, digit, 0x7E],
{
    out.push(0x1B);
    out.push(0x5B);
    out.push(digit);
    out.push(0x7E);
    assert(out@ =~= old(out)@ + seq![0x1Bu8, 0x5B, digit, 0x7E]);
}

/// Appends the bytes of the key with the given scancode to `out` and says
/// whether the key is one of those that have bytes of their own.
pub fn push_key(out: &mut Vec<u8>, scancode: u8) -> (known: bool)
    ensures
        known == key_bytes(scancode) is Some,
        final(out)@ == match key_bytes(scancode) {
            Some(bytes) => old(out)@ + bytes,
            None => old(out)@,
        },
{
    match scancode {
        0x0E => {
            out.push(0x7F);
            assert(out@ =~= old(out)@ + seq![0x7Fu8]);
        },
        0x47 => push_csi(out, 0x48),
        0x48 => push_csi(out, 0x41),
        0x49 => push_csi_tilde(out, 0x35),
        0x4B => push_csi(out, 0x44),
        0x4D => push_csi(out, 0x43),
        0x4F => push_csi(out, 0x46),
        0x50 => push_csi(out, 0x42),
        0x51 => push_csi_tilde(out, 0x36),
        0x52 => push_csi_tilde(out, 0x32),
        0x53 => push_csi_tilde(out, 0x33),
        _ => {
            return false;
        },
    }
    true
}

/// What a key that types a character does.
#[derive(Clone, Copy, Debug, PartialEq, Eq, Structural)]
pub enum KeyAction {
    /// Send the character to the shell; `'\0'` sends nothing.
    Send(char),
    /// Put the selected text on the clipboard.
    Copy,
    /// Send the text of the clipboard to the shell.
    Paste,
}

/// The control code of a letter: 1 for `A` or `a`, up to 26 for `Z` or `z`.
pub open spec fn control_code(c: char) -> char
    recommends
        'A' <= c <= 'Z' || 'a' <= c <= 'z',
{
    if c <= 'Z' {
        ((c as u8 - 0x41) + 1) as char
    } else {
        ((c as u8 - 0x61) + 1) as char
    }
}

/// What the key that types `c` does while the control modifier is held
/// (`ctrl`) or not, and the shift modifier (`shift`) or not. A line feed is
/// sent as a carriage return. With control and shift together, `C` copies
/// and `V` pastes. Otherwise a letter with control sends its control code.
/// Everything else is sent as it is.
pub open spec fn key_action(c: char, ctrl: bool, shift: bool) -> KeyAction {
    if c == '\n' {
        KeyAction::Send('\r')
    } else if ctrl && shift && c == 'C' {
        KeyAction::Copy
    } else if ctrl && shift && c == 'V' {
        KeyAction::Paste
    } else if ctrl && ('A' <= c <= 'Z' || 'a' <= c <= 'z') {
        KeyAction::Send(control_code(c))
    } else {
        KeyAction::Send(c)
    }
}

/// With the control modifier, and without shift, every letter sends its
/// control code, which is one byte from 1 for `A` or `a` to 26 for `Z` or
/// `z`.
pub proof fn lemma_control_letters(c: char)
    requires
        'A' <= c <= 'Z' || 'a' <= c <= 'z',
    ensures
        key_action(c, true, false) == KeyAction::Send(control_code(c)),
        1 <= control_code(c) as u32 <= 26,
        control_code(c) as u32 == (c as u32) % 32,
        encode_scalar(control_code(c) as u32) == seq![((c as u32) % 32) as u8],
{
    let code = control_code(c) as u32;
    assert(code == (c as u32) % 32);
    assert(code & 0x7F == code) by (bit_vector)
        requires
            code <= 26,
    ;
}

/// Without the control modifier a character other than the line feed is
/// sent as it is, shift or not, and an ASCII character as the one byte that
/// it is.
pub proof fn lemma_plain_characters(c: char, shift: bool)
    requires
        c != '\n',
    ensures
        key_action(c, false, shift) == KeyAction::Send(c),
        c as u32 <= 0x7F ==> encode_scalar(c as u32) == seq![c as u8],
{
    let v = c as u32;
    if v <= 0x7F {
        assert(v & 0x7F == v) by (bit_vector)
            requires
                v <= 0x7F,
        ;
    }
}

/// Decides what the key that types `c` does.
pub fn action_of(c: char, ctrl: bool, shift: bool) -> (action: KeyAction)
    ensures
        action == key_action(c, ctrl, shift),
{
    if c == '\n' {
        KeyAction::Send('\r')
    } else if ctrl && shift && c == 'C' {
        KeyAction::Copy
    } else if ctrl && shift && c == 'V' {
        KeyAction::Paste
    } else if ctrl && 'A' <= c && c <= 'Z' {
        KeyAction::Send(((c as u8 - 0x41) + 1) as char)
    } else if ctrl && 'a' <= c && c <= 'z' {
        KeyAction::Send(((c as u8 - 0x61) + 1) as char)
    } else {
        KeyAction::Send(c)
    }
}

/// Appends the UTF-8 encoding of `c` to `out`.
pub fn push_char(out: &mut Vec<u8>, c: char)
    ensures
        final(out)@ == old(out)@ + encode_scalar(c as u32),
{
    let v = c as u32;
    if v <= 0x7F {
        assert(v & 0x7F <= 0xFF) by (bit_vector);
        out.push((v & 0x7F) as u8);
    } else if v <= 0x7FF {
        assert((v >> 6) & 0x1F <= 0xFF && v & 0x3F <= 0xFF) by (bit_vector);
        out.push(0xC0 | ((v >> 6) & 0x1F) as u8);
        out.push(0x80 | (v & 0x3F) as u8);
    } else if v <= 0xFFFF {
        assert((v >> 12) & 0x0F <= 0xFF && (v >> 6) & 0x3F <= 0xFF && v & 0x3F <= 0xFF)
            by (bit_vector);
        out.push(0xE0 | ((v >> 12) & 0x0F) as u8);
        out.push(0x80 | ((v >> 6) & 0x3F) as u8);
        out.push(0x80 | (v & 0x3F) as u8);
    } else {
        assert((v >> 18) & 0x7 <= 0xFF && (v >> 12) & 0x3F <= 0xFF && (v >> 6) & 0x3F <= 0xFF && v
            & 0x3F <= 0xFF) by (bit_vector);
        out.push(0xF0 | ((v >> 18) & 0x7) as u8);
        out.push(0x80 | ((v >> 12) & 0x3F) as u8);
        out.push(0x80 | ((v >> 6) & 0x3F) as u8);
        out.push(0x80 | (v & 0x3F) as u8);
    }
    assert(out@ =~= old(out)@ + encode_scalar(c as u32));
}

/// The decimal digits of `n`, as ASCII.
pub open spec fn decimal(n: nat) -> Seq<u8>
    decreases n,
{
    if n < 10 {
        seq![(0x30 + n) as u8]
    } else {
        decimal(n / 10).push((0x30 + n % 10) as u8)
    }
}

/// Appends the decimal digits of `n` to `out`.
pub fn push_decimal(out: &mut Vec<u8>, n: u32)
    ensures
        final(out)@ == old(out)@ + decimal(n as nat),
    decreases n,
{
    if n >= 10 {
        push_decimal(out, n / 10);
    }
    out.push(0x30 + (n % 10) as u8);
    assert(out@ =~= old(out)@ + decimal(n as nat));
}

/// The button codes of the mouse reports.
pub const BUTTON_LEFT: u32 = 0;

pub const BUTTON_DRAG: u32 = 32;

pub const BUTTON_WHEEL_UP: u32 = 64;

pub const BUTTON_WHEEL_DOWN: u32 = 65;

/// A mouse report of the extended xterm protocol: `ESC [ <`, the button,
/// the column and the row, all three decimal with `;` between them, and `M`
/// at the end, or `m` where a button was let go. Column and row count from 1.
pub open spec fn mouse_report(button: u32, x: u16, y: u16, released: bool) -> Seq<u8> {
    seq![0x1Bu8, 0x5B, 0x3C] + decimal(button as nat) + seq![0x3Bu8] + decimal(x as nat) + seq![
        0x3Bu8,
    ] + decimal(y as nat) + seq![
        if released {
            0x6Du8
        } else {
            0x4Du8
        },
    ]
}

/// Appends a mouse report to `out`.
pub fn push_mouse_report(out: &mut Vec<u8>, button: u32, x: u16, y: u16, released: bool)
    ensures
        final(out)@ == old(out)@ + mouse_report(button, x, y, released),
{
    out.push(0x1B);
    out.push(0x5B);
    out.push(0x3C);
    push_decimal(out, button);
    out.push(0x3B);
    push_decimal(out, x as u32);
    out.push(0x3B);
    push_decimal(out, y as u32);
    out.push(if released {
        0x6D
    } else {
        0x4D
    });
    assert(out@ =~= old(out)@ + mouse_report(button, x, y, released));
}

/// The cell that the pointer is in along one axis, counting from 1: pixel
/// `position` where a cell takes `block` pixels. A position before the
/// first cell counts as the first, and no cell has a number above 65535.
pub open spec fn pointer_cell(position: i32, block: usize) -> u16 {
    if position <= 0 {
        1
    } else if position as int / block as int >= 65535 {
        65535
    } else {
        (position as int / block as int + 1) as u16
    }
}

/// Finds the cell that the pointer is in along one axis.
pub fn cell_of_pointer(position: i32, block: usize) -> (cell: u16)
    requires
        block > 0,
    ensures
        cell == pointer_cell(position, block),
{
    if position <= 0 {
        1
    } else {
        let cell = position as usize / block;
        if cell >= 65535 {
            65535
        } else {
            (cell + 1) as u16
        }
    }
}

} // verus!
