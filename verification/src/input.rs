//! Key presses and mouse events as the bytes that a unix terminal sends. Every
//! keystroke goes straight to the pty; nothing is edited here.

use crate::text::{ascii_bytes, chars_of, decimal, push_decimal_bytes};
use vstd::prelude::*;

verus! {

/// A mouse button in xterm's numbering, before any flags.
pub type MouseButton = u8;

pub const MOUSE_LEFT: MouseButton = 0;

pub const MOUSE_MIDDLE: MouseButton = 1;

pub const MOUSE_RIGHT: MouseButton = 2;

pub const MOUSE_WHEEL_UP: MouseButton = 64;

pub const MOUSE_WHEEL_DOWN: MouseButton = 65;

/// How many wheel notches a scroll amounts to.
#[derive(Debug, Clone, Copy, PartialEq, Eq, Structural)]
pub struct WheelNotches {
    pub up: u32,
    pub down: u32,
}

impl Default for WheelNotches {
    /// No notches.
    fn default() -> (notches: Self)
        ensures
            notches.up == 0,
            notches.down == 0,
    {
        WheelNotches { up: 0, down: 0 }
    }
}

/// The modifier keys that are held.
#[derive(Debug, Clone, Copy, PartialEq, Eq, Structural)]
pub struct Modifiers {
    pub shift: bool,
    pub alt: bool,
    pub control: bool,
    pub command: bool,
}

/// Keys with a name instead of a character.
#[derive(Debug, Clone, Copy, PartialEq, Eq, Structural)]
pub enum NamedKey {
    Enter,
    Tab,
    Backspace,
    Escape,
    Space,
    ArrowUp,
    ArrowDown,
    ArrowRight,
    ArrowLeft,
    Home,
    End,
    PageUp,
    PageDown,
    Insert,
    Delete,
    F1,
    F2,
    F3,
    F4,
    F5,
    F6,
    F7,
    F8,
    F9,
    F10,
    F11,
    F12,
    /// A named key without a byte sequence.
    Unbound,
}

/// A key press.
#[derive(Debug)]
pub enum Key {
    Named(NamedKey),
    Character(String),
    /// A dead or unidentified key.
    Other,
}

/// `n` where a flag is set, and zero otherwise.
pub open spec fn flag(set: bool, n: int) -> int {
    if set {
        n
    } else {
        0
    }
}

/// A button with the flags for motion and modifiers.
pub open spec fn flagged_button(button: u8, motion: bool, mods: Modifiers) -> int {
    button + flag(motion, 32) + flag(mods.shift, 4) + flag(mods.alt, 8) + flag(mods.control, 16)
}

/// A number in decimal, as bytes.
pub open spec fn number(n: int) -> Seq<u8> {
    ascii_bytes(decimal(n as nat))
}

/// The smaller of two numbers.
pub open spec fn at_most(n: int, limit: int) -> int {
    if n < limit {
        n
    } else {
        limit
    }
}

/// The report of a mouse event: `ESC [ < button ; col ; row M` or `m` in the
/// newer form, and `ESC [ M` with three offset bytes in the older one, where a
/// release is button 3.
pub open spec fn mouse_report(
    button: u8,
    col: u16,
    row: u16,
    press: bool,
    motion: bool,
    sgr: bool,
    mods: Modifiers,
) -> Seq<u8> {
    let b = flagged_button(button, motion, mods);
    if sgr {
        seq![0x1bu8, 0x5b, 0x3c] + number(b) + seq![0x3bu8] + number(col as int) + seq![0x3bu8]
            + number(row as int) + seq![
            if press {
                0x4du8
            } else {
                0x6du8
            },
        ]
    } else {
        seq![
            0x1bu8,
            0x5b,
            0x4d,
            (if press {
                at_most(b + 32, 255)
            } else {
                35
            }) as u8,
            at_most(col + 32, 255) as u8,
            at_most(row + 32, 255) as u8,
        ]
    }
}

/// Encodes a mouse event. `col` and `row` count from one; `motion` marks
/// events of drag and move tracking, and `press` a button that goes down or a
/// wheel notch.
#[verifier::rlimit(40)]
#[verifier::spinoff_prover]
pub fn encode_mouse(
    button: MouseButton,
    col: u16,
    row: u16,
    press: bool,
    motion: bool,
    sgr: bool,
    mods: Modifiers,
) -> (bytes: Vec<u8>)
    requires
        flagged_button(button, motion, mods) <= 255,
    ensures
        bytes@ == mouse_report(button, col, row, press, motion, sgr, mods),
{
    let mut b: u8 = button;
    if motion {
        b = b + 32;
    }
    if mods.shift {
        b = b + 4;
    }
    if mods.alt {
        b = b + 8;
    }
    if mods.control {
        b = b + 16;
    }
    let mut out: Vec<u8> = Vec::new();
    out.push(0x1b);
    out.push(0x5b);
    if sgr {
        out.push(0x3c);
        push_decimal_bytes(&mut out, b as u64);
        out.push(0x3b);
        push_decimal_bytes(&mut out, col as u64);
        out.push(0x3b);
        push_decimal_bytes(&mut out, row as u64);
        out.push(
            if press {
                0x4d
            } else {
                0x6d
            },
        );
        assert(out@ =~= mouse_report(button, col, row, press, motion, sgr, mods));
        return out;
    }
    out.push(0x4d);
    let cb: u8 = if !press {
        35
    } else if b > 223 {
        255
    } else {
        b + 32
    };
    out.push(cb);
    let cx: u8 = if col > 223 {
        255
    } else {
        col as u8 + 32
    };
    out.push(cx);
    let cy: u8 = if row > 223 {
        255
    } else {
        row as u8 + 32
    };
    out.push(cy);
    assert(out@ =~= mouse_report(button, col, row, press, motion, sgr, mods));
    out
}

/// The parameter for held modifiers in an escape sequence, `None` without any:
/// one more than the sum of 1 for shift, 2 for alt and 4 for control.
pub open spec fn modifier_parameter(mods: Modifiers) -> Option<int> {
    let bits = flag(mods.shift, 1) + flag(mods.alt, 2) + flag(mods.control, 4);
    if bits == 0 {
        None
    } else {
        Some(bits + 1)
    }
}

/// A cursor key: `ESC [ x`, `ESC O x` in application mode, and `ESC [ 1 ; m x`
/// with modifiers in either mode.
pub open spec fn cursor_key(letter: u8, parameter: Option<int>, app_cursor: bool) -> Seq<u8> {
    match parameter {
        Some(p) => seq![0x1bu8, 0x5b, 0x31, 0x3b] + number(p) + seq![letter],
        None => if app_cursor {
            seq![0x1bu8, 0x4f, letter]
        } else {
            seq![0x1bu8, 0x5b, letter]
        },
    }
}

/// A numbered key: `ESC [ n ~`, and `ESC [ n ; m ~` with modifiers.
pub open spec fn numbered_key(n: int, parameter: Option<int>) -> Seq<u8> {
    match parameter {
        Some(p) => seq![0x1bu8, 0x5b] + number(n) + seq![0x3bu8] + number(p) + seq![0x7eu8],
        None => seq![0x1bu8, 0x5b] + number(n) + seq![0x7eu8],
    }
}

/// A control character, after an escape where alt is held.
pub open spec fn control_key(byte: u8, alt: bool) -> Seq<u8> {
    if alt {
        seq![0x1bu8, byte]
    } else {
        seq![byte]
    }
}

/// The bytes of a named key.
pub open spec fn named_key_bytes(key: NamedKey, mods: Modifiers, app_cursor: bool) -> Option<
    Seq<u8>,
> {
    let p = modifier_parameter(mods);
    match key {
        NamedKey::Enter => Some(control_key(0x0d, mods.alt)),
        NamedKey::Tab => if p == Some(2int) {
            Some(seq![0x1bu8, 0x5b, 0x5a])
        } else {
            Some(control_key(0x09, mods.alt))
        },
        NamedKey::Backspace => Some(control_key(0x7f, mods.alt)),
        NamedKey::Escape => Some(control_key(0x1b, mods.alt)),
        NamedKey::Space => Some(control_key(0x20, mods.alt)),
        NamedKey::ArrowUp => Some(cursor_key(0x41, p, app_cursor)),
        NamedKey::ArrowDown => Some(cursor_key(0x42, p, app_cursor)),
        NamedKey::ArrowRight => Some(cursor_key(0x43, p, app_cursor)),
        NamedKey::ArrowLeft => Some(cursor_key(0x44, p, app_cursor)),
        NamedKey::Home => Some(cursor_key(0x48, p, app_cursor)),
        NamedKey::End => Some(cursor_key(0x46, p, app_cursor)),
        NamedKey::PageUp => Some(numbered_key(5, p)),
        NamedKey::PageDown => Some(numbered_key(6, p)),
        NamedKey::Insert => Some(numbered_key(2, p)),
        NamedKey::Delete => Some(numbered_key(3, p)),
        NamedKey::F1 => Some(seq![0x1bu8, 0x4f, 0x50]),
        NamedKey::F2 => Some(seq![0x1bu8, 0x4f, 0x51]),
        NamedKey::F3 => Some(seq![0x1bu8, 0x4f, 0x52]),
        NamedKey::F4 => Some(seq![0x1bu8, 0x4f, 0x53]),
        NamedKey::F5 => Some(numbered_key(15, p)),
        NamedKey::F6 => Some(numbered_key(17, p)),
        NamedKey::F7 => Some(numbered_key(18, p)),
        NamedKey::F8 => Some(numbered_key(19, p)),
        NamedKey::F9 => Some(numbered_key(20, p)),
        NamedKey::F10 => Some(numbered_key(21, p)),
        NamedKey::F11 => Some(numbered_key(23, p)),
        NamedKey::F12 => Some(numbered_key(24, p)),
        NamedKey::Unbound => None,
    }
}

/// The control byte of a character: letters in either case give 1 to 26, and
/// the classic punctuation gives the rest.
pub open spec fn control_byte(c: char) -> Option<u8> {
    if 'a' <= c <= 'z' {
        Some((c as int - 96) as u8)
    } else if 'A' <= c <= 'Z' {
        Some((c as int - 64) as u8)
    } else if c == '@' || c == ' ' {
        Some(0x00)
    } else if c == '[' {
        Some(0x1b)
    } else if c == '\\' {
        Some(0x1c)
    } else if c == ']' {
        Some(0x1d)
    } else if c == '^' {
        Some(0x1e)
    } else if c == '_' {
        Some(0x1f)
    } else if c == '?' {
        Some(0x7f)
    } else {
        None
    }
}

/// The bytes of typed text: after an escape where alt is held, and as a
/// control byte where control is held over a single character that has one.
/// No text, no bytes.
pub open spec fn text_bytes(text: Seq<char>, mods: Modifiers) -> Option<Seq<u8>> {
    let prefix = if mods.alt {
        seq![0x1bu8]
    } else {
        Seq::empty()
    };
    if text.len() == 0 {
        None
    } else if mods.control && text.len() == 1 && control_byte(text[0]) is Some {
        Some(prefix.push(control_byte(text[0])->0))
    } else {
        Some(prefix + vstd::utf8::encode_utf8(text))
    }
}

/// The bytes of a key press. The command key is left to the system. Text that
/// the keyboard layout gave comes before the key's own character, unless it is
/// empty.
pub open spec fn key_bytes(
    logical: Key,
    text: Option<Seq<char>>,
    mods: Modifiers,
    app_cursor: bool,
) -> Option<Seq<u8>> {
    if mods.command {
        None
    } else {
        match (logical, text) {
            (Key::Named(named), _) => named_key_bytes(named, mods, app_cursor),
            (Key::Character(s), Some(t)) if t.len() == 0 => text_bytes(s@, mods),
            (_, Some(t)) => text_bytes(t, mods),
            (Key::Character(s), None) => text_bytes(s@, mods),
            (Key::Other, None) => None,
        }
    }
}

/// The control byte of a character.
pub fn ctrl_byte(ch: char) -> (byte: Option<u8>)
    ensures
        byte == control_byte(ch),
{
    if 'a' <= ch && ch <= 'z' {
        Some(ch as u8 - 96)
    } else if 'A' <= ch && ch <= 'Z' {
        Some(ch as u8 - 64)
    } else if ch == '@' || ch == ' ' {
        Some(0x00)
    } else if ch == '[' {
        Some(0x1b)
    } else if ch == '\\' {
        Some(0x1c)
    } else if ch == ']' {
        Some(0x1d)
    } else if ch == '^' {
        Some(0x1e)
    } else if ch == '_' {
        Some(0x1f)
    } else if ch == '?' {
        Some(0x7f)
    } else {
        None
    }
}

/// What an optional run of bytes holds.
pub open spec fn opt_view(bytes: Option<Vec<u8>>) -> Option<Seq<u8>> {
    match bytes {
        Some(v) => Some(v@),
        None => None,
    }
}

/// The parameter for held modifiers.
fn mod_param(mods: Modifiers) -> (p: Option<u8>)
    ensures
        match p {
            Some(n) => modifier_parameter(mods) == Some(n as int),
            None => modifier_parameter(mods) is None,
        },
{
    let mut bits: u8 = 0;
    if mods.shift {
        bits = bits + 1;
    }
    if mods.alt {
        bits = bits + 2;
    }
    if mods.control {
        bits = bits + 4;
    }
    if bits == 0 {
        None
    } else {
        Some(bits + 1)
    }
}

/// An optional byte as a number.
pub open spec fn opt_int(p: Option<u8>) -> Option<int> {
    match p {
        Some(n) => Some(n as int),
        None => None,
    }
}

fn csi_letter(letter: u8, p: Option<u8>, app_cursor: bool) -> (out: Vec<u8>)
    ensures
        out@ == cursor_key(letter, opt_int(p), app_cursor),
{
    let mut out: Vec<u8> = Vec::new();
    out.push(0x1b);
    match p {
        Some(n) => {
            out.push(0x5b);
            out.push(0x31);
            out.push(0x3b);
            push_decimal_bytes(&mut out, n as u64);
        },
        None => {
            out.push(
                if app_cursor {
                    0x4f
                } else {
                    0x5b
                },
            );
        },
    }
    out.push(letter);
    assert(out@ =~= cursor_key(letter, opt_int(p), app_cursor));
    out
}

fn tilde(n: u8, p: Option<u8>) -> (out: Vec<u8>)
    ensures
        out@ == numbered_key(n as int, opt_int(p)),
{
    let mut out: Vec<u8> = Vec::new();
    out.push(0x1b);
    out.push(0x5b);
    push_decimal_bytes(&mut out, n as u64);
    if let Some(m) = p {
        out.push(0x3b);
        push_decimal_bytes(&mut out, m as u64);
    }
    out.push(0x7e);
    assert(out@ =~= numbered_key(n as int, opt_int(p)));
    out
}

fn control(byte: u8, alt: bool) -> (out: Vec<u8>)
    ensures
        out@ == control_key(byte, alt),
{
    let mut out: Vec<u8> = Vec::new();
    if alt {
        out.push(0x1b);
    }
    out.push(byte);
    assert(out@ =~= control_key(byte, alt));
    out
}

fn three(a: u8, b: u8, c: u8) -> (out: Vec<u8>)
    ensures
        out@ == seq![a, b, c],
{
    let mut out: Vec<u8> = Vec::new();
    out.push(a);
    out.push(b);
    out.push(c);
    assert(out@ =~= seq![a, b, c]);
    out
}

/// Encodes a named key. `None` for keys without a byte sequence.
pub fn named_key(named: NamedKey, mods: Modifiers, app_cursor: bool) -> (bytes: Option<Vec<u8>>)
    ensures
        opt_view(bytes) == named_key_bytes(named, mods, app_cursor),
{
    let p: Option<u8> = mod_param(mods);
    assert(opt_int(p) == modifier_parameter(mods));
    let shift_only = match p {
        Some(n) => n == 2,
        None => false,
    };
    match named {
        NamedKey::Enter => Some(control(0x0d, mods.alt)),
        NamedKey::Tab => if shift_only {
            Some(three(0x1b, 0x5b, 0x5a))
        } else {
            Some(control(0x09, mods.alt))
        },
        NamedKey::Backspace => Some(control(0x7f, mods.alt)),
        NamedKey::Escape => Some(control(0x1b, mods.alt)),
        NamedKey::Space => Some(control(0x20, mods.alt)),
        NamedKey::ArrowUp => Some(csi_letter(0x41, p, app_cursor)),
        NamedKey::ArrowDown => Some(csi_letter(0x42, p, app_cursor)),
        NamedKey::ArrowRight => Some(csi_letter(0x43, p, app_cursor)),
        NamedKey::ArrowLeft => Some(csi_letter(0x44, p, app_cursor)),
        NamedKey::Home => Some(csi_letter(0x48, p, app_cursor)),
        NamedKey::End => Some(csi_letter(0x46, p, app_cursor)),
        NamedKey::PageUp => Some(tilde(5, p)),
        NamedKey::PageDown => Some(tilde(6, p)),
        NamedKey::Insert => Some(tilde(2, p)),
        NamedKey::Delete => Some(tilde(3, p)),
        NamedKey::F1 => Some(three(0x1b, 0x4f, 0x50)),
        NamedKey::F2 => Some(three(0x1b, 0x4f, 0x51)),
        NamedKey::F3 => Some(three(0x1b, 0x4f, 0x52)),
        NamedKey::F4 => Some(three(0x1b, 0x4f, 0x53)),
        NamedKey::F5 => Some(tilde(15, p)),
        NamedKey::F6 => Some(tilde(17, p)),
        NamedKey::F7 => Some(tilde(18, p)),
        NamedKey::F8 => Some(tilde(19, p)),
        NamedKey::F9 => Some(tilde(20, p)),
        NamedKey::F10 => Some(tilde(21, p)),
        NamedKey::F11 => Some(tilde(23, p)),
        NamedKey::F12 => Some(tilde(24, p)),
        NamedKey::Unbound => None,
    }
}

/// Encodes typed text.
fn encode_text(text: &str, mods: Modifiers) -> (bytes: Option<Vec<u8>>)
    ensures
        opt_view(bytes) == text_bytes(text@, mods),
{
    let chars: Vec<char> = chars_of(text);
    if chars.len() == 0 {
        return None;
    }
    let mut out: Vec<u8> = Vec::new();
    if mods.alt {
        out.push(0x1b);
    }
    let ghost prefix = out@;
    assert(prefix =~= if mods.alt {
        seq![0x1bu8]
    } else {
        Seq::empty()
    });
    if mods.control && chars.len() == 1 {
        if let Some(code) = ctrl_byte(chars[0]) {
            out.push(code);
            return Some(out);
        }
    }
    out.extend_from_slice(text.as_bytes());
    assert(out@ =~= prefix + vstd::utf8::encode_utf8(text@));
    Some(out)
}

/// Encodes a key press. `text` is what the keyboard layout made of it, if
/// anything; without it the key's own character counts. `app_cursor` is the terminal's application cursor mode. `None`
/// for keys that send nothing.
pub fn encode_key(logical: &Key, text: Option<&str>, mods: Modifiers, app_cursor: bool) -> (bytes:
    Option<Vec<u8>>)
    ensures
        opt_view(bytes) == key_bytes(
            *logical,
            match text {
                Some(t) => Some(t@),
                None => None,
            },
            mods,
            app_cursor,
        ),
{
    if mods.command {
        return None;
    }
    match logical {
        Key::Named(named) => named_key(*named, mods, app_cursor),
        Key::Character(s) => match text {
            Some(t) => if chars_of(t).len() == 0 {
                encode_text(s.as_str(), mods)
            } else {
                encode_text(t, mods)
            },
            None => encode_text(s.as_str(), mods),
        },
        Key::Other => match text {
            Some(t) => encode_text(t, mods),
            None => None,
        },
    }
}

/// Nothing reaches the pty while the command key is held.
pub proof fn command_is_swallowed(
    logical: Key,
    text: Option<Seq<char>>,
    mods: Modifiers,
    app_cursor: bool,
)
    requires
        mods.command,
    ensures
        key_bytes(logical, text, mods, app_cursor) is None,
{
}

/// Control folds the case of letters: both cases give the same byte, and every
/// letter its own.
pub proof fn control_folds_case(a: char, b: char)
    requires
        'a' <= a <= 'z',
        'a' <= b <= 'z',
    ensures
        control_byte(a) == control_byte((a as int - 32) as char),
        control_byte(a) == control_byte(b) ==> a == b,
        control_byte(a) matches Some(n) && 1 <= n <= 26,
{
}

/// The application cursor mode changes nothing while a modifier is held.
pub proof fn modifiers_override_application_mode(key: NamedKey, mods: Modifiers)
    requires
        mods.shift || mods.alt || mods.control,
    ensures
        named_key_bytes(key, mods, true) == named_key_bytes(key, mods, false),
{
}

/// Empty text from the keyboard layout is the same as none.
pub proof fn empty_text_falls_back(logical: Key, mods: Modifiers, app_cursor: bool)
    ensures
        key_bytes(logical, Some(Seq::empty()), mods, app_cursor) == key_bytes(
            logical,
            None,
            mods,
            app_cursor,
        ),
{
}

/// A key press that sends bytes sends at least one.
pub proof fn key_bytes_are_not_empty(
    logical: Key,
    text: Option<Seq<char>>,
    mods: Modifiers,
    app_cursor: bool,
)
    ensures
        key_bytes(logical, text, mods, app_cursor) matches Some(bytes) ==> bytes.len() > 0,
{
    match (logical, text) {
        (Key::Named(named), _) => {},
        (Key::Character(s), Some(t)) => {
            text_is_not_empty(s@);
            text_is_not_empty(t);
        },
        (Key::Other, Some(t)) => {
            text_is_not_empty(t);
        },
        (Key::Character(s), None) => {
            text_is_not_empty(s@);
        },
        (Key::Other, None) => {},
    }
}

proof fn text_is_not_empty(text: Seq<char>)
    ensures
        text.len() > 0 ==> vstd::utf8::encode_utf8(text).len() > 0,
{
}

/// The arrow keys, Home and End send the standard cursor movements: `ESC [` and
/// their letter, `ESC O` and the letter in application mode, and with modifiers in
/// either mode `ESC [ 1 ; m` and the letter, where `m` is one and 1 for shift, 2
/// for alt, 4 for control.
pub proof fn cursor_keys_send_cursor_movements(
    key: NamedKey,
    letter: char,
    text: Option<&str>,
    mods: Modifiers,
    app_cursor: bool,
    bytes: Option<Vec<u8>>,
)
    requires
        call_ensures(encode_key, (&Key::Named(key), text, mods, app_cursor), bytes),
        !mods.command,
        ({
            ||| key == NamedKey::ArrowUp && letter == 'A'
            ||| key == NamedKey::ArrowDown && letter == 'B'
            ||| key == NamedKey::ArrowRight && letter == 'C'
            ||| key == NamedKey::ArrowLeft && letter == 'D'
            ||| key == NamedKey::Home && letter == 'H'
            ||| key == NamedKey::End && letter == 'F'
        }),
    ensures
        bytes is Some,
        ({
            let held = mods.shift || mods.alt || mods.control;
            let m = 1 + (if mods.shift {
                1int
            } else {
                0
            }) + (if mods.alt {
                2int
            } else {
                0
            }) + (if mods.control {
                4int
            } else {
                0
            });
            bytes->0@ == if held {
                seq![27u8, '[' as u8, '1' as u8, ';' as u8, ('0' as int + m) as u8, letter as u8]
            } else if app_cursor {
                seq![27u8, 'O' as u8, letter as u8]
            } else {
                seq![27u8, '[' as u8, letter as u8]
            }
        }),
{
    if let Some(p) = modifier_parameter(mods) {
        crate::text::decimal_is_positional(p as nat);
    }
    assert(bytes->0@ =~= named_key_bytes(key, mods, app_cursor)->0);
}

/// The editing keys and the function keys from F5 on send `ESC [`, their number
/// and `~`, with `;` and the modifiers' number before the tilde where some are
/// held. The application mode does not matter.
pub proof fn numbered_keys_send_their_number(
    key: NamedKey,
    n: int,
    text: Option<&str>,
    mods: Modifiers,
    app_cursor: bool,
    bytes: Option<Vec<u8>>,
)
    requires
        call_ensures(encode_key, (&Key::Named(key), text, mods, app_cursor), bytes),
        !mods.command,
        ({
            ||| key == NamedKey::Insert && n == 2
            ||| key == NamedKey::Delete && n == 3
            ||| key == NamedKey::PageUp && n == 5
            ||| key == NamedKey::PageDown && n == 6
            ||| key == NamedKey::F5 && n == 15
            ||| key == NamedKey::F6 && n == 17
            ||| key == NamedKey::F7 && n == 18
            ||| key == NamedKey::F8 && n == 19
            ||| key == NamedKey::F9 && n == 20
            ||| key == NamedKey::F10 && n == 21
            ||| key == NamedKey::F11 && n == 23
            ||| key == NamedKey::F12 && n == 24
        }),
    ensures
        bytes is Some,
        ({
            let held = mods.shift || mods.alt || mods.control;
            let m = 1 + (if mods.shift {
                1int
            } else {
                0
            }) + (if mods.alt {
                2int
            } else {
                0
            }) + (if mods.control {
                4int
            } else {
                0
            });
            let digits = if n < 10 {
                seq![('0' as int + n) as u8]
            } else {
                seq![('0' as int + n / 10) as u8, ('0' as int + n % 10) as u8]
            };
            bytes->0@ == seq![27u8, '[' as u8] + digits + if held {
                seq![';' as u8, ('0' as int + m) as u8, '~' as u8]
            } else {
                seq!['~' as u8]
            }
        }),
{
    if let Some(p) = modifier_parameter(mods) {
        crate::text::decimal_is_positional(p as nat);
    }
    crate::text::decimal_is_positional(n as nat);
    if n >= 10 {
        crate::text::decimal_is_positional((n / 10) as nat);
        assert(number(n) =~= seq![('0' as int + n / 10) as u8, ('0' as int + n % 10) as u8]);
    }
    let held = mods.shift || mods.alt || mods.control;
    let m = modifier_parameter(mods);
    let digits = number(n);
    assert(bytes->0@ =~= seq![27u8, '[' as u8] + digits + if held {
        seq![';' as u8, ('0' as int + m->0) as u8, '~' as u8]
    } else {
        seq!['~' as u8]
    });
}

/// Keys that send a control character, after an escape with alt; the first four
/// function keys; and shift with tab, which goes back.
pub proof fn plain_keys_send_their_character(
    key: NamedKey,
    text: Option<&str>,
    mods: Modifiers,
    app_cursor: bool,
    bytes: Option<Vec<u8>>,
)
    requires
        call_ensures(encode_key, (&Key::Named(key), text, mods, app_cursor), bytes),
        !mods.command,
    ensures
        ({
            let escaped = (|byte: u8|
                (if mods.alt {
                    seq![27u8, byte]
                } else {
                    seq![byte]
                }));
            let back = mods.shift && !mods.alt && !mods.control;
            &&& key == NamedKey::Enter ==> bytes is Some && bytes->0@ == escaped(13)
            &&& key == NamedKey::Tab && !back ==> bytes is Some && bytes->0@ == escaped(9)
            &&& key == NamedKey::Tab && back ==> bytes is Some && bytes->0@ == seq![
                27u8,
                '[' as u8,
                'Z' as u8,
            ]
            &&& key == NamedKey::Backspace ==> bytes is Some && bytes->0@ == escaped(127)
            &&& key == NamedKey::Escape ==> bytes is Some && bytes->0@ == escaped(27)
            &&& key == NamedKey::Space ==> bytes is Some && bytes->0@ == escaped(32)
            &&& key == NamedKey::F1 ==> bytes is Some && bytes->0@ == seq![27u8, 'O' as u8, 'P' as u8]
            &&& key == NamedKey::F2 ==> bytes is Some && bytes->0@ == seq![27u8, 'O' as u8, 'Q' as u8]
            &&& key == NamedKey::F3 ==> bytes is Some && bytes->0@ == seq![27u8, 'O' as u8, 'R' as u8]
            &&& key == NamedKey::F4 ==> bytes is Some && bytes->0@ == seq![27u8, 'O' as u8, 'S' as u8]
            &&& key == NamedKey::Unbound ==> bytes is None
        }),
{
}

/// The command key swallows every key press.
pub proof fn command_key_sends_nothing(
    logical: &Key,
    text: Option<&str>,
    mods: Modifiers,
    app_cursor: bool,
    bytes: Option<Vec<u8>>,
)
    requires
        call_ensures(encode_key, (logical, text, mods, app_cursor), bytes),
        mods.command,
    ensures
        bytes is None,
{
}

/// Typed text goes out as UTF-8, after an escape with alt. With control a single
/// character from `@` to `_`, or a lower-case letter, loses all but its low five
/// bits; a space gives 0 and a question mark 127; any other goes out as it is. The
/// text of the keyboard layout comes before the key's own character, unless it is
/// empty.
pub proof fn typed_text_is_sent(
    logical: &Key,
    text: Option<&str>,
    mods: Modifiers,
    app_cursor: bool,
    bytes: Option<Vec<u8>>,
    typed: Seq<char>,
)
    requires
        call_ensures(encode_key, (logical, text, mods, app_cursor), bytes),
        !mods.command,
        !(logical is Named),
        (if text is Some && text->0@.len() > 0 {
            typed == text->0@
        } else if logical is Character {
            typed == logical->Character_0@
        } else {
            typed == Seq::<char>::empty()
        }),
    ensures
        typed.len() == 0 ==> bytes is None,
        typed.len() > 0 ==> bytes is Some && ({
            let start = if mods.alt {
                seq![27u8]
            } else {
                Seq::<u8>::empty()
            };
            let c = typed[0];
            let code = c as int;
            bytes->0@ == if !mods.control || typed.len() > 1 {
                start + vstd::utf8::encode_utf8(typed)
            } else if '@' <= c <= '_' {
                start.push((code - 64) as u8)
            } else if 'a' <= c <= 'z' {
                start.push((code - 96) as u8)
            } else if c == ' ' {
                start.push(0)
            } else if c == '?' {
                start.push(127)
            } else {
                start + vstd::utf8::encode_utf8(typed)
            }
        }),
{
}

/// The control byte of a character: a letter's place in the alphabet, whatever its
/// case, and the place after `@` of the other characters up to `_`.
pub proof fn control_byte_is_the_low_five_bits(c: char, byte: Option<u8>)
    requires
        call_ensures(ctrl_byte, (c,), byte),
    ensures
        '@' <= c <= '_' ==> byte == Some((c as int - 64) as u8),
        'a' <= c <= 'z' ==> byte == Some((c as int - 96) as u8),
        c == ' ' ==> byte == Some(0u8),
        c == '?' ==> byte == Some(127u8),
        !('@' <= c <= '_') && !('a' <= c <= 'z') && c != ' ' && c != '?' ==> byte is None,
{
}

/// A mouse report names the button, the column and the row, in this order. The
/// button carries 32 for motion, 4 for shift, 8 for alt and 16 for control. The
/// newer form is `ESC [ <`, the three numbers in decimal, and `M` for a press or
/// `m` for a release. The older form is `ESC [ M` and one byte each, 32 higher and
/// at most 255, where a release is button 3.
pub proof fn mouse_report_names_button_column_and_row(
    button: u8,
    col: u16,
    row: u16,
    press: bool,
    motion: bool,
    sgr: bool,
    mods: Modifiers,
    bytes: Vec<u8>,
)
    requires
        call_ensures(encode_mouse, (button, col, row, press, motion, sgr, mods), bytes),
    ensures
        ({
            let b = button + (if motion {
                32int
            } else {
                0
            }) + (if mods.shift {
                4int
            } else {
                0
            }) + (if mods.alt {
                8int
            } else {
                0
            }) + (if mods.control {
                16int
            } else {
                0
            });
            let digits = (|n: int| ascii_bytes(decimal(n as nat)));
            let offset = (|n: int|
                (if n + 32 > 255 {
                    255u8
                } else {
                    (n + 32) as u8
                }));
            &&& sgr ==> bytes@ == seq![27u8, '[' as u8, '<' as u8] + digits(b) + seq![';' as u8]
                + digits(col as int) + seq![';' as u8] + digits(row as int) + seq![
                if press {
                    'M' as u8
                } else {
                    'm' as u8
                },
            ]
            &&& !sgr ==> bytes@ == seq![
                27u8,
                '[' as u8,
                'M' as u8,
                if press {
                    offset(b)
                } else {
                    35u8
                },
                offset(col as int),
                offset(row as int),
            ]
        }),
{
}

/// A named key sends what it sends in a key press, whether the command key is held or
/// not.
pub proof fn named_key_is_sent_as_pressed(
    key: NamedKey,
    text: Option<&str>,
    mods: Modifiers,
    plain: Modifiers,
    app_cursor: bool,
    alone: Option<Vec<u8>>,
    pressed: Option<Vec<u8>>,
)
    requires
        call_ensures(named_key, (key, mods, app_cursor), alone),
        call_ensures(encode_key, (&Key::Named(key), text, plain, app_cursor), pressed),
        plain == (Modifiers { command: false, ..mods }),
    ensures
        alone is Some <==> pressed is Some,
        alone is Some ==> alone->0@ == pressed->0@,
{
}

} // verus!
