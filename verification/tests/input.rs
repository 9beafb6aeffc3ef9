use yutani::input::{
    ctrl_byte, encode_key, encode_mouse, Key, Modifiers, NamedKey, WheelNotches, MOUSE_LEFT,
    MOUSE_RIGHT, MOUSE_WHEEL_UP,
};

const NONE: Modifiers = Modifiers { shift: false, alt: false, control: false, command: false };
const SHIFT: Modifiers = Modifiers { shift: true, ..NONE };
const ALT: Modifiers = Modifiers { alt: true, ..NONE };
const CONTROL: Modifiers = Modifiers { control: true, ..NONE };
const SUPER: Modifiers = Modifiers { command: true, ..NONE };

fn ch(c: &str) -> Key {
    Key::Character(c.to_string())
}

#[test]
fn plain_letter_passes_through() {
    assert_eq!(encode_key(&ch("a"), Some("a"), NONE, false), Some(b"a".to_vec()));
}

#[test]
fn ctrl_letter_becomes_control_code() {
    assert_eq!(encode_key(&ch("c"), None, CONTROL, false), Some(vec![0x03]));
}

#[test]
fn ctrl_shift_letter_still_folds() {
    let both = Modifiers { shift: true, ..CONTROL };
    assert_eq!(encode_key(&ch("A"), Some("A"), both, false), Some(vec![0x01]));
}

#[test]
fn ctrl_left_bracket_is_escape() {
    assert_eq!(encode_key(&ch("["), None, CONTROL, false), Some(vec![0x1b]));
}

#[test]
fn alt_letter_prefixes_esc() {
    assert_eq!(encode_key(&ch("a"), Some("a"), ALT, false), Some(vec![0x1b, b'a']));
}

#[test]
fn cmd_is_swallowed() {
    assert_eq!(encode_key(&ch("c"), Some("c"), SUPER, false), None);
}

#[test]
fn enter_is_carriage_return() {
    assert_eq!(encode_key(&Key::Named(NamedKey::Enter), None, NONE, false), Some(vec![b'\r']));
}

#[test]
fn backspace_is_del() {
    assert_eq!(encode_key(&Key::Named(NamedKey::Backspace), None, NONE, false), Some(vec![0x7f]));
}

#[test]
fn escape_key() {
    assert_eq!(encode_key(&Key::Named(NamedKey::Escape), None, NONE, false), Some(vec![0x1b]));
}

#[test]
fn arrow_up_unmodified() {
    assert_eq!(
        encode_key(&Key::Named(NamedKey::ArrowUp), None, NONE, false),
        Some(b"\x1b[A".to_vec()),
    );
}

#[test]
fn arrow_up_with_ctrl_uses_modifier_param() {
    assert_eq!(
        encode_key(&Key::Named(NamedKey::ArrowUp), None, CONTROL, false),
        Some(b"\x1b[1;5A".to_vec()),
    );
}

#[test]
fn shift_tab_is_cbt() {
    assert_eq!(
        encode_key(&Key::Named(NamedKey::Tab), None, SHIFT, false),
        Some(b"\x1b[Z".to_vec()),
    );
}

#[test]
fn function_keys() {
    assert_eq!(
        encode_key(&Key::Named(NamedKey::F1), None, NONE, false),
        Some(b"\x1bOP".to_vec()),
    );
    assert_eq!(
        encode_key(&Key::Named(NamedKey::F5), None, NONE, false),
        Some(b"\x1b[15~".to_vec()),
    );
}

#[test]
fn page_keys_with_modifiers() {
    assert_eq!(
        encode_key(&Key::Named(NamedKey::PageUp), None, SHIFT, false),
        Some(b"\x1b[5;2~".to_vec()),
    );
}

#[test]
fn arrow_in_app_cursor_mode_uses_ss3() {
    assert_eq!(
        encode_key(&Key::Named(NamedKey::ArrowUp), None, NONE, true),
        Some(b"\x1bOA".to_vec()),
    );
    assert_eq!(
        encode_key(&Key::Named(NamedKey::Home), None, NONE, true),
        Some(b"\x1bOH".to_vec()),
    );
}

#[test]
fn arrow_in_app_cursor_mode_falls_back_to_csi_with_modifiers() {
    assert_eq!(
        encode_key(&Key::Named(NamedKey::ArrowUp), None, CONTROL, true),
        Some(b"\x1b[1;5A".to_vec()),
    );
}

#[test]
fn mouse_sgr_press_and_release() {
    assert_eq!(
        encode_mouse(MOUSE_LEFT, 12, 5, true, false, true, NONE),
        b"\x1b[<0;12;5M".to_vec(),
    );
    assert_eq!(
        encode_mouse(MOUSE_LEFT, 12, 5, false, false, true, NONE),
        b"\x1b[<0;12;5m".to_vec(),
    );
}

#[test]
fn mouse_sgr_motion_and_modifiers() {
    assert_eq!(
        encode_mouse(MOUSE_RIGHT, 1, 1, true, true, true, SHIFT),
        b"\x1b[<38;1;1M".to_vec(),
    );
}

#[test]
fn mouse_legacy_x10_form() {
    assert_eq!(
        encode_mouse(MOUSE_LEFT, 1, 1, true, false, false, NONE),
        vec![0x1b, b'[', b'M', 32, 33, 33],
    );
}

#[test]
fn mouse_wheel_up() {
    assert_eq!(
        encode_mouse(MOUSE_WHEEL_UP, 5, 7, true, false, true, NONE),
        b"\x1b[<64;5;7M".to_vec(),
    );
}

#[test]
fn alt_enter_prefixes_esc() {
    assert_eq!(
        encode_key(&Key::Named(NamedKey::Enter), None, ALT, false),
        Some(vec![0x1b, b'\r']),
    );
}

#[test]
fn control_codes_cover_the_punctuation() {
    assert_eq!(ctrl_byte('a'), Some(1));
    assert_eq!(ctrl_byte('Z'), Some(26));
    assert_eq!(ctrl_byte('\\'), Some(0x1c));
    assert_eq!(ctrl_byte('é'), None);
}

#[test]
fn unbound_and_dead_keys_send_nothing() {
    assert_eq!(encode_key(&Key::Named(NamedKey::Unbound), None, NONE, false), None);
    assert_eq!(encode_key(&Key::Other, None, NONE, false), None);
}

#[test]
fn text_beyond_ascii_is_sent_as_utf8() {
    assert_eq!(
        encode_key(&ch("é"), Some("é"), NONE, false),
        Some("é".as_bytes().to_vec()),
    );
}

#[test]
fn no_notches_to_start_with() {
    assert_eq!(WheelNotches::default(), WheelNotches { up: 0, down: 0 });
}

#[test]
fn empty_text_is_no_text() {
    assert_eq!(encode_key(&ch("c"), Some(""), CONTROL, false), Some(vec![0x03]));
    assert_eq!(encode_key(&ch("x"), Some(""), NONE, false), Some(b"x".to_vec()));
    assert_eq!(encode_key(&Key::Other, Some(""), NONE, false), None);
}
