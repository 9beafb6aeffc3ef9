use yutani::pty::{emit_utf8, exit_code, login_argv0, user_zdotdir};

#[test]
fn ascii_passes_through() {
    let mut pending = b"hello".to_vec();
    assert_eq!(emit_utf8(&mut pending), "hello");
    assert!(pending.is_empty());
}

#[test]
fn split_multibyte_waits_for_rest() {
    let mut pending = vec![0xC3];
    let mut out = emit_utf8(&mut pending);
    assert_eq!(out, "");
    assert_eq!(pending, vec![0xC3]);

    pending.push(0xA9);
    out.push_str(&emit_utf8(&mut pending));
    assert_eq!(out, "é");
    assert!(pending.is_empty());
}

#[test]
fn valid_prefix_with_incomplete_tail() {
    let mut pending = vec![b'a', b'b', 0xC3];
    assert_eq!(emit_utf8(&mut pending), "ab");
    assert_eq!(pending, vec![0xC3]);
}

#[test]
fn invalid_byte_is_dropped() {
    let mut pending = vec![b'a', 0x80, b'b'];
    assert_eq!(emit_utf8(&mut pending), "ab");
    assert!(pending.is_empty());
}

#[test]
fn long_characters_pass_in_pieces() {
    let all = "a€😀b".as_bytes().to_vec();
    let mut pending = Vec::new();
    let mut out = String::new();
    for b in all {
        pending.push(b);
        out.push_str(&emit_utf8(&mut pending));
    }
    assert_eq!(out, "a€😀b");
    assert!(pending.is_empty());
}

#[test]
fn bad_sequences_are_dropped_as_the_decoder_splits_them() {
    let bytes: Vec<u8> = vec![0xE2, 0x82, b'x', 0xF5, 0xED, 0xA0, 0x80, b'y', 0xC0, 0xAF, b'z'];
    let mut pending = bytes.clone();
    let mut want = String::new();
    let mut rest: &[u8] = &bytes;
    while !rest.is_empty() {
        match std::str::from_utf8(rest) {
            Ok(s) => {
                want.push_str(s);
                rest = &[];
            }
            Err(e) => {
                want.push_str(std::str::from_utf8(&rest[..e.valid_up_to()]).unwrap());
                rest = match e.error_len() {
                    Some(n) => &rest[e.valid_up_to() + n..],
                    None => &[],
                };
            }
        }
    }
    assert_eq!(emit_utf8(&mut pending), want);
    assert_eq!(want, "xyz");
}

#[test]
fn exit_code_normal_zero() {
    assert_eq!(exit_code(0), 0);
}

#[test]
fn exit_code_normal_nonzero() {
    assert_eq!(exit_code(1 << 8), 1);
    assert_eq!(exit_code(42 << 8), 42);
}

#[test]
fn exit_code_signal_maps_to_128_plus_signal() {
    assert_eq!(exit_code(9), 137);
    assert_eq!(exit_code(15), 143);
}

#[test]
fn login_shell_has_a_dash() {
    assert_eq!(login_argv0(Some("zsh")), "-zsh");
    assert_eq!(login_argv0(None), "-sh");
}

#[test]
fn own_dotfiles_stay_in_use() {
    let (z, h) = (b"/z".to_vec(), b"/h".to_vec());
    assert_eq!(user_zdotdir(Some(z.clone()), Some(h.clone())), z);
    assert_eq!(user_zdotdir(Some(Vec::new()), Some(h.clone())), h);
    assert_eq!(user_zdotdir(None, Some(h.clone())), h);
    assert_eq!(user_zdotdir(None, None), Vec::<u8>::new());
}
