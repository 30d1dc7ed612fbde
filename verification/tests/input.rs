use coder::frame::FRAME_RESIZE;
use coder::frame::FRAME_STDIN;
use coder::input::DETACH_HINT;
use coder::input::InputAction;
use coder::input::InputEvent;
use coder::input::handle_input_bytes;
use coder::input::handle_input_event;
use coder::input::normalize_terminal_input;
use coder::keys::KeyCode;
use coder::keys::KeyEvent;
use coder::keys::KeyEventKind;
use coder::keys::KeyModifiers;
use coder::keys::encode_char;
use coder::keys::encode_control_char;
use coder::keys::encode_function_key;
use coder::keys::encode_key_event;
use coder::keys::modified_csi;
use coder::keys::modified_ss3_or_csi;
use coder::keys::modified_tilde;
use coder::keys::modifier_code;
use coder::keys::shifted_printable_char;

fn modifiers(shift: bool, alt: bool, control: bool) -> KeyModifiers {
    KeyModifiers { shift, alt, control }
}

fn encoded(code: KeyCode, modifiers: KeyModifiers) -> Option<Vec<u8>> {
    encode_key_event(KeyEvent::new(code, modifiers))
}

#[test]
fn preserves_del_backspace_byte_input() {
    assert_eq!(normalize_terminal_input(b"abc\x7f"), b"abc\x7f");
}

#[test]
fn encodes_backspace_as_del() {
    let event = KeyEvent::new(KeyCode::Backspace, KeyModifiers::none());

    assert_eq!(encode_key_event(event).as_deref(), Some(&b"\x7f"[..]));
}

#[test]
fn encodes_shift_arrows() {
    let event = KeyEvent::new(KeyCode::Left, modifiers(true, false, false));

    assert_eq!(encode_key_event(event).as_deref(), Some(&b"\x1b[1;2D"[..]));
}

#[test]
fn encodes_altgr_brackets_as_printable() {
    let modifiers = modifiers(false, true, true);

    let open = KeyEvent::new(KeyCode::Char('['), modifiers);
    let close = KeyEvent::new(KeyCode::Char(']'), modifiers);

    assert_eq!(encode_key_event(open).as_deref(), Some(&b"["[..]));
    assert_eq!(encode_key_event(close).as_deref(), Some(&b"]"[..]));
}

#[test]
fn preserves_shifted_bang_input() {
    let shifted_digit = KeyEvent::new(KeyCode::Char('1'), modifiers(true, false, false));
    let shifted_bang = KeyEvent::new(KeyCode::Char('!'), modifiers(true, false, false));

    assert_eq!(encode_key_event(shifted_digit).as_deref(), Some(&b"!"[..]));
    assert_eq!(encode_key_event(shifted_bang).as_deref(), Some(&b"!"[..]));
}

#[test]
fn strips_terminal_status_reports() {
    assert_eq!(normalize_terminal_input(b"a\x1b[1;2Rb\x1b[0nc"), b"abc");
}

#[test]
fn reports_need_a_digit_and_an_end() {
    assert_eq!(normalize_terminal_input(b"\x1b[?1;2R"), b"");
    assert_eq!(normalize_terminal_input(b"\x1b[R"), b"\x1b[R");
    assert_eq!(normalize_terminal_input(b"\x1b[?n"), b"\x1b[?n");
    assert_eq!(normalize_terminal_input(b"\x1b[12"), b"\x1b[12");
    assert_eq!(normalize_terminal_input(b"\x1b[1A"), b"\x1b[1A");
    assert_eq!(normalize_terminal_input(b"\x1b["), b"\x1b[");
    assert_eq!(normalize_terminal_input(b"\x1b\x1b[;nx"), b"\x1bx");
}

#[test]
fn plain_input_is_kept() {
    assert_eq!(normalize_terminal_input("grüße\r".as_bytes()), "grüße\r".as_bytes());
}

#[test]
fn keys_without_modifiers() {
    let none = KeyModifiers::none();
    let table: [(KeyCode, &[u8]); 15] = [
        (KeyCode::Enter, b"\r"),
        (KeyCode::Left, b"\x1b[D"),
        (KeyCode::Right, b"\x1b[C"),
        (KeyCode::Up, b"\x1b[A"),
        (KeyCode::Down, b"\x1b[B"),
        (KeyCode::Home, b"\x1b[H"),
        (KeyCode::End, b"\x1b[F"),
        (KeyCode::PageUp, b"\x1b[5~"),
        (KeyCode::PageDown, b"\x1b[6~"),
        (KeyCode::Tab, b"\t"),
        (KeyCode::BackTab, b"\x1b[Z"),
        (KeyCode::Delete, b"\x1b[3~"),
        (KeyCode::Insert, b"\x1b[2~"),
        (KeyCode::Esc, b"\x1b"),
        (KeyCode::Char('é'), "é".as_bytes()),
    ];
    for (code, bytes) in table {
        assert_eq!(encoded(code, none).as_deref(), Some(bytes));
    }
    assert_eq!(encoded(KeyCode::Other, none), None);
}

#[test]
fn keys_with_modifiers() {
    assert_eq!(encoded(KeyCode::Up, modifiers(true, true, true)), Some(b"\x1b\x1b[1;8A".to_vec()));
    assert_eq!(encoded(KeyCode::Delete, modifiers(false, false, true)), Some(b"\x1b[3;5~".to_vec()));
    assert_eq!(encoded(KeyCode::Enter, modifiers(false, true, false)), Some(b"\x1b\r".to_vec()));
    assert_eq!(encoded(KeyCode::Esc, modifiers(false, true, false)), Some(b"\x1b".to_vec()));
    assert_eq!(encoded(KeyCode::Char('x'), modifiers(false, true, false)), Some(b"\x1bx".to_vec()));
    assert_eq!(encoded(KeyCode::Char('c'), modifiers(false, false, true)), Some(vec![0x03]));
    assert_eq!(encoded(KeyCode::Char('C'), modifiers(true, false, true)), Some(vec![0x03]));
    assert_eq!(encoded(KeyCode::Char('1'), modifiers(false, false, true)), None);
    assert_eq!(encoded(KeyCode::Char('a'), modifiers(true, false, false)), Some(b"A".to_vec()));
}

#[test]
fn released_keys_send_nothing() {
    let event = KeyEvent {
        code: KeyCode::Char('a'),
        modifiers: KeyModifiers::none(),
        kind: KeyEventKind::Release,
    };
    assert_eq!(encode_key_event(event), None);
    let repeated = KeyEvent { kind: KeyEventKind::Repeat, ..event };
    assert_eq!(encode_key_event(repeated), Some(b"a".to_vec()));
}

#[test]
fn alt_gr_types_exactly_the_printable_characters() {
    for code in 0..=0x10ffffu32 {
        if let Some(ch) = char::from_u32(code) {
            let bytes = encoded(KeyCode::Char(ch), modifiers(false, true, true));
            if !ch.is_control() {
                assert_eq!(bytes, Some(ch.to_string().into_bytes()));
            } else {
                assert_eq!(bytes, None);
            }
        }
    }
}

#[test]
fn control_characters() {
    for (i, ch) in ('a'..='z').enumerate() {
        assert_eq!(encode_control_char(ch), Some(vec![i as u8 + 1]));
        assert_eq!(encode_control_char(ch.to_ascii_uppercase()), Some(vec![i as u8 + 1]));
    }
    assert_eq!(encode_control_char('@'), Some(vec![0x00]));
    assert_eq!(encode_control_char(' '), Some(vec![0x00]));
    assert_eq!(encode_control_char('['), Some(vec![0x1b]));
    assert_eq!(encode_control_char('\\'), Some(vec![0x1c]));
    assert_eq!(encode_control_char(']'), Some(vec![0x1d]));
    assert_eq!(encode_control_char('^'), Some(vec![0x1e]));
    assert_eq!(encode_control_char('_'), Some(vec![0x1f]));
    assert_eq!(encode_control_char('?'), None);
    assert_eq!(encode_control_char('é'), None);
}

#[test]
fn function_keys() {
    let none = KeyModifiers::none();
    let table: [&[u8]; 12] = [
        b"\x1bOP", b"\x1bOQ", b"\x1bOR", b"\x1bOS", b"\x1b[15~", b"\x1b[17~", b"\x1b[18~",
        b"\x1b[19~", b"\x1b[20~", b"\x1b[21~", b"\x1b[23~", b"\x1b[24~",
    ];
    for (i, bytes) in table.iter().enumerate() {
        assert_eq!(encode_function_key(i as u8 + 1, none), *bytes);
    }
    assert_eq!(encode_function_key(0, none), b"");
    assert_eq!(encode_function_key(13, none), b"");
    assert_eq!(encode_function_key(1, modifiers(false, false, true)), b"\x1b[1;5P");
    assert_eq!(encode_function_key(12, modifiers(true, false, false)), b"\x1b[24;2~");
    assert_eq!(encoded(KeyCode::F(5), none), Some(b"\x1b[15~".to_vec()));
    assert_eq!(encoded(KeyCode::F(13), none), Some(Vec::new()));
}

#[test]
fn modifier_codes() {
    assert_eq!(modifier_code(modifiers(false, false, false)), None);
    assert_eq!(modifier_code(modifiers(true, false, false)), Some(2));
    assert_eq!(modifier_code(modifiers(false, true, false)), Some(3));
    assert_eq!(modifier_code(modifiers(true, true, false)), Some(4));
    assert_eq!(modifier_code(modifiers(false, false, true)), Some(5));
    assert_eq!(modifier_code(modifiers(true, false, true)), Some(6));
    assert_eq!(modifier_code(modifiers(false, true, true)), Some(7));
    assert_eq!(modifier_code(modifiers(true, true, true)), Some(8));
    assert_eq!(modified_csi('H', modifiers(false, true, false)), b"\x1b[1;3H");
    assert_eq!(modified_tilde(200, modifiers(true, true, false)), b"\x1b[200;4~");
    assert_eq!(modified_ss3_or_csi('Q', KeyModifiers::none()), b"\x1bOQ");
}

#[test]
fn shifted_characters() {
    let shift = modifiers(true, false, false);
    for (plain, shifted) in "`1234567890-=[]\\;',./".chars().zip("~!@#$%^&*()_+{}|:\"<>?".chars()) {
        assert_eq!(shifted_printable_char(plain, shift), shifted);
        assert_eq!(shifted_printable_char(shifted, shift), shifted);
        assert_eq!(shifted_printable_char(plain, KeyModifiers::none()), plain);
    }
    assert_eq!(shifted_printable_char('z', shift), 'Z');
    assert_eq!(shifted_printable_char('ß', shift), 'ß');
}

#[test]
fn characters_are_encoded_as_utf8() {
    for ch in ['\0', 'a', 'é', '漢', '🎈'] {
        assert_eq!(encode_char(ch), ch.to_string().into_bytes());
    }
}

#[test]
fn control_bracket_detaches() {
    let key = KeyEvent::new(KeyCode::Char(']'), modifiers(false, false, true));
    assert!(matches!(handle_input_event(InputEvent::Key(key)), InputAction::Detach));
    let alt_gr = KeyEvent::new(KeyCode::Char(']'), modifiers(false, true, true));
    match handle_input_event(InputEvent::Key(alt_gr)) {
        InputAction::Send(kind, payload) => {
            assert_eq!(kind, FRAME_STDIN);
            assert_eq!(payload, b"]");
        }
        other => panic!("unexpected action {other:?}"),
    }
    assert_eq!(DETACH_HINT, "\r\n[coder] Detached. Run `coder` again to reattach.\r\n");
}

#[test]
fn events_become_frames() {
    match handle_input_event(InputEvent::Paste("a\u{1d}é".to_string())) {
        InputAction::Send(kind, payload) => {
            assert_eq!(kind, FRAME_STDIN);
            assert_eq!(payload, "a\u{1d}é".as_bytes());
        }
        other => panic!("unexpected action {other:?}"),
    }
    match handle_input_event(InputEvent::Resize(0x0102, 0x0304)) {
        InputAction::Send(kind, payload) => {
            assert_eq!(kind, FRAME_RESIZE);
            assert_eq!(payload, [0x02, 0x01, 0x04, 0x03]);
        }
        other => panic!("unexpected action {other:?}"),
    }
    let unknown = KeyEvent::new(KeyCode::Other, KeyModifiers::none());
    assert!(matches!(handle_input_event(InputEvent::Key(unknown)), InputAction::Ignore));
    assert!(matches!(handle_input_event(InputEvent::Other), InputAction::Ignore));
    assert!(matches!(handle_input_event(InputEvent::Failed), InputAction::StayAttached));
}

#[test]
fn bytes_become_frames() {
    assert!(matches!(handle_input_bytes(None), InputAction::StayAttached));
    assert!(matches!(handle_input_bytes(Some(b"")), InputAction::StayAttached));
    assert!(matches!(handle_input_bytes(Some(b"ab\x1dcd")), InputAction::Detach));
    assert!(matches!(handle_input_bytes(Some(b"\x1b[0n")), InputAction::Ignore));
    match handle_input_bytes(Some(b"l\x1b[5;1Rs\n")) {
        InputAction::Send(kind, payload) => {
            assert_eq!(kind, FRAME_STDIN);
            assert_eq!(payload, b"ls\n");
        }
        other => panic!("unexpected action {other:?}"),
    }
}
