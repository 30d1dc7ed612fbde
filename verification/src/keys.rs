//! Key presses, and the bytes that a terminal sends for them.

use vstd::prelude::*;
use vstd::slice::slice_to_vec;
use crate::text;
use crate::text::decimal_digits;

verus! {

/// What happened to a key.
#[derive(Clone, Copy, Debug, PartialEq, Eq, Structural)]
pub enum KeyEventKind {
    Press,
    Repeat,
    Release,
}

/// A key.
#[derive(Clone, Copy, Debug, PartialEq, Eq, Structural)]
pub enum KeyCode {
    Backspace,
    Enter,
    Left,
    Right,
    Up,
    Down,
    Home,
    End,
    PageUp,
    PageDown,
    Tab,
    BackTab,
    Delete,
    Insert,
    Esc,
    F(u8),
    Char(char),
    /// A key for which nothing is sent.
    Other,
}

/// The modifier keys that are held down.
#[derive(Clone, Copy, Debug, PartialEq, Eq, Structural)]
pub struct KeyModifiers {
    pub shift: bool,
    pub alt: bool,
    pub control: bool,
}

impl KeyModifiers {
    /// No modifier.
    pub fn none() -> (r: KeyModifiers)
        ensures
            r == (KeyModifiers { shift: false, alt: false, control: false }),
    {
        KeyModifiers { shift: false, alt: false, control: false }
    }
}

/// A key event.
#[derive(Clone, Copy, Debug, PartialEq, Eq, Structural)]
pub struct KeyEvent {
    pub code: KeyCode,
    pub modifiers: KeyModifiers,
    pub kind: KeyEventKind,
}

impl KeyEvent {
    /// A key that is pressed.
    pub fn new(code: KeyCode, modifiers: KeyModifiers) -> (r: KeyEvent)
        ensures
            r == (KeyEvent { code, modifiers, kind: KeyEventKind::Press }),
    {
        KeyEvent { code, modifiers, kind: KeyEventKind::Press }
    }
}

/// The encoding of one character.
pub open spec fn utf8(ch: char) -> Seq<u8> {
    vstd::utf8::encode_utf8(seq![ch])
}

/// The encoding of one character.
pub fn encode_char(ch: char) -> (r: Vec<u8>)
    ensures
        r@ == utf8(ch),
{
    let mut text = String::new();
    text.push(ch);
    assert(text@ =~= seq![ch]);
    slice_to_vec(text.as_str().as_bytes())
}

/// The number by which a sequence tells the modifiers: one more than the sum of 1 for shift, 2 for
/// alt and 4 for control.
pub open spec fn code_of(modifiers: KeyModifiers) -> Option<u8> {
    let shift: int = if modifiers.shift { 1 } else { 0 };
    let alt: int = if modifiers.alt { 2 } else { 0 };
    let control: int = if modifiers.control { 4 } else { 0 };
    if shift + alt + control == 0 {
        None
    } else {
        Some((1 + shift + alt + control) as u8)
    }
}

/// The number by which a sequence tells the modifiers. `None` where there are none.
pub fn modifier_code(modifiers: KeyModifiers) -> (r: Option<u8>)
    ensures
        r == code_of(modifiers),
{
    match (modifiers.shift, modifiers.alt, modifiers.control) {
        (false, false, false) => None,
        (true, false, false) => Some(2),
        (false, true, false) => Some(3),
        (true, true, false) => Some(4),
        (false, false, true) => Some(5),
        (true, false, true) => Some(6),
        (false, true, true) => Some(7),
        (true, true, true) => Some(8),
    }
}

/// `ESC [ final`, or `ESC [ 1 ; modifiers final`.
pub open spec fn csi_bytes(last: char, modifiers: KeyModifiers) -> Seq<u8> {
    match code_of(modifiers) {
        Some(code) => seq![0x1bu8, 0x5b, 0x31, 0x3b] + text::decimal(code as nat) + utf8(last),
        None => seq![0x1bu8, 0x5b] + utf8(last),
    }
}

/// `ESC O final`, or `ESC [ 1 ; modifiers final`.
pub open spec fn ss3_or_csi_bytes(last: char, modifiers: KeyModifiers) -> Seq<u8> {
    match code_of(modifiers) {
        Some(code) => csi_bytes(last, modifiers),
        None => seq![0x1bu8, 0x4f] + utf8(last),
    }
}

/// `ESC [ number ~`, or `ESC [ number ; modifiers ~`.
pub open spec fn tilde_bytes(number: u8, modifiers: KeyModifiers) -> Seq<u8> {
    match code_of(modifiers) {
        Some(code) => seq![0x1bu8, 0x5b] + text::decimal(number as nat) + seq![0x3bu8]
            + text::decimal(code as nat) + seq![0x7eu8],
        None => seq![0x1bu8, 0x5b] + text::decimal(number as nat) + seq![0x7eu8],
    }
}

/// The sequence of a key that ends in a letter.
pub fn modified_csi(final_byte: char, modifiers: KeyModifiers) -> (r: Vec<u8>)
    ensures
        r@ == csi_bytes(final_byte, modifiers),
{
    let mut out: Vec<u8> = Vec::new();
    out.push(0x1b);
    out.push(0x5b);
    if let Some(code) = modifier_code(modifiers) {
        out.push(0x31);
        out.push(0x3b);
        let mut digits: Vec<u8> = decimal_digits(code as u64);
        out.append(&mut digits);
    }
    let mut last: Vec<u8> = encode_char(final_byte);
    out.append(&mut last);
    assert(out@ =~= csi_bytes(final_byte, modifiers));
    out
}

/// The sequence of a key that ends in a tilde.
pub fn modified_tilde(prefix: u8, modifiers: KeyModifiers) -> (r: Vec<u8>)
    ensures
        r@ == tilde_bytes(prefix, modifiers),
{
    let mut out: Vec<u8> = Vec::new();
    out.push(0x1b);
    out.push(0x5b);
    let mut number: Vec<u8> = decimal_digits(prefix as u64);
    out.append(&mut number);
    if let Some(code) = modifier_code(modifiers) {
        out.push(0x3b);
        let mut digits: Vec<u8> = decimal_digits(code as u64);
        out.append(&mut digits);
    }
    out.push(0x7e);
    assert(out@ =~= tilde_bytes(prefix, modifiers));
    out
}

/// The sequence of one of the first four function keys.
pub fn modified_ss3_or_csi(final_byte: char, modifiers: KeyModifiers) -> (r: Vec<u8>)
    ensures
        r@ == ss3_or_csi_bytes(final_byte, modifiers),
{
    if modifier_code(modifiers).is_some() {
        modified_csi(final_byte, modifiers)
    } else {
        let mut out: Vec<u8> = Vec::new();
        out.push(0x1b);
        out.push(0x4f);
        let mut last: Vec<u8> = encode_char(final_byte);
        out.append(&mut last);
        assert(out@ =~= ss3_or_csi_bytes(final_byte, modifiers));
        out
    }
}

/// The sequence of a function key; nothing for a number that no key has.
pub open spec fn function_key_bytes(number: u8, modifiers: KeyModifiers) -> Seq<u8> {
    if number == 1 {
        ss3_or_csi_bytes('P', modifiers)
    } else if number == 2 {
        ss3_or_csi_bytes('Q', modifiers)
    } else if number == 3 {
        ss3_or_csi_bytes('R', modifiers)
    } else if number == 4 {
        ss3_or_csi_bytes('S', modifiers)
    } else if number == 5 {
        tilde_bytes(15, modifiers)
    } else if 6 <= number <= 10 {
        tilde_bytes((number + 11) as u8, modifiers)
    } else if 11 <= number <= 12 {
        tilde_bytes((number + 12) as u8, modifiers)
    } else {
        Seq::empty()
    }
}

/// The sequence of a function key.
pub fn encode_function_key(number: u8, modifiers: KeyModifiers) -> (r: Vec<u8>)
    ensures
        r@ == function_key_bytes(number, modifiers),
{
    if number == 1 {
        modified_ss3_or_csi('P', modifiers)
    } else if number == 2 {
        modified_ss3_or_csi('Q', modifiers)
    } else if number == 3 {
        modified_ss3_or_csi('R', modifiers)
    } else if number == 4 {
        modified_ss3_or_csi('S', modifiers)
    } else if number == 5 {
        modified_tilde(15, modifiers)
    } else if 6 <= number && number <= 10 {
        modified_tilde(number + 11, modifiers)
    } else if 11 <= number && number <= 12 {
        modified_tilde(number + 12, modifiers)
    } else {
        Vec::new()
    }
}

/// The character that a key gives together with shift, on a keyboard with the US layout.
pub open spec fn shifted(ch: char) -> char {
    if 'a' <= ch <= 'z' {
        (ch as int - 32) as char
    } else {
        match ch {
            '`' => '~',
            '1' => '!',
            '2' => '@',
            '3' => '#',
            '4' => '$',
            '5' => '%',
            '6' => '^',
            '7' => '&',
            '8' => '*',
            '9' => '(',
            '0' => ')',
            '-' => '_',
            '=' => '+',
            '[' => '{',
            ']' => '}',
            '\\' => '|',
            ';' => ':',
            '\'' => '"',
            ',' => '<',
            '.' => '>',
            '/' => '?',
            _ => ch,
        }
    }
}

/// The character that a key gives.
pub fn shifted_printable_char(ch: char, modifiers: KeyModifiers) -> (r: char)
    ensures
        r == (if modifiers.shift {
            shifted(ch)
        } else {
            ch
        }),
{
    if !modifiers.shift {
        return ch;
    }
    if 'a' <= ch && ch <= 'z' {
        return (ch as u8 - 32) as char;
    }
    match ch {
        '`' => '~',
        '1' => '!',
        '2' => '@',
        '3' => '#',
        '4' => '$',
        '5' => '%',
        '6' => '^',
        '7' => '&',
        '8' => '*',
        '9' => '(',
        '0' => ')',
        '-' => '_',
        '=' => '+',
        '[' => '{',
        ']' => '}',
        '\\' => '|',
        ';' => ':',
        '\'' => '"',
        ',' => '<',
        '.' => '>',
        '/' => '?',
        _ => ch,
    }
}

/// The control byte of a character: the low five bits of the upper-case letter or sign.
pub open spec fn control_byte(ch: char) -> Option<u8> {
    if 'a' <= ch <= 'z' {
        Some((ch as int - 96) as u8)
    } else if '@' <= ch <= '_' {
        Some((ch as int - 64) as u8)
    } else if ch == ' ' {
        Some(0u8)
    } else {
        None
    }
}

/// What is sent for a character together with control. `None` where there is no control byte.
pub fn encode_control_char(ch: char) -> (r: Option<Vec<u8>>)
    ensures
        match r {
            Some(bytes) => control_byte(ch) is Some && bytes@ == seq![control_byte(ch)->0],
            None => control_byte(ch) is None,
        },
{
    let byte: u8 = if 'a' <= ch && ch <= 'z' {
        ch as u8 - 96
    } else if '@' <= ch && ch <= '_' {
        ch as u8 - 64
    } else if ch == ' ' {
        0
    } else {
        return None;
    };
    let mut out: Vec<u8> = Vec::new();
    out.push(byte);
    assert(out@ =~= seq![byte]);
    Some(out)
}

/// Whether a character is a control character of Unicode.
pub open spec fn is_control(ch: char) -> bool {
    ch as int <= 0x1f || 0x7f <= ch as int <= 0x9f
}

/// Whether alt and control together type a character, as the AltGr key does.
pub open spec fn is_alt_gr(event: KeyEvent) -> bool {
    event.modifiers.alt && event.modifiers.control && (event.code matches KeyCode::Char(ch)
        && !is_control(ch))
}

/// What is sent for a key, but for the prefix that tells of alt.
pub open spec fn bare_key_bytes(event: KeyEvent) -> Option<Seq<u8>> {
    let modifiers = event.modifiers;
    match event.code {
        KeyCode::Backspace => Some(seq![0x7fu8]),
        KeyCode::Enter => Some(seq![0x0du8]),
        KeyCode::Left => Some(csi_bytes('D', modifiers)),
        KeyCode::Right => Some(csi_bytes('C', modifiers)),
        KeyCode::Up => Some(csi_bytes('A', modifiers)),
        KeyCode::Down => Some(csi_bytes('B', modifiers)),
        KeyCode::Home => Some(csi_bytes('H', modifiers)),
        KeyCode::End => Some(csi_bytes('F', modifiers)),
        KeyCode::PageUp => Some(tilde_bytes(5, modifiers)),
        KeyCode::PageDown => Some(tilde_bytes(6, modifiers)),
        KeyCode::Tab => Some(seq![0x09u8]),
        KeyCode::BackTab => Some(seq![0x1bu8, 0x5b, 0x5a]),
        KeyCode::Delete => Some(tilde_bytes(3, modifiers)),
        KeyCode::Insert => Some(tilde_bytes(2, modifiers)),
        KeyCode::Esc => Some(seq![0x1bu8]),
        KeyCode::F(number) => Some(function_key_bytes(number, modifiers)),
        KeyCode::Char(ch) => if is_alt_gr(event) {
            Some(utf8(ch))
        } else if modifiers.control {
            match control_byte(ch) {
                Some(byte) => Some(seq![byte]),
                None => None,
            }
        } else if modifiers.shift {
            Some(utf8(shifted(ch)))
        } else {
            Some(utf8(ch))
        },
        KeyCode::Other => None,
    }
}

/// What is sent for a key event.
pub open spec fn key_bytes(event: KeyEvent) -> Option<Seq<u8>> {
    if event.kind == KeyEventKind::Release {
        None
    } else {
        match bare_key_bytes(event) {
            None => None,
            Some(bytes) => if event.modifiers.alt && !is_alt_gr(event) && event.code
                != KeyCode::Esc {
                Some(seq![0x1bu8] + bytes)
            } else {
                Some(bytes)
            },
        }
    }
}

/// Encoded bytes, as a value.
pub open spec fn bytes_view(r: Option<Vec<u8>>) -> Option<Seq<u8>> {
    match r {
        Some(bytes) => Some(bytes@),
        None => None,
    }
}

fn one_byte(byte: u8) -> (r: Vec<u8>)
    ensures
        r@ == seq![byte],
{
    let mut out: Vec<u8> = Vec::new();
    out.push(byte);
    assert(out@ =~= seq![byte]);
    out
}

fn encode_bare_key(event: KeyEvent, alt_gr: bool) -> (r: Option<Vec<u8>>)
    requires
        alt_gr == is_alt_gr(event),
    ensures
        bytes_view(r) == bare_key_bytes(event),
{
    let modifiers: KeyModifiers = event.modifiers;
    match event.code {
        KeyCode::Backspace => Some(one_byte(0x7f)),
        KeyCode::Enter => Some(one_byte(0x0d)),
        KeyCode::Left => Some(modified_csi('D', modifiers)),
        KeyCode::Right => Some(modified_csi('C', modifiers)),
        KeyCode::Up => Some(modified_csi('A', modifiers)),
        KeyCode::Down => Some(modified_csi('B', modifiers)),
        KeyCode::Home => Some(modified_csi('H', modifiers)),
        KeyCode::End => Some(modified_csi('F', modifiers)),
        KeyCode::PageUp => Some(modified_tilde(5, modifiers)),
        KeyCode::PageDown => Some(modified_tilde(6, modifiers)),
        KeyCode::Tab => Some(one_byte(0x09)),
        KeyCode::BackTab => {
            let mut out: Vec<u8> = one_byte(0x1b);
            out.push(0x5b);
            out.push(0x5a);
            assert(out@ =~= seq![0x1bu8, 0x5b, 0x5a]);
            Some(out)
        },
        KeyCode::Delete => Some(modified_tilde(3, modifiers)),
        KeyCode::Insert => Some(modified_tilde(2, modifiers)),
        KeyCode::Esc => Some(one_byte(0x1b)),
        KeyCode::F(number) => Some(encode_function_key(number, modifiers)),
        KeyCode::Char(ch) => {
            if alt_gr {
                Some(encode_char(ch))
            } else if modifiers.control {
                encode_control_char(ch)
            } else {
                Some(encode_char(shifted_printable_char(ch, modifiers)))
            }
        },
        KeyCode::Other => None,
    }
}

/// The bytes that are sent for a key event. `None` where nothing is sent.
pub fn encode_key_event(event: KeyEvent) -> (r: Option<Vec<u8>>)
    ensures
        bytes_view(r) == key_bytes(event),
{
    if event.kind == KeyEventKind::Release {
        return None;
    }
    let alt_gr: bool = match event.code {
        KeyCode::Char(ch) => event.modifiers.alt && event.modifiers.control && !(ch as u32 <= 0x1f
            || (0x7f <= ch as u32 && ch as u32 <= 0x9f)),
        _ => false,
    };
    match encode_bare_key(event, alt_gr) {
        None => None,
        Some(mut encoded) => {
            if event.modifiers.alt && !alt_gr && event.code != KeyCode::Esc {
                let mut prefixed: Vec<u8> = one_byte(0x1b);
                let ghost bare = encoded@;
                prefixed.append(&mut encoded);
                assert(prefixed@ =~= seq![0x1bu8] + bare);
                Some(prefixed)
            } else {
                Some(encoded)
            }
        },
    }
}

/// Nothing is sent when a key is released.
pub proof fn law_release_sends_nothing(event: KeyEvent)
    requires
        event.kind == KeyEventKind::Release,
    ensures
        key_bytes(event) is None,
{
}

/// A character without alt and control is sent as its own encoding, shifted where shift is held,
/// and a decoder of UTF-8 gives it back.
pub proof fn law_typed_character_is_sent(ch: char, shift: bool, kind: KeyEventKind)
    requires
        kind != KeyEventKind::Release,
    ensures
        ({
            let modifiers = KeyModifiers { shift, alt: false, control: false };
            let bytes = key_bytes(KeyEvent { code: KeyCode::Char(ch), modifiers, kind });
            &&& bytes is Some
            &&& vstd::utf8::decode_utf8(bytes->0) == seq![
                if shift {
                    shifted(ch)
                } else {
                    ch
                },
            ]
        }),
{
    vstd::utf8::encode_utf8_decode_utf8(seq![ch]);
    vstd::utf8::encode_utf8_decode_utf8(seq![shifted(ch)]);
}

/// A character that AltGr types is sent as it is: it is neither a control byte nor prefixed.
pub proof fn law_alt_gr_types_character(ch: char, shift: bool, kind: KeyEventKind)
    requires
        kind != KeyEventKind::Release,
        !is_control(ch),
    ensures
        key_bytes(
            KeyEvent {
                code: KeyCode::Char(ch),
                modifiers: KeyModifiers { shift, alt: true, control: true },
                kind,
            },
        ) == Some(utf8(ch)),
{
}

/// The sequences tell every set of modifiers from every other.
pub proof fn law_modifier_codes_differ(a: KeyModifiers, b: KeyModifiers)
    requires
        code_of(a) == code_of(b),
    ensures
        a == b,
{
}

/// Shift changes a character at most once: what it gives is not shifted again.
pub proof fn law_shift_is_idempotent(ch: char)
    ensures
        shifted(shifted(ch)) == shifted(ch),
{
}

proof fn lemma_utf8_ascii(ch: char)
    requires
        ch as int <= 0x7f,
    ensures
        utf8(ch) == seq![ch as u8],
{
    vstd::utf8::is_ascii_chars_encode_utf8(seq![ch]);
    assert(utf8(ch) =~= seq![ch as u8]);
}

/// The number that stands for the modifiers in a sequence counts 1 for shift, 2 for alt and 4 for
/// control, from 1 on.
pub proof fn law_modifiers_add_up(modifiers: KeyModifiers)
    ensures
        !modifiers.shift && !modifiers.alt && !modifiers.control ==> code_of(modifiers) is None,
        modifiers.shift || modifiers.alt || modifiers.control ==> (code_of(modifiers) matches Some(
            code,
        ) && ((code - 1) % 2 == 1) == modifiers.shift && ((code - 1) / 2 % 2 == 1)
            == modifiers.alt && ((code - 1) / 4 == 1) == modifiers.control && code <= 8),
{
}

/// Cursor keys are sent as `ESC [` and a letter of their own, with `1 ;` and the modifiers between
/// them where there are any, and all of it behind one more `ESC` where alt is held.
#[verifier::spinoff_prover]
#[verifier::rlimit(40)]
pub proof fn law_cursor_keys(modifiers: KeyModifiers, kind: KeyEventKind)
    requires
        kind != KeyEventKind::Release,
    ensures
        ({
            let sent = |code: KeyCode| key_bytes(KeyEvent { code, modifiers, kind });
            let prefix = if modifiers.alt {
                seq![0x1bu8]
            } else {
                Seq::empty()
            };
            let with = |last: u8|
                match code_of(modifiers) {
                    None => Some(seq![0x1bu8, 0x5b, last]),
                    Some(code) => Some(
                        prefix + seq![0x1bu8, 0x5b, 0x31, 0x3b, (48 + code) as u8, last],
                    ),
                };
            &&& sent(KeyCode::Up) == with(0x41)
            &&& sent(KeyCode::Down) == with(0x42)
            &&& sent(KeyCode::Right) == with(0x43)
            &&& sent(KeyCode::Left) == with(0x44)
            &&& sent(KeyCode::End) == with(0x46)
            &&& sent(KeyCode::Home) == with(0x48)
        }),
{
    let prefix = if modifiers.alt {
        seq![0x1bu8]
    } else {
        Seq::empty()
    };
    lemma_csi_key(modifiers, 'A', prefix);
    lemma_csi_key(modifiers, 'B', prefix);
    lemma_csi_key(modifiers, 'C', prefix);
    lemma_csi_key(modifiers, 'D', prefix);
    lemma_csi_key(modifiers, 'F', prefix);
    lemma_csi_key(modifiers, 'H', prefix);
}

proof fn lemma_csi_key(modifiers: KeyModifiers, last: char, prefix: Seq<u8>)
    requires
        last as int <= 0x7f,
        prefix == (if modifiers.alt {
            seq![0x1bu8]
        } else {
            Seq::empty()
        }),
    ensures
        code_of(modifiers) is None ==> csi_bytes(last, modifiers) == seq![0x1bu8, 0x5b, last as u8]
            && !modifiers.alt,
        code_of(modifiers) matches Some(code) ==> csi_bytes(last, modifiers) == seq![
            0x1bu8,
            0x5b,
            0x31,
            0x3b,
            (48 + code) as u8,
            last as u8,
        ] && (modifiers.alt ==> prefix + csi_bytes(last, modifiers) == seq![0x1bu8] + csi_bytes(
            last,
            modifiers,
        )) && (!modifiers.alt ==> prefix + csi_bytes(last, modifiers) == csi_bytes(
            last,
            modifiers,
        )),
{
    lemma_utf8_ascii(last);
    match code_of(modifiers) {
        None => {
            assert(csi_bytes(last, modifiers) =~= seq![0x1bu8, 0x5b, last as u8]);
        },
        Some(code) => {
            assert(text::decimal(code as nat) =~= seq![(48 + code) as u8]);
            assert(csi_bytes(last, modifiers) =~= seq![
                0x1bu8,
                0x5b,
                0x31,
                0x3b,
                (48 + code) as u8,
                last as u8,
            ]);
            assert(Seq::<u8>::empty() + csi_bytes(last, modifiers) =~= csi_bytes(last, modifiers));
        },
    }
}

/// Editing keys are sent as `ESC [`, a digit of their own and `~`, with `;` and the modifiers
/// before the `~` where there are any, and all of it behind one more `ESC` where alt is held.
#[verifier::spinoff_prover]
#[verifier::rlimit(40)]
pub proof fn law_editing_keys(modifiers: KeyModifiers, kind: KeyEventKind)
    requires
        kind != KeyEventKind::Release,
    ensures
        ({
            let sent = |code: KeyCode| key_bytes(KeyEvent { code, modifiers, kind });
            let prefix = if modifiers.alt {
                seq![0x1bu8]
            } else {
                Seq::empty()
            };
            let with = |digit: u8|
                match code_of(modifiers) {
                    None => Some(seq![0x1bu8, 0x5b, digit, 0x7e]),
                    Some(code) => Some(
                        prefix + seq![0x1bu8, 0x5b, digit, 0x3b, (48 + code) as u8, 0x7e],
                    ),
                };
            &&& sent(KeyCode::Insert) == with(0x32)
            &&& sent(KeyCode::Delete) == with(0x33)
            &&& sent(KeyCode::PageUp) == with(0x35)
            &&& sent(KeyCode::PageDown) == with(0x36)
        }),
{
    lemma_tilde_key(modifiers, 2, seq![0x32u8]);
    lemma_tilde_key(modifiers, 3, seq![0x33u8]);
    lemma_tilde_key(modifiers, 5, seq![0x35u8]);
    lemma_tilde_key(modifiers, 6, seq![0x36u8]);
    assert(text::decimal(2) =~= seq![0x32u8]);
    assert(text::decimal(3) =~= seq![0x33u8]);
    assert(text::decimal(5) =~= seq![0x35u8]);
    assert(text::decimal(6) =~= seq![0x36u8]);
    lemma_join_tilde(modifiers, 0x32);
    lemma_join_tilde(modifiers, 0x33);
    lemma_join_tilde(modifiers, 0x35);
    lemma_join_tilde(modifiers, 0x36);
}

proof fn lemma_join_tilde(modifiers: KeyModifiers, digit: u8)
    ensures
        seq![0x1bu8, 0x5b] + seq![digit] + seq![0x7eu8] == seq![0x1bu8, 0x5b, digit, 0x7e],
        code_of(modifiers) matches Some(code) ==> {
            let bytes = seq![0x1bu8, 0x5b, digit, 0x3b, (48 + code) as u8, 0x7e];
            &&& seq![0x1bu8, 0x5b] + seq![digit] + seq![0x3bu8, (48 + code) as u8, 0x7e] == bytes
            &&& Seq::<u8>::empty() + bytes == bytes
        },
{
    assert(seq![0x1bu8, 0x5b] + seq![digit] + seq![0x7eu8] =~= seq![0x1bu8, 0x5b, digit, 0x7e]);
    if let Some(code) = code_of(modifiers) {
        let bytes = seq![0x1bu8, 0x5b, digit, 0x3b, (48 + code) as u8, 0x7e];
        assert(seq![0x1bu8, 0x5b] + seq![digit] + seq![0x3bu8, (48 + code) as u8, 0x7e] =~= bytes);
        assert(Seq::<u8>::empty() + bytes =~= bytes);
    }
}

proof fn lemma_tilde_key(modifiers: KeyModifiers, number: u8, digits: Seq<u8>)
    requires
        text::decimal(number as nat) == digits,
    ensures
        code_of(modifiers) is None ==> tilde_bytes(number, modifiers) == seq![0x1bu8, 0x5b] + digits
            + seq![0x7eu8] && !modifiers.alt,
        code_of(modifiers) matches Some(code) ==> tilde_bytes(number, modifiers) == seq![
            0x1bu8,
            0x5b,
        ] + digits + seq![0x3bu8, (48 + code) as u8, 0x7e],
{
    if let Some(code) = code_of(modifiers) {
        assert(text::decimal(code as nat) =~= seq![(48 + code) as u8]);
        assert(tilde_bytes(number, modifiers) =~= seq![0x1bu8, 0x5b] + digits + seq![
            0x3bu8,
            (48 + code) as u8,
            0x7e,
        ]);
    }
}

/// Function keys: the first four as `ESC O` and a letter from `P` on, or with modifiers as cursor
/// keys are; the others as editing keys are, with numbers from 15 on that leave out 16 and 22.
/// Keys with other numbers send nothing of their own.
#[verifier::spinoff_prover]
#[verifier::rlimit(40)]
pub proof fn law_function_keys(number: u8, modifiers: KeyModifiers, kind: KeyEventKind)
    requires
        kind != KeyEventKind::Release,
    ensures
        ({
            let sent = key_bytes(KeyEvent { code: KeyCode::F(number), modifiers, kind });
            let prefix = if modifiers.alt {
                seq![0x1bu8]
            } else {
                Seq::empty()
            };
            let letter = (0x4f + number) as u8;
            let place: int = if number <= 5 {
                number + 10
            } else if number <= 10 {
                number + 11
            } else {
                number + 12
            };
            let (ten, one) = ((48 + place / 10) as u8, (48 + place % 10) as u8);
            &&& 1 <= number <= 4 && code_of(modifiers) is None ==> sent == Some(
                seq![0x1bu8, 0x4f, letter],
            )
            &&& 1 <= number <= 4 ==> (code_of(modifiers) matches Some(code) ==> sent == Some(
                prefix + seq![0x1bu8, 0x5b, 0x31, 0x3b, (48 + code) as u8, letter],
            ))
            &&& 5 <= number <= 12 && code_of(modifiers) is None ==> sent == Some(
                seq![0x1bu8, 0x5b, ten, one, 0x7e],
            )
            &&& 5 <= number <= 12 ==> (code_of(modifiers) matches Some(code) ==> sent == Some(
                prefix + seq![0x1bu8, 0x5b, ten, one, 0x3b, (48 + code) as u8, 0x7e],
            ))
            &&& number == 0 || number > 12 ==> sent == Some(prefix)
        }),
{
    let prefix = if modifiers.alt {
        seq![0x1bu8]
    } else {
        Seq::empty()
    };
    let none = Seq::<u8>::empty();
    if 1 <= number <= 4 {
        let last: char = if number == 1 {
            'P'
        } else if number == 2 {
            'Q'
        } else if number == 3 {
            'R'
        } else {
            'S'
        };
        lemma_csi_key(modifiers, last, prefix);
        lemma_utf8_ascii(last);
        assert(last as u8 == 0x4f + number);
        assert(seq![0x1bu8, 0x4f] + utf8(last) =~= seq![0x1bu8, 0x4f, last as u8]);
        assert(none + csi_bytes(last, modifiers) =~= csi_bytes(last, modifiers));
    } else if 5 <= number <= 12 {
        let place: int = if number <= 5 {
            number + 10
        } else if number <= 10 {
            number + 11
        } else {
            number + 12
        };
        let ten = (48 + place / 10) as u8;
        let one = (48 + place % 10) as u8;
        text::law_decimal_grows_by_digits((place / 10) as nat, (place % 10) as nat);
        text::law_decimal_grows_by_digits(0, (place / 10) as nat);
        assert(text::decimal(place as nat) =~= seq![ten, one]);
        lemma_tilde_key(modifiers, place as u8, seq![ten, one]);
        assert(seq![0x1bu8, 0x5b] + seq![ten, one] + seq![0x7eu8] =~= seq![
            0x1bu8,
            0x5b,
            ten,
            one,
            0x7e,
        ]);
        if let Some(code) = code_of(modifiers) {
            let bytes = seq![0x1bu8, 0x5b, ten, one, 0x3b, (48 + code) as u8, 0x7e];
            assert(seq![0x1bu8, 0x5b] + seq![ten, one] + seq![0x3bu8, (48 + code) as u8, 0x7e]
                =~= bytes);
            assert(none + bytes =~= bytes);
        }
    } else {
        assert(seq![0x1bu8] + none =~= seq![0x1bu8]);
    }
}

/// Enter, tab, backspace and backtab are sent alike with all modifiers, behind `ESC` where alt is
/// held. Escape is always one byte.
pub proof fn law_plain_keys(modifiers: KeyModifiers, kind: KeyEventKind)
    requires
        kind != KeyEventKind::Release,
    ensures
        ({
            let sent = |code: KeyCode| key_bytes(KeyEvent { code, modifiers, kind });
            let prefix = if modifiers.alt {
                seq![0x1bu8]
            } else {
                Seq::empty()
            };
            &&& sent(KeyCode::Backspace) == Some(prefix + seq![0x7fu8])
            &&& sent(KeyCode::Enter) == Some(prefix + seq![0x0du8])
            &&& sent(KeyCode::Tab) == Some(prefix + seq![0x09u8])
            &&& sent(KeyCode::BackTab) == Some(prefix + seq![0x1bu8, 0x5b, 0x5a])
            &&& sent(KeyCode::Esc) == Some(seq![0x1bu8])
            &&& sent(KeyCode::Other) is None
        }),
{
    let none = Seq::<u8>::empty();
    assert(none + seq![0x7fu8] =~= seq![0x7fu8]);
    assert(none + seq![0x0du8] =~= seq![0x0du8]);
    assert(none + seq![0x09u8] =~= seq![0x09u8]);
    assert(none + seq![0x1bu8, 0x5b, 0x5a] =~= seq![0x1bu8, 0x5b, 0x5a]);
}

/// A character together with control, and without alt, is sent as one byte: letters of either case
/// count from 1, `@` and the blank are 0, and the signs from `[` to `_` go on from 27. Nothing is
/// sent for any other character.
pub proof fn law_control_characters(ch: char, shift: bool, kind: KeyEventKind)
    requires
        kind != KeyEventKind::Release,
    ensures
        ({
            let modifiers = KeyModifiers { shift, alt: false, control: true };
            let sent = key_bytes(KeyEvent { code: KeyCode::Char(ch), modifiers, kind });
            let code = ch as int;
            &&& 0x61 <= code <= 0x7a ==> sent == Some(seq![(code - 0x60) as u8])
            &&& 0x41 <= code <= 0x5a ==> sent == Some(seq![(code - 0x40) as u8])
            &&& code == 0x40 || code == 0x20 ==> sent == Some(seq![0u8])
            &&& 0x5b <= code <= 0x5f ==> sent == Some(seq![(code - 0x5b + 27) as u8])
            &&& code < 0x20 || (0x20 < code < 0x40) || code == 0x60 || code > 0x7a ==> sent is None
        }),
{
}

/// Alt alone puts `ESC` before what a character sends without it. With alt and control, a control
/// character sends nothing.
pub proof fn law_alt_prefixes_characters(ch: char, shift: bool, kind: KeyEventKind)
    requires
        kind != KeyEventKind::Release,
    ensures
        ({
            let sent = |alt: bool, control: bool|
                key_bytes(
                    KeyEvent {
                        code: KeyCode::Char(ch),
                        modifiers: KeyModifiers { shift, alt, control },
                        kind,
                    },
                );
            &&& sent(false, false) matches Some(bytes)
            &&& sent(true, false) == Some(seq![0x1bu8] + bytes)
            &&& ch as int <= 0x1f || 0x7f <= ch as int <= 0x9f ==> sent(true, true) is None
            &&& !(ch as int <= 0x1f || 0x7f <= ch as int <= 0x9f) ==> sent(true, true) == Some(
                vstd::utf8::encode_utf8(seq![ch]),
            )
        }),
{
}

/// Shift turns small letters into capital ones and the signs of a US keyboard into those above
/// them. It changes no other character.
pub proof fn law_shift_table(ch: char)
    ensures
        'a' <= ch <= 'z' ==> shifted(ch) as int == ch as int - 32,
        ({
            let plain = seq![
                '`', '1', '2', '3', '4', '5', '6', '7', '8', '9', '0', '-', '=', '[', ']', '\\',
                ';', '\'', ',', '.', '/',
            ];
            let above = seq![
                '~', '!', '@', '#', '$', '%', '^', '&', '*', '(', ')', '_', '+', '{', '}', '|', ':',
                '"', '<', '>', '?',
            ];
            &&& forall|i: int| 0 <= i < 21 ==> shifted(#[trigger] plain[i]) == above[i]
            &&& !('a' <= ch <= 'z') && !plain.contains(ch) ==> shifted(ch) == ch
        }),
{
    let plain = seq![
        '`', '1', '2', '3', '4', '5', '6', '7', '8', '9', '0', '-', '=', '[', ']', '\\', ';', '\'',
        ',', '.', '/',
    ];
    if !plain.contains(ch) {
        assert(ch != plain[0] && ch != plain[1] && ch != plain[2] && ch != plain[3] && ch
            != plain[4] && ch != plain[5] && ch != plain[6] && ch != plain[7] && ch != plain[8]
            && ch != plain[9] && ch != plain[10] && ch != plain[11] && ch != plain[12] && ch
            != plain[13] && ch != plain[14] && ch != plain[15] && ch != plain[16] && ch
            != plain[17] && ch != plain[18] && ch != plain[19] && ch != plain[20]);
    }
}

/// A key that repeats sends what it sends when it is pressed.
pub proof fn law_repeated_key_sends_the_same(event: KeyEvent)
    ensures
        key_bytes(KeyEvent { kind: KeyEventKind::Repeat, ..event }) == key_bytes(
            KeyEvent { kind: KeyEventKind::Press, ..event },
        ),
{
}

/// Whatever letter or number a key has, its sequence holds it in full, and the modifiers between
/// it and the beginning, or behind it, where there are any.
pub proof fn law_sequences_hold_letter_and_number(last: char, number: u8, modifiers: KeyModifiers)
    ensures
        ({
            let letter = vstd::utf8::encode_utf8(seq![last]);
            let digits = text::decimal(number as nat);
            match code_of(modifiers) {
                None => {
                    &&& csi_bytes(last, modifiers) == seq![0x1bu8, 0x5b] + letter
                    &&& ss3_or_csi_bytes(last, modifiers) == seq![0x1bu8, 0x4f] + letter
                    &&& tilde_bytes(number, modifiers) == seq![0x1bu8, 0x5b] + digits
                        + seq![0x7eu8]
                },
                Some(code) => {
                    &&& csi_bytes(last, modifiers) == seq![
                        0x1bu8,
                        0x5b,
                        0x31,
                        0x3b,
                        (48 + code) as u8,
                    ] + letter
                    &&& ss3_or_csi_bytes(last, modifiers) == csi_bytes(last, modifiers)
                    &&& tilde_bytes(number, modifiers) == seq![0x1bu8, 0x5b] + digits + seq![
                        0x3bu8,
                        (48 + code) as u8,
                        0x7e,
                    ]
                },
            }
        }),
{
    if let Some(code) = code_of(modifiers) {
        assert(text::decimal(code as nat) =~= seq![(48 + code) as u8]);
        assert(csi_bytes(last, modifiers) =~= seq![0x1bu8, 0x5b, 0x31, 0x3b, (48 + code) as u8]
            + utf8(last));
        lemma_tilde_key(modifiers, number, text::decimal(number as nat));
    }
}

} // verus!
