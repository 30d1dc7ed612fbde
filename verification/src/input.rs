//! What a foreground client does with the keys and bytes that it reads.

use vstd::prelude::*;
use vstd::slice::slice_subrange;
use vstd::slice::slice_to_vec;
use crate::escape;
use crate::escape::TerminalQuery;
use crate::frame;
use crate::frame::resize_payload;
use crate::frame::FRAME_RESIZE;
use crate::frame::FRAME_STDIN;
use crate::keys;
use crate::keys::encode_key_event;
use crate::keys::KeyEvent;
use crate::terminal::Terminal;
use crate::text;

verus! {

/// The byte of `Ctrl+]`, at which a client detaches.
pub const DETACH_BYTE: u8 = 0x1d;

/// What a client prints when it detaches.
pub const DETACH_HINT: &'static str =
    "\r\n[coder] Detached. Run `coder` again to reattach.\r\n";

/// Whether a byte may stand between the beginning and the end of a report.
pub open spec fn is_report_byte(b: u8) -> bool {
    0x30 <= b <= 0x39 || b == 0x3b
}

/// The end of the digits and semicolons at or after `i`.
pub open spec fn report_bytes_end(s: Seq<u8>, i: int) -> int
    decreases s.len() - i,
{
    if 0 <= i < s.len() && is_report_byte(s[i]) {
        report_bytes_end(s, i + 1)
    } else {
        i
    }
}

/// The length of the report that `s` begins with: `ESC [`, maybe `?`, then digits and
/// semicolons, at least one of them, and `R` or `n`.
pub open spec fn report_len(s: Seq<u8>) -> Option<int> {
    if s.len() > 2 && s[0] == escape::ESC && s[1] == 0x5b {
        let start: int = if s[2] == 0x3f {
            3
        } else {
            2
        };
        let end = report_bytes_end(s, start);
        if start < end < s.len() && (s[end] == 0x52 || s[end] == 0x6e) {
            Some(end + 1)
        } else {
            None
        }
    } else {
        None
    }
}

/// Input without the reports that a terminal sends on its own.
pub open spec fn without_reports(s: Seq<u8>) -> Seq<u8>
    decreases s.len(),
{
    if s.len() == 0 {
        Seq::empty()
    } else {
        match report_len(s) {
            Some(n) => without_reports(s.skip(n)),
            None => seq![s[0]] + without_reports(s.skip(1)),
        }
    }
}

fn find_report(input: &[u8]) -> (r: Option<usize>)
    ensures
        escape::length(r) == report_len(input@),
        r matches Some(n) ==> 0 < n <= input@.len(),
{
    if !(input.len() > 2 && input[0] == escape::ESC && input[1] == 0x5b) {
        return None;
    }
    let start: usize = if input[2] == 0x3f {
        3
    } else {
        2
    };
    let mut j: usize = start;
    while j < input.len() && ((0x30 <= input[j] && input[j] <= 0x39) || input[j] == 0x3b)
        invariant
            start <= j <= input@.len(),
            report_bytes_end(input@, start as int) == report_bytes_end(input@, j as int),
        decreases input@.len() - j,
    {
        j = j + 1;
    }
    if j < input.len() && (input[j] == 0x52 || input[j] == 0x6e) && j > start {
        Some(j + 1)
    } else {
        None
    }
}

/// Takes the reports that a terminal sends on its own out of the input.
pub fn normalize_terminal_input(input: &[u8]) -> (r: Vec<u8>)
    ensures
        r@ == without_reports(input@),
{
    let mut out: Vec<u8> = Vec::new();
    let mut i: usize = 0;
    assert(input@.skip(0) =~= input@);
    assert(out@ + without_reports(input@) =~= without_reports(input@));
    while i < input.len()
        invariant
            i <= input@.len(),
            out@ + without_reports(input@.skip(i as int)) == without_reports(input@),
        decreases input@.len() - i,
    {
        let ghost s = input@.skip(i as int);
        let tail: &[u8] = slice_subrange(input, i, input.len());
        assert(tail@ =~= s);
        if let Some(n) = find_report(tail) {
            assert(s.skip(n as int) =~= input@.skip(i + n));
            i = i + n;
            continue;
        }
        let ghost before = out@;
        out.push(input[i]);
        assert(s.skip(1) =~= input@.skip(i + 1));
        assert(before + (seq![s[0]] + without_reports(s.skip(1))) =~= out@ + without_reports(
            s.skip(1),
        ));
        i = i + 1;
    }
    assert(out@ + without_reports(input@.skip(i as int)) =~= out@);
    out
}

/// What a client reads from its terminal.
#[derive(Debug)]
pub enum InputEvent {
    Key(KeyEvent),
    Paste(String),
    /// The terminal has a new size, in columns and rows.
    Resize(u16, u16),
    /// Something that the program is not told of.
    Other,
    /// The terminal cannot be read any more.
    Failed,
}

/// What a client does about its input.
#[derive(Debug)]
pub enum InputAction {
    /// It reads on.
    Ignore,
    /// It sends a frame of the given kind to the broker.
    Send(u8, Vec<u8>),
    /// It detaches, and leaves the program running.
    Detach,
    /// It reads no more, and stays attached until the program ends.
    StayAttached,
}

/// The contents of an `InputAction`.
#[verifier::ext_equal]
pub enum Action {
    Ignore,
    Send(u8, Seq<u8>),
    Detach,
    StayAttached,
}

impl View for InputAction {
    type V = Action;

    open spec fn view(&self) -> Action {
        match self {
            InputAction::Ignore => Action::Ignore,
            InputAction::Send(kind, payload) => Action::Send(*kind, payload@),
            InputAction::Detach => Action::Detach,
            InputAction::StayAttached => Action::StayAttached,
        }
    }
}

/// What a client does about an event of its terminal.
pub open spec fn event_action(event: InputEvent) -> Action {
    match event {
        InputEvent::Key(key) => match keys::key_bytes(key) {
            None => Action::Ignore,
            Some(bytes) => if bytes.contains(DETACH_BYTE) {
                Action::Detach
            } else {
                Action::Send(FRAME_STDIN, bytes)
            },
        },
        InputEvent::Paste(text) => Action::Send(FRAME_STDIN, vstd::utf8::encode_utf8(text@)),
        InputEvent::Resize(cols, rows) => Action::Send(
            FRAME_RESIZE,
            frame::u16_le(cols) + frame::u16_le(rows),
        ),
        InputEvent::Other => Action::Ignore,
        InputEvent::Failed => Action::StayAttached,
    }
}

/// What a client does about one read of its input, which may have failed.
pub open spec fn read_action(read: Option<Seq<u8>>) -> Action {
    match read {
        None => Action::StayAttached,
        Some(bytes) => if bytes.len() == 0 {
            Action::StayAttached
        } else if bytes.contains(DETACH_BYTE) {
            Action::Detach
        } else if without_reports(bytes).len() == 0 {
            Action::Ignore
        } else {
            Action::Send(FRAME_STDIN, without_reports(bytes))
        },
    }
}

/// Bytes that may be missing, as a value.
pub open spec fn optional_bytes(read: Option<&[u8]>) -> Option<Seq<u8>> {
    match read {
        Some(bytes) => Some(bytes@),
        None => None,
    }
}

/// Whether an action sends the given frame.
pub open spec fn sends(action: InputAction, kind: u8, payload: Seq<u8>) -> bool {
    action matches InputAction::Send(k, bytes) && k == kind && bytes@ == payload
}

fn contains_byte(bytes: &[u8], wanted: u8) -> (r: bool)
    ensures
        r == bytes@.contains(wanted),
{
    let mut i: usize = 0;
    while i < bytes.len()
        invariant
            i <= bytes@.len(),
            forall|j: int| 0 <= j < i ==> bytes@[j] != wanted,
        decreases bytes@.len() - i,
    {
        if bytes[i] == wanted {
            assert(bytes@[i as int] == wanted);
            return true;
        }
        i = i + 1;
    }
    false
}

/// Decides about one event of the terminal.
pub fn handle_input_event(event: InputEvent) -> (r: InputAction)
    ensures
        match event {
            InputEvent::Key(key) => match keys::key_bytes(key) {
                None => r is Ignore,
                Some(bytes) => if bytes.contains(DETACH_BYTE) {
                    r is Detach
                } else {
                    sends(r, FRAME_STDIN, bytes)
                },
            },
            InputEvent::Paste(text) => sends(r, FRAME_STDIN, vstd::utf8::encode_utf8(text@)),
            InputEvent::Resize(cols, rows) => sends(
                r,
                FRAME_RESIZE,
                frame::u16_le(cols) + frame::u16_le(rows),
            ),
            InputEvent::Other => r is Ignore,
            InputEvent::Failed => r is StayAttached,
        },
        r@ == event_action(event),
{
    match event {
        InputEvent::Key(key) => match encode_key_event(key) {
            None => InputAction::Ignore,
            Some(encoded) => {
                if contains_byte(encoded.as_slice(), DETACH_BYTE) {
                    InputAction::Detach
                } else {
                    InputAction::Send(FRAME_STDIN, encoded)
                }
            },
        },
        InputEvent::Paste(text) => InputAction::Send(
            FRAME_STDIN,
            slice_to_vec(text.as_str().as_bytes()),
        ),
        InputEvent::Resize(cols, rows) => InputAction::Send(
            FRAME_RESIZE,
            resize_payload(cols, rows),
        ),
        InputEvent::Other => InputAction::Ignore,
        InputEvent::Failed => InputAction::StayAttached,
    }
}

/// Decides about the bytes of one read from an input that is no terminal. `None` stands for a
/// read that failed, no bytes for the end of the input.
pub fn handle_input_bytes(read: Option<&[u8]>) -> (r: InputAction)
    ensures
        match read {
            None => r is StayAttached,
            Some(bytes) => if bytes@.len() == 0 {
                r is StayAttached
            } else if bytes@.contains(DETACH_BYTE) {
                r is Detach
            } else if without_reports(bytes@).len() == 0 {
                r is Ignore
            } else {
                sends(r, FRAME_STDIN, without_reports(bytes@))
            },
        },
        r@ == read_action(optional_bytes(read)),
{
    match read {
        None => InputAction::StayAttached,
        Some(bytes) => {
            if bytes.len() == 0 {
                return InputAction::StayAttached;
            }
            if contains_byte(bytes, DETACH_BYTE) {
                return InputAction::Detach;
            }
            let filtered: Vec<u8> = normalize_terminal_input(bytes);
            if filtered.len() == 0 {
                InputAction::Ignore
            } else {
                InputAction::Send(FRAME_STDIN, filtered)
            }
        },
    }
}

/// `Ctrl+]` detaches, with shift or without.
pub proof fn law_control_bracket_detaches(shift: bool, kind: keys::KeyEventKind)
    requires
        kind != keys::KeyEventKind::Release,
    ensures
        ({
            let modifiers = keys::KeyModifiers { shift, alt: false, control: true };
            let bytes = keys::key_bytes(
                KeyEvent { code: keys::KeyCode::Char(']'), modifiers, kind },
            );
            bytes is Some && bytes->0.contains(DETACH_BYTE)
        }),
{
    let modifiers = keys::KeyModifiers { shift, alt: false, control: true };
    let event = KeyEvent { code: keys::KeyCode::Char(']'), modifiers, kind };
    assert(keys::key_bytes(event)->0[0] == DETACH_BYTE);
}

/// A bracket that AltGr types is sent to the program. It does not detach.
pub proof fn law_alt_gr_bracket_is_typed(shift: bool, kind: keys::KeyEventKind)
    requires
        kind != keys::KeyEventKind::Release,
    ensures
        ({
            let modifiers = keys::KeyModifiers { shift, alt: true, control: true };
            let bytes = keys::key_bytes(
                KeyEvent { code: keys::KeyCode::Char(']'), modifiers, kind },
            );
            bytes == Some(seq![0x5du8]) && !bytes->0.contains(DETACH_BYTE)
        }),
{
    vstd::utf8::is_ascii_chars_encode_utf8(seq![']']);
    assert(keys::utf8(']') =~= seq![0x5du8]);
}

/// Input without an escape byte is kept as it is, the delete byte among it.
pub proof fn law_plain_input_is_kept(plain: Seq<u8>, rest: Seq<u8>)
    requires
        !plain.contains(escape::ESC),
    ensures
        without_reports(plain + rest) == plain + without_reports(rest),
        without_reports(plain) == plain,
    decreases plain.len(),
{
    let none = Seq::<u8>::empty();
    if plain.len() == 0 {
        assert(plain + rest =~= rest);
        assert(plain + without_reports(rest) =~= without_reports(rest));
        assert(without_reports(plain) =~= plain);
    } else {
        assert(plain[0] != escape::ESC);
        let tail = plain.skip(1);
        assert forall|i: int| 0 <= i < tail.len() implies tail[i] != escape::ESC by {
            assert(tail[i] == plain[i + 1]);
        }
        law_plain_input_is_kept(tail, rest);
        assert((plain + rest).skip(1) =~= tail + rest);
        assert(seq![plain[0]] + tail =~= plain);
        assert(seq![plain[0]] + (tail + without_reports(rest)) =~= plain + without_reports(rest));
    }
}

proof fn lemma_report_bytes_end(s: Seq<u8>, i: int, end: int)
    requires
        0 <= i <= end < s.len(),
        forall|j: int| i <= j < end ==> is_report_byte(#[trigger] s[j]),
        !is_report_byte(s[end]),
    ensures
        report_bytes_end(s, i) == end,
    decreases end - i,
{
    if i < end {
        lemma_report_bytes_end(s, i + 1, end);
    }
}

/// The reports with which a terminal answers queries never reach the program as input.
pub proof fn law_reports_are_taken_out(terminal: Terminal, query: TerminalQuery, rest: Seq<u8>)
    ensures
        without_reports(terminal.reply(query) + rest) == without_reports(rest),
{
    let reply = terminal.reply(query);
    let s = reply + rest;
    let row = text::decimal(terminal.row() as nat);
    let col = text::decimal(terminal.col() as nat);
    text::lemma_decimal_value(terminal.row() as nat);
    text::lemma_decimal_value(terminal.col() as nat);
    let middle = row + seq![0x3bu8] + col;
    assert forall|j: int| 0 <= j < middle.len() implies is_report_byte(#[trigger] middle[j]) by {
        if j < row.len() {
            assert(text::is_digit(row[j]));
        } else if j > row.len() {
            assert(text::is_digit(col[j - row.len() - 1]));
        }
    }
    assert(text::is_digit(row[0]));
    let end = reply.len() - 1;
    match query {
        TerminalQuery::Status => {
            lemma_report_bytes_end(s, 2, end);
        },
        TerminalQuery::CursorPosition => {
            assert forall|j: int| 2 <= j < end implies is_report_byte(#[trigger] s[j]) by {
                assert(s[j] == middle[j - 2]);
            }
            assert(s[2] == middle[0] && middle[0] == row[0]);
            lemma_report_bytes_end(s, 2, end);
        },
        TerminalQuery::DecCursorPosition => {
            assert forall|j: int| 3 <= j < end implies is_report_byte(#[trigger] s[j]) by {
                assert(s[j] == middle[j - 3]);
            }
            lemma_report_bytes_end(s, 3, end);
        },
    }
    assert(s.skip(reply.len() as int) =~= rest);
}

/// A report is taken out wherever it stands: `ESC [`, with `?` or without, digits and semicolons,
/// at least one of them, and `R` or `n`.
pub proof fn law_every_report_is_taken_out(
    marked: bool,
    body: Seq<u8>,
    last: u8,
    rest: Seq<u8>,
)
    requires
        body.len() > 0,
        forall|i: int|
            0 <= i < body.len() ==> 0x30 <= #[trigger] body[i] <= 0x39 || body[i] == 0x3b,
        last == 0x52 || last == 0x6e,
    ensures
        ({
            let start = if marked {
                seq![0x1bu8, 0x5b, 0x3f]
            } else {
                seq![0x1bu8, 0x5b]
            };
            without_reports(start + body + seq![last] + rest) == without_reports(rest)
        }),
{
    let start = if marked {
        seq![0x1bu8, 0x5b, 0x3f]
    } else {
        seq![0x1bu8, 0x5b]
    };
    let s = start + body + seq![last] + rest;
    let from = start.len() as int;
    let end = from + body.len();
    assert(s[2] == (if marked {
        0x3fu8
    } else {
        body[0]
    }));
    assert forall|j: int| from <= j < end implies is_report_byte(#[trigger] s[j]) by {
        assert(s[j] == body[j - from]);
    }
    assert(s[end] == last);
    lemma_report_bytes_end(s, from, end);
    assert(s.skip(end + 1) =~= rest);
}

/// A byte that does not begin a report is kept, and what follows is treated as if it stood alone.
/// An escape byte begins none where digits and semicolons behind `ESC [`, or `ESC [ ?`, are missing
/// or are not followed by `R` or `n`.
pub proof fn law_other_input_is_kept(s: Seq<u8>, end: int)
    requires
        s.len() > 0,
        s.len() > 2 && s[0] == 0x1b && s[1] == 0x5b ==> ({
            let start: int = if s[2] == 0x3f {
                3
            } else {
                2
            };
            &&& start <= end <= s.len()
            &&& forall|j: int|
                start <= j < end ==> 0x30 <= #[trigger] s[j] <= 0x39 || s[j] == 0x3b
            &&& end < s.len() ==> !(0x30 <= s[end] <= 0x39 || s[end] == 0x3b)
            &&& end == s.len() || end == start || (s[end] != 0x52 && s[end] != 0x6e)
        }),
    ensures
        without_reports(s) == seq![s[0]] + without_reports(s.skip(1)),
        without_reports(Seq::empty()) == Seq::<u8>::empty(),
{
    if s.len() > 2 && s[0] == 0x1b && s[1] == 0x5b {
        let start: int = if s[2] == 0x3f {
            3
        } else {
            2
        };
        if end < s.len() {
            lemma_report_bytes_end(s, start, end);
        } else {
            lemma_report_bytes_to_the_end(s, start);
        }
    }
}

proof fn lemma_report_bytes_to_the_end(s: Seq<u8>, i: int)
    requires
        0 <= i <= s.len(),
        forall|j: int| i <= j < s.len() ==> is_report_byte(#[trigger] s[j]),
    ensures
        report_bytes_end(s, i) == s.len(),
    decreases s.len() - i,
{
    if i < s.len() {
        lemma_report_bytes_to_the_end(s, i + 1);
    }
}

/// What a terminal reads is sent to the program: keys as their bytes, unless the byte that detaches
/// is among them, a pasted text in full, a new size as such. Nothing is sent for anything else.
pub proof fn law_events_are_sent(key: KeyEvent, pasted: String, cols: u16, rows: u16, i: int)
    ensures
        keys::key_bytes(key) is None ==> event_action(InputEvent::Key(key)) == Action::Ignore,
        keys::key_bytes(key) matches Some(bytes) ==> (0 <= i < bytes.len() && bytes[i] == 0x1d
            ==> event_action(InputEvent::Key(key)) == Action::Detach),
        keys::key_bytes(key) matches Some(bytes) ==> ((forall|j: int|
            0 <= j < bytes.len() ==> bytes[j] != 0x1d) ==> event_action(InputEvent::Key(key))
            == Action::Send(10, bytes)),
        event_action(InputEvent::Paste(pasted)) == Action::Send(
            10,
            vstd::utf8::encode_utf8(pasted@),
        ),
        event_action(InputEvent::Resize(cols, rows)) == Action::Send(
            11,
            frame::u16_le(cols) + frame::u16_le(rows),
        ),
        event_action(InputEvent::Other) == Action::Ignore,
        event_action(InputEvent::Failed) == Action::StayAttached,
{
}

/// Bytes that are read are sent without reports, unless the byte that detaches is among them or
/// nothing is left of them. At the end of the input, and where it fails, the client stays attached.
pub proof fn law_reads_are_sent(bytes: Seq<u8>, i: int)
    ensures
        0 <= i < bytes.len() && bytes[i] == 0x1d ==> read_action(Some(bytes)) == Action::Detach,
        bytes.len() > 0 && (forall|j: int| 0 <= j < bytes.len() ==> bytes[j] != 0x1d)
            && without_reports(bytes).len() > 0 ==> read_action(Some(bytes)) == Action::Send(
            10,
            without_reports(bytes),
        ),
        bytes.len() > 0 && (forall|j: int| 0 <= j < bytes.len() ==> bytes[j] != 0x1d)
            && without_reports(bytes).len() == 0 ==> read_action(Some(bytes)) == Action::Ignore,
        read_action(Some(Seq::empty())) == Action::StayAttached,
        read_action(None) == Action::StayAttached,
{
}

#[verifier::spinoff_prover]
#[verifier::rlimit(50)]
proof fn lemma_cursor_keys_stay_attached(key: KeyEvent)
    requires
        key.kind != keys::KeyEventKind::Release,
        key.code == keys::KeyCode::Up
            || key.code == keys::KeyCode::Down
            || key.code == keys::KeyCode::Left
            || key.code == keys::KeyCode::Right
            || key.code == keys::KeyCode::Home
            || key.code == keys::KeyCode::End,
    ensures
        keys::key_bytes(key) matches Some(bytes) ==> !bytes.contains(DETACH_BYTE),
{
    keys::law_cursor_keys(key.modifiers, key.kind);
}

#[verifier::spinoff_prover]
#[verifier::rlimit(50)]
proof fn lemma_editing_keys_stay_attached(key: KeyEvent)
    requires
        key.kind != keys::KeyEventKind::Release,
        key.code == keys::KeyCode::Insert
            || key.code == keys::KeyCode::Delete
            || key.code == keys::KeyCode::PageUp
            || key.code == keys::KeyCode::PageDown,
    ensures
        keys::key_bytes(key) matches Some(bytes) ==> !bytes.contains(DETACH_BYTE),
{
    keys::law_editing_keys(key.modifiers, key.kind);
}

#[verifier::spinoff_prover]
#[verifier::rlimit(50)]
proof fn lemma_function_keys_stay_attached(key: KeyEvent)
    requires
        key.kind != keys::KeyEventKind::Release,
        key.code is F,
    ensures
        keys::key_bytes(key) matches Some(bytes) ==> !bytes.contains(DETACH_BYTE),
{
    if let keys::KeyCode::F(number) = key.code {
        keys::law_function_keys(number, key.modifiers, key.kind);
        keys::law_modifiers_add_up(key.modifiers);
        let bytes = keys::key_bytes(key)->0;
        assert forall|i: int| 0 <= i < bytes.len() implies bytes[i] != DETACH_BYTE by {
            if number == 0 || number > 12 {
            } else if keys::code_of(key.modifiers) is None {
                assert(bytes.len() <= 5);
            } else {
                assert(bytes.len() <= 8);
            }
        }
    }
}

#[verifier::spinoff_prover]
#[verifier::rlimit(50)]
proof fn lemma_plain_keys_stay_attached(key: KeyEvent)
    requires
        key.kind != keys::KeyEventKind::Release,
        key.code == keys::KeyCode::Backspace
            || key.code == keys::KeyCode::Enter
            || key.code == keys::KeyCode::Tab
            || key.code == keys::KeyCode::BackTab
            || key.code == keys::KeyCode::Esc
            || key.code == keys::KeyCode::Other,
    ensures
        keys::key_bytes(key) matches Some(bytes) ==> !bytes.contains(DETACH_BYTE),
{
    keys::law_plain_keys(key.modifiers, key.kind);
}

#[verifier::spinoff_prover]
#[verifier::rlimit(50)]
proof fn lemma_characters_stay_attached(key: KeyEvent)
    requires
        key.kind != keys::KeyEventKind::Release,
        key.code matches keys::KeyCode::Char(ch) && ch as int <= 0x7f && ch != ']' && ch as int != 0x1d,
    ensures
        keys::key_bytes(key) matches Some(bytes) ==> !bytes.contains(DETACH_BYTE),
{
    if let keys::KeyCode::Char(ch) = key.code {
        vstd::utf8::is_ascii_chars_encode_utf8(seq![ch]);
        vstd::utf8::is_ascii_chars_encode_utf8(seq![keys::shifted(ch)]);
        assert(keys::utf8(ch) =~= seq![ch as u8]);
        assert(keys::utf8(keys::shifted(ch)) =~= seq![keys::shifted(ch) as u8]);
        assert(keys::shifted(ch) as int != 0x1d);
    }
}

/// No key that types nothing, and no ASCII character but `]` and the control character that
/// `Ctrl+]` stands for, detaches with any modifiers.
pub proof fn law_no_other_key_detaches(key: KeyEvent)
    requires
        key.code matches keys::KeyCode::Char(ch) ==> ch as int <= 0x7f,
        key.code != keys::KeyCode::Char(']'),
        key.code matches keys::KeyCode::Char(ch) ==> ch as int != 0x1d,
    ensures
        event_action(InputEvent::Key(key)) != Action::Detach,
{
    if key.kind != keys::KeyEventKind::Release {
        match key.code {
            keys::KeyCode::Up | keys::KeyCode::Down | keys::KeyCode::Left | keys::KeyCode::Right
            | keys::KeyCode::Home | keys::KeyCode::End => lemma_cursor_keys_stay_attached(key),
            keys::KeyCode::Insert | keys::KeyCode::Delete | keys::KeyCode::PageUp
            | keys::KeyCode::PageDown => lemma_editing_keys_stay_attached(key),
            keys::KeyCode::F(_) => lemma_function_keys_stay_attached(key),
            keys::KeyCode::Char(_) => lemma_characters_stay_attached(key),
            _ => lemma_plain_keys_stay_attached(key),
        }
    }
}

} // verus!
