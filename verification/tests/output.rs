use coder::escape::TerminalQuery;
use coder::escape::ansi_escape_len;
use coder::escape::csi_param;
use coder::escape::csi_params;
use coder::escape::parse_csi_param;
use coder::escape::starts_incomplete_escape;
use coder::escape::terminal_query_at;
use coder::foreground::CURSOR_HIDE;
use coder::foreground::CURSOR_SHOW;
use coder::foreground::ClientEvent;
use coder::foreground::ClientSession;
use coder::foreground::ClientStep;
use coder::foreground::ForegroundOutputFilter;
use coder::frame::FRAME_EXIT;
use coder::frame::FRAME_STDIN;
use coder::frame::FRAME_STDOUT;
use coder::output::TerminalOutputFilter;
use coder::shared::Shared;
use coder::shared::answer_terminal_query;
use coder::terminal::Terminal;
use coder::terminal::cursor_position;
use coder::terminal::query_reply;
use coder::terminal::resize_terminal;
use coder::terminal::set_cursor_position;
use coder::terminal::terminal_size;
use coder::terminal::update_cursor_from_byte;
use coder::terminal::update_cursor_from_escape;

fn process_test_output(shared: &mut Shared, chunk: &[u8]) -> Vec<u8> {
    TerminalOutputFilter::default().process(shared, chunk)
}

fn terminal(cols: u16, rows: u16, col: u16, row: u16) -> Terminal {
    Terminal { cols, rows, cursor_col: col, cursor_row: row }
}

#[test]
fn strips_terminal_queries_from_visible_output() {
    let mut shared = Shared::new();

    let output = process_test_output(&mut shared, b"a\x1b[6nb\x1b[5nc\x1b[?6nd");

    assert_eq!(output, b"abcd");
}

#[test]
fn strips_split_terminal_queries_from_visible_output() {
    let mut shared = Shared::new();
    let mut filter = TerminalOutputFilter::default();

    assert_eq!(filter.process(&mut shared, b"a\x1b["), b"a");
    assert_eq!(filter.process(&mut shared, b"6"), b"");
    assert_eq!(filter.process(&mut shared, b"nb"), b"b");
    assert_eq!(filter.process(&mut shared, b"\x1b[?"), b"");
    assert_eq!(filter.process(&mut shared, b"6"), b"");
    assert_eq!(filter.process(&mut shared, b"nc"), b"c");
}

#[test]
fn tracks_cursor_position_from_terminal_output() {
    let mut shared = Shared::new();

    let output = process_test_output(&mut shared, b"\x1b[10;4H[]");

    assert_eq!(output, b"\x1b[10;4H[]");
    assert_eq!(cursor_position(&shared.terminal), (10, 6));
}

#[test]
fn drops_transient_cursor_show_before_redraw_hide() {
    let mut filter = ForegroundOutputFilter::default();

    let output = filter
        .process(b"\x1b[18;3H\x1b[?25h\x1b[?2026h\x1b[0 q\x1b[?2026l\x1b[?25l\x1b[14;1Htext");

    assert!(!output.windows(CURSOR_SHOW.len()).any(|w| w == CURSOR_SHOW));
    assert!(output.windows(CURSOR_HIDE.len()).any(|w| w == CURSOR_HIDE));
    assert!(output.ends_with(b"text"));
}

#[test]
fn preserves_final_cursor_show() {
    let mut filter = ForegroundOutputFilter::default();

    let output = filter.process(b"\x1b[18;3H\x1b[?25h");

    assert!(!output.ends_with(&CURSOR_SHOW));
    assert!(filter.flush_pending().ends_with(&CURSOR_SHOW));
}

#[test]
fn queries_are_answered_on_the_open_pseudo_terminal() {
    let mut shared = Shared::new();
    shared.pty_open = true;
    let output = process_test_output(&mut shared, b"\x1b[3;7H\x1b[5n\x1b[6nx\x1b[?6n");
    assert_eq!(output, b"\x1b[3;7Hx");
    assert_eq!(shared.pty_input, b"\x1b[0n\x1b[3;7R\x1b[?3;8R");
}

#[test]
fn queries_are_dropped_without_a_pseudo_terminal() {
    let mut shared = Shared::new();
    answer_terminal_query(&mut shared, TerminalQuery::Status);
    assert!(shared.pty_input.is_empty());
    shared.pty_open = true;
    answer_terminal_query(&mut shared, TerminalQuery::Status);
    answer_terminal_query(&mut shared, TerminalQuery::CursorPosition);
    assert_eq!(shared.pty_input, b"\x1b[0n\x1b[1;1R");
}

#[test]
fn query_replies_carry_the_cursor_position() {
    let t = terminal(120, 30, 12, 9);
    assert_eq!(query_reply(&t, TerminalQuery::Status), b"\x1b[0n");
    assert_eq!(query_reply(&t, TerminalQuery::CursorPosition), b"\x1b[9;12R");
    assert_eq!(query_reply(&t, TerminalQuery::DecCursorPosition), b"\x1b[?9;12R");
}

#[test]
fn output_in_chunks_is_the_same_as_at_once() {
    let stream: &[u8] = b"one\x1b[2J\x1b]0;title\x07two\x1b[6n\x1bOPthree\x1b]8;;x\x1b\\\tend\r\n";
    let mut at_once = Shared::new();
    at_once.pty_open = true;
    let whole = process_test_output(&mut at_once, stream);
    for cut in 0..stream.len() {
        let mut shared = Shared::new();
        shared.pty_open = true;
        let mut filter = TerminalOutputFilter::default();
        let mut shown = filter.process(&mut shared, &stream[..cut]);
        shown.extend(filter.process(&mut shared, &stream[cut..]));
        assert_eq!(shown, whole);
        assert_eq!(shared.pty_input, at_once.pty_input);
        assert_eq!(shared.terminal, at_once.terminal);
        assert!(filter.pending.is_empty());
    }
}

#[test]
fn plain_output_is_shown_unchanged() {
    let mut shared = Shared::new();
    assert_eq!(process_test_output(&mut shared, b"plain \xff\x00 text\r\n"), b"plain \xff\x00 text\r\n");
}

#[test]
fn partial_escapes_are_held_back() {
    let mut shared = Shared::new();
    let mut filter = TerminalOutputFilter::default();
    assert_eq!(filter.process(&mut shared, b"x\x1b"), b"x");
    assert_eq!(filter.pending, b"\x1b");
    assert_eq!(filter.process(&mut shared, b"]0;t"), b"");
    assert_eq!(filter.pending, b"\x1b]0;t");
    assert_eq!(filter.process(&mut shared, b"\x07y"), b"\x1b]0;t\x07y");
    assert!(filter.pending.is_empty());
}

#[test]
fn escape_lengths() {
    assert_eq!(ansi_escape_len(b""), None);
    assert_eq!(ansi_escape_len(b"\x1b"), None);
    assert_eq!(ansi_escape_len(b"ab"), None);
    assert_eq!(ansi_escape_len(b"\x1b[12;3Hrest"), Some(7));
    assert_eq!(ansi_escape_len(b"\x1b[12;3"), None);
    assert_eq!(ansi_escape_len(b"\x1b]0;t\x07x"), Some(6));
    assert_eq!(ansi_escape_len(b"\x1b]0;t\x1b\\x"), Some(7));
    assert_eq!(ansi_escape_len(b"\x1b]0;t\x1b"), None);
    assert_eq!(ansi_escape_len(b"\x1bOP"), Some(3));
    assert_eq!(ansi_escape_len(b"\x1bO"), Some(2));
    assert_eq!(ansi_escape_len(b"\x1b7abc"), Some(2));
}

#[test]
fn incomplete_escapes() {
    assert!(!starts_incomplete_escape(b""));
    assert!(!starts_incomplete_escape(b"a"));
    assert!(starts_incomplete_escape(b"\x1b"));
    assert!(starts_incomplete_escape(b"\x1b["));
    assert!(starts_incomplete_escape(b"\x1b[?25"));
    assert!(starts_incomplete_escape(b"\x1b]0;title"));
    assert!(starts_incomplete_escape(b"\x1bO"));
    assert!(!starts_incomplete_escape(b"\x1bOP"));
    assert!(!starts_incomplete_escape(b"\x1b7"));
}

#[test]
fn queries_are_recognised() {
    assert_eq!(terminal_query_at(b"\x1b[5n"), Some((TerminalQuery::Status, 4)));
    assert_eq!(terminal_query_at(b"\x1b[6nx"), Some((TerminalQuery::CursorPosition, 4)));
    assert_eq!(terminal_query_at(b"\x1b[?6nx"), Some((TerminalQuery::DecCursorPosition, 5)));
    assert_eq!(terminal_query_at(b"\x1b[7n"), None);
    assert_eq!(terminal_query_at(b"\x1b[6"), None);
}

#[test]
fn control_sequence_parameters() {
    assert_eq!(csi_params(b""), vec![None]);
    assert_eq!(csi_params(b"10;4"), vec![Some(10), Some(4)]);
    assert_eq!(csi_params(b"?25"), vec![Some(25)]);
    assert_eq!(csi_params(b";7"), vec![None, Some(7)]);
    assert_eq!(csi_params(b"1x2"), vec![Some(2)]);
    assert_eq!(csi_params(b"18446744073709551616"), vec![None]);
    assert_eq!(parse_csi_param(b""), None);
    assert_eq!(parse_csi_param(b"42"), Some(42));
    assert_eq!(parse_csi_param(b"4x"), None);
    assert_eq!(csi_param(&[None, Some(5)], 0, 1), 1);
    assert_eq!(csi_param(&[None, Some(5)], 1, 1), 5);
    assert_eq!(csi_param(&[None, Some(5)], 2, 9), 9);
}

#[test]
fn cursor_follows_bytes() {
    let mut t = terminal(10, 3, 9, 1);
    update_cursor_from_byte(&mut t, b'x');
    assert_eq!(cursor_position(&t), (1, 10));
    update_cursor_from_byte(&mut t, b'x');
    assert_eq!(cursor_position(&t), (2, 1));
    update_cursor_from_byte(&mut t, b'\t');
    assert_eq!(cursor_position(&t), (2, 9));
    update_cursor_from_byte(&mut t, b'\t');
    assert_eq!(cursor_position(&t), (2, 10));
    update_cursor_from_byte(&mut t, 0x08);
    assert_eq!(cursor_position(&t), (2, 9));
    update_cursor_from_byte(&mut t, b'\r');
    assert_eq!(cursor_position(&t), (2, 1));
    update_cursor_from_byte(&mut t, 0x08);
    assert_eq!(cursor_position(&t), (2, 1));
    update_cursor_from_byte(&mut t, b'\n');
    update_cursor_from_byte(&mut t, b'\n');
    assert_eq!(cursor_position(&t), (3, 1));
    update_cursor_from_byte(&mut t, 0x07);
    assert_eq!(cursor_position(&t), (3, 1));
    update_cursor_from_byte(&mut t, 0xe4);
    assert_eq!(cursor_position(&t), (3, 2));
}

#[test]
fn cursor_follows_escapes() {
    let mut t = terminal(80, 24, 5, 5);
    update_cursor_from_escape(&mut t, b"\x1b[A");
    assert_eq!(cursor_position(&t), (4, 5));
    update_cursor_from_escape(&mut t, b"\x1b[9A");
    assert_eq!(cursor_position(&t), (1, 5));
    update_cursor_from_escape(&mut t, b"\x1b[99B");
    assert_eq!(cursor_position(&t), (24, 5));
    update_cursor_from_escape(&mut t, b"\x1b[3C");
    assert_eq!(cursor_position(&t), (24, 8));
    update_cursor_from_escape(&mut t, b"\x1b[18446744073709551615C");
    assert_eq!(cursor_position(&t), (24, 80));
    update_cursor_from_escape(&mut t, b"\x1b[10D");
    assert_eq!(cursor_position(&t), (24, 70));
    update_cursor_from_escape(&mut t, b"\x1b[12G");
    assert_eq!(cursor_position(&t), (24, 12));
    update_cursor_from_escape(&mut t, b"\x1b[7d");
    assert_eq!(cursor_position(&t), (7, 12));
    update_cursor_from_escape(&mut t, b"\x1b[f");
    assert_eq!(cursor_position(&t), (1, 1));
    update_cursor_from_escape(&mut t, b"\x1b[2J");
    assert_eq!(cursor_position(&t), (1, 1));
    update_cursor_from_escape(&mut t, b"\x1b7");
    assert_eq!(cursor_position(&t), (1, 1));
}

#[test]
fn sizes_and_cursor_stay_in_bounds() {
    let mut t = terminal(0, 0, 0, 0);
    assert_eq!(terminal_size(&t), (1, 1));
    assert_eq!(cursor_position(&t), (1, 1));
    resize_terminal(&mut t, 100, 40);
    assert_eq!(terminal_size(&t), (40, 100));
    set_cursor_position(&mut t, 1000, 1000);
    assert_eq!(cursor_position(&t), (40, 100));
    resize_terminal(&mut t, 0, 10);
    assert_eq!(terminal_size(&t), (10, 1));
    assert_eq!(cursor_position(&t), (10, 1));
}

#[test]
fn cursor_show_is_written_before_text() {
    let mut filter = ForegroundOutputFilter::default();
    assert_eq!(filter.process(b"\x1b[?25h"), b"");
    assert!(filter.has_pending_cursor_show());
    assert_eq!(filter.process(b"\x1b[2Kx"), b"\x1b[2K\x1b[?25hx");
    assert!(!filter.has_pending_cursor_show());
    assert_eq!(filter.flush_pending(), b"");
    assert_eq!(filter.process(b"no cursor \x1b[1m here"), b"no cursor \x1b[1m here");
}

#[test]
fn pending_cursor_show_is_appended_once() {
    let mut filter = ForegroundOutputFilter { pending_cursor_show: true };
    let mut out = b"a".to_vec();
    filter.flush_pending_cursor_show(&mut out);
    filter.flush_pending_cursor_show(&mut out);
    assert_eq!(out, b"a\x1b[?25h");
}

#[test]
fn client_session_writes_waits_and_ends() {
    let mut session = ClientSession::new();
    assert_eq!(session.wait_limit_ms(), None);
    match session.step(ClientEvent::Frame(FRAME_STDOUT, b"hi\x1b[?25h".to_vec())) {
        ClientStep::Write(bytes) => assert_eq!(bytes, b"hi"),
        other => panic!("unexpected step {other:?}"),
    }
    assert_eq!(session.wait_limit_ms(), Some(25));
    match session.step(ClientEvent::TimedOut) {
        ClientStep::Write(bytes) => assert_eq!(bytes, b"\x1b[?25h"),
        other => panic!("unexpected step {other:?}"),
    }
    assert_eq!(session.wait_limit_ms(), None);
    assert!(matches!(
        session.step(ClientEvent::Frame(FRAME_STDIN, b"x".to_vec())),
        ClientStep::Continue
    ));
    assert!(matches!(session.step(ClientEvent::Failed), ClientStep::Fail));
    assert!(matches!(
        session.step(ClientEvent::Frame(FRAME_EXIT, vec![0xfe, 0xff, 0xff, 0xff])),
        ClientStep::Finish
    ));
    let (rest, code) = session.finish();
    assert_eq!(rest, b"");
    assert_eq!(code, -2);
}

#[test]
fn client_session_keeps_zero_for_a_malformed_exit() {
    let mut session = ClientSession::new();
    let _ = session.step(ClientEvent::Frame(FRAME_STDOUT, b"\x1b[?25h".to_vec()));
    assert!(matches!(
        session.step(ClientEvent::Frame(FRAME_EXIT, vec![1, 2, 3])),
        ClientStep::Finish
    ));
    assert!(matches!(session.step(ClientEvent::Closed), ClientStep::Finish));
    let (rest, code) = session.finish();
    assert_eq!(rest, b"\x1b[?25h");
    assert_eq!(code, 0);
}

#[test]
fn output_keeps_the_cursor_on_the_screen() {
    let mut shared = Shared::new();
    let mut filter = TerminalOutputFilter::default();
    for chunk in [&b"\x1b[999;999H\n\n\n"[..], b"\x1b[99A\x1b[0D\t\t", b"\xff\x1b[0;0fxyz\x08\x08\x08\x08", b"\x1b[77777777777777777777B"] {
        filter.process(&mut shared, chunk);
        let t = shared.terminal;
        assert!(1 <= t.cursor_row && t.cursor_row <= t.rows);
        assert!(1 <= t.cursor_col && t.cursor_col <= t.cols);
        assert_eq!((t.cols, t.rows), (120, 30));
    }
}
