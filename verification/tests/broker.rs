use coder::broker::ClientAction;
use coder::broker::ServerLoop;
use coder::broker::attach_pty;
use coder::broker::broadcast_notice;
use coder::broker::child_exit_code;
use coder::broker::handle_request;
use coder::broker::is_oom_exit_code;
use coder::broker::looks_like_oom_output;
use coder::broker::mark_session_exited;
use coder::broker::message_frame;
use coder::broker::oom_restart_delay;
use coder::broker::poll_codex_exit;
use coder::broker::prepare_codex_process;
use coder::broker::read_pty_output;
use coder::broker::schedule_oom_restart;
use coder::broker::should_restart_after_exit;
use coder::frame::FRAME_DETACH;
use coder::frame::FRAME_EXIT;
use coder::frame::FRAME_RESIZE;
use coder::frame::FRAME_STDIN;
use coder::frame::FRAME_STDOUT;
use coder::frame::read_frame;
use coder::output::TerminalOutputFilter;
use coder::shared::ClientSink;
use coder::shared::RING_LIMIT;
use coder::shared::ServerMessage;
use coder::shared::Shared;
use coder::shared::attach_client;
use coder::shared::broadcast_exit;
use coder::shared::broadcast_output;
use coder::shared::client_count;
use coder::shared::push_ring;
use coder::shared::remove_client;
use coder::shared::remove_unreachable;
use coder::shared::type_bytes;

fn two_clients() -> Shared {
    let mut shared = Shared::new();
    shared.clients.push(ClientSink { id: 1, queue: Vec::new() });
    shared.clients.push(ClientSink { id: 2, queue: Vec::new() });
    shared
}

fn ring(shared: &Shared) -> Vec<u8> {
    shared.ring.iter().copied().collect()
}

fn outputs(client: &ClientSink) -> Vec<u8> {
    let mut all = Vec::new();
    for message in &client.queue {
        if let ServerMessage::Output(chunk) = message {
            all.extend_from_slice(chunk);
        }
    }
    all
}

#[test]
fn broadcasts_output_to_all_clients() {
    let mut shared = two_clients();

    broadcast_output(&mut shared, b"hello".to_vec());

    match &shared.clients[0].queue[0] {
        ServerMessage::Output(chunk) => assert_eq!(chunk, b"hello"),
        ServerMessage::Exit(code) => panic!("unexpected exit {code}"),
    }
    match &shared.clients[1].queue[0] {
        ServerMessage::Output(chunk) => assert_eq!(chunk, b"hello"),
        ServerMessage::Exit(code) => panic!("unexpected exit {code}"),
    }
}

#[test]
fn removing_one_client_keeps_others_attached() {
    let mut shared = two_clients();

    remove_client(&mut shared, 1);
    assert_eq!(client_count(&shared), 1);
    broadcast_exit(&mut shared, 42);

    assert!(shared.clients.iter().all(|client| client.id != 1));
    match &shared.clients[0].queue[0] {
        ServerMessage::Exit(code) => assert_eq!(*code, 42),
        ServerMessage::Output(chunk) => panic!("unexpected output {chunk:?}"),
    }
}

#[test]
fn detects_oom_output() {
    assert!(looks_like_oom_output(
        b"FATAL ERROR: Reached heap limit Allocation failed"
    ));
    assert!(looks_like_oom_output(b"JavaScript heap out of memory"));
}

#[test]
fn detects_oom_exit_codes() {
    assert!(is_oom_exit_code(134));
    assert!(is_oom_exit_code(137));
    assert!(is_oom_exit_code(-1073741801));
    assert!(!is_oom_exit_code(0));
}

#[test]
fn oom_phrases_in_any_case_and_place() {
    assert!(looks_like_oom_output(b"OUT OF MEMORY"));
    assert!(looks_like_oom_output(b"\xff\xfeallocation FAILED\xff"));
    assert!(looks_like_oom_output(b"x reached heap limit"));
    assert!(!looks_like_oom_output(b""));
    assert!(!looks_like_oom_output(b"out of memor"));
    assert!(!looks_like_oom_output(b"out of\xffmemory"));
    assert!(!looks_like_oom_output(b"allocation succeeded"));
}

#[test]
fn oom_phrases_agree_with_the_decoded_text() {
    let samples: [&[u8]; 5] = [
        b"\xc3out of memory",
        b"out of memory\xe2\x82",
        b"out of \xf0\x9fmemory",
        b"heap OUT of MEMORY\x80",
        b"\xe2\x82allocation failed",
    ];
    for sample in samples {
        let decoded = String::from_utf8_lossy(sample).to_ascii_lowercase();
        let expected = decoded.contains("out of memory") || decoded.contains("allocation failed");
        assert_eq!(looks_like_oom_output(sample), expected);
    }
}

#[test]
fn restart_delay_is_three_minutes_unless_set() {
    assert_eq!(oom_restart_delay(None), 180);
    assert_eq!(oom_restart_delay(Some("5")), 5);
    assert_eq!(oom_restart_delay(Some("+7")), 7);
    assert_eq!(oom_restart_delay(Some("0")), 0);
    assert_eq!(oom_restart_delay(Some("18446744073709551615")), u64::MAX);
    for invalid in ["", "-1", " 5", "5s", "18446744073709551616", "+"] {
        assert_eq!(oom_restart_delay(Some(invalid)), 180);
        assert!(invalid.parse::<u64>().is_err());
    }
}

#[test]
fn ring_keeps_the_latest_output() {
    let mut shared = Shared::new();
    push_ring(&mut shared, b"abc");
    push_ring(&mut shared, b"");
    push_ring(&mut shared, b"def");
    assert_eq!(ring(&shared), b"abcdef");
    let big = vec![b'x'; RING_LIMIT - 2];
    push_ring(&mut shared, &big);
    assert_eq!(shared.ring.len(), RING_LIMIT);
    assert_eq!(&ring(&shared)[..3], b"efx");
    let bigger = vec![b'y'; RING_LIMIT + 5];
    push_ring(&mut shared, &bigger);
    assert_eq!(shared.ring.len(), RING_LIMIT);
    assert!(shared.ring.iter().all(|b| *b == b'y'));
}

#[test]
fn attached_clients_see_the_latest_output() {
    let mut shared = Shared::new();
    push_ring(&mut shared, b"earlier");
    assert_eq!(attach_client(&mut shared), 1);
    assert_eq!(attach_client(&mut shared), 2);
    assert_eq!(client_count(&shared), 2);
    assert_eq!(shared.clients[0].queue.len(), 1);
    assert_eq!(outputs(&shared.clients[0]), b"\x1b[2J\x1b[Hearlier");
    shared.exit_code = Some(3);
    assert_eq!(attach_client(&mut shared), 3);
    assert_eq!(shared.clients[2].queue.len(), 2);
    assert!(matches!(shared.clients[2].queue[1], ServerMessage::Exit(3)));
}

#[test]
fn client_numbers_wrap_around() {
    let mut shared = Shared::new();
    shared.next_client_id = u64::MAX;
    assert_eq!(attach_client(&mut shared), u64::MAX);
    assert_eq!(attach_client(&mut shared), 0);
}

#[test]
fn detaching_does_not_interrupt_others() {
    let mut shared = Shared::new();
    attach_pty(&mut shared);
    let first = attach_client(&mut shared);
    let second = attach_client(&mut shared);
    assert_eq!(handle_request(&mut shared, FRAME_DETACH, b""), ClientAction::Detach);
    remove_client(&mut shared, first);
    assert!(shared.pty_open);
    assert_eq!(handle_request(&mut shared, FRAME_STDIN, b"ls\r"), ClientAction::WriteInput);
    assert_eq!(shared.pty_input, b"ls\r");
    broadcast_output(&mut shared, b"still here".to_vec());
    assert_eq!(shared.clients.len(), 1);
    assert_eq!(shared.clients[0].id, second);
    assert_eq!(outputs(&shared.clients[0]), b"\x1b[2J\x1b[Hstill here");
}

#[test]
fn input_goes_to_an_open_pseudo_terminal_only() {
    let mut shared = Shared::new();
    type_bytes(&mut shared, b"lost");
    assert_eq!(handle_request(&mut shared, FRAME_STDIN, b"lost too"), ClientAction::WriteInput);
    assert!(shared.pty_input.is_empty());
    attach_pty(&mut shared);
    type_bytes(&mut shared, b"a");
    assert_eq!(handle_request(&mut shared, FRAME_STDIN, b"b"), ClientAction::WriteInput);
    assert_eq!(shared.pty_input, b"ab");
}

#[test]
fn requests_resize_the_terminal() {
    let mut shared = Shared::new();
    shared.terminal.cursor_col = 100;
    assert_eq!(
        handle_request(&mut shared, FRAME_RESIZE, &[80, 0, 24, 0]),
        ClientAction::Resize { cols: 80, rows: 24 }
    );
    assert_eq!((shared.terminal.cols, shared.terminal.rows), (80, 24));
    assert_eq!(shared.terminal.cursor_col, 80);
    assert_eq!(
        handle_request(&mut shared, FRAME_RESIZE, &[0, 0, 0, 0]),
        ClientAction::Resize { cols: 0, rows: 0 }
    );
    assert_eq!((shared.terminal.cols, shared.terminal.rows), (1, 1));
    assert_eq!(handle_request(&mut shared, FRAME_RESIZE, &[80, 0, 24]), ClientAction::Continue);
    assert_eq!(handle_request(&mut shared, FRAME_STDOUT, b"x"), ClientAction::Continue);
    assert_eq!((shared.terminal.cols, shared.terminal.rows), (1, 1));
}

#[test]
fn notices_are_shown_and_remembered() {
    let mut shared = two_clients();
    broadcast_notice(&mut shared, "ü!");
    assert_eq!(ring(&shared), "ü!".as_bytes());
    assert_eq!(outputs(&shared.clients[1]), "ü!".as_bytes());
}

#[test]
fn program_output_reaches_clients() {
    let mut shared = two_clients();
    attach_pty(&mut shared);
    let mut filter = TerminalOutputFilter::new();
    read_pty_output(&mut filter, &mut shared, b"hi\x1b[5n\x1b[");
    assert_eq!(outputs(&shared.clients[0]), b"hi");
    assert_eq!(ring(&shared), b"hi");
    assert_eq!(shared.pty_input, b"\x1b[0n");
    assert!(!shared.oom_detected);
    read_pty_output(&mut filter, &mut shared, b"6");
    assert_eq!(shared.clients[0].queue.len(), 1);
    read_pty_output(&mut filter, &mut shared, b"n out of memory");
    assert!(shared.oom_detected);
    assert_eq!(outputs(&shared.clients[1]), b"hi out of memory");
    assert_eq!(shared.pty_input, b"\x1b[0n\x1b[1;3R");
}

#[test]
fn exits_are_polled() {
    assert_eq!(poll_codex_exit(Some(7), true), Some((7, "child exit")));
    assert_eq!(poll_codex_exit(Some(-1), false), Some((-1, "child exit")));
    assert_eq!(poll_codex_exit(None, true), Some((0, "pty closed")));
    assert_eq!(poll_codex_exit(None, false), None);
}

#[test]
fn exit_statuses_become_codes() {
    assert_eq!(child_exit_code(Some(0)), 0);
    assert_eq!(child_exit_code(Some(137)), 137);
    assert_eq!(child_exit_code(Some(0xC0000017)), -1073741801);
    assert_eq!(child_exit_code(Some(u32::MAX)), -1);
    assert_eq!(child_exit_code(None), 1);
}

#[test]
fn session_ends_with_its_program() {
    let mut shared = two_clients();
    attach_pty(&mut shared);
    mark_session_exited(&mut shared, -3);
    assert!(!shared.pty_open);
    assert_eq!(shared.exit_code, Some(-3));
    let notice = b"\r\n[coder] codex exited with code -3\r\n";
    assert_eq!(ring(&shared), notice);
    for client in &shared.clients {
        assert_eq!(client.queue.len(), 2);
        assert_eq!(outputs(client), notice);
        assert!(matches!(client.queue[1], ServerMessage::Exit(-3)));
    }
}

#[test]
fn restart_is_announced() {
    let mut shared = two_clients();
    attach_pty(&mut shared);
    shared.exit_code = Some(1);
    schedule_oom_restart(&mut shared, 134, 180);
    assert!(!shared.pty_open);
    assert_eq!(shared.exit_code, None);
    let notice: &[u8] = b"\r\n[coder] Codex appears to have exited due to out of memory (code 134). Restarting in 180 seconds.\r\n";
    assert_eq!(ring(&shared), notice);
    assert_eq!(outputs(&shared.clients[0]), notice);
}

#[test]
fn starting_forgets_the_last_exit() {
    let mut shared = Shared::new();
    shared.oom_detected = true;
    shared.exit_code = Some(5);
    prepare_codex_process(&mut shared);
    assert!(!shared.oom_detected);
    assert_eq!(shared.exit_code, None);
}

#[test]
fn restarts_after_oom_only() {
    let mut shared = Shared::new();
    assert!(should_restart_after_exit(&shared, 137));
    assert!(!should_restart_after_exit(&shared, 1));
    shared.oom_detected = true;
    assert!(should_restart_after_exit(&shared, 1));
}

#[test]
fn broker_restarts_after_running_out_of_memory() {
    const SECOND: u64 = 1_000_000_000;
    let mut shared = two_clients();
    let mut server = ServerLoop::new();
    assert!(server.watches_codex());
    assert!(server.codex_exited(&mut shared, 137, 180, 10 * SECOND));
    assert!(!server.watches_codex());
    assert!(!server.finished(u64::MAX));
    assert!(!server.restart_if_due(&mut shared, 190 * SECOND - 1));
    assert!(server.restart_if_due(&mut shared, 190 * SECOND));
    assert!(server.watches_codex());
    assert_eq!(server, ServerLoop::new());
    assert!(outputs(&shared.clients[0])
        .ends_with(b"\r\n[coder] Restarting Codex after out-of-memory crash.\r\n"));
    assert!(!server.restart_if_due(&mut shared, 191 * SECOND));
    assert!(shared.clients.iter().all(|client| client
        .queue
        .iter()
        .all(|message| matches!(message, ServerMessage::Output(_)))));
}

#[test]
fn broker_ends_two_seconds_after_its_program() {
    const SECOND: u64 = 1_000_000_000;
    let mut shared = two_clients();
    let mut server = ServerLoop::new();
    assert!(!server.finished(u64::MAX));
    assert!(!server.codex_exited(&mut shared, 0, 180, 5 * SECOND));
    assert!(!server.watches_codex());
    assert!(!server.finished(0));
    assert!(!server.finished(7 * SECOND));
    assert!(server.finished(7 * SECOND + 1));
    assert!(!server.restart_if_due(&mut shared, u64::MAX));
    assert_eq!(shared.exit_code, Some(0));
}

#[test]
fn longest_delay_does_not_come_due() {
    let mut shared = Shared::new();
    let mut server = ServerLoop::new();
    assert!(server.codex_exited(&mut shared, 134, u64::MAX, u64::MAX));
    assert!(!server.restart_if_due(&mut shared, u64::MAX));
}

#[test]
fn messages_become_frames() {
    let (bytes, last) = message_frame(&ServerMessage::Output(b"hey".to_vec())).unwrap();
    assert!(!last);
    assert_eq!(read_frame(&bytes), Ok(Some((FRAME_STDOUT, b"hey".to_vec()))));
    let (bytes, last) = message_frame(&ServerMessage::Exit(-7)).unwrap();
    assert!(last);
    assert_eq!(read_frame(&bytes), Ok(Some((FRAME_EXIT, (-7i32).to_le_bytes().to_vec()))));
}

#[test]
fn greeting_is_read_in_full() {
    let mut shared = Shared::new();
    push_ring(&mut shared, &vec![b'z'; RING_LIMIT + 1]);
    attach_client(&mut shared);
    let (bytes, _) = message_frame(&shared.clients[0].queue[0]).unwrap();
    match read_frame(&bytes) {
        Ok(Some((kind, payload))) => {
            assert_eq!(kind, FRAME_STDOUT);
            assert_eq!(payload.len(), RING_LIMIT + 7);
        }
        other => panic!("unexpected {other:?}"),
    }
}

#[test]
fn unreachable_clients_are_removed() {
    let mut shared = two_clients();
    shared.clients.push(ClientSink { id: 3, queue: Vec::new() });
    broadcast_output(&mut shared, b"x".to_vec());
    remove_unreachable(&mut shared, &[]);
    assert_eq!(client_count(&shared), 3);
    remove_unreachable(&mut shared, &[3, 1, 3, 9]);
    assert_eq!(client_count(&shared), 1);
    assert_eq!(shared.clients[0].id, 2);
    assert_eq!(outputs(&shared.clients[0]), b"x");
}
