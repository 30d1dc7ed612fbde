//! What the broker does: it follows the program it runs, serves its clients, and decides what
//! becomes of the session when the program exits.

use vstd::prelude::*;
use crate::frame;
use crate::frame::FRAME_DETACH;
use crate::frame::FRAME_EXIT;
use crate::frame::FRAME_RESIZE;
use crate::frame::FRAME_STDIN;
use crate::frame::FRAME_STDOUT;
use crate::frame::FrameError;
use crate::frame::exit_payload;
use crate::frame::read_resize_payload;
use crate::frame::write_frame;
use crate::output;
use crate::output::TerminalOutputFilter;
use crate::shared;
use crate::shared::ServerMessage;
use crate::shared::Shared;
use crate::shared::State;
use crate::shared::broadcast_exit;
use crate::shared::broadcast_output;
use crate::shared::push_ring;
use crate::shared::type_bytes;
use crate::terminal::resize_terminal;
use crate::text;
use crate::text::parse_u64;
use crate::text::push_signed;
use crate::text::push_unsigned;

verus! {

/// The seconds until a restart, where nothing else is asked for: three minutes.
pub const OOM_RESTART_DELAY: u64 = 180;

/// How long a broker stays for its clients after the program has exited, in nanoseconds.
pub const EXIT_GRACE: u128 = 2_000_000_000;

/// The exit codes of a program that ran out of memory: an abort, a kill, and the status that
/// Windows has for it.
pub open spec fn oom_exit_code(code: i32) -> bool {
    code == 134 || code == 137 || code == -1073741801
}

/// Whether an exit code is that of a program that ran out of memory.
pub fn is_oom_exit_code(code: i32) -> (r: bool)
    ensures
        r == oom_exit_code(code),
{
    code == 134 || code == 137 || code == -1073741801
}

/// Whether the program is restarted after an exit.
pub open spec fn restarts(state: State, code: i32) -> bool {
    state.oom_detected || oom_exit_code(code)
}

/// Whether the program is restarted after an exit: it is where its output or its exit code says
/// that it ran out of memory.
pub fn should_restart_after_exit(shared: &Shared, code: i32) -> (r: bool)
    ensures
        r == restarts(shared@, code),
{
    shared.oom_detected || is_oom_exit_code(code)
}

/// A byte with an upper-case ASCII letter made lower-case.
pub open spec fn lower(b: u8) -> u8 {
    if 0x41 <= b <= 0x5a {
        (b + 32) as u8
    } else {
        b
    }
}

/// Whether `phrase` stands at `i`, in letters of either case.
pub open spec fn phrase_at(chunk: Seq<u8>, phrase: Seq<u8>, i: int) -> bool {
    &&& i + phrase.len() <= chunk.len()
    &&& forall|j: int| 0 <= j < phrase.len() ==> lower(chunk[i + j]) == #[trigger] phrase[j]
}

/// Whether `phrase` stands anywhere, in letters of either case.
pub open spec fn mentions(chunk: Seq<u8>, phrase: Seq<char>) -> bool {
    exists|i: int| 0 <= i && #[trigger] phrase_at(chunk, vstd::utf8::encode_utf8(phrase), i)
}

fn contains_phrase(chunk: &[u8], phrase: &str) -> (r: bool)
    ensures
        r == mentions(chunk@, phrase@),
{
    let wanted: &[u8] = phrase.as_bytes();
    let mut i: usize = 0;
    while wanted.len() <= chunk.len() - i
        invariant
            i <= chunk@.len(),
            wanted@ == vstd::utf8::encode_utf8(phrase@),
            forall|k: int| 0 <= k < i ==> !#[trigger] phrase_at(chunk@, wanted@, k),
        decreases chunk@.len() - i,
    {
        let mut j: usize = 0;
        let mut same: bool = true;
        while same && j < wanted.len()
            invariant
                i + wanted@.len() <= chunk@.len() <= usize::MAX,
                j <= wanted@.len(),
                same ==> forall|k: int|
                    0 <= k < j ==> lower(chunk@[i + k]) == #[trigger] wanted@[k],
                !same ==> !phrase_at(chunk@, wanted@, i as int),
            decreases wanted@.len() - j + (if same { 1int } else { 0int }),
        {
            let b: u8 = chunk[i + j];
            let c: u8 = if 0x41 <= b && b <= 0x5a {
                b + 32
            } else {
                b
            };
            if c != wanted[j] {
                assert(lower(chunk@[i + j]) != wanted@[j as int]);
                same = false;
            } else {
                j = j + 1;
            }
        }
        if same {
            assert(phrase_at(chunk@, wanted@, i as int));
            return true;
        }
        if i == chunk.len() {
            return false;
        }
        i = i + 1;
    }
    false
}

/// Whether output says that the program ran out of memory.
pub open spec fn oom_output(chunk: Seq<u8>) -> bool {
    ||| mentions(chunk, "javascript heap out of memory"@)
    ||| mentions(chunk, "heap out of memory"@)
    ||| mentions(chunk, "allocation failed"@)
    ||| mentions(chunk, "reached heap limit"@)
    ||| mentions(chunk, "fatal process out of memory"@)
    ||| mentions(chunk, "out of memory"@)
}

/// Whether output says that the program ran out of memory.
pub fn looks_like_oom_output(chunk: &[u8]) -> (r: bool)
    ensures
        r == oom_output(chunk@),
{
    contains_phrase(chunk, "javascript heap out of memory") || contains_phrase(
        chunk,
        "heap out of memory",
    ) || contains_phrase(chunk, "allocation failed") || contains_phrase(
        chunk,
        "reached heap limit",
    ) || contains_phrase(chunk, "fatal process out of memory") || contains_phrase(
        chunk,
        "out of memory",
    )
}

/// The seconds until a restart: what the environment asks for, or three minutes.
pub open spec fn restart_delay(setting: Option<Seq<char>>) -> u64 {
    match setting {
        Some(value) => match text::parse_decimal(vstd::utf8::encode_utf8(value)) {
            Some(seconds) => seconds,
            None => OOM_RESTART_DELAY,
        },
        None => OOM_RESTART_DELAY,
    }
}

/// The seconds until a restart, where `setting` is what the environment asks for.
pub fn oom_restart_delay(setting: Option<&str>) -> (r: u64)
    ensures
        r == restart_delay(text::optional(setting)),
{
    match setting {
        Some(value) => match parse_u64(value.as_bytes()) {
            Some(seconds) => seconds,
            None => OOM_RESTART_DELAY,
        },
        None => OOM_RESTART_DELAY,
    }
}

/// Shows a notice to all clients, those that attach later among them.
pub fn broadcast_notice(shared: &mut Shared, notice: &str)
    ensures
        final(shared)@ == old(shared)@.published(vstd::utf8::encode_utf8(notice@)),
{
    let bytes: Vec<u8> = vstd::slice::slice_to_vec(notice.as_bytes());
    push_ring(shared, bytes.as_slice());
    broadcast_output(shared, bytes);
}

/// What clients are shown when the program has exited.
pub open spec fn exit_notice(code: i32) -> Seq<char> {
    "\r\n[coder] codex exited with code "@ + text::int_text(code as int) + "\r\n"@
}

/// What clients are shown when the program is about to be restarted.
pub open spec fn restart_notice(code: i32, delay: u64) -> Seq<char> {
    "\r\n[coder] Codex appears to have exited due to out of memory (code "@ + text::int_text(
        code as int,
    ) + "). Restarting in "@ + text::int_text(delay as int) + " seconds.\r\n"@
}

impl State {
    /// The state without a pseudo-terminal.
    pub open spec fn closed(self, exit_code: Option<i32>) -> State {
        State { pty_open: false, exit_code, ..self }
    }

    /// The state after the program has exited for good.
    pub open spec fn ended(self, code: i32) -> State {
        self.closed(Some(code)).published(vstd::utf8::encode_utf8(exit_notice(code))).told_exit(
            code,
        )
    }

    /// The state after the program has exited and before it is restarted.
    pub open spec fn awaiting_restart(self, code: i32, delay: u64) -> State {
        self.closed(None).published(vstd::utf8::encode_utf8(restart_notice(code, delay)))
    }

    /// The state in which the program is started.
    pub open spec fn starting(self) -> State {
        State { oom_detected: false, exit_code: None, ..self }
    }
}

/// Ends the session: shows the exit code to all clients, tells them to leave, and keeps the code
/// for those that attach later.
pub fn mark_session_exited(shared: &mut Shared, code: i32)
    ensures
        final(shared)@ == old(shared)@.ended(code),
{
    shared.pty_open = false;
    shared.exit_code = Some(code);
    assert(shared@ =~= old(shared)@.closed(Some(code)));
    let mut notice: String = "\r\n[coder] codex exited with code ".to_string();
    push_signed(&mut notice, code);
    notice.append("\r\n");
    broadcast_notice(shared, notice.as_str());
    broadcast_exit(shared, code);
}

/// Keeps the session for a restart after `delay` seconds, and says so to all clients.
pub fn schedule_oom_restart(shared: &mut Shared, code: i32, delay: u64)
    ensures
        final(shared)@ == old(shared)@.awaiting_restart(code, delay),
{
    shared.pty_open = false;
    shared.exit_code = None;
    assert(shared@ =~= old(shared)@.closed(None));
    let mut notice: String =
        "\r\n[coder] Codex appears to have exited due to out of memory (code ".to_string();
    push_signed(&mut notice, code);
    notice.append("). Restarting in ");
    push_unsigned(&mut notice, delay);
    notice.append(" seconds.\r\n");
    broadcast_notice(shared, notice.as_str());
}

/// Forgets how the program ended before it is started.
pub fn prepare_codex_process(shared: &mut Shared)
    ensures
        final(shared)@ == old(shared)@.starting(),
{
    shared.oom_detected = false;
    shared.exit_code = None;
    assert(shared@ =~= old(shared)@.starting());
}

/// Takes the pseudo-terminal of a program that has been started into use.
pub fn attach_pty(shared: &mut Shared)
    ensures
        final(shared)@ == (State { pty_open: true, ..old(shared)@ }),
{
    shared.pty_open = true;
    assert(shared@ =~= State { pty_open: true, ..old(shared)@ });
}

/// The exit code for what the system reported.
pub open spec fn exit_code_of(status: Option<u32>) -> i32 {
    match status {
        Some(bits) => frame::to_signed(bits),
        None => 1i32,
    }
}

/// The exit code of the program, where `status` is what the system reported. A program that could
/// not be waited for counts as failed.
pub fn child_exit_code(status: Option<u32>) -> (r: i32)
    ensures
        r == (match status {
            Some(bits) => frame::to_signed(bits),
            None => 1i32,
        }),
        r == exit_code_of(status),
{
    match status {
        Some(bits) => if bits >= 0x8000_0000 {
            (bits as i64 - 0x1_0000_0000) as i32
        } else {
            bits as i32
        },
        None => 1,
    }
}

/// How the program ended, and how that is known.
pub open spec fn polled(exit: Option<i32>, pty_done: bool) -> Option<(i32, Seq<char>)> {
    match exit {
        Some(code) => Some((code, "child exit"@)),
        None => if pty_done {
            Some((0i32, "pty closed"@))
        } else {
            None
        },
    }
}

/// How the program ended, as a value.
pub open spec fn poll_view(r: Option<(i32, &'static str)>) -> Option<(i32, Seq<char>)> {
    match r {
        Some((code, reason)) => Some((code, reason@)),
        None => None,
    }
}

/// How the program ended, as far as is known: by its exit code, or else by the end of its output.
pub fn poll_codex_exit(exit: Option<i32>, pty_done: bool) -> (r: Option<(i32, &'static str)>)
    ensures
        match exit {
            Some(code) => r matches Some((c, reason)) && c == code && reason@ == "child exit"@,
            None => if pty_done {
                r matches Some((c, reason)) && c == 0 && reason@ == "pty closed"@
            } else {
                r is None
            },
        },
        poll_view(r) == polled(exit, pty_done),
{
    match exit {
        Some(code) => Some((code, "child exit")),
        None => if pty_done {
            Some((0, "pty closed"))
        } else {
            None
        },
    }
}

/// The state after the program has written `raw`, where `pending` is what is held back of what it
/// wrote before.
pub open spec fn after_output(state: State, pending: Seq<u8>, raw: Seq<u8>) -> State {
    let done = output::scan(pending + raw, state.terminal);
    let next = State {
        terminal: done.terminal,
        oom_detected: state.oom_detected || oom_output(raw),
        ..state.typed(done.replies)
    };
    if done.shown.len() == 0 {
        next
    } else {
        next.published(done.shown)
    }
}

/// Takes one more chunk of the output of the program: answers what it asks its terminal, and
/// shows the rest to all clients.
pub fn read_pty_output(terminal_output: &mut TerminalOutputFilter, shared: &mut Shared, raw: &[u8])
    ensures
        final(shared)@ == after_output(old(shared)@, old(terminal_output).pending@, raw@),
        final(terminal_output).pending@ == output::scan(
            old(terminal_output).pending@ + raw@,
            old(shared)@.terminal,
        ).held,
{
    if looks_like_oom_output(raw) {
        shared.oom_detected = true;
    }
    let chunk: Vec<u8> = terminal_output.process(shared, raw);
    assert(shared@ =~= State {
        terminal: output::scan(
            old(terminal_output).pending@ + raw@,
            old(shared)@.terminal,
        ).terminal,
        oom_detected: old(shared)@.oom_detected || oom_output(raw@),
        ..old(shared)@.typed(
            output::scan(old(terminal_output).pending@ + raw@, old(shared)@.terminal).replies,
        )
    });
    if chunk.len() == 0 {
        return;
    }
    push_ring(shared, chunk.as_slice());
    broadcast_output(shared, chunk);
}

/// What is left to do for a request of a client.
#[derive(Clone, Copy, Debug, PartialEq, Eq, Structural)]
pub enum ClientAction {
    /// Nothing.
    Continue,
    /// To write the bytes that wait to the pseudo-terminal.
    WriteInput,
    /// To give the pseudo-terminal another size.
    Resize { cols: u16, rows: u16 },
    /// To let the client go.
    Detach,
}

/// What is left to do for a request.
pub open spec fn request_action(kind: u8, payload: Seq<u8>) -> ClientAction {
    if kind == FRAME_STDIN {
        ClientAction::WriteInput
    } else if kind == FRAME_DETACH {
        ClientAction::Detach
    } else if kind == FRAME_RESIZE {
        match frame::size_in(payload) {
            Some((cols, rows)) => ClientAction::Resize { cols, rows },
            None => ClientAction::Continue,
        }
    } else {
        ClientAction::Continue
    }
}

/// The state after a request.
pub open spec fn after_request(state: State, kind: u8, payload: Seq<u8>) -> State {
    match request_action(kind, payload) {
        ClientAction::WriteInput => state.typed(payload),
        ClientAction::Resize { cols, rows } => State {
            terminal: state.terminal.resized(cols, rows),
            ..state
        },
        _ => state,
    }
}

/// Takes a request of a client. Requests that are not known are ignored.
pub fn handle_request(shared: &mut Shared, kind: u8, payload: &[u8]) -> (r: ClientAction)
    ensures
        r == request_action(kind, payload@),
        final(shared)@ == after_request(old(shared)@, kind, payload@),
{
    if kind == FRAME_STDIN {
        type_bytes(shared, payload);
        ClientAction::WriteInput
    } else if kind == FRAME_DETACH {
        ClientAction::Detach
    } else if kind == FRAME_RESIZE {
        match read_resize_payload(payload) {
            Some((cols, rows)) => {
                resize_terminal(&mut shared.terminal, cols, rows);
                assert(shared@ =~= after_request(old(shared)@, kind, payload@));
                ClientAction::Resize { cols, rows }
            },
            None => ClientAction::Continue,
        }
    } else {
        ClientAction::Continue
    }
}

/// The kind and the payload of the frame for a message.
pub open spec fn delivery_frame(message: shared::Delivery) -> (u8, Seq<u8>) {
    match message {
        shared::Delivery::Output(chunk) => (FRAME_STDOUT, chunk),
        shared::Delivery::Exit(code) => (FRAME_EXIT, frame::u32_le(frame::to_unsigned(code))),
    }
}

/// The frame for a message, and whether it is the last that a client gets.
pub fn message_frame(message: &ServerMessage) -> (r: Result<(Vec<u8>, bool), FrameError>)
    ensures
        match r {
            Ok((bytes, last)) => {
                &&& delivery_frame(message@).1.len() <= u32::MAX
                &&& bytes@ == frame::frame_bytes(
                    delivery_frame(message@).0,
                    delivery_frame(message@).1,
                )
                &&& last == (message@ is Exit)
            },
            Err(e) => e == FrameError::PayloadTooLarge && delivery_frame(message@).1.len()
                > u32::MAX,
        },
{
    let mut bytes: Vec<u8> = Vec::new();
    match message {
        ServerMessage::Output(chunk) => {
            match write_frame(&mut bytes, FRAME_STDOUT, chunk.as_slice()) {
                Ok(()) => Ok((bytes, false)),
                Err(e) => Err(e),
            }
        },
        ServerMessage::Exit(code) => {
            let payload: Vec<u8> = exit_payload(*code);
            match write_frame(&mut bytes, FRAME_EXIT, payload.as_slice()) {
                Ok(()) => Ok((bytes, true)),
                Err(e) => Err(e),
            }
        },
    }
}

/// What the broker waits for. Times are nanoseconds since it was started.
#[derive(Clone, Copy, Debug, PartialEq, Eq, Structural)]
pub struct ServerLoop {
    /// Whether there is a program whose exit is waited for.
    pub running: bool,
    /// When the program is restarted.
    pub restart_at: Option<u128>,
    /// When the program was seen to have exited for good.
    pub exit_seen_at: Option<u64>,
}

/// What clients are shown when the program is restarted.
pub const RESTARTING_NOTICE: &'static str =
    "\r\n[coder] Restarting Codex after out-of-memory crash.\r\n";

impl ServerLoop {
    /// What a broker waits for that has just started its program.
    pub open spec fn started() -> ServerLoop {
        ServerLoop { running: true, restart_at: None, exit_seen_at: None }
    }

    /// Whether the time of a restart has come.
    pub open spec fn restart_due(self, now: u64) -> bool {
        match self.restart_at {
            Some(when) => now >= when,
            None => false,
        }
    }

    /// Whether the exit of the program is waited for.
    pub open spec fn watching(self) -> bool {
        self.exit_seen_at is None && self.restart_at is None && self.running
    }

    /// Whether at most one of the three is waited for: an exit, a restart, the end.
    pub open spec fn well_formed(self) -> bool {
        &&& self.restart_at is Some ==> !self.running && self.exit_seen_at is None
        &&& self.running || self.restart_at is Some || self.exit_seen_at is Some
    }

    /// What is waited for once the program is started again.
    pub open spec fn restarted(self) -> ServerLoop {
        ServerLoop { running: true, restart_at: None, ..self }
    }

    /// What is waited for after the program has exited: the restart, which comes `delay` seconds
    /// later, or the end of the broker.
    pub open spec fn after_exit(self, restart: bool, delay: u64, now: u64) -> ServerLoop {
        if restart {
            ServerLoop {
                running: false,
                restart_at: Some((now + delay * 1_000_000_000) as u128),
                ..self
            }
        } else {
            ServerLoop { exit_seen_at: Some(now), ..self }
        }
    }

    /// Whether the broker has stayed long enough after the program exited for good.
    pub open spec fn over(self, now: u64) -> bool {
        match self.exit_seen_at {
            Some(seen) => now - seen > EXIT_GRACE,
            None => false,
        }
    }

    /// What is waited for once the program has been started.
    pub fn new() -> (r: ServerLoop)
        ensures
            r == ServerLoop::started(),
    {
        ServerLoop { running: true, restart_at: None, exit_seen_at: None }
    }

    /// Where the time of a restart has come, says so to all clients and forgets how the program
    /// ended. The caller starts the program then.
    pub fn restart_if_due(&mut self, shared: &mut Shared, now: u64) -> (r: bool)
        ensures
            r == old(self).restart_due(now),
            *final(self) == (if r {
                old(self).restarted()
            } else {
                *old(self)
            }),
            final(shared)@ == (if r {
                old(shared)@.published(vstd::utf8::encode_utf8(RESTARTING_NOTICE@)).starting()
            } else {
                old(shared)@
            }),
    {
        let due: bool = match self.restart_at {
            Some(when) => now as u128 >= when,
            None => false,
        };
        if due {
            broadcast_notice(shared, RESTARTING_NOTICE);
            prepare_codex_process(shared);
            self.running = true;
            self.restart_at = None;
        }
        due
    }

    /// Whether the exit of the program is waited for.
    pub fn watches_codex(&self) -> (r: bool)
        ensures
            r == self.watching(),
    {
        self.exit_seen_at.is_none() && self.restart_at.is_none() && self.running
    }

    /// Decides what becomes of the session when the program has exited, and returns whether it is
    /// kept for a restart.
    pub fn codex_exited(&mut self, shared: &mut Shared, code: i32, delay: u64, now: u64) -> (r:
        bool)
        ensures
            r == restarts(old(shared)@, code),
            *final(self) == old(self).after_exit(r, delay, now),
            final(shared)@ == (if r {
                old(shared)@.awaiting_restart(code, delay)
            } else {
                old(shared)@.ended(code)
            }),
    {
        if should_restart_after_exit(shared, code) {
            schedule_oom_restart(shared, code, delay);
            self.running = false;
            self.restart_at = Some(now as u128 + delay as u128 * 1_000_000_000);
            true
        } else {
            mark_session_exited(shared, code);
            self.exit_seen_at = Some(now);
            false
        }
    }

    /// Whether the broker has stayed long enough after the program exited for good.
    pub fn finished(&self, now: u64) -> (r: bool)
        ensures
            r == self.over(now),
    {
        match self.exit_seen_at {
            Some(seen) => now > seen && (now - seen) as u128 > EXIT_GRACE,
            None => false,
        }
    }
}

/// A program that ran out of memory is restarted: the session stays, no client is told that it
/// ended, those that attach later are not either, and the restart comes after the delay, which is
/// three minutes where nothing else is asked for.
pub proof fn law_session_survives_running_out_of_memory(
    server: ServerLoop,
    state: State,
    code: i32,
    setting: Option<Seq<char>>,
    now: u64,
)
    requires
        restarts(state, code),
        server.watching(),
    ensures
        ({
            let delay = restart_delay(setting);
            let waiting = server.after_exit(restarts(state, code), delay, now);
            let after = state.awaiting_restart(code, delay);
            &&& after.exit_code is None
            &&& after.clients == shared::delivered(
                state.clients,
                shared::Delivery::Output(vstd::utf8::encode_utf8(restart_notice(code, delay))),
            )
            &&& after.greeting().len() == 1
            &&& forall|later: u64| #[trigger]
                waiting.restart_due(later) == (later >= now + delay * 1_000_000_000)
            &&& forall|later: u64| !#[trigger] waiting.over(later)
            &&& !waiting.watching()
        }),
        setting is None ==> restart_delay(setting) == 180,
{
}

/// A program that exited otherwise ends the session: each client is shown the code and told to
/// leave, so are those that attach later, and the broker ends after two seconds, without a
/// restart.
pub proof fn law_session_ends_with_its_program(
    server: ServerLoop,
    state: State,
    code: i32,
    delay: u64,
    now: u64,
)
    requires
        !restarts(state, code),
        server.watching(),
    ensures
        ({
            let waiting = server.after_exit(restarts(state, code), delay, now);
            let after = state.ended(code);
            &&& after.exit_code == Some(code)
            &&& after.clients.len() == state.clients.len()
            &&& forall|i: int|
                0 <= i < state.clients.len() ==> (#[trigger] after.clients[i]).queue
                    == state.clients[i].queue.push(
                    shared::Delivery::Output(vstd::utf8::encode_utf8(exit_notice(code))),
                ).push(shared::Delivery::Exit(code))
            &&& after.greeting().last() == shared::Delivery::Exit(code)
            &&& forall|later: u64| !#[trigger] waiting.restart_due(later)
            &&& forall|later: u64| #[trigger]
                waiting.over(later) == (later - now > 2_000_000_000)
            &&& !waiting.watching()
        }),
{
}

/// A broker ends only after its program has exited for good; as long as it watches its program or
/// waits for a restart, it stays.
pub proof fn law_broker_outlives_its_program(server: ServerLoop, now: u64)
    ensures
        server.over(now) ==> server.exit_seen_at is Some,
        server.watching() ==> !server.over(now),
{
}

/// A broker always waits for something, and never for a restart and its end at once.
pub proof fn law_broker_waits_for_one_thing(
    server: ServerLoop,
    restart: bool,
    delay: u64,
    now: u64,
)
    requires
        server.well_formed(),
    ensures
        ServerLoop::started().well_formed(),
        server.watching() ==> server.after_exit(restart, delay, now).well_formed(),
        server.restart_due(now) ==> server.restarted().well_formed()
            && server.restarted().watching(),
{
}

/// A client that asks to leave changes nothing for the others or for the program.
pub proof fn law_detach_request_changes_nothing(state: State, payload: Seq<u8>)
    ensures
        request_action(FRAME_DETACH, payload) == ClientAction::Detach,
        after_request(state, FRAME_DETACH, payload) == state,
{
}

/// What a client types reaches the program byte for byte, after what was typed before it.
pub proof fn law_input_reaches_the_program(state: State, payload: Seq<u8>)
    requires
        state.pty_open,
    ensures
        after_request(state, FRAME_STDIN, payload) == (State {
            pty_input: state.pty_input + payload,
            ..state
        }),
{
}

/// A size that a client sends becomes the size of the terminal, with the cursor on the screen.
pub proof fn law_sent_size_is_taken(state: State, cols: u16, rows: u16)
    requires
        cols > 0 && rows > 0,
    ensures
        ({
            let payload = frame::u16_le(cols) + frame::u16_le(rows);
            let after = after_request(state, FRAME_RESIZE, payload);
            &&& request_action(FRAME_RESIZE, payload) == ClientAction::Resize { cols, rows }
            &&& after.terminal.cols == cols && after.terminal.rows == rows
            &&& 1 <= after.terminal.cursor_row <= rows
            &&& 1 <= after.terminal.cursor_col <= cols
            &&& after == (State { terminal: after.terminal, ..state })
        }),
{
    frame::law_resize_round_trip(cols, rows);
}

/// What a client is sent when it attaches fits into a frame that it reads back in full.
pub proof fn law_greeting_is_read_in_full(state: State, rest: Seq<u8>)
    requires
        state.well_formed(),
    ensures
        ({
            let screen = shared::CLEAR_SCREEN@ + state.ring;
            &&& delivery_frame(state.greeting()[0]) == (FRAME_STDOUT, screen)
            &&& frame::frame_at(frame::frame_bytes(FRAME_STDOUT, screen) + rest) == Ok::<
                Option<(u8, Seq<u8>)>,
                FrameError,
            >(Some((FRAME_STDOUT, screen)))
        }),
{
    frame::law_frame_round_trip(FRAME_STDOUT, shared::CLEAR_SCREEN@ + state.ring, rest);
}

/// What the broker does with the output of its program and with requests keeps it well-formed.
pub proof fn law_broker_stays_well_formed(
    state: State,
    pending: Seq<u8>,
    bytes: Seq<u8>,
    kind: u8,
    code: i32,
    delay: u64,
)
    requires
        state.well_formed(),
    ensures
        after_output(state, pending, bytes).well_formed(),
        after_request(state, kind, bytes).well_formed(),
        state.ended(code).well_formed(),
        state.awaiting_restart(code, delay).well_formed(),
        state.starting().well_formed(),
{
    let done = output::scan(pending + bytes, state.terminal);
    let next = State {
        terminal: done.terminal,
        oom_detected: state.oom_detected || oom_output(bytes),
        ..state.typed(done.replies)
    };
    output::law_output_keeps_cursor_on_screen(pending + bytes, state.terminal);
    shared::law_traffic_keeps_well_formed(next, done.shown, code);
    shared::law_traffic_keeps_well_formed(state, bytes, code);
    let exit = vstd::utf8::encode_utf8(exit_notice(code));
    let ended = state.closed(Some(code));
    shared::law_traffic_keeps_well_formed(ended, exit, code);
    shared::law_traffic_keeps_well_formed(ended.published(exit), exit, code);
    shared::law_traffic_keeps_well_formed(
        state.closed(None),
        vstd::utf8::encode_utf8(restart_notice(code, delay)),
        code,
    );
}

/// The exit code of the program is the one that a client reads from the frame that it is sent.
pub proof fn law_exit_code_reaches_clients(code: i32, rest: Seq<u8>)
    ensures
        ({
            let (kind, payload) = delivery_frame(shared::Delivery::Exit(code));
            &&& kind == FRAME_EXIT
            &&& frame::exit_code_in(payload) == Some(code)
            &&& frame::frame_at(frame::frame_bytes(kind, payload) + rest) == Ok::<
                Option<(u8, Seq<u8>)>,
                FrameError,
            >(Some((kind, payload)))
        }),
{
    let (kind, payload) = delivery_frame(shared::Delivery::Exit(code));
    frame::law_exit_code_round_trip(code);
    frame::law_frame_round_trip(kind, payload, rest);
}

/// A program is restarted where it said that it ran out of memory, or where it exited with one of
/// three codes. No other exit restarts it.
pub proof fn law_who_is_restarted(state: State, code: i32)
    ensures
        state.oom_detected ==> restarts(state, code),
        code == 134 || code == 137 || code == -1073741801 ==> restarts(state, code),
        !state.oom_detected && code != 134 && code != 137 && code != -1073741801 ==> !restarts(
            state,
            code,
        ),
{
}

/// A phrase is found wherever it stands, in letters of either case.
pub proof fn law_phrase_is_found(chunk: Seq<u8>, phrase: Seq<char>, i: int)
    requires
        0 <= i,
        ({
            let wanted = vstd::utf8::encode_utf8(phrase);
            &&& i + wanted.len() <= chunk.len()
            &&& forall|j: int|
                0 <= j < wanted.len() ==> !(0x41 <= #[trigger] wanted[j] <= 0x5a) && (chunk[i + j]
                    == wanted[j] || (0x61 <= wanted[j] <= 0x7a && chunk[i + j] + 32 == wanted[j]))
        }),
    ensures
        mentions(chunk, phrase),
{
    let wanted = vstd::utf8::encode_utf8(phrase);
    assert(phrase_at(chunk, wanted, i)) by {
        assert forall|j: int| 0 <= j < wanted.len() implies lower(chunk[i + j])
            == #[trigger] wanted[j] by {
            assert(!(0x41 <= wanted[j] <= 0x5a));
        }
    }
}

/// A phrase is found only where it stands, letter by letter.
pub proof fn law_found_phrase_is_there(chunk: Seq<u8>, phrase: Seq<char>)
    requires
        mentions(chunk, phrase),
    ensures
        ({
            let wanted = vstd::utf8::encode_utf8(phrase);
            exists|i: int|
                0 <= i <= chunk.len() && wanted.len() <= (#[trigger] chunk.skip(i)).len() && (
                forall|j: int|
                    0 <= j < wanted.len() ==> chunk.skip(i)[j] == #[trigger] wanted[j] || (0x41
                        <= chunk.skip(i)[j] <= 0x5a && chunk.skip(i)[j] + 32 == wanted[j]))
        }),
{
    let wanted = vstd::utf8::encode_utf8(phrase);
    let i = choose|i: int| 0 <= i && #[trigger] phrase_at(chunk, wanted, i);
    let rest = chunk.skip(i);
    assert(wanted.len() <= rest.len());
    assert forall|j: int| 0 <= j < wanted.len() implies rest[j] == #[trigger] wanted[j] || (0x41
        <= rest[j] <= 0x5a && rest[j] + 32 == wanted[j]) by {
        assert(lower(chunk[i + j]) == wanted[j]);
        assert(rest[j] == chunk[i + j]);
    }
}

proof fn lemma_longer_phrase(chunk: Seq<u8>, longer: Seq<char>, shorter: Seq<char>, k: int)
    requires
        vstd::utf8::is_ascii_chars(longer),
        0 <= k && k + shorter.len() <= longer.len(),
        longer.subrange(k, k + shorter.len()) == shorter,
        mentions(chunk, longer),
    ensures
        mentions(chunk, shorter),
{
    assert forall|j: int| 0 <= j < shorter.len() implies '\0' <= #[trigger] shorter[j]
        <= '\u{7f}' by {
        assert(longer.subrange(k, k + shorter.len())[j] == longer[k + j]);
    }
    vstd::utf8::is_ascii_chars_encode_utf8(longer);
    vstd::utf8::is_ascii_chars_encode_utf8(shorter);
    let long = vstd::utf8::encode_utf8(longer);
    let short = vstd::utf8::encode_utf8(shorter);
    let i = choose|i: int| 0 <= i && #[trigger] phrase_at(chunk, long, i);
    assert(phrase_at(chunk, short, i + k)) by {
        assert forall|j: int| 0 <= j < short.len() implies lower(chunk[i + k + j])
            == #[trigger] short[j] by {
            assert(longer.subrange(k, k + shorter.len())[j] == longer[k + j]);
            assert(short[j] == shorter[j] as u8);
            assert(long[k + j] == longer[k + j] as u8);
            assert(lower(chunk[i + (k + j)]) == long[k + j]);
        }
    }
}

/// Output says that the program ran out of memory where it holds one of three phrases; the longer
/// ones that are looked for hold one of them.
pub proof fn law_what_says_out_of_memory(chunk: Seq<u8>)
    ensures
        oom_output(chunk) <==> (mentions(chunk, "out of memory"@) || mentions(
            chunk,
            "allocation failed"@,
        ) || mentions(chunk, "reached heap limit"@)),
{
    reveal_strlit("javascript heap out of memory");
    reveal_strlit("heap out of memory");
    reveal_strlit("fatal process out of memory");
    reveal_strlit("out of memory");
    let short = "out of memory"@;
    let a = "javascript heap out of memory"@;
    let b = "heap out of memory"@;
    let c = "fatal process out of memory"@;
    assert(a.subrange(16, 29) =~= short);
    assert(b.subrange(5, 18) =~= short);
    assert(c.subrange(14, 27) =~= short);
    if mentions(chunk, a) {
        lemma_longer_phrase(chunk, a, short, 16);
    }
    if mentions(chunk, b) {
        lemma_longer_phrase(chunk, b, short, 5);
    }
    if mentions(chunk, c) {
        lemma_longer_phrase(chunk, c, short, 14);
    }
}

/// The delay before a restart is the number that the environment gives, and three minutes where it
/// gives none.
pub proof fn law_delay_is_what_is_asked_for(setting: Seq<char>, seconds: u64)
    ensures
        vstd::utf8::encode_utf8(setting) == text::decimal(seconds as nat) ==> restart_delay(
            Some(setting),
        ) == seconds,
        text::parse_decimal(vstd::utf8::encode_utf8(setting)) is None ==> restart_delay(
            Some(setting),
        ) == 180,
        text::parse_decimal(vstd::utf8::encode_utf8(setting)) matches Some(n) ==> restart_delay(
            Some(setting),
        ) == n,
        restart_delay(None) == 180,
{
    text::law_decimal_round_trip(seconds);
}

/// The exit code of a program is what the system reported, as a signed number, and 1 where nothing
/// was reported. It counts before the end of the output, which stands for a good end.
pub proof fn law_how_a_program_ends(exit: Option<i32>, pty_done: bool, bits: u32)
    ensures
        exit matches Some(code) ==> polled(exit, pty_done) == Some((code, "child exit"@)),
        exit is None && pty_done ==> polled(exit, pty_done) == Some((0i32, "pty closed"@)),
        exit is None && !pty_done ==> polled(exit, pty_done) is None,
        bits <= 0x7fff_ffff ==> exit_code_of(Some(bits)) == bits,
        bits > 0x7fff_ffff ==> exit_code_of(Some(bits)) == bits - 0x1_0000_0000,
        exit_code_of(None) == 1,
{
}

/// The notices say what happened: the exit code as a number, and the delay in seconds.
pub proof fn law_notices(code: i32, delay: u64)
    ensures
        "\r\n[coder] codex exited with code "@.is_prefix_of(exit_notice(code)),
        exit_notice(code).skip("\r\n[coder] codex exited with code "@.len() as int)
            == text::int_text(code as int) + "\r\n"@,
        ({
            let start = "\r\n[coder] Codex appears to have exited due to out of memory (code "@;
            &&& start.is_prefix_of(restart_notice(code, delay))
            &&& restart_notice(code, delay).skip(start.len() as int) == text::int_text(code as int)
                + ("). Restarting in "@ + (text::int_text(delay as int) + " seconds.\r\n"@))
        }),
        RESTARTING_NOTICE@ == "\r\n[coder] Restarting Codex after out-of-memory crash.\r\n"@,
{
    let a = "\r\n[coder] codex exited with code "@;
    let b = "\r\n[coder] Codex appears to have exited due to out of memory (code "@;
    assert(exit_notice(code).subrange(0, a.len() as int) =~= a);
    assert(exit_notice(code).skip(a.len() as int) =~= text::int_text(code as int) + "\r\n"@);
    assert(restart_notice(code, delay).subrange(0, b.len() as int) =~= b);
    assert(restart_notice(code, delay).skip(b.len() as int) =~= text::int_text(code as int) + (
    "). Restarting in "@ + (text::int_text(delay as int) + " seconds.\r\n"@)));
}

/// When a program has exited there is no pseudo-terminal. The notice of it is remembered and sent as
/// output is, and nothing else changes but the exit code: it is kept where the exit was for good,
/// and where it was not, there is none.
pub proof fn law_exits_close_the_terminal(state: State, code: i32, delay: u64)
    ensures
        ({
            let after = state.ended(code);
            let shown = state.published(vstd::utf8::encode_utf8(exit_notice(code)));
            &&& after.ring == shown.ring
            &&& after.clients == shown.told_exit(code).clients
            &&& after == (State {
                ring: after.ring,
                clients: after.clients,
                pty_open: false,
                exit_code: Some(code),
                ..state
            })
        }),
        ({
            let after = state.awaiting_restart(code, delay);
            let shown = state.published(vstd::utf8::encode_utf8(restart_notice(code, delay)));
            after == (State { pty_open: false, exit_code: None, ..shown })
        }),
        state.starting() == (State { oom_detected: false, exit_code: None, ..state }),
{
}

/// Whatever the program writes is remembered, whether or not a client is attached: the ring is the
/// end of the earlier ring followed by what is shown, up to a mebibyte, and each client has what is
/// shown behind what waited for it. Where nothing is shown, nothing is sent.
pub proof fn law_output_is_remembered_without_clients(
    state: State,
    pending: Seq<u8>,
    raw: Seq<u8>,
)
    ensures
        ({
            let shown = output::scan(pending + raw, state.terminal).shown;
            let all = state.ring + shown;
            let after = after_output(state, pending, raw);
            &&& state.ring.len() <= 1048576 && all.len() <= 1048576 ==> after.ring == all
            &&& all.len() > 1048576 && shown.len() > 0 ==> after.ring == all.subrange(
                all.len() - 1048576,
                all.len() as int,
            )
            &&& after.clients.len() == state.clients.len()
            &&& shown.len() > 0 ==> forall|i: int|
                0 <= i < state.clients.len() ==> (#[trigger] after.clients[i]).id
                    == state.clients[i].id && after.clients[i].queue
                    == state.clients[i].queue.push(shared::Delivery::Output(shown))
            &&& shown.len() == 0 ==> after.clients == state.clients && after.ring == state.ring
        }),
{
    let done = output::scan(pending + raw, state.terminal);
    let next = State {
        terminal: done.terminal,
        oom_detected: state.oom_detected || oom_output(raw),
        ..state.typed(done.replies)
    };
    shared::law_output_is_remembered_and_sent(next, done.shown);
    if done.shown.len() == 0 {
        assert(state.ring + done.shown =~= state.ring);
    }
}

/// With any other clients, the program's output leaves the same ring, the same terminal and the same
/// input for the program.
pub proof fn law_output_does_not_depend_on_clients(
    state: State,
    clients: Seq<shared::Sink>,
    pending: Seq<u8>,
    raw: Seq<u8>,
)
    ensures
        ({
            let one = after_output(state, pending, raw);
            let other = after_output(State { clients, ..state }, pending, raw);
            other == (State { clients: other.clients, ..one })
        }),
{
}

/// The program's queries are answered where it has a terminal to read from, its cursor is followed,
/// and what it says about memory is not forgotten. Nothing else of the broker changes.
pub proof fn law_output_is_answered_and_followed(state: State, pending: Seq<u8>, raw: Seq<u8>)
    ensures
        ({
            let done = output::scan(pending + raw, state.terminal);
            let after = after_output(state, pending, raw);
            &&& state.pty_open ==> after.pty_input == state.pty_input + done.replies
            &&& !state.pty_open ==> after.pty_input == state.pty_input
            &&& after.terminal == done.terminal
            &&& after.oom_detected == (state.oom_detected || oom_output(raw))
            &&& after.pty_open == state.pty_open
            &&& after.exit_code == state.exit_code
            &&& after.next_client_id == state.next_client_id
        }),
{
}

/// Requests by their kinds: 10 is input, 11 a size of four bytes, 12 a detach. Any other request is
/// ignored.
pub proof fn law_requests(state: State, kind: u8, payload: Seq<u8>)
    ensures
        kind == 10 ==> request_action(kind, payload) == ClientAction::WriteInput && after_request(
            state,
            kind,
            payload,
        ) == state.typed(payload),
        kind == 11 && payload.len() == 4 ==> ({
            let cols = (payload[0] + 256 * payload[1]) as u16;
            let rows = (payload[2] + 256 * payload[3]) as u16;
            &&& request_action(kind, payload) == ClientAction::Resize { cols, rows }
            &&& after_request(state, kind, payload) == (State {
                terminal: state.terminal.resized(cols, rows),
                ..state
            })
        }),
        kind == 11 && payload.len() != 4 ==> request_action(kind, payload)
            == ClientAction::Continue && after_request(state, kind, payload) == state,
        kind == 12 ==> request_action(kind, payload) == ClientAction::Detach && after_request(
            state,
            kind,
            payload,
        ) == state,
        kind < 10 || kind > 12 ==> request_action(kind, payload) == ClientAction::Continue
            && after_request(state, kind, payload) == state,
{
}

/// Output is sent in frames of kind 1, and an exit in a frame of kind 2.
pub proof fn law_messages_are_framed(chunk: Seq<u8>, code: i32)
    ensures
        delivery_frame(shared::Delivery::Output(chunk)) == (1u8, chunk),
        delivery_frame(shared::Delivery::Exit(code)).0 == 2,
        frame::exit_code_in(delivery_frame(shared::Delivery::Exit(code)).1) == Some(code),
{
    frame::law_exit_code_round_trip(code);
}

/// A broker that has started its program watches it, and so does one that has restarted it. A
/// restart changes nothing else that it waits for.
pub proof fn law_started_program_is_watched(server: ServerLoop, now: u64)
    ensures
        ServerLoop::started().watching(),
        !ServerLoop::started().restart_due(now),
        !ServerLoop::started().over(now),
        server.exit_seen_at is None ==> server.restarted().watching(),
        server.restarted().exit_seen_at == server.exit_seen_at,
        !server.restarted().restart_due(now),
        server.watching() <==> server.running && server.restart_at is None && server.exit_seen_at
            is None,
        server.restart_at is None ==> !server.restart_due(now),
        server.restart_at matches Some(when) ==> server.restart_due(now) == (now >= when),
        server.exit_seen_at matches Some(seen) ==> server.over(now) == (now - seen
            > 2_000_000_000),
{
}

/// After an exit either a restart is waited for, the delay from now on, or the end is; what was
/// waited for otherwise stays.
pub proof fn law_what_follows_an_exit(server: ServerLoop, delay: u64, now: u64)
    ensures
        ({
            let restart = server.after_exit(true, delay, now);
            &&& restart.restart_at matches Some(when)
            &&& when == now + delay * 1_000_000_000
            &&& !restart.running
            &&& restart.exit_seen_at == server.exit_seen_at
        }),
        ({
            let end = server.after_exit(false, delay, now);
            &&& end.exit_seen_at == Some(now)
            &&& end.restart_at == server.restart_at
            &&& end.running == server.running
        }),
{
}

/// What the program writes while nobody is attached is shown to the client that attaches next: its
/// screen ends with it.
pub proof fn law_output_without_clients_is_replayed(state: State, pending: Seq<u8>, raw: Seq<u8>)
    requires
        state.well_formed(),
        output::scan(pending + raw, state.terminal).shown.len() <= 1048576,
    ensures
        ({
            let shown = output::scan(pending + raw, state.terminal).shown;
            let client = after_output(state, pending, raw).attached().clients.last();
            &&& client.queue[0] matches shared::Delivery::Output(screen)
            &&& screen.len() >= shown.len()
            &&& screen.skip(screen.len() - shown.len()) == shown
        }),
{
    let shown = output::scan(pending + raw, state.terminal).shown;
    let all = state.ring + shown;
    let after = after_output(state, pending, raw);
    law_output_is_remembered_without_clients(state, pending, raw);
    shared::law_attached_client_is_greeted(after);
    assert(after.ring.len() >= shown.len());
    assert(after.ring.skip(after.ring.len() - shown.len()) =~= shown);
    let screen = seq![0x1bu8, 0x5b, 0x32, 0x4a, 0x1b, 0x5b, 0x48] + after.ring;
    assert(screen.skip(screen.len() - shown.len()) =~= shown);
}

} // verus!
