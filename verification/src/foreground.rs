//! The foreground client's side of the output: the cursor is made visible only where it rests.

use vstd::prelude::*;
use vstd::slice::slice_subrange;
use crate::escape;
use crate::escape::ansi_escape_len;
use crate::escape::bytes_start_with;
use crate::frame;
use crate::frame::read_exit_payload;
use crate::frame::FRAME_EXIT;
use crate::frame::FRAME_STDOUT;
use crate::output;
use crate::terminal::Terminal;

verus! {

/// `ESC [ ? 25 h`
pub const CURSOR_SHOW: [u8; 6] = [0x1b, 0x5b, 0x3f, 0x32, 0x35, 0x68];

/// `ESC [ ? 25 l`
pub const CURSOR_HIDE: [u8; 6] = [0x1b, 0x5b, 0x3f, 0x32, 0x35, 0x6c];

/// The milliseconds for which a sequence that shows the cursor waits for one that hides it.
pub const CURSOR_SHOW_DELAY_MS: u64 = 25;

/// What becomes of output in the foreground: the bytes that are written, and whether a sequence
/// that shows the cursor still waits.
#[verifier::ext_equal]
pub struct Presented {
    pub output: Seq<u8>,
    pub waiting: bool,
}

/// The sequence that shows the cursor, where it waits.
pub open spec fn waiting_show(waiting: bool) -> Seq<u8> {
    if waiting {
        CURSOR_SHOW@
    } else {
        Seq::empty()
    }
}

/// Goes through output. A sequence that shows the cursor waits until text follows; one that
/// hides the cursor before that makes it void.
pub open spec fn present(s: Seq<u8>, waiting: bool) -> Presented
    decreases s.len(),
{
    proof {
        escape::law_escape_len_bounds(s);
    }
    if s.len() == 0 {
        Presented { output: Seq::empty(), waiting }
    } else if CURSOR_SHOW@.is_prefix_of(s) {
        present(s.skip(6), true)
    } else if CURSOR_HIDE@.is_prefix_of(s) {
        let rest = present(s.skip(6), false);
        Presented { output: CURSOR_HIDE@ + rest.output, ..rest }
    } else {
        match escape::escape_len(s) {
            Some(n) => {
                let rest = present(s.skip(n), waiting);
                Presented { output: s.take(n) + rest.output, ..rest }
            },
            None => {
                let rest = present(s.skip(1), false);
                Presented { output: waiting_show(waiting) + seq![s[0]] + rest.output, ..rest }
            },
        }
    }
}

/// A filter for the output that a client writes to its terminal.
#[derive(Debug)]
pub struct ForegroundOutputFilter {
    pub pending_cursor_show: bool,
}

impl Default for ForegroundOutputFilter {
    fn default() -> (r: ForegroundOutputFilter)
        ensures
            !r.pending_cursor_show,
    {
        ForegroundOutputFilter::new()
    }
}

impl ForegroundOutputFilter {
    /// A filter in which nothing waits.
    pub fn new() -> (r: ForegroundOutputFilter)
        ensures
            !r.pending_cursor_show,
    {
        ForegroundOutputFilter { pending_cursor_show: false }
    }

    /// Takes one payload of output, and returns what is written of it.
    pub fn process(&mut self, payload: &[u8]) -> (r: Vec<u8>)
        ensures
            r@ == present(payload@, old(self).pending_cursor_show).output,
            final(self).pending_cursor_show == present(
                payload@,
                old(self).pending_cursor_show,
            ).waiting,
    {
        let mut output: Vec<u8> = Vec::new();
        let mut i: usize = 0;
        let ghost done = present(payload@, self.pending_cursor_show);
        assert(payload@.skip(0) =~= payload@);
        while i < payload.len()
            invariant
                i <= payload@.len(),
                done.output == output@ + present(
                    payload@.skip(i as int),
                    self.pending_cursor_show,
                ).output,
                done.waiting == present(
                    payload@.skip(i as int),
                    self.pending_cursor_show,
                ).waiting,
            decreases payload@.len() - i,
        {
            let ghost s = payload@.skip(i as int);
            let ghost before = output@;
            let ghost waiting = self.pending_cursor_show;
            let tail: &[u8] = slice_subrange(payload, i, payload.len());
            assert(tail@ =~= s);
            if bytes_start_with(tail, &CURSOR_SHOW) {
                self.pending_cursor_show = true;
                assert(s.skip(6) =~= payload@.skip(i + 6));
                i = i + 6;
                continue;
            }
            if bytes_start_with(tail, &CURSOR_HIDE) {
                self.pending_cursor_show = false;
                output.extend_from_slice(&CURSOR_HIDE);
                assert(output@ =~= before + CURSOR_HIDE@);
                assert(s.skip(6) =~= payload@.skip(i + 6));
                assert(done.output =~= output@ + present(s.skip(6), false).output);
                i = i + 6;
                continue;
            }
            if payload[i] == escape::ESC {
                if let Some(n) = ansi_escape_len(tail) {
                    let sequence: &[u8] = slice_subrange(tail, 0, n);
                    output.extend_from_slice(sequence);
                    assert(output@ =~= before + s.take(n as int));
                    assert(s.skip(n as int) =~= payload@.skip(i + n));
                    assert(done.output =~= output@ + present(s.skip(n as int), waiting).output);
                    i = i + n;
                    continue;
                }
            }
            self.flush_pending_cursor_show(&mut output);
            output.push(payload[i]);
            assert(output@ =~= before + waiting_show(waiting) + seq![s[0]]);
            assert(s.skip(1) =~= payload@.skip(i + 1));
            assert(done.output =~= output@ + present(s.skip(1), false).output);
            i = i + 1;
        }
        assert(payload@.skip(i as int) =~= Seq::empty());
        assert(output@ =~= done.output);
        output
    }

    /// Whether a sequence that shows the cursor waits.
    pub fn has_pending_cursor_show(&self) -> (r: bool)
        ensures
            r == self.pending_cursor_show,
    {
        self.pending_cursor_show
    }

    /// Returns the sequence that shows the cursor, where it waits. Afterwards nothing waits.
    pub fn flush_pending(&mut self) -> (r: Vec<u8>)
        ensures
            r@ == waiting_show(old(self).pending_cursor_show),
            !final(self).pending_cursor_show,
    {
        let mut output: Vec<u8> = Vec::new();
        self.flush_pending_cursor_show(&mut output);
        assert(output@ =~= waiting_show(old(self).pending_cursor_show));
        output
    }

    /// Appends the sequence that shows the cursor, where it waits. Afterwards nothing waits.
    pub fn flush_pending_cursor_show(&mut self, output: &mut Vec<u8>)
        ensures
            final(output)@ == old(output)@ + waiting_show(old(self).pending_cursor_show),
            !final(self).pending_cursor_show,
    {
        if self.pending_cursor_show {
            output.extend_from_slice(&CURSOR_SHOW);
            self.pending_cursor_show = false;
        }
        assert(output@ =~= old(output)@ + waiting_show(old(self).pending_cursor_show));
    }
}

/// What a foreground client hears from its broker.
#[derive(Debug)]
pub enum ClientEvent {
    /// A frame arrived.
    Frame(u8, Vec<u8>),
    /// Nothing arrived while a sequence that shows the cursor waited.
    TimedOut,
    /// The broker closed the connection, or the reader of the connection is gone.
    Closed,
    /// The connection failed.
    Failed,
}

/// What a foreground client does next.
#[derive(Debug)]
pub enum ClientStep {
    /// It writes these bytes to its terminal and goes on.
    Write(Vec<u8>),
    /// It goes on.
    Continue,
    /// It leaves its loop.
    Finish,
    /// It gives up with the error of the connection.
    Fail,
}

/// The contents of a `ClientStep`.
#[verifier::ext_equal]
pub enum Step {
    Write(Seq<u8>),
    Continue,
    Finish,
    Fail,
}

impl View for ClientStep {
    type V = Step;

    open spec fn view(&self) -> Step {
        match self {
            ClientStep::Write(bytes) => Step::Write(bytes@),
            ClientStep::Continue => Step::Continue,
            ClientStep::Finish => Step::Finish,
            ClientStep::Fail => Step::Fail,
        }
    }
}

/// A foreground client.
#[derive(Debug)]
pub struct ClientSession {
    pub filter: ForegroundOutputFilter,
    pub exit_code: i32,
}

/// The contents of a `ClientSession`.
pub struct Client {
    pub waiting: bool,
    pub exit_code: i32,
}

impl View for ClientSession {
    type V = Client;

    open spec fn view(&self) -> Client {
        Client { waiting: self.filter.pending_cursor_show, exit_code: self.exit_code }
    }
}

impl Client {
    /// What becomes of a client at an event, and what it does.
    pub open spec fn after(self, event: ClientEvent) -> (Client, Step) {
        match event {
            ClientEvent::Frame(kind, payload) => if kind == FRAME_STDOUT {
                let shown = present(payload@, self.waiting);
                (Client { waiting: shown.waiting, ..self }, Step::Write(shown.output))
            } else if kind == FRAME_EXIT {
                let exit_code = match frame::exit_code_in(payload@) {
                    Some(code) => code,
                    None => self.exit_code,
                };
                (Client { exit_code, ..self }, Step::Finish)
            } else {
                (self, Step::Continue)
            },
            ClientEvent::TimedOut => (
                Client { waiting: false, ..self },
                Step::Write(waiting_show(self.waiting)),
            ),
            ClientEvent::Closed => (self, Step::Finish),
            ClientEvent::Failed => (self, Step::Fail),
        }
    }

    /// What is left to write when a client ends, and its exit code.
    pub open spec fn ending(self) -> (Seq<u8>, i32) {
        (waiting_show(self.waiting), self.exit_code)
    }

    /// How many milliseconds a client waits for the next event.
    pub open spec fn patience(self) -> Option<u64> {
        if self.waiting {
            Some(CURSOR_SHOW_DELAY_MS)
        } else {
            None
        }
    }
}

impl ClientSession {
    /// A client that has heard nothing yet.
    pub fn new() -> (r: ClientSession)
        ensures
            !r.filter.pending_cursor_show,
            r.exit_code == 0,
            r@ == (Client { waiting: false, exit_code: 0 }),
    {
        ClientSession { filter: ForegroundOutputFilter::new(), exit_code: 0 }
    }

    /// How many milliseconds the client waits for the next event. `None`: without an end.
    pub fn wait_limit_ms(&self) -> (r: Option<u64>)
        ensures
            r == (if self.filter.pending_cursor_show {
                Some(CURSOR_SHOW_DELAY_MS)
            } else {
                None
            }),
            r == self@.patience(),
    {
        if self.filter.has_pending_cursor_show() {
            Some(CURSOR_SHOW_DELAY_MS)
        } else {
            None
        }
    }

    /// Takes one event.
    pub fn step(&mut self, event: ClientEvent) -> (r: ClientStep)
        ensures
            ({
                let waiting = old(self).filter.pending_cursor_show;
                match event {
                    ClientEvent::Frame(kind, payload) => if kind == FRAME_STDOUT {
                        &&& r matches ClientStep::Write(bytes)
                        &&& bytes@ == present(payload@, waiting).output
                        &&& final(self).filter.pending_cursor_show == present(
                            payload@,
                            waiting,
                        ).waiting
                        &&& final(self).exit_code == old(self).exit_code
                    } else if kind == FRAME_EXIT {
                        &&& r is Finish
                        &&& final(self).filter == old(self).filter
                        &&& final(self).exit_code == (match frame::exit_code_in(payload@) {
                            Some(code) => code,
                            None => old(self).exit_code,
                        })
                    } else {
                        r is Continue && *final(self) == *old(self)
                    },
                    ClientEvent::TimedOut => {
                        &&& r matches ClientStep::Write(bytes)
                        &&& bytes@ == waiting_show(waiting)
                        &&& !final(self).filter.pending_cursor_show
                        &&& final(self).exit_code == old(self).exit_code
                    },
                    ClientEvent::Closed => r is Finish && *final(self) == *old(self),
                    ClientEvent::Failed => r is Fail && *final(self) == *old(self),
                }
            }),
            (final(self)@, r@) == old(self)@.after(event),
    {
        match event {
            ClientEvent::Frame(kind, payload) => {
                if kind == FRAME_STDOUT {
                    ClientStep::Write(self.filter.process(payload.as_slice()))
                } else if kind == FRAME_EXIT {
                    if let Some(code) = read_exit_payload(payload.as_slice()) {
                        self.exit_code = code;
                    }
                    ClientStep::Finish
                } else {
                    ClientStep::Continue
                }
            },
            ClientEvent::TimedOut => ClientStep::Write(self.filter.flush_pending()),
            ClientEvent::Closed => ClientStep::Finish,
            ClientEvent::Failed => ClientStep::Fail,
        }
    }

    /// What is left to write when the client leaves its loop, and the exit code of the client.
    pub fn finish(&mut self) -> (r: (Vec<u8>, i32))
        ensures
            r.0@ == waiting_show(old(self).filter.pending_cursor_show),
            r.1 == old(self).exit_code,
            !final(self).filter.pending_cursor_show,
            final(self).exit_code == old(self).exit_code,
            (r.0@, r.1) == old(self)@.ending(),
    {
        (self.filter.flush_pending(), self.exit_code)
    }
}

/// The length of the first piece of output: an escape sequence, or a byte on its own.
pub open spec fn piece_len(s: Seq<u8>) -> int {
    match escape::escape_len(s) {
        Some(n) => n,
        None => 1,
    }
}

/// Whether output holds no escape sequence in part.
pub open spec fn settled(s: Seq<u8>) -> bool
    decreases s.len(),
{
    proof {
        escape::law_escape_len_bounds(s);
    }
    s.len() == 0 || (!escape::incomplete_escape(s) && settled(s.skip(piece_len(s))))
}

/// Whether output holds escape sequences only.
pub open spec fn only_escapes(s: Seq<u8>) -> bool
    decreases s.len(),
{
    proof {
        escape::law_escape_len_bounds(s);
    }
    s.len() == 0 || (escape::escape_len(s) is Some && !escape::incomplete_escape(s)
        && only_escapes(s.skip(piece_len(s))))
}

proof fn lemma_cursor_sequences_are_escapes(s: Seq<u8>)
    ensures
        CURSOR_SHOW@.is_prefix_of(s) ==> escape::escape_len(s) == Some(6int),
        CURSOR_HIDE@.is_prefix_of(s) ==> escape::escape_len(s) == Some(6int),
        CURSOR_SHOW@.is_prefix_of(s) ==> !CURSOR_HIDE@.is_prefix_of(s),
{
    reveal_with_fuel(escape::csi_end, 5);
    if CURSOR_SHOW@.is_prefix_of(s) || CURSOR_HIDE@.is_prefix_of(s) {
        assert(forall|i: int| 0 <= i < 6 ==> s[i] == s.take(6)[i]);
        assert(CURSOR_SHOW@[5] != CURSOR_HIDE@[5]);
    }
}

proof fn lemma_first_piece_stable(s: Seq<u8>, rest: Seq<u8>)
    requires
        s.len() > 0,
        !escape::incomplete_escape(s),
    ensures
        escape::escape_len(s + rest) == escape::escape_len(s),
        CURSOR_SHOW@.is_prefix_of(s + rest) == CURSOR_SHOW@.is_prefix_of(s),
        CURSOR_HIDE@.is_prefix_of(s + rest) == CURSOR_HIDE@.is_prefix_of(s),
        1 <= piece_len(s) <= s.len(),
        !escape::incomplete_escape(s + rest),
{
    escape::law_escape_len_stable(s, rest);
    escape::law_escape_len_bounds(s);
    lemma_cursor_sequences_are_escapes(s);
    lemma_cursor_sequences_are_escapes(s + rest);
    if s.len() >= 6 {
        assert(s.take(6) =~= (s + rest).take(6));
    }
}

/// It does not matter how settled output is cut into payloads: what is written, and whether a
/// sequence that shows the cursor waits, is the same as for all of it at once.
pub proof fn law_present_in_payloads(first: Seq<u8>, second: Seq<u8>, waiting: bool)
    requires
        settled(first),
    ensures
        ({
            let one = present(first, waiting);
            let two = present(second, one.waiting);
            present(first + second, waiting) == (Presented {
                output: one.output + two.output,
                waiting: two.waiting,
            })
        }),
    decreases first.len(),
{
    let one = present(first, waiting);
    let two = present(second, one.waiting);
    let whole = first + second;
    if first.len() == 0 {
        assert(whole =~= second);
        assert(one.output + two.output =~= two.output);
    } else {
        lemma_first_piece_stable(first, second);
        lemma_cursor_sequences_are_escapes(first);
        let n = piece_len(first);
        assert(whole.skip(n) =~= first.skip(n) + second);
        assert(whole.take(n) =~= first.take(n));
        if CURSOR_SHOW@.is_prefix_of(first) {
            law_present_in_payloads(first.skip(n), second, true);
        } else if CURSOR_HIDE@.is_prefix_of(first) {
            law_present_in_payloads(first.skip(n), second, false);
        } else if escape::escape_len(first) is Some {
            law_present_in_payloads(first.skip(n), second, waiting);
        } else {
            law_present_in_payloads(first.skip(n), second, false);
        }
        assert(present(whole, waiting).output =~= one.output + two.output);
    }
}

/// What the broker shows is settled, so it does not matter how it is cut into payloads.
pub proof fn law_shown_output_is_settled(s: Seq<u8>, terminal: Terminal)
    ensures
        settled(output::scan(s, terminal).shown),
    decreases s.len(),
{
    if s.len() > 0 {
        output::lemma_token_len(s);
        match output::next_token(s) {
            output::Token::Query(_, n) => law_shown_output_is_settled(s.skip(n), terminal),
            output::Token::Partial => {},
            output::Token::Escape(n) => {
                let sequence = s.take(n);
                let rest = output::scan(s.skip(n), terminal.after_escape(sequence)).shown;
                law_shown_output_is_settled(s.skip(n), terminal.after_escape(sequence));
                escape::law_escape_len_bounds(s);
                assert(!escape::incomplete_escape(sequence));
                lemma_first_piece_stable(sequence, rest);
                assert((sequence + rest).skip(n) =~= rest);
            },
            output::Token::Byte => {
                let rest = output::scan(s.skip(1), terminal.after_byte(s[0])).shown;
                law_shown_output_is_settled(s.skip(1), terminal.after_byte(s[0]));
                assert((seq![s[0]] + rest).skip(1) =~= rest);
            },
        }
    }
}

proof fn lemma_only_escapes_before_hide(middle: Seq<u8>, rest: Seq<u8>, a: bool, b: bool)
    requires
        only_escapes(middle),
    ensures
        present(middle + CURSOR_HIDE@ + rest, a) == present(middle + CURSOR_HIDE@ + rest, b),
    decreases middle.len(),
{
    let tail = CURSOR_HIDE@ + rest;
    let whole = middle + CURSOR_HIDE@ + rest;
    assert(whole =~= middle + tail);
    if middle.len() == 0 {
        assert(whole =~= tail);
        assert(tail.take(6) =~= CURSOR_HIDE@);
        lemma_cursor_sequences_are_escapes(tail);
    } else {
        lemma_first_piece_stable(middle, tail);
        lemma_cursor_sequences_are_escapes(middle);
        let n = piece_len(middle);
        assert(whole.skip(n) =~= middle.skip(n) + CURSOR_HIDE@ + rest);
        lemma_only_escapes_before_hide(middle.skip(n), rest, a, b);
    }
}

/// A sequence that shows the cursor is void where the cursor is hidden again before any text.
pub proof fn law_show_before_hide_is_void(middle: Seq<u8>, rest: Seq<u8>, waiting: bool)
    requires
        only_escapes(middle),
    ensures
        present(CURSOR_SHOW@ + middle + CURSOR_HIDE@ + rest, waiting) == present(
            middle + CURSOR_HIDE@ + rest,
            waiting,
        ),
{
    let whole = CURSOR_SHOW@ + middle + CURSOR_HIDE@ + rest;
    assert(whole.take(6) =~= CURSOR_SHOW@);
    assert(whole.skip(6) =~= middle + CURSOR_HIDE@ + rest);
    lemma_only_escapes_before_hide(middle, rest, true, waiting);
}

/// A sequence that shows the cursor is written before the text that follows it.
pub proof fn law_show_is_written_before_text(byte: u8, rest: Seq<u8>, waiting: bool)
    requires
        byte != escape::ESC,
    ensures
        present(CURSOR_SHOW@ + seq![byte] + rest, waiting) == (Presented {
            output: CURSOR_SHOW@ + seq![byte] + present(rest, false).output,
            waiting: present(rest, false).waiting,
        }),
{
    let whole = CURSOR_SHOW@ + seq![byte] + rest;
    assert(whole.take(6) =~= CURSOR_SHOW@);
    let tail = whole.skip(6);
    assert(tail[0] == byte);
    assert(tail.skip(1) =~= rest);
    lemma_cursor_sequences_are_escapes(tail);
    assert(present(tail, true).output == CURSOR_SHOW@ + seq![byte] + present(rest, false).output);
}

/// Output that never shows the cursor is written as it is.
pub proof fn law_output_without_show_is_unchanged(s: Seq<u8>)
    requires
        forall|i: int| 0 <= i < s.len() ==> !CURSOR_SHOW@.is_prefix_of(#[trigger] s.skip(i)),
    ensures
        present(s, false) == (Presented { output: s, waiting: false }),
    decreases s.len(),
{
    if s.len() == 0 {
        assert(present(s, false).output =~= s);
    } else {
        assert(s.skip(0) =~= s);
        escape::law_escape_len_bounds(s);
        lemma_cursor_sequences_are_escapes(s);
        let n = piece_len(s);
        let rest = s.skip(n);
        assert forall|i: int| 0 <= i < rest.len() implies !CURSOR_SHOW@.is_prefix_of(
            #[trigger] rest.skip(i),
        ) by {
            assert(rest.skip(i) =~= s.skip(n + i));
        }
        law_output_without_show_is_unchanged(rest);
        if CURSOR_HIDE@.is_prefix_of(s) {
            assert(s.take(6) =~= CURSOR_HIDE@);
        }
        assert(s.take(1) =~= seq![s[0]]);
        assert(Seq::<u8>::empty() + seq![s[0]] =~= seq![s[0]]);
        assert(present(s, false).output =~= s.take(n) + rest);
        assert(s.take(n) + rest =~= s);
    }
}

/// Whether the cursor is visible after output, where `before` says whether it was.
pub open spec fn cursor_visible(s: Seq<u8>, before: bool) -> bool
    decreases s.len(),
{
    proof {
        escape::law_escape_len_bounds(s);
    }
    if s.len() == 0 {
        before
    } else if CURSOR_SHOW@.is_prefix_of(s) {
        cursor_visible(s.skip(6), true)
    } else if CURSOR_HIDE@.is_prefix_of(s) {
        cursor_visible(s.skip(6), false)
    } else {
        cursor_visible(s.skip(piece_len(s)), before)
    }
}

/// In the end the cursor is visible exactly where the output asked for it: after what is
/// written and what still waits, it is as after the output itself.
#[verifier::spinoff_prover]
#[verifier::rlimit(60)]
pub proof fn law_cursor_visibility_is_kept(s: Seq<u8>, waiting: bool, before: bool)
    requires
        settled(s),
    ensures
        ({
            let done = present(s, waiting);
            cursor_visible(done.output + waiting_show(done.waiting), before) == cursor_visible(
                s,
                before || waiting,
            )
        }),
    decreases s.len(),
{
    let done = present(s, waiting);
    let all = done.output + waiting_show(done.waiting);
    if s.len() == 0 {
        assert(all =~= waiting_show(waiting));
        assert(CURSOR_SHOW@.take(6) =~= CURSOR_SHOW@);
        assert(CURSOR_SHOW@.skip(6) =~= Seq::empty());
        if waiting {
            assert(CURSOR_SHOW@.is_prefix_of(all));
            assert(cursor_visible(all.skip(6), true));
        }
    } else {
        lemma_first_piece_stable(s, Seq::empty());
        lemma_cursor_sequences_are_escapes(s);
        escape::law_escape_len_bounds(s);
        let n = piece_len(s);
        let piece = s.take(n);
        if CURSOR_SHOW@.is_prefix_of(s) {
            law_cursor_visibility_is_kept(s.skip(6), true, before);
        } else if CURSOR_HIDE@.is_prefix_of(s) {
            let rest = present(s.skip(6), false);
            law_cursor_visibility_is_kept(s.skip(6), false, false);
            assert(all =~= CURSOR_HIDE@ + (rest.output + waiting_show(rest.waiting)));
            assert(all.take(6) =~= CURSOR_HIDE@);
            assert(all.skip(6) =~= rest.output + waiting_show(rest.waiting));
            lemma_cursor_sequences_are_escapes(all);
        } else if escape::escape_len(s) is Some {
            let rest = present(s.skip(n), waiting);
            let after = rest.output + waiting_show(rest.waiting);
            law_cursor_visibility_is_kept(s.skip(n), waiting, before);
            assert(all =~= piece + after);
            assert(!escape::incomplete_escape(piece));
            lemma_first_piece_stable(piece, after);
            if n == 6 {
                assert(piece.take(6) =~= s.take(6));
            }
            lemma_cursor_sequences_are_escapes(piece);
            assert(all.skip(n) =~= after);
        } else {
            let rest = present(s.skip(1), false);
            let after = rest.output + waiting_show(rest.waiting);
            law_cursor_visibility_is_kept(s.skip(1), false, before || waiting);
            let text = seq![s[0]] + after;
            assert(text.skip(1) =~= after);
            lemma_cursor_sequences_are_escapes(text);
            assert(cursor_visible(text, before || waiting) == cursor_visible(
                after,
                before || waiting,
            ));
            if waiting {
                assert(all =~= CURSOR_SHOW@ + text);
                assert(all.take(6) =~= CURSOR_SHOW@);
                assert(all.skip(6) =~= text);
            } else {
                assert(all =~= text);
            }
        }
    }
}

proof fn lemma_prefix(prefix: Seq<u8>, rest: Seq<u8>)
    ensures
        prefix.is_prefix_of(prefix + rest),
        (prefix + rest).skip(prefix.len() as int) == rest,
{
    assert((prefix + rest).subrange(0, prefix.len() as int) =~= prefix);
    assert((prefix + rest).skip(prefix.len() as int) =~= rest);
}

/// `ESC [ ? 25 h` is not written but waits, and what follows is treated with it waiting.
/// `ESC [ ? 25 l` is written, and nothing waits behind it.
pub proof fn law_cursor_sequences(rest: Seq<u8>, waiting: bool)
    ensures
        present(seq![0x1bu8, 0x5b, 0x3f, 0x32, 0x35, 0x68] + rest, waiting) == present(rest, true),
        ({
            let after = present(rest, false);
            let hide = seq![0x1bu8, 0x5b, 0x3f, 0x32, 0x35, 0x6c];
            present(hide + rest, waiting) == (Presented { output: hide + after.output, ..after })
        }),
        waiting_show(true) == seq![0x1bu8, 0x5b, 0x3f, 0x32, 0x35, 0x68],
        waiting_show(false).len() == 0,
        present(Seq::empty(), waiting) == (Presented { output: Seq::empty(), waiting }),
{
    let show = seq![0x1bu8, 0x5b, 0x3f, 0x32, 0x35, 0x68];
    let hide = seq![0x1bu8, 0x5b, 0x3f, 0x32, 0x35, 0x6c];
    assert(CURSOR_SHOW@ =~= show);
    assert(CURSOR_HIDE@ =~= hide);
    lemma_prefix(show, rest);
    lemma_prefix(hide, rest);
    lemma_cursor_sequences_are_escapes(show + rest);
    lemma_cursor_sequences_are_escapes(hide + rest);
}

/// Any other escape sequence is written as it is, and leaves what waits alone. Any other byte is
/// text: it is written behind the sequence that waits, if one does, and nothing waits behind it.
pub proof fn law_other_output_is_written(s: Seq<u8>, n: int, waiting: bool)
    requires
        s.len() > 0,
        s.len() >= 6 ==> s.take(6) != seq![0x1bu8, 0x5b, 0x3f, 0x32, 0x35, 0x68],
        s.len() >= 6 ==> s.take(6) != seq![0x1bu8, 0x5b, 0x3f, 0x32, 0x35, 0x6c],
    ensures
        escape::escape_len(s) == Some(n) ==> present(s, waiting) == (Presented {
            output: s.take(n) + present(s.skip(n), waiting).output,
            waiting: present(s.skip(n), waiting).waiting,
        }),
        escape::escape_len(s) is None && !waiting ==> present(s, waiting) == (Presented {
            output: seq![s[0]] + present(s.skip(1), false).output,
            waiting: present(s.skip(1), false).waiting,
        }),
        escape::escape_len(s) is None && waiting ==> present(s, waiting) == (Presented {
            output: seq![0x1bu8, 0x5b, 0x3f, 0x32, 0x35, 0x68] + seq![s[0]] + present(
                s.skip(1),
                false,
            ).output,
            waiting: present(s.skip(1), false).waiting,
        }),
{
    assert(CURSOR_SHOW@ =~= seq![0x1bu8, 0x5b, 0x3f, 0x32, 0x35, 0x68]);
    assert(CURSOR_HIDE@ =~= seq![0x1bu8, 0x5b, 0x3f, 0x32, 0x35, 0x6c]);
    if s.len() >= 6 {
        assert(s.subrange(0, 6) =~= s.take(6));
    }
    assert(Seq::<u8>::empty() + seq![s[0]] =~= seq![s[0]]);
}

/// A client writes the output that it is sent, ends with the exit code that it is sent, and goes on
/// at any other frame. It waits 25 milliseconds for the cursor to be hidden, and shows it then.
pub proof fn law_client_does_what_it_is_sent(client: Client, kind: u8, payload: Vec<u8>)
    ensures
        ({
            let (after, step) = client.after(ClientEvent::Frame(kind, payload));
            let shown = present(payload@, client.waiting);
            &&& kind == 1 ==> step == Step::Write(shown.output) && after.waiting == shown.waiting
                && after.exit_code == client.exit_code
            &&& kind == 2 ==> step == Step::Finish && after.waiting == client.waiting
            &&& kind == 2 && payload@.len() != 4 ==> after.exit_code == client.exit_code
            &&& kind == 2 && frame::exit_code_in(payload@) is Some ==> Some(after.exit_code)
                == frame::exit_code_in(payload@)
            &&& kind != 1 && kind != 2 ==> step == Step::Continue && after == client
        }),
        ({
            let (after, step) = client.after(ClientEvent::TimedOut);
            &&& step == Step::Write(waiting_show(client.waiting))
            &&& !after.waiting && after.exit_code == client.exit_code
        }),
        client.after(ClientEvent::Closed) == (client, Step::Finish),
        client.after(ClientEvent::Failed) == (client, Step::Fail),
        client.waiting ==> client.patience() == Some(25u64),
        !client.waiting ==> client.patience() is None,
{
}

/// A client ends with the exit code that it was sent last, and shows the cursor where it was to be
/// shown.
pub proof fn law_client_ends_with_the_code_it_was_sent(client: Client, code: i32, payload: Vec<u8>)
    requires
        payload@ == frame::u32_le(frame::to_unsigned(code)),
    ensures
        client.after(ClientEvent::Frame(2, payload)).0.ending().1 == code,
        client.ending().1 == client.exit_code,
        client.waiting ==> client.ending().0 == seq![0x1bu8, 0x5b, 0x3f, 0x32, 0x35, 0x68],
        !client.waiting ==> client.ending().0.len() == 0,
{
    frame::law_exit_code_round_trip(code);
    law_cursor_sequences(Seq::empty(), client.waiting);
}

} // verus!
