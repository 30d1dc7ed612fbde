//! The broker's side of the program's output: queries to the terminal are answered and taken
//! out, the cursor is followed, and the rest goes to the clients.

use vstd::prelude::*;
use vstd::slice::slice_subrange;
use crate::escape;
use crate::escape::ansi_escape_len;
use crate::escape::starts_incomplete_escape;
use crate::escape::terminal_query_at;
use crate::escape::TerminalQuery;
use crate::shared::answer_terminal_query;
use crate::shared::Shared;
use crate::shared::State;
use crate::terminal::update_cursor_from_byte;
use crate::terminal::update_cursor_from_escape;
use crate::terminal::Terminal;

verus! {

/// What a stream of output begins with.
pub enum Token {
    /// A query to the terminal, of the given length.
    Query(TerminalQuery, int),
    /// An escape sequence that has not arrived in full.
    Partial,
    /// An escape sequence of the given length.
    Escape(int),
    /// A byte on its own.
    Byte,
}

/// The first token of a stream that is not empty.
pub open spec fn next_token(s: Seq<u8>) -> Token {
    match escape::query_at(s) {
        Some((query, n)) => Token::Query(query, n),
        None => if escape::incomplete_escape(s) {
            Token::Partial
        } else {
            match escape::escape_len(s) {
                Some(n) => Token::Escape(n),
                None => Token::Byte,
            }
        },
    }
}

/// The number of bytes that a token takes from its stream.
pub open spec fn token_len(token: Token) -> int {
    match token {
        Token::Query(_, n) => n,
        Token::Partial => 0,
        Token::Escape(n) => n,
        Token::Byte => 1,
    }
}

/// What becomes of a stream of output: the bytes that are shown, the bytes that are held back
/// until more arrives, the replies to the queries, and the terminal at the end.
#[verifier::ext_equal]
pub struct Scan {
    pub shown: Seq<u8>,
    pub held: Seq<u8>,
    pub replies: Seq<u8>,
    pub terminal: Terminal,
}

/// Goes through a stream of output token by token.
pub open spec fn scan(s: Seq<u8>, terminal: Terminal) -> Scan
    decreases s.len(),
{
    proof {
        if s.len() > 0 {
            lemma_token_len(s);
        }
    }
    if s.len() == 0 {
        Scan { shown: Seq::empty(), held: Seq::empty(), replies: Seq::empty(), terminal }
    } else {
        match next_token(s) {
            Token::Query(query, n) => {
                let rest = scan(s.skip(n), terminal);
                Scan { replies: terminal.reply(query) + rest.replies, ..rest }
            },
            Token::Partial => Scan {
                shown: Seq::empty(),
                held: s,
                replies: Seq::empty(),
                terminal,
            },
            Token::Escape(n) => {
                let rest = scan(s.skip(n), terminal.after_escape(s.take(n)));
                Scan { shown: s.take(n) + rest.shown, ..rest }
            },
            Token::Byte => {
                let rest = scan(s.skip(1), terminal.after_byte(s[0]));
                Scan { shown: seq![s[0]] + rest.shown, ..rest }
            },
        }
    }
}

/// A complete token has at least one byte, and lies within its stream.
pub proof fn lemma_token_len(s: Seq<u8>)
    requires
        s.len() > 0,
    ensures
        !(next_token(s) is Partial) ==> 1 <= token_len(next_token(s)) <= s.len(),
{
    escape::law_escape_len_bounds(s);
}

/// A filter for the output of the program. It keeps an escape sequence that has arrived in part
/// until the rest arrives.
#[derive(Debug)]
pub struct TerminalOutputFilter {
    pub pending: Vec<u8>,
}

impl Default for TerminalOutputFilter {
    fn default() -> (r: TerminalOutputFilter)
        ensures
            r.pending@ == Seq::<u8>::empty(),
    {
        TerminalOutputFilter::new()
    }
}

impl TerminalOutputFilter {
    /// A filter that keeps nothing back.
    pub fn new() -> (r: TerminalOutputFilter)
        ensures
            r.pending@ == Seq::<u8>::empty(),
    {
        TerminalOutputFilter { pending: Vec::new() }
    }

    /// Takes one more chunk of output, and returns what is shown of it. Queries are answered,
    /// and the cursor is followed.
    pub fn process(&mut self, shared: &mut Shared, chunk: &[u8]) -> (r: Vec<u8>)
        ensures
            ({
                let done = scan(old(self).pending@ + chunk@, old(shared)@.terminal);
                &&& r@ == done.shown
                &&& final(self).pending@ == done.held
                &&& final(shared)@ == (State {
                    terminal: done.terminal,
                    ..old(shared)@.typed(done.replies)
                })
            }),
    {
        let mut input: Vec<u8> = Vec::new();
        input.append(&mut self.pending);
        input.extend_from_slice(chunk);
        assert(input@ =~= old(self).pending@ + chunk@);
        let mut output: Vec<u8> = Vec::new();
        let mut i: usize = 0;
        let ghost done = scan(input@, old(shared)@.terminal);
        let ghost mut replies: Seq<u8> = Seq::empty();
        assert(input@.skip(0) =~= input@);
        assert(shared@ =~= State { terminal: shared@.terminal, ..old(shared)@.typed(replies) });
        while i < input.len()
            invariant_except_break
                self.pending@ == Seq::<u8>::empty(),
                ({
                    let rest = scan(input@.skip(i as int), shared@.terminal);
                    &&& done.shown == output@ + rest.shown
                    &&& done.held == rest.held
                    &&& done.replies == replies + rest.replies
                    &&& done.terminal == rest.terminal
                }),
            invariant
                i <= input@.len(),
                shared@ == (State { terminal: shared@.terminal, ..old(shared)@.typed(replies) }),
            ensures
                self.pending@ == done.held,
                output@ == done.shown,
                replies == done.replies,
                shared@.terminal == done.terminal,
            decreases input@.len() - i,
        {
            let ghost s = input@.skip(i as int);
            let ghost terminal = shared@.terminal;
            let ghost rest = scan(s, terminal);
            proof {
                lemma_token_len(s);
            }
            let tail: &[u8] = slice_subrange(input.as_slice(), i, input.len());
            assert(tail@ =~= s);
            if let Some((query, n)) = terminal_query_at(tail) {
                answer_terminal_query(shared, query);
                proof {
                    assert(s.skip(n as int) =~= input@.skip(i + n));
                    assert(done.replies =~= replies + terminal.reply(query) + scan(
                        s.skip(n as int),
                        terminal,
                    ).replies);
                    replies = replies + terminal.reply(query);
                    assert(shared@ =~= State { terminal, ..old(shared)@.typed(replies) });
                }
                i = i + n;
                continue;
            }
            if input[i] == escape::ESC {
                if starts_incomplete_escape(tail) {
                    self.pending.extend_from_slice(tail);
                    assert(self.pending@ =~= s);
                    break;
                }
                if let Some(n) = ansi_escape_len(tail) {
                    let sequence: &[u8] = slice_subrange(tail, 0, n);
                    assert(sequence@ =~= s.take(n as int));
                    let ghost before = output@;
                    update_cursor_from_escape(&mut shared.terminal, sequence);
                    output.extend_from_slice(sequence);
                    proof {
                        assert(output@ =~= before + s.take(n as int));
                        assert(s.skip(n as int) =~= input@.skip(i + n));
                        assert(done.shown =~= output@ + scan(s.skip(n as int), shared@.terminal).shown);
                        assert(shared@ =~= State {
                            terminal: shared@.terminal,
                            ..old(shared)@.typed(replies)
                        });
                    }
                    i = i + n;
                    continue;
                }
            }
            let ghost before = output@;
            update_cursor_from_byte(&mut shared.terminal, input[i]);
            output.push(input[i]);
            proof {
                assert(s.skip(1) =~= input@.skip(i + 1));
                assert(done.shown =~= output@ + scan(s.skip(1), shared@.terminal).shown);
                assert(shared@ =~= State {
                    terminal: shared@.terminal,
                    ..old(shared)@.typed(replies)
                });
            }
            i = i + 1;
        }
        assert(shared@ =~= State { terminal: done.terminal, ..old(shared)@.typed(done.replies) });
        output
    }
}

/// A complete token at the beginning of a stream is the same whatever follows.
pub proof fn law_next_token_stable(s: Seq<u8>, rest: Seq<u8>)
    requires
        s.len() > 0,
        !(next_token(s) is Partial),
    ensures
        next_token(s + rest) == next_token(s),
{
    let whole = s + rest;
    match escape::query_at(s) {
        Some((query, n)) => {
            assert(forall|i: int| 0 <= i < n ==> whole[i] == s[i]);
            assert(s.take(n) =~= whole.take(n));
            assert(escape::DEC_CURSOR_POSITION_QUERY@.len() == 5);
        },
        None => {
            escape::law_escape_len_stable(s, rest);
            escape::law_escape_len_bounds(s);
            lemma_query_is_escape(whole);
            if let Some((query, n)) = escape::query_at(whole) {
                assert(n <= s.len());
                assert(s.take(n) =~= whole.take(n));
                assert(false);
            }
        },
    }
}

proof fn lemma_query_is_escape(s: Seq<u8>)
    ensures
        escape::query_at(s) matches Some((query, n)) ==> escape::escape_len(s) == Some(n),
{
    reveal_with_fuel(escape::csi_end, 4);
    if let Some((query, n)) = escape::query_at(s) {
        assert(forall|i: int| 0 <= i < n ==> s[i] == s.take(n)[i]);
    }
}

/// It does not matter how output is cut into chunks: what is shown, held back and replied, and
/// where the cursor ends up, is the same as for all of it at once.
pub proof fn law_scan_in_chunks(first: Seq<u8>, second: Seq<u8>, terminal: Terminal)
    ensures
        ({
            let one = scan(first, terminal);
            let two = scan(one.held + second, one.terminal);
            scan(first + second, terminal) == (Scan {
                shown: one.shown + two.shown,
                held: two.held,
                replies: one.replies + two.replies,
                terminal: two.terminal,
            })
        }),
    decreases first.len(),
{
    let one = scan(first, terminal);
    let two = scan(one.held + second, one.terminal);
    let whole = first + second;
    if first.len() == 0 {
        assert(whole =~= second);
        assert(one.held + second =~= second);
        assert(one.shown + two.shown =~= two.shown);
        assert(one.replies + two.replies =~= two.replies);
    } else if next_token(first) is Partial {
        assert(one.shown + two.shown =~= two.shown);
        assert(one.replies + two.replies =~= two.replies);
    } else {
        lemma_token_len(first);
        law_next_token_stable(first, second);
        let n = token_len(next_token(first));
        assert(whole.skip(n) =~= first.skip(n) + second);
        assert(whole.take(n) =~= first.take(n));
        let next = match next_token(first) {
            Token::Escape(_) => terminal.after_escape(first.take(n)),
            Token::Byte => terminal.after_byte(first[0]),
            _ => terminal,
        };
        law_scan_in_chunks(first.skip(n), second, next);
        assert(scan(whole, terminal).shown =~= one.shown + two.shown);
        assert(scan(whole, terminal).replies =~= one.replies + two.replies);
    }
}

/// The bytes of a query.
pub open spec fn query_bytes(query: TerminalQuery) -> Seq<u8> {
    match query {
        TerminalQuery::Status => escape::STATUS_QUERY@,
        TerminalQuery::CursorPosition => escape::CURSOR_POSITION_QUERY@,
        TerminalQuery::DecCursorPosition => escape::DEC_CURSOR_POSITION_QUERY@,
    }
}

/// A query that the program puts to its terminal is answered, and nothing of it is shown.
pub proof fn law_query_is_answered_not_shown(query: TerminalQuery, terminal: Terminal)
    ensures
        scan(query_bytes(query), terminal) == (Scan {
            shown: Seq::empty(),
            held: Seq::empty(),
            replies: terminal.reply(query),
            terminal,
        }),
{
    let s = query_bytes(query);
    assert(s.take(s.len() as int) =~= s);
    assert(escape::query_at(s) == Some((query, s.len() as int))) by {
        assert(escape::DEC_CURSOR_POSITION_QUERY@.is_prefix_of(s) ==> s.len() >= 5);
        assert(escape::CURSOR_POSITION_QUERY@.is_prefix_of(s) ==> s[2] == 0x36);
        assert(escape::CURSOR_POSITION_QUERY@[2] == 0x36);
    }
    assert(s.skip(s.len() as int) =~= Seq::empty());
    assert(scan(s.skip(s.len() as int), terminal).replies.len() == 0);
    assert(scan(s, terminal).replies =~= terminal.reply(query));
}

/// A query between other output is taken out and answered from the place that the cursor has
/// reached. The rest is shown as if the query had not been there.
pub proof fn law_query_is_taken_out(
    before: Seq<u8>,
    query: TerminalQuery,
    after: Seq<u8>,
    terminal: Terminal,
)
    requires
        scan(before, terminal).held.len() == 0,
    ensures
        ({
            let without = scan(before + after, terminal);
            let with = scan(before + query_bytes(query) + after, terminal);
            let reached = scan(before, terminal);
            &&& with.shown == without.shown
            &&& with.held == without.held
            &&& with.terminal == without.terminal
            &&& with.replies == reached.replies + reached.terminal.reply(query) + scan(
                after,
                reached.terminal,
            ).replies
        }),
{
    let reached = scan(before, terminal);
    let bytes = query_bytes(query);
    law_scan_in_chunks(before, after, terminal);
    law_scan_in_chunks(before, bytes + after, terminal);
    law_scan_in_chunks(bytes, after, reached.terminal);
    law_query_is_answered_not_shown(query, reached.terminal);
    let none = Seq::<u8>::empty();
    assert(reached.held =~= none);
    assert(none + (bytes + after) =~= bytes + after);
    assert(none + after =~= after);
    assert(before + (bytes + after) =~= before + bytes + after);
    let rest = scan(after, reached.terminal);
    assert(none + rest.shown =~= rest.shown);
    assert(reached.replies + (reached.terminal.reply(query) + rest.replies) =~= reached.replies
        + reached.terminal.reply(query) + rest.replies);
}

proof fn lemma_reply_nonempty(query: TerminalQuery, terminal: Terminal)
    ensures
        terminal.reply(query).len() > 0,
{
}

/// Nothing but queries is lost: without a reply, what is shown and what is held back make up
/// all of the output.
pub proof fn law_nothing_but_queries_is_lost(s: Seq<u8>, terminal: Terminal)
    requires
        scan(s, terminal).replies.len() == 0,
    ensures
        scan(s, terminal).shown + scan(s, terminal).held == s,
    decreases s.len(),
{
    let done = scan(s, terminal);
    if s.len() > 0 {
        lemma_token_len(s);
        match next_token(s) {
            Token::Query(query, n) => {
                lemma_reply_nonempty(query, terminal);
            },
            Token::Partial => {
                assert(done.shown + done.held =~= s);
            },
            Token::Escape(n) => {
                law_nothing_but_queries_is_lost(s.skip(n), terminal.after_escape(s.take(n)));
                assert(done.shown + done.held =~= s.take(n) + s.skip(n));
                assert(s.take(n) + s.skip(n) =~= s);
            },
            Token::Byte => {
                law_nothing_but_queries_is_lost(s.skip(1), terminal.after_byte(s[0]));
                assert(done.shown + done.held =~= seq![s[0]] + s.skip(1));
                assert(seq![s[0]] + s.skip(1) =~= s);
            },
        }
    } else {
        assert(done.shown + done.held =~= s);
    }
}

/// What is held back is nothing, or an escape sequence that has not arrived in full.
pub proof fn law_held_is_partial_escape(s: Seq<u8>, terminal: Terminal)
    ensures
        scan(s, terminal).held.len() == 0 || escape::incomplete_escape(scan(s, terminal).held),
    decreases s.len(),
{
    if s.len() > 0 {
        lemma_token_len(s);
        match next_token(s) {
            Token::Query(_, n) => law_held_is_partial_escape(s.skip(n), terminal),
            Token::Partial => {},
            Token::Escape(n) => law_held_is_partial_escape(
                s.skip(n),
                terminal.after_escape(s.take(n)),
            ),
            Token::Byte => law_held_is_partial_escape(s.skip(1), terminal.after_byte(s[0])),
        }
    }
}

/// Output without an escape byte is shown as it is.
pub proof fn law_plain_output_is_shown(s: Seq<u8>, terminal: Terminal)
    requires
        !s.contains(escape::ESC),
    ensures
        scan(s, terminal).shown == s,
        scan(s, terminal).held.len() == 0,
        scan(s, terminal).replies.len() == 0,
    decreases s.len(),
{
    if s.len() > 0 {
        assert(s[0] != escape::ESC);
        if let Some((query, n)) = escape::query_at(s) {
            lemma_query_is_escape(s);
        }
        assert forall|i: int| 0 <= i < s.skip(1).len() implies s.skip(1)[i] != escape::ESC by {
            assert(s.skip(1)[i] == s[i + 1]);
        }
        law_plain_output_is_shown(s.skip(1), terminal.after_byte(s[0]));
        assert(seq![s[0]] + s.skip(1) =~= s);
    } else {
        assert(scan(s, terminal).shown =~= s);
    }
}

/// Whatever the program writes, the cursor stays on the screen and the size stays the same.
pub proof fn law_output_keeps_cursor_on_screen(s: Seq<u8>, terminal: Terminal)
    requires
        terminal.on_screen(),
    ensures
        scan(s, terminal).terminal.on_screen(),
        scan(s, terminal).terminal.rows == terminal.rows,
        scan(s, terminal).terminal.cols == terminal.cols,
    decreases s.len(),
{
    if s.len() > 0 {
        lemma_token_len(s);
        match next_token(s) {
            Token::Query(_, n) => law_output_keeps_cursor_on_screen(s.skip(n), terminal),
            Token::Partial => {},
            Token::Escape(n) => law_output_keeps_cursor_on_screen(
                s.skip(n),
                terminal.after_escape(s.take(n)),
            ),
            Token::Byte => law_output_keeps_cursor_on_screen(
                s.skip(1),
                terminal.after_byte(s[0]),
            ),
        }
    }
}

/// A query at the beginning of the output is answered by the terminal as it stands there, and
/// taken out. What follows is treated as if it stood alone.
pub proof fn law_each_query_is_answered(rest: Seq<u8>, terminal: Terminal)
    ensures
        ({
            let after = scan(rest, terminal);
            let status = scan(seq![0x1bu8, 0x5b, 0x35, 0x6e] + rest, terminal);
            let cursor = scan(seq![0x1bu8, 0x5b, 0x36, 0x6e] + rest, terminal);
            let dec_cursor = scan(seq![0x1bu8, 0x5b, 0x3f, 0x36, 0x6e] + rest, terminal);
            &&& status == (Scan {
                replies: terminal.reply(TerminalQuery::Status) + after.replies,
                ..after
            })
            &&& cursor == (Scan {
                replies: terminal.reply(TerminalQuery::CursorPosition) + after.replies,
                ..after
            })
            &&& dec_cursor == (Scan {
                replies: terminal.reply(TerminalQuery::DecCursorPosition) + after.replies,
                ..after
            })
        }),
{
    let status = seq![0x1bu8, 0x5b, 0x35, 0x6e] + rest;
    let cursor = seq![0x1bu8, 0x5b, 0x36, 0x6e] + rest;
    let dec_cursor = seq![0x1bu8, 0x5b, 0x3f, 0x36, 0x6e] + rest;
    escape::law_nothing_else_is_a_query(status);
    escape::law_nothing_else_is_a_query(cursor);
    escape::law_nothing_else_is_a_query(dec_cursor);
    assert(status.skip(4) =~= rest);
    assert(cursor.skip(4) =~= rest);
    assert(dec_cursor.skip(5) =~= rest);
}

/// A byte that does not begin an escape sequence is shown, and moves the cursor. What follows is
/// treated as if it stood alone. Of no output nothing is shown, held back or answered.
pub proof fn law_plain_byte_is_shown(byte: u8, rest: Seq<u8>, terminal: Terminal)
    requires
        byte != 0x1b,
    ensures
        ({
            let after = scan(rest, terminal.after_byte(byte));
            scan(seq![byte] + rest, terminal) == (Scan {
                shown: seq![byte] + after.shown,
                ..after
            })
        }),
        scan(Seq::empty(), terminal) == (Scan {
            shown: Seq::empty(),
            held: Seq::empty(),
            replies: Seq::empty(),
            terminal,
        }),
{
    let s = seq![byte] + rest;
    escape::law_nothing_else_is_a_query(s);
    escape::law_short_escapes(s);
    assert(s.skip(1) =~= rest);
}

/// An escape sequence that has arrived in full and is no query is shown byte for byte and gets no
/// reply. What follows is treated as if it stood alone.
pub proof fn law_complete_escape_is_shown(sequence: Seq<u8>, rest: Seq<u8>, terminal: Terminal)
    requires
        escape::escape_len(sequence) == Some(sequence.len() as int),
        !escape::incomplete_escape(sequence),
        sequence != seq![0x1bu8, 0x5b, 0x35, 0x6e],
        sequence != seq![0x1bu8, 0x5b, 0x36, 0x6e],
        sequence != seq![0x1bu8, 0x5b, 0x3f, 0x36, 0x6e],
    ensures
        ({
            let after = scan(rest, terminal.after_escape(sequence));
            scan(sequence + rest, terminal) == (Scan { shown: sequence + after.shown, ..after })
        }),
{
    let s = sequence + rest;
    let n = sequence.len() as int;
    escape::law_escape_len_bounds(sequence);
    escape::law_escape_len_stable(sequence, rest);
    lemma_query_is_escape(s);
    escape::law_nothing_else_is_a_query(s);
    if let Some((query, k)) = escape::query_at(s) {
        assert(k == n);
        assert(forall|i: int| 0 <= i < n ==> sequence[i] == s[i]);
        if query == TerminalQuery::Status {
            assert(sequence =~= seq![0x1bu8, 0x5b, 0x35, 0x6e]);
        } else if query == TerminalQuery::CursorPosition {
            assert(sequence =~= seq![0x1bu8, 0x5b, 0x36, 0x6e]);
        } else {
            assert(sequence =~= seq![0x1bu8, 0x5b, 0x3f, 0x36, 0x6e]);
        }
    }
    assert(s.take(n) =~= sequence);
    assert(s.skip(n) =~= rest);
}

/// An escape sequence that has not arrived in full is held back as it is: nothing of it is shown
/// or answered, and the cursor stays.
pub proof fn law_partial_escape_is_held(s: Seq<u8>, terminal: Terminal)
    requires
        escape::incomplete_escape(s),
    ensures
        scan(s, terminal) == (Scan {
            shown: Seq::empty(),
            held: s,
            replies: Seq::empty(),
            terminal,
        }),
{
    lemma_query_is_escape(s);
    escape::law_nothing_else_is_a_query(s);
}

/// Output that nowhere holds one of the three queries gets no reply, and what is shown and what is
/// held back make up all of it.
pub proof fn law_output_without_queries_is_not_answered(s: Seq<u8>, terminal: Terminal)
    requires
        forall|i: int|
            #![trigger s[i]]
            0 <= i && i + 4 <= s.len() ==> s.subrange(i, i + 4) != seq![0x1bu8, 0x5b, 0x35, 0x6e]
                && s.subrange(i, i + 4) != seq![0x1bu8, 0x5b, 0x36, 0x6e],
        forall|i: int|
            #![trigger s[i]]
            0 <= i && i + 5 <= s.len() ==> s.subrange(i, i + 5) != seq![
                0x1bu8,
                0x5b,
                0x3f,
                0x36,
                0x6e,
            ],
    ensures
        scan(s, terminal).replies.len() == 0,
        scan(s, terminal).shown + scan(s, terminal).held == s,
    decreases s.len(),
{
    if s.len() > 0 {
        lemma_token_len(s);
        escape::law_nothing_else_is_a_query(s);
        assert(escape::query_at(s) is None) by {
            if let Some((query, k)) = escape::query_at(s) {
                assert(s[0] == 0x1b);
                if query == TerminalQuery::Status {
                    assert(s.subrange(0, 4) =~= seq![0x1bu8, 0x5b, 0x35, 0x6e]);
                } else if query == TerminalQuery::CursorPosition {
                    assert(s.subrange(0, 4) =~= seq![0x1bu8, 0x5b, 0x36, 0x6e]);
                } else {
                    assert(s.subrange(0, 5) =~= seq![0x1bu8, 0x5b, 0x3f, 0x36, 0x6e]);
                }
            }
        }
        let n = token_len(next_token(s));
        if !(next_token(s) is Partial) {
            let rest = s.skip(n);
            assert forall|i: int|
                #![trigger rest[i]]
                0 <= i && i + 4 <= rest.len() implies rest.subrange(i, i + 4) != seq![
                0x1bu8,
                0x5b,
                0x35,
                0x6e,
            ] && rest.subrange(i, i + 4) != seq![0x1bu8, 0x5b, 0x36, 0x6e] by {
                assert(rest.subrange(i, i + 4) =~= s.subrange(i + n, i + n + 4));
                assert(s[i + n] == rest[i]);
            }
            assert forall|i: int|
                #![trigger rest[i]]
                0 <= i && i + 5 <= rest.len() implies rest.subrange(i, i + 5) != seq![
                0x1bu8,
                0x5b,
                0x3f,
                0x36,
                0x6e,
            ] by {
                assert(rest.subrange(i, i + 5) =~= s.subrange(i + n, i + n + 5));
                assert(s[i + n] == rest[i]);
            }
            let next = match next_token(s) {
                Token::Escape(_) => terminal.after_escape(s.take(n)),
                Token::Byte => terminal.after_byte(s[0]),
                _ => terminal,
            };
            law_output_without_queries_is_not_answered(rest, next);
        }
    }
    assert(scan(s, terminal).replies.len() == 0);
    law_nothing_but_queries_is_lost(s, terminal);
}

} // verus!
