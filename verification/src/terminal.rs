//! The size of the shared terminal and the position of its cursor.

use vstd::prelude::*;
use vstd::slice::slice_subrange;
use crate::escape;
use crate::escape::TerminalQuery;
use crate::escape::csi_param;
use crate::escape::csi_params;
use crate::text;
use crate::text::decimal_digits;

verus! {

/// A terminal: its size, and the row and column of its cursor, which count from 1.
#[derive(Clone, Copy, Debug, PartialEq, Eq, Structural)]
pub struct Terminal {
    pub cols: u16,
    pub rows: u16,
    pub cursor_col: u16,
    pub cursor_row: u16,
}

pub open spec fn clamp(value: int, low: int, high: int) -> int {
    if value < low {
        low
    } else if value > high {
        high
    } else {
        value
    }
}

pub open spec fn min(a: int, b: int) -> int {
    if a < b {
        a
    } else {
        b
    }
}

pub open spec fn max(a: int, b: int) -> int {
    if a < b {
        b
    } else {
        a
    }
}

impl Terminal {
    /// The number of rows, at least one.
    pub open spec fn height(self) -> int {
        max(self.rows as int, 1)
    }

    /// The number of columns, at least one.
    pub open spec fn width(self) -> int {
        max(self.cols as int, 1)
    }

    /// The row of the cursor, kept on the screen.
    pub open spec fn row(self) -> int {
        clamp(self.cursor_row as int, 1, self.height())
    }

    /// The column of the cursor, kept on the screen.
    pub open spec fn col(self) -> int {
        clamp(self.cursor_col as int, 1, self.width())
    }

    /// The terminal with its cursor moved to the place on the screen nearest to `row`, `col`.
    pub open spec fn moved(self, row: int, col: int) -> Terminal {
        Terminal {
            cursor_row: clamp(row, 1, self.height()) as u16,
            cursor_col: clamp(col, 1, self.width()) as u16,
            ..self
        }
    }

    /// The terminal after it has shown one byte of plain output.
    pub open spec fn after_byte(self, byte: u8) -> Terminal {
        let below = min(self.row() + 1, self.height());
        if byte == 0x0d {
            self.moved(self.row(), 1)
        } else if byte == 0x0a {
            self.moved(below, self.col())
        } else if byte == 0x08 {
            self.moved(self.row(), max(self.col() - 1, 1))
        } else if byte == 0x09 {
            self.moved(self.row(), min((self.col() + 7) / 8 * 8 + 1, self.width()))
        } else if 0x20 <= byte <= 0x7e || 0x80 <= byte {
            if self.col() >= self.width() {
                self.moved(below, 1)
            } else {
                self.moved(self.row(), self.col() + 1)
            }
        } else {
            self.moved(self.row(), self.col())
        }
    }

    /// The terminal after a control sequence that moves the cursor by, or to, given numbers.
    pub open spec fn after_csi(self, last: u8, params: Seq<Option<u64>>) -> Terminal {
        let first = escape::param_or(params, 0, 1) as int;
        let second = escape::param_or(params, 1, 1) as int;
        if last == 0x41 {
            self.moved(max(self.row() - first, 1), self.col())
        } else if last == 0x42 {
            self.moved(min(self.row() + first, self.height()), self.col())
        } else if last == 0x43 {
            self.moved(self.row(), min(self.col() + first, self.width()))
        } else if last == 0x44 {
            self.moved(self.row(), max(self.col() - first, 1))
        } else if last == 0x47 {
            self.moved(self.row(), clamp(first, 1, self.width()))
        } else if last == 0x64 {
            self.moved(clamp(first, 1, self.height()), self.col())
        } else if last == 0x48 || last == 0x66 {
            self.moved(clamp(first, 1, self.height()), clamp(second, 1, self.width()))
        } else {
            self
        }
    }

    /// The terminal after an escape sequence.
    pub open spec fn after_escape(self, sequence: Seq<u8>) -> Terminal {
        if sequence.len() < 3 || sequence[0] != escape::ESC || sequence[1] != 0x5b {
            self
        } else {
            self.after_csi(
                sequence.last(),
                escape::params_of(sequence.subrange(2, sequence.len() - 1)),
            )
        }
    }

    /// The terminal after its size has changed.
    pub open spec fn resized(self, cols: u16, rows: u16) -> Terminal {
        let sized = Terminal { cols: max(cols as int, 1) as u16, rows: max(rows as int, 1) as u16, ..self };
        sized.moved(sized.row(), sized.col())
    }

    /// What the terminal answers to a query.
    pub open spec fn reply(self, query: TerminalQuery) -> Seq<u8> {
        let position = text::decimal(self.row() as nat) + seq![0x3bu8] + text::decimal(
            self.col() as nat,
        ) + seq![0x52u8];
        match query {
            TerminalQuery::Status => seq![0x1bu8, 0x5b, 0x30, 0x6e],
            TerminalQuery::CursorPosition => seq![0x1bu8, 0x5b] + position,
            TerminalQuery::DecCursorPosition => seq![0x1bu8, 0x5b, 0x3f] + position,
        }
    }
}

/// The rows and columns of the terminal, at least one each.
pub fn terminal_size(terminal: &Terminal) -> (r: (u64, u64))
    ensures
        r.0 == terminal.height(),
        r.1 == terminal.width(),
{
    let rows: u64 = if terminal.rows < 1 {
        1
    } else {
        terminal.rows as u64
    };
    let cols: u64 = if terminal.cols < 1 {
        1
    } else {
        terminal.cols as u64
    };
    (rows, cols)
}

fn clamp_u64(value: u64, low: u64, high: u64) -> (r: u64)
    requires
        low <= high,
    ensures
        r == clamp(value as int, low as int, high as int),
{
    if value < low {
        low
    } else if value > high {
        high
    } else {
        value
    }
}

fn min_u64(a: u64, b: u64) -> (r: u64)
    ensures
        r == min(a as int, b as int),
{
    if a < b {
        a
    } else {
        b
    }
}

fn max_u64(a: u64, b: u64) -> (r: u64)
    ensures
        r == max(a as int, b as int),
{
    if a < b {
        b
    } else {
        a
    }
}

/// The row and column of the cursor, kept on the screen.
pub fn cursor_position(terminal: &Terminal) -> (r: (u64, u64))
    ensures
        r.0 == terminal.row(),
        r.1 == terminal.col(),
{
    let (rows, cols): (u64, u64) = terminal_size(terminal);
    (
        clamp_u64(terminal.cursor_row as u64, 1, rows),
        clamp_u64(terminal.cursor_col as u64, 1, cols),
    )
}

/// Moves the cursor to the place on the screen nearest to `row`, `col`.
pub fn set_cursor_position(terminal: &mut Terminal, row: u64, col: u64)
    ensures
        *final(terminal) == old(terminal).moved(row as int, col as int),
{
    let (rows, cols): (u64, u64) = terminal_size(terminal);
    terminal.cursor_row = clamp_u64(row, 1, rows) as u16;
    terminal.cursor_col = clamp_u64(col, 1, cols) as u16;
}

/// Follows the cursor over one byte of plain output.
pub fn update_cursor_from_byte(terminal: &mut Terminal, byte: u8)
    ensures
        *final(terminal) == old(terminal).after_byte(byte),
{
    let (rows, cols): (u64, u64) = terminal_size(terminal);
    let (row, col): (u64, u64) = cursor_position(terminal);
    let mut new_row: u64 = row;
    let mut new_col: u64 = col;
    if byte == 0x0d {
        new_col = 1;
    } else if byte == 0x0a {
        new_row = min_u64(row + 1, rows);
    } else if byte == 0x08 {
        new_col = max_u64(col.saturating_sub(1), 1);
    } else if byte == 0x09 {
        new_col = min_u64((col + 7) / 8 * 8 + 1, cols);
    } else if (0x20 <= byte && byte <= 0x7e) || 0x80 <= byte {
        if col >= cols {
            new_col = 1;
            new_row = min_u64(row + 1, rows);
        } else {
            new_col = col + 1;
        }
    }
    set_cursor_position(terminal, new_row, new_col);
}

/// Follows the cursor over an escape sequence. A move that leaves the screen stops at its edge,
/// however large its number is.
pub fn update_cursor_from_escape(terminal: &mut Terminal, sequence: &[u8])
    ensures
        *final(terminal) == old(terminal).after_escape(sequence@),
{
    if sequence.len() < 3 || sequence[0] != escape::ESC || sequence[1] != 0x5b {
        return;
    }
    let last: u8 = sequence[sequence.len() - 1];
    let params: Vec<Option<u64>> = csi_params(slice_subrange(sequence, 2, sequence.len() - 1));
    let first: u64 = csi_param(params.as_slice(), 0, 1);
    let second: u64 = csi_param(params.as_slice(), 1, 1);
    let (rows, cols): (u64, u64) = terminal_size(terminal);
    let (row, col): (u64, u64) = cursor_position(terminal);
    if last == 0x41 {
        set_cursor_position(terminal, max_u64(row.saturating_sub(first), 1), col);
    } else if last == 0x42 {
        set_cursor_position(terminal, min_u64(row.saturating_add(first), rows), col);
    } else if last == 0x43 {
        set_cursor_position(terminal, row, min_u64(col.saturating_add(first), cols));
    } else if last == 0x44 {
        set_cursor_position(terminal, row, max_u64(col.saturating_sub(first), 1));
    } else if last == 0x47 {
        set_cursor_position(terminal, row, clamp_u64(first, 1, cols));
    } else if last == 0x64 {
        set_cursor_position(terminal, clamp_u64(first, 1, rows), col);
    } else if last == 0x48 || last == 0x66 {
        set_cursor_position(terminal, clamp_u64(first, 1, rows), clamp_u64(second, 1, cols));
    }
}

/// Gives the terminal a new size and keeps the cursor on the screen.
pub fn resize_terminal(terminal: &mut Terminal, cols: u16, rows: u16)
    ensures
        *final(terminal) == old(terminal).resized(cols, rows),
{
    terminal.cols = if cols < 1 {
        1
    } else {
        cols
    };
    terminal.rows = if rows < 1 {
        1
    } else {
        rows
    };
    let (row, col): (u64, u64) = cursor_position(terminal);
    set_cursor_position(terminal, row, col);
}

/// The bytes with which the terminal answers a query.
pub fn query_reply(terminal: &Terminal, query: TerminalQuery) -> (r: Vec<u8>)
    ensures
        r@ == terminal.reply(query),
{
    let mut response: Vec<u8> = Vec::new();
    response.push(0x1b);
    response.push(0x5b);
    match query {
        TerminalQuery::Status => {
            response.push(0x30);
            response.push(0x6e);
            assert(response@ =~= terminal.reply(query));
            return response;
        },
        TerminalQuery::CursorPosition => {},
        TerminalQuery::DecCursorPosition => {
            response.push(0x3f);
        },
    }
    let (row, col): (u64, u64) = cursor_position(terminal);
    let mut row_digits: Vec<u8> = decimal_digits(row);
    let mut col_digits: Vec<u8> = decimal_digits(col);
    response.append(&mut row_digits);
    response.push(0x3b);
    response.append(&mut col_digits);
    response.push(0x52);
    assert(response@ =~= terminal.reply(query));
    response
}

impl Terminal {
    /// Whether the screen has a place for the cursor, and the cursor stands on it.
    pub open spec fn on_screen(self) -> bool {
        1 <= self.cursor_row <= self.rows && 1 <= self.cursor_col <= self.cols
    }
}

/// Whatever is shown, and however the terminal is resized, the cursor stays on the screen.
pub proof fn law_cursor_stays_on_screen(
    terminal: Terminal,
    byte: u8,
    sequence: Seq<u8>,
    cols: u16,
    rows: u16,
)
    requires
        terminal.on_screen(),
    ensures
        terminal.after_byte(byte).on_screen(),
        terminal.after_escape(sequence).on_screen(),
        terminal.resized(cols, rows).on_screen(),
{
}

/// Output and escape sequences leave the size of the terminal alone.
pub proof fn law_output_keeps_size(terminal: Terminal, byte: u8, sequence: Seq<u8>)
    ensures
        terminal.after_byte(byte).rows == terminal.rows,
        terminal.after_byte(byte).cols == terminal.cols,
        terminal.after_escape(sequence).rows == terminal.rows,
        terminal.after_escape(sequence).cols == terminal.cols,
{
}

proof fn lemma_split_digits(s: Seq<u8>)
    requires
        text::all_digits(s),
    ensures
        text::split(s, 0x3bu8) == seq![s],
        escape::param_digits(s) == s,
    decreases s.len(),
{
    if s.len() == 0 {
        assert(s =~= Seq::empty());
        assert(text::split(s, 0x3bu8) =~= seq![s]);
        assert(escape::param_digits(s) =~= s);
    } else {
        assert(text::is_digit(s[s.len() - 1]));
        lemma_split_digits(s.drop_last());
        assert(s.drop_last().push(s.last()) =~= s);
        assert(text::split(s, 0x3bu8) =~= seq![s]);
    }
}

proof fn lemma_split_two(a: Seq<u8>, b: Seq<u8>)
    requires
        text::all_digits(a),
        text::all_digits(b),
    ensures
        text::split(a + seq![0x3bu8] + b, 0x3bu8) == seq![a, b],
    decreases b.len(),
{
    let s = a + seq![0x3bu8] + b;
    if b.len() == 0 {
        lemma_split_digits(a);
        assert(s.drop_last() =~= a);
        assert(b =~= Seq::empty());
        assert(text::split(s, 0x3bu8) =~= seq![a, b]);
    } else {
        assert(text::is_digit(b[b.len() - 1]));
        lemma_split_two(a, b.drop_last());
        assert(s.drop_last() =~= a + seq![0x3bu8] + b.drop_last());
        assert(b.drop_last().push(b.last()) =~= b);
        assert(text::split(s, 0x3bu8) =~= seq![a, b]);
    }
}

/// The answer to a question for the cursor reads as a control sequence with two parameters,
/// the row and the column of the cursor.
pub proof fn law_reply_carries_cursor_position(terminal: Terminal)
    ensures
        ({
            let reply = terminal.reply(TerminalQuery::CursorPosition);
            escape::params_of(reply.subrange(2, reply.len() - 1)) == seq![
                Some(terminal.row() as u64),
                Some(terminal.col() as u64),
            ]
        }),
{
    let reply = terminal.reply(TerminalQuery::CursorPosition);
    let row = text::decimal(terminal.row() as nat);
    let col = text::decimal(terminal.col() as nat);
    text::lemma_decimal_value(terminal.row() as nat);
    text::lemma_decimal_value(terminal.col() as nat);
    text::law_decimal_round_trip(terminal.row() as u64);
    text::law_decimal_round_trip(terminal.col() as u64);
    assert(reply.subrange(2, reply.len() - 1) =~= row + seq![0x3bu8] + col);
    lemma_split_two(row, col);
    lemma_split_digits(row);
    lemma_split_digits(col);
    assert(escape::params_of(row + seq![0x3bu8] + col) =~= seq![
        Some(terminal.row() as u64),
        Some(terminal.col() as u64),
    ]);
}

proof fn lemma_after_control_sequence(terminal: Terminal, body: Seq<u8>, last: u8)
    ensures
        terminal.after_escape(seq![0x1bu8, 0x5b] + body + seq![last]) == terminal.after_csi(
            last,
            escape::params_of(body),
        ),
{
    let sequence = seq![0x1bu8, 0x5b] + body + seq![last];
    assert(sequence.subrange(2, sequence.len() - 1) =~= body);
}

/// The cursor moves by the number of its sequence: up (`A`), down (`B`), right (`C`) and left (`D`)
/// by that many places, or to the edge where there are fewer. To a column (`G`) or a row (`d`) it
/// goes directly. Nothing else of the terminal changes.
#[verifier::spinoff_prover]
#[verifier::rlimit(60)]
pub proof fn law_cursor_moves_by_the_number(terminal: Terminal, n: u64)
    requires
        terminal.on_screen(),
    ensures
        ({
            let go = |last: u8|
                terminal.after_escape(
                    seq![0x1bu8, 0x5b] + text::decimal(n as nat) + seq![last],
                );
            let (row, col) = (terminal.cursor_row as int, terminal.cursor_col as int);
            let (rows, cols) = (terminal.rows as int, terminal.cols as int);
            &&& n < row ==> go(0x41) == (Terminal { cursor_row: (row - n) as u16, ..terminal })
            &&& n >= row ==> go(0x41) == (Terminal { cursor_row: 1, ..terminal })
            &&& row + n <= rows ==> go(0x42) == (Terminal {
                cursor_row: (row + n) as u16,
                ..terminal
            })
            &&& row + n > rows ==> go(0x42) == (Terminal { cursor_row: rows as u16, ..terminal })
            &&& col + n <= cols ==> go(0x43) == (Terminal {
                cursor_col: (col + n) as u16,
                ..terminal
            })
            &&& col + n > cols ==> go(0x43) == (Terminal { cursor_col: cols as u16, ..terminal })
            &&& n < col ==> go(0x44) == (Terminal { cursor_col: (col - n) as u16, ..terminal })
            &&& n >= col ==> go(0x44) == (Terminal { cursor_col: 1, ..terminal })
            &&& 1 <= n <= cols ==> go(0x47) == (Terminal { cursor_col: n as u16, ..terminal })
            &&& n == 0 ==> go(0x47) == (Terminal { cursor_col: 1, ..terminal })
            &&& n > cols ==> go(0x47) == (Terminal { cursor_col: cols as u16, ..terminal })
            &&& 1 <= n <= rows ==> go(0x64) == (Terminal { cursor_row: n as u16, ..terminal })
            &&& n == 0 ==> go(0x64) == (Terminal { cursor_row: 1, ..terminal })
            &&& n > rows ==> go(0x64) == (Terminal { cursor_row: rows as u16, ..terminal })
        }),
{
    let body = text::decimal(n as nat);
    escape::law_parameter_is_its_number(n as nat);
    lemma_after_control_sequence(terminal, body, 0x41);
    lemma_after_control_sequence(terminal, body, 0x42);
    lemma_after_control_sequence(terminal, body, 0x43);
    lemma_after_control_sequence(terminal, body, 0x44);
    lemma_after_control_sequence(terminal, body, 0x47);
    lemma_after_control_sequence(terminal, body, 0x64);
    assert(escape::params_of(body)[0] == Some(n));
}

/// `ESC [ n ; m H`, or `f` in place of `H`, puts the cursor into row `n` and column `m`, or to the
/// nearest place on the screen.
pub proof fn law_cursor_goes_to_its_place(terminal: Terminal, n: u64, m: u64)
    requires
        terminal.on_screen(),
    ensures
        ({
            let body = text::decimal(n as nat) + seq![0x3bu8] + text::decimal(m as nat);
            let to = |last: u8|
                terminal.after_escape(seq![0x1bu8, 0x5b] + body + seq![last]);
            let (rows, cols) = (terminal.rows as int, terminal.cols as int);
            &&& to(0x48) == to(0x66)
            &&& to(0x48).rows == rows && to(0x48).cols == cols
            &&& 1 <= n <= rows ==> to(0x48).cursor_row == n
            &&& n == 0 ==> to(0x48).cursor_row == 1
            &&& n > rows ==> to(0x48).cursor_row == rows
            &&& 1 <= m <= cols ==> to(0x48).cursor_col == m
            &&& m == 0 ==> to(0x48).cursor_col == 1
            &&& m > cols ==> to(0x48).cursor_col == cols
        }),
{
    let row = text::decimal(n as nat);
    let body = row + seq![0x3bu8] + text::decimal(m as nat);
    lemma_no_semicolon(n as nat);
    escape::law_parameter_is_its_number(n as nat);
    escape::law_parameter_is_its_number(m as nat);
    escape::law_semicolon_parts_parameters(row, text::decimal(m as nat));
    lemma_after_control_sequence(terminal, body, 0x48);
    lemma_after_control_sequence(terminal, body, 0x66);
    assert(escape::params_of(body)[0] == Some(n));
    assert(escape::params_of(body)[1] == Some(m));
}

proof fn lemma_no_semicolon(n: nat)
    ensures
        !text::decimal(n).contains(0x3b),
{
    text::lemma_decimal_value(n);
    assert forall|i: int| 0 <= i < text::decimal(n).len() implies text::decimal(n)[i] != 0x3b by {
        assert(text::is_digit(text::decimal(n)[i]));
    }
}

/// A number that is left out, or too large to be read, counts as 1, the column of a place too.
/// Numbers behind those that a sequence has a use for do not count.
#[verifier::spinoff_prover]
#[verifier::rlimit(60)]
pub proof fn law_missing_number_counts_as_one(
    terminal: Terminal,
    last: u8,
    n: u64,
    m: u64,
    large: nat,
    rest: Seq<u8>,
)
    requires
        large > 0xffff_ffff_ffff_ffff,
    ensures
        ({
            let after = |body: Seq<u8>|
                terminal.after_escape(seq![0x1bu8, 0x5b] + body + seq![last]);
            let one = text::decimal(n as nat);
            let two = one + seq![0x3bu8] + text::decimal(m as nat);
            &&& after(Seq::empty()) == after(seq![0x31u8])
            &&& after(text::decimal(large)) == after(seq![0x31u8])
            &&& after(one) == after(one + seq![0x3bu8, 0x31])
            &&& after(seq![0x3bu8] + text::decimal(m as nat)) == after(
                seq![0x31u8, 0x3b] + text::decimal(m as nat),
            )
            &&& after(two + seq![0x3bu8] + rest) == after(two)
            &&& last != 0x48 && last != 0x66 ==> after(two) == after(one)
        }),
{
    let none = Seq::<u8>::empty();
    let semicolon = seq![0x3bu8];
    let one = text::decimal(n as nat);
    let right = text::decimal(m as nat);
    let two = one + semicolon + right;
    let first = seq![0x31u8];
    assert(text::decimal(1) =~= first);
    lemma_no_semicolon(1);
    lemma_no_semicolon(n as nat);
    lemma_no_semicolon(m as nat);
    escape::law_parameter_is_its_number(1);
    escape::law_parameter_is_its_number(n as nat);
    escape::law_parameter_is_its_number(m as nat);
    escape::law_parameter_is_its_number(large);
    escape::law_semicolon_parts_parameters(one, first);
    escape::law_semicolon_parts_parameters(one, right);
    escape::law_semicolon_parts_parameters(none, right);
    escape::law_semicolon_parts_parameters(first, right);
    escape::law_semicolon_parts_parameters(right, rest);
    escape::law_semicolon_parts_parameters(one, right + semicolon + rest);
    assert(one + seq![0x3bu8, 0x31] =~= one + semicolon + first);
    assert(none + semicolon + right =~= semicolon + right);
    assert(first + semicolon + right =~= seq![0x31u8, 0x3b] + right);
    assert(two + semicolon + rest =~= one + semicolon + (right + semicolon + rest));
    lemma_after_control_sequence(terminal, none, last);
    lemma_after_control_sequence(terminal, first, last);
    lemma_after_control_sequence(terminal, text::decimal(large), last);
    lemma_after_control_sequence(terminal, one, last);
    lemma_after_control_sequence(terminal, one + seq![0x3bu8, 0x31], last);
    lemma_after_control_sequence(terminal, semicolon + right, last);
    lemma_after_control_sequence(terminal, seq![0x31u8, 0x3b] + right, last);
    lemma_after_control_sequence(terminal, two + semicolon + rest, last);
    lemma_after_control_sequence(terminal, two, last);
}

/// Only the parameters of a control sequence count, however they are written. A sequence that does
/// not move the cursor changes nothing, and neither does one that is no control sequence.
pub proof fn law_other_sequences_change_nothing(
    terminal: Terminal,
    sequence: Seq<u8>,
    a: Seq<u8>,
    b: Seq<u8>,
    last: u8,
)
    ensures
        escape::params_of(a) == escape::params_of(b) ==> terminal.after_escape(
            seq![0x1bu8, 0x5b] + a + seq![last],
        ) == terminal.after_escape(seq![0x1bu8, 0x5b] + b + seq![last]),
        last < 0x41 || (0x44 < last < 0x47) || (0x48 < last < 0x64) || last == 0x65 || last > 0x66
            ==> terminal.after_escape(seq![0x1bu8, 0x5b] + a + seq![last]) == terminal,
        sequence.len() < 3 || sequence[0] != 0x1b || sequence[1] != 0x5b ==> terminal.after_escape(
            sequence,
        ) == terminal,
{
    lemma_after_control_sequence(terminal, a, last);
    lemma_after_control_sequence(terminal, b, last);
}

/// Going down and up again by the same number, or right and left, leads back, unless the edge of
/// the screen was in the way.
#[verifier::spinoff_prover]
#[verifier::rlimit(60)]
pub proof fn law_moves_lead_back(terminal: Terminal, n: u64)
    requires
        terminal.on_screen(),
    ensures
        ({
            let go = |t: Terminal, last: u8|
                t.after_escape(seq![0x1bu8, 0x5b] + text::decimal(n as nat) + seq![last]);
            &&& terminal.cursor_row + n <= terminal.rows ==> go(go(terminal, 0x42), 0x41)
                == terminal
            &&& terminal.cursor_row > n ==> go(go(terminal, 0x41), 0x42) == terminal
            &&& terminal.cursor_col + n <= terminal.cols ==> go(go(terminal, 0x43), 0x44)
                == terminal
            &&& terminal.cursor_col > n ==> go(go(terminal, 0x44), 0x43) == terminal
        }),
{
    let digits = text::decimal(n as nat);
    law_cursor_moves_by_the_number(terminal, n);
    law_cursor_moves_by_the_number(
        terminal.after_escape(seq![0x1bu8, 0x5b] + digits + seq![0x41u8]),
        n,
    );
    law_cursor_moves_by_the_number(
        terminal.after_escape(seq![0x1bu8, 0x5b] + digits + seq![0x42u8]),
        n,
    );
    law_cursor_moves_by_the_number(
        terminal.after_escape(seq![0x1bu8, 0x5b] + digits + seq![0x43u8]),
        n,
    );
    law_cursor_moves_by_the_number(
        terminal.after_escape(seq![0x1bu8, 0x5b] + digits + seq![0x44u8]),
        n,
    );
}

/// A byte that is shown moves the cursor one place to the right, and from the last column to the
/// first one of the next row. A line feed goes one row down, and stays in the last row. A carriage
/// return goes to the first column, a backspace one place to the left. Other control bytes do
/// nothing.
pub proof fn law_bytes_move_the_cursor(terminal: Terminal, byte: u8)
    requires
        terminal.on_screen(),
    ensures
        ({
            let after = terminal.after_byte(byte);
            let (row, col) = (terminal.cursor_row as int, terminal.cursor_col as int);
            let (rows, cols) = (terminal.rows as int, terminal.cols as int);
            let below: int = if row == rows {
                rows
            } else {
                row + 1
            };
            &&& after.rows == rows && after.cols == cols
            &&& 0x20 <= byte && byte != 0x7f && col < cols ==> after.cursor_row == row
                && after.cursor_col == col + 1
            &&& 0x20 <= byte && byte != 0x7f && col == cols ==> after.cursor_row == below
                && after.cursor_col == 1
            &&& byte == 0x0a ==> after.cursor_row == below && after.cursor_col == col
            &&& byte == 0x0d ==> after.cursor_row == row && after.cursor_col == 1
            &&& byte == 0x08 && col > 1 ==> after.cursor_row == row && after.cursor_col == col - 1
            &&& byte == 0x08 && col == 1 ==> after == terminal
            &&& byte == 0x7f ==> after == terminal
            &&& byte < 0x20 && byte != 0x0a && byte != 0x0d && byte != 0x08 && byte != 0x09
                ==> after == terminal
        }),
{
}

/// A tab goes to the next tab stop, of which there is one in every eighth column from the first
/// one, or to the last column where there is no further stop.
pub proof fn law_tab_goes_to_the_next_stop(terminal: Terminal, stop: int)
    requires
        terminal.on_screen(),
        stop % 8 == 1,
        terminal.cursor_col < stop <= terminal.cursor_col + 8,
    ensures
        terminal.after_byte(0x09) == (Terminal {
            cursor_col: if stop <= terminal.cols {
                stop as u16
            } else {
                terminal.cols
            },
            ..terminal
        }),
{
    let col = terminal.cursor_col as int;
    assert((col + 7) / 8 * 8 + 1 == stop) by {
        assert((stop - 1) % 8 == 0);
        assert(col + 7 >= stop - 1 && col + 7 < stop + 7);
    }
}

/// A terminal takes the size that it is given, of at least one row and one column, and its cursor
/// stays where it is, or goes to the nearest place that is left.
pub proof fn law_resized_terminal_keeps_its_cursor(terminal: Terminal, cols: u16, rows: u16)
    requires
        terminal.on_screen(),
    ensures
        ({
            let after = terminal.resized(cols, rows);
            &&& rows > 0 ==> after.rows == rows
            &&& cols > 0 ==> after.cols == cols
            &&& rows == 0 ==> after.rows == 1
            &&& cols == 0 ==> after.cols == 1
            &&& terminal.cursor_row <= after.rows ==> after.cursor_row == terminal.cursor_row
            &&& terminal.cursor_row > after.rows ==> after.cursor_row == after.rows
            &&& terminal.cursor_col <= after.cols ==> after.cursor_col == terminal.cursor_col
            &&& terminal.cursor_col > after.cols ==> after.cursor_col == after.cols
        }),
{
}

/// The status of a terminal is always the same answer; the cursor is answered with its row and its
/// column in decimal digits.
pub proof fn law_replies(terminal: Terminal)
    requires
        terminal.on_screen(),
    ensures
        ({
            let place = text::decimal(terminal.cursor_row as nat) + seq![0x3bu8] + text::decimal(
                terminal.cursor_col as nat,
            ) + seq![0x52u8];
            &&& terminal.reply(TerminalQuery::Status) == seq![0x1bu8, 0x5b, 0x30, 0x6e]
            &&& terminal.reply(TerminalQuery::CursorPosition) == seq![0x1bu8, 0x5b] + place
            &&& terminal.reply(TerminalQuery::DecCursorPosition) == seq![0x1bu8, 0x5b, 0x3f]
                + place
        }),
{
}

/// A cursor that is off the screen counts as being at the nearest place on it, and a terminal
/// without rows or columns as having one.
pub proof fn law_cursor_off_screen_counts_as_nearest(
    terminal: Terminal,
    byte: u8,
    sequence: Seq<u8>,
    row: int,
    col: int,
)
    ensures
        terminal.height() == (if terminal.rows == 0 {
            1int
        } else {
            terminal.rows as int
        }),
        terminal.width() == (if terminal.cols == 0 {
            1int
        } else {
            terminal.cols as int
        }),
        1 <= terminal.cursor_row <= terminal.height() ==> terminal.row() == terminal.cursor_row,
        terminal.cursor_row == 0 ==> terminal.row() == 1,
        terminal.cursor_row > terminal.height() ==> terminal.row() == terminal.height(),
        1 <= terminal.cursor_col <= terminal.width() ==> terminal.col() == terminal.cursor_col,
        terminal.cursor_col == 0 ==> terminal.col() == 1,
        terminal.cursor_col > terminal.width() ==> terminal.col() == terminal.width(),
        terminal.moved(row, col).rows == terminal.rows,
        terminal.moved(row, col).cols == terminal.cols,
        1 <= row <= terminal.height() ==> terminal.moved(row, col).cursor_row == row,
        row < 1 ==> terminal.moved(row, col).cursor_row == 1,
        row > terminal.height() ==> terminal.moved(row, col).cursor_row == terminal.height(),
        1 <= col <= terminal.width() ==> terminal.moved(row, col).cursor_col == col,
        col < 1 ==> terminal.moved(row, col).cursor_col == 1,
        col > terminal.width() ==> terminal.moved(row, col).cursor_col == terminal.width(),
        ({
            let nearest = Terminal {
                cursor_row: terminal.row() as u16,
                cursor_col: terminal.col() as u16,
                ..terminal
            };
            let sized = Terminal {
                rows: terminal.height() as u16,
                cols: terminal.width() as u16,
                ..terminal
            };
            &&& terminal.after_byte(byte) == nearest.after_byte(byte)
            &&& forall|query: TerminalQuery| #[trigger]
                terminal.reply(query) == nearest.reply(query)
            &&& terminal.after_escape(sequence) == nearest.after_escape(sequence)
                || terminal.after_escape(sequence) == terminal
            &&& sized.after_byte(byte).cursor_row == terminal.after_byte(byte).cursor_row
            &&& sized.after_byte(byte).cursor_col == terminal.after_byte(byte).cursor_col
            &&& sized.after_escape(sequence).cursor_row == terminal.after_escape(
                sequence,
            ).cursor_row
            &&& sized.after_escape(sequence).cursor_col == terminal.after_escape(
                sequence,
            ).cursor_col
        }),
{
}

} // verus!
