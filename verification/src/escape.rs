//! Escape sequences of a terminal: where they end, which of them ask the terminal something,
//! and the numbers that they carry.

use vstd::prelude::*;
use crate::text;

verus! {

pub const ESC: u8 = 0x1b;

/// `ESC [ ? 6 n`
pub const DEC_CURSOR_POSITION_QUERY: [u8; 5] = [0x1b, 0x5b, 0x3f, 0x36, 0x6e];

/// `ESC [ 6 n`
pub const CURSOR_POSITION_QUERY: [u8; 4] = [0x1b, 0x5b, 0x36, 0x6e];

/// `ESC [ 5 n`
pub const STATUS_QUERY: [u8; 4] = [0x1b, 0x5b, 0x35, 0x6e];

/// What a program may ask its terminal.
#[derive(Clone, Copy, Debug, PartialEq, Eq, Structural)]
pub enum TerminalQuery {
    Status,
    CursorPosition,
    DecCursorPosition,
}

/// A length as a mathematical number.
pub open spec fn length(r: Option<usize>) -> Option<int> {
    match r {
        Some(n) => Some(n as int),
        None => None,
    }
}

/// Whether `s` begins with the bytes of `prefix`.
pub fn bytes_start_with(s: &[u8], prefix: &[u8]) -> (r: bool)
    ensures
        r == prefix@.is_prefix_of(s@),
{
    if s.len() < prefix.len() {
        return false;
    }
    let mut i: usize = 0;
    while i < prefix.len()
        invariant
            i <= prefix@.len() <= s@.len(),
            forall|j: int| 0 <= j < i ==> s@[j] == prefix@[j],
        decreases prefix@.len() - i,
    {
        if s[i] != prefix[i] {
            return false;
        }
        i = i + 1;
    }
    true
}

/// The query that `s` begins with, and its length.
pub open spec fn query_at(s: Seq<u8>) -> Option<(TerminalQuery, int)> {
    if DEC_CURSOR_POSITION_QUERY@.is_prefix_of(s) {
        Some((TerminalQuery::DecCursorPosition, 5))
    } else if CURSOR_POSITION_QUERY@.is_prefix_of(s) {
        Some((TerminalQuery::CursorPosition, 4))
    } else if STATUS_QUERY@.is_prefix_of(s) {
        Some((TerminalQuery::Status, 4))
    } else {
        None
    }
}

/// Finds a terminal query at the beginning of `input`.
pub fn terminal_query_at(input: &[u8]) -> (r: Option<(TerminalQuery, usize)>)
    ensures
        match r {
            Some((query, n)) => query_at(input@) == Some((query, n as int)),
            None => query_at(input@) is None,
        },
{
    if bytes_start_with(input, &DEC_CURSOR_POSITION_QUERY) {
        Some((TerminalQuery::DecCursorPosition, 5))
    } else if bytes_start_with(input, &CURSOR_POSITION_QUERY) {
        Some((TerminalQuery::CursorPosition, 4))
    } else if bytes_start_with(input, &STATUS_QUERY) {
        Some((TerminalQuery::Status, 4))
    } else {
        None
    }
}

/// Where a control sequence ends: behind the first final byte at or after `i`.
pub open spec fn csi_end(s: Seq<u8>, i: int) -> Option<int>
    decreases s.len() - i,
{
    if i >= s.len() {
        None
    } else if 0x40 <= s[i] <= 0x7e {
        Some(i + 1)
    } else {
        csi_end(s, i + 1)
    }
}

/// Where an operating system command ends: behind the first `BEL` or `ESC \` at or after `i`.
pub open spec fn osc_end(s: Seq<u8>, i: int) -> Option<int>
    decreases s.len() - i,
{
    if i >= s.len() {
        None
    } else if s[i] == 0x07 {
        Some(i + 1)
    } else if s[i] == ESC && i + 1 < s.len() && s[i + 1] == 0x5c {
        Some(i + 2)
    } else {
        osc_end(s, i + 1)
    }
}

/// The length of the escape sequence that `s` begins with.
pub open spec fn escape_len(s: Seq<u8>) -> Option<int> {
    if s.len() < 2 || s[0] != ESC {
        None
    } else if s[1] == 0x5b {
        csi_end(s, 2)
    } else if s[1] == 0x5d {
        osc_end(s, 2)
    } else if s[1] == 0x4f && s.len() >= 3 {
        Some(3)
    } else {
        Some(2)
    }
}

/// The length of the escape sequence at the beginning of `input`. `None` where there is none,
/// or where it does not end in `input`.
pub fn ansi_escape_len(input: &[u8]) -> (r: Option<usize>)
    ensures
        length(r) == escape_len(input@),
        r matches Some(n) ==> 2 <= n <= input@.len(),
{
    if input.len() < 2 || input[0] != ESC {
        return None;
    }
    if input[1] == 0x5b {
        let mut i: usize = 2;
        while i < input.len()
            invariant
                2 <= i <= input@.len(),
                escape_len(input@) == csi_end(input@, i as int),
            decreases input@.len() - i,
        {
            if 0x40 <= input[i] && input[i] <= 0x7e {
                return Some(i + 1);
            }
            i = i + 1;
        }
        None
    } else if input[1] == 0x5d {
        let mut i: usize = 2;
        while i < input.len()
            invariant
                2 <= i <= input@.len(),
                escape_len(input@) == osc_end(input@, i as int),
            decreases input@.len() - i,
        {
            if input[i] == 0x07 {
                return Some(i + 1);
            }
            if input[i] == ESC && i + 1 < input.len() && input[i + 1] == 0x5c {
                return Some(i + 2);
            }
            i = i + 1;
        }
        None
    } else if input[1] == 0x4f && input.len() >= 3 {
        Some(3)
    } else {
        Some(2)
    }
}

/// Whether `s` is the beginning of an escape sequence that goes on behind its end.
pub open spec fn incomplete_escape(s: Seq<u8>) -> bool {
    s.len() > 0 && s[0] == ESC && (s.len() == 1 || ((s[1] == 0x5b || s[1] == 0x5d) && escape_len(s)
        is None) || (s[1] == 0x4f && s.len() < 3))
}

/// Whether `input` begins with an escape sequence and ends inside it.
pub fn starts_incomplete_escape(input: &[u8]) -> (r: bool)
    ensures
        r == incomplete_escape(input@),
{
    if input.len() == 0 || input[0] != ESC {
        return false;
    }
    if input.len() == 1 {
        return true;
    }
    if input[1] == 0x5b || input[1] == 0x5d {
        ansi_escape_len(input).is_none()
    } else if input[1] == 0x4f {
        input.len() < 3
    } else {
        false
    }
}

/// Whether a byte of a parameter list is passed over without a meaning of its own.
pub open spec fn is_ignored_in_params(b: u8) -> bool {
    b == 0x3f || b == 0x3e || b == 0x3d || b == 0x20
}

/// The digits of one parameter: those behind the last byte that is neither a digit nor ignored.
pub open spec fn param_digits(s: Seq<u8>) -> Seq<u8>
    decreases s.len(),
{
    if s.len() == 0 {
        Seq::empty()
    } else if text::is_digit(s.last()) {
        param_digits(s.drop_last()).push(s.last())
    } else if is_ignored_in_params(s.last()) {
        param_digits(s.drop_last())
    } else {
        Seq::empty()
    }
}

/// The parameters of a control sequence: the numbers between the semicolons.
pub open spec fn params_of(s: Seq<u8>) -> Seq<Option<u64>> {
    text::split(s, 0x3bu8).map_values(|piece: Seq<u8>| text::parse_decimal(param_digits(piece)))
}

/// Reads the parameters of a control sequence, a missing or too large one as `None`.
pub fn csi_params(input: &[u8]) -> (r: Vec<Option<u64>>)
    ensures
        r@ == params_of(input@),
{
    let mut params: Vec<Option<u64>> = Vec::new();
    let mut current: Vec<u8> = Vec::new();
    let mut i: usize = 0;
    assert(input@.take(0) =~= Seq::<u8>::empty());
    while i < input.len()
        invariant
            i <= input@.len(),
            text::split(input@.take(i as int), 0x3bu8).len() == params@.len() + 1,
            params@ == params_of(input@.take(i as int)).drop_last(),
            current@ == param_digits(text::split(input@.take(i as int), 0x3bu8).last()),
        decreases input@.len() - i,
    {
        let byte: u8 = input[i];
        let ghost before = input@.take(i as int);
        let ghost after = input@.take(i + 1);
        assert(after.drop_last() =~= before);
        assert(after.last() == byte);
        let ghost piece = text::split(before, 0x3bu8).last();
        assert(byte != 0x3b ==> text::split(after, 0x3bu8).last() == piece.push(byte));
        assert(piece.push(byte).drop_last() =~= piece);
        if 0x30 <= byte && byte <= 0x39 {
            current.push(byte);
        } else if byte == 0x3b {
            params.push(parse_csi_param(current.as_slice()));
            current.clear();
        } else if byte == 0x3f || byte == 0x3e || byte == 0x3d || byte == 0x20 {
        } else {
            current.clear();
        }
        assert(params@ =~= params_of(after).drop_last());
        i = i + 1;
    }
    assert(input@.take(i as int) =~= input@);
    params.push(parse_csi_param(current.as_slice()));
    assert(params@ =~= params_of(input@));
    params
}

/// Reads one parameter. `None` where it is empty, no number or too large.
pub fn parse_csi_param(input: &[u8]) -> (r: Option<u64>)
    ensures
        r == text::parse_decimal(input@),
{
    if input.len() == 0 {
        None
    } else {
        text::parse_u64(input)
    }
}

/// The parameter at `index`, or the default where it is missing.
pub open spec fn param_or(params: Seq<Option<u64>>, index: int, default: u64) -> u64 {
    if 0 <= index < params.len() && params[index] is Some {
        params[index]->0
    } else {
        default
    }
}

/// The parameter at `index`, or `default` where there is none.
pub fn csi_param(params: &[Option<u64>], index: usize, default: u64) -> (r: u64)
    ensures
        r == param_or(params@, index as int, default),
{
    if index < params.len() {
        match params[index] {
            Some(value) => value,
            None => default,
        }
    } else {
        default
    }
}

proof fn lemma_csi_end_stable(s: Seq<u8>, rest: Seq<u8>, i: int)
    requires
        0 <= i,
    ensures
        csi_end(s, i) matches Some(n) ==> i < n <= s.len() && csi_end(s + rest, i) == Some(n)
            && csi_end(s.take(n), i) == Some(n),
    decreases s.len() - i,
{
    if i < s.len() && !(0x40 <= s[i] <= 0x7e) {
        lemma_csi_end_stable(s, rest, i + 1);
    }
}

proof fn lemma_osc_end_stable(s: Seq<u8>, rest: Seq<u8>, i: int)
    requires
        0 <= i,
    ensures
        osc_end(s, i) matches Some(n) ==> i < n <= s.len() && osc_end(s + rest, i) == Some(n)
            && osc_end(s.take(n), i) == Some(n),
    decreases s.len() - i,
{
    if i < s.len() && s[i] != 0x07 && !(s[i] == ESC && i + 1 < s.len() && s[i + 1] == 0x5c) {
        lemma_osc_end_stable(s, rest, i + 1);
    }
}

/// An escape sequence lies within the bytes in which it was found, has at least two bytes, and
/// is found again with the same length when its own bytes stand alone.
pub proof fn law_escape_len_bounds(s: Seq<u8>)
    ensures
        escape_len(s) matches Some(n) ==> 2 <= n <= s.len() && escape_len(s.take(n)) == Some(n),
{
    lemma_csi_end_stable(s, Seq::empty(), 2);
    lemma_osc_end_stable(s, Seq::empty(), 2);
}

/// What follows a complete escape sequence does not change where it ends.
pub proof fn law_escape_len_stable(s: Seq<u8>, rest: Seq<u8>)
    requires
        !incomplete_escape(s),
    ensures
        s.len() > 0 ==> escape_len(s + rest) == escape_len(s),
        s.len() > 0 ==> !incomplete_escape(s + rest),
{
    lemma_csi_end_stable(s, rest, 2);
    lemma_osc_end_stable(s, rest, 2);
}

proof fn lemma_prefix(prefix: Seq<u8>, s: Seq<u8>)
    ensures
        prefix.is_prefix_of(s) <==> (prefix.len() <= s.len() && forall|i: int|
            0 <= i < prefix.len() ==> prefix[i] == s[i]),
{
    if prefix.is_prefix_of(s) {
        assert forall|i: int| 0 <= i < prefix.len() implies prefix[i] == s[i] by {
            assert(s.subrange(0, prefix.len() as int)[i] == s[i]);
        }
    }
}

/// There are three queries, and nothing else is one: `ESC [ 5 n` asks for the status, `ESC [ 6 n`
/// and `ESC [ ? 6 n` for the cursor.
pub proof fn law_nothing_else_is_a_query(s: Seq<u8>)
    ensures
        query_at(s) == Some((TerminalQuery::Status, 4int)) <==> (s.len() >= 4 && s[0] == 0x1b && s[1]
            == 0x5b && s[2] == 0x35 && s[3] == 0x6e),
        query_at(s) == Some((TerminalQuery::CursorPosition, 4int)) <==> (s.len() >= 4 && s[0]
            == 0x1b && s[1] == 0x5b && s[2] == 0x36 && s[3] == 0x6e),
        query_at(s) == Some((TerminalQuery::DecCursorPosition, 5int)) <==> (s.len() >= 5 && s[0]
            == 0x1b && s[1] == 0x5b && s[2] == 0x3f && s[3] == 0x36 && s[4] == 0x6e),
        query_at(s) matches Some((query, n)) ==> n == (if query
            == TerminalQuery::DecCursorPosition {
            5int
        } else {
            4int
        }),
{
    lemma_prefix(DEC_CURSOR_POSITION_QUERY@, s);
    lemma_prefix(CURSOR_POSITION_QUERY@, s);
    lemma_prefix(STATUS_QUERY@, s);
    assert(DEC_CURSOR_POSITION_QUERY@[0] == 0x1b && DEC_CURSOR_POSITION_QUERY@[1] == 0x5b
        && DEC_CURSOR_POSITION_QUERY@[2] == 0x3f && DEC_CURSOR_POSITION_QUERY@[3] == 0x36
        && DEC_CURSOR_POSITION_QUERY@[4] == 0x6e);
    assert(CURSOR_POSITION_QUERY@[0] == 0x1b && CURSOR_POSITION_QUERY@[1] == 0x5b
        && CURSOR_POSITION_QUERY@[2] == 0x36 && CURSOR_POSITION_QUERY@[3] == 0x6e);
    assert(STATUS_QUERY@[0] == 0x1b && STATUS_QUERY@[1] == 0x5b && STATUS_QUERY@[2] == 0x35
        && STATUS_QUERY@[3] == 0x6e);
}

proof fn lemma_csi_end_at(s: Seq<u8>, i: int, k: int)
    requires
        0 <= i <= k <= s.len(),
        forall|j: int| i <= j < k ==> !(0x40 <= #[trigger] s[j] <= 0x7e),
        k < s.len() ==> 0x40 <= s[k] <= 0x7e,
    ensures
        csi_end(s, i) == (if k < s.len() {
            Some(k + 1)
        } else {
            None
        }),
    decreases k - i,
{
    if i < k {
        assert(!(0x40 <= s[i] <= 0x7e));
        lemma_csi_end_at(s, i + 1, k);
    }
}

/// A control sequence, `ESC [`, goes up to its first byte from `@` to `~`, and that byte is part of
/// it. Without such a byte it has not ended.
pub proof fn law_control_sequence_ends_at_final_byte(s: Seq<u8>, k: int)
    requires
        s.len() >= 2,
        s[0] == 0x1b && s[1] == 0x5b,
        2 <= k <= s.len(),
        forall|j: int| 2 <= j < k ==> #[trigger] s[j] < 0x40 || s[j] > 0x7e,
        k < s.len() ==> 0x40 <= s[k] <= 0x7e,
    ensures
        escape_len(s) == (if k < s.len() {
            Some(k + 1)
        } else {
            None
        }),
        incomplete_escape(s) == (k == s.len()),
{
    lemma_csi_end_at(s, 2, k);
}

proof fn lemma_osc_end_at(s: Seq<u8>, i: int, k: int)
    requires
        0 <= i <= k <= s.len(),
        forall|j: int|
            i <= j < k ==> #[trigger] s[j] != 0x07 && !(s[j] == 0x1b && j + 1 < s.len() && s[j + 1]
                == 0x5c),
        k < s.len() ==> s[k] == 0x07 || (s[k] == 0x1b && k + 1 < s.len() && s[k + 1] == 0x5c),
    ensures
        osc_end(s, i) == (if k == s.len() {
            None
        } else if s[k] == 0x07 {
            Some(k + 1)
        } else {
            Some(k + 2)
        }),
    decreases k - i,
{
    if i < k {
        assert(s[i] != 0x07);
        lemma_osc_end_at(s, i + 1, k);
    }
}

/// An operating system command, `ESC ]`, goes up to its first `BEL` or `ESC \`, and that is part of
/// it. Without one it has not ended.
pub proof fn law_system_command_ends_at_terminator(s: Seq<u8>, k: int)
    requires
        s.len() >= 2,
        s[0] == 0x1b && s[1] == 0x5d,
        2 <= k <= s.len(),
        forall|j: int|
            2 <= j < k ==> #[trigger] s[j] != 0x07 && !(s[j] == 0x1b && j + 1 < s.len() && s[j + 1]
                == 0x5c),
        k < s.len() ==> s[k] == 0x07 || (s[k] == 0x1b && k + 1 < s.len() && s[k + 1] == 0x5c),
    ensures
        escape_len(s) == (if k == s.len() {
            None
        } else if s[k] == 0x07 {
            Some(k + 1)
        } else {
            Some(k + 2)
        }),
        incomplete_escape(s) == (k == s.len()),
{
    lemma_osc_end_at(s, 2, k);
}

/// `ESC O` takes one more byte, any other escape sequence has two bytes, and what does not begin
/// with an escape byte is none. An escape byte at the very end, alone or with `O`, waits for more.
pub proof fn law_short_escapes(s: Seq<u8>)
    ensures
        s.len() == 0 || s[0] != 0x1b ==> escape_len(s) is None && !incomplete_escape(s),
        s.len() == 1 && s[0] == 0x1b ==> escape_len(s) is None && incomplete_escape(s),
        s.len() == 2 && s[0] == 0x1b && s[1] == 0x4f ==> escape_len(s) == Some(2int)
            && incomplete_escape(s),
        s.len() >= 3 && s[0] == 0x1b && s[1] == 0x4f ==> escape_len(s) == Some(3int)
            && !incomplete_escape(s),
        s.len() >= 2 && s[0] == 0x1b && s[1] != 0x5b && s[1] != 0x5d && s[1] != 0x4f
            ==> escape_len(s) == Some(2int) && !incomplete_escape(s),
{
}

/// A semicolon parts two parameters: the one before it counts on its own, and so do those behind
/// it.
pub proof fn law_semicolon_parts_parameters(a: Seq<u8>, b: Seq<u8>)
    requires
        !a.contains(0x3b),
    ensures
        params_of(a).len() == 1,
        params_of(a + seq![0x3bu8] + b) == params_of(a) + params_of(b),
{
    text::law_split_at_first_separator(a, 0x3bu8, b);
    assert(params_of(a + seq![0x3bu8] + b) =~= params_of(a) + params_of(b));
}

proof fn lemma_param_digits(a: Seq<u8>, c: u8, b: Seq<u8>)
    requires
        !text::is_digit(c),
    ensures
        is_ignored_in_params(c) ==> param_digits(a + seq![c] + b) == param_digits(a + b),
        !is_ignored_in_params(c) ==> param_digits(a + seq![c] + b) == param_digits(b),
    decreases b.len(),
{
    let s = a + seq![c] + b;
    if b.len() == 0 {
        assert(s.drop_last() =~= a);
        assert(a + b =~= a);
    } else {
        let shorter = b.drop_last();
        lemma_param_digits(a, c, shorter);
        assert(s.drop_last() =~= a + seq![c] + shorter);
        assert((a + b).drop_last() =~= a + shorter);
        assert((a + b).last() == b.last());
    }
}

/// The marks `?`, `>`, `=` and blanks in a parameter do not count, wherever they stand. Any other
/// byte that is no digit makes what stands before it void.
pub proof fn law_marks_in_parameters_do_not_count(a: Seq<u8>, c: u8, b: Seq<u8>)
    requires
        !a.contains(0x3b),
        !b.contains(0x3b),
        c < 0x30 || c > 0x39,
        c != 0x3b,
    ensures
        c == 0x3f || c == 0x3e || c == 0x3d || c == 0x20 ==> params_of(a + seq![c] + b)
            == params_of(a + b),
        c != 0x3f && c != 0x3e && c != 0x3d && c != 0x20 ==> params_of(a + seq![c] + b)
            == params_of(b),
{
    let s = a + seq![c] + b;
    assert forall|i: int| 0 <= i < s.len() implies s[i] != 0x3b by {
        if i < a.len() {
            assert(a[i] == s[i]);
        } else if i > a.len() {
            assert(b[i - a.len() - 1] == s[i]);
        }
    }
    assert forall|i: int| 0 <= i < (a + b).len() implies (a + b)[i] != 0x3b by {
        if i < a.len() {
            assert(a[i] == (a + b)[i]);
        } else {
            assert(b[i - a.len()] == (a + b)[i]);
        }
    }
    text::law_split_at_first_separator(s, 0x3bu8, s);
    text::law_split_at_first_separator(a + b, 0x3bu8, s);
    text::law_split_at_first_separator(b, 0x3bu8, s);
    lemma_param_digits(a, c, b);
    assert(params_of(s) =~= seq![text::parse_decimal(param_digits(s))]);
    assert(params_of(a + b) =~= seq![text::parse_decimal(param_digits(a + b))]);
    assert(params_of(b) =~= seq![text::parse_decimal(param_digits(b))]);
}

proof fn lemma_param_digits_of_digits(s: Seq<u8>)
    requires
        text::all_digits(s),
    ensures
        param_digits(s) == s,
    decreases s.len(),
{
    if s.len() > 0 {
        assert(text::is_digit(s[s.len() - 1]));
        lemma_param_digits_of_digits(s.drop_last());
        assert(s.drop_last().push(s.last()) =~= s);
    } else {
        assert(param_digits(s) =~= s);
    }
}

/// A parameter that is written as a number is read as that number. One without digits, or with a
/// number that is too large, is missing.
pub proof fn law_parameter_is_its_number(n: nat)
    ensures
        params_of(text::decimal(n)) == seq![
            if n <= 0xffff_ffff_ffff_ffff {
                Some(n as u64)
            } else {
                None
            },
        ],
        params_of(Seq::empty()) == seq![None::<u64>],
{
    let digits = text::decimal(n);
    text::lemma_decimal_value(n);
    assert forall|i: int| 0 <= i < digits.len() implies digits[i] != 0x3b by {
        assert(text::is_digit(digits[i]));
    }
    text::law_split_at_first_separator(digits, 0x3bu8, digits);
    lemma_param_digits_of_digits(digits);
    if n <= 0xffff_ffff_ffff_ffff {
        text::law_decimal_round_trip(n as u64);
    } else {
        text::law_large_number_is_not_read(n);
    }
    assert(params_of(digits) =~= seq![text::parse_decimal(digits)]);
    let none = Seq::<u8>::empty();
    text::law_split_at_first_separator(none, 0x3bu8, none);
    assert(params_of(none) =~= seq![None::<u64>]);
}

/// A parameter that is there is used, and the default for one that is missing.
pub proof fn law_missing_parameter_has_default(
    before: Seq<Option<u64>>,
    value: u64,
    after: Seq<Option<u64>>,
    beyond: nat,
    default: u64,
)
    ensures
        param_or(before.push(Some(value)) + after, before.len() as int, default) == value,
        param_or(before.push(None) + after, before.len() as int, default) == default,
        param_or(before, (before.len() + beyond) as int, default) == default,
{
}

} // verus!
