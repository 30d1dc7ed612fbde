//! Text and number formats shared by the rest of the library.

use vstd::prelude::*;

verus! {

/// `String::push` of std: it appends one character.
pub assume_specification[ String::push ](s: &mut String, ch: char)
    ensures
        final(s)@ == old(s)@.push(ch),
;

/// The texts in a list.
pub open spec fn texts(values: Seq<String>) -> Seq<Seq<char>> {
    Seq::new(values.len(), |i: int| values[i]@)
}

/// A text that may be missing, as a value.
pub open spec fn optional(value: Option<&str>) -> Option<Seq<char>> {
    match value {
        Some(text) => Some(text@),
        None => None,
    }
}

/// A text that was found, as a value.
pub open spec fn text_view(r: Option<String>) -> Option<Seq<char>> {
    match r {
        Some(text) => Some(text@),
        None => None,
    }
}

/// The bytes of an ASCII encoding as characters, one for one.
pub open spec fn ascii_chars(bytes: Seq<u8>) -> Seq<char> {
    Seq::new(bytes.len(), |i: int| bytes[i] as char)
}

/// Whether two texts hold the same characters.
pub fn text_eq(a: &str, b: &str) -> (r: bool)
    ensures
        r == (a@ == b@),
{
    let mut left = a.chars();
    let mut right = b.chars();
    let ghost mut k: int = 0;
    loop
        invariant
            0 <= k <= a@.len(),
            k <= b@.len(),
            vstd::std_specs::iter::IteratorSpec::remaining(&left) == a@.skip(k),
            vstd::std_specs::iter::IteratorSpec::remaining(&right) == b@.skip(k),
            forall|i: int| 0 <= i < k ==> a@[i] == b@[i],
        decreases a@.len() - k,
    {
        match left.next() {
            None => {
                let rest = right.next();
                assert(rest is None ==> a@ =~= b@);
                return rest.is_none();
            },
            Some(c) => match right.next() {
                None => {
                    return false;
                },
                Some(d) => {
                    if c != d {
                        return false;
                    }
                    proof {
                        k = k + 1;
                    }
                },
            },
        }
    }
}

/// Whether `text` begins with `prefix`.
pub fn starts_with(text: &str, prefix: &str) -> (r: bool)
    ensures
        r == prefix@.is_prefix_of(text@),
{
    let mut whole = text.chars();
    let mut wanted = prefix.chars();
    let ghost mut k: int = 0;
    loop
        invariant
            0 <= k <= prefix@.len(),
            k <= text@.len(),
            vstd::std_specs::iter::IteratorSpec::remaining(&whole) == text@.skip(k),
            vstd::std_specs::iter::IteratorSpec::remaining(&wanted) == prefix@.skip(k),
            forall|i: int| 0 <= i < k ==> text@[i] == prefix@[i],
        decreases prefix@.len() - k,
    {
        match wanted.next() {
            None => {
                return true;
            },
            Some(c) => match whole.next() {
                None => {
                    return false;
                },
                Some(d) => {
                    if c != d {
                        return false;
                    }
                    proof {
                        k = k + 1;
                    }
                },
            },
        }
    }
}

/// Whether `text` holds the character `wanted`.
pub fn contains_char(text: &str, wanted: char) -> (r: bool)
    ensures
        r == text@.contains(wanted),
{
    let mut rest = text.chars();
    let ghost mut k: int = 0;
    loop
        invariant
            0 <= k <= text@.len(),
            vstd::std_specs::iter::IteratorSpec::remaining(&rest) == text@.skip(k),
            forall|i: int| 0 <= i < k ==> text@[i] != wanted,
        decreases text@.len() - k,
    {
        match rest.next() {
            None => {
                return false;
            },
            Some(c) => {
                if c == wanted {
                    assert(text@[k] == wanted);
                    return true;
                }
                proof {
                    k = k + 1;
                }
            },
        }
    }
}

/// Appends copies of texts to a list.
pub fn push_texts(out: &mut Vec<String>, values: &[String])
    ensures
        texts(final(out)@) == texts(old(out)@) + texts(values@),
{
    let mut i: usize = 0;
    while i < values.len()
        invariant
            i <= values@.len(),
            texts(out@) == texts(old(out)@) + texts(values@).take(i as int),
        decreases values@.len() - i,
    {
        let ghost before = texts(out@);
        out.push(values[i].clone());
        assert(texts(out@) =~= before.push(values@[i as int]@));
        i = i + 1;
        assert(texts(values@).take(i as int) =~= texts(values@).take(i - 1).push(
            values@[i - 1]@,
        ));
    }
    assert(texts(values@).take(i as int) =~= texts(values@));
}

/// The pieces of `s` between the separators: one more piece than there are separators.
pub open spec fn split<T>(s: Seq<T>, separator: T) -> Seq<Seq<T>>
    decreases s.len(),
{
    if s.len() == 0 {
        seq![Seq::<T>::empty()]
    } else {
        let before = split(s.drop_last(), separator);
        if s.last() == separator {
            before.push(Seq::<T>::empty())
        } else {
            before.drop_last().push(before.last().push(s.last()))
        }
    }
}

/// The decimal digits of `n`, without leading zeros.
pub open spec fn decimal(n: nat) -> Seq<u8>
    decreases n,
{
    if n < 10 {
        seq![(48 + n) as u8]
    } else {
        decimal(n / 10).push((48 + n % 10) as u8)
    }
}

/// A signed number as text: its decimal digits, after `-` where it is negative.
pub open spec fn int_text(n: int) -> Seq<char> {
    if n < 0 {
        seq!['-'] + ascii_chars(decimal((-n) as nat))
    } else {
        ascii_chars(decimal(n as nat))
    }
}

/// The decimal digits of `n`.
pub fn decimal_digits(n: u64) -> (r: Vec<u8>)
    ensures
        r@ == decimal(n as nat),
    decreases n,
{
    if n < 10 {
        let mut digits: Vec<u8> = Vec::new();
        digits.push(48 + n as u8);
        digits
    } else {
        let mut digits: Vec<u8> = decimal_digits(n / 10);
        digits.push(48 + (n % 10) as u8);
        digits
    }
}

/// Appends the decimal form of `n` to a text.
pub fn push_unsigned(text: &mut String, n: u64)
    ensures
        final(text)@ == old(text)@ + int_text(n as int),
{
    let digits: Vec<u8> = decimal_digits(n);
    let mut i: usize = 0;
    while i < digits.len()
        invariant
            i <= digits@.len(),
            text@ == old(text)@ + ascii_chars(digits@).take(i as int),
        decreases digits@.len() - i,
    {
        text.push(digits[i] as char);
        i = i + 1;
        assert(ascii_chars(digits@).take(i as int) =~= ascii_chars(digits@).take(i - 1).push(
            digits@[i - 1] as char,
        ));
    }
    assert(ascii_chars(digits@).take(digits@.len() as int) =~= ascii_chars(digits@));
}

/// Appends the decimal form of `n` to a text.
pub fn push_signed(text: &mut String, n: i32)
    ensures
        final(text)@ == old(text)@ + int_text(n as int),
{
    if n < 0 {
        text.push('-');
        push_unsigned(text, (-(n as i64)) as u64);
    } else {
        push_unsigned(text, n as u64);
    }
}

pub open spec fn is_digit(b: u8) -> bool {
    0x30 <= b <= 0x39
}

pub open spec fn all_digits(s: Seq<u8>) -> bool {
    forall|i: int| 0 <= i < s.len() ==> is_digit(#[trigger] s[i])
}

/// The number that a row of decimal digits stands for.
pub open spec fn digits_value(s: Seq<u8>) -> nat
    decreases s.len(),
{
    if s.len() == 0 {
        0
    } else {
        digits_value(s.drop_last()) * 10 + (s.last() - 48) as nat
    }
}

/// An unsigned 64-bit number as text: an optional `+`, then at least one digit.
pub open spec fn parse_decimal(s: Seq<u8>) -> Option<u64> {
    let digits = if s.len() > 0 && s[0] == 0x2b {
        s.skip(1)
    } else {
        s
    };
    if digits.len() > 0 && all_digits(digits) && digits_value(digits) <= u64::MAX {
        Some(digits_value(digits) as u64)
    } else {
        None
    }
}

proof fn lemma_digits_value_grows(s: Seq<u8>, k: int)
    requires
        0 <= k <= s.len(),
        all_digits(s),
    ensures
        digits_value(s.take(k)) <= digits_value(s),
    decreases s.len() - k,
{
    if k < s.len() {
        lemma_digits_value_grows(s, k + 1);
        assert(s.take(k + 1).drop_last() =~= s.take(k));
        assert(is_digit(s[k]));
    } else {
        assert(s.take(k) =~= s);
    }
}

/// Reads an unsigned number. `None` where the text is no such number or does not fit.
pub fn parse_u64(input: &[u8]) -> (r: Option<u64>)
    ensures
        r == parse_decimal(input@),
{
    let start: usize = if input.len() > 0 && input[0] == 0x2b {
        1
    } else {
        0
    };
    let ghost digits = input@.skip(start as int);
    assert(start == 0 ==> digits =~= input@);
    if input.len() == start {
        return None;
    }
    let mut value: u64 = 0;
    let mut i: usize = start;
    assert(digits.take(0) =~= Seq::<u8>::empty());
    while i < input.len()
        invariant
            start <= i <= input@.len(),
            digits == input@.skip(start as int),
            digits.len() > 0,
            parse_decimal(input@) == (if all_digits(digits) && digits_value(digits) <= u64::MAX {
                Some(digits_value(digits) as u64)
            } else {
                None
            }),
            forall|j: int| 0 <= j < i - start ==> is_digit(#[trigger] digits[j]),
            value == digits_value(digits.take(i - start)),
        decreases input@.len() - i,
    {
        let b: u8 = input[i];
        assert(b == digits[i - start]);
        if b < 0x30 || b > 0x39 {
            assert(!is_digit(digits[i - start]));
            return None;
        }
        let digit: u64 = (b - 0x30) as u64;
        assert(digits.take(i - start + 1).drop_last() =~= digits.take(i - start));
        assert(digits_value(digits.take(i - start + 1)) == value * 10 + digit);
        if value > 1844674407370955161 || (value == 1844674407370955161 && digit > 5) {
            proof {
                if all_digits(digits) {
                    lemma_digits_value_grows(digits, i - start + 1);
                }
            }
            return None;
        }
        value = value * 10 + digit;
        i = i + 1;
    }
    assert(digits.take(i - start) =~= digits);
    Some(value)
}

/// A decimal number is a row of digits that stands for the number itself.
pub proof fn lemma_decimal_value(n: nat)
    ensures
        decimal(n).len() > 0,
        all_digits(decimal(n)),
        digits_value(decimal(n)) == n,
    decreases n,
{
    if n >= 10 {
        lemma_decimal_value(n / 10);
        assert(decimal(n).drop_last() =~= decimal(n / 10));
        assert forall|i: int| 0 <= i < decimal(n).len() implies is_digit(#[trigger] decimal(n)[i]) by {
            if i < decimal(n / 10).len() {
                assert(is_digit(decimal(n / 10)[i]));
            }
        }
    } else {
        assert(decimal(n).drop_last() =~= Seq::<u8>::empty());
        reveal_with_fuel(digits_value, 2);
    }
}

/// Reading a number gives back what writing it wrote.
pub proof fn law_decimal_round_trip(n: u64)
    ensures
        parse_decimal(decimal(n as nat)) == Some(n),
{
    lemma_decimal_value(n as nat);
    assert(is_digit(decimal(n as nat)[0]));
}

pub open spec fn hex_digit(d: u64) -> char {
    if d < 10 {
        (48 + d) as char
    } else {
        (87 + d) as char
    }
}

/// A 64-bit number as sixteen lower-case hexadecimal digits, the most significant one first.
pub open spec fn hex_digits(n: u64) -> Seq<char> {
    Seq::new(16, |i: int| hex_digit((n >> ((60 - 4 * i) as u64)) & 15))
}

/// Writes `n` as sixteen lower-case hexadecimal digits.
pub fn hex16(n: u64) -> (r: String)
    ensures
        r@ == hex_digits(n),
{
    let mut out = String::new();
    let mut i: u64 = 0;
    while i < 16
        invariant
            i <= 16,
            out@ == hex_digits(n).take(i as int),
        decreases 16 - i,
    {
        let d: u64 = (n >> (60 - 4 * i)) & 15;
        assert((n >> ((60 - 4 * i) as u64)) & 15 <= 15) by (bit_vector);
        let c: u8 = if d < 10 {
            48 + d as u8
        } else {
            87 + d as u8
        };
        out.push(c as char);
        i = i + 1;
        assert(hex_digits(n).take(i as int) =~= hex_digits(n).take(i - 1).push(hex_digit(d)));
    }
    assert(hex_digits(n).take(16) =~= hex_digits(n));
    out
}

proof fn lemma_same_digit(a: u64, b: u64, i: int)
    requires
        hex_digits(a) == hex_digits(b),
        0 <= i < 16,
    ensures
        (a >> ((60 - 4 * i) as u64)) & 15 == (b >> ((60 - 4 * i) as u64)) & 15,
{
    let s: u64 = (60 - 4 * i) as u64;
    let x: u64 = (a >> s) & 15;
    let y: u64 = (b >> s) & 15;
    assert((a >> s) & 15 <= 15 && (b >> s) & 15 <= 15) by (bit_vector);
    assert(hex_digits(a)[i] == hex_digit(x));
    assert(hex_digits(b)[i] == hex_digit(y));
    assert(hex_digit(x) as u64 == (if x < 10 { 48 + x } else { 87 + x }));
    assert(hex_digit(y) as u64 == (if y < 10 { 48 + y } else { 87 + y }));
}

/// Different numbers have different hexadecimal forms.
pub proof fn law_hex_digits_injective(a: u64, b: u64)
    requires
        hex_digits(a) == hex_digits(b),
    ensures
        a == b,
{
    lemma_same_digit(a, b, 0);
    lemma_same_digit(a, b, 1);
    lemma_same_digit(a, b, 2);
    lemma_same_digit(a, b, 3);
    lemma_same_digit(a, b, 4);
    lemma_same_digit(a, b, 5);
    lemma_same_digit(a, b, 6);
    lemma_same_digit(a, b, 7);
    lemma_same_digit(a, b, 8);
    lemma_same_digit(a, b, 9);
    lemma_same_digit(a, b, 10);
    lemma_same_digit(a, b, 11);
    lemma_same_digit(a, b, 12);
    lemma_same_digit(a, b, 13);
    lemma_same_digit(a, b, 14);
    lemma_same_digit(a, b, 15);
    assert(a == b) by (bit_vector)
        requires
            (a >> 60u64) & 15 == (b >> 60u64) & 15,
            (a >> 56u64) & 15 == (b >> 56u64) & 15,
            (a >> 52u64) & 15 == (b >> 52u64) & 15,
            (a >> 48u64) & 15 == (b >> 48u64) & 15,
            (a >> 44u64) & 15 == (b >> 44u64) & 15,
            (a >> 40u64) & 15 == (b >> 40u64) & 15,
            (a >> 36u64) & 15 == (b >> 36u64) & 15,
            (a >> 32u64) & 15 == (b >> 32u64) & 15,
            (a >> 28u64) & 15 == (b >> 28u64) & 15,
            (a >> 24u64) & 15 == (b >> 24u64) & 15,
            (a >> 20u64) & 15 == (b >> 20u64) & 15,
            (a >> 16u64) & 15 == (b >> 16u64) & 15,
            (a >> 12u64) & 15 == (b >> 12u64) & 15,
            (a >> 8u64) & 15 == (b >> 8u64) & 15,
            (a >> 4u64) & 15 == (b >> 4u64) & 15,
            (a >> 0u64) & 15 == (b >> 0u64) & 15,
    ;
}

proof fn lemma_split_nonempty<T>(s: Seq<T>, separator: T)
    ensures
        split(s, separator).len() >= 1,
    decreases s.len(),
{
    if s.len() > 0 {
        lemma_split_nonempty(s.drop_last(), separator);
    }
}

proof fn lemma_split_whole<T>(s: Seq<T>, separator: T)
    requires
        !s.contains(separator),
    ensures
        split(s, separator) == seq![s],
    decreases s.len(),
{
    if s.len() == 0 {
        assert(s =~= Seq::empty());
        assert(split(s, separator) =~= seq![s]);
    } else {
        let before = s.drop_last();
        assert(s[s.len() - 1] != separator);
        assert forall|i: int| 0 <= i < before.len() implies before[i] != separator by {
            assert(before[i] == s[i]);
        }
        lemma_split_whole(before, separator);
        assert(before.push(s.last()) =~= s);
        assert(split(s, separator) =~= seq![s]);
    }
}

/// A text is cut at its first separator: what stands before it is a piece, and what stands behind
/// it is cut on its own. A text without a separator is one piece.
pub proof fn law_split_at_first_separator<T>(a: Seq<T>, separator: T, b: Seq<T>)
    requires
        !a.contains(separator),
    ensures
        split(a, separator) == seq![a],
        split(a + seq![separator] + b, separator) == seq![a] + split(b, separator),
    decreases b.len(),
{
    let s = a + seq![separator] + b;
    lemma_split_whole(a, separator);
    if b.len() == 0 {
        assert(s.drop_last() =~= a);
        assert(split(s, separator) =~= seq![a] + split(b, separator));
    } else {
        let shorter = b.drop_last();
        law_split_at_first_separator(a, separator, shorter);
        lemma_split_nonempty(shorter, separator);
        assert(s.drop_last() =~= a + seq![separator] + shorter);
        assert(s.last() == b.last());
        let before = seq![a] + split(shorter, separator);
        assert(before.last() == split(shorter, separator).last());
        assert(split(s, separator) =~= seq![a] + split(b, separator));
    }
}

/// The decimal form of a number ends in its last digit, behind the form of the tens.
pub proof fn law_decimal_grows_by_digits(tens: nat, digit: nat)
    requires
        digit < 10,
    ensures
        decimal(digit) == seq![(48 + digit) as u8],
        tens > 0 ==> decimal(tens * 10 + digit) == decimal(tens).push((48 + digit) as u8),
{
    let n = tens * 10 + digit;
    assert(n / 10 == tens && n % 10 == digit);
}

/// A negative number is written as `-` and its opposite, any other as its digits alone.
pub proof fn law_signed_text(n: nat)
    ensures
        int_text(n as int).len() == decimal(n).len(),
        forall|i: int|
            0 <= i < decimal(n).len() ==> #[trigger] int_text(n as int)[i] as int == decimal(
                n,
            )[i] as int,
        n > 0 ==> int_text(-(n as int)) == seq!['-'] + int_text(n as int),
{
    lemma_decimal_value(n);
    assert forall|i: int| 0 <= i < decimal(n).len() implies #[trigger] int_text(
        n as int,
    )[i] as int == decimal(n)[i] as int by {
        assert(is_digit(decimal(n)[i]));
    }
}

proof fn lemma_leading_zero(s: Seq<u8>)
    ensures
        digits_value(seq![0x30u8] + s) == digits_value(s),
    decreases s.len(),
{
    let t = seq![0x30u8] + s;
    if s.len() == 0 {
        assert(t.drop_last() =~= Seq::<u8>::empty());
        reveal_with_fuel(digits_value, 2);
    } else {
        assert(t.drop_last() =~= seq![0x30u8] + s.drop_last());
        lemma_leading_zero(s.drop_last());
    }
}

/// Zeros in front of a number, and a plus sign in front of it, do not change it.
pub proof fn law_leading_zero_and_plus_do_not_count(s: Seq<u8>)
    requires
        s.len() > 0 ==> s[0] != 0x2b,
    ensures
        parse_decimal(seq![0x2bu8] + s) == parse_decimal(s),
        s.len() > 0 ==> parse_decimal(seq![0x30u8] + s) == parse_decimal(s),
{
    assert((seq![0x2bu8] + s).skip(1) =~= s);
    let t = seq![0x30u8] + s;
    lemma_leading_zero(s);
    if s.len() > 0 {
        if all_digits(s) {
            assert forall|i: int| 0 <= i < t.len() implies is_digit(#[trigger] t[i]) by {
                if i > 0 {
                    assert(is_digit(s[i - 1]));
                }
            }
        }
        if all_digits(t) {
            assert forall|i: int| 0 <= i < s.len() implies is_digit(#[trigger] s[i]) by {
                assert(is_digit(t[i + 1]));
            }
        }
    }
}

/// A text that holds anything but digits behind an optional plus sign is no number, and neither is
/// one without digits.
pub proof fn law_only_digits_are_a_number(s: Seq<u8>, i: int)
    ensures
        0 <= i < s.len() && (s[i] < 0x30 || s[i] > 0x39) && (i > 0 || s[i] != 0x2b)
            ==> parse_decimal(s) is None,
        s.len() == 0 ==> parse_decimal(s) is None,
        s == seq![0x2bu8] ==> parse_decimal(s) is None,
{
    if 0 <= i < s.len() && (s[i] < 0x30 || s[i] > 0x39) && (i > 0 || s[i] != 0x2b) {
        if s[0] == 0x2b {
            assert(s.skip(1)[i - 1] == s[i]);
            assert(!is_digit(s.skip(1)[i - 1]));
        } else {
            assert(!is_digit(s[i]));
        }
    }
    if s == seq![0x2bu8] {
        assert(s.skip(1).len() == 0);
    }
}

/// A number that does not fit into 64 bits is not read.
pub proof fn law_large_number_is_not_read(n: nat)
    requires
        n > 0xffff_ffff_ffff_ffff,
    ensures
        parse_decimal(decimal(n)) is None,
{
    lemma_decimal_value(n);
    assert(is_digit(decimal(n)[0]));
}

/// The hexadecimal form of a number has sixteen digits, and those of a number with one digit more
/// are moved up by one place, with the new digit behind them.
pub proof fn law_hex_grows_by_digits(n: u64, digit: u64)
    requires
        n < 0x1000_0000_0000_0000,
        digit < 16,
    ensures
        hex_digits(0) == Seq::new(16, |i: int| '0'),
        hex_digits((n * 16 + digit) as u64) == hex_digits(n).skip(1).push(
            if digit < 10 {
                (48 + digit) as char
            } else {
                (87 + digit) as char
            },
        ),
{
    let x: u64 = (n * 16 + digit) as u64;
    assert forall|i: int| 0 <= i < 16 implies #[trigger] hex_digits(0)[i] == '0' by {
        let s: u64 = (60 - 4 * i) as u64;
        assert((0u64 >> s) & 15 == 0) by (bit_vector);
    }
    assert(hex_digits(0) =~= Seq::new(16, |i: int| '0'));
    let last = hex_digit(digit);
    assert forall|i: int| 0 <= i < 16 implies #[trigger] hex_digits(x)[i] == hex_digits(n).skip(
        1,
    ).push(last)[i] by {
        let s: u64 = (60 - 4 * i) as u64;
        if i < 15 {
            let t: u64 = (60 - 4 * (i + 1)) as u64;
            assert(t == s - 4);
            assert((x >> s) & 15 == (n >> t) & 15) by (bit_vector)
                requires
                    x == n * 16 + digit,
                    n < 0x1000_0000_0000_0000,
                    digit < 16,
                    t == s - 4,
                    4 <= s <= 60,
            ;
            assert(hex_digits(n).skip(1)[i] == hex_digits(n)[i + 1]);
        } else {
            assert((x >> 0u64) & 15 == digit) by (bit_vector)
                requires
                    x == n * 16 + digit,
                    n < 0x1000_0000_0000_0000,
                    digit < 16,
            ;
        }
    }
    assert(hex_digits(x) =~= hex_digits(n).skip(1).push(last));
}

/// Lists and texts are seen as they are: each text of a list in its place, and a text that may be
/// missing as itself.
pub proof fn law_texts_are_seen_as_they_are(values: Seq<String>, i: int, text: &str, owned: String)
    ensures
        texts(values).len() == values.len(),
        0 <= i < values.len() ==> texts(values)[i] == values[i]@,
        optional(Some(text)) == Some(text@),
        optional(None) is None,
        text_view(Some(owned)) == Some(owned@),
        text_view(None) is None,
{
}

} // verus!
