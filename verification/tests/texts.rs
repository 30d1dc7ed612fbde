use coder::text::contains_char;
use coder::text::decimal_digits;
use coder::text::hex16;
use coder::text::parse_u64;
use coder::text::push_signed;
use coder::text::push_texts;
use coder::text::push_unsigned;
use coder::text::starts_with;
use coder::text::text_eq;

#[test]
fn texts_are_compared() {
    assert!(text_eq("", ""));
    assert!(text_eq("grüße", "grüße"));
    assert!(!text_eq("a", "ab"));
    assert!(!text_eq("ab", "a"));
    assert!(!text_eq("a", "b"));
    assert!(starts_with("--config=x", "--config="));
    assert!(starts_with("x", ""));
    assert!(!starts_with("--conf", "--config"));
    assert!(contains_char("a=b", '='));
    assert!(!contains_char("ab", '='));
}

#[test]
fn numbers_are_written_and_read() {
    for n in [0u64, 7, 10, 180, 65535, 1234567890, u64::MAX] {
        assert_eq!(decimal_digits(n), n.to_string().into_bytes());
        assert_eq!(parse_u64(&decimal_digits(n)), Some(n));
        assert_eq!(hex16(n), format!("{n:016x}"));
        let mut out = "n=".to_string();
        push_unsigned(&mut out, n);
        assert_eq!(out, format!("n={n}"));
    }
    for n in [0i32, -1, 42, i32::MIN, i32::MAX] {
        let mut out = String::new();
        push_signed(&mut out, n);
        assert_eq!(out, n.to_string());
    }
    assert_eq!(parse_u64(b"18446744073709551616"), None);
    assert_eq!(parse_u64(b"00000000000000000000000000000012"), Some(12));
    assert_eq!(parse_u64(b"++1"), None);
    assert_eq!(parse_u64(b""), None);
}

#[test]
fn lists_are_copied() {
    let mut out = vec!["a".to_string()];
    push_texts(&mut out, &["b".to_string(), "c".to_string()]);
    assert_eq!(out, ["a", "b", "c"]);
}
