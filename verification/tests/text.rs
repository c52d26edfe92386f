//! Tests of the character helpers and of instants.

use davd::text::{chars_of, decimal_of, owned, slice_chars, str_eq, string_of, trim_quotes_of};
use davd::time::Timestamp;

#[test]
fn quotes_are_trimmed_at_both_ends_only() {
    assert_eq!(trim_quotes_of("\"abc123\""), "abc123");
    assert_eq!(trim_quotes_of("\"\"a\"b\"\""), "a\"b");
    assert_eq!(trim_quotes_of("plain"), "plain");
    assert_eq!(trim_quotes_of("\"\"\""), "");
    assert_eq!(trim_quotes_of(""), "");
}

#[test]
fn decimal_text() {
    assert_eq!(decimal_of(0), "0");
    assert_eq!(decimal_of(7), "7");
    assert_eq!(decimal_of(404), "404");
    assert_eq!(decimal_of(u64::MAX), "18446744073709551615");
}

#[test]
fn strings_and_characters() {
    let v = chars_of("héllo");
    assert_eq!(v.len(), 5);
    assert_eq!(string_of(&v), "héllo");
    assert_eq!(string_of(&slice_chars(&v, 1, 3)), "él");
    assert_eq!(davd::text::concat("ab", "ç"), "abç");
    assert_eq!(owned("x"), "x");
    assert!(str_eq("same", "same"));
    assert!(!str_eq("same", "Same"));
}

#[test]
fn instants_are_ordered_by_seconds_then_nanos() {
    let a = Timestamp { seconds: 10, nanos: 5 };
    let b = Timestamp { seconds: 10, nanos: 6 };
    let c = Timestamp::from_seconds(11);
    assert!(a.is_le(&b));
    assert!(!b.is_le(&a));
    assert!(b.is_le(&c));
    assert!(a.is_le(&a));
    assert_eq!(c.nanos, 0);
}
