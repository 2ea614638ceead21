use holo_bot::text::{
    dec_string, parse_u64, push_dec2, push_dec_int, str_contains, str_ends_with, str_eq, str_le,
    str_replace, str_starts_with, str_trim, to_ascii_lower,
};

#[test]
fn decimal_notation() {
    assert_eq!(dec_string(0), "0");
    assert_eq!(dec_string(1234567890), "1234567890");
    assert_eq!(dec_string(u64::MAX), "18446744073709551615");
}

#[test]
fn two_digit_and_signed_notation() {
    let mut s = String::new();
    push_dec2(&mut s, 7);
    push_dec2(&mut s, 42);
    push_dec2(&mut s, 123);
    assert_eq!(s, "0742123");
    let mut t = String::new();
    push_dec_int(&mut t, -15);
    push_dec_int(&mut t, i64::MIN);
    assert_eq!(t, "-15-9223372036854775808");
}

#[test]
fn parsing_numbers() {
    assert_eq!(parse_u64("42"), Some(42));
    assert_eq!(parse_u64("18446744073709551615"), Some(u64::MAX));
    assert_eq!(parse_u64("18446744073709551616"), None);
    assert_eq!(parse_u64(""), None);
    assert_eq!(parse_u64("4a"), None);
    assert_eq!(parse_u64("-1"), None);
}

#[test]
fn searching_and_replacing() {
    assert!(str_starts_with("pekora", "pek"));
    assert!(!str_starts_with("pe", "pek"));
    assert!(str_ends_with("key:fx", ":fx"));
    assert!(str_contains("hello world", "o w"));
    assert!(!str_contains("hello", "world"));
    assert!(str_eq("abc", "abc"));
    assert!(!str_eq("abc", "abd"));
    assert_eq!(str_replace("a-b-c", "-", "+"), "a+b+c");
    assert_eq!(str_replace("abc", "", "-"), "-a-b-c-");
    assert_eq!(to_ascii_lower("PeKo Ü"), "peko Ü");
    assert_eq!(str_trim("  \t hi there \n"), "hi there");
}

#[test]
fn order_of_strings() {
    assert!(str_le("abc", "abd"));
    assert!(str_le("ab", "abc"));
    assert!(!str_le("abc", "ab"));
    assert!(str_le("same", "same"));
    assert!(str_le("Z", "a"));
    assert!(str_le("a", "é"));
}
