use cpcm::strutil::{i32_dec_string, str_contains, trim_spaces, u64_dec_string};

#[test]
fn trim_removes_ascii_whitespace_at_both_ends() {
    assert_eq!(trim_spaces("  hello  "), "hello");
    assert_eq!(trim_spaces("\t a b \n"), "a b");
    assert_eq!(trim_spaces("none"), "none");
    assert_eq!(trim_spaces(""), "");
    assert_eq!(trim_spaces(" \t\r\n "), "");
}

#[test]
fn contains_finds_substrings() {
    assert!(str_contains("a.com", "a.c"));
    assert!(str_contains("a.com", ""));
    assert!(str_contains("a.com", "a.com"));
    assert!(!str_contains("a.com", "b.c"));
    assert!(!str_contains("ab", "abc"));
    assert!(str_contains("xxabyy", "ab"));
}

#[test]
fn u64_renders_decimal() {
    assert_eq!(u64_dec_string(0), "0");
    assert_eq!(u64_dec_string(7), "7");
    assert_eq!(u64_dec_string(42), "42");
    assert_eq!(u64_dec_string(1000), "1000");
    assert_eq!(u64_dec_string(u64::MAX), "18446744073709551615");
}

#[test]
fn i32_renders_decimal_with_sign() {
    assert_eq!(i32_dec_string(0), "0");
    assert_eq!(i32_dec_string(1), "1");
    assert_eq!(i32_dec_string(-1), "-1");
    assert_eq!(i32_dec_string(-305), "-305");
    assert_eq!(i32_dec_string(i32::MAX), "2147483647");
    assert_eq!(i32_dec_string(i32::MIN), "-2147483648");
}
