use browser_ext::text::{
    concatenated, decimal_text, parse_i64, same, split_once, starts_with, trim, white_space,
};

#[test]
fn same_compares_characters() {
    assert!(same("", ""));
    assert!(same("tabs", "tabs"));
    assert!(!same("tabs", "tab"));
    assert!(!same("tabs", "tabz"));
    assert!(!same("é", "e"));
}

#[test]
fn white_space_is_what_unicode_says() {
    let mut n: u32 = 0;
    while n <= 0x10ffff {
        if let Some(c) = char::from_u32(n) {
            assert_eq!(white_space(c), c.is_whitespace(), "{:x}", n);
        }
        n += 1;
    }
}

#[test]
fn trim_leaves_white_space_out_at_both_ends() {
    for s in ["", " ", "\r\n", "a", " a b \n", "\u{2003}x\u{a0}", "{\"a\": 1}\n", "\t\u{3000}\u{85}"] {
        assert_eq!(trim(s), s.trim());
    }
}

#[test]
fn prefixes_are_found() {
    assert!(starts_with("chrome-extension://abc/", "chrome-extension://"));
    assert!(starts_with("x", ""));
    assert!(!starts_with("chrome", "chrome-extension://"));
    assert!(!starts_with("/chrome-extension://", "chrome-extension://"));
}

#[test]
fn integers_are_read_as_the_standard_library_reads_them() {
    for s in [
        "0", "7", "-7", "+7", "", "-", "+", "--1", "+-1", "1 ", " 1", "1_0", "0x1", "1.0", "٣", "007", "-0",
        "9223372036854775807", "9223372036854775808", "-9223372036854775808", "-9223372036854775809",
        "18446744073709551616", "99999999999999999999999999999999", "000000000000000000000000000000012",
        "99999999999999999999999x",
    ] {
        assert_eq!(parse_i64(s), s.parse::<i64>().ok(), "{:?}", s);
    }
}

#[test]
fn decimal_notation() {
    assert_eq!(decimal_text(0), "0");
    assert_eq!(decimal_text(9), "9");
    assert_eq!(decimal_text(10), "10");
    assert_eq!(decimal_text(255), "255");
    assert_eq!(decimal_text(18446744073709551615), "18446744073709551615");
}

#[test]
fn written_integers_are_read_back() {
    for n in [0i64, 1, 42, -1, -42, i64::MAX, i64::MIN] {
        assert_eq!(parse_i64(&n.to_string()), Some(n));
    }
}

#[test]
fn strings_are_put_behind_each_other() {
    assert_eq!(concatenated("a", "b"), "ab");
    assert_eq!(concatenated("", "é"), "é");
}

#[test]
fn splitting_takes_the_first_occurrence() {
    assert_eq!(split_once("a;b;c", ";"), Some(("a", "b;c")));
    assert_eq!(split_once("abc", ";"), None);
    assert_eq!(split_once(";", ";"), Some(("", "")));
    assert_eq!(split_once("", ";"), None);
    assert_eq!(split_once("abc", ""), Some(("", "abc")));
    assert_eq!(split_once("aab", "ab"), Some(("a", "")));
    assert_eq!(split_once("é→ü", "→"), Some(("é", "ü")));
}
