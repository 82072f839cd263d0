use replay_rs::text::{
    holds, parse_i32, push_decimal, push_signed_decimal, replace, same, starts_with, trim,
};

#[test]
fn numbers_are_written_in_decimal() {
    for n in [0u64, 9, 10, 1000, u64::MAX] {
        let mut text = "=".to_string();
        push_decimal(&mut text, n);
        assert_eq!(text, format!("={n}"));
    }
    for n in [0i64, -1, 42, i64::MIN, i64::MAX] {
        let mut text = String::new();
        push_signed_decimal(&mut text, n);
        assert_eq!(text, n.to_string());
    }
}

#[test]
fn numbers_are_read_as_the_standard_library_reads_them() {
    for text in [
        "0", "7", "+7", "-7", "007", "2147483647", "2147483648", "-2147483648", "-2147483649",
        "", "+", "-", "--1", "1 ", "a", "1a", "٣", "99999999999999999999",
    ] {
        assert_eq!(parse_i32(text), text.parse::<i32>().ok(), "{text:?}");
    }
}

#[test]
fn white_space_is_trimmed_at_both_ends() {
    for text in ["", " ", "a", " a b\t\n", "\u{a0}x\u{3000}", "\u{200b}x", "\u{1680}\u{2028}y\u{85}"] {
        assert_eq!(trim(text), text.trim(), "{text:?}");
    }
}

#[test]
fn text_is_compared_and_searched() {
    assert!(same("клип", "клип"));
    assert!(!same("клип", "клипы"));
    assert!(starts_with("//server", "//"));
    assert!(!starts_with("/", "//"));
    assert!(holds("a\0b", '\0'));
    assert!(!holds("ab", '\0'));
    assert_eq!(replace(r"a\b\c", '\\', '/'), "a/b/c");
}
