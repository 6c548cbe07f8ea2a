use tophub::text::{char_is_white_space, chars_of, split_text, trim_text, u64_to_decimal};

#[test]
fn decimal_of_small_and_large_numbers() {
    assert_eq!(u64_to_decimal(0), "0");
    assert_eq!(u64_to_decimal(7), "7");
    assert_eq!(u64_to_decimal(10), "10");
    assert_eq!(u64_to_decimal(12345), "12345");
    assert_eq!(u64_to_decimal(u64::MAX), "18446744073709551615");
}

#[test]
fn decimal_matches_to_string() {
    for n in [1u64, 9, 99, 100, 101, 1000000007, 4294967295] {
        assert_eq!(u64_to_decimal(n), n.to_string());
    }
}

#[test]
fn chars_of_keeps_every_character() {
    assert_eq!(chars_of("a苹b"), vec!['a', '苹', 'b']);
    assert_eq!(chars_of(""), Vec::<char>::new());
}

#[test]
fn white_space_characters() {
    for c in [' ', '\t', '\n', '\r', '\u{0b}', '\u{0c}', '\u{85}', '\u{a0}', '\u{2003}', '\u{3000}'] {
        assert!(char_is_white_space(c), "{:?}", c);
        assert!(c.is_whitespace());
    }
    for c in ['a', ',', '\u{200b}', '0', '苹'] {
        assert!(!char_is_white_space(c), "{:?}", c);
        assert!(!c.is_whitespace());
    }
}

#[test]
fn trim_removes_surrounding_whitespace() {
    assert_eq!(trim_text("  mproPpoq6O \t\n"), "mproPpoq6O");
    assert_eq!(trim_text("\u{3000}a b\u{a0}"), "a b");
    assert_eq!(trim_text("   "), "");
    assert_eq!(trim_text(""), "");
    assert_eq!(trim_text("x"), "x");
}

#[test]
fn trim_matches_str_trim() {
    for s in [" a ", "\u{2028}b\u{2029}", "c d", " \u{85}e\u{85} ", "\t"] {
        assert_eq!(trim_text(s), s.trim());
    }
}

#[test]
fn split_keeps_empty_pieces() {
    assert_eq!(split_text("a,,b", ','), vec!["a", "", "b"]);
    assert_eq!(split_text("", ','), vec![""]);
    assert_eq!(split_text(",", ','), vec!["", ""]);
    assert_eq!(split_text("abc", ','), vec!["abc"]);
    assert_eq!(split_text("a,b,", ','), vec!["a", "b", ""]);
}

#[test]
fn split_matches_str_split() {
    for s in ["x,y", ",,", " a , b ", "苹果,香蕉"] {
        let expected: Vec<&str> = s.split(',').collect();
        assert_eq!(split_text(s, ','), expected);
    }
}
