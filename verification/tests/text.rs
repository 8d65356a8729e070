use coogler::text::{
    chars_of, is_whitespace_char, push_decimal, string_of_range, trim, trim_bounds,
};

#[test]
fn chars_round_trip() {
    for s in ["", "abc", "int **", "é日本"] {
        let chars = chars_of(s);
        assert_eq!(chars, s.chars().collect::<Vec<char>>());
        assert_eq!(string_of_range(&chars, 0, chars.len()), s);
    }
}

#[test]
fn string_of_range_takes_the_middle() {
    let chars = chars_of("hello world");
    assert_eq!(string_of_range(&chars, 0, 5), "hello");
    assert_eq!(string_of_range(&chars, 6, 11), "world");
    assert_eq!(string_of_range(&chars, 3, 3), "");
}

#[test]
fn decimal_values() {
    for n in [0u32, 1, 9, 10, 11, 99, 100, 101, 12345, 4294967295] {
        let mut out = String::from("n=");
        push_decimal(&mut out, n);
        assert_eq!(out, format!("n={}", n));
    }
}

#[test]
fn whitespace_is_unicode_white_space() {
    for code in 0u32..=0x3100 {
        if let Some(c) = char::from_u32(code) {
            assert_eq!(is_whitespace_char(c), c.is_whitespace());
        }
    }
    assert!(!is_whitespace_char('\u{200b}'));
    assert!(!is_whitespace_char('\u{feff}'));
}

#[test]
fn trim_removes_surrounding_white_space_only() {
    assert_eq!(trim("  foo  "), "foo");
    assert_eq!(trim("\t\nfoo bar\r\n"), "foo bar");
    assert_eq!(trim("foo"), "foo");
    assert_eq!(trim(""), "");
    assert_eq!(trim("   "), "");
    assert_eq!(trim("\u{3000}a b\u{a0}"), "a b");
    for s in ["", " ", " a", "a ", " a b ", "\u{2003}x\u{2028}", "no space"] {
        assert_eq!(trim(s), s.trim());
    }
}

#[test]
fn trim_bounds_within_a_range() {
    let chars = chars_of("ab  cd  ef");
    assert_eq!(trim_bounds(&chars, 2, 8), (4, 6));
    assert_eq!(trim_bounds(&chars, 2, 4), (4, 4));
    assert_eq!(trim_bounds(&chars, 0, 10), (0, 10));
}
