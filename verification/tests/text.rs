use coordsfinder::number::{
    parse_i32, parse_i8, parse_positive_usize, parse_u8, push_int, push_nat,
};
use coordsfinder::text::{
    ascii_lower_char, chars_of, is_whitespace, quoted, same_text, split, split_once,
    strip_enclosing, to_ascii_lowercase, trim, words,
};

#[test]
fn white_space_is_that_of_unicode() {
    for n in 0..=0x10ffff_u32 {
        if let Some(c) = char::from_u32(n) {
            assert_eq!(is_whitespace(c), c.is_whitespace(), "{n:x}");
            assert_eq!(ascii_lower_char(c), c.to_ascii_lowercase());
        }
    }
}

#[test]
fn trims_and_splits_as_strings_do() {
    let samples = ["", " ", "a", "  a b ", "\u{a0}x\u{2003}", "\ta,b,,c\r", ",", "a=b=c", "\u{e4} \u{f6}"];
    for s in samples {
        assert_eq!(trim(s), s.trim());
        assert_eq!(split(s, ','), s.split(',').collect::<Vec<_>>());
        assert_eq!(split_once(s, '='), s.split_once('='));
        assert_eq!(words(s), s.split_whitespace().collect::<Vec<_>>());
        assert_eq!(chars_of(s), s.chars().collect::<Vec<_>>());
        assert_eq!(to_ascii_lowercase(s), s.to_ascii_lowercase());
    }
    assert_eq!(to_ascii_lowercase("A\u{c4}Zz"), "a\u{c4}zz");
    assert_eq!(strip_enclosing("(a)", '(', ')'), Some("a"));
    assert_eq!(strip_enclosing("()", '(', ')'), Some(""));
    assert_eq!(strip_enclosing("(", '(', ')'), None);
    assert_eq!(strip_enclosing("(a", '(', ')'), None);
    assert!(same_text("ab", "ab"));
    assert!(!same_text("ab", "aB"));
    assert_eq!(quoted("got '", "x"), "got 'x'");
}

#[test]
fn reads_numbers_as_std_does() {
    let samples = [
        "0", "-0", "+0", "007", "127", "128", "-128", "-129", "255", "256", "2147483647",
        "2147483648", "-2147483648", "-2147483649", "", "+", "-", "+-1", "--1", "1_0", " 1",
        "1 ", "0x1", "\u{661}", "18446744073709551615", "18446744073709551616",
        "99999999999999999999999999999999999999999999", "00000000000000000000000000000000000001",
    ];
    for s in samples {
        assert_eq!(parse_i32(s), s.parse::<i32>().ok(), "{s}");
        assert_eq!(parse_i8(s), s.parse::<i8>().ok(), "{s}");
        assert_eq!(parse_u8(s), s.parse::<u8>().ok(), "{s}");
        assert_eq!(
            parse_positive_usize(s),
            s.parse::<std::num::NonZeroUsize>().ok().map(|n| n.get()),
            "{s}"
        );
    }
}

#[test]
fn writes_numbers_as_std_does() {
    for n in [0, 1, 9, 10, 99, 100, 12345, u64::MAX] {
        let mut text = String::from("n=");
        push_nat(&mut text, n);
        assert_eq!(text, format!("n={n}"));
    }
    for n in [0, -1, 7, -10, i64::MAX, i64::MIN] {
        let mut text = String::new();
        push_int(&mut text, n);
        assert_eq!(text, n.to_string());
    }
}
