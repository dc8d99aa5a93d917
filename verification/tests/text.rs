use relnotes::text::{
    blank, chars_of, eq_ignore_ascii_case, find_char, has_prefix, lines_of, parse_u64, str_eq,
    string_of, trimmed, white_space,
};

fn chars(s: &str) -> Vec<char> {
    s.chars().collect()
}

fn text(v: &Vec<char>) -> String {
    v.iter().collect()
}

#[test]
fn chars_of_keeps_every_character() {
    assert_eq!(chars_of("aé\n"), vec!['a', 'é', '\n']);
    assert_eq!(chars_of(""), Vec::<char>::new());
}

#[test]
fn str_eq_compares_exactly() {
    assert!(str_eq("T-lang", "T-lang"));
    assert!(!str_eq("T-lang", "t-lang"));
    assert!(!str_eq("T-lang", "T-lan"));
    assert!(!str_eq("T-lan", "T-lang"));
    assert!(str_eq("", ""));
}

#[test]
fn string_of_copies_the_range() {
    let v = chars("hello world");
    assert_eq!(string_of(&v, 6, 11), "world");
    assert_eq!(string_of(&v, 3, 3), "");
    assert_eq!(string_of(&v, 0, 11), "hello world");
}

#[test]
fn white_space_follows_unicode() {
    for c in [' ', '\t', '\n', '\r', '\u{0B}', '\u{0C}', '\u{85}', '\u{A0}', '\u{1680}', '\u{2000}',
        '\u{200A}', '\u{2028}', '\u{2029}', '\u{202F}', '\u{205F}', '\u{3000}']
    {
        assert!(white_space(c));
        assert!(c.is_whitespace());
    }
    for c in ['a', '#', '\u{200B}', '\u{180E}', '\u{FEFF}', '0'] {
        assert!(!white_space(c));
        assert!(!c.is_whitespace());
    }
}

#[test]
fn white_space_agrees_with_std_everywhere() {
    let mut n: u32 = 0;
    while n <= 0x10FFFF {
        if let Some(c) = char::from_u32(n) {
            assert_eq!(white_space(c), c.is_whitespace());
        }
        n += 1;
    }
}

#[test]
fn blank_lines_are_recognised() {
    assert!(blank(&chars("")));
    assert!(blank(&chars(" \t\r")));
    assert!(!blank(&chars("  x ")));
}

#[test]
fn trimmed_strips_both_ends() {
    assert_eq!(trimmed(&chars("#   Library \t"), 1), "Library");
    assert_eq!(trimmed(&chars("# "), 2), "");
    assert_eq!(trimmed(&chars("#    "), 2), "");
    assert_eq!(trimmed(&chars("a b"), 0), "a b");
    assert_eq!(trimmed(&chars("  a  b  "), 0), "  a  b  ".trim());
}

#[test]
fn prefix_test_is_exact() {
    assert!(has_prefix(&chars("Tracking issue"), &chars("Track")));
    assert!(has_prefix(&chars("Track"), &chars("Track")));
    assert!(!has_prefix(&chars("Trac"), &chars("Track")));
    assert!(!has_prefix(&chars("tracking"), &chars("Track")));
    assert!(has_prefix(&chars("x"), &chars("")));
}

#[test]
fn find_char_gives_first_position_or_length() {
    let v = chars("42: a: b");
    assert_eq!(find_char(&v, 0, ':'), 2);
    assert_eq!(find_char(&v, 3, ':'), 5);
    assert_eq!(find_char(&v, 6, ':'), 8);
    assert_eq!(find_char(&v, 8, ':'), 8);
}

#[test]
fn ascii_case_is_ignored_and_nothing_else() {
    assert!(eq_ignore_ascii_case(&chars("Library"), &chars("lIBRARY")));
    assert!(eq_ignore_ascii_case(&chars("Stabilized APIs"), &chars("stabilized apis")));
    assert!(!eq_ignore_ascii_case(&chars("Library"), &chars("Libraries")));
    assert!(!eq_ignore_ascii_case(&chars("É"), &chars("é")));
    assert!(!eq_ignore_ascii_case(&chars("@"), &chars("`")));
    assert!(!eq_ignore_ascii_case(&chars("["), &chars("{")));
    assert_eq!(
        eq_ignore_ascii_case(&chars("Kelvin K"), &chars("kelvin \u{212A}")),
        "Kelvin K".eq_ignore_ascii_case("kelvin \u{212A}")
    );
}

#[test]
fn unsigned_numbers_are_read_like_std() {
    for s in ["0", "42", "0042", "+7", "18446744073709551615", "18446744073709551616", "", "+",
        "-1", "4 2", "12a", "99999999999999999999999", "+ 1", "١٢"]
    {
        let v = chars(s);
        assert_eq!(parse_u64(&v, 0, v.len()), s.parse::<u64>().ok(), "{:?}", s);
    }
    let v = chars("#123: x");
    assert_eq!(parse_u64(&v, 1, 4), Some(123));
    assert_eq!(parse_u64(&v, 1, 5), None);
}

#[test]
fn lines_end_at_lf_or_crlf() {
    for s in ["", "a", "a\n", "a\nb", "a\r\nb\r\n", "\n", "\n\n", "a\r", "a\r\n", "\r\n", "a\n\nb",
        "foo\nbar\n\r\nbaz\r", "x\r\r\ny"]
    {
        let got: Vec<String> = lines_of(&chars(s)).iter().map(text).collect();
        let expected: Vec<String> = s.lines().map(|l| l.to_string()).collect();
        assert_eq!(got, expected, "{:?}", s);
    }
}
