use v_kernel::text::{
    chars_of, has_prefix_at, is_whitespace_char, lines_of, push_decimal, skip_repeated_prefix,
    str_eq, string_of, trim_range,
};

fn trimmed(s: &str) -> String {
    let chars = chars_of(s);
    let (a, b) = trim_range(&chars);
    string_of(&chars, a, b)
}

#[test]
fn chars_and_back() {
    let chars = chars_of("a\u{e9}\u{2014}z");
    assert_eq!(chars, vec!['a', '\u{e9}', '\u{2014}', 'z']);
    assert_eq!(string_of(&chars, 0, 4), "a\u{e9}\u{2014}z");
    assert_eq!(string_of(&chars, 1, 3), "\u{e9}\u{2014}");
    assert_eq!(string_of(&chars, 2, 2), "");
    assert!(chars_of("").is_empty());
}

#[test]
fn whitespace_is_the_unicode_property() {
    for n in 0..=0x10FFFFu32 {
        if let Some(c) = char::from_u32(n) {
            assert_eq!(is_whitespace_char(c), c.is_whitespace(), "U+{:04X}", n);
        }
    }
}

#[test]
fn trim_agrees_with_std() {
    let samples = [
        "",
        " ",
        "abc",
        "  abc",
        "abc  ",
        "\t abc def \r\n",
        "\u{a0}x\u{3000}",
        " \u{2003} ",
        "x",
        " a b ",
    ];
    for s in samples {
        assert_eq!(trimmed(s), s.trim(), "{:?}", s);
    }
}

#[test]
fn trim_range_gives_bounds() {
    let chars = chars_of("  fn f()  ");
    assert_eq!(trim_range(&chars), (2, 8));
    let blank = chars_of(" \t ");
    let (a, b) = trim_range(&blank);
    assert_eq!(a, b);
}

#[test]
fn prefix_at_an_offset() {
    let chars = chars_of("pub fn f()");
    assert!(has_prefix_at(&chars, 0, chars.len(), "pub "));
    assert!(has_prefix_at(&chars, 4, chars.len(), "fn "));
    assert!(!has_prefix_at(&chars, 0, chars.len(), "fn "));
    assert!(has_prefix_at(&chars, 4, chars.len(), ""));
    assert!(!has_prefix_at(&chars, 4, 6, "fn "));
    assert!(has_prefix_at(&chars, 4, 7, "fn "));
    assert!(!has_prefix_at(&chars, 10, 10, "x"));
}

#[test]
fn repeated_prefix_agrees_with_std() {
    let cases = [
        ("pub pub fn f", "pub "),
        ("pub fn f", "pub "),
        ("fn f", "pub "),
        ("pub ", "pub "),
        ("pub", "pub "),
        ("ababab", "ab"),
        ("aaa", "a"),
        ("abc", ""),
        ("", "x"),
    ];
    for (s, pat) in cases {
        let chars = chars_of(s);
        let k = skip_repeated_prefix(&chars, 0, chars.len(), pat);
        assert_eq!(string_of(&chars, k, chars.len()), s.trim_start_matches(pat), "{:?} {:?}", s, pat);
    }
}

#[test]
fn lines_agree_with_std() {
    let samples = [
        "",
        "\n",
        "a",
        "a\n",
        "a\nb",
        "a\n\nb\n",
        "a\r\nb\r\n",
        "a\r",
        "a\r\n",
        "a\r\r\n",
        "\r\n\r\n",
        "x\n\ny\n\n",
        "fn f() {\n\treturn\n}",
        "\rabc",
        "one\rtwo\nthree",
    ];
    for s in samples {
        let expected: Vec<String> = s.lines().map(|l| l.to_string()).collect();
        assert_eq!(lines_of(s), expected, "{:?}", s);
    }
}

#[test]
fn lines_exact_values() {
    assert_eq!(lines_of("a\r\nb\n\nc"), vec!["a", "b", "", "c"]);
    assert!(lines_of("").is_empty());
    assert_eq!(lines_of("\n"), vec![""]);
    assert_eq!(lines_of("tail\r"), vec!["tail\r"]);
}

#[test]
fn decimal_agrees_with_format() {
    for n in [0u64, 1, 9, 10, 11, 99, 100, 101, 65535, 4294967295, u64::MAX] {
        let mut out = String::from("n=");
        push_decimal(&mut out, n);
        assert_eq!(out, format!("n={}", n));
    }
}

#[test]
fn string_equality() {
    assert!(str_eq("execute_request", "execute_request"));
    assert!(!str_eq("execute_request", "execute_reques"));
    assert!(!str_eq("a", "b"));
    assert!(str_eq("", ""));
    assert!(!str_eq("", "a"));
}
