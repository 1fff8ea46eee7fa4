use dns_batch::text::{
    chars_of, is_space, push_decimal, same_chars, string_of, strip_root_dot,
    to_ascii_upper, trim_chars, upper_chars,
};

fn chars(s: &str) -> Vec<char> {
    s.chars().collect()
}

#[test]
fn chars_of_gives_the_characters_in_order() {
    assert_eq!(chars_of("a.b"), vec!['a', '.', 'b']);
    assert_eq!(chars_of(""), Vec::<char>::new());
    assert_eq!(chars_of("é1"), vec!['é', '1']);
}

#[test]
fn string_of_builds_the_string() {
    assert_eq!(string_of(&vec!['a', 'b', 'c']), "abc");
    assert_eq!(string_of(&Vec::new()), "");
    assert_eq!(string_of(&chars_of("dns.google")), "dns.google");
}

#[test]
fn whitespace_is_what_unicode_says() {
    for c in ['\t', '\n', '\u{0B}', '\u{0C}', '\r', ' ', '\u{85}', '\u{A0}', '\u{1680}',
        '\u{2000}', '\u{200A}', '\u{2028}', '\u{2029}', '\u{202F}', '\u{205F}', '\u{3000}']
    {
        assert!(is_space(c), "{:?}", c);
        assert!(c.is_whitespace());
    }
    for c in ['a', '0', '.', '\u{200B}', '\u{08}', '\u{0E}', '\u{1F}', '!', '\u{2007}'] {
        assert_eq!(is_space(c), c.is_whitespace(), "{:?}", c);
    }
}

#[test]
fn whitespace_agrees_with_std_on_every_character() {
    let mut u: u32 = 0;
    while u <= 0x10FFFF {
        if let Some(c) = char::from_u32(u) {
            assert_eq!(is_space(c), c.is_whitespace(), "U+{:04X}", u);
        }
        u += 1;
    }
}

#[test]
fn trim_removes_whitespace_on_both_sides_only() {
    assert_eq!(trim_chars(&chars("  a b \t\n")), chars("a b"));
    assert_eq!(trim_chars(&chars("a")), chars("a"));
    assert_eq!(trim_chars(&chars("")), chars(""));
    assert_eq!(trim_chars(&chars(" \u{3000}\r\n")), chars(""));
    assert_eq!(trim_chars(&chars("\u{A0}8.8.8.8\u{2028}")), chars("8.8.8.8"));
}

#[test]
fn trim_agrees_with_std() {
    for s in ["", " ", "x", " x", "x ", "  x  y  ", "\t\tz\n", "\u{85}q\u{1680}", "a\u{200B} "] {
        assert_eq!(string_of(&trim_chars(&chars(s))), s.trim(), "{:?}", s);
    }
}

#[test]
fn root_dot_is_stripped_once() {
    assert_eq!(strip_root_dot(&chars("dns.google.")), chars("dns.google"));
    assert_eq!(strip_root_dot(&chars("dns.google")), chars("dns.google"));
    assert_eq!(strip_root_dot(&chars("a..")), chars("a."));
    assert_eq!(strip_root_dot(&chars(".")), chars(""));
    assert_eq!(strip_root_dot(&chars("")), chars(""));
}

#[test]
fn upper_case_touches_ascii_letters_only() {
    assert_eq!(to_ascii_upper('a'), 'A');
    assert_eq!(to_ascii_upper('z'), 'Z');
    assert_eq!(to_ascii_upper('A'), 'A');
    assert_eq!(to_ascii_upper('9'), '9');
    assert_eq!(to_ascii_upper('é'), 'é');
    assert_eq!(to_ascii_upper('`'), '`');
    assert_eq!(to_ascii_upper('{'), '{');
    assert_eq!(upper_chars(&chars("cName9-é")), chars("CNAME9-é"));
    for s in ["txt", "TxT", "aaaa", "", "soa!"] {
        assert_eq!(string_of(&upper_chars(&chars(s))), s.to_ascii_uppercase());
    }
}

#[test]
fn decimal_numerals_have_no_leading_zeros() {
    for (n, text) in [(0u64, "0"), (7, "7"), (10, "10"), (99, "99"), (100, "100"), (255, "255"),
        (2048, "2048"), (u64::MAX, "18446744073709551615")]
    {
        let mut out: Vec<char> = Vec::new();
        push_decimal(&mut out, n);
        assert_eq!(string_of(&out), text);
    }
}

#[test]
fn decimal_is_appended_to_what_is_there() {
    let mut out = chars("n=");
    push_decimal(&mut out, 42);
    push_decimal(&mut out, 0);
    assert_eq!(out, chars("n=420"));
}

#[test]
fn same_chars_compares_whole_sequences() {
    assert!(same_chars(&chars("abc"), &chars("abc")));
    assert!(same_chars(&chars(""), &chars("")));
    assert!(!same_chars(&chars("abc"), &chars("abd")));
    assert!(!same_chars(&chars("abc"), &chars("ab")));
    assert!(!same_chars(&chars("ab"), &chars("abc")));
}
