use thunderclap::text::{
    append_str, chars_of, is_whitespace, line_bounds, parse_usize, push_decimal, push_spaces,
    signed_to_string, str_eq, string_of_chars, string_of_range, trim_bounds, unsigned_to_string,
};
use thunderclap::tokens::split_words;

#[test]
fn whitespace_agrees_with_std() {
    for code in 0u32..0x3100 {
        if let Some(c) = char::from_u32(code) {
            assert_eq!(is_whitespace(c), c.is_whitespace(), "char {code:#x}");
        }
    }
    assert!(is_whitespace('\u{3000}'));
    assert!(!is_whitespace('x'));
}

#[test]
fn decimal_text_of_numbers() {
    assert_eq!(unsigned_to_string(0), "0");
    assert_eq!(unsigned_to_string(1234567890), "1234567890");
    assert_eq!(unsigned_to_string(u128::MAX), u128::MAX.to_string());
    assert_eq!(signed_to_string(-17), "-17");
    assert_eq!(signed_to_string(0), "0");
    assert_eq!(signed_to_string(i128::MIN), i128::MIN.to_string());
    let mut s = String::from("n=");
    push_decimal(&mut s, 42);
    assert_eq!(s, "n=42");
}

#[test]
fn parse_usize_agrees_with_std() {
    let samples = [
        "0", "7", "+7", "12345", "", "+", "-1", "1.0", " 1", "18446744073709551615",
        "18446744073709551616", "00012", "abc", "4294967296",
    ];
    for t in samples {
        let v = chars_of(t);
        assert_eq!(parse_usize(&v, 0, v.len()), t.parse::<usize>().ok(), "text {t:?}");
    }
    let v = chars_of("x[12]");
    assert_eq!(parse_usize(&v, 2, 4), Some(12));
}

#[test]
fn trim_matches_std() {
    for t in ["", "   ", "  a b  ", "\tline\r\n", "x", "\u{3000}wide\u{3000}"] {
        let v = chars_of(t);
        let (a, b) = trim_bounds(&v);
        assert_eq!(string_of_range(&v, a, b), t.trim());
    }
}

#[test]
fn lines_match_std() {
    for t in ["", "a", "a\n", "a\nb", "\n\nx\r\ny\n", "one\r\ntwo\r\n", "\r"] {
        let v = chars_of(t);
        let got: Vec<String> = line_bounds(&v)
            .iter()
            .map(|(a, b)| string_of_range(&v, *a, *b))
            .collect();
        let want: Vec<String> = t.lines().map(|l| l.to_string()).collect();
        assert_eq!(got, want, "text {t:?}");
    }
}

#[test]
fn string_helpers() {
    assert!(str_eq("abc", "abc"));
    assert!(!str_eq("abc", "abd"));
    assert!(!str_eq("ab", "abc"));
    let mut s = String::from("ab");
    append_str(&mut s, "cd");
    assert_eq!(s, "abcd");
    push_spaces(&mut s, 3);
    assert_eq!(s, "abcd   ");
    assert_eq!(string_of_chars(&vec!['x', 'y']), "xy");
    assert_eq!(chars_of("héllo"), vec!['h', 'é', 'l', 'l', 'o']);
}

fn words(l: &str) -> Vec<(String, bool)> {
    split_words(l)
}

fn w(s: &str, subst: bool) -> (String, bool) {
    (s.to_string(), subst)
}

#[test]
fn words_split_on_whitespace() {
    assert_eq!(words("  stack_push  1   2 "), vec![w("stack_push", true), w("1", true), w("2", true)]);
    assert_eq!(words(""), vec![]);
    assert_eq!(words("   "), vec![]);
}

#[test]
fn words_with_quotes() {
    assert_eq!(
        words(r#"echo "a b" 'c ${x}' d"#),
        vec![w("echo", true), w("a b", true), w("c ${x}", false), w("d", true)]
    );
    // a quote inside a word is an ordinary character
    assert_eq!(words("a\"b"), vec![w("a\"b", true)]);
    // an unclosed quote runs to the end of the line
    assert_eq!(words("'open ended"), vec![w("open ended", false)]);
    assert_eq!(words("\"open ended"), vec![w("open ended", true)]);
}

#[test]
fn words_with_backslash() {
    // a backslash takes the rest of the line literally
    assert_eq!(words(r"a\ b c"), vec![w("a b c", true)]);
    assert_eq!(words(r#""x\" y" z"#), vec![w("x\" y\" z", true)]);
}
