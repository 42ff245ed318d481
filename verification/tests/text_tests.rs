use dir_scanner::text::{
    i32_to_string, join, lines, pad_right, parse_unsigned, str_eq, trim, trim_char, u64_to_string,
    words, to_ascii_lowercase, starts_with, contains,
};

#[test]
fn parse_unsigned_accepts_digits_and_plus() {
    assert_eq!(parse_unsigned("0", u64::MAX), Some(0));
    assert_eq!(parse_unsigned("17179869184", u64::MAX), Some(17179869184));
    assert_eq!(parse_unsigned("+42", u64::MAX), Some(42));
    assert_eq!(parse_unsigned("18446744073709551615", u64::MAX), Some(u64::MAX));
}

#[test]
fn parse_unsigned_rejects_like_str_parse() {
    for s in ["", "+", "-1", " 1", "1 ", "1.5", "—", "12a", "18446744073709551616"] {
        assert_eq!(parse_unsigned(s, u64::MAX), s.parse::<u64>().ok(), "{s:?}");
    }
    assert_eq!(parse_unsigned("256", 255), None);
    assert_eq!(parse_unsigned("255", 255), Some(255));
}

#[test]
fn lines_match_str_lines() {
    for text in ["", "a", "a\n", "a\r\nb", "a\n\nb\n", "\n", "x\r", "x\ry\r\n", "one\ntwo\r\nthree"] {
        let expected: Vec<String> = text.lines().map(|l| l.to_string()).collect();
        assert_eq!(lines(text), expected, "{text:?}");
    }
}

#[test]
fn trim_char_matches_trim_matches() {
    for s in ["\"a\"", "\"\"\"", "", "//x/y//", "a", "\"a"] {
        assert_eq!(trim_char(s, '"'), s.trim_matches('"'));
        assert_eq!(trim_char(s, '/'), s.trim_matches('/'));
    }
}

#[test]
fn small_text_helpers() {
    assert_eq!(i32_to_string(-17), "-17");
    assert_eq!(i32_to_string(i32::MIN), i32::MIN.to_string());
    assert_eq!(i32_to_string(0), "0");
    assert_eq!(u64_to_string(1234567890), "1234567890");
    assert!(str_eq("abc", "abc"));
    assert!(!str_eq("abc", "abd"));
    assert_eq!(trim("  a b \t\n"), "a b");
    assert_eq!(pad_right("GET", 6), "GET   ");
    assert_eq!(pad_right("OPTIONS", 6), "OPTIONS");
    assert_eq!(join(&vec!["a".to_string(), "b".to_string()], ", "), "a, b");
    assert_eq!(words(" GET  /x HTTP/1.1\r\n"), vec!["GET", "/x", "HTTP/1.1"]);
    assert_eq!(to_ascii_lowercase("Connection: Close"), "connection: close");
    assert!(starts_with("connection: close", "connection:"));
    assert!(contains("keep-alive, close", "close"));
}
