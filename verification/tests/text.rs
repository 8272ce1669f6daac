use chess_notifier::order::{lex_le_chars, sort_strings};
use chess_notifier::summary::diff_summaries;
use chess_notifier::text::{
    chars_of, decimal_chars, join_chars, parse_u64_chars, split_lines, strip_suffix_chars,
    to_ascii_lower, trim_chars, white_space,
};

fn cs(s: &str) -> Vec<char> {
    s.chars().collect()
}

fn st(v: &[char]) -> String {
    v.iter().collect()
}

#[test]
fn decimal_and_parse() {
    assert_eq!(st(&decimal_chars(0)), "0");
    assert_eq!(st(&decimal_chars(1234567890)), "1234567890");
    assert_eq!(st(&decimal_chars(u64::MAX)), "18446744073709551615");
    assert_eq!(parse_u64_chars(&cs("42")), Some(42));
    assert_eq!(parse_u64_chars(&cs("+42")), Some(42));
    assert_eq!(parse_u64_chars(&cs("007")), Some(7));
    assert_eq!(parse_u64_chars(&cs("18446744073709551615")), Some(u64::MAX));
    assert_eq!(parse_u64_chars(&cs("18446744073709551616")), None);
    assert_eq!(parse_u64_chars(&cs("")), None);
    assert_eq!(parse_u64_chars(&cs("+")), None);
    assert_eq!(parse_u64_chars(&cs("4 2")), None);
    assert_eq!(parse_u64_chars(&cs("-1")), None);
    for n in [0u64, 9, 10, 99, 100, 65535, u64::MAX] {
        assert_eq!(parse_u64_chars(&decimal_chars(n)), Some(n));
    }
}

#[test]
fn lines_like_str_lines() {
    for text in ["", "a", "a\n", "a\nb", "a\r\nb\r\n", "\n\n", "x\r", "a\n\r\nb\r"] {
        let got: Vec<String> = split_lines(&cs(text)).iter().map(|l| st(l)).collect();
        let want: Vec<String> = text.lines().map(String::from).collect();
        assert_eq!(got, want, "lines of {:?}", text);
    }
}

#[test]
fn trim_and_lower_like_str() {
    for text in ["", "  a b  ", "\t\nx\u{3000}", "   ", "A\u{a0}"] {
        assert_eq!(st(&trim_chars(&cs(text))), text.trim());
        assert_eq!(st(&to_ascii_lower(&cs(text))), text.to_ascii_lowercase());
    }
    assert_eq!(st(&to_ascii_lower(&cs("StockFISH Ä"))), "stockfish Ä");
    assert!(white_space('\u{2028}'));
    assert!(!white_space('x'));
}

#[test]
fn suffix_and_join() {
    assert_eq!(strip_suffix_chars(&cs("lunar64-bit"), &cs("64-bit")).map(|v| st(&v)), Some("lunar".to_string()));
    assert_eq!(strip_suffix_chars(&cs("lunar"), &cs("64-bit")), None);
    assert_eq!(st(&join_chars(&cs(", "), &vec![cs("a"), cs("b"), cs("c")])), "a, b, c");
    assert_eq!(st(&join_chars(&cs(", "), &vec![])), "");
    assert_eq!(chars_of("héllo"), cs("héllo"));
}

#[test]
fn sorting_is_lexicographic() {
    assert!(lex_le_chars(&cs("Lc0"), &cs("Lunar")));
    assert!(lex_le_chars(&cs("a"), &cs("ab")));
    assert!(!lex_le_chars(&cs("b"), &cs("a")));
    let sorted: Vec<String> = sort_strings(vec![cs("b"), cs("B"), cs("a"), cs("b")]).iter().map(|v| st(v)).collect();
    assert_eq!(sorted, vec!["B", "a", "b", "b"]);
}

#[test]
fn diff_of_summaries() {
    assert_eq!(st(&diff_summaries(&cs("a\nb"), &cs("a\nb"))), "No changes");
    assert_eq!(st(&diff_summaries(&cs("a\nc"), &cs("b\na"))), "-c\n+b");
    assert_eq!(st(&diff_summaries(&cs(""), &cs("x"))), "+x");
}

#[test]
fn diff_swapped_swaps_signs() {
    assert_eq!(st(&diff_summaries(&cs("a\nc"), &cs("b\na"))), "-c\n+b");
    assert_eq!(st(&diff_summaries(&cs("b\na"), &cs("a\nc"))), "-b\n+c");
    assert_eq!(st(&diff_summaries(&cs("a\nb"), &cs("b\na\nb"))), "No changes");
}
