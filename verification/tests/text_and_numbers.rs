use containerd_shim_cwasi::decimal::{i32_text, i64_decimal, parse_i32_chars, u64_decimal};
use containerd_shim_cwasi::text::{
    chars_of, contains_str, first_line_containing, nth_word_exec, replace_str, str_equal,
    string_of, trim_chars,
};

fn chars(s: &str) -> Vec<char> {
    s.chars().collect()
}

fn parse(s: &str) -> Option<i32> {
    parse_i32_chars(&chars(s))
}

#[test]
fn replace_removes_every_occurrence() {
    assert_eq!(replace_str("/func_b.wasm", "/", ""), "func_b.wasm");
    assert_eq!(replace_str("a/b/c", "/", "::"), "a::b::c");
}

#[test]
fn replace_scans_left_to_right_without_overlap() {
    assert_eq!(replace_str("aaa", "aa", "b"), "ba");
    assert_eq!(replace_str("abc", "x", "y"), "abc");
    assert_eq!(replace_str("", "x", "y"), "");
}

#[test]
fn contains_finds_inner_text() {
    assert!(contains_str("hello world", "lo w"));
    assert!(!contains_str("abc", "d"));
    assert!(contains_str("", ""));
    assert!(!contains_str("ab", "abc"));
}

#[test]
fn equality_compares_characters() {
    assert!(str_equal("func_b", "func_b"));
    assert!(!str_equal("func_b", "func_a"));
}

#[test]
fn chars_and_strings_convert_both_ways() {
    let v = chars_of("héllo");
    assert_eq!(v, vec!['h', 'é', 'l', 'l', 'o']);
    assert_eq!(string_of(&v), "héllo");
}

#[test]
fn first_line_with_marker_drops_carriage_return() {
    let text = chars("a\r\nstart transfer at 1 2 X\r\nz");
    let line = first_line_containing(&text, &chars("start transfer at")).unwrap();
    assert_eq!(string_of(&line), "start transfer at 1 2 X");
}

#[test]
fn first_line_keeps_unterminated_carriage_return() {
    let text = chars("one\nmark\r");
    let line = first_line_containing(&text, &chars("mark")).unwrap();
    assert_eq!(string_of(&line), "mark\r");
    assert!(first_line_containing(&text, &chars("absent")).is_none());
    assert!(first_line_containing(&chars(""), &chars("")).is_none());
}

#[test]
fn nth_word_skips_white_space() {
    let text = chars("  a  bb\tc d ");
    assert_eq!(string_of(&nth_word_exec(&text, 3).unwrap()), "d");
    assert_eq!(string_of(&nth_word_exec(&text, 0).unwrap()), "a");
    assert!(nth_word_exec(&text, 4).is_none());
}

#[test]
fn trim_removes_outer_white_space() {
    assert_eq!(string_of(&trim_chars(&chars(" \t hi there \n"))), "hi there");
    assert_eq!(string_of(&trim_chars(&chars(" \u{3000}\n"))), "");
    assert_eq!(string_of(&trim_chars(&chars("x"))), "x");
}

#[test]
fn decimal_text_of_integers() {
    assert_eq!(i32_text(-2147483648), "-2147483648");
    assert_eq!(i32_text(0), "0");
    assert_eq!(i32_text(407), "407");
    assert_eq!(string_of(&i64_decimal(i64::MIN)), "-9223372036854775808");
    assert_eq!(string_of(&u64_decimal(u64::MAX)), "18446744073709551615");
}

#[test]
fn parse_reads_signed_decimal() {
    assert_eq!(parse("+12"), Some(12));
    assert_eq!(parse("-0"), Some(0));
    assert_eq!(parse("-2147483648"), Some(i32::MIN));
    assert_eq!(parse("2147483647"), Some(i32::MAX));
}

#[test]
fn parse_rejects_what_is_no_i32() {
    assert_eq!(parse("2147483648"), None);
    assert_eq!(parse("-2147483649"), None);
    assert_eq!(parse("99999999999999999999"), None);
    assert_eq!(parse(""), None);
    assert_eq!(parse("-"), None);
    assert_eq!(parse("1a"), None);
    assert_eq!(parse(" 1"), None);
    assert_eq!(parse("+-1"), None);
}

#[test]
fn parse_reads_back_what_decimal_writes() {
    for x in [i32::MIN, -1, 0, 1, 42, i32::MAX] {
        assert_eq!(parse(&i32_text(x)), Some(x));
    }
}
