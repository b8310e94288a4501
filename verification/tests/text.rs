use arctic::text::{
    chars_of, contains, decimal_string, ends_with, eq_ignore_ascii_case, join_first, starts_with,
    str_eq, string_of, trim,
};

fn v(s: &str) -> Vec<char> {
    s.chars().collect()
}

#[test]
fn trimming_and_cases() {
    assert_eq!(string_of(&trim(&v("  a b \t\n"))), "a b");
    assert_eq!(string_of(&trim(&v("\u{3000}x\u{a0}"))), "x");
    assert_eq!(string_of(&trim(&v("   "))), "");
    assert!(eq_ignore_ascii_case(&v("HeLLo"), &v("hello")));
    assert!(!eq_ignore_ascii_case(&v("Ä"), &v("ä")));
    assert!(str_eq("abc", "abc"));
    assert!(!str_eq("abc", "abd"));
    assert_eq!(chars_of("añb"), vec!['a', 'ñ', 'b']);
}

#[test]
fn searching() {
    assert!(contains(&v("hello world"), &v("o w")));
    assert!(contains(&v("abc"), &v("")));
    assert!(!contains(&v("abc"), &v("abcd")));
    assert!(starts_with(&v("lib:x"), &v("lib:")));
    assert!(!starts_with(&v("li"), &v("lib:")));
    assert!(ends_with(&v("a.json"), &v(".json")));
    assert!(!ends_with(&v("a.jso"), &v(".json")));
}

#[test]
fn numbers_and_joins() {
    assert_eq!(decimal_string(0), "0");
    assert_eq!(decimal_string(1_234_567), "1234567");
    assert_eq!(decimal_string(u64::MAX), u64::MAX.to_string());
    let parts = vec!["a".to_string(), "b".to_string(), "c".to_string()];
    assert_eq!(join_first(&parts, 3, ", "), "a, b, c");
    assert_eq!(join_first(&parts, 2, "\n"), "a\nb");
    assert_eq!(join_first(&parts, 0, ", "), "");
}
