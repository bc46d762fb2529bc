use cargo_task_wasm::text::{catenate, chars_of, ends_with, order, same, strip_suffix, Sign};

#[test]
fn strings_compare_by_code_point() {
    assert_eq!(order("a", "b"), Sign::Less);
    assert_eq!(order("b", "a"), Sign::Greater);
    assert_eq!(order("a", "a"), Sign::Equal);
    assert_eq!(order("", ""), Sign::Equal);
    assert_eq!(order("", "a"), Sign::Less);
    assert_eq!(order("a", ""), Sign::Greater);
    assert_eq!(order("ab", "abc"), Sign::Less);
    assert_eq!(order("B", "a"), Sign::Less);
    assert_eq!(order("z", "é"), Sign::Less);
}

#[test]
fn text_helpers() {
    assert!(same("abc", "abc"));
    assert!(!same("abc", "abd"));
    assert!(!same("abc", "ab"));
    assert_eq!(chars_of("héllo"), vec!['h', 'é', 'l', 'l', 'o']);
    assert_eq!(catenate("ab", "cd"), "abcd");
    assert_eq!(catenate("", ""), "");
    assert!(ends_with("lint.rs", ".rs"));
    assert!(ends_with("lint.rs", ""));
    assert!(ends_with(".rs", ".rs"));
    assert!(!ends_with("rs", ".rs"));
    assert!(!ends_with("lint.rs ", ".rs"));
    assert_eq!(strip_suffix("lint.rs", ".rs"), Some("lint".to_string()));
    assert_eq!(strip_suffix("lint.rs", ""), Some("lint.rs".to_string()));
    assert_eq!(strip_suffix("lint", ".rs"), None);
    assert_eq!(strip_suffix("日本.rs", ".rs"), Some("日本".to_string()));
}
