use huturs_core::{
    contains, ends_with, is_blank, is_empty_str, is_not_empty, join, length, repeat, replace,
    split, starts_with, substring, to_lowercase, to_uppercase, trim,
};

#[test]
fn search() {
    assert!(contains("hello world", "lo w"));
    assert!(contains("hello", ""));
    assert!(!contains("hello", "hello!"));
    assert!(starts_with("hello", "he"));
    assert!(!starts_with("hello", "lo"));
    assert!(ends_with("hello", "lo"));
    assert!(!ends_with("lo", "hello"));
}

#[test]
fn lengths_and_emptiness() {
    assert_eq!(length("héllo"), 6);
    assert_eq!(length(""), 0);
    assert!(is_empty_str(""));
    assert!(is_not_empty(" "));
}

#[test]
fn replacing() {
    assert_eq!(replace("aaa", "a", "b"), "bbb");
    assert_eq!(replace("aaaa", "aa", "b"), "bb");
    assert_eq!(replace("abc", "", "x"), "xaxbxcx");
    assert_eq!(replace("abc", "z", "x"), "abc");
    assert_eq!(replace("one two", " ", ""), "onetwo");
}

#[test]
fn splitting() {
    assert_eq!(split("a,b,,c", ","), vec!["a", "b", "", "c"]);
    assert_eq!(split("abc", ""), vec!["", "a", "b", "c", ""]);
    assert_eq!(split("", ","), vec![""]);
    assert_eq!(split("a--b--", "--"), vec!["a", "b", ""]);
}

#[test]
fn joining_and_repeating() {
    assert_eq!(join(&["a", "b", "c"], "-"), "a-b-c");
    assert_eq!(join(&["only"], ", "), "only");
    assert_eq!(join(&[], "-"), "");
    assert_eq!(repeat("ab", 3), "ababab");
    assert_eq!(repeat("ab", 0), "");
}

#[test]
fn byte_substrings() {
    assert_eq!(substring("hello world", 6, 11), "world");
    assert_eq!(substring("héllo", 1, 3), "é");
    assert_eq!(substring("abc", 1, 1), "");
}

#[test]
fn unicode_white_space_and_case() {
    assert_eq!(trim("\u{3000}x y\u{a0}\n"), "x y");
    assert!(is_blank("\u{2003}\t "));
    assert!(!is_blank(" x "));
    assert_eq!(to_uppercase("straße"), "STRASSE");
    assert_eq!(to_lowercase("ÀÉ"), "àé");
}
