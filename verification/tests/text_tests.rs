use nekonomicon::text::{
    capture, compare, compare_ignore_case, contains, ends_with, join, length, lower, pad_left,
    pad_right, repeat, replace, replace_regex, reverse, slice, split, starts_with, trim, trim_end,
    trim_start, upper,
};

#[test]
fn test_concat() {
    assert_eq!(nekonomicon::text::concat(&["hello", " ", "world"]), "hello world");
    assert_eq!(nekonomicon::text::concat(&["a", "b", "c"]), "abc");
}

#[test]
fn lib_test_length() {
    assert_eq!(length("hello"), 5);
    assert_eq!(length(""), 0);
    assert_eq!(length("こんにちは"), 5); // Unicode characters
}

#[test]
fn test_upper_lower() {
    assert_eq!(upper("hello"), "HELLO");
    assert_eq!(lower("HELLO"), "hello");
    assert_eq!(upper("Hello World"), "HELLO WORLD");
}

#[test]
fn test_split() {
    let result = split("a,b,c", ",");
    assert_eq!(result, vec!["a", "b", "c"]);

    let result = split("hello world", " ");
    assert_eq!(result, vec!["hello", "world"]);
}

#[test]
fn test_join() {
    let parts = vec!["a".to_string(), "b".to_string(), "c".to_string()];
    assert_eq!(join(&parts, ", "), "a, b, c");
    assert_eq!(join(&parts, ""), "abc");
}

#[test]
fn test_matches() {
    assert!(nekonomicon::text::matches("hello123", r"hello\d+").unwrap());
    assert!(!nekonomicon::text::matches("hello", r"hello\d+").unwrap());
    assert!(nekonomicon::text::matches("test@example.com", r"^[\w\.-]+@[\w\.-]+\.\w+$").unwrap());
}

#[test]
fn test_replace() {
    assert_eq!(replace("hello world", "world", "rust"), "hello rust");
    assert_eq!(replace("aaa", "a", "b"), "bbb");
}

#[test]
fn test_replace_regex() {
    let result = replace_regex("hello123world456", r"\d+", "X").unwrap();
    assert_eq!(result, "helloXworldX");
}

#[test]
fn test_capture() {
    let result = capture("ABC-123", r"([A-Z]+)-(\d+)").unwrap();
    assert_eq!(result.len(), 3); // Full match + 2 groups
    assert_eq!(result[0], "ABC-123");
    assert_eq!(result[1], "ABC");
    assert_eq!(result[2], "123");
}

#[test]
fn test_slice() {
    assert_eq!(slice("hello", 0, 4).unwrap(), "hello");
    assert_eq!(slice("hello", 1, 3).unwrap(), "ell");
    assert_eq!(slice("hello", 0, 0).unwrap(), "h");
    assert!(slice("hello", 10, 20).is_err());
}

#[test]
fn test_trim() {
    assert_eq!(trim("  hello  "), "hello");
    assert_eq!(trim_start("  hello  "), "hello  ");
    assert_eq!(trim_end("  hello  "), "  hello");
}

#[test]
fn test_starts_ends_contains() {
    assert!(starts_with("hello world", "hello"));
    assert!(!starts_with("hello world", "world"));

    assert!(ends_with("hello world", "world"));
    assert!(!ends_with("hello world", "hello"));

    assert!(contains("hello world", "lo wo"));
    assert!(!contains("hello world", "xyz"));
}

#[test]
fn test_repeat() {
    assert_eq!(repeat("ab", 3), "ababab");
    assert_eq!(repeat("x", 5), "xxxxx");
    assert_eq!(repeat("test", 0), "");
}

#[test]
fn test_reverse() {
    assert_eq!(reverse("hello"), "olleh");
    assert_eq!(reverse("abc"), "cba");
    assert_eq!(reverse(""), "");
}

#[test]
fn test_padding() {
    assert_eq!(pad_left("5", 3, '0'), "005");
    assert_eq!(pad_right("5", 3, '0'), "500");
    assert_eq!(pad_left("hello", 3, '0'), "hello"); // No padding needed

    // Unicode character test
    assert_eq!(pad_left("こ", 3, '0'), "00こ"); // One Unicode char, pad to 3
    assert_eq!(pad_right("こ", 3, '0'), "こ00"); // One Unicode char, pad to 3
}

#[test]
fn test_compare() {
    assert!(compare("hello", "hello"));
    assert!(!compare("hello", "Hello"));

    assert!(compare_ignore_case("hello", "HELLO"));
    assert!(compare_ignore_case("Hello", "hello"));
}

#[test]
fn invalid_patterns_are_rejected() {
    assert!(nekonomicon::text::matches("abc", r"[unclosed").is_err());
    assert!(replace_regex("abc", r"(", "x").is_err());
    assert!(capture("abc", r"(").is_err());
}

#[test]
fn capture_without_a_match_is_empty() {
    let result = capture("no digits here", r"(\d+)").unwrap();
    assert_eq!(result.len(), 0);
}

#[test]
fn split_by_empty_delimiter_surrounds_every_character() {
    assert_eq!(split("abc", ""), vec!["", "a", "b", "c", ""]);
}

#[test]
fn split_keeps_empty_parts() {
    assert_eq!(split("a,,b", ","), vec!["a", "", "b"]);
    assert_eq!(split(",a,", ","), vec!["", "a", ""]);
}

#[test]
fn trim_understands_unicode_whitespace() {
    assert_eq!(trim("\u{00A0}hello\u{00A0}"), "hello");
}

#[test]
fn text_error_messages_carry_their_codes() {
    let e = slice("hello", 10, 20).unwrap_err();
    assert_eq!(e.message(), "TEXT-002: Index out of bounds");
    let e = nekonomicon::text::matches("abc", r"[unclosed").unwrap_err();
    assert!(e.message().starts_with("TEXT-001: Invalid regex pattern: [unclosed"));
}
