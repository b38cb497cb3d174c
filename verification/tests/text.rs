use cargo_geiger::text::{
    first_field_of, last_field_of, last_occurrence_of, occurs_at_exec, str_equals,
    text_after_last,
};

#[test]
fn fields_around_separator() {
    assert_eq!(first_field_of("git+https://x", '+'), "git");
    assert_eq!(last_field_of("git+https://x", '+'), "https://x");
    assert_eq!(first_field_of("plain", '+'), "plain");
    assert_eq!(last_field_of("plain", '+'), "plain");
    assert_eq!(first_field_of("+x", '+'), "");
    assert_eq!(last_field_of("x+", '+'), "");
    assert_eq!(last_field_of("a+b+c", '+'), "c");
    assert_eq!(first_field_of("é+ü", '+'), "é");
}

#[test]
fn pattern_occurrences() {
    assert_eq!(last_occurrence_of("abcabc", "bc"), Some(4));
    assert_eq!(last_occurrence_of("abc", "x"), None);
    assert_eq!(last_occurrence_of("ab", "abc"), None);
    assert!(occurs_at_exec("abc", "bc", 1));
    assert!(!occurs_at_exec("abc", "bc", 2));
    assert_eq!(text_after_last("a+file://b+file://c", "+file://"), Some("c"));
    assert_eq!(text_after_last("abc", "+file://"), None);
}

#[test]
fn string_equality() {
    assert!(str_equals("abc", "abc"));
    assert!(!str_equals("abc", "abd"));
    assert!(!str_equals("abc", "ab"));
    assert!(str_equals("", ""));
}
