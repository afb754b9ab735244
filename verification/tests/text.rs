use compl::strutil::{has_prefix, split_lines, split_ws, str_eq, trimmed, wspace};

#[test]
fn trimming_removes_edge_whitespace_only() {
    assert_eq!(trimmed("  a b\t"), "a b");
    assert_eq!(trimmed("word"), "word");
    assert_eq!(trimmed("   "), "");
    assert_eq!(trimmed(""), "");
}

#[test]
fn prefix_test_is_literal() {
    assert!(has_prefix("progs", "pr"));
    assert!(has_prefix("progs", ""));
    assert!(has_prefix("progs", "progs"));
    assert!(!has_prefix("progs", "progsx"));
    assert!(!has_prefix("progs", "Pr"));
}

#[test]
fn string_equality_is_by_characters() {
    assert!(str_eq("abc", "abc"));
    assert!(!str_eq("abc", "abd"));
    assert!(!str_eq("abc", "ab"));
    assert!(str_eq("", ""));
}

#[test]
fn whitespace_characters() {
    assert!(wspace(' '));
    assert!(wspace('\t'));
    assert!(wspace('\n'));
    assert!(!wspace('a'));
}

#[test]
fn lines_split_on_newlines() {
    assert_eq!(split_lines("a\nb\nc"), vec!["a", "b", "c"]);
    assert_eq!(split_lines("a\nb\n"), vec!["a", "b"]);
    assert_eq!(split_lines("a\r\nb"), vec!["a", "b"]);
    assert_eq!(split_lines("\n"), vec![""]);
    assert!(split_lines("").is_empty());
    // A carriage return not followed by a newline stays.
    assert_eq!(split_lines("a\r"), vec!["a\r"]);
}

#[test]
fn whitespace_split_keeps_field_order() {
    assert_eq!(split_ws(" one  two\tthree "), vec!["one", "two", "three"]);
    assert!(split_ws("   ").is_empty());
}
