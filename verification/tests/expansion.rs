use aush::expansion::budget_output;
use aush::expansion::{expand_tilde, tilde_user};
use aush::expansion::{
    find_matching_paren_in_str, pattern_matches, remove_longest_prefix, remove_longest_suffix,
    remove_shortest_prefix, remove_shortest_suffix, truncate_output,
    DEFAULT_MAX_SUBSTITUTION_OUTPUT,
};

#[test]
fn test_command_substitution_output_cap_defaults() {
    assert!(DEFAULT_MAX_SUBSTITUTION_OUTPUT >= 1024 * 1024);
    assert!(DEFAULT_MAX_SUBSTITUTION_OUTPUT <= 100 * 1024 * 1024);
}

#[test]
fn test_truncate_output() {
    let mut s = "hello world".to_string();
    assert!(!truncate_output(&mut s, 100));
    assert_eq!(s, "hello world");

    let mut s = "hello world".to_string();
    assert!(truncate_output(&mut s, 5));
    assert_eq!(s, "hello");
}

#[test]
fn test_truncate_output_utf8_boundary() {
    let mut s = "café".to_string();
    assert!(truncate_output(&mut s, 4));
    assert_eq!(s, "caf");
}

#[test]
fn truncate_output_exact_fit_is_untouched() {
    let mut s = "café".to_string();
    assert!(!truncate_output(&mut s, 5));
    assert_eq!(s, "café");
    let mut e = String::new();
    assert!(!truncate_output(&mut e, 0));
    let mut one = "x".to_string();
    assert!(truncate_output(&mut one, 0));
    assert_eq!(one, "");
}

#[test]
fn pattern_star_and_question_mark() {
    assert!(pattern_matches("*.rs", "main.rs"));
    assert!(!pattern_matches("*.rs", "main.rc"));
    assert!(pattern_matches("file?.txt", "file1.txt"));
    assert!(!pattern_matches("file?.txt", "file.txt"));
    assert!(pattern_matches("*", ""));
    assert!(pattern_matches("", ""));
    assert!(!pattern_matches("", "a"));
    assert!(pattern_matches("a*b*c", "aXXbYYc"));
    assert!(!pattern_matches("a*b*c", "aXXbYY"));
}

#[test]
fn suffix_removals() {
    assert_eq!(remove_shortest_suffix("file.tar.gz", ".*"), "file.tar");
    assert_eq!(remove_longest_suffix("file.tar.gz", ".*"), "file");
    assert_eq!(remove_shortest_suffix("file.tar.gz", "*.zip"), "file.tar.gz");
    assert_eq!(remove_shortest_suffix("abc", ""), "abc");
    assert_eq!(remove_longest_suffix("abc", "*"), "");
    assert_eq!(remove_shortest_suffix("abc", "*"), "abc");
}

#[test]
fn prefix_removals() {
    assert_eq!(remove_shortest_prefix("/usr/local/bin", "*/"), "usr/local/bin");
    assert_eq!(remove_longest_prefix("/usr/local/bin", "*/"), "bin");
    assert_eq!(remove_shortest_prefix("abc", "x*"), "abc");
    assert_eq!(remove_longest_prefix("abc", "*"), "");
    assert_eq!(remove_shortest_prefix("abc", "*"), "abc");
    assert_eq!(remove_shortest_prefix("abc", "?"), "bc");
}

#[test]
fn matching_parenthesis() {
    let chars: Vec<char> = "echo (a (b) c) d)".chars().collect();
    assert_eq!(find_matching_paren_in_str(&chars, 0), Some(16));
    assert_eq!(find_matching_paren_in_str(&chars, 6), Some(13));
    let open: Vec<char> = "(((".chars().collect();
    assert_eq!(find_matching_paren_in_str(&open, 0), None);
}

#[test]
fn tilde_expands_to_home() {
    assert_eq!(expand_tilde("~", Some("/home/u"), None), "/home/u");
    assert_eq!(expand_tilde("~/docs/a.txt", Some("/home/u"), None), "/home/u/docs/a.txt");
    assert_eq!(expand_tilde("~", None, None), "~");
    assert_eq!(expand_tilde("/tmp/~x", Some("/home/u"), None), "/tmp/~x");
}

#[test]
fn tilde_user_forms() {
    assert_eq!(tilde_user("~root/bin"), Some("root".to_string()));
    assert_eq!(tilde_user("~root"), Some("root".to_string()));
    assert_eq!(tilde_user("~/x"), None);
    assert_eq!(tilde_user("x"), None);
    assert_eq!(expand_tilde("~root/bin", Some("/home/u"), Some("/root")), "/root/bin");
    assert_eq!(expand_tilde("~nobody", Some("/home/u"), None), "~nobody");
}

#[test]
fn output_budget() {
    assert_eq!(budget_output("hello", 5), "hello");
    assert_eq!(
        budget_output("hello world", 5),
        "hello\n[Output truncated: 11 bytes, limit 5 bytes]"
    );
    assert_eq!(budget_output("café", 4), "caf\n[Output truncated: 5 bytes, limit 4 bytes]");
    assert_eq!(budget_output("abc", 0), "\n[Output truncated: 3 bytes, limit 0 bytes]");
}
