use aush::case_match::case_pattern_matches;

#[test]
fn glob_patterns() {
    assert!(case_pattern_matches("*.rs", "main.rs"));
    assert!(!case_pattern_matches("*.rs", "main.py"));
    assert!(case_pattern_matches("c?t", "cat"));
    assert!(case_pattern_matches("[a-c]x", "bx"));
    assert!(!case_pattern_matches("[a-c]x", "dx"));
    assert!(case_pattern_matches("*", ""));
    assert!(case_pattern_matches("start", "start"));
}

#[test]
fn unreadable_patterns_match_themselves_only() {
    assert!(case_pattern_matches("[", "["));
    assert!(!case_pattern_matches("[", "x"));
    assert!(case_pattern_matches("a**b", "a**b"));
    assert!(!case_pattern_matches("a**b", "axb"));
}
