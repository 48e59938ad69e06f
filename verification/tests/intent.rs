use aush::intent::{intent_key_action, IntentResult, KeyInput};
use aush::intent::{extract_intent, is_intent_query};

#[test]
fn test_is_intent_query() {
    assert!(is_intent_query("? find all rust files"));
    assert!(is_intent_query("?"));
    assert!(is_intent_query("  ? deploy to staging"));
    assert!(!is_intent_query("echo hello"));
    assert!(!is_intent_query("?command"));
    assert!(!is_intent_query("echo ?"));
}

#[test]
fn test_extract_intent() {
    assert_eq!(extract_intent("? find all rust files"), "find all rust files");
    assert_eq!(extract_intent("?"), "");
    assert_eq!(extract_intent("  ? deploy  "), "deploy");
}

#[test]
fn intent_non_query_lines_are_trimmed() {
    assert_eq!(extract_intent("  echo hi \t"), "echo hi");
    assert_eq!(extract_intent("\u{3000}?\u{a0}"), "");
    assert!(is_intent_query("\t?\n"));
    assert!(!is_intent_query(""));
}

#[test]
fn test_detect_project_type() {
    // The directory's files are listed by the caller; any listing is accepted.
    let _ = aush::intent::detect_project_type(&[]);
}

#[test]
fn test_build_shell_context() {
    let context = aush::intent::build_shell_context(
        None,
        Some("ls -la"),
        Some(0),
        vec!["cd /tmp".to_string(), "ls".to_string()],
        vec![],
    );

    assert!(!context.cwd.is_empty());
    assert_eq!(context.last_command, Some("ls -la".to_string()));
    assert_eq!(context.last_exit_code, Some(0));
    assert_eq!(context.history.len(), 2);
}

#[test]
fn project_type_follows_marker_order() {
    let files = vec![
        "Makefile".to_string(),
        "package.json".to_string(),
        ".git".to_string(),
    ];
    assert_eq!(aush::intent::detect_project_type(&files), Some("node".to_string()));
    assert_eq!(
        aush::intent::detect_project_type(&[".git".to_string()]),
        Some("git".to_string())
    );
    assert_eq!(
        aush::intent::detect_project_type(&["README.md".to_string()]),
        None
    );
}

#[test]
fn shell_context_keeps_set_variables() {
    let context = aush::intent::build_shell_context(
        Some("/work".to_string()),
        None,
        None,
        vec![],
        vec![
            ("HOME".to_string(), Some("/home/u".to_string())),
            ("EDITOR".to_string(), None),
        ],
    );
    assert_eq!(context.cwd, "/work");
    assert_eq!(context.env, vec![("HOME".to_string(), "/home/u".to_string())]);
}

#[test]
fn key_answers_to_a_suggestion() {
    assert!(matches!(intent_key_action(KeyInput::Enter), Some(IntentResult::Accept(s)) if s.is_empty()));
    assert!(matches!(intent_key_action(KeyInput::Tab), Some(IntentResult::Edit(s)) if s.is_empty()));
    assert!(matches!(intent_key_action(KeyInput::Escape), Some(IntentResult::Cancel)));
    assert!(matches!(
        intent_key_action(KeyInput::Char { c: 'c', control: true }),
        Some(IntentResult::Cancel)
    ));
    assert!(intent_key_action(KeyInput::Char { c: 'c', control: false }).is_none());
    assert!(intent_key_action(KeyInput::Char { c: 'x', control: true }).is_none());
    assert!(intent_key_action(KeyInput::Other).is_none());
}

#[test]
fn extract_intent_drops_whitespace_after_the_mark() {
    assert_eq!(extract_intent("?   deploy"), "deploy");
    assert_eq!(extract_intent("  ?  \tlist files "), "list files");
}
