use aush::correction::{Suggestion, SuggestionKind};
use aush::executor::{command_not_found, Executor, Runtime};

#[test]
fn test_executor_reset_clears_runtime_state() {
    let mut executor = Executor::new_embedded();

    // Set some runtime state
    executor
        .runtime_mut()
        .set_variable("TEST_VAR".to_string(), "value".to_string());
    executor.runtime_mut().set_last_exit_code(42);
    executor
        .runtime_mut()
        .set_alias("ll".to_string(), "ls -la".to_string());

    // Verify state is set
    assert_eq!(
        executor.runtime_mut().get_variable("TEST_VAR"),
        Some("value".to_string())
    );
    assert_eq!(executor.runtime_mut().get_last_exit_code(), 42);

    // Reset
    executor.reset().unwrap();

    // Verify state is cleared
    assert_eq!(executor.runtime_mut().get_variable("TEST_VAR"), None);
    assert_eq!(executor.runtime_mut().get_last_exit_code(), 0);
    assert!(executor.runtime_mut().get_alias("ll").is_none());
}

#[test]
fn test_executor_reuse_no_state_leakage() {
    let mut executor = Executor::new_embedded();

    // Simulate first command: set a variable via assignment
    executor
        .runtime_mut()
        .set_variable("LEAKED".to_string(), "secret".to_string());
    executor.runtime_mut().set_last_exit_code(1);

    // Reset between commands
    executor.reset().unwrap();

    // After reset, the variable should not exist
    assert_eq!(executor.runtime_mut().get_variable("LEAKED"), None);
    assert_eq!(executor.runtime_mut().get_last_exit_code(), 0);
}

#[test]
fn test_executor_reset_preserves_functionality() {
    let mut executor = Executor::new_embedded();

    // Execute a command, then reset, then execute again
    executor
        .runtime_mut()
        .set_variable("X".to_string(), "1".to_string());
    executor.reset().unwrap();

    // After reset, executor should still be usable
    executor
        .runtime_mut()
        .set_variable("Y".to_string(), "2".to_string());
    assert_eq!(
        executor.runtime_mut().get_variable("Y"),
        Some("2".to_string())
    );
    assert_eq!(executor.runtime_mut().get_variable("X"), None);
}

#[test]
fn test_executor_reset_multiple_cycles() {
    let mut executor = Executor::new_embedded();

    // Simulate multiple request/reset cycles
    for i in 0..5 {
        let key = format!("VAR_{}", i);
        executor
            .runtime_mut()
            .set_variable(key.clone(), i.to_string());
        assert_eq!(
            executor.runtime_mut().get_variable(&key),
            Some(i.to_string())
        );

        executor.reset().unwrap();

        // After reset, variable from this cycle should be gone
        assert_eq!(executor.runtime_mut().get_variable(&key), None);
        // IFS and $? should be re-initialized
        assert_eq!(executor.runtime_mut().get_last_exit_code(), 0);
        assert_eq!(executor.runtime_mut().get_ifs(), " \t\n");
    }
}

#[test]
fn set_variable_replaces_and_keeps_others() {
    let mut rt = Runtime::new();
    rt.set_variable("A".to_string(), "1".to_string());
    rt.set_variable("B".to_string(), "2".to_string());
    rt.set_variable("A".to_string(), "3".to_string());
    assert_eq!(rt.get_variable("A"), Some("3".to_string()));
    assert_eq!(rt.get_variable("B"), Some("2".to_string()));
    assert_eq!(rt.get_variable("C"), None);
    assert_eq!(rt.get_ifs(), " \t\n");
    rt.set_variable("IFS".to_string(), ",".to_string());
    assert_eq!(rt.get_ifs(), ",");
}

#[test]
fn aliases_and_exit_codes_are_separate_from_variables() {
    let mut rt = Runtime::new();
    rt.set_alias("ll".to_string(), "ls -la".to_string());
    rt.set_last_exit_code(7);
    assert_eq!(rt.get_alias("ll"), Some("ls -la".to_string()));
    assert_eq!(rt.get_variable("ll"), None);
    assert_eq!(rt.get_last_exit_code(), 7);
}

#[test]
fn executor_builders() {
    let e = Executor::new().with_profiling(true);
    assert!(e.suggestion_engine().is_enabled());
    let mut e = Executor::new_embedded();
    e.suggestion_engine_mut().set_enabled(false);
    assert!(!e.suggestion_engine().is_enabled());
    assert!(e.reset().is_ok());
}

#[test]
fn missing_command_reports_status_127_and_first_three_suggestions() {
    let (code, text) = command_not_found("sl", &[]);
    assert_eq!(code, 127);
    assert_eq!(text, "Command not found: 'sl'\n");

    let s = |t: &str, score: i64| Suggestion { text: t.to_string(), score, kind: SuggestionKind::Builtin };
    let suggestions = vec![s("ls", 95), s("sh", 80), s("su", 70), s("sed", 60)];
    let (code, text) = command_not_found("sl", &suggestions);
    assert_eq!(code, 127);
    assert_eq!(text, "Command not found: 'sl'\n\nDid you mean:\n  ls\n  sh\n  su\n\n");
}

#[test]
fn aliases_expand_to_their_words_before_the_arguments() {
    let mut rt = Runtime::new();
    rt.set_alias("ll".to_string(), "  ls\t-la  --color ".to_string());
    rt.set_alias("blank".to_string(), "   ".to_string());

    let (name, args) = rt.expand_alias("ll", vec!["src".to_string()]).unwrap();
    assert_eq!(name, "ls");
    assert_eq!(args, vec!["-la".to_string(), "--color".to_string(), "src".to_string()]);

    let (name, args) = rt.expand_alias("cat", vec!["a".to_string()]).unwrap();
    assert_eq!(name, "cat");
    assert_eq!(args, vec!["a".to_string()]);

    assert_eq!(
        rt.expand_alias("blank", Vec::new()),
        Err("Empty alias expansion for 'blank'".to_string())
    );
}

#[test]
fn words_are_cut_at_any_whitespace() {
    assert_eq!(aush::text::split_words(" a\u{3000}bc\n\td "), vec!["a", "bc", "d"]);
    assert!(aush::text::split_words(" \t ").is_empty());
}
