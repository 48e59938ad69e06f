use aush::correction::{Corrector, Suggestion, SuggestionKind};
use aush::suggestions::{SuggestionConfig, SuggestionEngine};

#[test]
fn test_suggest_command_typo_lss() {
    let engine = SuggestionEngine::new();
    let builtins = vec!["ls".to_string(), "cat".to_string(), "echo".to_string()];
    let suggestions = engine.suggest_command("lss", &builtins, &[], &[], &[]);
    assert!(!suggestions.is_empty());
    assert_eq!(suggestions[0].text, "ls");
}

#[test]
fn test_suggest_command_typo_eho() {
    let engine = SuggestionEngine::new();
    let builtins = vec!["echo".to_string(), "cat".to_string(), "grep".to_string()];
    let suggestions = engine.suggest_command("eho", &builtins, &[], &[], &[]);
    assert!(!suggestions.is_empty());
    assert_eq!(suggestions[0].text, "echo");
}

#[test]
fn test_suggest_flag_typo_hlep() {
    let engine = SuggestionEngine::new();
    let valid_flags = &["--help", "--version", "--verbose"];
    let suggestions = engine.suggest_flag("--hlep", valid_flags);
    assert!(!suggestions.is_empty());
    assert_eq!(suggestions[0].text, "--help");
}

#[test]
fn test_suggest_flag_typo_verbo() {
    let engine = SuggestionEngine::new();
    let valid_flags = &["--help", "--version", "--verbose", "-v"];
    let suggestions = engine.suggest_flag("--verbo", valid_flags);
    assert!(!suggestions.is_empty());
    assert!(suggestions.iter().any(|s| s.text == "--verbose"));
}

#[test]
fn test_format_suggestions() {
    let engine = SuggestionEngine::new();
    let suggestions = vec![
        Suggestion { text: "ls".to_string(), score: 95, kind: SuggestionKind::Builtin },
        Suggestion { text: "list".to_string(), score: 80, kind: SuggestionKind::Executable },
    ];
    let formatted = engine.format_suggestions(&suggestions);
    assert!(formatted.contains("Did you mean?"));
    assert!(formatted.contains("ls"));
    assert!(formatted.contains("builtin"));
}

#[test]
fn test_is_likely_typo() {
    let engine = SuggestionEngine::new();
    let builtins = vec!["echo".to_string(), "cat".to_string()];
    assert!(engine.is_likely_typo("ehco", &builtins));
    assert!(!engine.is_likely_typo("xyz", &builtins));
}

#[test]
fn test_is_likely_flag_typo() {
    let engine = SuggestionEngine::new();
    let valid_flags = &["--help", "--version"];
    assert!(engine.is_likely_flag_typo("--hlep", valid_flags));
    assert!(!engine.is_likely_flag_typo("--xyz", valid_flags));
}

#[test]
fn test_disabled_suggestions() {
    let mut engine = SuggestionEngine::new();
    engine.set_enabled(false);
    let builtins = vec!["echo".to_string()];
    let suggestions = engine.suggest_command("ehco", &builtins, &[], &[], &[]);
    assert!(suggestions.is_empty());
}

#[test]
fn test_suggestion_score_filtering() {
    let config = SuggestionConfig { enabled: true, max_display: 3, min_score: 90 };
    let engine = SuggestionEngine::with_config(config);
    let builtins = vec!["ls".to_string()];
    let suggestions = engine.suggest_command("xyz", &builtins, &[], &[], &[]);
    assert!(suggestions.is_empty());
}

#[test]
fn test_suggest_command_with_history() {
    let engine = SuggestionEngine::new();
    let builtins = vec!["echo".to_string(), "exit".to_string()];
    let history = vec![
        "cargo build".to_string(),
        "cargo test".to_string(),
        "git status".to_string(),
    ];
    let suggestions = engine.suggest_command("carg", &builtins, &[], &history, &[]);
    assert!(!suggestions.is_empty(), "Expected suggestions for 'carg' with history");
    assert!(
        suggestions.iter().any(|s| s.text == "cargo"),
        "Expected 'cargo' in suggestions from history: {:?}",
        suggestions
    );
}

#[test]
fn test_suggest_command_history_extraction() {
    let engine = SuggestionEngine::new();
    let history = vec![
        "mycustomcmd --verbose --flag=value".to_string(),
        "anothercommand arg1 arg2".to_string(),
    ];
    let suggestions = engine.suggest_command("mycustom", &[], &[], &history, &[]);
    assert!(
        suggestions.iter().any(|s| s.text == "mycustomcmd"),
        "Expected 'mycustomcmd' extracted from history: {:?}",
        suggestions
    );
}

#[test]
fn test_suggest_command_disabled_history() {
    let config = SuggestionConfig { enabled: true, max_display: 3, min_score: 30 };
    let mut engine = SuggestionEngine::with_config(config);
    engine.corrector_mut().set_enabled(false);
    let history = vec!["mycustomcmd".to_string()];
    engine.set_enabled(false);
    let suggestions = engine.suggest_command("mycustom", &[], &[], &history, &[]);
    assert!(suggestions.is_empty(), "History suggestions should be empty when disabled");
}

#[test]
fn test_cargo_typo_in_cargo_project() {
    let engine = SuggestionEngine::new();
    let context = vec!["cargo".to_string()];
    let suggestions = engine.suggest_command("carg", &[], &[], &[], &context);
    assert!(!suggestions.is_empty());
    assert!(suggestions.iter().any(|s| s.text == "cargo"));
}

#[test]
fn test_git_typo_in_git_repo() {
    let engine = SuggestionEngine::new();
    let context = vec!["git".to_string()];
    let suggestions = engine.suggest_command("gi", &[], &[], &[], &context);
    assert!(!suggestions.is_empty());
    assert!(suggestions.iter().any(|s| s.text == "git"));
}

#[test]
fn corrector_scores_and_orders() {
    let c = Corrector::new();
    let builtins = vec!["cat".to_string(), "echo".to_string(), "exit".to_string(), "echo".to_string()];
    let s = c.suggest_command("ehco", &builtins);
    assert_eq!(s.len(), 2);
    assert_eq!(s[0].text, "echo");
    assert_eq!(s[0].score, 75);
    assert_eq!(s[0].kind, SuggestionKind::Builtin);
    assert_eq!(s[1].text, "exit");
    assert_eq!(s[1].score, 25);
    assert_eq!(Corrector::similarity_percent(130, "x"), 100);
    assert_eq!(Corrector::similarity_percent(-4, "x"), 0);
}

#[test]
fn engine_limits_and_formats() {
    let config = SuggestionConfig { enabled: true, max_display: 1, min_score: 0 };
    let engine = SuggestionEngine::with_config(config);
    let builtins = vec!["ab".to_string(), "abc".to_string()];
    let s = engine.suggest_command("abc", &builtins, &[], &[], &[]);
    assert_eq!(s.len(), 1);
    assert_eq!(s[0].text, "abc");
    assert_eq!(s[0].score, 100);
    assert_eq!(engine.format_suggestions(&s), "Did you mean?\n  abc (100%, builtin)\n");
    assert_eq!(engine.format_suggestions(&[]), "");
}
