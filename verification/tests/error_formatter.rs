use aush::error::{AUSHError, CommandContext, ContextInfo, SourceLocation};
use aush::error_formatter::{ErrorFormatter, ErrorType};

#[test]
fn test_format_error_header() {
    let error = AUSHError::new("SYNTAX_ERROR", "Expected identifier", 1);
    let formatted = ErrorFormatter::format_error(&error);
    assert!(formatted.contains("SYNTAX_ERROR"));
    assert!(formatted.contains("Expected identifier"));
}

#[test]
fn test_format_with_source_location() {
    let location = SourceLocation::new(5, 10)
        .with_line_content("let x = invalid".to_string())
        .with_filename("test.aush".to_string());
    let error = AUSHError::new("PARSE_ERROR", "Invalid syntax", 1).with_location(location);

    let formatted = ErrorFormatter::format_error(&error);
    assert!(formatted.contains("test.aush:5:10"));
    assert!(formatted.contains("let x = invalid"));
    assert!(formatted.contains("^"));
}

#[test]
fn test_format_with_command_context() {
    let ctx = CommandContext::new("echo").with_args(vec!["hello".to_string(), "world".to_string()]);
    let error = AUSHError::new("EXECUTION_ERROR", "Failed", 1).with_command_context(ctx);

    let formatted = ErrorFormatter::format_error(&error);
    assert!(formatted.contains("Context:"));
    assert!(formatted.contains("echo"));
    assert!(formatted.contains("hello"));
}

#[test]
fn test_format_with_function_stack() {
    let ctx = CommandContext::new("cmd")
        .with_function_stack(vec!["main".to_string(), "helper".to_string()]);
    let error = AUSHError::new("RUNTIME_ERROR", "Error", 1).with_command_context(ctx);

    let formatted = ErrorFormatter::format_error(&error);
    assert!(formatted.contains("Stack:"));
    assert!(formatted.contains("main"));
    assert!(formatted.contains("helper"));
}

#[test]
fn test_format_with_additional_context() {
    let error = AUSHError::new("ERROR", "Test", 1).with_context(ContextInfo::Fields(vec![
        ("file".to_string(), "/tmp/test.txt".to_string()),
        ("reason".to_string(), "Permission denied".to_string()),
    ]));

    let formatted = ErrorFormatter::format_error(&error);
    assert!(formatted.contains("Additional Info:"));
    assert!(formatted.contains("file"));
    assert!(formatted.contains("/tmp/test.txt"));
}

#[test]
fn test_format_plain_text() {
    let location = SourceLocation::new(3, 5)
        .with_line_content("invalid code".to_string())
        .with_filename("script.aush".to_string());
    let error = AUSHError::new("SYNTAX_ERROR", "Bad syntax", 1).with_location(location);

    let formatted = ErrorFormatter::format_plain(&error);
    assert!(formatted.contains("error [SYNTAX_ERROR]"));
    assert!(formatted.contains("script.aush:3:5"));
    assert!(!formatted.contains("\x1b["));
}

#[test]
fn test_error_type_classification() {
    assert_eq!(ErrorFormatter::classify_error("SYNTAX_ERROR"), ErrorType::Syntax);
    assert_eq!(ErrorFormatter::classify_error("PARSE_ERROR"), ErrorType::Syntax);
    assert_eq!(ErrorFormatter::classify_error("EXECUTION_ERROR"), ErrorType::Runtime);
    assert_eq!(ErrorFormatter::classify_error("RUNTIME_ERROR"), ErrorType::Runtime);
    assert_eq!(ErrorFormatter::classify_error("LOGIC_ERROR"), ErrorType::Logic);
    assert_eq!(ErrorFormatter::classify_error("FILE_NOT_FOUND"), ErrorType::Info);
}

#[test]
fn test_ansi_codes_present_in_formatted() {
    let error = AUSHError::new("ERROR", "Test error", 1);
    let formatted = ErrorFormatter::format_error(&error);
    assert!(formatted.contains("\x1b["));
}

#[test]
fn test_plain_format_no_ansi_codes() {
    let error = AUSHError::new("ERROR", "Test error", 1);
    let formatted = ErrorFormatter::format_plain(&error);
    assert!(!formatted.contains("\x1b["));
}

#[test]
fn test_complete_error_with_all_context() {
    let location = SourceLocation::new(10, 15)
        .with_line_content("undefined_var=$unknown".to_string())
        .with_filename("main.aush".to_string());

    let ctx = CommandContext::new("assignment")
        .with_args(vec!["undefined_var".to_string()])
        .with_function_stack(vec!["setup".to_string(), "init".to_string()]);

    let error = AUSHError::new("RUNTIME_ERROR", "Variable not found", 1)
        .with_location(location)
        .with_command_context(ctx)
        .with_context(ContextInfo::Fields(vec![
            ("suggestion".to_string(), "Did you mean '$PATH'?".to_string()),
            ("variable".to_string(), "unknown".to_string()),
        ]));

    let formatted = ErrorFormatter::format_error(&error);
    assert!(formatted.contains("main.aush:10:15"));
    assert!(formatted.contains("undefined_var=$unknown"));
    assert!(formatted.contains("assignment"));
    assert!(formatted.contains("setup"));
    assert!(formatted.contains("variable"));
    assert!(formatted.contains("suggestion"));
}

#[test]
fn test_format_error_with_help_text() {
    let error = AUSHError::new("FILE_NOT_FOUND", "missing.txt: No such file or directory", 1);
    let formatted = ErrorFormatter::format_error(&error);
    assert!(formatted.contains("FILE_NOT_FOUND"));
    assert!(formatted.contains("missing.txt: No such file or directory"));
    assert!(formatted.contains("Help:"));
    assert!(formatted.contains("File or directory not found"));
}

#[test]
fn test_format_error_without_help_text() {
    let error = AUSHError::new("CUSTOM_ERROR", "Custom error message", 1);
    let formatted = ErrorFormatter::format_error(&error);
    assert!(formatted.contains("CUSTOM_ERROR"));
    assert!(formatted.contains("Custom error message"));
    assert!(!formatted.contains("Help:"));
}

#[test]
fn exact_header_and_caret_position() {
    let error = AUSHError::new("LOGIC_ERROR", "boom", 2);
    assert_eq!(
        ErrorFormatter::format_error(&error),
        "\x1b[33m\x1b[1merror\x1b[0m [LOGIC_ERROR]: boom"
    );
    let loc = SourceLocation::new(1, 3).with_line_content("abcd".to_string());
    let e = AUSHError::new("PARSE_ERROR", "bad", 1).with_location(loc);
    let out = ErrorFormatter::format_error(&e);
    assert!(out.contains("<stdin>:1:3"));
    assert!(out.contains("\x1b[2m|\x1b[0m   \x1b[31m^\x1b[1m Error here\x1b[0m"));
}

#[test]
fn exact_plain_rendering() {
    let ctx = CommandContext::new("f")
        .with_args(vec!["1".to_string(), "2".to_string()])
        .with_function_stack(vec!["a".to_string(), "b".to_string()]);
    let loc = SourceLocation::new(7, 0);
    let e = AUSHError::new("X", "msg", 1).with_location(loc).with_command_context(ctx);
    assert_eq!(
        ErrorFormatter::format_plain(&e),
        "error [X]: msg\n  at <stdin>:7:0\n  while executing: f [1, 2]\n  in functions: a → b"
    );
    let e2 = AUSHError::new("PERMISSION_DENIED", "no", 1);
    assert!(e2.get_help().is_some());
    assert!(ErrorFormatter::format_error(&e2).contains("Help: Permission denied"));
}

#[test]
fn caret_stands_under_the_column() {
    let loc = SourceLocation::new(2, 4).with_line_content("ls -z".to_string());
    assert_eq!(
        ErrorFormatter::format_source_location(&loc),
        "\x1b[2m<stdin>:2:4\x1b[0m\n  \x1b[2m|\x1b[0m ls -z\n  \x1b[2m|\x1b[0m    \x1b[31m^\x1b[1m Error here\x1b[0m"
    );
    let first = SourceLocation::new(1, 0).with_line_content("x".to_string());
    assert!(ErrorFormatter::format_source_location(&first).ends_with("|\x1b[0m \x1b[31m^\x1b[1m Error here\x1b[0m"));
    let bare = SourceLocation::new(7, 1).with_filename("a.sh".to_string());
    assert_eq!(ErrorFormatter::format_source_location(&bare), "\x1b[2ma.sh:7:1\x1b[0m");
}
