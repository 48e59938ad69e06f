use aush::lexer::{Lexer, Token};


#[test]
fn test_basic_command() {
    let tokens = Lexer::tokenize("ls -la /home").unwrap();
    assert_eq!(tokens.len(), 3);
    assert!(matches!(tokens[0], Token::Identifier(_)));
    assert!(matches!(tokens[1], Token::ShortFlag(_)));
    assert!(matches!(tokens[2], Token::Path(_)));
}

#[test]
fn test_pipeline() {
    let tokens = Lexer::tokenize("ls | grep foo").unwrap();
    assert!(tokens.contains(&Token::Pipe));
}

#[test]
fn test_variable() {
    let tokens = Lexer::tokenize("echo $HOME").unwrap();
    assert!(matches!(tokens[1], Token::Variable(_)));
}

#[test]
fn test_string_interpolation() {
    let tokens = Lexer::tokenize(r#"echo "hello world""#).unwrap();
    assert!(matches!(tokens[1], Token::String(_)));
}

#[test]
fn test_let_statement() {
    let tokens = Lexer::tokenize("let x = 42").unwrap();
    assert_eq!(tokens[0], Token::Let);
    assert!(matches!(tokens[1], Token::Identifier(_)));
    assert_eq!(tokens[2], Token::Equals);
    assert!(matches!(tokens[3], Token::Integer(42)));
}

#[test]
fn test_function_definition() {
    let tokens = Lexer::tokenize("fn deploy(env: String) {}").unwrap();
    assert_eq!(tokens[0], Token::Fn);
    assert!(matches!(tokens[1], Token::Identifier(_)));
}

#[test]
fn test_command_substitution_simple() {
    let tokens = Lexer::tokenize("echo $(pwd)").unwrap();
    assert_eq!(tokens.len(), 2);
    if let Token::CommandSubstitution(cmd) = &tokens[1] {
        assert_eq!(cmd, "$(pwd)");
    } else {
        panic!("Expected CommandSubstitution token");
    }
}

#[test]
fn test_command_substitution_nested() {
    let tokens = Lexer::tokenize("echo $(echo $(pwd))").unwrap();
    assert_eq!(tokens.len(), 2);
    if let Token::CommandSubstitution(cmd) = &tokens[1] {
        assert_eq!(cmd, "$(echo $(pwd))");
    } else {
        panic!("Expected CommandSubstitution token");
    }
}

#[test]
fn test_backtick_substitution() {
    let tokens = Lexer::tokenize("echo `pwd`").unwrap();
    assert_eq!(tokens.len(), 2);
    if let Token::BacktickSubstitution(cmd) = &tokens[1] {
        assert_eq!(cmd, "`pwd`");
    } else {
        panic!("Expected BacktickSubstitution token");
    }
}

#[test]
fn test_braced_variable_simple() {
    let tokens = Lexer::tokenize("echo ${VAR}").unwrap();
    assert_eq!(tokens.len(), 2);
    if let Token::BracedVariable(var) = &tokens[1] {
        assert_eq!(var, "${VAR}");
    } else {
        panic!("Expected BracedVariable token, got {:?}", tokens[1]);
    }
}

#[test]
fn test_braced_variable_use_default() {
    let tokens = Lexer::tokenize("echo ${VAR:-default}").unwrap();
    assert_eq!(tokens.len(), 2);
    if let Token::BracedVariable(var) = &tokens[1] {
        assert_eq!(var, "${VAR:-default}");
    } else {
        panic!("Expected BracedVariable token, got {:?}", tokens[1]);
    }
}

#[test]
fn test_braced_variable_assign_default() {
    let tokens = Lexer::tokenize("echo ${VAR:=default}").unwrap();
    assert_eq!(tokens.len(), 2);
    if let Token::BracedVariable(var) = &tokens[1] {
        assert_eq!(var, "${VAR:=default}");
    } else {
        panic!("Expected BracedVariable token, got {:?}", tokens[1]);
    }
}

#[test]
fn test_braced_variable_error_if_unset() {
    let tokens = Lexer::tokenize("echo ${VAR:?error}").unwrap();
    assert_eq!(tokens.len(), 2);
    if let Token::BracedVariable(var) = &tokens[1] {
        assert_eq!(var, "${VAR:?error}");
    } else {
        panic!("Expected BracedVariable token, got {:?}", tokens[1]);
    }
}

#[test]
fn test_braced_variable_prefix_removal() {
    let tokens = Lexer::tokenize("echo ${VAR#prefix}").unwrap();
    assert_eq!(tokens.len(), 2);
    if let Token::BracedVariable(var) = &tokens[1] {
        assert_eq!(var, "${VAR#prefix}");
    } else {
        panic!("Expected BracedVariable token, got {:?}", tokens[1]);
    }
}

#[test]
fn test_braced_variable_suffix_removal() {
    let tokens = Lexer::tokenize("echo ${VAR%suffix}").unwrap();
    assert_eq!(tokens.len(), 2);
    if let Token::BracedVariable(var) = &tokens[1] {
        assert_eq!(var, "${VAR%suffix}");
    } else {
        panic!("Expected BracedVariable token, got {:?}", tokens[1]);
    }
}

#[test]
fn test_special_variable_shell_pid() {
    let tokens = Lexer::tokenize("$$").unwrap();
    assert_eq!(tokens.len(), 1, "Should have 1 token for $$");
    if let Token::SpecialVariable(var) = &tokens[0] {
        assert_eq!(var, "$$", "Should be $$ token");
    } else {
        panic!("Expected SpecialVariable token for $$, got {:?}", tokens[0]);
    }
}

#[test]
fn test_special_variable_last_bg_pid() {
    let tokens = Lexer::tokenize("$!").unwrap();
    assert_eq!(tokens.len(), 1);
    if let Token::SpecialVariable(var) = &tokens[0] {
        assert_eq!(var, "$!");
    } else {
        panic!("Expected SpecialVariable token for $!, got {:?}", tokens[0]);
    }
}

#[test]
fn test_special_variable_option_flags() {
    let tokens = Lexer::tokenize("$-").unwrap();
    assert_eq!(tokens.len(), 1);
    if let Token::SpecialVariable(var) = &tokens[0] {
        assert_eq!(var, "$-");
    } else {
        panic!("Expected SpecialVariable token for $-, got {:?}", tokens[0]);
    }
}

#[test]
fn test_special_variable_last_arg() {
    let tokens = Lexer::tokenize("$_").unwrap();
    assert_eq!(tokens.len(), 1);
    if let Token::SpecialVariable(var) = &tokens[0] {
        assert_eq!(var, "$_");
    } else {
        panic!("Expected SpecialVariable token for $_, got {:?}", tokens[0]);
    }
}

#[test]
fn test_while_keyword() {
    let tokens = Lexer::tokenize("while").unwrap();
    assert_eq!(tokens.len(), 1);
    assert_eq!(tokens[0], Token::While);
}

#[test]
fn test_do_keyword() {
    let tokens = Lexer::tokenize("do").unwrap();
    assert_eq!(tokens.len(), 1);
    assert_eq!(tokens[0], Token::Do);
}

#[test]
fn test_done_keyword() {
    let tokens = Lexer::tokenize("done").unwrap();
    assert_eq!(tokens.len(), 1);
    assert_eq!(tokens[0], Token::Done);
}

#[test]
fn test_filename_with_dot() {
    let tokens = Lexer::tokenize("cat README.md").unwrap();
    assert_eq!(tokens.len(), 2);
    assert!(matches!(tokens[0], Token::Identifier(_)));
    assert!(matches!(tokens[1], Token::Identifier(ref s) if s == "README.md"));
}

#[test]
fn test_filename_multiple_dots() {
    let tokens = Lexer::tokenize("echo file.tar.gz").unwrap();
    assert_eq!(tokens.len(), 2);
    assert!(matches!(tokens[1], Token::Identifier(ref s) if s == "file.tar.gz"));
}

#[test]
fn test_dot_alone_is_path() {
    let tokens = Lexer::tokenize("echo .").unwrap();
    assert_eq!(tokens.len(), 2);
    assert_eq!(tokens[1], Token::Dot);
}

#[test]
fn test_dotdot_is_path() {
    let tokens = Lexer::tokenize("echo ..").unwrap();
    assert_eq!(tokens.len(), 2);
    assert!(matches!(tokens[1], Token::Path(ref s) if s == ".."));
}

#[test]
fn test_dot_slash_path() {
    let tokens = Lexer::tokenize("./script.sh").unwrap();
    assert_eq!(tokens.len(), 1);
    assert!(matches!(tokens[0], Token::Path(ref s) if s == "./script.sh"));
}

#[test]
fn test_tilde_standalone() {
    let tokens = Lexer::tokenize("echo ~").unwrap();
    assert_eq!(tokens.len(), 2);
    assert_eq!(tokens[1], Token::Tilde);
}

#[test]
fn test_tilde_with_path() {
    let tokens = Lexer::tokenize("cd ~/Documents").unwrap();
    assert_eq!(tokens.len(), 2);
    assert!(matches!(tokens[1], Token::Path(ref s) if s == "~/Documents"));
}

#[test]
fn test_tilde_user() {
    let tokens = Lexer::tokenize("echo ~root").unwrap();
    assert_eq!(tokens.len(), 2);
    assert!(matches!(tokens[1], Token::Path(ref s) if s == "~root"));
}

#[test]
fn test_arithmetic_expansion_simple() {
    let tokens = Lexer::tokenize("echo $((1+2))").unwrap();
    assert_eq!(tokens.len(), 2);
    if let Token::CommandSubstitution(cmd) = &tokens[1] {
        assert_eq!(cmd, "$((1+2))");
    } else {
        panic!("Expected CommandSubstitution token, got {:?}", tokens[1]);
    }
}

#[test]
fn test_arithmetic_expansion_with_spaces() {
    let tokens = Lexer::tokenize("echo $((5 != 3))").unwrap();
    assert_eq!(tokens.len(), 2);
    if let Token::CommandSubstitution(cmd) = &tokens[1] {
        assert_eq!(cmd, "$((5 != 3))");
    } else {
        panic!("Expected CommandSubstitution token, got {:?}", tokens[1]);
    }
}

#[test]
fn test_escaped_quote_in_double_string() {
    // Test that escaped quotes inside double-quoted strings are handled
    let tokens = Lexer::tokenize(r#"echo "test\"end""#).unwrap();
    assert_eq!(tokens.len(), 2, "Expected 2 tokens, got {:?}", tokens);
    if let Token::String(s) = &tokens[1] {
        assert_eq!(
            s, r#""test\"end""#,
            "String token should contain the escaped quote"
        );
    } else {
        panic!("Expected String token, got {:?}", tokens[1]);
    }
}

#[test]
fn test_escaped_quote_at_end_of_string() {
    // Test that escaped quote at end of string is handled correctly
    let tokens = Lexer::tokenize(r#"echo "test\"""#).unwrap();
    assert_eq!(tokens.len(), 2, "Expected 2 tokens, got {:?}", tokens);
    if let Token::String(s) = &tokens[1] {
        assert_eq!(
            s, r#""test\"""#,
            "String token should contain the escaped quote at end"
        );
    } else {
        panic!("Expected String token, got {:?}", tokens[1]);
    }
}

#[test]
fn test_unterminated_double_string_errors() {
    let err = Lexer::tokenize("echo \"unterminated").unwrap_err();
    let msg = err.message();
    assert!(
        msg.contains("Invalid token"),
        "Unexpected lexer error: {msg}"
    );
}

#[test]
fn test_pipe_ask_token() {
    let tokens = Lexer::tokenize("echo hello |? \"summarize\"").unwrap();
    assert!(tokens.contains(&Token::PipeAsk));
}

#[test]
fn test_digit_starting_word() {
    // UUIDs, hex strings, commands like 7z/2to3 must tokenize
    let tokens = Lexer::tokenize("echo 9a6c9c73-22be-4847-8e43-e8111b5b8836").unwrap();
    assert_eq!(tokens.len(), 2);
    assert!(
        matches!(tokens[1], Token::Identifier(ref s) if s == "9a6c9c73-22be-4847-8e43-e8111b5b8836")
    );
}

#[test]
fn test_digit_starting_command() {
    let tokens = Lexer::tokenize("7z x archive.7z").unwrap();
    assert!(matches!(tokens[0], Token::Identifier(ref s) if s == "7z"));
}

#[test]
fn test_pure_integer_still_integer() {
    let tokens = Lexer::tokenize("echo 42").unwrap();
    assert!(matches!(tokens[1], Token::Integer(42)));
}

#[test]
fn test_pipe_ask_with_prompt() {
    let tokens = Lexer::tokenize("git diff |? \"write commit message\"").unwrap();
    // Should tokenize as: Identifier(git), Identifier(diff), PipeAsk, String
    assert_eq!(tokens.len(), 4);
    assert!(matches!(tokens[0], Token::Identifier(ref s) if s == "git"));
    assert!(matches!(tokens[1], Token::Identifier(ref s) if s == "diff"));
    assert_eq!(tokens[2], Token::PipeAsk);
    assert!(matches!(tokens[3], Token::String(_)));
}

#[test]
fn test_test_bracket_command() {
    let tokens = Lexer::tokenize("[ 1 -eq 1 ]").unwrap();
    println!("tokens: {:?}", tokens);
    assert_eq!(tokens[0], Token::LeftBracket);
}

#[test]
fn test_single_quoted_backslash_literal() {
    let tokens = Lexer::tokenize("echo '\\\\'").unwrap();
    assert_eq!(tokens.len(), 2);
    assert!(matches!(tokens[1], Token::SingleQuotedString(ref s) if s == "'\\\\'"));
}

#[test]
fn test_single_quoted_multiline_with_backslash() {
    let tokens = Lexer::tokenize("echo 'line1 \\\nline2'").unwrap();
    assert_eq!(tokens.len(), 2);
    assert!(matches!(tokens[1], Token::SingleQuotedString(ref s) if s == "'line1 \\\nline2'"));
}

#[test]
fn test_backslash_newline_line_continuation_between_words() {
    let tokens = Lexer::tokenize("echo one \\\n two").unwrap();
    assert_eq!(
        tokens,
        vec![
            Token::Identifier("echo".to_string()),
            Token::Identifier("one".to_string()),
            Token::Identifier("two".to_string()),
        ]
    );
}

#[test]
fn test_backslash_crlf_line_continuation_between_words() {
    let tokens = Lexer::tokenize("echo one \\\r\n two").unwrap();
    assert_eq!(
        tokens,
        vec![
            Token::Identifier("echo".to_string()),
            Token::Identifier("one".to_string()),
            Token::Identifier("two".to_string()),
        ]
    );
}

#[test]
fn test_comment_with_unicode_text_is_skipped() {
    let tokens = Lexer::tokenize("echo ok # simple – unicode comment text").unwrap();
    assert_eq!(
        tokens,
        vec![
            Token::Identifier("echo".to_string()),
            Token::Identifier("ok".to_string()),
        ]
    );
}
