use aush::lexer::strip_comments;
use aush::lexer::{HereDocData, Lexer, LexerError, Token};

fn ident(s: &str) -> Token {
    Token::Identifier(s.to_string())
}

#[test]
fn heredoc_body_is_collected_up_to_delimiter() {
    let tokens = Lexer::tokenize("cat <<EOF\nhello\nworld\nEOF\necho finish").unwrap();
    assert_eq!(
        tokens,
        vec![
            ident("cat"),
            Token::HereDocBody(HereDocData {
                body: "hello\nworld\n".to_string(),
                expand_vars: true,
                strip_tabs: false,
            }),
            Token::Newline,
            ident("echo"),
            ident("finish"),
        ]
    );
}

#[test]
fn heredoc_strip_with_quoted_delimiter() {
    let tokens = Lexer::tokenize("cat <<-'END'\n\tindented\nEND").unwrap();
    assert_eq!(
        tokens,
        vec![
            ident("cat"),
            Token::HereDocBody(HereDocData {
                body: "indented\n".to_string(),
                expand_vars: false,
                strip_tabs: true,
            }),
        ]
    );
}

#[test]
fn heredoc_without_delimiter_line_has_empty_body() {
    let tokens = Lexer::tokenize("cat <<EOF\nhello").unwrap();
    assert_eq!(
        tokens,
        vec![
            ident("cat"),
            Token::HereDocBody(HereDocData {
                body: String::new(),
                expand_vars: true,
                strip_tabs: false,
            }),
            Token::Newline,
            ident("hello"),
        ]
    );
}

#[test]
fn heredoc_operator_without_delimiter_stays() {
    let tokens = Lexer::tokenize("cat <<").unwrap();
    assert_eq!(tokens, vec![ident("cat"), Token::HereDoc]);
}

#[test]
fn adjacent_word_parts_are_marked() {
    let tokens = Lexer::tokenize("echo \"a\"'b' foo$BAR").unwrap();
    assert_eq!(
        tokens,
        vec![
            ident("echo"),
            Token::String("\"a\"".to_string()),
            Token::Adjacent,
            Token::SingleQuotedString("'b'".to_string()),
            ident("foo"),
            Token::Adjacent,
            Token::Variable("$BAR".to_string()),
        ]
    );
}

#[test]
fn flags_are_not_word_parts() {
    let tokens = Lexer::tokenize("ls -la$X").unwrap();
    assert_eq!(
        tokens,
        vec![
            ident("ls"),
            Token::ShortFlag("-la".to_string()),
            Token::Variable("$X".to_string()),
        ]
    );
}

#[test]
fn ansi_c_escapes_are_decoded() {
    let tokens = Lexer::tokenize("echo $'a\\tb\\x41\\u00e9\\101\\q'").unwrap();
    assert_eq!(tokens.len(), 2);
    assert_eq!(tokens[1], Token::AnsiCString("a\tbA\u{e9}A\\q".to_string()));
}

#[test]
fn ansi_c_invalid_code_point_is_dropped() {
    let tokens = Lexer::tokenize("$'x\\ud800y\\9z'").unwrap();
    assert_eq!(tokens, vec![Token::AnsiCString("xyz".to_string())]);
}

#[test]
fn integer_out_of_range_is_invalid() {
    let err = Lexer::tokenize("echo 99999999999999999999").unwrap_err();
    assert_eq!(
        err,
        LexerError::InvalidToken {
            position: 5,
            text: "99999999999999999999".to_string()
        }
    );
    assert_eq!(
        err.message(),
        "Invalid token at position 5: '99999999999999999999'"
    );
}

#[test]
fn integer_extremes() {
    let tokens = Lexer::tokenize("9223372036854775807").unwrap();
    assert_eq!(tokens, vec![Token::Integer(i64::MAX)]);
}

#[test]
fn float_keeps_its_text() {
    let tokens = Lexer::tokenize("echo 3.14").unwrap();
    assert_eq!(tokens[1], Token::Float("3.14".to_string()));
    if let Token::Float(text) = &tokens[1] {
        assert!((text.parse::<f64>().unwrap() - 3.14).abs() < 1e-12);
    }
}

#[test]
fn unterminated_substitution_is_invalid() {
    let err = Lexer::tokenize("echo $(ls").unwrap_err();
    assert_eq!(
        err,
        LexerError::InvalidToken {
            position: 5,
            text: "$(".to_string()
        }
    );
}

#[test]
fn error_position_counts_bytes() {
    let err = Lexer::tokenize("'é' \"x").unwrap_err();
    assert_eq!(
        err,
        LexerError::InvalidToken {
            position: 5,
            text: "\"".to_string()
        }
    );
}

#[test]
fn comment_marker_inside_quotes_is_kept() {
    let tokens = Lexer::tokenize("echo \"a # b\" # c").unwrap();
    assert_eq!(tokens, vec![ident("echo"), Token::String("\"a # b\"".to_string())]);
}

#[test]
fn crlf_is_a_line_end_token() {
    let tokens = Lexer::tokenize("a\r\nb").unwrap();
    assert_eq!(tokens, vec![ident("a"), Token::CrLf, ident("b")]);
}

#[test]
fn lexer_steps_through_tokens() {
    let mut lexer = Lexer::new("ls ~ | x");
    assert_eq!(lexer.next_token(), Some(Ok(ident("ls"))));
    assert_eq!(lexer.next_token(), Some(Ok(Token::Tilde)));
    assert_eq!(lexer.next_token(), Some(Ok(Token::Pipe)));
    assert_eq!(lexer.next_token(), Some(Ok(ident("x"))));
    assert_eq!(lexer.next_token(), None);
}

#[test]
fn lexer_continues_after_invalid_text() {
    let mut lexer = Lexer::new("\"open x");
    assert_eq!(
        lexer.next_token(),
        Some(Err(LexerError::InvalidToken {
            position: 0,
            text: "\"".to_string()
        }))
    );
    assert_eq!(lexer.next_token(), Some(Ok(ident("open"))));
}

#[test]
fn command_substitution_skips_quoted_parentheses() {
    let tokens = Lexer::tokenize("echo $(echo \")\" ')')").unwrap();
    assert_eq!(
        tokens,
        vec![
            ident("echo"),
            Token::CommandSubstitution("$(echo \")\" ')')".to_string()),
        ]
    );
}

#[test]
fn double_quoted_string_with_nested_substitution() {
    let tokens = Lexer::tokenize("echo \"outer: $(echo \"inner\")\"").unwrap();
    assert_eq!(
        tokens,
        vec![
            ident("echo"),
            Token::String("\"outer: $(echo \"inner\")\"".to_string()),
        ]
    );
}

#[test]
fn keywords_and_operators() {
    let tokens = Lexer::tokenize("if a >= b && c || d |||e").unwrap();
    assert_eq!(
        tokens,
        vec![
            Token::If,
            ident("a"),
            Token::GreaterThanOrEqual,
            ident("b"),
            Token::And,
            ident("c"),
            Token::Or,
            ident("d"),
            Token::ParallelPipe,
            ident("e"),
        ]
    );
}

#[test]
fn hash_inside_a_word_is_not_a_comment() {
    let tokens = Lexer::tokenize("echo foo#bar $# x#").unwrap();
    assert_eq!(
        tokens,
        vec![
            ident("echo"),
            ident("foo#bar"),
            Token::SpecialVariable("$#".to_string()),
            ident("x#"),
        ]
    );
}

#[test]
fn comment_after_operator_is_skipped() {
    let tokens = Lexer::tokenize("a;#c\nb").unwrap();
    assert_eq!(tokens, vec![ident("a"), Token::Semicolon, Token::Newline, ident("b")]);
}

fn stripped(s: &str) -> String {
    let v: Vec<char> = s.chars().collect();
    strip_comments(&v).into_iter().collect()
}

#[test]
fn comments_drop_the_rest_of_their_line() {
    assert_eq!(stripped("echo hi # note\nls"), "echo hi \nls");
    assert_eq!(stripped("# all\nx"), "\nx");
    assert_eq!(stripped("echo '#x' # c\nls"), "echo '#x' \nls");
}

#[test]
fn hashes_inside_words_stay() {
    assert_eq!(stripped("foo#bar ${V#p} $#"), "foo#bar ${V#p} $#");
}
