use aush::literal::{split_heredoc_body, split_literal, Piece};

fn text(s: &str) -> Piece {
    Piece::Text(s.to_string())
}

#[test]
fn literal_plain_text_is_one_part() {
    assert_eq!(split_literal("hello world"), vec![text("hello world")]);
    assert_eq!(split_literal(""), Vec::<Piece>::new());
}

#[test]
fn literal_variables_and_text() {
    assert_eq!(
        split_literal("a $HOME/b"),
        vec![text("a "), Piece::Variable("HOME".to_string()), text("/b")]
    );
    assert_eq!(
        split_literal("$x_1-y"),
        vec![Piece::Variable("x_1".to_string()), text("-y")]
    );
}

#[test]
fn literal_positional_parameters() {
    assert_eq!(split_literal("$1"), vec![Piece::Positional(1)]);
    assert_eq!(split_literal("$0"), vec![Piece::Positional(0)]);
    assert_eq!(split_literal("$12x"), vec![Piece::Variable("12x".to_string())]);
    assert_eq!(
        split_literal("$99999999999999999999999"),
        vec![Piece::Variable("99999999999999999999999".to_string())]
    );
}

#[test]
fn literal_special_parameters() {
    assert_eq!(
        split_literal("$? $$ $# $_"),
        vec![
            Piece::Special('?'),
            text(" "),
            Piece::Special('$'),
            text(" "),
            Piece::Special('#'),
            text(" "),
            Piece::Special('_'),
        ]
    );
}

#[test]
fn literal_braced_nested_and_unclosed() {
    assert_eq!(
        split_literal("x${A:-{b}}y"),
        vec![text("x"), Piece::Braced("A:-{b}".to_string()), text("y")]
    );
    assert_eq!(split_literal("${OPEN"), vec![Piece::Braced("OPEN".to_string())]);
}

#[test]
fn literal_command_substitutions_as_written() {
    assert_eq!(
        split_literal("v=$(echo (a)) end"),
        vec![text("v="), Piece::Substitution("$(echo (a))".to_string()), text(" end")]
    );
    assert_eq!(split_literal("$(ls"), vec![Piece::Substitution("$(ls".to_string())]);
    assert_eq!(
        split_literal("`a\\`b` c"),
        vec![Piece::Substitution("`a\\`b`".to_string()), text(" c")]
    );
}

#[test]
fn literal_lone_dollar_stays() {
    assert_eq!(split_literal("cost: $"), vec![text("cost: $")]);
    assert_eq!(split_literal("$ x"), vec![text("$ x")]);
    assert_eq!(split_literal("a$.b"), vec![text("a$.b")]);
}

#[test]
fn heredoc_variables_and_escapes() {
    assert_eq!(
        split_heredoc_body("Hi $USER\\n\\$x \\q"),
        vec![text("Hi "), Piece::Variable("USER".to_string()), text("\n$x \\q")]
    );
    assert_eq!(split_heredoc_body("a\\tb\\\\"), vec![text("a\tb\\")]);
}

#[test]
fn heredoc_commands_without_delimiters() {
    assert_eq!(
        split_heredoc_body("now: $(date (x))!"),
        vec![text("now: "), Piece::Command("date (x)".to_string()), text("!")]
    );
    assert_eq!(
        split_heredoc_body("`pwd`"),
        vec![Piece::Command("pwd".to_string())]
    );
}

#[test]
fn heredoc_unclosed_openers_stay_text() {
    assert_eq!(split_heredoc_body("$(ls"), vec![text("$(ls")]);
    assert_eq!(split_heredoc_body("${X"), vec![text("${X")]);
    assert_eq!(split_heredoc_body("`x"), vec![text("`x")]);
}

#[test]
fn heredoc_braced_to_first_close_and_specials() {
    assert_eq!(
        split_heredoc_body("${A:-b}c$?$$$1"),
        vec![
            Piece::Braced("A:-b".to_string()),
            text("c"),
            Piece::Special('?'),
            Piece::Special('$'),
            text("$1"),
        ]
    );
}
