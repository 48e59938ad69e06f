use aush::highlight::{settle_path_commands, AUSHHighlighter, Paint, Segment};

fn seg(paint: Paint, text: &str) -> Segment {
    Segment { paint, text: text.to_string() }
}

fn highlighter() -> AUSHHighlighter {
    AUSHHighlighter::new(vec!["cd".to_string(), "echo".to_string()])
}

#[test]
fn pipeline_is_painted() {
    let s = highlighter().highlight("ls -la | grep foo");
    assert_eq!(
        s,
        vec![
            seg(Paint::PathCommand, "ls"),
            seg(Paint::Plain, " "),
            seg(Paint::DarkGray, "-la"),
            seg(Paint::Plain, " "),
            seg(Paint::LightCyan, "|"),
            seg(Paint::Plain, " "),
            seg(Paint::PathCommand, "grep"),
            seg(Paint::Plain, " "),
            seg(Paint::Plain, "foo"),
        ]
    );
}

#[test]
fn builtin_and_comment() {
    let s = highlighter().highlight("cd /tmp # go home");
    assert_eq!(
        s,
        vec![
            seg(Paint::Green, "cd"),
            seg(Paint::Plain, " "),
            seg(Paint::Plain, "/tmp"),
            seg(Paint::Plain, " "),
            seg(Paint::DarkGray, "# go home"),
        ]
    );
}

#[test]
fn invalid_text_is_red() {
    let s = highlighter().highlight("echo \"unterminated");
    assert_eq!(
        s,
        vec![
            seg(Paint::Green, "echo"),
            seg(Paint::Plain, " "),
            seg(Paint::Red, "\""),
            seg(Paint::Plain, "unterminated"),
        ]
    );
}

#[test]
fn keywords_reset_command_position() {
    let s = highlighter().highlight("if true; then x; fi");
    assert_eq!(
        s,
        vec![
            seg(Paint::BoldBlue, "if"),
            seg(Paint::Plain, " "),
            seg(Paint::Plain, "true"),
            seg(Paint::Plain, ";"),
            seg(Paint::Plain, " "),
            seg(Paint::BoldBlue, "then"),
            seg(Paint::Plain, " "),
            seg(Paint::PathCommand, "x"),
            seg(Paint::Plain, ";"),
            seg(Paint::Plain, " "),
            seg(Paint::BoldBlue, "fi"),
        ]
    );
}

#[test]
fn strings_variables_numbers() {
    let s = highlighter().highlight("echo 'a' $HOME 42 > out");
    let paints: Vec<Paint> = s.iter().map(|g| g.paint).collect();
    assert_eq!(
        paints,
        vec![
            Paint::Green,
            Paint::Plain,
            Paint::Yellow,
            Paint::Plain,
            Paint::Cyan,
            Paint::Plain,
            Paint::Magenta,
            Paint::Plain,
            Paint::LightCyan,
            Paint::Plain,
            Paint::Plain,
        ]
    );
}

#[test]
fn empty_line_has_no_pieces() {
    assert!(highlighter().highlight("").is_empty());
}

#[test]
fn pieces_concatenate_to_the_line() {
    let line = "for f in *.rs; do echo $f | wc -l & done # end";
    let s = highlighter().highlight(line);
    let joined: String = s.iter().map(|g| g.text.as_str()).collect();
    assert_eq!(joined, line);
}

#[test]
fn path_commands_settle_green_or_red() {
    let h = AUSHHighlighter::new(vec!["echo".to_string()]);
    let pieces = settle_path_commands(h.highlight("ls | qqzz_missing | echo"), &["ls".to_string()]);
    let paints: Vec<(Paint, String)> = pieces.iter().map(|p| (p.paint, p.text.clone())).collect();
    assert!(paints.contains(&(Paint::Green, "ls".to_string())));
    assert!(paints.contains(&(Paint::Red, "qqzz_missing".to_string())));
    assert!(paints.contains(&(Paint::Green, "echo".to_string())));
    assert!(paints.iter().all(|(p, _)| *p != Paint::PathCommand));
}
