use aush::redirect::{redirect_part_at, RedirectPart};

fn part(s: &str, i: usize) -> RedirectPart {
    let chars: Vec<char> = s.chars().collect();
    redirect_part_at(&chars, i)
}

#[test]
fn plain_characters() {
    assert_eq!(part("/tmp/x", 0), RedirectPart::Char);
    assert_eq!(part("a$", 1), RedirectPart::Char);
    assert_eq!(part("$-", 0), RedirectPart::Char);
    assert_eq!(part("`date`", 0), RedirectPart::Char);
}

#[test]
fn variables() {
    assert_eq!(part("/tmp/log-$name.txt", 9), RedirectPart::Variable { start: 10, end: 14 });
    assert_eq!(part("$1x_", 0), RedirectPart::Variable { start: 1, end: 4 });
}

#[test]
fn braced_names_to_matching_brace() {
    assert_eq!(part("${HOME}/f", 0), RedirectPart::Braced { start: 2, end: 6 });
    assert_eq!(part("${a{b}c}", 0), RedirectPart::Braced { start: 2, end: 7 });
    assert_eq!(part("${open", 0), RedirectPart::Char);
}

#[test]
fn commands_and_arithmetic() {
    assert_eq!(
        part("out-$(date +%s).log", 4),
        RedirectPart::Command { start: 6, end: 14, arithmetic: false }
    );
    assert_eq!(part("$((1+2))", 0), RedirectPart::Command { start: 2, end: 7, arithmetic: true });
    assert_eq!(part("$(a)(b)", 0), RedirectPart::Command { start: 2, end: 3, arithmetic: false });
    assert_eq!(part("$(unclosed", 0), RedirectPart::Char);
}

#[test]
fn specials() {
    assert_eq!(part("$?", 0), RedirectPart::Special('?'));
    assert_eq!(part("x$$", 1), RedirectPart::Special('$'));
}
