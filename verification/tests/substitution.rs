use aush::substitution::{is_arithmetic, split_substitutions, substitution_end, Span, SpanKind};

fn lit(start: usize, end: usize) -> Span {
    Span { start, end, kind: SpanKind::Literal }
}

fn sub(start: usize, end: usize) -> Span {
    Span { start, end, kind: SpanKind::Substitution }
}

#[test]
fn dollar_paren_ends_after_its_closing_paren() {
    assert_eq!(substitution_end(b"$(echo hi) x", 0), Some(10));
    assert_eq!(substitution_end(b"$(a $(b) c)!", 0), Some(11));
    assert_eq!(substitution_end(b"x $(pwd)", 2), Some(8));
}

#[test]
fn quoted_parens_do_not_count() {
    assert_eq!(substitution_end(b"$(echo ')')", 0), Some(11));
    assert_eq!(substitution_end(b"$(echo \"(\\\")\")", 0), Some(14));
}

#[test]
fn unclosed_substitutions_are_none() {
    assert_eq!(substitution_end(b"$(echo", 0), None);
    assert_eq!(substitution_end(b"$(echo 'x)", 0), None);
    assert_eq!(substitution_end(b"$(echo \"x)", 0), None);
    assert_eq!(substitution_end(b"`abc", 0), None);
}

#[test]
fn no_substitution_starts_elsewhere() {
    assert_eq!(substitution_end(b"$x", 0), None);
    assert_eq!(substitution_end(b"$", 0), None);
    assert_eq!(substitution_end(b"ab", 1), None);
    assert_eq!(substitution_end(b"ab", 5), None);
}

#[test]
fn backquotes() {
    assert_eq!(substitution_end(b"`ls` -l", 0), Some(4));
    assert_eq!(substitution_end(b"``", 0), Some(2));
    assert_eq!(substitution_end(b"`a\\`b`", 0), Some(6));
    assert_eq!(substitution_end(b"`a\\`", 0), Some(4));
}

#[test]
fn arithmetic_form() {
    assert!(is_arithmetic(b"$((1+2))", 0, 8));
    assert!(is_arithmetic(b"$(())", 0, 5));
    assert!(!is_arithmetic(b"$(ls)", 0, 5));
    assert!(!is_arithmetic(b"$((a) b)", 0, 8));
    assert!(is_arithmetic(b"x=$((2*3));", 2, 10));
}

#[test]
fn split_into_literal_runs_and_substitutions() {
    assert_eq!(
        split_substitutions(b"a $(b) `c` d"),
        vec![lit(0, 2), sub(2, 6), lit(6, 7), sub(7, 10), lit(10, 12)]
    );
    assert_eq!(split_substitutions(b""), Vec::<Span>::new());
    assert_eq!(split_substitutions(b"plain"), vec![lit(0, 5)]);
}

#[test]
fn split_keeps_unclosed_openers_as_text() {
    assert_eq!(split_substitutions(b"$(x"), vec![lit(0, 3)]);
    assert_eq!(split_substitutions("é$(x)".as_bytes()), vec![lit(0, 2), sub(2, 6)]);
}

#[test]
fn spans_cover_the_whole_text() {
    let text = "say $(echo ')') and `date` then $(( 1 + 2 )) $(open";
    let spans = split_substitutions(text.as_bytes());
    assert_eq!(spans[0].start, 0);
    assert_eq!(spans[spans.len() - 1].end, text.len());
    for w in spans.windows(2) {
        assert_eq!(w[0].end, w[1].start);
    }
}
