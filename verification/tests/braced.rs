use aush::braced::{parse_braced_var_expansion, ExpansionOp};

fn parts(b: &str) -> (String, ExpansionOp, String) {
    let e = parse_braced_var_expansion(b);
    (e.name, e.operator, e.word)
}

fn p(name: &str, op: ExpansionOp, word: &str) -> (String, ExpansionOp, String) {
    (name.to_string(), op, word.to_string())
}

#[test]
fn simple_and_length() {
    assert_eq!(parts("${VAR}"), p("VAR", ExpansionOp::Simple, ""));
    assert_eq!(parts("${#VAR}"), p("VAR", ExpansionOp::StringLength, ""));
}

#[test]
fn operators_with_words() {
    assert_eq!(parts("${VAR:-default}"), p("VAR", ExpansionOp::UseDefault, "default"));
    assert_eq!(parts("${VAR:=x}"), p("VAR", ExpansionOp::AssignDefault, "x"));
    assert_eq!(parts("${VAR:?err}"), p("VAR", ExpansionOp::ErrorIfUnset, "err"));
    assert_eq!(parts("${VAR:+alt}"), p("VAR", ExpansionOp::UseAlternate, "alt"));
    assert_eq!(parts("${VAR##*/}"), p("VAR", ExpansionOp::RemoveLongestPrefix, "*/"));
    assert_eq!(parts("${VAR#p}"), p("VAR", ExpansionOp::RemoveShortestPrefix, "p"));
    assert_eq!(parts("${VAR%%.*}"), p("VAR", ExpansionOp::RemoveLongestSuffix, ".*"));
    assert_eq!(parts("${VAR%s}"), p("VAR", ExpansionOp::RemoveShortestSuffix, "s"));
}

#[test]
fn operators_are_tried_in_order() {
    assert_eq!(parts("${A:=b:-c}"), p("A:=b", ExpansionOp::UseDefault, "c"));
    assert_eq!(parts("${#VAR:-x}"), p("#VAR", ExpansionOp::UseDefault, "x"));
    assert_eq!(parts("${#a#b}"), p("", ExpansionOp::RemoveShortestPrefix, "a#b"));
}

#[test]
fn repeated_delimiters_are_removed() {
    assert_eq!(parts("${${X}}"), p("X", ExpansionOp::Simple, ""));
}

fn vars() -> Vec<(String, String)> {
    vec![
        ("FILE".to_string(), "archive.tar.gz".to_string()),
        ("DIR".to_string(), "/usr/local/bin".to_string()),
        ("EMPTY".to_string(), String::new()),
        ("NAME".to_string(), "héllo".to_string()),
    ]
}

fn expand(expr: &str) -> (String, Option<String>) {
    let r = aush::braced::expand_braced_variable(expr, &vars());
    (r.value, r.warning)
}

#[test]
fn braced_values() {
    assert_eq!(expand("FILE").0, "archive.tar.gz");
    assert_eq!(expand("MISSING").0, "");
    assert_eq!(expand("#NAME").0, "6");
    assert_eq!(expand("#MISSING").0, "0");
}

#[test]
fn braced_defaults_and_alternates() {
    assert_eq!(expand("MISSING:-dflt").0, "dflt");
    assert_eq!(expand("EMPTY:-dflt").0, "dflt");
    assert_eq!(expand("FILE:-dflt").0, "archive.tar.gz");
    assert_eq!(expand("EMPTY:=x").0, "x");
    assert_eq!(expand("FILE:+alt").0, "alt");
    assert_eq!(expand("EMPTY:+alt").0, "");
}

#[test]
fn braced_unset_error_reports() {
    assert_eq!(expand("MISSING:?not set"), (String::new(), Some("MISSING: not set".to_string())));
    assert_eq!(expand("FILE:?not set"), ("archive.tar.gz".to_string(), None));
}

#[test]
fn braced_removals() {
    assert_eq!(expand("FILE%%.*").0, "archive");
    assert_eq!(expand("FILE%.*").0, "archive.tar");
    assert_eq!(expand("DIR##*/").0, "bin");
    assert_eq!(expand("DIR#*/").0, "usr/local/bin");
}
