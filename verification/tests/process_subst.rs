use aush::process_subst::{
    is_output_path, output_target, process_substitution_marker, split_process_substitution_argument,
    split_process_substitution_output,
};

fn pair(a: &str, b: &str) -> Option<(String, String)> {
    Some((a.to_string(), b.to_string()))
}

#[test]
fn marker_writes_slashes_as_tilde_s() {
    assert_eq!(
        process_substitution_marker("/tmp/aush-process-subst-1-2", "ls -l"),
        "__AUSH_PROCESS_SUBST_ARG__~stmp~saush-process-subst-1-2::ls -l"
    );
}

#[test]
fn marker_roundtrip() {
    let m = process_substitution_marker("/tmp/a/b", "sort | uniq");
    assert_eq!(split_process_substitution_argument(&m), pair("/tmp/a/b", "sort | uniq"));
    let m = process_substitution_marker("", "x::y");
    assert_eq!(split_process_substitution_argument(&m), pair("", "x::y"));
}

#[test]
fn argument_split_needs_prefix_and_separator() {
    assert_eq!(split_process_substitution_argument("plain"), None);
    assert_eq!(split_process_substitution_argument("__AUSH_PROCESS_SUBST_ARG__~snone"), None);
    assert_eq!(
        split_process_substitution_argument("x__AUSH_PROCESS_SUBST_ARG__~sa::b"),
        None
    );
    assert_eq!(
        split_process_substitution_argument("__AUSH_PROCESS_SUBST_ARG__a::b::c"),
        pair("a", "b::c")
    );
}

#[test]
fn output_split_keeps_the_path_as_written() {
    assert_eq!(
        split_process_substitution_output("__AUSH_PROCESS_SUBST_OUT__/tmp/o::wc -l"),
        pair("/tmp/o", "wc -l")
    );
    assert_eq!(split_process_substitution_output("__AUSH_PROCESS_SUBST_ARG__/tmp/o::wc"), None);
}

#[test]
fn output_paths() {
    assert!(is_output_path("/tmp/aush-process-subst-out-1-2"));
    assert!(!is_output_path("/tmp/aush-process-subst-1-2"));
}

#[test]
fn output_targets() {
    assert_eq!(
        output_target("__AUSH_PROCESS_SUBST_OUT__/tmp/x::cat"),
        pair("/tmp/x", "cat")
    );
    assert_eq!(
        output_target("__AUSH_PROCESS_SUBST_ARG__~stmp~saush-process-subst-out-1::tee f"),
        pair("/tmp/aush-process-subst-out-1", "tee f")
    );
    assert_eq!(output_target("__AUSH_PROCESS_SUBST_ARG__~stmp~saush-process-subst-1::ls"), None);
    assert_eq!(output_target("file.txt"), None);
}

#[test]
fn marker_roundtrip_with_tildes_and_single_colons() {
    let m = process_substitution_marker("/tmp/a~b:c/~/d", "cat");
    assert_eq!(split_process_substitution_argument(&m), pair("/tmp/a~b:c/~/d", "cat"));
}
