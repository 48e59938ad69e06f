use aush::prompt::{expand_prompt, history_search_indicator, prompt_indicator, PromptContext};

fn ctx(exit_code: i32) -> PromptContext {
    PromptContext {
        cwd: "~/src".to_string(),
        git_branch: Some("main".to_string()),
        exit_code,
        user: "ann".to_string(),
        host: "box".to_string(),
        time: "09:30".to_string(),
    }
}

#[test]
fn tokens_are_expanded() {
    assert_eq!(
        expand_prompt("{user}@{host}:{cwd} {git}{exit}> ", &ctx(1)),
        "ann@box:~/src main1> "
    );
    assert_eq!(expand_prompt("{time}{nl}$ ", &ctx(0)), "09:30\n$ ");
    assert_eq!(expand_prompt("[{exit}]", &ctx(0)), "[]");
}

#[test]
fn styles_and_colors() {
    assert_eq!(expand_prompt("{bold}x{reset}", &ctx(0)), "\x1b[1mx\x1b[0m");
    assert_eq!(expand_prompt("{dim}{italic}", &ctx(0)), "\x1b[2m\x1b[3m");
    assert_eq!(expand_prompt("{#ff8000}c", &ctx(0)), "\x1b[38;2;255;128;0mc");
    assert_eq!(expand_prompt("{#zz0000}c", &ctx(0)), "c");
}

#[test]
fn unknown_tokens_stay() {
    assert_eq!(expand_prompt("{unknown} {#ff}", &ctx(0)), "{unknown} {#ff}");
    assert_eq!(expand_prompt("a{open", &ctx(0)), "a{open}");
}

#[test]
fn default_prompt_shows_branch_and_status() {
    assert_eq!(
        prompt_indicator(None, &ctx(1)),
        "~/src \x1b[33m(main)\x1b[0m \x1b[31m[1]\x1b[0m\x1b[36m>\x1b[0m "
    );
    let plain = PromptContext { git_branch: None, ..ctx(0) };
    assert_eq!(prompt_indicator(None, &plain), "~/src\x1b[36m>\x1b[0m ");
    assert_eq!(prompt_indicator(Some("{cwd}$ "), &plain), "~/src$ ");
}

#[test]
fn search_indicator() {
    assert_eq!(history_search_indicator(false, "ls"), "(reverse-search: ls) ");
    assert_eq!(history_search_indicator(true, "ls"), "(failing reverse-search: ls) ");
}
