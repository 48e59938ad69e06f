use aush::dispatch::{builtin_failure, cancelled_message, command_action, contains_str, split_assignment, xtrace_line, CommandAction};
use aush::executor::{recent_commands, Runtime};
use aush::fds::{ExecRedirect, FdAction, FdSlot, FdState, OpenMode, PermanentFds};
use aush::literal::{split_literal, Piece};
use aush::resolve::{resolve_pieces, ShellParams};
use aush::spawn::{collect_output, spawn_plan, SpawnRedirect, StdioSetup};

fn strings(v: &[&str]) -> Vec<String> {
    v.iter().map(|s| s.to_string()).collect()
}

#[test]
fn trace_lines_name_the_command_and_its_arguments() {
    assert_eq!(xtrace_line("echo", &strings(&["a", "b c"])), "+ echo a b c");
    assert_eq!(xtrace_line("ls", &[]), "+ ls");
    assert_eq!(xtrace_line("ls", &strings(&[""])), "+ ls");
}

#[test]
fn commands_dispatch_to_functions_exec_builtins_or_programs() {
    let mut rt = Runtime::new();
    rt.set_alias("ll".to_string(), "ls -la".to_string());
    rt.set_alias("e".to_string(), "exec".to_string());
    let functions = strings(&["greet"]);
    let builtins = strings(&["echo", "exec", "cd"]);

    assert_eq!(command_action(&rt, &functions, &builtins, "", vec![], false), Ok(CommandAction::Nothing));
    assert_eq!(
        command_action(&rt, &functions, &builtins, "greet", strings(&["bob"]), true),
        Ok(CommandAction::Function { name: "greet".to_string(), args: strings(&["bob"]) })
    );
    assert_eq!(command_action(&rt, &functions, &builtins, "e", vec![], true), Ok(CommandAction::ExecPermanent));
    assert_eq!(
        command_action(&rt, &functions, &builtins, "exec", vec![], false),
        Ok(CommandAction::Builtin { name: "exec".to_string(), args: vec![] })
    );
    assert_eq!(
        command_action(&rt, &functions, &builtins, "exec", strings(&["ls"]), true),
        Ok(CommandAction::Builtin { name: "exec".to_string(), args: strings(&["ls"]) })
    );
    assert_eq!(
        command_action(&rt, &functions, &builtins, "ll", strings(&["/tmp"]), false),
        Ok(CommandAction::External { name: "ls".to_string(), args: strings(&["-la", "/tmp"]) })
    );
    rt.set_alias("blank".to_string(), " ".to_string());
    assert_eq!(
        command_action(&rt, &functions, &builtins, "blank", vec![], false),
        Err("Empty alias expansion for 'blank'".to_string())
    );
    assert!(contains_str(&builtins, "cd"));
    assert!(!contains_str(&builtins, "c"));
}

#[test]
fn prefix_assignments_are_undone_after_the_command() {
    let mut rt = Runtime::new();
    rt.set_variable("A".to_string(), "1".to_string());
    let assigns = vec![
        ("A".to_string(), "2".to_string()),
        ("B".to_string(), "x".to_string()),
        ("A".to_string(), "3".to_string()),
    ];
    let saved = rt.apply_prefix_env(&assigns);
    assert_eq!(rt.get_variable("A"), Some("3".to_string()));
    assert_eq!(rt.get_variable("B"), Some("x".to_string()));
    assert_eq!(
        saved,
        vec![
            ("A".to_string(), Some("1".to_string())),
            ("B".to_string(), None),
            ("A".to_string(), Some("1".to_string())),
        ]
    );
    rt.restore_prefix_env(&saved);
    assert_eq!(rt.get_variable("A"), Some("1".to_string()));
    assert_eq!(rt.get_variable("B"), None);
}

#[test]
fn exec_redirections_change_the_permanent_table() {
    let mut t = PermanentFds::new();
    assert_eq!(
        t.exec_redirect_step(ExecRedirect::Stdout("out.txt".to_string())),
        Ok(FdAction::Open { path: "out.txt".to_string(), mode: OpenMode::Truncate, slot: FdSlot::Stdout, also_stderr: false })
    );
    t.install(FdSlot::Stdout, 7);
    assert_eq!(t.exec_redirect_step(ExecRedirect::StderrToStdout), Ok(FdAction::Nothing));
    assert_eq!(t.stderr(), Some(7));

    let mut fresh = PermanentFds::new();
    assert_eq!(fresh.exec_redirect_step(ExecRedirect::StderrToStdout), Ok(FdAction::Nothing));
    assert_eq!(fresh.stderr(), Some(1));
    assert_eq!(fresh.exec_redirect_step(ExecRedirect::StdoutToStderr), Ok(FdAction::Nothing));
    assert_eq!(fresh.stdout(), Some(1));

    assert_eq!(t.exec_redirect_step(ExecRedirect::CloseFd(3)), Ok(FdAction::Nothing));
    assert_eq!(t.fd(3), Some(FdState::Closed));
    assert_eq!(t.exec_redirect_step(ExecRedirect::StdoutToFd(3)), Err("bad file descriptor".to_string()));
    assert_eq!(t.stdout(), Some(7));
    t.install(FdSlot::Fd(3), 9);
    assert_eq!(t.exec_redirect_step(ExecRedirect::StdoutToFd(3)), Ok(FdAction::Nothing));
    assert_eq!(t.stdout(), Some(9));
    assert_eq!(t.exec_redirect_step(ExecRedirect::StdoutToFd(5)), Ok(FdAction::Nothing));
    assert_eq!(t.stdout(), Some(5));
    assert_eq!(
        t.exec_redirect_step(ExecRedirect::FdInputFrom(0, 3)),
        Ok(FdAction::Dup { fd: 9, slot: FdSlot::Stdin })
    );
    assert_eq!(
        t.exec_redirect_step(ExecRedirect::Invalid("syntax error".to_string())),
        Err("syntax error".to_string())
    );
}

#[test]
fn words_resolve_variables_parameters_and_substitutions() {
    let vars = vec![("HOME".to_string(), "/home/u".to_string()), ("X".to_string(), "abc.txt".to_string())];
    let p = ShellParams {
        positional: strings(&["one", "two"]),
        last_exit: -3,
        pid: 42,
        last_bg_pid: None,
        option_flags: "ex".to_string(),
        last_arg: "prev".to_string(),
    };
    let pieces = split_literal("$HOME/$1-$2-$3:$?:$$:$#:$@:$!:$-:$_:$0:${X%.txt}:$(date)|`id`|$(x)");
    let out = resolve_pieces(&pieces, &vars, &p, &strings(&["TODAY", "ME"]));
    assert_eq!(out, "/home/u/one-two-:-3:42:2:one two::ex:prev:rush:abc:TODAY|ME|");
    let text = vec![Piece::Text("plain".to_string()), Piece::Variable("NOPE".to_string())];
    assert_eq!(resolve_pieces(&text, &vars, &p, &[]), "plain");
}

#[test]
fn external_commands_get_their_streams_from_the_redirections() {
    let plan = spawn_plan(&[], true, true).unwrap();
    assert!(plan.inherit_io);
    assert_eq!((plan.stdin, plan.stdout, plan.stderr), (StdioSetup::Inherit, StdioSetup::Inherit, StdioSetup::Inherit));

    let plan = spawn_plan(&[], true, false).unwrap();
    assert!(!plan.inherit_io);
    assert_eq!((plan.stdout, plan.stderr), (StdioSetup::Piped, StdioSetup::Piped));
    assert!(plan.capture_stdout && plan.capture_stderr);

    let ops = vec![
        SpawnRedirect::Stdout("a".to_string()),
        SpawnRedirect::StderrToStdout,
        SpawnRedirect::HereDoc("first".to_string()),
        SpawnRedirect::HereDoc("second".to_string()),
        SpawnRedirect::FdOut(5, "b".to_string()),
        SpawnRedirect::CloseFd(0),
    ];
    let plan = spawn_plan(&ops, true, true).unwrap();
    assert!(!plan.inherit_io);
    assert_eq!(plan.opens, vec![("a".to_string(), OpenMode::Truncate), ("b".to_string(), OpenMode::Truncate)]);
    assert_eq!(plan.stdout, StdioSetup::File(0));
    assert_eq!(plan.stderr, StdioSetup::Piped);
    assert_eq!(plan.stdin, StdioSetup::Null);
    assert_eq!(plan.heredoc, Some("second".to_string()));
    assert!(!plan.capture_stdout && !plan.capture_stderr && plan.stderr_to_stdout);

    let both = spawn_plan(&[SpawnRedirect::BothAppend("log".to_string())], false, true).unwrap();
    assert_eq!((both.stdout, both.stderr), (StdioSetup::File(0), StdioSetup::File(0)));
    assert_eq!(both.opens, vec![("log".to_string(), OpenMode::Append)]);

    let bad = vec![
        SpawnRedirect::Stdout("made".to_string()),
        SpawnRedirect::Invalid("aush: syntax error near unexpected token `>'".to_string()),
        SpawnRedirect::Stdout("never".to_string()),
    ];
    let f = spawn_plan(&bad, false, false).unwrap_err();
    assert_eq!(f.exit_code, 2);
    assert_eq!(f.opens, vec![("made".to_string(), OpenMode::Truncate)]);
    let f = spawn_plan(&[SpawnRedirect::Invalid("ambiguous redirect".to_string())], false, false).unwrap_err();
    assert_eq!((f.exit_code, f.message.as_str()), (1, "ambiguous redirect"));
}

#[test]
fn captured_output_is_joined_or_shown_as_errors() {
    let plan = spawn_plan(&[SpawnRedirect::StderrToStdout], false, false).unwrap();
    assert_eq!(collect_output(&plan, "out\n", "err\n"), ("out\nerr\n".to_string(), String::new(), String::new()));
    let plan = spawn_plan(&[SpawnRedirect::StdoutToStderr], false, false).unwrap();
    assert_eq!(collect_output(&plan, "out\n", "err\n"), (String::new(), String::new(), "err\n".to_string()));
    let plan = spawn_plan(&[], false, false).unwrap();
    assert_eq!(collect_output(&plan, "o", "e"), ("o".to_string(), String::new(), "e".to_string()));
}

#[test]
fn suggestions_draw_on_the_last_hundred_commands_newest_first() {
    let cmds: Vec<String> = (0..150).map(|i| format!("c{}", i)).collect();
    let r = recent_commands(&cmds);
    assert_eq!(r.len(), 100);
    assert_eq!(r[0], "c149");
    assert_eq!(r[99], "c50");
    assert_eq!(recent_commands(&strings(&["a", "b"])), strings(&["b", "a"]));
}

#[test]
fn declined_and_failed_builtins_report_on_stderr() {
    assert_eq!(cancelled_message("rm"), "Cancelled rm\n");
    assert_eq!(builtin_failure("cd", "no such directory"), Some("cd: no such directory\n".to_string()));
    assert_eq!(builtin_failure("break", "not in a loop"), None);
    assert_eq!(builtin_failure("shift", "shift count out of range"), None);
}

#[test]
fn assignment_words_have_a_name_before_their_first_equals() {
    assert_eq!(split_assignment("A=1"), Some(("A".to_string(), "1".to_string())));
    assert_eq!(split_assignment("_x9=a=b"), Some(("_x9".to_string(), "a=b".to_string())));
    assert_eq!(split_assignment("X="), Some(("X".to_string(), String::new())));
    assert_eq!(split_assignment("=1"), None);
    assert_eq!(split_assignment("9A=1"), None);
    assert_eq!(split_assignment("a-b=1"), None);
    assert_eq!(split_assignment("ls"), None);
}

#[test]
fn runtime_variables_feed_word_resolution() {
    let mut rt = Runtime::new();
    rt.set_variable("GREETING".to_string(), "hi".to_string());
    rt.set_variable("GREETING".to_string(), "hello".to_string());
    let vars = rt.variables();
    let p = ShellParams {
        positional: vec![],
        last_exit: 0,
        pid: 1,
        last_bg_pid: Some(77),
        option_flags: String::new(),
        last_arg: String::new(),
    };
    assert_eq!(resolve_pieces(&split_literal("$GREETING world $!"), &vars, &p, &[]), "hello world 77");
}
