use aush::loops::{handle_loop_signal, LoopControl, LoopSignal};

fn s(x: &str) -> String {
    x.to_string()
}

#[test]
fn break_of_one_level_leaves_this_loop() {
    let mut out = s("a\n");
    let mut err = String::new();
    let r = handle_loop_signal(
        LoopSignal::Break { levels: 1, stdout: s("b\n"), stderr: s("w\n") },
        &mut out,
        &mut err,
        3,
    );
    assert_eq!(out, "a\nb\n");
    assert_eq!(err, "w\n");
    match r {
        LoopControl::Break { stdout, stderr, exit_code } => {
            assert_eq!(stdout, "a\nb\n");
            assert_eq!(stderr, "w\n");
            assert_eq!(exit_code, 3);
        }
        _ => panic!("expected a break"),
    }
}

#[test]
fn break_of_two_levels_passes_outward_with_all_output() {
    let mut inner_out = s("x");
    let mut inner_err = String::new();
    let r = handle_loop_signal(
        LoopSignal::Break { levels: 2, stdout: s("y"), stderr: String::new() },
        &mut inner_out,
        &mut inner_err,
        0,
    );
    let passed = match r {
        LoopControl::Propagate(sig) => sig,
        _ => panic!("expected the signal to pass outward"),
    };
    match &passed {
        LoopSignal::Break { levels, stdout, .. } => {
            assert_eq!(*levels, 1);
            assert_eq!(stdout, "xy");
        }
        _ => panic!("expected a break signal"),
    }
    let mut outer_out = s("o:");
    let mut outer_err = String::new();
    match handle_loop_signal(passed, &mut outer_out, &mut outer_err, 0) {
        LoopControl::Break { stdout, .. } => assert_eq!(stdout, "o:xy"),
        _ => panic!("expected the outer loop to break"),
    }
}

#[test]
fn continue_signals() {
    let mut out = String::new();
    let mut err = String::new();
    let r = handle_loop_signal(
        LoopSignal::Continue { levels: 1, stdout: s("1"), stderr: String::new() },
        &mut out,
        &mut err,
        0,
    );
    assert!(matches!(r, LoopControl::Continue));
    assert_eq!(out, "1");
    let r = handle_loop_signal(
        LoopSignal::Continue { levels: 3, stdout: s("2"), stderr: s("e") },
        &mut out,
        &mut err,
        0,
    );
    assert!(matches!(r, LoopControl::Propagate(LoopSignal::Continue { levels: 2, .. })));
    assert_eq!(out, "12");
    assert_eq!(err, "e");
}

#[test]
fn other_errors_pass_unchanged() {
    let mut out = s("keep");
    let mut err = String::new();
    let r = handle_loop_signal(LoopSignal::Other(s("boom")), &mut out, &mut err, 1);
    assert!(matches!(r, LoopControl::Propagate(LoopSignal::Other(m)) if m == "boom"));
    assert_eq!(out, "keep");
}
