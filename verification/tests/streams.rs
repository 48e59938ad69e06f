use aush::streams::{Delivery, RedirectOp, Refusal, Sink, StreamTarget, Streams};

fn s(x: &str) -> String {
    x.to_string()
}

fn file(path: &str, append: bool) -> StreamTarget {
    StreamTarget::File { path: s(path), append }
}

fn to_file(fd: u32, path: &str) -> RedirectOp {
    RedirectOp::ToFile { fd, path: s(path), append: false }
}

#[test]
fn stdout_to_file_then_stderr_to_stdout_sends_both_to_the_file() {
    let mut st = Streams::new(&[], s("out\n"), s("err\n"));
    assert!(st.apply(to_file(1, "/tmp/f")).is_none());
    assert!(st.apply(RedirectOp::StderrToStdout).is_none());
    assert_eq!(
        st.deliver(),
        Delivery {
            sinks: vec![Sink { target: file("/tmp/f", false), content: s("out\nerr\n") }],
            stdout: String::new(),
            stderr: String::new(),
        }
    );
}

#[test]
fn stderr_to_stdout_then_stdout_to_file_keeps_stderr_with_the_old_stdout() {
    let mut st = Streams::new(&[], s("out\n"), s("err\n"));
    assert!(st.apply(RedirectOp::StderrToStdout).is_none());
    assert_eq!(st.captured(), (s("out\nerr\n"), String::new()));
    assert!(st.apply(to_file(1, "/tmp/f")).is_none());
    assert_eq!(st.target_of(2), StreamTarget::Capture);
    assert_eq!(
        st.deliver(),
        Delivery {
            sinks: vec![Sink { target: file("/tmp/f", false), content: s("out\nerr\n") }],
            stdout: String::new(),
            stderr: String::new(),
        }
    );
}

#[test]
fn separate_files_and_closed_stderr() {
    let mut st = Streams::new(&[], s("o"), s("e"));
    st.apply(to_file(1, "/tmp/a"));
    st.apply(RedirectOp::ToFile { fd: 2, path: s("/tmp/a"), append: true });
    let d = st.deliver();
    assert_eq!(
        d.sinks,
        vec![
            Sink { target: file("/tmp/a", false), content: s("o") },
            Sink { target: file("/tmp/a", true), content: s("e") },
        ]
    );
    let mut st = Streams::new(&[], s("o"), s("e"));
    st.apply(RedirectOp::CloseFd(2));
    let d = st.deliver();
    assert!(d.sinks.is_empty());
    assert_eq!((d.stdout, d.stderr), (s("o"), String::new()));
    let mut st = Streams::new(&[], s("o"), s("e"));
    st.apply(RedirectOp::CloseFd(1));
    assert_eq!(st.deliver().stdout, "o");
}

#[test]
fn both_streams_to_one_file() {
    let mut st = Streams::new(&[], s("1"), s("2"));
    st.apply(RedirectOp::Both { path: s("/tmp/log"), append: true });
    assert_eq!(
        st.deliver().sinks,
        vec![Sink { target: file("/tmp/log", true), content: s("12") }]
    );
}

#[test]
fn lasting_descriptors() {
    let mut st = Streams::new(&[(3, Some(9)), (5, None)], s("x"), String::new());
    assert_eq!(st.target_of(3), StreamTarget::RawFd(9));
    assert_eq!(st.target_of(5), StreamTarget::Closed);
    assert_eq!(
        st.apply(RedirectOp::StdoutToFd(5)),
        Some(Refusal { message: s("bad file descriptor"), exit_code: 1 })
    );
    assert!(st.apply(RedirectOp::StdoutToFd(3)).is_none());
    let d = st.deliver();
    assert_eq!(d.sinks, vec![Sink { target: StreamTarget::RawFd(9), content: s("x") }]);
    assert_eq!(d.stdout, "");
}

#[test]
fn raw_descriptor_gets_no_empty_write() {
    let mut st = Streams::new(&[(4, Some(7))], String::new(), String::new());
    st.apply(RedirectOp::StdoutToFd(4));
    assert!(st.deliver().sinks.is_empty());
}

#[test]
fn input_duplication_and_refusals() {
    let mut st = Streams::new(&[(7, None)], String::new(), String::new());
    assert_eq!(
        st.apply(RedirectOp::FdInputFrom(0, 7)),
        Some(Refusal { message: s("bad file descriptor"), exit_code: 1 })
    );
    assert!(st.apply(RedirectOp::FdInputFrom(1, 7)).is_none());
    assert!(st.apply(RedirectOp::FdInputFrom(0, 1)).is_none());
    assert_eq!(st.target_of(0), StreamTarget::Capture);
    assert_eq!(
        st.apply(RedirectOp::Invalid(s("syntax error near unexpected token `newline'"))),
        Some(Refusal { message: s("syntax error near unexpected token `newline'"), exit_code: 2 })
    );
    assert_eq!(
        st.apply(RedirectOp::Invalid(s("ambiguous redirect"))),
        Some(Refusal { message: s("ambiguous redirect"), exit_code: 1 })
    );
    assert!(st.apply(RedirectOp::Skip).is_none());
}
