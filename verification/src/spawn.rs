//! How an external command's standard streams are set up from its
//! redirections, and what of its output the shell keeps. The caller opens
//! the files, spawns the program, feeds it the here-document and collects
//! its output; the decisions are made here.
use vstd::prelude::*;
use crate::fds::OpenMode;
use crate::text::{append_str, chars_of, contains_sub, has_sub, owned};

verus! {

/// A redirection of an external command, with its target or here-document
/// body already expanded.
#[derive(Debug, PartialEq)]
pub enum SpawnRedirect {
    /// `> path`
    Stdout(String),
    /// `>> path`
    StdoutAppend(String),
    /// `< path`
    Stdin(String),
    /// `n< path`
    FdIn(i32, String),
    /// `2> path`
    Stderr(String),
    /// `n> path`
    FdOut(i32, String),
    /// `<> path`
    ReadWrite(String),
    /// `2>&1`
    StderrToStdout,
    /// `1>&2`
    StdoutToStderr,
    /// `>&n`
    StdoutToFd(i32),
    /// `m<&n`
    FdInputFrom(i32, i32),
    /// `n>&-`
    CloseFd(i32),
    /// A redirection the parser rejected, with its message.
    Invalid(String),
    /// `&> path`
    Both(String),
    /// `&>> path`
    BothAppend(String),
    /// A here-document, with its body.
    HereDoc(String),
}

/// A redirection as plain values.
pub enum SpawnRedirectView {
    Stdout(Seq<char>),
    StdoutAppend(Seq<char>),
    Stdin(Seq<char>),
    FdIn(i32, Seq<char>),
    Stderr(Seq<char>),
    FdOut(i32, Seq<char>),
    ReadWrite(Seq<char>),
    StderrToStdout,
    StdoutToStderr,
    StdoutToFd(i32),
    FdInputFrom(i32, i32),
    CloseFd(i32),
    Invalid(Seq<char>),
    Both(Seq<char>),
    BothAppend(Seq<char>),
    HereDoc(Seq<char>),
}

impl View for SpawnRedirect {
    type V = SpawnRedirectView;

    open spec fn view(&self) -> SpawnRedirectView {
        match self {
            SpawnRedirect::Stdout(p) => SpawnRedirectView::Stdout(p@),
            SpawnRedirect::StdoutAppend(p) => SpawnRedirectView::StdoutAppend(p@),
            SpawnRedirect::Stdin(p) => SpawnRedirectView::Stdin(p@),
            SpawnRedirect::FdIn(n, p) => SpawnRedirectView::FdIn(*n, p@),
            SpawnRedirect::Stderr(p) => SpawnRedirectView::Stderr(p@),
            SpawnRedirect::FdOut(n, p) => SpawnRedirectView::FdOut(*n, p@),
            SpawnRedirect::ReadWrite(p) => SpawnRedirectView::ReadWrite(p@),
            SpawnRedirect::StderrToStdout => SpawnRedirectView::StderrToStdout,
            SpawnRedirect::StdoutToStderr => SpawnRedirectView::StdoutToStderr,
            SpawnRedirect::StdoutToFd(n) => SpawnRedirectView::StdoutToFd(*n),
            SpawnRedirect::FdInputFrom(m, n) => SpawnRedirectView::FdInputFrom(*m, *n),
            SpawnRedirect::CloseFd(n) => SpawnRedirectView::CloseFd(*n),
            SpawnRedirect::Invalid(m) => SpawnRedirectView::Invalid(m@),
            SpawnRedirect::Both(p) => SpawnRedirectView::Both(p@),
            SpawnRedirect::BothAppend(p) => SpawnRedirectView::BothAppend(p@),
            SpawnRedirect::HereDoc(b) => SpawnRedirectView::HereDoc(b@),
        }
    }
}

/// What a standard stream of the program is.
#[derive(Clone, Copy, Debug, PartialEq, Eq, Structural)]
pub enum StdioSetup {
    /// The shell's own stream.
    Inherit,
    /// A pipe that the shell reads or writes.
    Piped,
    /// Nothing.
    Null,
    /// The file opened at this index of the plan's opens.
    File(usize),
}

/// The streams as the redirections leave them, before the defaults.
pub struct SetupState {
    pub stdin: Option<StdioSetup>,
    pub stdout: Option<StdioSetup>,
    pub stderr: Option<StdioSetup>,
    pub stderr_to_stdout: bool,
    pub stdout_to_stderr: bool,
    pub heredoc: Option<Seq<char>>,
    pub opens: Seq<(Seq<char>, OpenMode)>,
}

/// No redirection yet.
pub open spec fn setup_start() -> SetupState {
    SetupState {
        stdin: None,
        stdout: None,
        stderr: None,
        stderr_to_stdout: false,
        stdout_to_stderr: false,
        heredoc: None,
        opens: Seq::empty(),
    }
}

/// The state after a file is opened in `mode`.
pub open spec fn with_open(s: SetupState, path: Seq<char>, mode: OpenMode) -> SetupState {
    SetupState { opens: s.opens.push((path, mode)), ..s }
}

/// The message that makes a rejected redirection fail with status 2.
pub open spec fn syntax_error_marker() -> Seq<char> {
    "syntax error near unexpected token"@
}

/// The status of a rejected redirection: 2 for a syntax error, else 1.
pub open spec fn invalid_status(m: Seq<char>) -> i32 {
    if has_sub(m, syntax_error_marker()) {
        2
    } else {
        1
    }
}

/// One redirection: files to write are opened and become standard output
/// (`>`, `>>`, `&>`, and `&>>`, which is standard error too) or standard
/// error (`2>`, and `n>` for 2; other `n>` still create their file);
/// `<`, `0<` and `<>` open standard input; `1>&2` and `>&2` pipe standard
/// output to be shown as errors; `2>&1` joins standard error to the
/// output; `n>&-` closes 0, 1 or 2; a here-document feeds standard input
/// through a pipe, the last one winning; a rejected redirection fails with
/// its status and message.
pub open spec fn setup_step(s: SetupState, op: SpawnRedirectView) -> Result<SetupState, (i32, Seq<char>)> {
    let k = s.opens.len() as usize;
    match op {
        SpawnRedirectView::Stdout(p) => Ok(
            SetupState { stdout: Some(StdioSetup::File(k)), ..with_open(s, p, OpenMode::Truncate) },
        ),
        SpawnRedirectView::StdoutAppend(p) => Ok(
            SetupState { stdout: Some(StdioSetup::File(k)), ..with_open(s, p, OpenMode::Append) },
        ),
        SpawnRedirectView::Stdin(p) => Ok(
            SetupState { stdin: Some(StdioSetup::File(k)), ..with_open(s, p, OpenMode::Read) },
        ),
        SpawnRedirectView::FdIn(n, p) => if n == 0 {
            Ok(SetupState { stdin: Some(StdioSetup::File(k)), ..with_open(s, p, OpenMode::Read) })
        } else {
            Ok(s)
        },
        SpawnRedirectView::Stderr(p) => Ok(
            SetupState { stderr: Some(StdioSetup::File(k)), ..with_open(s, p, OpenMode::Truncate) },
        ),
        SpawnRedirectView::FdOut(n, p) => if n == 2 {
            Ok(
                SetupState {
                    stderr: Some(StdioSetup::File(k)),
                    ..with_open(s, p, OpenMode::Truncate)
                },
            )
        } else {
            Ok(with_open(s, p, OpenMode::Truncate))
        },
        SpawnRedirectView::ReadWrite(p) => Ok(
            SetupState { stdin: Some(StdioSetup::File(k)), ..with_open(s, p, OpenMode::ReadWrite) },
        ),
        SpawnRedirectView::StderrToStdout => Ok(SetupState { stderr_to_stdout: true, ..s }),
        SpawnRedirectView::StdoutToStderr => Ok(
            SetupState { stdout: Some(StdioSetup::Piped), stdout_to_stderr: true, ..s },
        ),
        SpawnRedirectView::StdoutToFd(n) => if n == 2 {
            Ok(SetupState { stdout: Some(StdioSetup::Piped), stdout_to_stderr: true, ..s })
        } else {
            Ok(s)
        },
        SpawnRedirectView::FdInputFrom(_, _) => Ok(s),
        SpawnRedirectView::CloseFd(n) => if n == 0 {
            Ok(SetupState { stdin: Some(StdioSetup::Null), ..s })
        } else if n == 1 {
            Ok(SetupState { stdout: Some(StdioSetup::Null), ..s })
        } else if n == 2 {
            Ok(SetupState { stderr: Some(StdioSetup::Null), ..s })
        } else {
            Ok(s)
        },
        SpawnRedirectView::Invalid(m) => Err((invalid_status(m), m)),
        SpawnRedirectView::Both(p) => Ok(
            SetupState {
                stdout: Some(StdioSetup::File(k)),
                stderr: Some(StdioSetup::File(k)),
                ..with_open(s, p, OpenMode::Truncate)
            },
        ),
        SpawnRedirectView::BothAppend(p) => Ok(
            SetupState {
                stdout: Some(StdioSetup::File(k)),
                stderr: Some(StdioSetup::File(k)),
                ..with_open(s, p, OpenMode::Append)
            },
        ),
        SpawnRedirectView::HereDoc(b) => Ok(
            SetupState { stdin: Some(StdioSetup::Piped), heredoc: Some(b), ..s },
        ),
    }
}

/// The redirections applied in order; a rejected one stops them, with the
/// state the earlier ones left.
pub open spec fn setup_fold(ops: Seq<SpawnRedirectView>) -> Result<SetupState, (SetupState, i32, Seq<char>)>
    decreases ops.len(),
{
    if ops.len() == 0 {
        Ok(setup_start())
    } else {
        match setup_fold(ops.drop_last()) {
            Err(e) => Err(e),
            Ok(s) => match setup_step(s, ops.last()) {
                Ok(s2) => Ok(s2),
                Err((c, m)) => Err((s, c, m)),
            },
        }
    }
}

/// The plan of a spawn as plain values.
pub struct PlanView {
    pub opens: Seq<(Seq<char>, OpenMode)>,
    pub stdin: StdioSetup,
    pub stdout: StdioSetup,
    pub stderr: StdioSetup,
    pub capture_stdout: bool,
    pub capture_stderr: bool,
    pub stderr_to_stdout: bool,
    pub stdout_to_stderr: bool,
    pub inherit_io: bool,
    pub heredoc: Option<Seq<char>>,
}

/// The streams once the defaults are filled in: standard input is the
/// shell's unless redirected; with progress shown, no redirections and a
/// terminal as the shell's output, the program gets the shell's output and
/// error; otherwise the streams it was not given are piped to the shell,
/// which keeps what comes through them (standard error joined to the
/// output under `2>&1`).
pub open spec fn finish_setup(s: SetupState, no_redirects: bool, show_progress: bool, stdout_tty: bool) -> PlanView {
    let inherit = show_progress && s.stdout is None && s.stderr is None && no_redirects && stdout_tty;
    PlanView {
        opens: s.opens,
        stdin: match s.stdin {
            Some(x) => x,
            None => StdioSetup::Inherit,
        },
        stdout: match s.stdout {
            Some(x) => x,
            None => if inherit {
                StdioSetup::Inherit
            } else {
                StdioSetup::Piped
            },
        },
        stderr: match s.stderr {
            Some(x) => x,
            None => if inherit && !s.stderr_to_stdout {
                StdioSetup::Inherit
            } else {
                StdioSetup::Piped
            },
        },
        capture_stdout: s.stdout is None,
        capture_stderr: s.stderr is None && !s.stderr_to_stdout,
        stderr_to_stdout: s.stderr_to_stdout,
        stdout_to_stderr: s.stdout_to_stderr,
        inherit_io: inherit,
        heredoc: s.heredoc,
    }
}

/// The plan for redirections `ops`, or the failure of a rejected one: the
/// files opened before it, its status and its message.
pub open spec fn spec_spawn_plan(ops: Seq<SpawnRedirectView>, show_progress: bool, stdout_tty: bool) -> Result<
    PlanView,
    (Seq<(Seq<char>, OpenMode)>, i32, Seq<char>),
> {
    match setup_fold(ops) {
        Ok(s) => Ok(finish_setup(s, ops.len() == 0, show_progress, stdout_tty)),
        Err((s, c, m)) => Err((s.opens, c, m)),
    }
}

/// Files to open, as plain values.
pub open spec fn opens_view(v: Seq<(String, OpenMode)>) -> Seq<(Seq<char>, OpenMode)> {
    v.map_values(|p: (String, OpenMode)| (p.0@, p.1))
}

/// How to spawn an external command.
#[derive(Debug, PartialEq)]
pub struct SpawnPlan {
    /// The files to open, in order, with how; streams name them by index.
    pub opens: Vec<(String, OpenMode)>,
    pub stdin: StdioSetup,
    pub stdout: StdioSetup,
    pub stderr: StdioSetup,
    /// Whether the shell keeps what the program writes to its output.
    pub capture_stdout: bool,
    /// Whether the shell keeps what the program writes to its errors.
    pub capture_stderr: bool,
    /// `2>&1`: the errors are read and joined to the output.
    pub stderr_to_stdout: bool,
    /// `1>&2` or `>&2`: the output is shown as errors.
    pub stdout_to_stderr: bool,
    /// Whether the program runs on the shell's terminal.
    pub inherit_io: bool,
    /// The here-document to write to the program's input.
    pub heredoc: Option<String>,
}

impl View for SpawnPlan {
    type V = PlanView;

    open spec fn view(&self) -> PlanView {
        PlanView {
            opens: opens_view(self.opens@),
            stdin: self.stdin,
            stdout: self.stdout,
            stderr: self.stderr,
            capture_stdout: self.capture_stdout,
            capture_stderr: self.capture_stderr,
            stderr_to_stdout: self.stderr_to_stdout,
            stdout_to_stderr: self.stdout_to_stderr,
            inherit_io: self.inherit_io,
            heredoc: match self.heredoc {
                Some(b) => Some(b@),
                None => None,
            },
        }
    }
}

/// A rejected redirection: the files opened before it, and the status and
/// error text of the command.
#[derive(Debug, PartialEq)]
pub struct SpawnFailure {
    pub opens: Vec<(String, OpenMode)>,
    pub exit_code: i32,
    pub message: String,
}

/// The state of the loop below as a `SetupState`.
pub open spec fn state_of(
    stdin: Option<StdioSetup>,
    stdout: Option<StdioSetup>,
    stderr: Option<StdioSetup>,
    e2o: bool,
    o2e: bool,
    heredoc: Option<String>,
    opens: Seq<(String, OpenMode)>,
) -> SetupState {
    SetupState {
        stdin,
        stdout,
        stderr,
        stderr_to_stdout: e2o,
        stdout_to_stderr: o2e,
        heredoc: match heredoc {
            Some(b) => Some(b@),
            None => None,
        },
        opens: opens_view(opens),
    }
}

/// The status of a rejected redirection with message `m`.
fn status_of_invalid(m: &str) -> (c: i32)
    ensures
        c == invalid_status(m@),
{
    let mv = chars_of(m);
    let marker = chars_of("syntax error near unexpected token");
    if contains_sub(mv.as_slice(), marker.as_slice()) {
        2
    } else {
        1
    }
}

/// Once a redirection is rejected, later ones change nothing.
proof fn lemma_fold_err_stays(ops: Seq<SpawnRedirectView>, j: int)
    requires
        0 <= j <= ops.len(),
        setup_fold(ops.take(j)) is Err,
    ensures
        setup_fold(ops) == setup_fold(ops.take(j)),
    decreases ops.len(),
{
    if j == ops.len() {
        assert(ops.take(j) =~= ops);
    } else {
        assert(ops.drop_last().take(j) =~= ops.take(j));
        lemma_fold_err_stays(ops.drop_last(), j);
    }
}

/// Plans how to spawn an external command with redirections `ops`, given
/// whether progress is shown and whether the shell's output is a terminal.
pub fn spawn_plan(ops: &[SpawnRedirect], show_progress: bool, stdout_tty: bool) -> (r: Result<SpawnPlan, SpawnFailure>)
    ensures
        match r {
            Ok(p) => spec_spawn_plan(ops@.map_values(|o: SpawnRedirect| o@), show_progress, stdout_tty)
                == Ok::<PlanView, (Seq<(Seq<char>, OpenMode)>, i32, Seq<char>)>(p@),
            Err(f) => spec_spawn_plan(ops@.map_values(|o: SpawnRedirect| o@), show_progress, stdout_tty)
                == Err::<PlanView, (Seq<(Seq<char>, OpenMode)>, i32, Seq<char>)>(
                (opens_view(f.opens@), f.exit_code, f.message@),
            ),
        },
{
    let ghost ov = ops@.map_values(|o: SpawnRedirect| o@);
    let mut stdin: Option<StdioSetup> = None;
    let mut stdout: Option<StdioSetup> = None;
    let mut stderr: Option<StdioSetup> = None;
    let mut e2o = false;
    let mut o2e = false;
    let mut heredoc: Option<String> = None;
    let mut opens: Vec<(String, OpenMode)> = Vec::new();
    let mut i: usize = 0;
    assert(ov.take(0) =~= Seq::<SpawnRedirectView>::empty());
    assert(opens_view(opens@) =~= Seq::<(Seq<char>, OpenMode)>::empty());
    while i < ops.len()
        invariant
            i <= ops@.len(),
            ov == ops@.map_values(|o: SpawnRedirect| o@),
            setup_fold(ov.take(i as int)) == Ok::<SetupState, (SetupState, i32, Seq<char>)>(
                state_of(stdin, stdout, stderr, e2o, o2e, heredoc, opens@),
            ),
        decreases ops@.len() - i,
    {
        let ghost s0 = state_of(stdin, stdout, stderr, e2o, o2e, heredoc, opens@);
        assert(ov.take(i + 1).drop_last() =~= ov.take(i as int));
        assert(ov.take(i + 1).last() == ops@[i as int]@);
        let k = opens.len();
        let ghost o0 = opens@;
        match &ops[i] {
            SpawnRedirect::Stdout(p) => {
                opens.push((p.clone(), OpenMode::Truncate));
                stdout = Some(StdioSetup::File(k));
            },
            SpawnRedirect::StdoutAppend(p) => {
                opens.push((p.clone(), OpenMode::Append));
                stdout = Some(StdioSetup::File(k));
            },
            SpawnRedirect::Stdin(p) => {
                opens.push((p.clone(), OpenMode::Read));
                stdin = Some(StdioSetup::File(k));
            },
            SpawnRedirect::FdIn(n, p) => {
                if *n == 0 {
                    opens.push((p.clone(), OpenMode::Read));
                    stdin = Some(StdioSetup::File(k));
                }
            },
            SpawnRedirect::Stderr(p) => {
                opens.push((p.clone(), OpenMode::Truncate));
                stderr = Some(StdioSetup::File(k));
            },
            SpawnRedirect::FdOut(n, p) => {
                opens.push((p.clone(), OpenMode::Truncate));
                if *n == 2 {
                    stderr = Some(StdioSetup::File(k));
                }
            },
            SpawnRedirect::ReadWrite(p) => {
                opens.push((p.clone(), OpenMode::ReadWrite));
                stdin = Some(StdioSetup::File(k));
            },
            SpawnRedirect::StderrToStdout => {
                e2o = true;
            },
            SpawnRedirect::StdoutToStderr => {
                stdout = Some(StdioSetup::Piped);
                o2e = true;
            },
            SpawnRedirect::StdoutToFd(n) => {
                if *n == 2 {
                    stdout = Some(StdioSetup::Piped);
                    o2e = true;
                }
            },
            SpawnRedirect::FdInputFrom(_, _) => {},
            SpawnRedirect::CloseFd(n) => {
                if *n == 0 {
                    stdin = Some(StdioSetup::Null);
                } else if *n == 1 {
                    stdout = Some(StdioSetup::Null);
                } else if *n == 2 {
                    stderr = Some(StdioSetup::Null);
                }
            },
            SpawnRedirect::Invalid(m) => {
                let c = status_of_invalid(m.as_str());
                proof {
                    lemma_fold_err_stays(ov, i + 1);
                }
                return Err(SpawnFailure { opens, exit_code: c, message: m.clone() });
            },
            SpawnRedirect::Both(p) => {
                opens.push((p.clone(), OpenMode::Truncate));
                stdout = Some(StdioSetup::File(k));
                stderr = Some(StdioSetup::File(k));
            },
            SpawnRedirect::BothAppend(p) => {
                opens.push((p.clone(), OpenMode::Append));
                stdout = Some(StdioSetup::File(k));
                stderr = Some(StdioSetup::File(k));
            },
            SpawnRedirect::HereDoc(b) => {
                stdin = Some(StdioSetup::Piped);
                heredoc = Some(b.clone());
            },
        }
        if opens.len() > k {
            assert(opens_view(opens@) =~= opens_view(o0).push((opens@.last().0@, opens@.last().1)));
        } else {
            assert(opens@ == o0);
        }
        i = i + 1;
    }
    assert(ov.take(ops@.len() as int) =~= ov);
    let inherit = show_progress && stdout.is_none() && stderr.is_none() && ops.len() == 0 && stdout_tty;
    let capture_stdout = stdout.is_none();
    let capture_stderr = stderr.is_none() && !e2o;
    let out = match stdout {
        Some(x) => x,
        None => if inherit {
            StdioSetup::Inherit
        } else {
            StdioSetup::Piped
        },
    };
    let err = match stderr {
        Some(x) => x,
        None => if inherit && !e2o {
            StdioSetup::Inherit
        } else {
            StdioSetup::Piped
        },
    };
    let inp = match stdin {
        Some(x) => x,
        None => StdioSetup::Inherit,
    };
    Ok(
        SpawnPlan {
            opens,
            stdin: inp,
            stdout: out,
            stderr: err,
            capture_stdout,
            capture_stderr,
            stderr_to_stdout: e2o,
            stdout_to_stderr: o2e,
            inherit_io: inherit,
            heredoc,
        },
    )
}

/// What the shell keeps of a program's output `out` and errors `err`: the
/// captured output, with the errors joined under `2>&1`; under `1>&2` that
/// output is shown as errors at once instead; and the captured errors,
/// none under `2>&1`. The result is the output, the text shown as errors
/// at once, and the errors.
pub open spec fn spec_collect(p: PlanView, out: Seq<char>, err: Seq<char>) -> (Seq<char>, Seq<char>, Seq<char>) {
    let o = if p.capture_stdout { out } else { Seq::<char>::empty() };
    let e = if p.capture_stderr || p.stderr_to_stdout { err } else { Seq::<char>::empty() };
    let joined = if p.stderr_to_stdout { o + e } else { o };
    (
        if p.stdout_to_stderr { Seq::empty() } else { joined },
        if p.stdout_to_stderr { joined } else { Seq::empty() },
        if p.stderr_to_stdout { Seq::empty() } else { e },
    )
}

/// What the shell keeps of what a program wrote, under plan `p`.
pub fn collect_output(p: &SpawnPlan, out: &str, err: &str) -> (r: (String, String, String))
    ensures
        (r.0@, r.1@, r.2@) == spec_collect(p@, out@, err@),
{
    let mut o = if p.capture_stdout { owned(out) } else { String::new() };
    let e = if p.capture_stderr || p.stderr_to_stdout { owned(err) } else { String::new() };
    if p.stderr_to_stdout {
        append_str(&mut o, e.as_str());
    }
    let (shown, echoed) = if p.stdout_to_stderr { (String::new(), o) } else { (o, String::new()) };
    let errors = if p.stderr_to_stdout { String::new() } else { e };
    (shown, echoed, errors)
}

/// A here-document given last feeds the program's input: whatever
/// redirections came before it, unless one of them was rejected, the plan
/// pipes standard input and writes that document to it.
pub proof fn law_last_heredoc_feeds_stdin(ops: Seq<SpawnRedirectView>, body: Seq<char>, show_progress: bool, stdout_tty: bool)
    requires
        setup_fold(ops) is Ok,
    ensures
        spec_spawn_plan(ops.push(SpawnRedirectView::HereDoc(body)), show_progress, stdout_tty) matches Ok(p)
            && p.heredoc == Some(body) && p.stdin == StdioSetup::Piped,
{
    assert(ops.push(SpawnRedirectView::HereDoc(body)).drop_last() =~= ops);
}

} // verus!
