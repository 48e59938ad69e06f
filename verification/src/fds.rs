//! The permanent descriptor table that `exec` with redirections changes:
//! what the shell's later commands get as standard input, output and error
//! and as other numbered descriptors. Each redirection is one step that
//! changes the table or asks its caller to open a file or duplicate a
//! descriptor and install the result.
use vstd::prelude::*;

verus! {

/// A numbered descriptor of the table: open on a descriptor of the shell,
/// or closed.
#[derive(Clone, Copy, Debug, PartialEq, Eq, Structural)]
pub enum FdState {
    Open(i32),
    Closed,
}

/// A place in the table.
#[derive(Clone, Copy, Debug, PartialEq, Eq, Structural)]
pub enum FdSlot {
    Stdin,
    Stdout,
    Stderr,
    Fd(i32),
}

/// How a file is opened.
#[derive(Clone, Copy, Debug, PartialEq, Eq, Structural)]
pub enum OpenMode {
    /// For reading.
    Read,
    /// For reading and writing, without creating it.
    ReadWrite,
    /// For writing, created when missing, emptied when present.
    Truncate,
    /// For writing at its end, created when missing.
    Append,
}

/// A redirection of `exec`, with its target already expanded.
#[derive(Debug, PartialEq)]
pub enum ExecRedirect {
    /// `> path`
    Stdout(String),
    /// `>> path`
    StdoutAppend(String),
    /// `2> path`
    Stderr(String),
    /// `< path`
    Stdin(String),
    /// `<> path`
    ReadWrite(String),
    /// `n> path`
    FdOut(i32, String),
    /// `n< path`
    FdIn(i32, String),
    /// `2>&1`
    StderrToStdout,
    /// `1>&2`
    StdoutToStderr,
    /// `>&n`
    StdoutToFd(i32),
    /// `m<&n`
    FdInputFrom(i32, i32),
    /// `n>&-`
    CloseFd(i32),
    /// A redirection the parser rejected, with its message.
    Invalid(String),
    /// `&> path`
    Both(String),
    /// `&>> path`
    BothAppend(String),
    /// A here-document or a process-substitution argument, which `exec`
    /// leaves alone.
    Other,
}

/// A redirection as plain values.
pub enum ExecRedirectView {
    Stdout(Seq<char>),
    StdoutAppend(Seq<char>),
    Stderr(Seq<char>),
    Stdin(Seq<char>),
    ReadWrite(Seq<char>),
    FdOut(i32, Seq<char>),
    FdIn(i32, Seq<char>),
    StderrToStdout,
    StdoutToStderr,
    StdoutToFd(i32),
    FdInputFrom(i32, i32),
    CloseFd(i32),
    Invalid(Seq<char>),
    Both(Seq<char>),
    BothAppend(Seq<char>),
    Other,
}

impl View for ExecRedirect {
    type V = ExecRedirectView;

    open spec fn view(&self) -> ExecRedirectView {
        match self {
            ExecRedirect::Stdout(p) => ExecRedirectView::Stdout(p@),
            ExecRedirect::StdoutAppend(p) => ExecRedirectView::StdoutAppend(p@),
            ExecRedirect::Stderr(p) => ExecRedirectView::Stderr(p@),
            ExecRedirect::Stdin(p) => ExecRedirectView::Stdin(p@),
            ExecRedirect::ReadWrite(p) => ExecRedirectView::ReadWrite(p@),
            ExecRedirect::FdOut(n, p) => ExecRedirectView::FdOut(*n, p@),
            ExecRedirect::FdIn(n, p) => ExecRedirectView::FdIn(*n, p@),
            ExecRedirect::StderrToStdout => ExecRedirectView::StderrToStdout,
            ExecRedirect::StdoutToStderr => ExecRedirectView::StdoutToStderr,
            ExecRedirect::StdoutToFd(n) => ExecRedirectView::StdoutToFd(*n),
            ExecRedirect::FdInputFrom(m, n) => ExecRedirectView::FdInputFrom(*m, *n),
            ExecRedirect::CloseFd(n) => ExecRedirectView::CloseFd(*n),
            ExecRedirect::Invalid(m) => ExecRedirectView::Invalid(m@),
            ExecRedirect::Both(p) => ExecRedirectView::Both(p@),
            ExecRedirect::BothAppend(p) => ExecRedirectView::BothAppend(p@),
            ExecRedirect::Other => ExecRedirectView::Other,
        }
    }
}

/// What the caller does for a step.
#[derive(Debug, PartialEq)]
pub enum FdAction {
    /// Nothing.
    Nothing,
    /// Open `path` in `mode` and install it in `slot`; with `also_stderr`,
    /// install a duplicate of it as standard error too.
    Open { path: String, mode: OpenMode, slot: FdSlot, also_stderr: bool },
    /// Duplicate the shell's descriptor `fd` and install the copy in `slot`.
    Dup { fd: i32, slot: FdSlot },
}

/// An action as plain values.
pub enum FdActionView {
    Nothing,
    Open(Seq<char>, OpenMode, FdSlot, bool),
    Dup(i32, FdSlot),
}

impl View for FdAction {
    type V = FdActionView;

    open spec fn view(&self) -> FdActionView {
        match self {
            FdAction::Nothing => FdActionView::Nothing,
            FdAction::Open { path, mode, slot, also_stderr } => FdActionView::Open(
                path@,
                *mode,
                *slot,
                *also_stderr,
            ),
            FdAction::Dup { fd, slot } => FdActionView::Dup(*fd, *slot),
        }
    }
}

/// The table as plain values: the descriptors that stand in for standard
/// input, output and error (none: the shell's own), and the settings of
/// numbered descriptors in the order they were made.
pub struct FdsView {
    pub stdin: Option<i32>,
    pub stdout: Option<i32>,
    pub stderr: Option<i32>,
    pub fds: Seq<(i32, FdState)>,
}

/// The state of descriptor `n`: its latest setting, if it has one.
pub open spec fn fd_lookup(fds: Seq<(i32, FdState)>, n: i32) -> Option<FdState>
    decreases fds.len(),
{
    if fds.len() == 0 {
        None
    } else if fds.last().0 == n {
        Some(fds.last().1)
    } else {
        fd_lookup(fds.drop_last(), n)
    }
}

/// The shell descriptor that `n` names as a target: its own descriptor
/// where it is open in the table, `n` itself where the table does not set
/// it, an error where it is closed.
pub open spec fn fd_target(fds: Seq<(i32, FdState)>, n: i32) -> Result<i32, Seq<char>> {
    match fd_lookup(fds, n) {
        Some(FdState::Open(r)) => Ok(r),
        Some(FdState::Closed) => Err("bad file descriptor"@),
        None => Ok(n),
    }
}

/// `o`, or `d` where it is `None`.
pub open spec fn or_fd(o: Option<i32>, d: i32) -> i32 {
    match o {
        Some(x) => x,
        None => d,
    }
}

/// The table after `fd` is installed in `slot`.
pub open spec fn spec_install(t: FdsView, slot: FdSlot, fd: i32) -> FdsView {
    match slot {
        FdSlot::Stdin => FdsView { stdin: Some(fd), ..t },
        FdSlot::Stdout => FdsView { stdout: Some(fd), ..t },
        FdSlot::Stderr => FdsView { stderr: Some(fd), ..t },
        FdSlot::Fd(n) => FdsView { fds: t.fds.push((n, FdState::Open(fd))), ..t },
    }
}

/// One redirection of `exec` on the table `t`: the new table and what the
/// caller does, or the error. Redirections to files ask for the file to
/// be opened; `2>&1` makes standard error what standard output is (or
/// descriptor 1), `1>&2` the other way (or 2); `>&n` and `m<&n` use what
/// `n` names and fail on a closed `n`; `n>&-` closes `n`; a rejected
/// redirection fails with its message.
pub open spec fn spec_exec_step(t: FdsView, op: ExecRedirectView) -> Result<
    (FdsView, FdActionView),
    Seq<char>,
> {
    match op {
        ExecRedirectView::Stdout(p) => Ok(
            (t, FdActionView::Open(p, OpenMode::Truncate, FdSlot::Stdout, false)),
        ),
        ExecRedirectView::StdoutAppend(p) => Ok(
            (t, FdActionView::Open(p, OpenMode::Append, FdSlot::Stdout, false)),
        ),
        ExecRedirectView::Stderr(p) => Ok(
            (t, FdActionView::Open(p, OpenMode::Truncate, FdSlot::Stderr, false)),
        ),
        ExecRedirectView::Stdin(p) => Ok(
            (t, FdActionView::Open(p, OpenMode::Read, FdSlot::Stdin, false)),
        ),
        ExecRedirectView::ReadWrite(p) => Ok(
            (t, FdActionView::Open(p, OpenMode::ReadWrite, FdSlot::Stdin, false)),
        ),
        ExecRedirectView::FdOut(n, p) => Ok(
            (t, FdActionView::Open(p, OpenMode::Truncate, FdSlot::Fd(n), false)),
        ),
        ExecRedirectView::FdIn(n, p) => Ok(
            (t, FdActionView::Open(p, OpenMode::Read, FdSlot::Fd(n), false)),
        ),
        ExecRedirectView::Both(p) => Ok(
            (t, FdActionView::Open(p, OpenMode::Truncate, FdSlot::Stdout, true)),
        ),
        ExecRedirectView::BothAppend(p) => Ok(
            (t, FdActionView::Open(p, OpenMode::Append, FdSlot::Stdout, true)),
        ),
        ExecRedirectView::StderrToStdout => Ok(
            (FdsView { stderr: Some(or_fd(t.stdout, 1)), ..t }, FdActionView::Nothing),
        ),
        ExecRedirectView::StdoutToStderr => Ok(
            (FdsView { stdout: Some(or_fd(t.stderr, 2)), ..t }, FdActionView::Nothing),
        ),
        ExecRedirectView::StdoutToFd(n) => match fd_target(t.fds, n) {
            Ok(x) => Ok((FdsView { stdout: Some(x), ..t }, FdActionView::Nothing)),
            Err(e) => Err(e),
        },
        ExecRedirectView::FdInputFrom(m, n) => match fd_target(t.fds, n) {
            Ok(x) => Ok(
                (t, FdActionView::Dup(x, if m == 0 { FdSlot::Stdin } else { FdSlot::Fd(m) })),
            ),
            Err(e) => Err(e),
        },
        ExecRedirectView::CloseFd(n) => Ok(
            (FdsView { fds: t.fds.push((n, FdState::Closed)), ..t }, FdActionView::Nothing),
        ),
        ExecRedirectView::Invalid(m) => Err(m),
        ExecRedirectView::Other => Ok((t, FdActionView::Nothing)),
    }
}

/// The permanent descriptor table.
pub struct PermanentFds {
    stdin: Option<i32>,
    stdout: Option<i32>,
    stderr: Option<i32>,
    fds: Vec<(i32, FdState)>,
}

impl View for PermanentFds {
    type V = FdsView;

    closed spec fn view(&self) -> FdsView {
        FdsView { stdin: self.stdin, stdout: self.stdout, stderr: self.stderr, fds: self.fds@ }
    }
}

impl PermanentFds {
    /// A table that changes nothing.
    pub fn new() -> (t: Self)
        ensures
            t@ == (FdsView { stdin: None, stdout: None, stderr: None, fds: Seq::empty() }),
    {
        PermanentFds { stdin: None, stdout: None, stderr: None, fds: Vec::new() }
    }

    /// What stands in for standard input.
    pub fn stdin(&self) -> (r: Option<i32>)
        ensures
            r == self@.stdin,
    {
        self.stdin
    }

    /// What stands in for standard output.
    pub fn stdout(&self) -> (r: Option<i32>)
        ensures
            r == self@.stdout,
    {
        self.stdout
    }

    /// What stands in for standard error.
    pub fn stderr(&self) -> (r: Option<i32>)
        ensures
            r == self@.stderr,
    {
        self.stderr
    }

    /// The setting of descriptor `n`.
    pub fn fd(&self, n: i32) -> (r: Option<FdState>)
        ensures
            r == fd_lookup(self@.fds, n),
    {
        let mut i: usize = self.fds.len();
        assert(self.fds@.take(i as int) =~= self.fds@);
        while i > 0
            invariant
                i <= self.fds@.len(),
                fd_lookup(self.fds@, n) == fd_lookup(self.fds@.take(i as int), n),
            decreases i,
        {
            let (k, st) = self.fds[i - 1];
            assert(self.fds@.take(i as int).drop_last() =~= self.fds@.take(i - 1));
            if k == n {
                return Some(st);
            }
            i = i - 1;
        }
        None
    }

    /// Installs the descriptor `fd` in `slot`.
    pub fn install(&mut self, slot: FdSlot, fd: i32)
        ensures
            final(self)@ == spec_install(old(self)@, slot, fd),
    {
        match slot {
            FdSlot::Stdin => self.stdin = Some(fd),
            FdSlot::Stdout => self.stdout = Some(fd),
            FdSlot::Stderr => self.stderr = Some(fd),
            FdSlot::Fd(n) => self.fds.push((n, FdState::Open(fd))),
        }
    }

    /// The descriptor of the shell that `n` names as a target.
    fn target(&self, n: i32) -> (r: Result<i32, String>)
        ensures
            match r {
                Ok(x) => fd_target(self@.fds, n) == Ok::<i32, Seq<char>>(x),
                Err(e) => fd_target(self@.fds, n) == Err::<i32, Seq<char>>(e@),
            },
    {
        match self.fd(n) {
            Some(FdState::Open(r)) => Ok(r),
            Some(FdState::Closed) => Err(String::from_str("bad file descriptor")),
            None => Ok(n),
        }
    }

    /// Applies one redirection of `exec`: changes the table and returns what
    /// the caller does, or fails and leaves the table as it was.
    pub fn exec_redirect_step(&mut self, op: ExecRedirect) -> (r: Result<FdAction, String>)
        ensures
            match r {
                Ok(a) => spec_exec_step(old(self)@, op@) == Ok::<(FdsView, FdActionView), Seq<char>>(
                    (final(self)@, a@),
                ),
                Err(e) => spec_exec_step(old(self)@, op@) == Err::<(FdsView, FdActionView), Seq<char>>(
                    e@,
                ) && final(self)@ == old(self)@,
            },
    {
        match op {
            ExecRedirect::Stdout(p) => Ok(
                FdAction::Open { path: p, mode: OpenMode::Truncate, slot: FdSlot::Stdout, also_stderr: false },
            ),
            ExecRedirect::StdoutAppend(p) => Ok(
                FdAction::Open { path: p, mode: OpenMode::Append, slot: FdSlot::Stdout, also_stderr: false },
            ),
            ExecRedirect::Stderr(p) => Ok(
                FdAction::Open { path: p, mode: OpenMode::Truncate, slot: FdSlot::Stderr, also_stderr: false },
            ),
            ExecRedirect::Stdin(p) => Ok(
                FdAction::Open { path: p, mode: OpenMode::Read, slot: FdSlot::Stdin, also_stderr: false },
            ),
            ExecRedirect::ReadWrite(p) => Ok(
                FdAction::Open { path: p, mode: OpenMode::ReadWrite, slot: FdSlot::Stdin, also_stderr: false },
            ),
            ExecRedirect::FdOut(n, p) => Ok(
                FdAction::Open { path: p, mode: OpenMode::Truncate, slot: FdSlot::Fd(n), also_stderr: false },
            ),
            ExecRedirect::FdIn(n, p) => Ok(
                FdAction::Open { path: p, mode: OpenMode::Read, slot: FdSlot::Fd(n), also_stderr: false },
            ),
            ExecRedirect::Both(p) => Ok(
                FdAction::Open { path: p, mode: OpenMode::Truncate, slot: FdSlot::Stdout, also_stderr: true },
            ),
            ExecRedirect::BothAppend(p) => Ok(
                FdAction::Open { path: p, mode: OpenMode::Append, slot: FdSlot::Stdout, also_stderr: true },
            ),
            ExecRedirect::StderrToStdout => {
                let out = match self.stdout {
                    Some(x) => x,
                    None => 1,
                };
                self.stderr = Some(out);
                Ok(FdAction::Nothing)
            },
            ExecRedirect::StdoutToStderr => {
                let err = match self.stderr {
                    Some(x) => x,
                    None => 2,
                };
                self.stdout = Some(err);
                Ok(FdAction::Nothing)
            },
            ExecRedirect::StdoutToFd(n) => {
                let x = self.target(n)?;
                self.stdout = Some(x);
                Ok(FdAction::Nothing)
            },
            ExecRedirect::FdInputFrom(m, n) => {
                let x = self.target(n)?;
                let slot = if m == 0 {
                    FdSlot::Stdin
                } else {
                    FdSlot::Fd(m)
                };
                Ok(FdAction::Dup { fd: x, slot })
            },
            ExecRedirect::CloseFd(n) => {
                self.fds.push((n, FdState::Closed));
                Ok(FdAction::Nothing)
            },
            ExecRedirect::Invalid(m) => Err(m),
            ExecRedirect::Other => Ok(FdAction::Nothing),
        }
    }
}

/// A closed descriptor cannot be a target: after `n>&-`, `>&n` fails with
/// "bad file descriptor"; once a descriptor `x` is installed as `n`, `>&n`
/// sends standard output to `x`.
pub proof fn law_closed_then_reopened(t: FdsView, n: i32, x: i32)
    ensures
        spec_exec_step(t, ExecRedirectView::CloseFd(n)) matches Ok((t1, _)) && spec_exec_step(
            t1,
            ExecRedirectView::StdoutToFd(n),
        ) == Err::<(FdsView, FdActionView), Seq<char>>("bad file descriptor"@),
        spec_exec_step(spec_install(t, FdSlot::Fd(n), x), ExecRedirectView::StdoutToFd(n)) matches Ok(
            (t2, _),
        ) && t2.stdout == Some(x),
{
}

} // verus!
