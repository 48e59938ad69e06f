//! Where a command's output streams go once its redirections are applied,
//! in the order they are written: each file descriptor has a target, `n>&m`
//! copies the target `m` has at that moment, and output captured so far
//! follows a copy between standard output and standard error. Expanding the
//! targets and writing the files are the shell's part.
use vstd::prelude::*;
use crate::text::{append_str, contains_sub, chars_of, has_sub, owned};

verus! {

/// Where a file descriptor's output goes.
#[derive(Debug, PartialEq)]
pub enum StreamTarget {
    /// Kept by the shell, to show or to pass on.
    Capture,
    /// Written to the file at `path`, appended when `append`.
    File { path: String, append: bool },
    /// Written to an open descriptor of the shell.
    RawFd(i32),
    /// Closed: the output is dropped.
    Closed,
}

/// A target as a mathematical value.
pub enum TargetView {
    Capture,
    File(Seq<char>, bool),
    RawFd(i32),
    Closed,
}

impl View for StreamTarget {
    type V = TargetView;

    open spec fn view(&self) -> TargetView {
        match self {
            StreamTarget::Capture => TargetView::Capture,
            StreamTarget::File { path, append } => TargetView::File(path@, *append),
            StreamTarget::RawFd(fd) => TargetView::RawFd(*fd),
            StreamTarget::Closed => TargetView::Closed,
        }
    }
}

/// A redirection, with its target already expanded to a path.
pub enum RedirectOp {
    /// `n> path`, `n>> path` or `< path`: descriptor `fd` goes to the file.
    ToFile { fd: u32, path: String, append: bool },
    /// `2>&1`: standard error goes where standard output goes now.
    StderrToStdout,
    /// `1>&2`: standard output goes where standard error goes now.
    StdoutToStderr,
    /// `>&n`: standard output goes where `n` goes now; refused when `n` is
    /// closed.
    StdoutToFd(u32),
    /// `<&n` and the like: when `from` is standard input, it reads from
    /// where `to` does now; refused when `to` is closed.
    FdInputFrom(u32, u32),
    /// `n>&-`: descriptor `n` is closed.
    CloseFd(u32),
    /// A redirection that could not be read, with what is wrong with it.
    Invalid(String),
    /// `&> path` or `&>> path`: both output streams go to the file.
    Both { path: String, append: bool },
    /// A redirection that changes no descriptor here.
    Skip,
}

/// A redirection as a mathematical value.
pub enum OpView {
    ToFile(u32, Seq<char>, bool),
    StderrToStdout,
    StdoutToStderr,
    StdoutToFd(u32),
    FdInputFrom(u32, u32),
    CloseFd(u32),
    Invalid(Seq<char>),
    Both(Seq<char>, bool),
    Skip,
}

impl View for RedirectOp {
    type V = OpView;

    open spec fn view(&self) -> OpView {
        match self {
            RedirectOp::ToFile { fd, path, append } => OpView::ToFile(*fd, path@, *append),
            RedirectOp::StderrToStdout => OpView::StderrToStdout,
            RedirectOp::StdoutToStderr => OpView::StdoutToStderr,
            RedirectOp::StdoutToFd(n) => OpView::StdoutToFd(*n),
            RedirectOp::FdInputFrom(a, b) => OpView::FdInputFrom(*a, *b),
            RedirectOp::CloseFd(n) => OpView::CloseFd(*n),
            RedirectOp::Invalid(m) => OpView::Invalid(m@),
            RedirectOp::Both { path, append } => OpView::Both(path@, *append),
            RedirectOp::Skip => OpView::Skip,
        }
    }
}

/// The descriptors' targets, later entries winning, and the output
/// captured so far.
pub struct StreamsView {
    pub table: Seq<(u32, TargetView)>,
    pub out: Seq<char>,
    pub err: Seq<char>,
}

/// `v` with `fd` going to `t`.
pub open spec fn retarget(v: StreamsView, fd: u32, t: TargetView) -> StreamsView {
    StreamsView { table: v.table.push((fd, t)), ..v }
}

/// `v` with `fd` going where `from` goes now, the output captured for `fd`
/// following it when that is captured.
pub open spec fn duplicate(v: StreamsView, fd: u32, from: u32) -> StreamsView {
    let t = target_in(v.table, from);
    let moved_streams = if t is Capture {
        moved(v.out, v.err, fd, from)
    } else {
        (v.out, v.err)
    };
    StreamsView { table: v.table.push((fd, t)), out: moved_streams.0, err: moved_streams.1 }
}

/// The message of a redirection to or from a closed descriptor.
pub open spec fn bad_fd() -> Option<(Seq<char>, i32)> {
    Some(("bad file descriptor"@, 1i32))
}

/// The streams after a redirection, and the refusal (message and exit
/// status) where it is refused; a refused redirection changes nothing.
pub open spec fn applied(v: StreamsView, op: OpView) -> (StreamsView, Option<(Seq<char>, i32)>) {
    match op {
        OpView::ToFile(fd, path, append) => (retarget(v, fd, TargetView::File(path, append)), None),
        OpView::StderrToStdout => (duplicate(v, 2, 1), None),
        OpView::StdoutToStderr => (duplicate(v, 1, 2), None),
        OpView::StdoutToFd(n) => if target_in(v.table, n) is Closed {
            (v, bad_fd())
        } else {
            (duplicate(v, 1, n), None)
        },
        OpView::FdInputFrom(from, to) => if from != 0 {
            (v, None)
        } else if target_in(v.table, to) is Closed {
            (v, bad_fd())
        } else {
            (retarget(v, 0, target_in(v.table, to)), None)
        },
        OpView::CloseFd(n) => (retarget(v, n, TargetView::Closed), None),
        OpView::Invalid(m) => (v, Some((m, invalid_exit_code(m)))),
        OpView::Both(path, append) => (
            retarget(retarget(v, 1, TargetView::File(path, append)), 2, TargetView::File(path, append)),
            None,
        ),
        OpView::Skip => (v, None),
    }
}

/// A redirection refused: the message the command fails with, and its exit
/// status.
#[derive(Debug, PartialEq)]
pub struct Refusal {
    pub message: String,
    pub exit_code: i32,
}

/// The descriptors' targets and the output captured so far.
pub struct Streams {
    table: Vec<(u32, StreamTarget)>,
    stdout: String,
    stderr: String,
}

/// The target of `fd` in a table where later entries win: `Capture` when it
/// has none.
pub open spec fn target_in(table: Seq<(u32, TargetView)>, fd: u32) -> TargetView
    decreases table.len(),
{
    if table.len() == 0 {
        TargetView::Capture
    } else if table.last().0 == fd {
        table.last().1
    } else {
        target_in(table.drop_last(), fd)
    }
}

/// The entries of a table as values.
pub open spec fn table_view(t: Seq<(u32, StreamTarget)>) -> Seq<(u32, TargetView)> {
    t.map_values(|e: (u32, StreamTarget)| (e.0, e.1@))
}

/// The exit status of a redirection that could not be read: 2 for a syntax
/// error, else 1.
pub open spec fn invalid_exit_code(message: Seq<char>) -> i32 {
    if has_sub(message, "syntax error near unexpected token"@) {
        2
    } else {
        1
    }
}

/// The captured streams after output captured for `from` follows it to
/// `to`: standard output to standard error or back; other moves change
/// nothing.
pub open spec fn moved(out: Seq<char>, err: Seq<char>, from: u32, to: u32) -> (Seq<char>, Seq<char>) {
    if from == 1 && to == 2 {
        (Seq::empty(), err + out)
    } else if from == 2 && to == 1 {
        (out + err, Seq::empty())
    } else {
        (out, err)
    }
}

impl View for Streams {
    type V = StreamsView;

    closed spec fn view(&self) -> StreamsView {
        StreamsView { table: table_view(self.table@), out: self.stdout@, err: self.stderr@ }
    }
}

impl Streams {
    /// The target of `fd` now.
    pub open spec fn target(&self, fd: u32) -> TargetView {
        target_in(self@.table, fd)
    }

    /// The standard output captured so far.
    pub open spec fn out(&self) -> Seq<char> {
        self@.out
    }

    /// The standard error captured so far.
    pub open spec fn err(&self) -> Seq<char> {
        self@.err
    }

    /// The captured standard output and error.
    pub fn captured(&self) -> (r: (String, String))
        ensures
            r.0@ == self.out(),
            r.1@ == self.err(),
    {
        (owned(self.stdout.as_str()), owned(self.stderr.as_str()))
    }

    /// Streams of a command whose standard output and error are captured,
    /// with the shell's lasting descriptors: each open one (`Some`) going to
    /// its raw descriptor, each closed one (`None`) closed; and the output
    /// the command gave.
    pub fn new(permanent: &[(u32, Option<i32>)], stdout: String, stderr: String) -> (s: Self)
        ensures
            s@.table == seq![(1u32, TargetView::Capture), (2u32, TargetView::Capture)] + permanent@.map_values(
                |p: (u32, Option<i32>)| (p.0, match p.1 {
                    Some(raw) => TargetView::RawFd(raw),
                    None => TargetView::Closed,
                }),
            ),
            s@.out == stdout@,
            s@.err == stderr@,
    {
        let ghost perm = permanent@.map_values(
            |p: (u32, Option<i32>)| (p.0, match p.1 {
                Some(raw) => TargetView::RawFd(raw),
                None => TargetView::Closed,
            }),
        );
        let mut table: Vec<(u32, StreamTarget)> = Vec::new();
        table.push((1, StreamTarget::Capture));
        table.push((2, StreamTarget::Capture));
        let ghost base = seq![(1u32, TargetView::Capture), (2u32, TargetView::Capture)];
        assert(table_view(table@) =~= base);
        let mut i: usize = 0;
        while i < permanent.len()
            invariant
                i <= permanent@.len(),
                perm == permanent@.map_values(
                    |p: (u32, Option<i32>)| (p.0, match p.1 {
                        Some(raw) => TargetView::RawFd(raw),
                        None => TargetView::Closed,
                    }),
                ),
                table_view(table@) == base + perm.take(i as int),
            decreases permanent@.len() - i,
        {
            let (fd, raw) = permanent[i];
            let t = match raw {
                Some(r) => StreamTarget::RawFd(r),
                None => StreamTarget::Closed,
            };
            assert(perm[i as int] == (fd, t@));
            let ghost before = table_view(table@);
            let ghost tv = t@;
            table.push((fd, t));
            assert(table_view(table@) =~= before.push((fd, tv)));
            assert(perm.take(i + 1) =~= perm.take(i as int).push(perm[i as int]));
            assert(table_view(table@) =~= base + perm.take(i + 1));
            i = i + 1;
        }
        assert(perm.take(permanent@.len() as int) =~= perm);
        Streams { table, stdout, stderr }
    }

    /// The target of `fd` now.
    pub fn target_of(&self, fd: u32) -> (r: StreamTarget)
        ensures
            r@ == self.target(fd),
    {
        let mut i = self.table.len();
        assert(table_view(self.table@).take(i as int) =~= table_view(self.table@));
        while i > 0
            invariant
                i <= self.table@.len(),
                self.target(fd) == target_in(table_view(self.table@).take(i as int), fd),
            decreases i,
        {
            let ghost tv = table_view(self.table@).take(i as int);
            assert(tv.drop_last() =~= table_view(self.table@).take(i - 1));
            if self.table[i - 1].0 == fd {
                return copy_target(&self.table[i - 1].1);
            }
            i = i - 1;
        }
        StreamTarget::Capture
    }

    fn set_target(&mut self, fd: u32, t: StreamTarget)
        ensures
            final(self)@ == retarget(old(self)@, fd, t@),
    {
        let ghost before = table_view(self.table@);
        let ghost tv = t@;
        self.table.push((fd, t));
        assert(table_view(self.table@) =~= before.push((fd, tv)));
    }

    /// Moves the output captured for `from` to `to`, between standard output
    /// and standard error.
    fn move_captured(&mut self, from: u32, to: u32)
        ensures
            (final(self)@.out, final(self)@.err) == moved(old(self)@.out, old(self)@.err, from, to),
            final(self)@.table == old(self)@.table,
    {
        if from == 1 && to == 2 {
            let out = owned(self.stdout.as_str());
            append_str(&mut self.stderr, out.as_str());
            self.stdout = String::new();
        } else if from == 2 && to == 1 {
            let err = owned(self.stderr.as_str());
            append_str(&mut self.stdout, err.as_str());
            self.stderr = String::new();
        }
    }

    /// Applies one redirection, or refuses it.
    pub fn apply(&mut self, op: RedirectOp) -> (r: Option<Refusal>)
        ensures
            final(self)@ == applied(old(self)@, op@).0,
            r matches Some(x) ==> applied(old(self)@, op@).1 == Some((x.message@, x.exit_code)),
            r is None ==> applied(old(self)@, op@).1 is None,
    {
        match op {
            RedirectOp::ToFile { fd, path, append } => {
                self.set_target(fd, StreamTarget::File { path, append });
                None
            },
            RedirectOp::StderrToStdout => {
                let t = self.target_of(1);
                if matches!(t, StreamTarget::Capture) {
                    self.move_captured(2, 1);
                }
                self.set_target(2, t);
                None
            },
            RedirectOp::StdoutToStderr => {
                let t = self.target_of(2);
                if matches!(t, StreamTarget::Capture) {
                    self.move_captured(1, 2);
                }
                self.set_target(1, t);
                None
            },
            RedirectOp::StdoutToFd(n) => {
                let t = self.target_of(n);
                if matches!(t, StreamTarget::Closed) {
                    return Some(bad_descriptor());
                }
                if matches!(t, StreamTarget::Capture) {
                    self.move_captured(1, n);
                }
                self.set_target(1, t);
                None
            },
            RedirectOp::FdInputFrom(from, to) => {
                if from == 0 {
                    let t = self.target_of(to);
                    if matches!(t, StreamTarget::Closed) {
                        return Some(bad_descriptor());
                    }
                    self.set_target(0, t);
                }
                None
            },
            RedirectOp::CloseFd(n) => {
                self.set_target(n, StreamTarget::Closed);
                None
            },
            RedirectOp::Invalid(message) => {
                let m = chars_of(message.as_str());
                let pattern = chars_of("syntax error near unexpected token");
                let code = if contains_sub(m.as_slice(), pattern.as_slice()) {
                    2
                } else {
                    1
                };
                Some(Refusal { message, exit_code: code })
            },
            RedirectOp::Both { path, append } => {
                let p2 = owned(path.as_str());
                self.set_target(1, StreamTarget::File { path, append });
                self.set_target(2, StreamTarget::File { path: p2, append });
                None
            },
            RedirectOp::Skip => None,
        }
    }
}

/// The refusal of a redirection to or from a closed descriptor.
fn bad_descriptor() -> (r: Refusal)
    ensures
        r.message@ == "bad file descriptor"@,
        r.exit_code == 1,
{
    Refusal { message: owned("bad file descriptor"), exit_code: 1 }
}

/// A copy of a target.
fn copy_target(t: &StreamTarget) -> (r: StreamTarget)
    ensures
        r@ == t@,
{
    match t {
        StreamTarget::Capture => StreamTarget::Capture,
        StreamTarget::File { path, append } => StreamTarget::File { path: owned(path.as_str()), append: *append },
        StreamTarget::RawFd(fd) => StreamTarget::RawFd(*fd),
        StreamTarget::Closed => StreamTarget::Closed,
    }
}

/// Output to write out: where, and what.
#[derive(Debug, PartialEq)]
pub struct Sink {
    pub target: StreamTarget,
    pub content: String,
}

/// What a redirected command's output becomes: the writes to make, in
/// order, and the standard output and error that the shell keeps.
#[derive(Debug, PartialEq)]
pub struct Delivery {
    pub sinks: Vec<Sink>,
    pub stdout: String,
    pub stderr: String,
}

/// The writes for one stream: a file is written even with nothing to
/// write; a raw descriptor only when there is something.
pub open spec fn stream_sinks(t: TargetView, content: Seq<char>) -> Seq<(TargetView, Seq<char>)> {
    match t {
        TargetView::File(_, _) => seq![(t, content)],
        TargetView::RawFd(_) => if content.len() > 0 {
            seq![(t, content)]
        } else {
            Seq::empty()
        },
        _ => Seq::empty(),
    }
}

/// What the shell keeps of stream `fd`: all of it when captured; nothing
/// when it was written out, or when standard error is closed.
pub open spec fn kept(fd: u32, t: TargetView, content: Seq<char>) -> Seq<char> {
    match t {
        TargetView::Capture => content,
        TargetView::Closed => if fd == 2 {
            Seq::empty()
        } else {
            content
        },
        _ => Seq::empty(),
    }
}

/// The delivery of captured output `out` and `err` whose standard output
/// goes to `t1` and standard error to `t2`: when both go to the same file
/// in the same way, one write of the output then the error; else each
/// stream on its own, standard output first.
pub open spec fn delivery(out: Seq<char>, err: Seq<char>, t1: TargetView, t2: TargetView) -> (
    Seq<(TargetView, Seq<char>)>,
    Seq<char>,
    Seq<char>,
) {
    match (t1, t2) {
        (TargetView::File(p1, a1), TargetView::File(p2, a2)) if p1 == p2 && a1 == a2 => (
            seq![(t1, out + err)],
            Seq::empty(),
            Seq::empty(),
        ),
        _ => (stream_sinks(t1, out) + stream_sinks(t2, err), kept(1, t1, out), kept(2, t2, err)),
    }
}

/// The views of writes.
pub open spec fn sink_views(v: Seq<Sink>) -> Seq<(TargetView, Seq<char>)> {
    v.map_values(|k: Sink| (k.target@, k.content@))
}

impl Streams {
    /// What the output becomes once every redirection is applied.
    pub fn deliver(&self) -> (d: Delivery)
        ensures
            (sink_views(d.sinks@), d.stdout@, d.stderr@) == delivery(self.out(), self.err(), self.target(1), self.target(2)),
    {
        let t1 = self.target_of(1);
        let t2 = self.target_of(2);
        let same = match (&t1, &t2) {
            (StreamTarget::File { path: p1, append: a1 }, StreamTarget::File { path: p2, append: a2 }) => crate::text::str_eq(
                p1.as_str(),
                p2.as_str(),
            ) && *a1 == *a2,
            _ => false,
        };
        if same {
            let mut content = owned(self.stdout.as_str());
            append_str(&mut content, self.stderr.as_str());
            let mut sinks: Vec<Sink> = Vec::new();
            let ghost tv = t1@;
            sinks.push(Sink { target: t1, content });
            assert(sink_views(sinks@) =~= seq![(tv, self.out() + self.err())]);
            return Delivery { sinks, stdout: String::new(), stderr: String::new() };
        }
        let mut sinks: Vec<Sink> = Vec::new();
        let ghost tv1 = t1@;
        let ghost tv2 = t2@;
        let keep_out = push_sink(&mut sinks, 1, t1, self.stdout.as_str());
        let keep_err = push_sink(&mut sinks, 2, t2, self.stderr.as_str());
        proof {
            assert(sink_views(sinks@) =~= stream_sinks(tv1, self.out()) + stream_sinks(tv2, self.err()));
        }
        Delivery { sinks, stdout: keep_out, stderr: keep_err }
    }
}

/// Adds the writes of stream `fd` going to `t` with `content`, and gives
/// what the shell keeps of it.
fn push_sink(sinks: &mut Vec<Sink>, fd: u32, t: StreamTarget, content: &str) -> (r: String)
    ensures
        sink_views(final(sinks)@) == sink_views(old(sinks)@) + stream_sinks(t@, content@),
        r@ == kept(fd, t@, content@),
{
    let ghost tv = t@;
    let ghost before = sink_views(sinks@);
    match t {
        StreamTarget::Capture => {
            assert(sink_views(sinks@) =~= before + stream_sinks(tv, content@));
            owned(content)
        },
        StreamTarget::Closed => {
            assert(sink_views(sinks@) =~= before + stream_sinks(tv, content@));
            if fd == 2 {
                String::new()
            } else {
                owned(content)
            }
        },
        StreamTarget::RawFd(raw) => {
            if !content.is_empty() {
                sinks.push(Sink { target: StreamTarget::RawFd(raw), content: owned(content) });
                assert(sink_views(sinks@) =~= before + stream_sinks(tv, content@));
            } else {
                assert(sink_views(sinks@) =~= before + stream_sinks(tv, content@));
            }
            String::new()
        },
        StreamTarget::File { path, append } => {
            sinks.push(Sink { target: StreamTarget::File { path, append }, content: owned(content) });
            assert(sink_views(sinks@) =~= before + stream_sinks(tv, content@));
            String::new()
        },
    }
}

/// The order of redirections matters. `> f 2>&1` sends both streams to the
/// file `f`; `2>&1 > f` sends standard output to `f` and standard error
/// where standard output went before, with the error captured so far
/// joining the captured output when that was captured.
pub proof fn law_redirect_order(v: StreamsView, path: Seq<char>, append: bool)
    ensures
        ({
            let a = applied(applied(v, OpView::ToFile(1, path, append)).0, OpView::StderrToStdout).0;
            &&& target_in(a.table, 1) == TargetView::File(path, append)
            &&& target_in(a.table, 2) == TargetView::File(path, append)
            &&& a.out == v.out && a.err == v.err
        }),
        ({
            let b = applied(applied(v, OpView::StderrToStdout).0, OpView::ToFile(1, path, append)).0;
            &&& target_in(b.table, 1) == TargetView::File(path, append)
            &&& target_in(b.table, 2) == target_in(v.table, 1)
            &&& target_in(v.table, 1) is Capture ==> b.out == v.out + v.err && b.err.len() == 0
        }),
{
    let a1 = applied(v, OpView::ToFile(1, path, append)).0;
    assert(target_in(a1.table, 1) == TargetView::File(path, append));
    let a = applied(a1, OpView::StderrToStdout).0;
    assert(a.table.drop_last() =~= a1.table);
    let b1 = applied(v, OpView::StderrToStdout).0;
    assert(b1.table.drop_last() =~= v.table);
    let b = applied(b1, OpView::ToFile(1, path, append)).0;
    assert(b.table.drop_last() =~= b1.table);
}

/// A descriptor that is redirected last goes where that redirection sends
/// it, whatever came before: each redirection of a descriptor replaces its
/// target, and leaves the other descriptors' targets as they were.
pub proof fn law_last_redirect_wins(v: StreamsView, fd: u32, path: Seq<char>, append: bool, other: u32)
    requires
        other != fd,
    ensures
        target_in(applied(v, OpView::ToFile(fd, path, append)).0.table, fd) == TargetView::File(path, append),
        target_in(applied(v, OpView::ToFile(fd, path, append)).0.table, other) == target_in(v.table, other),
        target_in(applied(v, OpView::CloseFd(fd)).0.table, fd) == TargetView::Closed,
        target_in(applied(v, OpView::CloseFd(fd)).0.table, other) == target_in(v.table, other),
{
    assert(applied(v, OpView::ToFile(fd, path, append)).0.table.drop_last() =~= v.table);
    assert(applied(v, OpView::CloseFd(fd)).0.table.drop_last() =~= v.table);
}

/// `1>&2` sends standard output where standard error goes: when standard
/// error is captured, the output captured so far follows it, after the
/// error captured so far, and nothing stays captured as output; otherwise
/// the captured streams stay as they are. Other descriptors keep their
/// targets. `2>&1` is the mirror image.
pub proof fn law_duplicate_streams(v: StreamsView, other: u32)
    requires
        other != 1 && other != 2,
    ensures
        ({
            let a = applied(v, OpView::StdoutToStderr);
            &&& a.1 is None
            &&& target_in(a.0.table, 1) == target_in(v.table, 2)
            &&& target_in(a.0.table, 2) == target_in(v.table, 2)
            &&& target_in(a.0.table, other) == target_in(v.table, other)
            &&& target_in(v.table, 2) is Capture ==> a.0.out.len() == 0 && a.0.err == v.err + v.out
            &&& !(target_in(v.table, 2) is Capture) ==> a.0.out == v.out && a.0.err == v.err
        }),
        ({
            let b = applied(v, OpView::StderrToStdout);
            &&& b.1 is None
            &&& target_in(b.0.table, 2) == target_in(v.table, 1)
            &&& target_in(b.0.table, 1) == target_in(v.table, 1)
            &&& target_in(b.0.table, other) == target_in(v.table, other)
            &&& target_in(v.table, 1) is Capture ==> b.0.err.len() == 0 && b.0.out == v.out + v.err
            &&& !(target_in(v.table, 1) is Capture) ==> b.0.out == v.out && b.0.err == v.err
        }),
{
    let a = applied(v, OpView::StdoutToStderr).0;
    assert(a.table.drop_last() =~= v.table);
    let b = applied(v, OpView::StderrToStdout).0;
    assert(b.table.drop_last() =~= v.table);
}

/// `&> f` sends both standard output and error to `f` and leaves what was
/// captured; `>&n` on a closed `n` is refused with "bad file descriptor"
/// (status 1) and changes nothing, and on any other `n` sends standard
/// output where `n` goes; `<&n` for standard input does the same for
/// standard input, without moving captured output; a redirection the
/// parser rejected is refused with its message, status 2 for a syntax
/// error, and changes nothing.
pub proof fn law_other_redirections(v: StreamsView, path: Seq<char>, append: bool, n: u32, m: Seq<char>)
    ensures
        ({
            let a = applied(v, OpView::Both(path, append));
            &&& a.1 is None
            &&& target_in(a.0.table, 1) == TargetView::File(path, append)
            &&& target_in(a.0.table, 2) == TargetView::File(path, append)
            &&& a.0.out == v.out && a.0.err == v.err
        }),
        target_in(v.table, n) is Closed ==> applied(v, OpView::StdoutToFd(n)) == (
            v,
            Some(("bad file descriptor"@, 1i32)),
        ),
        !(target_in(v.table, n) is Closed) ==> ({
            let a = applied(v, OpView::StdoutToFd(n));
            &&& a.1 is None
            &&& target_in(a.0.table, 1) == target_in(v.table, n)
        }),
        target_in(v.table, n) is Closed ==> applied(v, OpView::FdInputFrom(0, n)) == (
            v,
            Some(("bad file descriptor"@, 1i32)),
        ),
        !(target_in(v.table, n) is Closed) ==> ({
            let a = applied(v, OpView::FdInputFrom(0, n));
            &&& a.1 is None
            &&& target_in(a.0.table, 0) == target_in(v.table, n)
            &&& a.0.out == v.out && a.0.err == v.err
        }),
        applied(v, OpView::Invalid(m)).0 == v,
        has_sub(m, "syntax error near unexpected token"@) ==> applied(v, OpView::Invalid(m)).1 == Some(
            (m, 2i32),
        ),
        !has_sub(m, "syntax error near unexpected token"@) ==> applied(v, OpView::Invalid(m)).1 == Some(
            (m, 1i32),
        ),
{
    let a = applied(v, OpView::Both(path, append)).0;
    let a1 = retarget(v, 1, TargetView::File(path, append));
    assert(a.table.drop_last() =~= a1.table);
    assert(a1.table.drop_last() =~= v.table);
    assert(target_in(a1.table, 1) == TargetView::File(path, append));
    assert(target_in(a.table, 1) == target_in(a1.table, 1));
    let b = applied(v, OpView::StdoutToFd(n)).0;
    if !(target_in(v.table, n) is Closed) {
        assert(b.table.drop_last() =~= v.table);
        let c = applied(v, OpView::FdInputFrom(0, n)).0;
        assert(c.table.drop_last() =~= v.table);
    }
}

} // verus!
