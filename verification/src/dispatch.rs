//! How a simple command is dispatched once its words are expanded: the
//! trace line `set -x` prints, and whether the command runs as a shell
//! function, as the permanent-redirection form of `exec`, as a builtin or
//! as an external program, after its alias is expanded.
use vstd::prelude::*;
use crate::executor::{alias_expansion, expansion_view, Runtime};
use crate::text::{append_str, chars_of, join, join_strings, owned, str_eq, string_of_range, views};

verus! {

/// Whether `list` holds `s`.
pub fn contains_str(list: &[String], s: &str) -> (b: bool)
    ensures
        b == views(list@).contains(s@),
{
    let mut i: usize = 0;
    while i < list.len()
        invariant
            i <= list.len(),
            forall|j: int| 0 <= j < i ==> views(list@)[j] != s@,
        decreases list.len() - i,
    {
        if str_eq(list[i].as_str(), s) {
            assert(views(list@)[i as int] == s@);
            return true;
        }
        i = i + 1;
    }
    false
}

/// The line that `set -x` prints on stderr before a command runs, without
/// its newline: `+ `, the name, and the arguments after a space when they
/// are not all empty.
pub open spec fn spec_xtrace_line(name: Seq<char>, args: Seq<Seq<char>>) -> Seq<char> {
    let a = join(args, " "@);
    if a.len() == 0 {
        "+ "@ + name
    } else {
        "+ "@ + name + " "@ + a
    }
}

/// The trace line of a command.
pub fn xtrace_line(name: &str, args: &[String]) -> (r: String)
    ensures
        r@ == spec_xtrace_line(name@, views(args@)),
{
    let a = join_strings(args, " ");
    let mut r = owned("+ ");
    append_str(&mut r, name);
    if a.as_str().unicode_len() > 0 {
        append_str(&mut r, " ");
        append_str(&mut r, a.as_str());
    }
    r
}

/// What a command runs as.
#[derive(Debug, PartialEq)]
pub enum CommandAction {
    /// An empty command name: nothing runs.
    Nothing,
    /// A shell function.
    Function { name: String, args: Vec<String> },
    /// `exec` with redirections and no arguments: the redirections become
    /// permanent.
    ExecPermanent,
    /// A builtin.
    Builtin { name: String, args: Vec<String> },
    /// An external program.
    External { name: String, args: Vec<String> },
}

/// A command's action as plain values.
pub enum ActionView {
    Nothing,
    Function(Seq<char>, Seq<Seq<char>>),
    ExecPermanent,
    Builtin(Seq<char>, Seq<Seq<char>>),
    External(Seq<char>, Seq<Seq<char>>),
}

impl View for CommandAction {
    type V = ActionView;

    open spec fn view(&self) -> ActionView {
        match self {
            CommandAction::Nothing => ActionView::Nothing,
            CommandAction::Function { name, args } => ActionView::Function(name@, views(args@)),
            CommandAction::ExecPermanent => ActionView::ExecPermanent,
            CommandAction::Builtin { name, args } => ActionView::Builtin(name@, views(args@)),
            CommandAction::External { name, args } => ActionView::External(name@, views(args@)),
        }
    }
}

/// What a command named `name` with `args` runs as: nothing for an empty
/// name; else, once its alias is expanded (an alias with no words is an
/// error), a shell function where one has the name, `exec` with no
/// arguments and some redirections as permanent redirections, a builtin
/// where one has the name, and an external program otherwise.
pub open spec fn spec_command_action(
    alias: Option<Seq<char>>,
    functions: Seq<Seq<char>>,
    builtins: Seq<Seq<char>>,
    name: Seq<char>,
    args: Seq<Seq<char>>,
    has_redirects: bool,
) -> Result<ActionView, Seq<char>> {
    if name.len() == 0 {
        Ok(ActionView::Nothing)
    } else {
        match alias_expansion(alias, name, args) {
            Err(e) => Err(e),
            Ok((n, a)) => if functions.contains(n) {
                Ok(ActionView::Function(n, a))
            } else if builtins.contains(n) {
                if n == "exec"@ && a.len() == 0 && has_redirects {
                    Ok(ActionView::ExecPermanent)
                } else {
                    Ok(ActionView::Builtin(n, a))
                }
            } else {
                Ok(ActionView::External(n, a))
            },
        }
    }
}

/// An action or an error as plain values.
pub open spec fn action_result_view(r: Result<CommandAction, String>) -> Result<ActionView, Seq<char>> {
    match r {
        Ok(a) => Ok(a@),
        Err(e) => Err(e@),
    }
}

/// What the command `name args` runs as, given the runtime's aliases, the
/// names of the shell functions and of the builtins, and whether the
/// command has redirections.
pub fn command_action(
    rt: &Runtime,
    functions: &[String],
    builtins: &[String],
    name: &str,
    args: Vec<String>,
    has_redirects: bool,
) -> (r: Result<CommandAction, String>)
    ensures
        action_result_view(r) == spec_command_action(
            rt.alias(name@),
            views(functions@),
            views(builtins@),
            name@,
            views(args@),
            has_redirects,
        ),
{
    if name.unicode_len() == 0 {
        proof {
            assert(name@.len() == 0);
        }
        return Ok(CommandAction::Nothing);
    }
    let expanded = rt.expand_alias(name, args);
    match expanded {
        Err(e) => Err(e),
        Ok((n, a)) => {
            if contains_str(functions, n.as_str()) {
                Ok(CommandAction::Function { name: n, args: a })
            } else if contains_str(builtins, n.as_str()) {
                if str_eq(n.as_str(), "exec") && a.len() == 0 && has_redirects {
                    Ok(CommandAction::ExecPermanent)
                } else {
                    Ok(CommandAction::Builtin { name: n, args: a })
                }
            } else {
                Ok(CommandAction::External { name: n, args: a })
            }
        },
    }
}

/// The stderr text of a command that the user declined to run.
pub open spec fn spec_cancelled(name: Seq<char>) -> Seq<char> {
    "Cancelled "@ + name + "\n"@
}

/// What the shell reports when the user declines to run `name`.
pub fn cancelled_message(name: &str) -> (r: String)
    ensures
        r@ == spec_cancelled(name@),
{
    let mut r = owned("Cancelled ");
    append_str(&mut r, name);
    append_str(&mut r, "\n");
    r
}

/// The builtins whose failures leave the command to the enclosing code
/// (loops, functions, `exec`) rather than becoming its error text.
pub open spec fn passes_failure_on(name: Seq<char>) -> bool {
    name == "break"@ || name == "continue"@ || name == "command"@ || name == "exec"@ || name
        == "local"@ || name == "shift"@
}

/// The stderr text of a builtin `name` that failed with `message`: none for
/// the builtins that pass their failure on, else `name: message` and a
/// newline.
pub fn builtin_failure(name: &str, message: &str) -> (r: Option<String>)
    ensures
        passes_failure_on(name@) ==> r is None,
        !passes_failure_on(name@) ==> (r matches Some(t) && t@ == name@ + ": "@ + message@ + "\n"@),
{
    if str_eq(name, "break") || str_eq(name, "continue") || str_eq(name, "command") || str_eq(name, "exec")
        || str_eq(name, "local") || str_eq(name, "shift") {
        return None;
    }
    let mut t = owned(name);
    append_str(&mut t, ": ");
    append_str(&mut t, message);
    append_str(&mut t, "\n");
    Some(t)
}

/// Whether `w` is a `NAME=value` assignment: a name (a letter or `_`, then
/// letters, digits and `_`) before its first `=`; then the name and the
/// value after the `=`.
pub open spec fn spec_assignment(w: Seq<char>) -> Option<(Seq<char>, Seq<char>)> {
    let p = crate::lexer::find_char(w, 0, '=');
    if 0 < p < w.len() && (crate::scan::is_alpha(w[0]) || w[0] == '_') && (forall|q: int|
        0 <= q < p ==> crate::scan::var_char(#[trigger] w[q])) {
        Some((w.take(p), w.skip(p + 1)))
    } else {
        None
    }
}

/// The name and value of a `NAME=value` word, if it is one.
pub fn split_assignment(w: &str) -> (r: Option<(String, String)>)
    ensures
        match r {
            Some((n, v)) => spec_assignment(w@) == Some((n@, v@)),
            None => spec_assignment(w@) is None,
        },
{
    let c = chars_of(w);
    let p = crate::lexer::find_char_exec(c.as_slice(), 0, '=');
    if p == 0 || p >= c.len() {
        return None;
    }
    let c0 = c[0];
    if !(('a' <= c0 && c0 <= 'z') || ('A' <= c0 && c0 <= 'Z') || c0 == '_') {
        return None;
    }
    let mut q: usize = 0;
    while q < p
        invariant
            c@ == w@,
            p == crate::lexer::find_char(w@, 0, '='),
            0 < p < c@.len(),
            q <= p,
            forall|k: int| 0 <= k < q ==> crate::scan::var_char(#[trigger] c@[k]),
        decreases p - q,
    {
        let d = c[q];
        if !(('a' <= d && d <= 'z') || ('A' <= d && d <= 'Z') || ('0' <= d && d <= '9') || d == '_') {
            assert(!crate::scan::var_char(c@[q as int]));
            assert(!crate::scan::var_char(w@[q as int]));
            assert(!(forall|k: int| 0 <= k < p ==> crate::scan::var_char(#[trigger] w@[k])));
            return None;
        }
        q = q + 1;
    }
    let n = string_of_range(c.as_slice(), 0, p);
    let v = string_of_range(c.as_slice(), p + 1, c.len());
    assert(c@.subrange(0, p as int) =~= w@.take(p as int));
    assert(c@.subrange(p + 1, c@.len() as int) =~= w@.skip(p + 1));
    Some((n, v))
}

} // verus!
