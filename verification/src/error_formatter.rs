//! Rendering of shell errors: a colored form for terminals, with the source
//! line and a caret under the failing column, the running command and its
//! function stack, extra context and help; and a plain form without escape
//! sequences for other outputs.
use vstd::prelude::*;
use crate::error::{AUSHError, CommandContext, ContextInfo, HelpEntry, SourceLocation, spec_help};
use crate::text::{
    append_repeat, append_str, chars_of, contains_sub, dec, has_prefix, has_sub, has_suffix, join, join_strings, occurs_at,
    owned, repeat_char, u64_to_string, views,
};

verus! {

// ANSI escape sequences.
pub open spec fn red() -> Seq<char> {
    "\x1b[31m"@
}

pub open spec fn yellow() -> Seq<char> {
    "\x1b[33m"@
}

pub open spec fn blue() -> Seq<char> {
    "\x1b[34m"@
}

pub open spec fn bold() -> Seq<char> {
    "\x1b[1m"@
}

pub open spec fn dim() -> Seq<char> {
    "\x1b[2m"@
}

pub open spec fn reset() -> Seq<char> {
    "\x1b[0m"@
}

/// Classifies the type of error for visual formatting.
#[derive(Debug, Clone, Copy, PartialEq, Eq, Structural)]
pub enum ErrorType {
    /// Syntax or parse errors.
    Syntax,
    /// Runtime execution errors.
    Runtime,
    /// Logic errors (failed assertions).
    Logic,
    /// Informational messages.
    Info,
}

/// The type of an error code, from the words it contains.
pub open spec fn spec_classify(code: Seq<char>) -> ErrorType {
    if has_sub(code, "SYNTAX"@) || has_sub(code, "PARSE"@) {
        ErrorType::Syntax
    } else if has_sub(code, "EXECUTION"@) || has_sub(code, "RUNTIME"@) {
        ErrorType::Runtime
    } else if has_sub(code, "LOGIC"@) || has_sub(code, "ASSERTION"@) {
        ErrorType::Logic
    } else {
        ErrorType::Info
    }
}

/// The color of the header for a type of error.
pub open spec fn type_color(t: ErrorType) -> Seq<char> {
    match t {
        ErrorType::Syntax => red(),
        ErrorType::Runtime => red(),
        ErrorType::Logic => yellow(),
        ErrorType::Info => blue(),
    }
}

/// `error [CODE]: message`, with the word `error` colored by type.
pub open spec fn spec_header(code: Seq<char>, message: Seq<char>) -> Seq<char> {
    type_color(spec_classify(code)) + bold() + "error"@ + reset() + " ["@ + code + "]: "@ + message
}

/// The file name, or `<stdin>`.
pub open spec fn file_or_stdin(f: Option<String>) -> Seq<char> {
    match f {
        Some(s) => s@,
        None => "<stdin>"@,
    }
}

/// `file:line:column`, dimmed; with the line's text, the text and a caret
/// under the column on two more lines.
pub open spec fn spec_source_location(loc: SourceLocation) -> Seq<char> {
    let head = dim() + file_or_stdin(loc.filename) + ":"@ + dec(loc.line as nat) + ":"@ + dec(
        loc.column as nat,
    ) + reset();
    match loc.line_content {
        Some(content) => {
            let marker = if loc.column > 0 {
                (loc.column - 1) as nat
            } else {
                0nat
            };
            head + "\n"@ + "  "@ + dim() + "|"@ + reset() + " "@ + content@ + "\n"@ + "  "@
                + dim() + "|"@ + reset() + " "@ + repeat_char(' ', marker) + red() + "^"@ + bold()
                + " Error here"@ + reset()
        },
        None => head,
    }
}

/// The arguments part of a command context: ` [a, b]` when there are any.
pub open spec fn spec_context_args(args: Option<Vec<String>>) -> Seq<char> {
    match args {
        Some(a) => if a@.len() > 0 {
            " "@ + dim() + "["@ + reset() + join(views(a@), ", "@) + dim() + "]"@
        } else {
            Seq::empty()
        },
        None => Seq::empty(),
    }
}

/// The call-stack part of a command context, when the stack is not empty.
pub open spec fn spec_context_stack(stack: Option<Vec<String>>) -> Seq<char> {
    match stack {
        Some(s) => if s@.len() > 0 {
            "\n  "@ + bold() + "Stack:"@ + reset() + " "@ + dim() + join(views(s@), " → "@)
                + reset()
        } else {
            Seq::empty()
        },
        None => Seq::empty(),
    }
}

/// `Context: name [args]` and the function stack.
pub open spec fn spec_command_context(ctx: CommandContext) -> Seq<char> {
    bold() + "Context:"@ + reset() + " "@ + dim() + ctx.command_name@ + reset() + spec_context_args(
        ctx.args,
    ) + spec_context_stack(ctx.function_stack)
}

/// One `key: value` line per field.
pub open spec fn spec_fields(fields: Seq<(String, String)>) -> Seq<char>
    decreases fields.len(),
{
    if fields.len() == 0 {
        Seq::empty()
    } else {
        spec_fields(fields.drop_last()) + "\n  "@ + dim() + fields.last().0@ + reset() + ": "@
            + fields.last().1@
    }
}

/// `Additional Info:` followed by the fields, or the rendered value.
pub open spec fn spec_additional_context(c: ContextInfo) -> Seq<char> {
    bold() + "Additional Info:"@ + reset() + match c {
        ContextInfo::Fields(f) => spec_fields(f@),
        ContextInfo::Text(t) => "\n  "@ + dim() + t@,
    } + reset()
}

/// `Help: title`, then `What to do:` and the fix.
pub open spec fn spec_help_text(title: Seq<char>, fix: Seq<char>) -> Seq<char> {
    bold() + blue() + "Help: "@ + title + reset() + "\n"@ + bold() + "What to do:"@ + reset() + dim()
        + "\n"@ + fix + reset()
}

/// A section preceded by a newline when present.
pub open spec fn section<T>(o: Option<T>, f: spec_fn(T) -> Seq<char>) -> Seq<char> {
    match o {
        Some(x) => "\n"@ + f(x),
        None => Seq::empty(),
    }
}

/// The colored rendering of an error.
pub open spec fn spec_format_error(e: AUSHError) -> Seq<char> {
    spec_header(e.error_code@, e.message@) + section(
        e.location,
        |l: SourceLocation| spec_source_location(l),
    ) + section(e.command_context, |c: CommandContext| spec_command_context(c)) + section(
        e.context,
        |c: ContextInfo| spec_additional_context(c),
    ) + match spec_help(e.error_code@) {
        Some(h) => "\n"@ + spec_help_text(h.0, h.1),
        None => Seq::empty(),
    }
}

/// The plain location part: `at file:line:column` and the line's text.
pub open spec fn spec_plain_location(loc: Option<SourceLocation>) -> Seq<char> {
    match loc {
        Some(l) => "\n  at "@ + file_or_stdin(l.filename) + ":"@ + dec(l.line as nat) + ":"@ + dec(
            l.column as nat,
        ) + match l.line_content {
            Some(c) => "\n    "@ + c@,
            None => Seq::empty(),
        },
        None => Seq::empty(),
    }
}

/// The plain command part: `while executing: name [args]` and the functions.
pub open spec fn spec_plain_context(ctx: Option<CommandContext>) -> Seq<char> {
    match ctx {
        Some(c) => "\n  while executing: "@ + c.command_name@ + match c.args {
            Some(a) => if a@.len() > 0 {
                " ["@ + join(views(a@), ", "@) + "]"@
            } else {
                Seq::empty()
            },
            None => Seq::empty(),
        } + match c.function_stack {
            Some(s) => if s@.len() > 0 {
                "\n  in functions: "@ + join(views(s@), " → "@)
            } else {
                Seq::empty()
            },
            None => Seq::empty(),
        },
        None => Seq::empty(),
    }
}

/// The plain rendering of an error.
pub open spec fn spec_format_plain(e: AUSHError) -> Seq<char> {
    "error ["@ + e.error_code@ + "]: "@ + e.message@ + spec_plain_location(e.location)
        + spec_plain_context(e.command_context)
}

/// Error formatter that produces visually rich error messages.
pub struct ErrorFormatter;

impl ErrorFormatter {
    /// Format an error with all available context.
    #[verifier::spinoff_prover]
    #[verifier::rlimit(50)]
    pub fn format_error(error: &AUSHError) -> (s: String)
        ensures
            s@ == spec_format_error(*error),
    {
        let mut output = Self::format_error_header(error);
        let ghost s0 = output@;
        match &error.location {
            Some(location) => {
                append_str(&mut output, "\n");
                let l = Self::format_source_location(location);
                append_str(&mut output, l.as_str());
            },
            None => {},
        }
        let ghost s1 = output@;
        assert(s1 == s0 + section(error.location, |l: SourceLocation| spec_source_location(l)));
        match &error.command_context {
            Some(ctx) => {
                append_str(&mut output, "\n");
                let c = Self::format_command_context(ctx);
                append_str(&mut output, c.as_str());
            },
            None => {},
        }
        let ghost s2 = output@;
        assert(s2 == s1 + section(error.command_context, |c: CommandContext| spec_command_context(c)));
        match &error.context {
            Some(context) => {
                append_str(&mut output, "\n");
                let c = Self::format_additional_context(context);
                append_str(&mut output, c.as_str());
            },
            None => {},
        }
        let ghost s3 = output@;
        assert(s3 == s2 + section(error.context, |c: ContextInfo| spec_additional_context(c)));
        assert(s3 == spec_error_body(*error));
        match error.get_help() {
            Some(help) => {
                append_str(&mut output, "\n");
                let h = Self::format_help(&help);
                append_str(&mut output, h.as_str());
            },
            None => {},
        }
        output
    }

    /// The color for the header of an error with this code.
    fn header_color(error_code: &str) -> (s: &'static str)
        ensures
            s@ == type_color(spec_classify(error_code@)),
    {
        match Self::classify_error(error_code) {
            ErrorType::Syntax => "\x1b[31m",
            ErrorType::Runtime => "\x1b[31m",
            ErrorType::Logic => "\x1b[33m",
            ErrorType::Info => "\x1b[34m",
        }
    }

    /// Format the error header with type and message.
    fn format_error_header(error: &AUSHError) -> (s: String)
        ensures
            s@ == spec_header(error.error_code@, error.message@),
    {
        let mut s = owned(Self::header_color(error.error_code.as_str()));
        append_str(&mut s, "\x1b[1m");
        append_str(&mut s, "error");
        append_str(&mut s, "\x1b[0m");
        append_str(&mut s, " [");
        append_str(&mut s, error.error_code.as_str());
        append_str(&mut s, "]: ");
        append_str(&mut s, error.message.as_str());
        s
    }

    /// Format source location with line/column visual markers.
    pub fn format_source_location(location: &SourceLocation) -> (s: String)
        ensures
            s@ == spec_source_location(*location),
    {
        let mut s = owned("\x1b[2m");
        match &location.filename {
            Some(f) => append_str(&mut s, f.as_str()),
            None => append_str(&mut s, "<stdin>"),
        }
        append_str(&mut s, ":");
        let line = u64_to_string(location.line as u64);
        append_str(&mut s, line.as_str());
        append_str(&mut s, ":");
        let col = u64_to_string(location.column as u64);
        append_str(&mut s, col.as_str());
        append_str(&mut s, "\x1b[0m");
        match &location.line_content {
            Some(content) => {
                append_str(&mut s, "\n");
                append_str(&mut s, "  ");
                append_str(&mut s, "\x1b[2m");
                append_str(&mut s, "|");
                append_str(&mut s, "\x1b[0m");
                append_str(&mut s, " ");
                append_str(&mut s, content.as_str());
                append_str(&mut s, "\n");
                append_str(&mut s, "  ");
                append_str(&mut s, "\x1b[2m");
                append_str(&mut s, "|");
                append_str(&mut s, "\x1b[0m");
                append_str(&mut s, " ");
                let marker: usize = if location.column > 0 {
                    location.column - 1
                } else {
                    0
                };
                append_repeat(&mut s, ' ', marker);
                append_str(&mut s, "\x1b[31m");
                append_str(&mut s, "^");
                append_str(&mut s, "\x1b[1m");
                append_str(&mut s, " Error here");
                append_str(&mut s, "\x1b[0m");
            },
            None => {},
        }
        s
    }

    /// Format command execution context.
    fn format_command_context(ctx: &CommandContext) -> (s: String)
        ensures
            s@ == spec_command_context(*ctx),
    {
        let mut s = owned("\x1b[1m");
        append_str(&mut s, "Context:");
        append_str(&mut s, "\x1b[0m");
        append_str(&mut s, " ");
        append_str(&mut s, "\x1b[2m");
        append_str(&mut s, ctx.command_name.as_str());
        append_str(&mut s, "\x1b[0m");
        match &ctx.args {
            Some(args) => {
                if args.len() > 0 {
                    append_str(&mut s, " ");
                    append_str(&mut s, "\x1b[2m");
                    append_str(&mut s, "[");
                    append_str(&mut s, "\x1b[0m");
                    let j = join_strings(args.as_slice(), ", ");
                    append_str(&mut s, j.as_str());
                    append_str(&mut s, "\x1b[2m");
                    append_str(&mut s, "]");
                }
            },
            None => {},
        }
        match &ctx.function_stack {
            Some(stack) => {
                if stack.len() > 0 {
                    append_str(&mut s, "\n  ");
                    append_str(&mut s, "\x1b[1m");
                    append_str(&mut s, "Stack:");
                    append_str(&mut s, "\x1b[0m");
                    append_str(&mut s, " ");
                    append_str(&mut s, "\x1b[2m");
                    let j = join_strings(stack.as_slice(), " → ");
                    append_str(&mut s, j.as_str());
                    append_str(&mut s, "\x1b[0m");
                }
            },
            None => {},
        }
        s
    }

    /// Format additional context information.
    fn format_additional_context(context: &ContextInfo) -> (s: String)
        ensures
            s@ == spec_additional_context(*context),
    {
        let mut s = owned("\x1b[1m");
        append_str(&mut s, "Additional Info:");
        append_str(&mut s, "\x1b[0m");
        let ghost s0 = s@;
        match context {
            ContextInfo::Fields(fields) => {
                let mut i: usize = 0;
                while i < fields.len()
                    invariant
                        i <= fields.len(),
                        s@ == s0 + spec_fields(fields@.take(i as int)),
                    decreases fields.len() - i,
                {
                    assert(fields@.take(i + 1).drop_last() =~= fields@.take(i as int));
                    append_str(&mut s, "\n  ");
                    append_str(&mut s, "\x1b[2m");
                    append_str(&mut s, fields[i].0.as_str());
                    append_str(&mut s, "\x1b[0m");
                    append_str(&mut s, ": ");
                    append_str(&mut s, fields[i].1.as_str());
                    i = i + 1;
                }
                assert(fields@.take(fields.len() as int) =~= fields@);
            },
            ContextInfo::Text(t) => {
                append_str(&mut s, "\n  ");
                append_str(&mut s, "\x1b[2m");
                append_str(&mut s, t.as_str());
            },
        }
        append_str(&mut s, "\x1b[0m");
        s
    }

    /// Format help text for an error.
    fn format_help(help_entry: &HelpEntry) -> (s: String)
        ensures
            s@ == spec_help_text(help_entry.title@, help_entry.fix@),
    {
        let mut s = owned("\x1b[1m");
        append_str(&mut s, "\x1b[34m");
        append_str(&mut s, "Help: ");
        append_str(&mut s, help_entry.title.as_str());
        append_str(&mut s, "\x1b[0m");
        append_str(&mut s, "\n");
        append_str(&mut s, "\x1b[1m");
        append_str(&mut s, "What to do:");
        append_str(&mut s, "\x1b[0m");
        append_str(&mut s, "\x1b[2m");
        append_str(&mut s, "\n");
        append_str(&mut s, help_entry.fix.as_str());
        append_str(&mut s, "\x1b[0m");
        s
    }

    /// Classify error type from error code.
    pub fn classify_error(error_code: &str) -> (t: ErrorType)
        ensures
            t == spec_classify(error_code@),
    {
        let c = chars_of(error_code);
        let c = c.as_slice();
        let syntax = chars_of("SYNTAX");
        let parse = chars_of("PARSE");
        let execution = chars_of("EXECUTION");
        let runtime = chars_of("RUNTIME");
        let logic = chars_of("LOGIC");
        let assertion = chars_of("ASSERTION");
        if contains_sub(c, syntax.as_slice()) || contains_sub(c, parse.as_slice()) {
            ErrorType::Syntax
        } else if contains_sub(c, execution.as_slice()) || contains_sub(c, runtime.as_slice()) {
            ErrorType::Runtime
        } else if contains_sub(c, logic.as_slice()) || contains_sub(c, assertion.as_slice()) {
            ErrorType::Logic
        } else {
            ErrorType::Info
        }
    }

    /// Format error as simple text (for non-TTY output).
    #[verifier::spinoff_prover]
    #[verifier::rlimit(50)]
    pub fn format_plain(error: &AUSHError) -> (s: String)
        ensures
            s@ == spec_format_plain(*error),
    {
        let mut s = owned("error [");
        append_str(&mut s, error.error_code.as_str());
        append_str(&mut s, "]: ");
        append_str(&mut s, error.message.as_str());
        let ghost s0 = s@;
        match &error.location {
            Some(location) => {
                append_str(&mut s, "\n  at ");
                match &location.filename {
                    Some(f) => append_str(&mut s, f.as_str()),
                    None => append_str(&mut s, "<stdin>"),
                }
                append_str(&mut s, ":");
                let line = u64_to_string(location.line as u64);
                append_str(&mut s, line.as_str());
                append_str(&mut s, ":");
                let col = u64_to_string(location.column as u64);
                append_str(&mut s, col.as_str());
                match &location.line_content {
                    Some(content) => {
                        append_str(&mut s, "\n    ");
                        append_str(&mut s, content.as_str());
                    },
                    None => {},
                }
            },
            None => {},
        }
        let ghost s1 = s@;
        assert(s1 == s0 + spec_plain_location(error.location));
        match &error.command_context {
            Some(ctx) => {
                append_str(&mut s, "\n  while executing: ");
                append_str(&mut s, ctx.command_name.as_str());
                match &ctx.args {
                    Some(args) => {
                        if args.len() > 0 {
                            append_str(&mut s, " [");
                            let j = join_strings(args.as_slice(), ", ");
                            append_str(&mut s, j.as_str());
                            append_str(&mut s, "]");
                        }
                    },
                    None => {},
                }
                match &ctx.function_stack {
                    Some(stack) => {
                        if stack.len() > 0 {
                            append_str(&mut s, "\n  in functions: ");
                            let j = join_strings(stack.as_slice(), " → ");
                            append_str(&mut s, j.as_str());
                        }
                    },
                    None => {},
                }
            },
            None => {},
        }
        s
    }
}

proof fn lemma_occurs_left(u: Seq<char>, v: Seq<char>, t: Seq<char>, i: int)
    requires
        occurs_at(u, t, i),
    ensures
        occurs_at(u + v, t, i),
{
    assert((u + v).subrange(i, i + t.len()) =~= u.subrange(i, i + t.len()));
}

proof fn lemma_occurs_right(u: Seq<char>, v: Seq<char>, t: Seq<char>, i: int)
    requires
        occurs_at(v, t, i),
    ensures
        occurs_at(u + v, t, u.len() + i),
{
    assert((u + v).subrange(u.len() + i, u.len() + i + t.len()) =~= v.subrange(i, i + t.len()));
}

proof fn lemma_occurs_end(u: Seq<char>, t: Seq<char>)
    ensures
        occurs_at(u + t, t, u.len() as int),
{
    assert((u + t).subrange(u.len() as int, (u.len() + t.len()) as int) =~= t);
}

proof fn lemma_occurs_pair(a: Seq<char>, b: Seq<char>, c: Seq<char>)
    ensures
        occurs_at(a + b + c, b + c, a.len() as int),
{
    assert((a + b + c).subrange(a.len() as int, (a.len() + b.len() + c.len()) as int) =~= b + c);
}

/// The colored rendering of an error starts with the color of its type,
/// and shows its code and its message; when there is help for its code, it
/// shows `Help:` with the help's title.
#[verifier::spinoff_prover]
#[verifier::rlimit(100)]
pub proof fn law_format_error_shows(e: AUSHError)
    ensures
        has_prefix(spec_format_error(e), type_color(spec_classify(e.error_code@))),
        has_sub(spec_format_error(e), e.error_code@),
        has_sub(spec_format_error(e), e.message@),
        spec_help(e.error_code@) matches Some(h) ==> has_sub(spec_format_error(e), "Help: "@ + h.0),
{
    let code = e.error_code@;
    let message = e.message@;
    let c = type_color(spec_classify(code));
    let pre = c + bold() + "error"@ + reset() + " ["@;
    let w1 = pre + code;
    let w2 = w1 + "]: "@;
    let header = w2 + message;
    assert(header == spec_header(code, message));
    let s1 = header + section(e.location, |l: SourceLocation| spec_source_location(l));
    let s2 = s1 + section(e.command_context, |x: CommandContext| spec_command_context(x));
    let s3 = s2 + section(e.context, |x: ContextInfo| spec_additional_context(x));
    let help = match spec_help(code) {
        Some(h) => "\n"@ + spec_help_text(h.0, h.1),
        None => Seq::<char>::empty(),
    };
    let s = s3 + help;
    assert(s == spec_format_error(e));
    // the code
    lemma_occurs_end(pre, code);
    lemma_occurs_left(w1, "]: "@, code, pre.len() as int);
    lemma_occurs_left(w2, message, code, pre.len() as int);
    lemma_occurs_left(header, s1.skip(header.len() as int), code, pre.len() as int);
    assert(header + s1.skip(header.len() as int) =~= s1);
    lemma_occurs_left(s1, s2.skip(s1.len() as int), code, pre.len() as int);
    assert(s1 + s2.skip(s1.len() as int) =~= s2);
    lemma_occurs_left(s2, s3.skip(s2.len() as int), code, pre.len() as int);
    assert(s2 + s3.skip(s2.len() as int) =~= s3);
    lemma_occurs_left(s3, help, code, pre.len() as int);
    // the message
    lemma_occurs_end(w2, message);
    lemma_occurs_left(header, s1.skip(header.len() as int), message, w2.len() as int);
    lemma_occurs_left(s1, s2.skip(s1.len() as int), message, w2.len() as int);
    lemma_occurs_left(s2, s3.skip(s2.len() as int), message, w2.len() as int);
    lemma_occurs_left(s3, help, message, w2.len() as int);
    // the color
    assert(pre.take(c.len() as int) =~= c);
    assert(s.take(c.len() as int) =~= c) by {
        assert forall|j: int| 0 <= j < c.len() implies s[j] == c[j] by {
            assert(s[j] == s3[j]);
            assert(s3[j] == s2[j]);
            assert(s2[j] == s1[j]);
            assert(s1[j] == header[j]);
            assert(header[j] == w2[j]);
            assert(w2[j] == w1[j]);
            assert(w1[j] == pre[j]);
        }
    }
    // the help
    if let Some(h) = spec_help(code) {
        let t = "Help: "@ + h.0;
        let a0 = bold() + blue();
        let ht = spec_help_text(h.0, h.1);
        let inner = a0 + "Help: "@ + h.0;
        lemma_occurs_pair(a0, "Help: "@, h.0);
        let rest_ht = ht.skip(inner.len() as int);
        assert(inner + rest_ht =~= ht);
        lemma_occurs_left(inner, rest_ht, t, a0.len() as int);
        lemma_occurs_right("\n"@, ht, t, a0.len() as int);
        reveal_strlit("\n");
        assert(help == "\n"@ + ht);
        lemma_occurs_right(s3, help, t, 1 + a0.len() as int);
    }
}

/// The colored rendering of an error without its help section: the header
/// and the location, command and context sections.
pub open spec fn spec_error_body(e: AUSHError) -> Seq<char> {
    spec_header(e.error_code@, e.message@) + section(
        e.location,
        |l: SourceLocation| spec_source_location(l),
    ) + section(e.command_context, |c: CommandContext| spec_command_context(c)) + section(
        e.context,
        |c: ContextInfo| spec_additional_context(c),
    )
}

/// The help section is there exactly when there is help for the error's
/// code: the rendering is the body alone without help, and the body, a
/// newline and the help text with it. So when nothing else in the rendering
/// says `Help:`, it says `Help:` exactly when there is help.
pub proof fn law_help_exactly_when_known(e: AUSHError)
    ensures
        spec_help(e.error_code@) is None ==> spec_format_error(e) == spec_error_body(e),
        spec_help(e.error_code@) matches Some(h) ==> spec_format_error(e) == spec_error_body(e) + "\n"@
            + spec_help_text(h.0, h.1),
        !has_sub(spec_error_body(e), "Help:"@) ==> (has_sub(spec_format_error(e), "Help:"@)
            <==> spec_help(e.error_code@) is Some),
{
    assert(spec_help(e.error_code@) is None ==> spec_format_error(e) =~= spec_error_body(e));
    if let Some(h) = spec_help(e.error_code@) {
        assert(spec_format_error(e) =~= spec_error_body(e) + ("\n"@ + spec_help_text(h.0, h.1)));
        law_format_error_shows(e);
        let t = "Help: "@ + h.0;
        let i = choose|i: int| occurs_at(spec_format_error(e), t, i);
        reveal_strlit("Help: ");
        reveal_strlit("Help:");
        assert(spec_format_error(e).subrange(i, i + 5) =~= t.subrange(0, 5));
        assert(t.subrange(0, 5) =~= "Help:"@);
        assert(occurs_at(spec_format_error(e), "Help:"@, i));
    }
}

/// The caret of a source location stands under its column: the last line
/// is `  | `, one space fewer than the column (none for column 0 or 1), and
/// `^ Error here`.
pub proof fn law_caret_under_column(loc: SourceLocation)
    requires
        loc.line_content is Some,
    ensures
        has_suffix(
            spec_source_location(loc),
            "\n"@ + "  "@ + dim() + "|"@ + reset() + " "@ + repeat_char(
                ' ',
                if loc.column > 0 {
                    (loc.column - 1) as nat
                } else {
                    0nat
                },
            ) + red() + "^"@ + bold() + " Error here"@ + reset(),
        ),
{
    let marker = if loc.column > 0 {
        (loc.column - 1) as nat
    } else {
        0nat
    };
    let content = loc.line_content->0;
    let head = dim() + file_or_stdin(loc.filename) + ":"@ + dec(loc.line as nat) + ":"@ + dec(
        loc.column as nat,
    ) + reset();
    let front = head + "\n"@ + "  "@ + dim() + "|"@ + reset() + " "@ + content@;
    let tail = "\n"@ + "  "@ + dim() + "|"@ + reset() + " "@ + repeat_char(' ', marker) + red() + "^"@
        + bold() + " Error here"@ + reset();
    assert(spec_source_location(loc) =~= front + tail);
    assert((front + tail).skip(front.len() as int) =~= tail);
}

/// The plain rendering starts `error [code]: message`; with a location it
/// goes on with `\\n  at file:line:column`, the file being `<stdin>` when it
/// has none, and, when the location has the line's text, `\\n    ` and that
/// text right after.
pub proof fn law_format_plain_location(e: AUSHError)
    ensures
        has_prefix(spec_format_plain(e), "error ["@ + e.error_code@ + "]: "@ + e.message@),
        e.location matches Some(l) ==> has_prefix(
            spec_format_plain(e),
            ("error ["@ + e.error_code@ + "]: "@ + e.message@) + ("\n  at "@ + match l.filename {
                Some(f) => f@,
                None => "<stdin>"@,
            } + ":"@ + dec(l.line as nat) + ":"@ + dec(l.column as nat) + match l.line_content {
                Some(c) => "\n    "@ + c@,
                None => Seq::<char>::empty(),
            }),
        ),
{
    let head = "error ["@ + e.error_code@ + "]: "@ + e.message@;
    let s = spec_format_plain(e);
    let rest = spec_plain_location(e.location) + spec_plain_context(e.command_context);
    assert(s =~= head + rest);
    assert(s.take(head.len() as int) =~= head);
    if let Some(l) = e.location {
        let loc = spec_plain_location(e.location);
        let want = "\n  at "@ + match l.filename {
            Some(f) => f@,
            None => "<stdin>"@,
        } + ":"@ + dec(l.line as nat) + ":"@ + dec(l.column as nat) + match l.line_content {
            Some(c) => "\n    "@ + c@,
            None => Seq::<char>::empty(),
        };
        assert(file_or_stdin(l.filename) == match l.filename {
            Some(f) => f@,
            None => "<stdin>"@,
        });
        assert(loc =~= want);
        let full = head + loc;
        assert(s =~= full + spec_plain_context(e.command_context));
        assert(s.take(full.len() as int) =~= full);
        assert(full =~= head + want);
        assert(has_prefix(s, head + want));
    }
}

/// Without a location, the plain rendering of an error with a command
/// context goes on from `error [code]: message` with `\\n  while executing: `
/// and the command's name.
pub proof fn law_format_plain_context(e: AUSHError)
    requires
        e.location is None,
        e.command_context is Some,
    ensures
        has_prefix(
            spec_format_plain(e),
            ("error ["@ + e.error_code@ + "]: "@ + e.message@) + ("\n  while executing: "@
                + e.command_context->0.command_name@),
        ),
{
    let head = "error ["@ + e.error_code@ + "]: "@ + e.message@;
    let c = e.command_context->0;
    let want = "\n  while executing: "@ + c.command_name@;
    let ctx = spec_plain_context(e.command_context);
    assert(spec_plain_location(e.location) =~= Seq::<char>::empty());
    assert(spec_format_plain(e) =~= head + ctx);
    let tail = ctx.skip(want.len() as int);
    assert(ctx =~= want + tail);
    assert(spec_format_plain(e) =~= (head + want) + tail);
    assert(spec_format_plain(e).take((head + want).len() as int) =~= head + want);
}

} // verus!
