//! Structured shell errors: an error code and message, where in the source
//! the error arose, which command was running, extra key/value context, and
//! the help text known for the code.
use vstd::prelude::*;
use crate::text::{chars_eq, chars_of, owned};

verus! {

/// A position in shell source: line and column (1-based), with the text of
/// the line and the file name when known.
#[derive(Debug, Clone)]
pub struct SourceLocation {
    pub line: usize,
    pub column: usize,
    pub line_content: Option<String>,
    pub filename: Option<String>,
}

impl SourceLocation {
    /// A location with no line text and no file name.
    pub fn new(line: usize, column: usize) -> (l: Self)
        ensures
            l.line == line,
            l.column == column,
            l.line_content is None,
            l.filename is None,
    {
        SourceLocation { line, column, line_content: None, filename: None }
    }

    /// The same location with the text of its line.
    pub fn with_line_content(self, content: String) -> (l: Self)
        ensures
            l.line == self.line,
            l.column == self.column,
            l.line_content == Some(content),
            l.filename == self.filename,
    {
        SourceLocation { line_content: Some(content), ..self }
    }

    /// The same location with a file name.
    pub fn with_filename(self, filename: String) -> (l: Self)
        ensures
            l.line == self.line,
            l.column == self.column,
            l.line_content == self.line_content,
            l.filename == Some(filename),
    {
        SourceLocation { filename: Some(filename), ..self }
    }
}

/// The command that was running when an error arose.
#[derive(Debug, Clone)]
pub struct CommandContext {
    pub command_name: String,
    pub args: Option<Vec<String>>,
    pub function_stack: Option<Vec<String>>,
}

impl CommandContext {
    /// The context of a command with no arguments or call stack recorded.
    pub fn new(command_name: &str) -> (c: Self)
        ensures
            c.command_name@ == command_name@,
            c.args is None,
            c.function_stack is None,
    {
        CommandContext { command_name: owned(command_name), args: None, function_stack: None }
    }

    /// The same context with the command's arguments.
    pub fn with_args(self, args: Vec<String>) -> (c: Self)
        ensures
            c.command_name == self.command_name,
            c.args == Some(args),
            c.function_stack == self.function_stack,
    {
        CommandContext { args: Some(args), ..self }
    }

    /// The same context with the stack of shell functions being executed.
    pub fn with_function_stack(self, stack: Vec<String>) -> (c: Self)
        ensures
            c.command_name == self.command_name,
            c.args == self.args,
            c.function_stack == Some(stack),
    {
        CommandContext { function_stack: Some(stack), ..self }
    }
}

/// Extra context attached to an error: named fields with their rendered
/// values, or a single rendered value.
#[derive(Debug, Clone)]
pub enum ContextInfo {
    Fields(Vec<(String, String)>),
    Text(String),
}

/// Help for an error code: a title and what to do about it.
#[derive(Debug, Clone)]
pub struct HelpEntry {
    pub title: String,
    pub fix: String,
}

/// The help known for an error code, as (title, fix).
pub open spec fn spec_help(code: Seq<char>) -> Option<(Seq<char>, Seq<char>)> {
    if code == "FILE_NOT_FOUND"@ {
        Some(
            (
                "File or directory not found"@,
                "Check the path for typos, or list the directory with `ls` to see what exists."@,
            ),
        )
    } else if code == "PERMISSION_DENIED"@ {
        Some(
            (
                "Permission denied"@,
                "Check the file's permissions with `ls -l`; you may need to change them or run as another user."@,
            ),
        )
    } else if code == "COMMAND_NOT_FOUND"@ {
        Some(
            (
                "Command not found"@,
                "Check the spelling, or make sure the program is installed and on your PATH."@,
            ),
        )
    } else {
        None
    }
}

/// Looks up the help for an error code.
pub fn help_for_code(code: &str) -> (h: Option<HelpEntry>)
    ensures
        h is None <==> spec_help(code@) is None,
        h matches Some(e) ==> spec_help(code@) == Some((e.title@, e.fix@)),
{
    let c = chars_of(code);
    let fnf = chars_of("FILE_NOT_FOUND");
    let pd = chars_of("PERMISSION_DENIED");
    let cnf = chars_of("COMMAND_NOT_FOUND");
    if chars_eq(c.as_slice(), fnf.as_slice()) {
        Some(
            HelpEntry {
                title: owned("File or directory not found"),
                fix: owned(
                    "Check the path for typos, or list the directory with `ls` to see what exists.",
                ),
            },
        )
    } else if chars_eq(c.as_slice(), pd.as_slice()) {
        Some(
            HelpEntry {
                title: owned("Permission denied"),
                fix: owned(
                    "Check the file's permissions with `ls -l`; you may need to change them or run as another user.",
                ),
            },
        )
    } else if chars_eq(c.as_slice(), cnf.as_slice()) {
        Some(
            HelpEntry {
                title: owned("Command not found"),
                fix: owned(
                    "Check the spelling, or make sure the program is installed and on your PATH.",
                ),
            },
        )
    } else {
        None
    }
}

/// A shell error.
#[derive(Debug, Clone)]
pub struct AUSHError {
    /// Machine-readable code such as `SYNTAX_ERROR`.
    pub error_code: String,
    /// Human-readable message.
    pub message: String,
    /// Exit status the error stands for.
    pub exit_code: i32,
    pub location: Option<SourceLocation>,
    pub command_context: Option<CommandContext>,
    pub context: Option<ContextInfo>,
}

impl AUSHError {
    /// An error with a code, a message and an exit status, and no context.
    pub fn new(error_code: &str, message: &str, exit_code: i32) -> (e: Self)
        ensures
            e.error_code@ == error_code@,
            e.message@ == message@,
            e.exit_code == exit_code,
            e.location is None,
            e.command_context is None,
            e.context is None,
    {
        AUSHError {
            error_code: owned(error_code),
            message: owned(message),
            exit_code,
            location: None,
            command_context: None,
            context: None,
        }
    }

    /// The same error with a source location.
    pub fn with_location(self, location: SourceLocation) -> (e: Self)
        ensures
            e.error_code == self.error_code,
            e.message == self.message,
            e.exit_code == self.exit_code,
            e.location == Some(location),
            e.command_context == self.command_context,
            e.context == self.context,
    {
        AUSHError { location: Some(location), ..self }
    }

    /// The same error with the running command's context.
    pub fn with_command_context(self, ctx: CommandContext) -> (e: Self)
        ensures
            e.error_code == self.error_code,
            e.message == self.message,
            e.exit_code == self.exit_code,
            e.location == self.location,
            e.command_context == Some(ctx),
            e.context == self.context,
    {
        AUSHError { command_context: Some(ctx), ..self }
    }

    /// The same error with extra context.
    pub fn with_context(self, context: ContextInfo) -> (e: Self)
        ensures
            e.error_code == self.error_code,
            e.message == self.message,
            e.exit_code == self.exit_code,
            e.location == self.location,
            e.command_context == self.command_context,
            e.context == Some(context),
    {
        AUSHError { context: Some(context), ..self }
    }

    /// The help known for this error's code.
    pub fn get_help(&self) -> (h: Option<HelpEntry>)
        ensures
            h is None <==> spec_help(self.error_code@) is None,
            h matches Some(e) ==> spec_help(self.error_code@) == Some((e.title@, e.fix@)),
    {
        help_for_code(self.error_code.as_str())
    }
}

} // verus!
