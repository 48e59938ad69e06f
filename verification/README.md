# aush

The logic of the `aush` shell as a library verified with Verus, with a
small command around it.

- `src/` is the library. Every function in it carries a contract that Verus
  proves, and the `law_*` proof functions state properties that hold across
  calls (what a history keeps, how hooks are added and removed, that a
  highlighted line keeps its text, that redirections apply in order, ...).
  The few functions marked `#[verifier::external_body]` are the exception:
  they call the standard library or another crate (the clock, the home
  directory, `fuzzy-matcher`, `glob`, `char::from_u32`, `String::push`), and
  their contracts are believed as the crates document them, not proved.
  - `scan`, `lexer`: the tokens of a command line, longest match first, with
    quoting, `$'...'` escapes, substitutions and here-documents.
  - `highlight`, `prompt`, `error_formatter`, `error`: what the shell shows.
  - `expansion`, `braced`, `literal`, `substitution`, `redirect`,
    `process_subst`: the parts of words that expansion replaces, and the
    pattern removals of `${VAR#...}` and friends.
  - `dispatch`, `resolve`, `spawn`, `fds`: what a simple command runs as
    (function, builtin, `exec` with redirections, or program), its `set -x`
    line, how its words' variables and parameters resolve, how an external
    program's streams are set up and what of its output is kept, and the
    permanent descriptor table that `exec` changes.
  - `streams`, `loops`, `case_match`, `executor`: redirection of output,
    `break`/`continue` across nested loops, `case` patterns, the state
    kept between commands, alias expansion and what a missing command
    reports.
  - `history`, `correction`, `suggestions`, `hooks`, `approval`, `intent`:
    history, typo corrections, hooks, approval of risky commands and `?`
    intent lines.
  - `table`, `structured`, `value`, `info`: structured values as text, as
    tables and as the `aush info` panel.
- `app/` is the `aush` command: with `-c` or `--run` it runs commands
  (programs, `cd`, `exit`, `exec`) through the library's dispatch and spawn
  plans; otherwise it reads lines, shows them highlighted with their tokens, keeps the history file, renders JSON documents as tables and
  shows `aush info`. It does the input and output that the library leaves to
  its caller.
- `tests/` exercise the library on concrete inputs.
