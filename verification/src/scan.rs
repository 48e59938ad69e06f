//! The token patterns of the shell's lexer and the choice among them.
//!
//! At each position every pattern is tried; the longest match wins, and
//! among equally long matches the pattern of higher priority. A pattern's
//! priority is 2 per literal character and 2 per character class that must
//! match, optional and repeated parts counting 0, except where a pattern
//! sets it explicitly (`[` and `]` 10, integers 3, floats 4, comments 50).
use vstd::prelude::*;
use crate::text::{is_ws, is_whitespace, occurs_at, occurs_at_exec};

verus! {

/// The kinds of lexemes, in the order in which the token type declares them.
#[derive(Debug, Clone, Copy, PartialEq, Eq, Structural)]
pub enum Kind {
    Let,
    If,
    Else,
    Then,
    Elif,
    Fi,
    Fn,
    Match,
    For,
    In,
    While,
    Do,
    Done,
    Until,
    Function,
    Case,
    Esac,
    Equals,
    DoubleEquals,
    NotEquals,
    GreaterThanOrEqual,
    LessThanOrEqual,
    GreaterThan,
    ParallelPipe,
    PipeAsk,
    Pipe,
    And,
    Ampersand,
    Or,
    Bang,
    LeftParen,
    RightParen,
    LeftBrace,
    RightBrace,
    LeftBracket,
    RightBracket,
    DoubleSemicolon,
    Semicolon,
    Colon,
    Comma,
    Dot,
    Arrow,
    FatArrow,
    DoubleQuote,
    SingleQuote,
    AnsiC,
    Integer,
    Float,
    GlobStar,
    GlobBracket,
    Dash,
    DoubleDash,
    ShortFlag,
    LongFlag,
    PlusFlag,
    Identifier,
    CommandSubstitution,
    Backtick,
    BracedVariable,
    SpecialVariable,
    Variable,
    Tilde,
    Path,
    StdoutAppend,
    StderrToStdout,
    StderrRedirect,
    BothRedirect,
    HereDocStrip,
    HereDoc,
    StdinRedirect,
    Newline,
    CrLf,
    Comment,
    Blank,
}

/// The text of a fixed token, or `None` for a kind matched by a pattern.
pub open spec fn literal(k: Kind) -> Option<Seq<char>> {
    match k {
        Kind::Let => Some(seq!['l', 'e', 't']),
        Kind::If => Some(seq!['i', 'f']),
        Kind::Else => Some(seq!['e', 'l', 's', 'e']),
        Kind::Then => Some(seq!['t', 'h', 'e', 'n']),
        Kind::Elif => Some(seq!['e', 'l', 'i', 'f']),
        Kind::Fi => Some(seq!['f', 'i']),
        Kind::Fn => Some(seq!['f', 'n']),
        Kind::Match => Some(seq!['m', 'a', 't', 'c', 'h']),
        Kind::For => Some(seq!['f', 'o', 'r']),
        Kind::In => Some(seq!['i', 'n']),
        Kind::While => Some(seq!['w', 'h', 'i', 'l', 'e']),
        Kind::Do => Some(seq!['d', 'o']),
        Kind::Done => Some(seq!['d', 'o', 'n', 'e']),
        Kind::Until => Some(seq!['u', 'n', 't', 'i', 'l']),
        Kind::Function => Some(seq!['f', 'u', 'n', 'c', 't', 'i', 'o', 'n']),
        Kind::Case => Some(seq!['c', 'a', 's', 'e']),
        Kind::Esac => Some(seq!['e', 's', 'a', 'c']),
        Kind::Equals => Some(seq!['=']),
        Kind::DoubleEquals => Some(seq!['=', '=']),
        Kind::NotEquals => Some(seq!['!', '=']),
        Kind::GreaterThanOrEqual => Some(seq!['>', '=']),
        Kind::LessThanOrEqual => Some(seq!['<', '=']),
        Kind::GreaterThan => Some(seq!['>']),
        Kind::ParallelPipe => Some(seq!['|', '|', '|']),
        Kind::PipeAsk => Some(seq!['|', '?']),
        Kind::Pipe => Some(seq!['|']),
        Kind::And => Some(seq!['&', '&']),
        Kind::Ampersand => Some(seq!['&']),
        Kind::Or => Some(seq!['|', '|']),
        Kind::Bang => Some(seq!['!']),
        Kind::LeftParen => Some(seq!['(']),
        Kind::RightParen => Some(seq![')']),
        Kind::LeftBrace => Some(seq!['{']),
        Kind::RightBrace => Some(seq!['}']),
        Kind::LeftBracket => Some(seq!['[']),
        Kind::RightBracket => Some(seq![']']),
        Kind::DoubleSemicolon => Some(seq![';', ';']),
        Kind::Semicolon => Some(seq![';']),
        Kind::Colon => Some(seq![':']),
        Kind::Comma => Some(seq![',']),
        Kind::Dot => Some(seq!['.']),
        Kind::Arrow => Some(seq!['-', '>']),
        Kind::FatArrow => Some(seq!['=', '>']),
        Kind::Dash => Some(seq!['-']),
        Kind::DoubleDash => Some(seq!['-', '-']),
        Kind::Tilde => Some(seq!['~']),
        Kind::StdoutAppend => Some(seq!['>', '>']),
        Kind::StderrToStdout => Some(seq!['2', '>', '&', '1']),
        Kind::StderrRedirect => Some(seq!['2', '>']),
        Kind::BothRedirect => Some(seq!['&', '>']),
        Kind::HereDocStrip => Some(seq!['<', '<', '-']),
        Kind::HereDoc => Some(seq!['<', '<']),
        Kind::StdinRedirect => Some(seq!['<']),
        Kind::CrLf => Some(seq!['\r', '\n']),
        _ => None,
    }
}

/// The priority of each kind.
pub open spec fn priority(k: Kind) -> int {
    match k {
        Kind::LeftBracket | Kind::RightBracket => 10,
        Kind::DoubleQuote | Kind::SingleQuote | Kind::Backtick | Kind::GlobStar | Kind::Identifier
        | Kind::Newline | Kind::Blank => 2,
        Kind::AnsiC | Kind::LongFlag => 6,
        Kind::Integer => 3,
        Kind::Float | Kind::ShortFlag | Kind::PlusFlag | Kind::CommandSubstitution
        | Kind::SpecialVariable | Kind::Variable | Kind::Path => 4,
        Kind::GlobBracket | Kind::BracedVariable => 8,
        Kind::Comment => 50,
        _ => match literal(k) {
            Some(t) => 2 * (t.len() as int),
            None => 0,
        },
    }
}

// ---------------------------------------------------------------------------
// Character classes
// ---------------------------------------------------------------------------

pub open spec fn is_digit(c: char) -> bool {
    '0' <= c && c <= '9'
}

pub open spec fn is_alpha(c: char) -> bool {
    ('a' <= c && c <= 'z') || ('A' <= c && c <= 'Z')
}

pub open spec fn is_alnum(c: char) -> bool {
    is_alpha(c) || is_digit(c)
}

/// `[a-zA-Z0-9_@+%^]`: first character of a word.
pub open spec fn word_start(c: char) -> bool {
    is_alnum(c) || c == '_' || c == '@' || c == '+' || c == '%' || c == '^'
}

/// `[a-zA-Z0-9_.\-:~@/+%^,#]`: later characters of a word.
pub open spec fn word_cont(c: char) -> bool {
    is_alnum(c) || c == '_' || c == '.' || c == '-' || c == ':' || c == '~' || c == '@' || c
        == '/' || c == '+' || c == '%' || c == '^' || c == ',' || c == '#'
}

/// `[a-zA-Z0-9_.\-/]`: characters of a file name before a wildcard.
pub open spec fn glob_name(c: char) -> bool {
    is_alnum(c) || c == '_' || c == '.' || c == '-' || c == '/'
}

/// `[a-zA-Z0-9_.*?\-/\[\]]`: characters after a wildcard.
pub open spec fn glob_rest(c: char) -> bool {
    glob_name(c) || c == '*' || c == '?' || c == '[' || c == ']'
}

/// `[a-zA-Z0-9_.*?\-/]`: characters after a bracket expression.
pub open spec fn glob_tail(c: char) -> bool {
    glob_name(c) || c == '*' || c == '?'
}

/// `[^\s|;&(){}]`: characters of a path after its first.
pub open spec fn path_char(c: char) -> bool {
    !is_ws(c) && c != '|' && c != ';' && c != '&' && c != '(' && c != ')' && c != '{' && c != '}'
}

/// `[^\s|;&()<>]`: characters of a long flag's value.
pub open spec fn flag_value_char(c: char) -> bool {
    !is_ws(c) && c != '|' && c != ';' && c != '&' && c != '(' && c != ')' && c != '<' && c != '>'
}

/// `[a-zA-Z0-9-]`: characters of a long flag's name after its first.
pub open spec fn flag_name_char(c: char) -> bool {
    is_alnum(c) || c == '-'
}

/// `[?!$#@*\-_0-9]`: the character of a special variable.
pub open spec fn special_char(c: char) -> bool {
    c == '?' || c == '!' || c == '$' || c == '#' || c == '@' || c == '*' || c == '-' || c == '_'
        || is_digit(c)
}

/// `[a-zA-Z0-9_]`: characters of a variable name after its first.
pub open spec fn var_char(c: char) -> bool {
    is_alnum(c) || c == '_'
}

pub open spec fn not_close_brace(c: char) -> bool {
    c != '}'
}

pub open spec fn not_close_bracket(c: char) -> bool {
    c != ']'
}

pub open spec fn not_newline(c: char) -> bool {
    c != '\n'
}

pub open spec fn blank_char(c: char) -> bool {
    c == ' ' || c == '\t'
}

/// The number of consecutive characters from `i` that satisfy `p`.
pub open spec fn run(s: Seq<char>, i: int, p: spec_fn(char) -> bool) -> int
    decreases s.len() - i,
{
    if i < 0 || i >= s.len() || !p(s[i]) {
        0
    } else {
        1 + run(s, i + 1, p)
    }
}

/// The character at `i`, if any, satisfies `p`.
pub open spec fn at(s: Seq<char>, i: int, p: spec_fn(char) -> bool) -> bool {
    0 <= i < s.len() && p(s[i])
}

/// The character at `i` is `c`.
pub open spec fn is_at(s: Seq<char>, i: int, c: char) -> bool {
    0 <= i < s.len() && s[i] == c
}

// ---------------------------------------------------------------------------
// Pattern matches: length of the longest match at `i`, or -1
// ---------------------------------------------------------------------------

/// `[a-zA-Z0-9_@+%^][a-zA-Z0-9_.\-:~@/+%^,#]*`
pub open spec fn m_identifier(s: Seq<char>, i: int) -> int {
    if at(s, i, class(0)) {
        1 + run(s, i + 1, class(1))
    } else {
        -1
    }
}

/// A sign character `c` followed by letters and digits.
pub open spec fn m_signed_flag(s: Seq<char>, i: int, c: char) -> int {
    if is_at(s, i, c) && at(s, i + 1, class(2)) {
        1 + run(s, i + 1, class(2))
    } else {
        -1
    }
}

/// `-[a-zA-Z0-9]+`
pub open spec fn m_short_flag(s: Seq<char>, i: int) -> int {
    m_signed_flag(s, i, '-')
}

/// `\+[a-zA-Z0-9]+`
pub open spec fn m_plus_flag(s: Seq<char>, i: int) -> int {
    m_signed_flag(s, i, '+')
}

/// `--[a-zA-Z0-9][a-zA-Z0-9-]*(=[^\s|;&()<>]+)?`
pub open spec fn m_long_flag(s: Seq<char>, i: int) -> int {
    if is_at(s, i, '-') && is_at(s, i + 1, '-') && at(s, i + 2, class(2)) {
        let n = 3 + run(s, i + 3, class(3));
        if is_at(s, i + n, '=') && at(s, i + n + 1, class(4)) {
            n + 1 + run(s, i + n + 1, class(4))
        } else {
            n
        }
    } else {
        -1
    }
}

/// Position after an optional leading `-`.
pub open spec fn after_sign(s: Seq<char>, i: int) -> int {
    if is_at(s, i, '-') {
        i + 1
    } else {
        i
    }
}

/// `-?[0-9]+`
pub open spec fn m_integer(s: Seq<char>, i: int) -> int {
    let j = after_sign(s, i);
    let d = run(s, j, class(5));
    if d >= 1 {
        j - i + d
    } else {
        -1
    }
}

/// `-?[0-9]+\.[0-9]+`
pub open spec fn m_float(s: Seq<char>, i: int) -> int {
    let j = after_sign(s, i);
    let d = run(s, j, class(5));
    let e = run(s, j + d + 1, class(5));
    if d >= 1 && is_at(s, j + d, '.') && e >= 1 {
        j - i + d + 1 + e
    } else {
        -1
    }
}

/// `[a-zA-Z0-9_.\-/]*[*?][a-zA-Z0-9_.*?\-/\[\]]*`
pub open spec fn m_glob_star(s: Seq<char>, i: int) -> int {
    let p = run(s, i, class(6));
    if is_at(s, i + p, '*') || is_at(s, i + p, '?') {
        p + 1 + run(s, i + p + 1, class(7))
    } else {
        -1
    }
}

/// `[a-zA-Z0-9_.\-/]+\[[^\]]+\][a-zA-Z0-9_.*?\-/]*`
pub open spec fn m_glob_bracket(s: Seq<char>, i: int) -> int {
    let p = run(s, i, class(6));
    let q = run(s, i + p + 1, class(14));
    if p >= 1 && is_at(s, i + p, '[') && q >= 1 && is_at(s, i + p + 1 + q, ']') {
        p + 2 + q + run(s, i + p + 2 + q, class(8))
    } else {
        -1
    }
}

/// `[.~/][^\s|;&(){}]+`
pub open spec fn m_path(s: Seq<char>, i: int) -> int {
    let r = run(s, i + 1, class(9));
    if (is_at(s, i, '.') || is_at(s, i, '~') || is_at(s, i, '/')) && r >= 1 {
        1 + r
    } else {
        -1
    }
}

/// `\$[a-zA-Z][a-zA-Z0-9_]*`
pub open spec fn m_variable(s: Seq<char>, i: int) -> int {
    if is_at(s, i, '$') && at(s, i + 1, class(10)) {
        2 + run(s, i + 2, class(12))
    } else {
        -1
    }
}

/// `\$[?!$#@*\-_0-9]`
pub open spec fn m_special_variable(s: Seq<char>, i: int) -> int {
    if is_at(s, i, '$') && at(s, i + 1, class(11)) {
        2
    } else {
        -1
    }
}

/// `\$\{[^}]+\}`
pub open spec fn m_braced_variable(s: Seq<char>, i: int) -> int {
    let r = run(s, i + 2, class(13));
    if is_at(s, i, '$') && is_at(s, i + 1, '{') && r >= 1 && is_at(s, i + 2 + r, '}') {
        3 + r
    } else {
        -1
    }
}

/// The end of `([^'\\]|\\.)*'` scanning from `j`, past the closing quote.
pub open spec fn ansi_c_end(s: Seq<char>, j: int) -> Option<int>
    decreases s.len() - j,
{
    if j < 0 || j >= s.len() {
        None
    } else if s[j] == '\'' {
        Some(j + 1)
    } else if s[j] == '\\' {
        if j + 1 < s.len() && s[j + 1] != '\n' {
            ansi_c_end(s, j + 2)
        } else {
            None
        }
    } else {
        ansi_c_end(s, j + 1)
    }
}

/// Where the body of an ANSI-C string ends, it ends past `j` and within `s`.
pub proof fn lemma_ansi_c_end_bounds(s: Seq<char>, j: int)
    ensures
        ansi_c_end(s, j) matches Some(e) ==> j < e <= s.len(),
    decreases s.len() - j,
{
    if 0 <= j < s.len() && s[j] != '\'' {
        if s[j] == '\\' {
            if j + 1 < s.len() && s[j + 1] != '\n' {
                lemma_ansi_c_end_bounds(s, j + 2);
            }
        } else {
            lemma_ansi_c_end_bounds(s, j + 1);
        }
    }
}

/// `\$'([^'\\]|\\.)*'`
pub open spec fn m_ansi_c(s: Seq<char>, i: int) -> int {
    if is_at(s, i, '$') && is_at(s, i + 1, '\'') {
        match ansi_c_end(s, i + 2) {
            Some(e) => e - i,
            None => -1,
        }
    } else {
        -1
    }
}

/// `[ \t]+|\\\r?\n`
pub open spec fn m_blank(s: Seq<char>, i: int) -> int {
    let r = run(s, i, class(16));
    if r >= 1 {
        r
    } else if is_at(s, i, '\\') && is_at(s, i + 1, '\n') {
        2
    } else if is_at(s, i, '\\') && is_at(s, i + 1, '\r') && is_at(s, i + 2, '\n') {
        3
    } else {
        -1
    }
}

/// `#[^\n]*`
pub open spec fn m_comment(s: Seq<char>, i: int) -> int {
    if is_at(s, i, '#') {
        1 + run(s, i + 1, class(15))
    } else {
        -1
    }
}

/// A single character `c`.
pub open spec fn m_char(s: Seq<char>, i: int, c: char) -> int {
    if is_at(s, i, c) {
        1
    } else {
        -1
    }
}

/// The fixed text `t`.
pub open spec fn m_literal(s: Seq<char>, i: int, t: Seq<char>) -> int {
    if occurs_at(s, t, i) {
        t.len() as int
    } else {
        -1
    }
}

/// Length of the longest match at `i` of a kind matched by a pattern, or -1.
pub open spec fn pattern_match(k: Kind, s: Seq<char>, i: int) -> int {
    match k {
        Kind::DoubleQuote => m_char(s, i, '"'),
        Kind::SingleQuote => m_char(s, i, '\''),
        Kind::AnsiC => m_ansi_c(s, i),
        Kind::Integer => m_integer(s, i),
        Kind::Float => m_float(s, i),
        Kind::GlobStar => m_glob_star(s, i),
        Kind::GlobBracket => m_glob_bracket(s, i),
        Kind::ShortFlag => m_short_flag(s, i),
        Kind::LongFlag => m_long_flag(s, i),
        Kind::PlusFlag => m_plus_flag(s, i),
        Kind::Identifier => m_identifier(s, i),
        Kind::CommandSubstitution => m_literal(s, i, seq!['$', '(']),
        Kind::Backtick => m_char(s, i, '`'),
        Kind::BracedVariable => m_braced_variable(s, i),
        Kind::SpecialVariable => m_special_variable(s, i),
        Kind::Variable => m_variable(s, i),
        Kind::Path => m_path(s, i),
        Kind::Newline => m_char(s, i, '\n'),
        Kind::Comment => m_comment(s, i),
        _ => m_blank(s, i),
    }
}

/// Length of the longest match of kind `k` at `i`, or -1.
pub open spec fn match_len(k: Kind, s: Seq<char>, i: int) -> int {
    match literal(k) {
        Some(t) => m_literal(s, i, t),
        None => pattern_match(k, s, i),
    }
}

/// All kinds, in declaration order.
pub open spec fn all_kinds() -> Seq<Kind> {
    seq![
        Kind::Let, Kind::If, Kind::Else, Kind::Then, Kind::Elif, Kind::Fi, Kind::Fn, Kind::Match,
        Kind::For, Kind::In, Kind::While, Kind::Do, Kind::Done, Kind::Until, Kind::Function,
        Kind::Case, Kind::Esac, Kind::Equals, Kind::DoubleEquals, Kind::NotEquals,
        Kind::GreaterThanOrEqual, Kind::LessThanOrEqual, Kind::GreaterThan, Kind::ParallelPipe,
        Kind::PipeAsk, Kind::Pipe, Kind::And, Kind::Ampersand, Kind::Or, Kind::Bang,
        Kind::LeftParen, Kind::RightParen, Kind::LeftBrace, Kind::RightBrace, Kind::LeftBracket,
        Kind::RightBracket, Kind::DoubleSemicolon, Kind::Semicolon, Kind::Colon, Kind::Comma,
        Kind::Dot, Kind::Arrow, Kind::FatArrow, Kind::DoubleQuote, Kind::SingleQuote, Kind::AnsiC,
        Kind::Integer, Kind::Float, Kind::GlobStar, Kind::GlobBracket, Kind::Dash,
        Kind::DoubleDash, Kind::ShortFlag, Kind::LongFlag, Kind::PlusFlag, Kind::Identifier,
        Kind::CommandSubstitution, Kind::Backtick, Kind::BracedVariable, Kind::SpecialVariable,
        Kind::Variable, Kind::Tilde, Kind::Path, Kind::StdoutAppend, Kind::StderrToStdout,
        Kind::StderrRedirect, Kind::BothRedirect, Kind::HereDocStrip, Kind::HereDoc,
        Kind::StdinRedirect, Kind::Newline, Kind::CrLf, Kind::Comment, Kind::Blank,
    ]
}

/// Whether match `(k, n)` beats match `(k2, n2)`: longer, or as long and of
/// higher priority.
pub open spec fn beats(k: Kind, n: int, k2: Kind, n2: int) -> bool {
    n > n2 || (n == n2 && priority(k) > priority(k2))
}

/// The best match among the first `m` kinds, if any matches.
pub open spec fn best_among(s: Seq<char>, i: int, m: int) -> Option<(Kind, int)>
    decreases m,
{
    if m <= 0 {
        None
    } else {
        let prev = best_among(s, i, m - 1);
        let k = all_kinds()[m - 1];
        let n = match_len(k, s, i);
        if n < 1 {
            prev
        } else {
            match prev {
                None => Some((k, n)),
                Some((k2, n2)) => if beats(k, n, k2, n2) {
                    Some((k, n))
                } else {
                    prev
                },
            }
        }
    }
}

/// The lexeme chosen at `i`: its kind and the length its pattern matched.
pub open spec fn scan_at(s: Seq<char>, i: int) -> Option<(Kind, int)> {
    best_among(s, i, all_kinds().len() as int)
}

// ---------------------------------------------------------------------------
// Executable matching
// ---------------------------------------------------------------------------

pub fn digit_char(c: char) -> (b: bool)
    ensures
        b == is_digit(c),
{
    '0' <= c && c <= '9'
}

pub fn alpha_char(c: char) -> (b: bool)
    ensures
        b == is_alpha(c),
{
    ('a' <= c && c <= 'z') || ('A' <= c && c <= 'Z')
}

pub fn alnum_char(c: char) -> (b: bool)
    ensures
        b == is_alnum(c),
{
    alpha_char(c) || digit_char(c)
}

/// The character classes, by number.
pub open spec fn class(n: u8) -> spec_fn(char) -> bool {
    if n == 0 {
        |c: char| word_start(c)
    } else if n == 1 {
        |c: char| word_cont(c)
    } else if n == 2 {
        |c: char| is_alnum(c)
    } else if n == 3 {
        |c: char| flag_name_char(c)
    } else if n == 4 {
        |c: char| flag_value_char(c)
    } else if n == 5 {
        |c: char| is_digit(c)
    } else if n == 6 {
        |c: char| glob_name(c)
    } else if n == 7 {
        |c: char| glob_rest(c)
    } else if n == 8 {
        |c: char| glob_tail(c)
    } else if n == 9 {
        |c: char| path_char(c)
    } else if n == 10 {
        |c: char| is_alpha(c)
    } else if n == 11 {
        |c: char| special_char(c)
    } else if n == 12 {
        |c: char| var_char(c)
    } else if n == 13 {
        |c: char| not_close_brace(c)
    } else if n == 14 {
        |c: char| not_close_bracket(c)
    } else if n == 15 {
        |c: char| not_newline(c)
    } else {
        |c: char| blank_char(c)
    }
}

/// Whether `c` is in class `n`.
pub fn in_class(n: u8, c: char) -> (b: bool)
    ensures
        b == class(n)(c),
{
    if n == 0 {
        alnum_char(c) || c == '_' || c == '@' || c == '+' || c == '%' || c == '^'
    } else if n == 1 {
        alnum_char(c) || c == '_' || c == '.' || c == '-' || c == ':' || c == '~' || c == '@' || c
            == '/' || c == '+' || c == '%' || c == '^' || c == ',' || c == '#'
    } else if n == 2 {
        alnum_char(c)
    } else if n == 3 {
        alnum_char(c) || c == '-'
    } else if n == 4 {
        !is_whitespace(c) && c != '|' && c != ';' && c != '&' && c != '(' && c != ')' && c != '<'
            && c != '>'
    } else if n == 5 {
        digit_char(c)
    } else if n == 6 {
        alnum_char(c) || c == '_' || c == '.' || c == '-' || c == '/'
    } else if n == 7 {
        alnum_char(c) || c == '_' || c == '.' || c == '-' || c == '/' || c == '*' || c == '?' || c
            == '[' || c == ']'
    } else if n == 8 {
        alnum_char(c) || c == '_' || c == '.' || c == '-' || c == '/' || c == '*' || c == '?'
    } else if n == 9 {
        !is_whitespace(c) && c != '|' && c != ';' && c != '&' && c != '(' && c != ')' && c != '{'
            && c != '}'
    } else if n == 10 {
        alpha_char(c)
    } else if n == 11 {
        c == '?' || c == '!' || c == '$' || c == '#' || c == '@' || c == '*' || c == '-' || c
            == '_' || digit_char(c)
    } else if n == 12 {
        alnum_char(c) || c == '_'
    } else if n == 13 {
        c != '}'
    } else if n == 14 {
        c != ']'
    } else if n == 15 {
        c != '\n'
    } else {
        c == ' ' || c == '\t'
    }
}

/// The number of consecutive characters from `i` in class `n`.
pub fn run_exec(s: &[char], i: usize, n: u8) -> (r: usize)
    ensures
        r == run(s@, i as int, class(n)),
        i <= s@.len() ==> i + r <= s@.len(),
{
    if i >= s.len() {
        return 0;
    }
    let mut j: usize = i;
    while j < s.len() && in_class(n, s[j])
        invariant
            i <= j <= s@.len(),
            run(s@, i as int, class(n)) == (j - i) + run(s@, j as int, class(n)),
        decreases s@.len() - j,
    {
        j = j + 1;
    }
    j - i
}

/// Whether the character at `i` (if any) is `c`.
pub fn char_is(s: &[char], i: usize, c: char) -> (b: bool)
    ensures
        b == is_at(s@, i as int, c),
{
    i < s.len() && s[i] == c
}

/// Whether the character at `i` (if any) is in class `n`.
pub fn char_in(s: &[char], i: usize, n: u8) -> (b: bool)
    ensures
        b == at(s@, i as int, class(n)),
{
    i < s.len() && in_class(n, s[i])
}

/// The end of an ANSI-C quoted string's body scanning from `j`.
pub fn ansi_c_end_exec(s: &[char], j: usize) -> (r: Option<usize>)
    ensures
        r == (match ansi_c_end(s@, j as int) {
            Some(e) => Some(e as usize),
            None => None::<usize>,
        }),
        r matches Some(e) ==> j < e <= s@.len(),
        ansi_c_end(s@, j as int) matches Some(e) ==> j < e <= s@.len(),
{
    proof {
        lemma_ansi_c_end_bounds(s@, j as int);
    }
    let mut k: usize = j;
    while k < s.len()
        invariant
            j <= k,
            ansi_c_end(s@, j as int) == ansi_c_end(s@, k as int),
        decreases s@.len() - k,
    {
        if s[k] == '\'' {
            return Some(k + 1);
        } else if s[k] == '\\' {
            if k + 1 < s.len() && s[k + 1] != '\n' {
                k = k + 2;
            } else {
                return None;
            }
        } else {
            k = k + 1;
        }
    }
    None
}

/// A match length as the executable code reports it: `Some` when at least
/// one character matched.
pub open spec fn as_len(m: int) -> Option<usize> {
    if m >= 1 {
        Some(m as usize)
    } else {
        None
    }
}

fn char_len(s: &[char], i: usize, c: char) -> (r: Option<usize>)
    ensures
        r == as_len(m_char(s@, i as int, c)),
        m_char(s@, i as int, c) >= 1 ==> i + 1 <= s@.len(),
{
    if char_is(s, i, c) {
        Some(1)
    } else {
        None
    }
}

fn ansi_c_len(s: &[char], i: usize) -> (r: Option<usize>)
    requires
        i <= s.len(),
    ensures
        r == as_len(m_ansi_c(s@, i as int)),
        r matches Some(n) ==> i + n <= s@.len(),
        m_ansi_c(s@, i as int) >= 1 ==> i + m_ansi_c(s@, i as int) <= s@.len(),
{
    if char_is(s, i, '$') && char_is(s, i + 1, '\'') {
        match ansi_c_end_exec(s, i + 2) {
            Some(e) => Some(e - i),
            None => None,
        }
    } else {
        None
    }
}

fn integer_len(s: &[char], i: usize) -> (r: Option<usize>)
    requires
        i <= s.len(),
    ensures
        r == as_len(m_integer(s@, i as int)),
        r matches Some(n) ==> i + n <= s@.len(),
        m_integer(s@, i as int) >= 1 ==> i + m_integer(s@, i as int) <= s@.len(),
{
    let j = if char_is(s, i, '-') {
        i + 1
    } else {
        i
    };
    let d = run_exec(s, j, 5);
    if d >= 1 {
        Some(j - i + d)
    } else {
        None
    }
}

fn float_len(s: &[char], i: usize) -> (r: Option<usize>)
    requires
        i <= s.len(),
    ensures
        r == as_len(m_float(s@, i as int)),
        r matches Some(n) ==> i + n <= s@.len(),
        m_float(s@, i as int) >= 1 ==> i + m_float(s@, i as int) <= s@.len(),
{
    let j = if char_is(s, i, '-') {
        i + 1
    } else {
        i
    };
    let d = run_exec(s, j, 5);
    if d >= 1 && char_is(s, j + d, '.') {
        let e = run_exec(s, j + d + 1, 5);
        if e >= 1 {
            Some(j - i + d + 1 + e)
        } else {
            None
        }
    } else {
        None
    }
}

fn glob_star_len(s: &[char], i: usize) -> (r: Option<usize>)
    requires
        i <= s.len(),
    ensures
        r == as_len(m_glob_star(s@, i as int)),
        r matches Some(n) ==> i + n <= s@.len(),
        m_glob_star(s@, i as int) >= 1 ==> i + m_glob_star(s@, i as int) <= s@.len(),
{
    let p = run_exec(s, i, 6);
    if char_is(s, i + p, '*') || char_is(s, i + p, '?') {
        Some(p + 1 + run_exec(s, i + p + 1, 7))
    } else {
        None
    }
}

fn glob_bracket_len(s: &[char], i: usize) -> (r: Option<usize>)
    requires
        i <= s.len(),
    ensures
        r == as_len(m_glob_bracket(s@, i as int)),
        r matches Some(n) ==> i + n <= s@.len(),
        m_glob_bracket(s@, i as int) >= 1 ==> i + m_glob_bracket(s@, i as int) <= s@.len(),
{
    let p = run_exec(s, i, 6);
    if p >= 1 && char_is(s, i + p, '[') {
        let q = run_exec(s, i + p + 1, 14);
        if q >= 1 && char_is(s, i + p + 1 + q, ']') {
            Some(p + 2 + q + run_exec(s, i + p + 2 + q, 8))
        } else {
            None
        }
    } else {
        None
    }
}

/// A sign character `c` followed by letters and digits.
fn signed_flag_len(s: &[char], i: usize, c: char) -> (r: Option<usize>)
    requires
        i <= s.len(),
    ensures
        r == as_len(m_signed_flag(s@, i as int, c)),
        r matches Some(n) ==> i + n <= s@.len(),
        m_signed_flag(s@, i as int, c) >= 1 ==> i + m_signed_flag(s@, i as int, c) <= s@.len(),
{
    if char_is(s, i, c) && char_in(s, i + 1, 2) {
        Some(1 + run_exec(s, i + 1, 2))
    } else {
        None
    }
}

fn long_flag_len(s: &[char], i: usize) -> (r: Option<usize>)
    requires
        i <= s.len(),
    ensures
        r == as_len(m_long_flag(s@, i as int)),
        r matches Some(n) ==> i + n <= s@.len(),
        m_long_flag(s@, i as int) >= 1 ==> i + m_long_flag(s@, i as int) <= s@.len(),
{
    if char_is(s, i, '-') && char_is(s, i + 1, '-') && char_in(s, i + 2, 2) {
        let n = 3 + run_exec(s, i + 3, 3);
        if char_is(s, i + n, '=') && char_in(s, i + n + 1, 4) {
            Some(n + 1 + run_exec(s, i + n + 1, 4))
        } else {
            Some(n)
        }
    } else {
        None
    }
}

fn identifier_len(s: &[char], i: usize) -> (r: Option<usize>)
    requires
        i <= s.len(),
    ensures
        r == as_len(m_identifier(s@, i as int)),
        r matches Some(n) ==> i + n <= s@.len(),
        m_identifier(s@, i as int) >= 1 ==> i + m_identifier(s@, i as int) <= s@.len(),
{
    if char_in(s, i, 0) {
        Some(1 + run_exec(s, i + 1, 1))
    } else {
        None
    }
}

fn braced_variable_len(s: &[char], i: usize) -> (r: Option<usize>)
    requires
        i <= s.len(),
    ensures
        r == as_len(m_braced_variable(s@, i as int)),
        r matches Some(n) ==> i + n <= s@.len(),
        m_braced_variable(s@, i as int) >= 1 ==> i + m_braced_variable(s@, i as int) <= s@.len(),
{
    if char_is(s, i, '$') && char_is(s, i + 1, '{') {
        let r = run_exec(s, i + 2, 13);
        if r >= 1 && char_is(s, i + 2 + r, '}') {
            Some(3 + r)
        } else {
            None
        }
    } else {
        None
    }
}

fn special_variable_len(s: &[char], i: usize) -> (r: Option<usize>)
    requires
        i <= s.len(),
    ensures
        r == as_len(m_special_variable(s@, i as int)),
        r matches Some(n) ==> i + n <= s@.len(),
        m_special_variable(s@, i as int) >= 1 ==> i + m_special_variable(s@, i as int) <= s@.len(),
{
    if char_is(s, i, '$') && char_in(s, i + 1, 11) {
        Some(2)
    } else {
        None
    }
}

fn variable_len(s: &[char], i: usize) -> (r: Option<usize>)
    requires
        i <= s.len(),
    ensures
        r == as_len(m_variable(s@, i as int)),
        r matches Some(n) ==> i + n <= s@.len(),
        m_variable(s@, i as int) >= 1 ==> i + m_variable(s@, i as int) <= s@.len(),
{
    if char_is(s, i, '$') && char_in(s, i + 1, 10) {
        Some(2 + run_exec(s, i + 2, 12))
    } else {
        None
    }
}

fn path_len(s: &[char], i: usize) -> (r: Option<usize>)
    requires
        i <= s.len(),
    ensures
        r == as_len(m_path(s@, i as int)),
        r matches Some(n) ==> i + n <= s@.len(),
        m_path(s@, i as int) >= 1 ==> i + m_path(s@, i as int) <= s@.len(),
{
    if char_is(s, i, '.') || char_is(s, i, '~') || char_is(s, i, '/') {
        let r = run_exec(s, i + 1, 9);
        if r >= 1 {
            Some(1 + r)
        } else {
            None
        }
    } else {
        None
    }
}

fn comment_len(s: &[char], i: usize) -> (r: Option<usize>)
    requires
        i <= s.len(),
    ensures
        r == as_len(m_comment(s@, i as int)),
        r matches Some(n) ==> i + n <= s@.len(),
        m_comment(s@, i as int) >= 1 ==> i + m_comment(s@, i as int) <= s@.len(),
{
    if char_is(s, i, '#') {
        Some(1 + run_exec(s, i + 1, 15))
    } else {
        None
    }
}

fn blank_len(s: &[char], i: usize) -> (r: Option<usize>)
    requires
        i <= s.len(),
    ensures
        r == as_len(m_blank(s@, i as int)),
        r matches Some(n) ==> i + n <= s@.len(),
        m_blank(s@, i as int) >= 1 ==> i + m_blank(s@, i as int) <= s@.len(),
{
    let r = run_exec(s, i, 16);
    if r >= 1 {
        Some(r)
    } else if char_is(s, i, '\\') && char_is(s, i + 1, '\n') {
        Some(2)
    } else if char_is(s, i, '\\') && char_is(s, i + 1, '\r') && char_is(s, i + 2, '\n') {
        Some(3)
    } else {
        None
    }
}

/// The match of a kind matched by a pattern at `i`.
fn pattern_len(k: Kind, s: &[char], i: usize) -> (r: Option<usize>)
    requires
        i <= s.len(),
    ensures
        r == as_len(pattern_match(k, s@, i as int)),
        r matches Some(n) ==> i + n <= s@.len(),
        pattern_match(k, s@, i as int) >= 1 ==> i + pattern_match(k, s@, i as int) <= s@.len(),
{
    match k {
        Kind::DoubleQuote => char_len(s, i, '"'),
        Kind::SingleQuote => char_len(s, i, '\''),
        Kind::Backtick => char_len(s, i, '`'),
        Kind::Newline => char_len(s, i, '\n'),
        Kind::AnsiC => ansi_c_len(s, i),
        Kind::Integer => integer_len(s, i),
        Kind::Float => float_len(s, i),
        Kind::GlobStar => glob_star_len(s, i),
        Kind::GlobBracket => glob_bracket_len(s, i),
        Kind::ShortFlag => signed_flag_len(s, i, '-'),
        Kind::PlusFlag => signed_flag_len(s, i, '+'),
        Kind::LongFlag => long_flag_len(s, i),
        Kind::Identifier => identifier_len(s, i),
        Kind::CommandSubstitution => {
            let t: Vec<char> = vec!['$', '('];
            assert(t@ =~= seq!['$', '(']);
            if occurs_at_exec(s, t.as_slice(), i) {
                Some(2)
            } else {
                None
            }
        },
        Kind::BracedVariable => braced_variable_len(s, i),
        Kind::SpecialVariable => special_variable_len(s, i),
        Kind::Variable => variable_len(s, i),
        Kind::Path => path_len(s, i),
        Kind::Comment => comment_len(s, i),
        _ => blank_len(s, i),
    }
}

/// The match of kind `k` at `i`: its length, when it matches.
pub fn match_len_exec(k: Kind, s: &[char], i: usize) -> (r: Option<usize>)
    requires
        i <= s.len(),
    ensures
        r == as_len(match_len(k, s@, i as int)),
        r matches Some(n) ==> i + n <= s@.len(),
        match_len(k, s@, i as int) >= 1 ==> i + match_len(k, s@, i as int) <= s@.len(),
{
    match literal_chars(k) {
        Some(t) => {
            if occurs_at_exec(s, t.as_slice(), i) {
                Some(t.len())
            } else {
                None
            }
        },
        None => pattern_len(k, s, i),
    }
}

/// The text of a fixed token.
pub fn literal_chars(k: Kind) -> (r: Option<Vec<char>>)
    ensures
        r matches Some(v) ==> literal(k) == Some(v@) && v@.len() >= 1,
        r is None ==> literal(k) is None,
{
    let r = match k {
        Kind::Let => Some(vec!['l', 'e', 't']),
        Kind::If => Some(vec!['i', 'f']),
        Kind::Else => Some(vec!['e', 'l', 's', 'e']),
        Kind::Then => Some(vec!['t', 'h', 'e', 'n']),
        Kind::Elif => Some(vec!['e', 'l', 'i', 'f']),
        Kind::Fi => Some(vec!['f', 'i']),
        Kind::Fn => Some(vec!['f', 'n']),
        Kind::Match => Some(vec!['m', 'a', 't', 'c', 'h']),
        Kind::For => Some(vec!['f', 'o', 'r']),
        Kind::In => Some(vec!['i', 'n']),
        Kind::While => Some(vec!['w', 'h', 'i', 'l', 'e']),
        Kind::Do => Some(vec!['d', 'o']),
        Kind::Done => Some(vec!['d', 'o', 'n', 'e']),
        Kind::Until => Some(vec!['u', 'n', 't', 'i', 'l']),
        Kind::Function => Some(vec!['f', 'u', 'n', 'c', 't', 'i', 'o', 'n']),
        Kind::Case => Some(vec!['c', 'a', 's', 'e']),
        Kind::Esac => Some(vec!['e', 's', 'a', 'c']),
        Kind::Equals => Some(vec!['=']),
        Kind::DoubleEquals => Some(vec!['=', '=']),
        Kind::NotEquals => Some(vec!['!', '=']),
        Kind::GreaterThanOrEqual => Some(vec!['>', '=']),
        Kind::LessThanOrEqual => Some(vec!['<', '=']),
        Kind::GreaterThan => Some(vec!['>']),
        Kind::ParallelPipe => Some(vec!['|', '|', '|']),
        Kind::PipeAsk => Some(vec!['|', '?']),
        Kind::Pipe => Some(vec!['|']),
        Kind::And => Some(vec!['&', '&']),
        Kind::Ampersand => Some(vec!['&']),
        Kind::Or => Some(vec!['|', '|']),
        Kind::Bang => Some(vec!['!']),
        Kind::LeftParen => Some(vec!['(']),
        Kind::RightParen => Some(vec![')']),
        Kind::LeftBrace => Some(vec!['{']),
        Kind::RightBrace => Some(vec!['}']),
        Kind::LeftBracket => Some(vec!['[']),
        Kind::RightBracket => Some(vec![']']),
        Kind::DoubleSemicolon => Some(vec![';', ';']),
        Kind::Semicolon => Some(vec![';']),
        Kind::Colon => Some(vec![':']),
        Kind::Comma => Some(vec![',']),
        Kind::Dot => Some(vec!['.']),
        Kind::Arrow => Some(vec!['-', '>']),
        Kind::FatArrow => Some(vec!['=', '>']),
        Kind::Dash => Some(vec!['-']),
        Kind::DoubleDash => Some(vec!['-', '-']),
        Kind::Tilde => Some(vec!['~']),
        Kind::StdoutAppend => Some(vec!['>', '>']),
        Kind::StderrToStdout => Some(vec!['2', '>', '&', '1']),
        Kind::StderrRedirect => Some(vec!['2', '>']),
        Kind::BothRedirect => Some(vec!['&', '>']),
        Kind::HereDocStrip => Some(vec!['<', '<', '-']),
        Kind::HereDoc => Some(vec!['<', '<']),
        Kind::StdinRedirect => Some(vec!['<']),
        Kind::CrLf => Some(vec!['\r', '\n']),
        _ => None,
    };
    r
}

/// All kinds, in declaration order.
pub fn all_kinds_exec() -> (v: Vec<Kind>)
    ensures
        v@ == all_kinds(),
{
    let v = vec![Kind::Let, Kind::If, Kind::Else, Kind::Then, Kind::Elif, Kind::Fi, Kind::Fn, Kind::Match, Kind::For, Kind::In, Kind::While, Kind::Do, Kind::Done, Kind::Until, Kind::Function, Kind::Case, Kind::Esac, Kind::Equals, Kind::DoubleEquals, Kind::NotEquals, Kind::GreaterThanOrEqual, Kind::LessThanOrEqual, Kind::GreaterThan, Kind::ParallelPipe, Kind::PipeAsk, Kind::Pipe, Kind::And, Kind::Ampersand, Kind::Or, Kind::Bang, Kind::LeftParen, Kind::RightParen, Kind::LeftBrace, Kind::RightBrace, Kind::LeftBracket, Kind::RightBracket, Kind::DoubleSemicolon, Kind::Semicolon, Kind::Colon, Kind::Comma, Kind::Dot, Kind::Arrow, Kind::FatArrow, Kind::DoubleQuote, Kind::SingleQuote, Kind::AnsiC, Kind::Integer, Kind::Float, Kind::GlobStar, Kind::GlobBracket, Kind::Dash, Kind::DoubleDash, Kind::ShortFlag, Kind::LongFlag, Kind::PlusFlag, Kind::Identifier, Kind::CommandSubstitution, Kind::Backtick, Kind::BracedVariable, Kind::SpecialVariable, Kind::Variable, Kind::Tilde, Kind::Path, Kind::StdoutAppend, Kind::StderrToStdout, Kind::StderrRedirect, Kind::BothRedirect, Kind::HereDocStrip, Kind::HereDoc, Kind::StdinRedirect, Kind::Newline, Kind::CrLf, Kind::Comment, Kind::Blank];
    assert(v@ =~= all_kinds());
    v
}

/// Whether match `(k, n)` beats match `(k2, n2)`.
fn beats_exec(k: Kind, n: usize, k2: Kind, n2: usize) -> (b: bool)
    ensures
        b == beats(k, n as int, k2, n2 as int),
{
    n > n2 || (n == n2 && priority_exec(k) > priority_exec(k2))
}

/// The priority of a kind.
pub fn priority_exec(k: Kind) -> (p: u8)
    ensures
        p == priority(k),
{
    match k {
        Kind::LeftBracket | Kind::RightBracket => 10,
        Kind::DoubleQuote | Kind::SingleQuote | Kind::Backtick | Kind::GlobStar | Kind::Identifier
        | Kind::Newline | Kind::Blank => 2,
        Kind::AnsiC | Kind::LongFlag => 6,
        Kind::Integer => 3,
        Kind::Float | Kind::ShortFlag | Kind::PlusFlag | Kind::CommandSubstitution
        | Kind::SpecialVariable | Kind::Variable | Kind::Path => 4,
        Kind::GlobBracket | Kind::BracedVariable => 8,
        Kind::Comment => 50,
        _ => match literal_chars(k) {
            Some(t) => {
                assert(t@.len() <= 8);
                (2 * t.len()) as u8
            },
            None => 0,
        },
    }
}

/// The lexeme chosen at `i`: its kind and length.
pub fn scan_at_exec(s: &[char], i: usize) -> (r: Option<(Kind, usize)>)
    requires
        i <= s.len(),
    ensures
        r == (match scan_at(s@, i as int) {
            Some((k, n)) => Some((k, n as usize)),
            None => None::<(Kind, usize)>,
        }),
        r matches Some((k, n)) ==> n >= 1 && i + n <= s@.len(),
{
    let kinds = all_kinds_exec();
    let mut best: Option<(Kind, usize)> = None;
    let mut m: usize = 0;
    while m < kinds.len()
        invariant
            m <= kinds.len(),
            kinds@ == all_kinds(),
            i <= s.len(),
            best == (match best_among(s@, i as int, m as int) {
                Some((k, n)) => Some((k, n as usize)),
                None => None::<(Kind, usize)>,
            }),
            best matches Some((k, n)) ==> n >= 1 && i + n <= s@.len(),
            best_among(s@, i as int, m as int) matches Some((k, n)) ==> n >= 1 && i + n <= s@.len(),
        decreases kinds.len() - m,
    {
        let k = kinds[m];
        let ghost prev = best_among(s@, i as int, m as int);
        let ghost nn = match_len(k, s@, i as int);
        assert(all_kinds()[m as int] == k);
        assert(best_among(s@, i as int, m + 1) == (if nn < 1 {
            prev
        } else {
            match prev {
                None => Some((k, nn)),
                Some((k2, n2)) => if beats(k, nn, k2, n2) {
                    Some((k, nn))
                } else {
                    prev
                },
            }
        }));
        match match_len_exec(k, s, i) {
            Some(n) => {
                assert(n == nn && nn >= 1 && i + nn <= s@.len());
                match best {
                    None => {
                        best = Some((k, n));
                    },
                    Some((k2, n2)) => {
                        assert(prev matches Some((pk, pn)) && pk == k2 && pn == n2);
                        if beats_exec(k, n, k2, n2) {
                            best = Some((k, n));
                        }
                    },
                }
            },
            None => {
                assert(nn < 1);
            },
        }
        m = m + 1;
    }
    best
}

// ---------------------------------------------------------------------------
// Bounds of matches
// ---------------------------------------------------------------------------

/// A run from `i` stays within `s`.
pub proof fn lemma_run_bound(s: Seq<char>, i: int, p: spec_fn(char) -> bool)
    requires
        0 <= i <= s.len(),
    ensures
        0 <= run(s, i, p),
        i + run(s, i, p) <= s.len(),
        forall|q: int| i <= q < i + run(s, i, p) ==> #[trigger] p(s[q]),
    decreases s.len() - i,
{
    if i < s.len() && p(s[i]) {
        lemma_run_bound(s, i + 1, p);
    }
}

/// Every run stays within `s`.
pub proof fn lemma_runs_bounded(s: Seq<char>, p: spec_fn(char) -> bool)
    ensures
        forall|i: int| 0 <= i <= s.len() ==> 0 <= #[trigger] run(s, i, p) && i + run(s, i, p) <= s.len(),
        forall|i: int| i < 0 || i > s.len() ==> #[trigger] run(s, i, p) == 0,
{
    assert forall|i: int| 0 <= i <= s.len() implies 0 <= #[trigger] run(s, i, p) && i + run(s, i, p)
        <= s.len() by {
        lemma_run_bound(s, i, p);
    }
}

/// A match at `i` ends within `s`.
#[verifier::rlimit(40)]
pub proof fn lemma_match_len_bound(k: Kind, s: Seq<char>, i: int)
    requires
        0 <= i <= s.len(),
    ensures
        match_len(k, s, i) >= 1 ==> i + match_len(k, s, i) <= s.len(),
{
    lemma_runs_bounded(s, class(1));
    lemma_runs_bounded(s, class(2));
    lemma_runs_bounded(s, class(3));
    lemma_runs_bounded(s, class(4));
    lemma_runs_bounded(s, class(5));
    lemma_runs_bounded(s, class(6));
    lemma_runs_bounded(s, class(7));
    lemma_runs_bounded(s, class(8));
    lemma_runs_bounded(s, class(9));
    lemma_runs_bounded(s, class(12));
    lemma_runs_bounded(s, class(13));
    lemma_runs_bounded(s, class(14));
    lemma_runs_bounded(s, class(15));
    lemma_runs_bounded(s, class(16));
    lemma_ansi_c_end_bounds(s, i + 2);
}

/// The lexeme chosen at `i` is not empty and ends within `s`.
pub proof fn lemma_best_among_bound(s: Seq<char>, i: int, m: int)
    requires
        0 <= i <= s.len(),
        m <= all_kinds().len(),
    ensures
        best_among(s, i, m) matches Some((k, n)) ==> 1 <= n && i + n <= s.len() && n == match_len(
            k,
            s,
            i,
        ),
    decreases m,
{
    if m > 0 {
        lemma_best_among_bound(s, i, m - 1);
        lemma_match_len_bound(all_kinds()[m - 1], s, i);
    }
}

/// The lexeme chosen at `i` is not empty and ends within `s`.
pub proof fn lemma_scan_at_bound(s: Seq<char>, i: int)
    requires
        0 <= i <= s.len(),
    ensures
        scan_at(s, i) matches Some((k, n)) ==> 1 <= n && i + n <= s.len() && n == match_len(k, s, i),
{
    lemma_best_among_bound(s, i, all_kinds().len() as int);
}

/// The choice among the first `m` kinds is a longest match, and of the
/// matches as long, one of the highest priority.
proof fn lemma_best_among_longest(s: Seq<char>, i: int, m: int)
    requires
        m <= all_kinds().len(),
    ensures
        best_among(s, i, m) matches Some((k, n)) ==> n >= 1 && forall|j: int|
            0 <= j < m ==> (#[trigger] match_len(all_kinds()[j], s, i) <= n && (match_len(
                all_kinds()[j],
                s,
                i,
            ) == n ==> priority(all_kinds()[j]) <= priority(k))),
        best_among(s, i, m) is None ==> forall|j: int|
            0 <= j < m ==> #[trigger] match_len(all_kinds()[j], s, i) < 1,
        best_among(s, i, m) matches Some((k, n)) ==> exists|j: int|
            0 <= j < m && all_kinds()[j] == k && #[trigger] match_len(all_kinds()[j], s, i) == n,
    decreases m,
{
    if m > 0 {
        lemma_best_among_longest(s, i, m - 1);
        let prev = best_among(s, i, m - 1);
        let k = all_kinds()[m - 1];
        let n = match_len(k, s, i);
        if n >= 1 {
            match prev {
                None => {
                    assert(match_len(all_kinds()[m - 1], s, i) == n);
                },
                Some((k2, n2)) => {
                    if beats(k, n, k2, n2) {
                        assert(match_len(all_kinds()[m - 1], s, i) == n);
                        assert forall|j: int| 0 <= j < m implies (#[trigger] match_len(
                            all_kinds()[j],
                            s,
                            i,
                        ) <= n && (match_len(all_kinds()[j], s, i) == n ==> priority(all_kinds()[j])
                            <= priority(k))) by {
                            if j < m - 1 {
                                assert(match_len(all_kinds()[j], s, i) <= n2);
                            }
                        }
                    } else {
                        let w = choose|j: int|
                            0 <= j < m - 1 && all_kinds()[j] == k2 && #[trigger] match_len(
                                all_kinds()[j],
                                s,
                                i,
                            ) == n2;
                        assert(match_len(all_kinds()[w], s, i) == n2);
                    }
                },
            }
        } else {
            match prev {
                None => {},
                Some((k2, n2)) => {
                    let w = choose|j: int|
                        0 <= j < m - 1 && all_kinds()[j] == k2 && #[trigger] match_len(
                            all_kinds()[j],
                            s,
                            i,
                        ) == n2;
                    assert(match_len(all_kinds()[w], s, i) == n2);
                },
            }
        }
    }
}

/// The position of a kind in `all_kinds()`.
pub open spec fn kind_index(k: Kind) -> int {
    match k {
        Kind::Let => 0,
        Kind::If => 1,
        Kind::Else => 2,
        Kind::Then => 3,
        Kind::Elif => 4,
        Kind::Fi => 5,
        Kind::Fn => 6,
        Kind::Match => 7,
        Kind::For => 8,
        Kind::In => 9,
        Kind::While => 10,
        Kind::Do => 11,
        Kind::Done => 12,
        Kind::Until => 13,
        Kind::Function => 14,
        Kind::Case => 15,
        Kind::Esac => 16,
        Kind::Equals => 17,
        Kind::DoubleEquals => 18,
        Kind::NotEquals => 19,
        Kind::GreaterThanOrEqual => 20,
        Kind::LessThanOrEqual => 21,
        Kind::GreaterThan => 22,
        Kind::ParallelPipe => 23,
        Kind::PipeAsk => 24,
        Kind::Pipe => 25,
        Kind::And => 26,
        Kind::Ampersand => 27,
        Kind::Or => 28,
        Kind::Bang => 29,
        Kind::LeftParen => 30,
        Kind::RightParen => 31,
        Kind::LeftBrace => 32,
        Kind::RightBrace => 33,
        Kind::LeftBracket => 34,
        Kind::RightBracket => 35,
        Kind::DoubleSemicolon => 36,
        Kind::Semicolon => 37,
        Kind::Colon => 38,
        Kind::Comma => 39,
        Kind::Dot => 40,
        Kind::Arrow => 41,
        Kind::FatArrow => 42,
        Kind::DoubleQuote => 43,
        Kind::SingleQuote => 44,
        Kind::AnsiC => 45,
        Kind::Integer => 46,
        Kind::Float => 47,
        Kind::GlobStar => 48,
        Kind::GlobBracket => 49,
        Kind::Dash => 50,
        Kind::DoubleDash => 51,
        Kind::ShortFlag => 52,
        Kind::LongFlag => 53,
        Kind::PlusFlag => 54,
        Kind::Identifier => 55,
        Kind::CommandSubstitution => 56,
        Kind::Backtick => 57,
        Kind::BracedVariable => 58,
        Kind::SpecialVariable => 59,
        Kind::Variable => 60,
        Kind::Tilde => 61,
        Kind::Path => 62,
        Kind::StdoutAppend => 63,
        Kind::StderrToStdout => 64,
        Kind::StderrRedirect => 65,
        Kind::BothRedirect => 66,
        Kind::HereDocStrip => 67,
        Kind::HereDoc => 68,
        Kind::StdinRedirect => 69,
        Kind::Newline => 70,
        Kind::CrLf => 71,
        Kind::Comment => 72,
        Kind::Blank => 73,
    }
}

proof fn lemma_kind_index(k: Kind)
    ensures
        0 <= kind_index(k) < all_kinds().len(),
        all_kinds()[kind_index(k)] == k,
{
}

/// The lexer's choice at `i` is the longest match there, and among matches
/// as long, one of the highest priority; when it chooses nothing, no
/// pattern matches at `i`.
pub proof fn law_longest_match(s: Seq<char>, i: int)
    ensures
        scan_at(s, i) matches Some((k, n)) ==> forall|k2: Kind|
            #[trigger] match_len(k2, s, i) <= n && (match_len(k2, s, i) == n ==> priority(k2)
                <= priority(k)),
        scan_at(s, i) matches Some((k, n)) ==> match_len(k, s, i) == n,
        scan_at(s, i) is None ==> forall|k2: Kind| #[trigger] match_len(k2, s, i) < 1,
{
    lemma_best_among_longest(s, i, all_kinds().len() as int);
    match scan_at(s, i) {
        Some((k, n)) => {
            assert forall|k2: Kind|
                #[trigger] match_len(k2, s, i) <= n && (match_len(k2, s, i) == n ==> priority(k2)
                    <= priority(k)) by {
                lemma_kind_index(k2);
                assert(match_len(all_kinds()[kind_index(k2)], s, i) == match_len(k2, s, i));
            }
            let j = choose|j: int|
                0 <= j < all_kinds().len() && all_kinds()[j] == k && #[trigger] match_len(
                    all_kinds()[j],
                    s,
                    i,
                ) == n;
            assert(match_len(all_kinds()[j], s, i) == n);
        },
        None => {
            assert forall|k2: Kind| #[trigger] match_len(k2, s, i) < 1 by {
                lemma_kind_index(k2);
                assert(match_len(all_kinds()[kind_index(k2)], s, i) == match_len(k2, s, i));
            }
        },
    }
}

} // verus!
