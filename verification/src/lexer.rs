//! The shell's lexer: comment stripping, the scan of lexemes with the
//! token patterns of `scan`, the scanners that extend quoted strings and
//! command substitutions past their opening characters, the decoding of
//! ANSI-C strings, the marking of adjacent word parts and the collection of
//! here-document bodies.
use vstd::prelude::*;
use crate::scan::{Kind, lemma_scan_at_bound, scan_at, scan_at_exec};
use crate::expansion::{char_utf8_width, utf8_len};
use crate::text::{is_whitespace, is_ws, append_chars, dec, dec_chars, push_char, string_of, string_of_range};

verus! {

/// Data of a here-document body collected after `<<` or `<<-`.
#[derive(Debug, Clone, PartialEq)]
pub struct HereDocData {
    pub body: String,
    pub expand_vars: bool,
    pub strip_tabs: bool,
}

/// A token of the shell language.
#[derive(Debug, Clone, PartialEq)]
pub enum Token {
    Let,
    If,
    Else,
    Then,
    Elif,
    Fi,
    Fn,
    Match,
    For,
    In,
    While,
    Do,
    Done,
    Until,
    Function,
    Case,
    Esac,
    Equals,
    DoubleEquals,
    NotEquals,
    GreaterThanOrEqual,
    LessThanOrEqual,
    GreaterThan,
    ParallelPipe,
    PipeAsk,
    Pipe,
    And,
    Ampersand,
    Or,
    Bang,
    LeftParen,
    RightParen,
    LeftBrace,
    RightBrace,
    LeftBracket,
    RightBracket,
    DoubleSemicolon,
    Semicolon,
    Colon,
    Comma,
    Dot,
    Arrow,
    FatArrow,
    String(String),
    SingleQuotedString(String),
    AnsiCString(String),
    Integer(i64),
    Float(String),
    GlobPattern(String),
    Dash,
    DoubleDash,
    ShortFlag(String),
    LongFlag(String),
    PlusFlag(String),
    Identifier(String),
    CommandSubstitution(String),
    BacktickSubstitution(String),
    BracedVariable(String),
    SpecialVariable(String),
    Variable(String),
    Tilde,
    Path(String),
    StdoutAppend,
    StderrToStdout,
    StderrRedirect,
    BothRedirect,
    HereDocStrip,
    HereDoc,
    StdinRedirect,
    HereDocBody(HereDocData),
    Adjacent,
    Newline,
    CrLf,
    Comment,
}

/// A token as a mathematical value: fixed tokens by their kind, tokens that
/// carry their text by the kind that matched them and that text.
pub enum TokenView {
    Fixed(Kind),
    Word(Kind, Seq<char>),
    Integer(i64),
    Float(Seq<char>),
    HereDocBody(Seq<char>, bool, bool),
    Adjacent,
}

impl View for Token {
    type V = TokenView;

    open spec fn view(&self) -> TokenView {
        match self {
            Token::Let => TokenView::Fixed(Kind::Let),
            Token::If => TokenView::Fixed(Kind::If),
            Token::Else => TokenView::Fixed(Kind::Else),
            Token::Then => TokenView::Fixed(Kind::Then),
            Token::Elif => TokenView::Fixed(Kind::Elif),
            Token::Fi => TokenView::Fixed(Kind::Fi),
            Token::Fn => TokenView::Fixed(Kind::Fn),
            Token::Match => TokenView::Fixed(Kind::Match),
            Token::For => TokenView::Fixed(Kind::For),
            Token::In => TokenView::Fixed(Kind::In),
            Token::While => TokenView::Fixed(Kind::While),
            Token::Do => TokenView::Fixed(Kind::Do),
            Token::Done => TokenView::Fixed(Kind::Done),
            Token::Until => TokenView::Fixed(Kind::Until),
            Token::Function => TokenView::Fixed(Kind::Function),
            Token::Case => TokenView::Fixed(Kind::Case),
            Token::Esac => TokenView::Fixed(Kind::Esac),
            Token::Equals => TokenView::Fixed(Kind::Equals),
            Token::DoubleEquals => TokenView::Fixed(Kind::DoubleEquals),
            Token::NotEquals => TokenView::Fixed(Kind::NotEquals),
            Token::GreaterThanOrEqual => TokenView::Fixed(Kind::GreaterThanOrEqual),
            Token::LessThanOrEqual => TokenView::Fixed(Kind::LessThanOrEqual),
            Token::GreaterThan => TokenView::Fixed(Kind::GreaterThan),
            Token::ParallelPipe => TokenView::Fixed(Kind::ParallelPipe),
            Token::PipeAsk => TokenView::Fixed(Kind::PipeAsk),
            Token::Pipe => TokenView::Fixed(Kind::Pipe),
            Token::And => TokenView::Fixed(Kind::And),
            Token::Ampersand => TokenView::Fixed(Kind::Ampersand),
            Token::Or => TokenView::Fixed(Kind::Or),
            Token::Bang => TokenView::Fixed(Kind::Bang),
            Token::LeftParen => TokenView::Fixed(Kind::LeftParen),
            Token::RightParen => TokenView::Fixed(Kind::RightParen),
            Token::LeftBrace => TokenView::Fixed(Kind::LeftBrace),
            Token::RightBrace => TokenView::Fixed(Kind::RightBrace),
            Token::LeftBracket => TokenView::Fixed(Kind::LeftBracket),
            Token::RightBracket => TokenView::Fixed(Kind::RightBracket),
            Token::DoubleSemicolon => TokenView::Fixed(Kind::DoubleSemicolon),
            Token::Semicolon => TokenView::Fixed(Kind::Semicolon),
            Token::Colon => TokenView::Fixed(Kind::Colon),
            Token::Comma => TokenView::Fixed(Kind::Comma),
            Token::Dot => TokenView::Fixed(Kind::Dot),
            Token::Arrow => TokenView::Fixed(Kind::Arrow),
            Token::FatArrow => TokenView::Fixed(Kind::FatArrow),
            Token::String(s) => TokenView::Word(Kind::DoubleQuote, s@),
            Token::SingleQuotedString(s) => TokenView::Word(Kind::SingleQuote, s@),
            Token::AnsiCString(s) => TokenView::Word(Kind::AnsiC, s@),
            Token::Integer(v) => TokenView::Integer(*v),
            Token::Float(s) => TokenView::Float(s@),
            Token::GlobPattern(s) => TokenView::Word(Kind::GlobStar, s@),
            Token::Dash => TokenView::Fixed(Kind::Dash),
            Token::DoubleDash => TokenView::Fixed(Kind::DoubleDash),
            Token::ShortFlag(s) => TokenView::Word(Kind::ShortFlag, s@),
            Token::LongFlag(s) => TokenView::Word(Kind::LongFlag, s@),
            Token::PlusFlag(s) => TokenView::Word(Kind::PlusFlag, s@),
            Token::Identifier(s) => TokenView::Word(Kind::Identifier, s@),
            Token::CommandSubstitution(s) => TokenView::Word(Kind::CommandSubstitution, s@),
            Token::BacktickSubstitution(s) => TokenView::Word(Kind::Backtick, s@),
            Token::BracedVariable(s) => TokenView::Word(Kind::BracedVariable, s@),
            Token::SpecialVariable(s) => TokenView::Word(Kind::SpecialVariable, s@),
            Token::Variable(s) => TokenView::Word(Kind::Variable, s@),
            Token::Tilde => TokenView::Fixed(Kind::Tilde),
            Token::Path(s) => TokenView::Word(Kind::Path, s@),
            Token::StdoutAppend => TokenView::Fixed(Kind::StdoutAppend),
            Token::StderrToStdout => TokenView::Fixed(Kind::StderrToStdout),
            Token::StderrRedirect => TokenView::Fixed(Kind::StderrRedirect),
            Token::BothRedirect => TokenView::Fixed(Kind::BothRedirect),
            Token::HereDocStrip => TokenView::Fixed(Kind::HereDocStrip),
            Token::HereDoc => TokenView::Fixed(Kind::HereDoc),
            Token::StdinRedirect => TokenView::Fixed(Kind::StdinRedirect),
            Token::HereDocBody(d) => TokenView::HereDocBody(d.body@, d.expand_vars, d.strip_tabs),
            Token::Adjacent => TokenView::Adjacent,
            Token::Newline => TokenView::Fixed(Kind::Newline),
            Token::CrLf => TokenView::Fixed(Kind::CrLf),
            Token::Comment => TokenView::Fixed(Kind::Comment),
        }
    }
}

impl Token {
    /// A copy of the token.
    pub fn duplicate(&self) -> (r: Token)
        ensures
            r@ == self@,
    {
        match self {
            Token::Let => Token::Let,
            Token::If => Token::If,
            Token::Else => Token::Else,
            Token::Then => Token::Then,
            Token::Elif => Token::Elif,
            Token::Fi => Token::Fi,
            Token::Fn => Token::Fn,
            Token::Match => Token::Match,
            Token::For => Token::For,
            Token::In => Token::In,
            Token::While => Token::While,
            Token::Do => Token::Do,
            Token::Done => Token::Done,
            Token::Until => Token::Until,
            Token::Function => Token::Function,
            Token::Case => Token::Case,
            Token::Esac => Token::Esac,
            Token::Equals => Token::Equals,
            Token::DoubleEquals => Token::DoubleEquals,
            Token::NotEquals => Token::NotEquals,
            Token::GreaterThanOrEqual => Token::GreaterThanOrEqual,
            Token::LessThanOrEqual => Token::LessThanOrEqual,
            Token::GreaterThan => Token::GreaterThan,
            Token::ParallelPipe => Token::ParallelPipe,
            Token::PipeAsk => Token::PipeAsk,
            Token::Pipe => Token::Pipe,
            Token::And => Token::And,
            Token::Ampersand => Token::Ampersand,
            Token::Or => Token::Or,
            Token::Bang => Token::Bang,
            Token::LeftParen => Token::LeftParen,
            Token::RightParen => Token::RightParen,
            Token::LeftBrace => Token::LeftBrace,
            Token::RightBrace => Token::RightBrace,
            Token::LeftBracket => Token::LeftBracket,
            Token::RightBracket => Token::RightBracket,
            Token::DoubleSemicolon => Token::DoubleSemicolon,
            Token::Semicolon => Token::Semicolon,
            Token::Colon => Token::Colon,
            Token::Comma => Token::Comma,
            Token::Dot => Token::Dot,
            Token::Arrow => Token::Arrow,
            Token::FatArrow => Token::FatArrow,
            Token::String(s) => Token::String(s.clone()),
            Token::SingleQuotedString(s) => Token::SingleQuotedString(s.clone()),
            Token::AnsiCString(s) => Token::AnsiCString(s.clone()),
            Token::Integer(v) => Token::Integer(*v),
            Token::Float(s) => Token::Float(s.clone()),
            Token::GlobPattern(s) => Token::GlobPattern(s.clone()),
            Token::Dash => Token::Dash,
            Token::DoubleDash => Token::DoubleDash,
            Token::ShortFlag(s) => Token::ShortFlag(s.clone()),
            Token::LongFlag(s) => Token::LongFlag(s.clone()),
            Token::PlusFlag(s) => Token::PlusFlag(s.clone()),
            Token::Identifier(s) => Token::Identifier(s.clone()),
            Token::CommandSubstitution(s) => Token::CommandSubstitution(s.clone()),
            Token::BacktickSubstitution(s) => Token::BacktickSubstitution(s.clone()),
            Token::BracedVariable(s) => Token::BracedVariable(s.clone()),
            Token::SpecialVariable(s) => Token::SpecialVariable(s.clone()),
            Token::Variable(s) => Token::Variable(s.clone()),
            Token::Tilde => Token::Tilde,
            Token::Path(s) => Token::Path(s.clone()),
            Token::StdoutAppend => Token::StdoutAppend,
            Token::StderrToStdout => Token::StderrToStdout,
            Token::StderrRedirect => Token::StderrRedirect,
            Token::BothRedirect => Token::BothRedirect,
            Token::HereDocStrip => Token::HereDocStrip,
            Token::HereDoc => Token::HereDoc,
            Token::StdinRedirect => Token::StdinRedirect,
            Token::HereDocBody(d) => Token::HereDocBody(HereDocData { body: d.body.clone(), expand_vars: d.expand_vars, strip_tabs: d.strip_tabs }),
            Token::Adjacent => Token::Adjacent,
            Token::Newline => Token::Newline,
            Token::CrLf => Token::CrLf,
            Token::Comment => Token::Comment,
        }
    }
}

/// The error of the lexer: the byte position and the text of the input
/// that no token matches.
#[derive(Debug, Clone, PartialEq)]
pub enum LexerError {
    InvalidToken { position: usize, text: String },
}

impl LexerError {
    /// The error's message: `Invalid token at position P: 'T'`.
    pub fn message(&self) -> (m: String)
        ensures
            m@ == (match self {
                LexerError::InvalidToken { position, text } => seq!['I', 'n', 'v', 'a', 'l', 'i', 'd', ' ', 't', 'o', 'k', 'e', 'n', ' ', 'a', 't', ' ', 'p', 'o', 's', 'i', 't', 'i', 'o', 'n', ' ']
                    + dec(*position as nat) + seq![':', ' ', '\''] + text@ + seq!['\''],
            }),
    {
        match self {
            LexerError::InvalidToken { position, text } => {
                let mut m = String::new();
                let head: Vec<char> = vec!['I', 'n', 'v', 'a', 'l', 'i', 'd', ' ', 't', 'o', 'k', 'e', 'n', ' ', 'a', 't', ' ', 'p', 'o', 's', 'i', 't', 'i', 'o', 'n', ' '];
                append_chars(&mut m, head.as_slice());
                let digits = dec_chars(*position as u64);
                append_chars(&mut m, digits.as_slice());
                let mid: Vec<char> = vec![':', ' ', '\''];
                append_chars(&mut m, mid.as_slice());
                m.append(text.as_str());
                push_char(&mut m, '\'');
                m
            },
        }
    }
}

// ---------------------------------------------------------------------------
// Comments
// ---------------------------------------------------------------------------

/// The index of the first `c` at or after `j`, or the length of `s`.
pub open spec fn find_char(s: Seq<char>, j: int, c: char) -> int
    decreases s.len() - j,
{
    if j < 0 || j >= s.len() {
        s.len() as int
    } else if s[j] == c {
        j
    } else {
        find_char(s, j + 1, c)
    }
}

/// The characters of `s` from `i` with comments removed, inside single
/// quotes (`sq`) or double quotes (`dq`) as the text before `i` leaves it.
/// A `#` outside quotes at the start of the text or after whitespace starts
/// a comment that runs to the end of its line; the newline stays. A `#`
/// inside a word (`foo#bar`, `${VAR#prefix}`, `$#`) is part of it. Inside double quotes a backslash keeps the character
/// after it, whatever it is.
pub open spec fn strip_from(s: Seq<char>, i: int, sq: bool, dq: bool) -> Seq<char>
    decreases s.len() - i, 0int,
{
    if i < 0 || i >= s.len() {
        Seq::empty()
    } else {
        let c = s[i];
        if c == '\'' && !dq {
            seq![c] + strip_from(s, i + 1, !sq, dq)
        } else if c == '"' && !sq {
            seq![c] + strip_from(s, i + 1, sq, !dq)
        } else if c == '\\' && dq {
            if i + 1 < s.len() {
                seq![c, s[i + 1]] + strip_from(s, i + 2, sq, dq)
            } else {
                seq![c]
            }
        } else if c == '#' && !sq && !dq && (i == 0 || is_ws(s[i - 1])) {
            proof {
                lemma_find_char(s, i + 1, '\n');
            }
            strip_comment(s, find_char(s, i + 1, '\n'), sq, dq)
        } else {
            seq![c] + strip_from(s, i + 1, sq, dq)
        }
    }
}

/// What follows a comment that ends at `j`: its newline, if any, and the rest.
pub open spec fn strip_comment(s: Seq<char>, j: int, sq: bool, dq: bool) -> Seq<char>
    decreases s.len() - j, 1int,
{
    if 0 <= j < s.len() {
        seq!['\n'] + strip_from(s, j + 1, sq, dq)
    } else {
        Seq::empty()
    }
}

/// The input with its comments removed.
pub open spec fn strip(s: Seq<char>) -> Seq<char> {
    strip_from(s, 0, false, false)
}

pub proof fn lemma_find_char(s: Seq<char>, j: int, c: char)
    requires
        0 <= j <= s.len(),
    ensures
        j <= find_char(s, j, c) <= s.len(),
        find_char(s, j, c) < s.len() ==> s[find_char(s, j, c)] == c,
        forall|k: int| j <= k < find_char(s, j, c) ==> s[k] != c,
    decreases s.len() - j,
{
    if j < s.len() && s[j] != c {
        lemma_find_char(s, j + 1, c);
    }
}

/// The index of the first `c` at or after `j`, or the length of `s`.
pub fn find_char_exec(s: &[char], j: usize, c: char) -> (r: usize)
    requires
        j <= s.len(),
    ensures
        r == find_char(s@, j as int, c),
        j <= r <= s@.len(),
{
    let mut k: usize = j;
    while k < s.len() && s[k] != c
        invariant
            j <= k <= s@.len(),
            find_char(s@, j as int, c) == find_char(s@, k as int, c),
        decreases s@.len() - k,
    {
        k = k + 1;
    }
    k
}

/// The characters of `input` with comments removed (`#` outside quotes,
/// at the start or after whitespace, to the end of the line).
pub fn strip_comments(input: &[char]) -> (out: Vec<char>)
    ensures
        out@ == strip(input@),
{
    let n = input.len();
    let mut out: Vec<char> = Vec::new();
    let mut i: usize = 0;
    let mut sq = false;
    let mut dq = false;
    while i < n
        invariant
            n == input@.len(),
            i <= n,
            out@ + strip_from(input@, i as int, sq, dq) == strip(input@),
        decreases n - i,
    {
        let c = input[i];
        let ghost before = out@;
        let ghost rest = strip_from(input@, i as int, sq, dq);
        if c == '\'' && !dq {
            out.push(c);
            sq = !sq;
            i = i + 1;
            assert(before + rest =~= out@ + strip_from(input@, i as int, sq, dq));
        } else if c == '"' && !sq {
            out.push(c);
            dq = !dq;
            i = i + 1;
            assert(before + rest =~= out@ + strip_from(input@, i as int, sq, dq));
        } else if c == '\\' && dq {
            out.push(c);
            if i + 1 < n {
                out.push(input[i + 1]);
                i = i + 2;
                assert(before + rest =~= out@ + strip_from(input@, i as int, sq, dq));
            } else {
                i = n;
                assert(before + rest =~= out@ + strip_from(input@, i as int, sq, dq));
            }
        } else if c == '#' && !sq && !dq && (i == 0 || is_whitespace(input[i - 1])) {
            let j = find_char_exec(input, i + 1, '\n');
            assert(rest == strip_comment(input@, j as int, sq, dq));
            if j < n {
                out.push('\n');
                i = j + 1;
                assert(before + rest =~= out@ + strip_from(input@, i as int, sq, dq));
            } else {
                i = n;
                assert(before + rest =~= out@ + strip_from(input@, i as int, sq, dq));
            }
        } else {
            out.push(c);
            i = i + 1;
            assert(before + rest =~= out@ + strip_from(input@, i as int, sq, dq));
        }
    }
    assert(out@ + Seq::<char>::empty() =~= out@);
    out
}

// ---------------------------------------------------------------------------
// Scanners past the opening characters of quoted strings and substitutions
// ---------------------------------------------------------------------------

/// Skips the body of a double-quoted string nested in a substitution: the
/// index of its closing quote, or the end of `s`; a backslash skips the
/// character after it.
pub open spec fn dq_skip(s: Seq<char>, p: int) -> int
    decreases s.len() - p,
{
    if p < 0 || p >= s.len() || s[p] == '"' {
        p
    } else if s[p] == '\\' {
        if p + 1 < s.len() {
            dq_skip(s, p + 2)
        } else {
            s.len() as int
        }
    } else {
        dq_skip(s, p + 1)
    }
}

pub proof fn lemma_dq_skip(s: Seq<char>, p: int)
    requires
        0 <= p <= s.len(),
    ensures
        p <= dq_skip(s, p) <= s.len(),
        dq_skip(s, p) < s.len() ==> s[dq_skip(s, p)] == '"',
    decreases s.len() - p,
{
    if p < s.len() && s[p] != '"' {
        if s[p] == '\\' {
            if p + 1 < s.len() {
                lemma_dq_skip(s, p + 2);
            }
        } else {
            lemma_dq_skip(s, p + 1);
        }
    }
}

/// Skips a command substitution inside a double-quoted string, `depth`
/// parentheses deep: the index after its closing parenthesis, or the end of
/// `s`. Quoted text inside it is skipped whole.
pub open spec fn sub_skip(s: Seq<char>, p: int, depth: nat) -> int
    decreases s.len() - p,
{
    if depth == 0 || p < 0 || p >= s.len() {
        p
    } else {
        let c = s[p];
        if c == '(' {
            sub_skip(s, p + 1, depth + 1)
        } else if c == ')' {
            sub_skip(s, p + 1, (depth - 1) as nat)
        } else if c == '\\' && p + 1 < s.len() {
            sub_skip(s, p + 2, depth)
        } else if c == '\'' {
            proof {
                lemma_find_char(s, p + 1, '\'');
            }
            let q = find_char(s, p + 1, '\'');
            if q < s.len() {
                sub_skip(s, q + 1, depth)
            } else {
                q
            }
        } else if c == '"' {
            proof {
                lemma_dq_skip(s, p + 1);
            }
            let q = dq_skip(s, p + 1);
            if q < s.len() {
                sub_skip(s, q + 1, depth)
            } else {
                q
            }
        } else {
            sub_skip(s, p + 1, depth)
        }
    }
}

pub proof fn lemma_sub_skip(s: Seq<char>, p: int, depth: nat)
    requires
        0 <= p <= s.len(),
    ensures
        p <= sub_skip(s, p, depth) <= s.len(),
    decreases s.len() - p,
{
    if depth != 0 && p < s.len() {
        let c = s[p];
        if c == '(' {
            lemma_sub_skip(s, p + 1, depth + 1);
        } else if c == ')' {
            lemma_sub_skip(s, p + 1, (depth - 1) as nat);
        } else if c == '\\' && p + 1 < s.len() {
            lemma_sub_skip(s, p + 2, depth);
        } else if c == '\'' {
            lemma_find_char(s, p + 1, '\'');
            let q = find_char(s, p + 1, '\'');
            if q < s.len() {
                lemma_sub_skip(s, q + 1, depth);
            }
        } else if c == '"' {
            lemma_dq_skip(s, p + 1);
            let q = dq_skip(s, p + 1);
            if q < s.len() {
                lemma_sub_skip(s, q + 1, depth);
            }
        } else {
            lemma_sub_skip(s, p + 1, depth);
        }
    }
}

/// The end of a double-quoted string whose body starts at `p`: the index
/// after its closing quote. A backslash escapes the character after it, and
/// quotes inside a `$(...)` in the string do not close it.
pub open spec fn dq_end(s: Seq<char>, p: int) -> Option<int>
    decreases s.len() - p,
{
    if p < 0 || p >= s.len() {
        None
    } else {
        let c = s[p];
        if c == '"' {
            Some(p + 1)
        } else if c == '\\' && p + 1 < s.len() {
            dq_end(s, p + 2)
        } else if c == '$' && p + 1 < s.len() && s[p + 1] == '(' {
            proof {
                lemma_sub_skip(s, p + 2, 1);
            }
            dq_end(s, sub_skip(s, p + 2, 1))
        } else {
            dq_end(s, p + 1)
        }
    }
}

/// The end of a single-quoted string whose body starts at `p`: the index
/// after the next single quote. Everything up to it is literal.
pub open spec fn sq_end(s: Seq<char>, p: int) -> Option<int> {
    let q = find_char(s, p, '\'');
    if q < s.len() {
        Some(q + 1)
    } else {
        None
    }
}

/// The end of a command substitution `depth` parentheses deep at `p`: the
/// index after the parenthesis that closes it. Quoted text is skipped whole.
pub open spec fn cs_end(s: Seq<char>, p: int, depth: nat) -> Option<int>
    decreases s.len() - p,
{
    if depth == 0 {
        Some(p)
    } else if p < 0 || p >= s.len() {
        None
    } else {
        let c = s[p];
        if c == '(' {
            cs_end(s, p + 1, depth + 1)
        } else if c == ')' {
            cs_end(s, p + 1, (depth - 1) as nat)
        } else if c == '\'' {
            proof {
                lemma_find_char(s, p + 1, '\'');
            }
            let q = find_char(s, p + 1, '\'');
            if q < s.len() {
                cs_end(s, q + 1, depth)
            } else {
                None
            }
        } else if c == '"' {
            proof {
                lemma_dq_skip(s, p + 1);
            }
            let q = dq_skip(s, p + 1);
            if q < s.len() {
                cs_end(s, q + 1, depth)
            } else {
                None
            }
        } else {
            cs_end(s, p + 1, depth)
        }
    }
}

/// The end of a backquoted substitution whose body starts at `p`: the index
/// after the closing backquote; a backslash escapes the character after it.
pub open spec fn bt_end(s: Seq<char>, p: int) -> Option<int>
    decreases s.len() - p,
{
    if p < 0 || p >= s.len() {
        None
    } else if s[p] == '`' {
        Some(p + 1)
    } else if s[p] == '\\' && p + 1 < s.len() {
        bt_end(s, p + 2)
    } else {
        bt_end(s, p + 1)
    }
}

fn dq_skip_exec(s: &[char], p: usize) -> (r: usize)
    requires
        p <= s.len(),
    ensures
        r == dq_skip(s@, p as int),
        p <= r <= s@.len(),
{
    proof {
        lemma_dq_skip(s@, p as int);
    }
    let n = s.len();
    let mut k: usize = p;
    while k < n && s[k] != '"'
        invariant
            n == s@.len(),
            p <= k <= n,
            dq_skip(s@, p as int) == dq_skip(s@, k as int),
        decreases n - k,
    {
        if s[k] == '\\' {
            if k + 1 < n {
                k = k + 2;
            } else {
                k = n;
            }
        } else {
            k = k + 1;
        }
    }
    k
}

fn sub_skip_exec(s: &[char], p: usize) -> (r: usize)
    requires
        1 <= p <= s.len(),
    ensures
        r == sub_skip(s@, p as int, 1),
        p <= r <= s@.len(),
{
    proof {
        lemma_sub_skip(s@, p as int, 1);
    }
    let n = s.len();
    let mut k: usize = p;
    let mut depth: usize = 1;
    while depth > 0 && k < n
        invariant
            n == s@.len(),
            p <= k <= n,
            depth <= k,
            sub_skip(s@, p as int, 1) == sub_skip(s@, k as int, depth as nat),
        decreases n - k,
    {
        let c = s[k];
        if c == '(' {
            depth = depth + 1;
            k = k + 1;
        } else if c == ')' {
            depth = depth - 1;
            k = k + 1;
        } else if c == '\\' && k + 1 < n {
            k = k + 2;
        } else if c == '\'' {
            let q = find_char_exec(s, k + 1, '\'');
            if q < n {
                k = q + 1;
            } else {
                return q;
            }
        } else if c == '"' {
            let q = dq_skip_exec(s, k + 1);
            if q < n {
                k = q + 1;
            } else {
                return q;
            }
        } else {
            k = k + 1;
        }
    }
    k
}

/// The end of a double-quoted string whose body starts at `p`.
pub fn parse_double_quoted_string(s: &[char], p: usize) -> (r: Option<usize>)
    requires
        1 <= p <= s.len(),
    ensures
        r matches Some(e) ==> dq_end(s@, p as int) == Some(e as int) && p < e <= s@.len(),
        r is None ==> dq_end(s@, p as int) is None,
{
    let n = s.len();
    let mut k: usize = p;
    while k < n
        invariant
            n == s@.len(),
            1 <= p <= k <= n,
            dq_end(s@, p as int) == dq_end(s@, k as int),
        decreases n - k,
    {
        let c = s[k];
        if c == '"' {
            return Some(k + 1);
        } else if c == '\\' && k + 1 < n {
            k = k + 2;
        } else if c == '$' && k + 1 < n && s[k + 1] == '(' {
            k = sub_skip_exec(s, k + 2);
        } else {
            k = k + 1;
        }
    }
    None
}

/// The end of a single-quoted string whose body starts at `p`.
pub fn parse_single_quoted_string(s: &[char], p: usize) -> (r: Option<usize>)
    requires
        p <= s.len(),
    ensures
        r matches Some(e) ==> sq_end(s@, p as int) == Some(e as int) && p < e <= s@.len(),
        r is None ==> sq_end(s@, p as int) is None,
{
    let q = find_char_exec(s, p, '\'');
    if q < s.len() {
        Some(q + 1)
    } else {
        None
    }
}

/// The end of a command substitution whose body starts at `p`.
pub fn parse_command_substitution(s: &[char], p: usize) -> (r: Option<usize>)
    requires
        1 <= p <= s.len(),
    ensures
        r matches Some(e) ==> cs_end(s@, p as int, 1) == Some(e as int) && p < e <= s@.len(),
        r is None ==> cs_end(s@, p as int, 1) is None,
{
    let n = s.len();
    let mut k: usize = p;
    let mut depth: usize = 1;
    while depth > 0
        invariant
            n == s@.len(),
            p <= k <= n,
            depth <= k,
            depth == 0 ==> p < k,
            cs_end(s@, p as int, 1) == cs_end(s@, k as int, depth as nat),
        decreases n - k, depth,
    {
        if k >= n {
            return None;
        }
        let c = s[k];
        if c == '(' {
            depth = depth + 1;
            k = k + 1;
        } else if c == ')' {
            depth = depth - 1;
            k = k + 1;
        } else if c == '\'' {
            let q = find_char_exec(s, k + 1, '\'');
            if q < n {
                k = q + 1;
            } else {
                return None;
            }
        } else if c == '"' {
            let q = dq_skip_exec(s, k + 1);
            if q < n {
                k = q + 1;
            } else {
                return None;
            }
        } else {
            k = k + 1;
        }
    }
    Some(k)
}

/// The end of a backquoted substitution whose body starts at `p`.
pub fn parse_backtick_substitution(s: &[char], p: usize) -> (r: Option<usize>)
    requires
        1 <= p <= s.len(),
    ensures
        r matches Some(e) ==> bt_end(s@, p as int) == Some(e as int) && p < e <= s@.len(),
        r is None ==> bt_end(s@, p as int) is None,
{
    let n = s.len();
    let mut k: usize = p;
    while k < n
        invariant
            n == s@.len(),
            p <= k <= n,
            bt_end(s@, p as int) == bt_end(s@, k as int),
        decreases n - k,
    {
        if s[k] == '`' {
            return Some(k + 1);
        } else if s[k] == '\\' && k + 1 < n {
            k = k + 2;
        } else {
            k = k + 1;
        }
    }
    None
}

// ---------------------------------------------------------------------------
// Numbers and ANSI-C escapes
// ---------------------------------------------------------------------------

pub open spec fn is_hex(c: char) -> bool {
    ('0' <= c && c <= '9') || ('a' <= c && c <= 'f') || ('A' <= c && c <= 'F')
}

pub open spec fn is_octal(c: char) -> bool {
    '0' <= c && c <= '7'
}

/// The digits of base 8, or else of base 16.
pub open spec fn base_digit(b: nat) -> spec_fn(char) -> bool {
    if b == 8 {
        |c: char| is_octal(c)
    } else {
        |c: char| is_hex(c)
    }
}

/// The value of a hexadecimal digit.
pub open spec fn hex_digit(c: char) -> nat {
    if '0' <= c && c <= '9' {
        (c as int - '0' as int) as nat
    } else if 'a' <= c && c <= 'f' {
        (c as int - 'a' as int + 10) as nat
    } else {
        (c as int - 'A' as int + 10) as nat
    }
}

/// The value of a numeral in base `b`, each digit valued by `hex_digit`.
pub open spec fn numeral(t: Seq<char>, b: nat) -> nat
    decreases t.len(),
{
    if t.len() == 0 {
        0
    } else {
        numeral(t.drop_last(), b) * b + hex_digit(t.last())
    }
}

/// The number of characters from `k`, at most `max`, that satisfy `p`.
pub open spec fn run_upto(t: Seq<char>, k: int, max: nat, p: spec_fn(char) -> bool) -> nat
    decreases max,
{
    if max == 0 || k < 0 || k >= t.len() || !p(t[k]) {
        0
    } else {
        1 + run_upto(t, k + 1, (max - 1) as nat, p)
    }
}

/// Whether `v` is a Unicode scalar value (`char::from_u32` gives a char).
pub open spec fn is_scalar(v: nat) -> bool {
    v <= 0x10FFFF && !(0xD800 <= v && v <= 0xDFFF)
}

/// The character of a simple escape `\e`, if `e` names one.
pub open spec fn simple_escape(e: char) -> Option<char> {
    if e == 'a' {
        Some('\u{7}')
    } else if e == 'b' {
        Some('\u{8}')
    } else if e == 'e' || e == 'E' {
        Some('\u{1b}')
    } else if e == 'f' {
        Some('\u{c}')
    } else if e == 'n' {
        Some('\n')
    } else if e == 'r' {
        Some('\r')
    } else if e == 't' {
        Some('\t')
    } else if e == 'v' {
        Some('\u{b}')
    } else if e == '\\' || e == '\'' || e == '"' {
        Some(e)
    } else {
        None
    }
}

/// The characters a `\u` or `\U` escape with hexadecimal digits `h` gives:
/// the character of that code point, or none if it is not a scalar value.
pub open spec fn code_point(h: Seq<char>) -> Seq<char> {
    let v = numeral(h, 16);
    if h.len() > 0 && is_scalar(v) {
        seq![v as char]
    } else {
        Seq::empty()
    }
}

/// The body of an ANSI-C string from `j` with its escapes decoded: the
/// simple escapes, `\xHH` (one or two hex digits, a byte), `\uHHHH` and
/// `\UHHHHHHHH` (up to four or eight hex digits, a code point) and `\NNN`
/// (a digit and up to two octal digits, a byte in octal). Escapes whose
/// digits give no character produce nothing; any other escape stays as written.
pub open spec fn ansi_from(t: Seq<char>, j: int) -> Seq<char>
    decreases t.len() - j,
{
    if j < 0 || j >= t.len() {
        Seq::empty()
    } else if t[j] != '\\' {
        seq![t[j]] + ansi_from(t, j + 1)
    } else if j + 1 >= t.len() {
        seq!['\\']
    } else {
        let e = t[j + 1];
        let k = j + 2;
        if simple_escape(e) is Some {
            seq![simple_escape(e)->0] + ansi_from(t, k)
        } else if e == 'x' {
            let h = run_upto(t, k, 2, base_digit(16));
            proof {
                lemma_run_upto(t, k, 2, base_digit(16));
            }
            let v = numeral(t.subrange(k, k + h), 16);
            (if h > 0 {
                seq![(v as u8) as char]
            } else {
                Seq::empty()
            }) + ansi_from(t, k + h)
        } else if e == 'u' || e == 'U' {
            let h = run_upto(t, k, if e == 'u' { 4 } else { 8 }, base_digit(16));
            proof {
                lemma_run_upto(t, k, if e == 'u' { 4 } else { 8 }, base_digit(16));
            }
            code_point(t.subrange(k, k + h)) + ansi_from(t, k + h)
        } else if '0' <= e && e <= '9' {
            let o = run_upto(t, k, 2, base_digit(8));
            proof {
                lemma_run_upto(t, k, 2, base_digit(8));
            }
            let v = numeral(t.subrange(j + 1, k + o), 8);
            (if e <= '7' && v <= 255 {
                seq![(v as u8) as char]
            } else {
                Seq::empty()
            }) + ansi_from(t, k + o)
        } else {
            seq!['\\', e] + ansi_from(t, k)
        }
    }
}

/// The simple escapes of an ANSI-C string decode to their fixed
/// characters: `\\a` bell (U+7), `\\b` backspace (U+8), `\\e` and `\\E` escape
/// (U+1B), `\\f` form feed (U+C), `\\n` newline (U+A), `\\r` carriage return
/// (U+D), `\\t` tab (U+9), `\\v` vertical tab (U+B), and `\\\\`, `\\'`, `\\"`
/// the character itself; whatever follows the escape is decoded after it.
pub proof fn law_ansi_simple_escapes(t: Seq<char>)
    ensures
        ansi_from(seq!['\\', 'a'] + t, 0) == seq!['\u{7}'] + ansi_from(seq!['\\', 'a'] + t, 2),
        ansi_from(seq!['\\', 'b'] + t, 0) == seq!['\u{8}'] + ansi_from(seq!['\\', 'b'] + t, 2),
        ansi_from(seq!['\\', 'e'] + t, 0) == seq!['\u{1b}'] + ansi_from(seq!['\\', 'e'] + t, 2),
        ansi_from(seq!['\\', 'E'] + t, 0) == seq!['\u{1b}'] + ansi_from(seq!['\\', 'E'] + t, 2),
        ansi_from(seq!['\\', 'f'] + t, 0) == seq!['\u{c}'] + ansi_from(seq!['\\', 'f'] + t, 2),
        ansi_from(seq!['\\', 'n'] + t, 0) == seq!['\u{a}'] + ansi_from(seq!['\\', 'n'] + t, 2),
        ansi_from(seq!['\\', 'r'] + t, 0) == seq!['\u{d}'] + ansi_from(seq!['\\', 'r'] + t, 2),
        ansi_from(seq!['\\', 't'] + t, 0) == seq!['\u{9}'] + ansi_from(seq!['\\', 't'] + t, 2),
        ansi_from(seq!['\\', 'v'] + t, 0) == seq!['\u{b}'] + ansi_from(seq!['\\', 'v'] + t, 2),
        ansi_from(seq!['\\', '\\'] + t, 0) == seq!['\\'] + ansi_from(seq!['\\', '\\'] + t, 2),
        ansi_from(seq!['\\', '\''] + t, 0) == seq!['\''] + ansi_from(seq!['\\', '\''] + t, 2),
        ansi_from(seq!['\\', '"'] + t, 0) == seq!['"'] + ansi_from(seq!['\\', '"'] + t, 2),
        ansi_from(seq!['\\', 'n'], 0) == seq!['\u{a}'],
        ansi_from(seq!['\\', 'r'], 0) == seq!['\u{d}'],
        ansi_from(seq!['\\', 't'], 0) == seq!['\u{9}'],
{
    assert(ansi_from(seq!['\\', 'n'], 2) == Seq::<char>::empty());
    assert(ansi_from(seq!['\\', 'r'], 2) == Seq::<char>::empty());
    assert(ansi_from(seq!['\\', 't'], 2) == Seq::<char>::empty());
}

/// Text without a backslash decodes to itself.
pub proof fn law_ansi_plain_text(t: Seq<char>, j: int)
    requires
        0 <= j <= t.len(),
        forall|q: int| 0 <= q < t.len() ==> t[q] != '\\',
    ensures
        ansi_from(t, j) == t.skip(j),
    decreases t.len() - j,
{
    if j < t.len() {
        law_ansi_plain_text(t, j + 1);
        assert(t.skip(j) =~= seq![t[j]] + t.skip(j + 1));
    } else {
        assert(t.skip(j) =~= Seq::<char>::empty());
    }
}

/// `\\xHH` with two hexadecimal digits is the byte `16 * H + H`, whatever
/// follows; with one digit not followed by another, the byte of that digit.
pub proof fn law_ansi_hex_byte(h1: char, h2: char, t: Seq<char>)
    requires
        is_hex(h1),
        is_hex(h2),
    ensures
        ansi_from(seq!['\\', 'x', h1, h2] + t, 0) == seq![((hex_digit(h1) * 16 + hex_digit(h2)) as u8) as char]
            + ansi_from(seq!['\\', 'x', h1, h2] + t, 4),
        (t.len() == 0 || !is_hex(t[0])) ==> ansi_from(seq!['\\', 'x', h1] + t, 0) == seq![
            (hex_digit(h1) as u8) as char,
        ] + ansi_from(seq!['\\', 'x', h1] + t, 3),
{
    let u = seq!['\\', 'x', h1, h2] + t;
    assert(u[0] == '\\' && u[1] == 'x' && u[2] == h1 && u[3] == h2);
    reveal_with_fuel(run_upto, 3);
    assert(run_upto(u, 2, 2, base_digit(16)) == 2);
    assert(u.subrange(2, 4) =~= seq![h1, h2]);
    assert(seq![h1, h2].drop_last() =~= seq![h1]);
    assert(seq![h1].drop_last() =~= Seq::<char>::empty());
    reveal_with_fuel(numeral, 3);
    assert(numeral(seq![h1, h2], 16) == hex_digit(h1) * 16 + hex_digit(h2));
    let w = seq!['\\', 'x', h1] + t;
    assert(w[0] == '\\' && w[1] == 'x' && w[2] == h1);
    if t.len() == 0 || !is_hex(t[0]) {
        if t.len() > 0 {
            assert(w[3] == t[0]);
        }
        assert(run_upto(w, 2, 2, base_digit(16)) == 1);
        assert(w.subrange(2, 3) =~= seq![h1]);
        assert(numeral(seq![h1], 16) == hex_digit(h1));
    }
}

/// The value of an integer token `-?[0-9]+`, if it fits in an `i64`.
pub open spec fn int_value(t: Seq<char>) -> Option<i64> {
    if t.len() > 0 && t[0] == '-' {
        let v = numeral(t.drop_first(), 10);
        if v <= 0x8000_0000_0000_0000 {
            Some((-v) as i64)
        } else {
            None
        }
    } else {
        let v = numeral(t, 10);
        if v <= 0x7fff_ffff_ffff_ffff {
            Some(v as i64)
        } else {
            None
        }
    }
}

/// The character with code point `v`, if it is a scalar value (`char::from_u32`).
#[verifier::external_body]
fn char_from_u32(v: u32) -> (r: Option<char>)
    ensures
        r == (if is_scalar(v as nat) {
            Some(v as char)
        } else {
            None::<char>
        }),
{
    char::from_u32(v)
}

fn hex_digit_exec(c: char) -> (d: u32)
    requires
        is_hex(c),
    ensures
        d == hex_digit(c),
        d < 16,
{
    if '0' <= c && c <= '9' {
        (c as u32) - ('0' as u32)
    } else if 'a' <= c && c <= 'f' {
        (c as u32) - ('a' as u32) + 10
    } else {
        (c as u32) - ('A' as u32) + 10
    }
}

/// Reads up to `max` digits of base `b` (8 or 16) from `k`: their count and
/// value.
fn read_digits(t: &[char], k: usize, max: usize, b: u32) -> (r: (usize, u32))
    requires
        k <= t.len(),
        max <= 8,
        b == 8 || b == 16,
    ensures
        r.0 == run_upto(t@, k as int, max as nat, base_digit(b as nat)),
        k + r.0 <= t@.len(),
        r.1 == numeral(t@.subrange(k as int, k + r.0), b as nat),
{
    let ghost p = base_digit(b as nat);
    let mut i: usize = 0;
    let mut v: u32 = 0;
    let mut go = true;
    while go && i < max && k + i < t.len()
        invariant
            k <= t@.len(),
            max <= 8,
            b == 8 || b == 16,
            p == base_digit(b as nat),
            i <= max,
            k + i <= t.len(),
            v == numeral(t@.subrange(k as int, k + i), b as nat),
            v < pow_base(b as nat, i as nat),
            run_upto(t@, k as int, max as nat, p) == i + (if go {
                run_upto(t@, k + i, (max - i) as nat, p)
            } else {
                0
            }),
        decreases (max - i) * 2 + (if go {
            1int
        } else {
            0int
        }),
    {
        let c = t[k + i];
        let ok = if b == 8 {
            '0' <= c && c <= '7'
        } else {
            ('0' <= c && c <= '9') || ('a' <= c && c <= 'f') || ('A' <= c && c <= 'F')
        };
        proof {
            if b == 8 {
                assert(p(c) == is_octal(c));
            } else {
                assert(p(c) == is_hex(c));
            }
        }
        if ok {
            let d = hex_digit_exec(c);
            assert(t@.subrange(k as int, k + i + 1).drop_last() =~= t@.subrange(k as int, k + i));
            proof {
                lemma_pow_step(b as nat, i as nat, v as nat, d as nat);
            }
            v = v * b + d;
            i = i + 1;
        } else {
            go = false;
        }
    }
    (i, v)
}

/// `b` to the power `n`.
pub open spec fn pow_base(b: nat, n: nat) -> nat
    decreases n,
{
    if n == 0 {
        1
    } else {
        b * pow_base(b, (n - 1) as nat)
    }
}

proof fn lemma_pow_step(b: nat, i: nat, v: nat, d: nat)
    requires
        b == 8 || b == 16,
        i < 8,
        v < pow_base(b, i),
        d < b,
    ensures
        v * b + d < pow_base(b, i + 1),
        pow_base(b, i + 1) <= 0x1_0000_0000,
{
    assert(pow_base(b, i + 1) == b * pow_base(b, i));
    assert(v * b + d < pow_base(b, i + 1)) by (nonlinear_arith)
        requires
            v < pow_base(b, i),
            d < b,
            pow_base(b, i + 1) == b * pow_base(b, i),
    ;
    lemma_pow_bound(b, i + 1);
}

proof fn lemma_pow_bound(b: nat, n: nat)
    requires
        b == 8 || b == 16,
        n <= 8,
    ensures
        pow_base(b, n) <= 0x1_0000_0000,
{
    reveal_with_fuel(pow_base, 9);
    if n == 0 {
    } else if n == 1 {
    } else if n == 2 {
    } else if n == 3 {
    } else if n == 4 {
    } else if n == 5 {
    } else if n == 6 {
    } else if n == 7 {
    } else {
    }
}

pub proof fn lemma_run_upto(t: Seq<char>, k: int, max: nat, p: spec_fn(char) -> bool)
    requires
        0 <= k <= t.len(),
    ensures
        k + run_upto(t, k, max, p) <= t.len(),
        run_upto(t, k, max, p) <= max,
    decreases max,
{
    if max > 0 && k < t.len() && p(t[k]) {
        lemma_run_upto(t, k + 1, (max - 1) as nat, p);
    }
}

/// The character of a simple escape, if `e` names one.
fn simple_escape_exec(e: char) -> (r: Option<char>)
    ensures
        r == simple_escape(e),
{
    if e == 'a' {
        Some('\u{7}')
    } else if e == 'b' {
        Some('\u{8}')
    } else if e == 'e' || e == 'E' {
        Some('\u{1b}')
    } else if e == 'f' {
        Some('\u{c}')
    } else if e == 'n' {
        Some('\n')
    } else if e == 'r' {
        Some('\r')
    } else if e == 't' {
        Some('\t')
    } else if e == 'v' {
        Some('\u{b}')
    } else if e == '\\' || e == '\'' || e == '"' {
        Some(e)
    } else {
        None
    }
}

/// The body of an ANSI-C string with its escapes decoded.
pub fn parse_ansi_c_string(t: &[char]) -> (r: Vec<char>)
    ensures
        r@ == ansi_from(t@, 0),
{
    let n = t.len();
    let mut out: Vec<char> = Vec::new();
    let mut j: usize = 0;
    while j < n
        invariant
            n == t@.len(),
            j <= n,
            out@ + ansi_from(t@, j as int) == ansi_from(t@, 0),
        decreases n - j,
    {
        let ghost before = out@;
        let ghost rest = ansi_from(t@, j as int);
        let c = t[j];
        if c != '\\' {
            out.push(c);
            j = j + 1;
        } else if j + 1 >= n {
            out.push('\\');
            j = n;
        } else {
            let e = t[j + 1];
            let k = j + 2;
            match simple_escape_exec(e) {
                Some(x) => {
                    out.push(x);
                    j = k;
                },
                None => {
                    if e == 'x' {
                        let (h, v) = read_digits(t, k, 2, 16);
                        if h > 0 {
                            out.push((v as u8) as char);
                        }
                        j = k + h;
                    } else if e == 'u' || e == 'U' {
                        let max: usize = if e == 'u' {
                            4
                        } else {
                            8
                        };
                        let (h, v) = read_digits(t, k, max, 16);
                        if h > 0 {
                            match char_from_u32(v) {
                                Some(ch) => {
                                    out.push(ch);
                                },
                                None => {},
                            }
                        }
                        j = k + h;
                    } else if '0' <= e && e <= '9' {
                        if e <= '7' {
                            let (o3, v) = read_digits(t, j + 1, 3, 8);
                            proof {
                                lemma_run_upto(t@, k as int, 2, base_digit(8));
                            }
                            assert(o3 >= 1);
                            if v <= 255 {
                                out.push((v as u8) as char);
                            }
                            j = j + 1 + o3;
                        } else {
                            let (o, _v) = read_digits(t, k, 2, 8);
                            j = k + o;
                        }
                    } else {
                        out.push('\\');
                        out.push(e);
                        j = k;
                    }
                },
            }
        }
        assert(before + rest =~= out@ + ansi_from(t@, j as int));
    }
    assert(out@ + Seq::<char>::empty() =~= out@);
    out
}

/// The value of the decimal numeral `t`, at least that of each of its prefixes.
proof fn lemma_numeral_prefix(t: Seq<char>, i: int)
    requires
        0 <= i <= t.len(),
    ensures
        numeral(t.take(i), 10) <= numeral(t, 10),
    decreases t.len(),
{
    if i < t.len() {
        lemma_numeral_prefix(t.drop_last(), i);
        assert(t.drop_last().take(i) =~= t.take(i));
    } else {
        assert(t.take(i) =~= t);
    }
}

/// The value of an integer token, if it fits in an `i64` (`i64::from_str`).
pub fn int_value_exec(t: &[char]) -> (r: Option<i64>)
    requires
        t@.len() >= 1,
        forall|q: int| (if t@[0] == '-' { 1int } else { 0int }) <= q < t@.len() ==> '0' <= #[trigger] t@[q] <= '9',
    ensures
        r == int_value(t@),
{
    let n = t.len();
    let neg = t[0] == '-';
    let start: usize = if neg {
        1
    } else {
        0
    };
    let limit: u128 = if neg {
        0x8000_0000_0000_0000
    } else {
        0x7fff_ffff_ffff_ffff
    };
    let ghost digits = t@.subrange(start as int, n as int);
    assert(neg ==> digits =~= t@.drop_first());
    assert(!neg ==> digits =~= t@);
    let mut acc: u128 = 0;
    let mut i: usize = start;
    while i < n
        invariant
            n == t@.len(),
            start <= i <= n,
            start == (if neg { 1usize } else { 0usize }),
            neg == (t@[0] == '-'),
            digits == t@.subrange(start as int, n as int),
            forall|q: int| start <= q < n ==> '0' <= #[trigger] t@[q] <= '9',
            limit == (if neg { 0x8000_0000_0000_0000u128 } else { 0x7fff_ffff_ffff_ffffu128 }),
            acc == numeral(digits.take(i - start), 10),
            acc <= limit,
        decreases n - i,
    {
        let c = t[i];
        let d: u128 = ((c as u32) - ('0' as u32)) as u128;
        assert(digits.take(i - start + 1).drop_last() =~= digits.take(i - start));
        assert(digits.take(i - start + 1).last() == c);
        assert(acc * 10 + d <= 0x8000_0000_0000_0000 * 10 + 9) by (nonlinear_arith)
            requires
                acc <= 0x8000_0000_0000_0000,
                d <= 9,
        ;
        let next = acc * 10 + d;
        assert(d == hex_digit(c));
        assert(next == numeral(digits.take(i - start + 1), 10));
        if next > limit {
            proof {
                lemma_numeral_prefix(digits, i - start + 1);
            }
            assert(neg ==> digits =~= t@.drop_first());
            assert(!neg ==> digits =~= t@);
            return None;
        }
        acc = next;
        i = i + 1;
    }
    assert(digits.take(n - start) =~= digits);
    if neg {
        Some((0i128 - acc as i128) as i64)
    } else {
        Some(acc as i64)
    }
}

// ---------------------------------------------------------------------------
// Lexemes
// ---------------------------------------------------------------------------

pub proof fn lemma_dq_end(s: Seq<char>, p: int)
    requires
        0 <= p <= s.len(),
    ensures
        dq_end(s, p) matches Some(e) ==> p < e <= s.len(),
    decreases s.len() - p,
{
    if p < s.len() {
        let c = s[p];
        if c == '"' {
        } else if c == '\\' && p + 1 < s.len() {
            lemma_dq_end(s, p + 2);
        } else if c == '$' && p + 1 < s.len() && s[p + 1] == '(' {
            lemma_sub_skip(s, p + 2, 1);
            lemma_dq_end(s, sub_skip(s, p + 2, 1));
        } else {
            lemma_dq_end(s, p + 1);
        }
    }
}

pub proof fn lemma_cs_end(s: Seq<char>, p: int, depth: nat)
    requires
        0 <= p <= s.len(),
    ensures
        cs_end(s, p, depth) matches Some(e) ==> p <= e <= s.len() && (depth > 0 ==> p < e),
    decreases s.len() - p,
{
    if depth != 0 && p < s.len() {
        let c = s[p];
        if c == '(' {
            lemma_cs_end(s, p + 1, depth + 1);
        } else if c == ')' {
            lemma_cs_end(s, p + 1, (depth - 1) as nat);
        } else if c == '\'' {
            lemma_find_char(s, p + 1, '\'');
            let q = find_char(s, p + 1, '\'');
            if q < s.len() {
                lemma_cs_end(s, q + 1, depth);
            }
        } else if c == '"' {
            lemma_dq_skip(s, p + 1);
            let q = dq_skip(s, p + 1);
            if q < s.len() {
                lemma_cs_end(s, q + 1, depth);
            }
        } else {
            lemma_cs_end(s, p + 1, depth);
        }
    }
}

pub proof fn lemma_bt_end(s: Seq<char>, p: int)
    requires
        0 <= p <= s.len(),
    ensures
        bt_end(s, p) matches Some(e) ==> p < e <= s.len(),
    decreases s.len() - p,
{
    if p < s.len() && s[p] != '`' {
        if s[p] == '\\' && p + 1 < s.len() {
            lemma_bt_end(s, p + 2);
        } else {
            lemma_bt_end(s, p + 1);
        }
    }
}

/// Kinds whose tokens carry the matched text as it stands.
pub open spec fn carries_text(k: Kind) -> bool {
    k == Kind::GlobStar || k == Kind::GlobBracket || k == Kind::ShortFlag || k == Kind::LongFlag
        || k == Kind::PlusFlag || k == Kind::Identifier || k == Kind::BracedVariable || k
        == Kind::SpecialVariable || k == Kind::Variable || k == Kind::Path
}

/// Kinds that produce no token: blanks, line continuations and comments.
pub open spec fn skipped(k: Kind) -> bool {
    k == Kind::Blank || k == Kind::Comment
}

/// A token whose text runs from `i` to the end `e` that a scanner found.
pub open spec fn scanned(k: Kind, s: Seq<char>, i: int, end: Option<int>) -> Option<(TokenView, int)> {
    match end {
        Some(e) => Some((TokenView::Word(k, s.subrange(i, e)), e)),
        None => None,
    }
}

/// The token that a match of kind `k` and length `n` at `i` gives, with the
/// index where it ends, or `None` where the token is rejected (an
/// unterminated string or substitution, an integer out of range). Strings
/// and substitutions extend past their opening characters to their end.
pub open spec fn token_at(s: Seq<char>, i: int, k: Kind, n: int) -> Option<(TokenView, int)> {
    if k == Kind::DoubleQuote {
        scanned(k, s, i, dq_end(s, i + n))
    } else if k == Kind::SingleQuote {
        scanned(k, s, i, sq_end(s, i + n))
    } else if k == Kind::CommandSubstitution {
        scanned(k, s, i, cs_end(s, i + n, 1))
    } else if k == Kind::Backtick {
        scanned(k, s, i, bt_end(s, i + n))
    } else if k == Kind::AnsiC {
        Some((TokenView::Word(k, ansi_from(s.subrange(i + 2, i + n - 1), 0)), i + n))
    } else if k == Kind::Integer {
        match int_value(s.subrange(i, i + n)) {
            Some(v) => Some((TokenView::Integer(v), i + n)),
            None => None,
        }
    } else if k == Kind::Float {
        Some((TokenView::Float(s.subrange(i, i + n)), i + n))
    } else if carries_text(k) {
        let w = if k == Kind::GlobBracket {
            Kind::GlobStar
        } else {
            k
        };
        Some((TokenView::Word(w, s.subrange(i, i + n)), i + n))
    } else {
        Some((TokenView::Fixed(k), i + n))
    }
}

/// A token found at `i` ends past `i + n - 1` and within `s`.
pub proof fn lemma_token_at_bound(s: Seq<char>, i: int, k: Kind, n: int)
    requires
        0 <= i,
        1 <= n,
        i + n <= s.len(),
    ensures
        token_at(s, i, k, n) matches Some((t, e)) ==> i < e <= s.len(),
{
    lemma_dq_end(s, i + n);
    lemma_find_char(s, i + n, '\'');
    lemma_cs_end(s, i + n, 1);
    lemma_bt_end(s, i + n);
}

/// What the lexer finds from `i`: the end of the input, a token with its
/// start and end, or text no token matches, with its start and end.
pub enum Step {
    End,
    Lexeme(TokenView, int, int),
    Invalid(int, int),
}

/// The next step of the lexer from `i`: blanks, line continuations and
/// comments are passed over; text where no pattern matches is invalid for
/// one character, and a rejected token for the length of its match.
pub open spec fn next_step(s: Seq<char>, i: int) -> Step
    decreases s.len() - i,
{
    if i < 0 || i >= s.len() {
        Step::End
    } else {
        match scan_at(s, i) {
            None => Step::Invalid(i, i + 1),
            Some((k, n)) => {
                proof {
                    lemma_scan_at_bound(s, i);
                }
                if skipped(k) {
                    next_step(s, i + n)
                } else {
                    match token_at(s, i, k, n) {
                        Some((t, e)) => Step::Lexeme(t, i, e),
                        None => Step::Invalid(i, i + n),
                    }
                }
            },
        }
    }
}

pub proof fn lemma_next_step(s: Seq<char>, i: int)
    requires
        0 <= i <= s.len(),
    ensures
        next_step(s, i) matches Step::Lexeme(t, a, e) ==> i <= a < e <= s.len(),
        next_step(s, i) matches Step::Invalid(a, e) ==> i <= a < e <= s.len(),
    decreases s.len() - i,
{
    if i < s.len() {
        lemma_scan_at_bound(s, i);
        match scan_at(s, i) {
            None => {},
            Some((k, n)) => {
                if skipped(k) {
                    lemma_next_step(s, i + n);
                } else {
                    lemma_token_at_bound(s, i, k, n);
                }
            },
        }
    }
}

/// The lexemes of `s` from `i` with their starts and ends, or the start and
/// end of the first text that no token matches.
pub open spec fn lex_from(s: Seq<char>, i: int) -> Result<Seq<(TokenView, int, int)>, (int, int)>
    decreases s.len() - i,
{
    if i < 0 || i > s.len() {
        Ok(Seq::empty())
    } else {
        proof {
            lemma_next_step(s, i);
        }
        match next_step(s, i) {
            Step::End => Ok(Seq::empty()),
            Step::Invalid(a, e) => Err((a, e)),
            Step::Lexeme(t, a, e) => match lex_from(s, e) {
                Ok(rest) => Ok(seq![(t, a, e)] + rest),
                Err(x) => Err(x),
            },
        }
    }
}

/// Kinds whose tokens carry nothing: fixed text, newlines and comments.
pub open spec fn fixed_kind(k: Kind) -> bool {
    crate::scan::literal(k) is Some || k == Kind::Newline || k == Kind::Comment
}

/// The token of a kind that carries nothing.
fn fixed_token(k: Kind) -> (t: Token)
    requires
        fixed_kind(k),
    ensures
        t@ == TokenView::Fixed(k),
{
    match k {
        Kind::Let => Token::Let,
        Kind::If => Token::If,
        Kind::Else => Token::Else,
        Kind::Then => Token::Then,
        Kind::Elif => Token::Elif,
        Kind::Fi => Token::Fi,
        Kind::Fn => Token::Fn,
        Kind::Match => Token::Match,
        Kind::For => Token::For,
        Kind::In => Token::In,
        Kind::While => Token::While,
        Kind::Do => Token::Do,
        Kind::Done => Token::Done,
        Kind::Until => Token::Until,
        Kind::Function => Token::Function,
        Kind::Case => Token::Case,
        Kind::Esac => Token::Esac,
        Kind::Equals => Token::Equals,
        Kind::DoubleEquals => Token::DoubleEquals,
        Kind::NotEquals => Token::NotEquals,
        Kind::GreaterThanOrEqual => Token::GreaterThanOrEqual,
        Kind::LessThanOrEqual => Token::LessThanOrEqual,
        Kind::GreaterThan => Token::GreaterThan,
        Kind::ParallelPipe => Token::ParallelPipe,
        Kind::PipeAsk => Token::PipeAsk,
        Kind::Pipe => Token::Pipe,
        Kind::And => Token::And,
        Kind::Ampersand => Token::Ampersand,
        Kind::Or => Token::Or,
        Kind::Bang => Token::Bang,
        Kind::LeftParen => Token::LeftParen,
        Kind::RightParen => Token::RightParen,
        Kind::LeftBrace => Token::LeftBrace,
        Kind::RightBrace => Token::RightBrace,
        Kind::LeftBracket => Token::LeftBracket,
        Kind::RightBracket => Token::RightBracket,
        Kind::DoubleSemicolon => Token::DoubleSemicolon,
        Kind::Semicolon => Token::Semicolon,
        Kind::Colon => Token::Colon,
        Kind::Comma => Token::Comma,
        Kind::Dot => Token::Dot,
        Kind::Arrow => Token::Arrow,
        Kind::FatArrow => Token::FatArrow,
        Kind::Dash => Token::Dash,
        Kind::DoubleDash => Token::DoubleDash,
        Kind::Tilde => Token::Tilde,
        Kind::StdoutAppend => Token::StdoutAppend,
        Kind::StderrToStdout => Token::StderrToStdout,
        Kind::StderrRedirect => Token::StderrRedirect,
        Kind::BothRedirect => Token::BothRedirect,
        Kind::HereDocStrip => Token::HereDocStrip,
        Kind::HereDoc => Token::HereDoc,
        Kind::StdinRedirect => Token::StdinRedirect,
        Kind::Newline => Token::Newline,
        Kind::CrLf => Token::CrLf,
        Kind::Comment => Token::Comment,
        _ => Token::Adjacent,
    }
}

/// The characters `v[a..b]`.
pub fn chars_range_pub(v: &[char], a: usize, b: usize) -> (r: Vec<char>)
    requires
        a <= b <= v@.len(),
    ensures
        r@ == v@.subrange(a as int, b as int),
{
    let mut r: Vec<char> = Vec::new();
    let mut i: usize = a;
    while i < b
        invariant
            a <= i <= b <= v@.len(),
            r@ == v@.subrange(a as int, i as int),
        decreases b - i,
    {
        r.push(v[i]);
        assert(v@.subrange(a as int, i as int).push(v@[i as int]) =~= v@.subrange(a as int, i + 1));
        i = i + 1;
    }
    r
}

/// The token of a match of kind `k` and length `n` at `i`, with its end.
fn token_at_exec(s: &[char], i: usize, k: Kind, n: usize) -> (r: Option<(Token, usize)>)
    requires
        1 <= n,
        i + n <= s.len(),
        n == crate::scan::match_len(k, s@, i as int),
        !skipped(k),
    ensures
        r matches Some((t, e)) ==> token_at(s@, i as int, k, n as int) == Some((t@, e as int)),
        r is None ==> token_at(s@, i as int, k, n as int) is None,
{
    proof {
        lemma_token_at_bound(s@, i as int, k, n as int);
    }
    if k == Kind::DoubleQuote {
        match parse_double_quoted_string(s, i + n) {
            Some(e) => Some((Token::String(string_of_range(s, i, e)), e)),
            None => None,
        }
    } else if k == Kind::SingleQuote {
        match parse_single_quoted_string(s, i + n) {
            Some(e) => Some((Token::SingleQuotedString(string_of_range(s, i, e)), e)),
            None => None,
        }
    } else if k == Kind::CommandSubstitution {
        match parse_command_substitution(s, i + n) {
            Some(e) => Some((Token::CommandSubstitution(string_of_range(s, i, e)), e)),
            None => None,
        }
    } else if k == Kind::Backtick {
        match parse_backtick_substitution(s, i + n) {
            Some(e) => Some((Token::BacktickSubstitution(string_of_range(s, i, e)), e)),
            None => None,
        }
    } else if k == Kind::AnsiC {
        proof {
            crate::scan::lemma_ansi_c_end_bounds(s@, i + 2);
        }
        let body = chars_range_pub(s, i + 2, i + n - 1);
        let decoded = parse_ansi_c_string(body.as_slice());
        Some((Token::AnsiCString(string_of(decoded.as_slice())), i + n))
    } else if k == Kind::Integer {
        let t = chars_range_pub(s, i, i + n);
        proof {
            let j = crate::scan::after_sign(s@, i as int);
            crate::scan::lemma_run_bound(s@, j, crate::scan::class(5));
            assert forall|q: int|
                (if t@[0] == '-' { 1int } else { 0int }) <= q < t@.len() implies '0' <= #[trigger] t@[q]
                <= '9' by {
                assert(crate::scan::class(5)(s@[i + q]));
            }
        }
        match int_value_exec(t.as_slice()) {
            Some(v) => Some((Token::Integer(v), i + n)),
            None => None,
        }
    } else if k == Kind::Float {
        Some((Token::Float(string_of_range(s, i, i + n)), i + n))
    } else if k == Kind::GlobStar || k == Kind::GlobBracket {
        Some((Token::GlobPattern(string_of_range(s, i, i + n)), i + n))
    } else if k == Kind::ShortFlag {
        Some((Token::ShortFlag(string_of_range(s, i, i + n)), i + n))
    } else if k == Kind::LongFlag {
        Some((Token::LongFlag(string_of_range(s, i, i + n)), i + n))
    } else if k == Kind::PlusFlag {
        Some((Token::PlusFlag(string_of_range(s, i, i + n)), i + n))
    } else if k == Kind::Identifier {
        Some((Token::Identifier(string_of_range(s, i, i + n)), i + n))
    } else if k == Kind::BracedVariable {
        Some((Token::BracedVariable(string_of_range(s, i, i + n)), i + n))
    } else if k == Kind::SpecialVariable {
        Some((Token::SpecialVariable(string_of_range(s, i, i + n)), i + n))
    } else if k == Kind::Variable {
        Some((Token::Variable(string_of_range(s, i, i + n)), i + n))
    } else if k == Kind::Path {
        Some((Token::Path(string_of_range(s, i, i + n)), i + n))
    } else {
        Some((fixed_token(k), i + n))
    }
}

/// One step of the lexer as the executable code reports it.
pub enum Scanned {
    End,
    Lexeme(Token, usize, usize),
    Invalid(usize, usize),
}

/// `r` reports the step `st`.
pub open spec fn reports(r: Scanned, st: Step) -> bool {
    match st {
        Step::End => r is End,
        Step::Lexeme(tv, a, e) => r matches Scanned::Lexeme(t, a2, e2) && t@ == tv && a2 == a && e2
            == e,
        Step::Invalid(a, e) => r matches Scanned::Invalid(a2, e2) && a2 == a && e2 == e,
    }
}

/// The next step of the lexer from `i`.
pub fn next_step_exec(s: &[char], i: usize) -> (r: Scanned)
    requires
        i <= s.len(),
    ensures
        reports(r, next_step(s@, i as int)),
{
    let n = s.len();
    let mut j: usize = i;
    proof {
        lemma_next_step(s@, i as int);
    }
    loop
        invariant
            n == s@.len(),
            i <= j <= n,
            next_step(s@, i as int) == next_step(s@, j as int),
        decreases n - j,
    {
        if j >= n {
            return Scanned::End;
        }
        proof {
            lemma_scan_at_bound(s@, j as int);
        }
        match scan_at_exec(s, j) {
            None => {
                return Scanned::Invalid(j, j + 1);
            },
            Some((k, m)) => {
                if k == Kind::Blank || k == Kind::Comment {
                    j = j + m;
                } else {
                    match token_at_exec(s, j, k, m) {
                        Some((t, e)) => {
                            return Scanned::Lexeme(t, j, e);
                        },
                        None => {
                            return Scanned::Invalid(j, j + m);
                        },
                    }
                }
            },
        }
    }
}

// ---------------------------------------------------------------------------
// Adjacent word parts
// ---------------------------------------------------------------------------

/// Tokens that can be part of a shell word.
pub open spec fn word_component(t: TokenView) -> bool {
    match t {
        TokenView::Word(k, _) => k == Kind::DoubleQuote || k == Kind::SingleQuote || k == Kind::AnsiC
            || k == Kind::Identifier || k == Kind::Variable || k == Kind::SpecialVariable || k
            == Kind::BracedVariable || k == Kind::CommandSubstitution || k == Kind::Backtick || k
            == Kind::Path || k == Kind::GlobStar,
        TokenView::Fixed(k) => k == Kind::Tilde,
        TokenView::Integer(_) => true,
        TokenView::Float(_) => true,
        _ => false,
    }
}

/// Two lexemes form one word: the first ends where the second starts and
/// both can be parts of a word.
pub open spec fn joined(x: (TokenView, int, int), y: (TokenView, int, int)) -> bool {
    x.2 == y.1 && word_component(x.0) && word_component(y.0)
}

/// The tokens of the lexemes `ls`, with `Adjacent` between two that form
/// one word.
pub open spec fn mark_adjacent(ls: Seq<(TokenView, int, int)>) -> Seq<TokenView>
    decreases ls.len(),
{
    if ls.len() == 0 {
        Seq::empty()
    } else {
        seq![ls[0].0] + (if ls.len() >= 2 && joined(ls[0], ls[1]) {
            seq![TokenView::Adjacent]
        } else {
            Seq::empty()
        }) + mark_adjacent(ls.drop_first())
    }
}

/// Whether a token can be part of a shell word.
pub fn is_word_component(t: &Token) -> (b: bool)
    ensures
        b == word_component(t@),
{
    match t {
        Token::String(_) | Token::SingleQuotedString(_) | Token::AnsiCString(_) | Token::Identifier(_)
        | Token::Variable(_) | Token::SpecialVariable(_) | Token::BracedVariable(_)
        | Token::CommandSubstitution(_) | Token::BacktickSubstitution(_) | Token::Path(_)
        | Token::Tilde | Token::Integer(_) | Token::Float(_) | Token::GlobPattern(_) => true,
        _ => false,
    }
}

/// The views of a sequence of tokens.
pub open spec fn token_views(v: Seq<Token>) -> Seq<TokenView> {
    v.map_values(|t: Token| t@)
}

/// The lexemes that the vectors of tokens, starts and ends hold together.
pub open spec fn lexemes(toks: Seq<Token>, starts: Seq<usize>, ends: Seq<usize>) -> Seq<(TokenView, int, int)> {
    Seq::new(toks.len(), |j: int| (toks[j]@, starts[j] as int, ends[j] as int))
}

/// Inserts `Adjacent` between tokens that form one word.
fn mark_adjacent_exec(toks: &Vec<Token>, starts: &Vec<usize>, ends: &Vec<usize>) -> (r: Vec<Token>)
    requires
        toks@.len() == starts@.len() == ends@.len(),
    ensures
        token_views(r@) == mark_adjacent(lexemes(toks@, starts@, ends@)),
{
    let ghost ls = lexemes(toks@, starts@, ends@);
    let n = toks.len();
    let mut out: Vec<Token> = Vec::new();
    let mut i: usize = 0;
    assert(ls.skip(0) =~= ls);
    assert(token_views(out@) =~= Seq::<TokenView>::empty());
    assert(Seq::<TokenView>::empty() + mark_adjacent(ls) =~= mark_adjacent(ls));
    while i < n
        invariant
            n == toks@.len() == starts@.len() == ends@.len(),
            ls == lexemes(toks@, starts@, ends@),
            i <= n,
            token_views(out@) + mark_adjacent(ls.skip(i as int)) == mark_adjacent(ls),
        decreases n - i,
    {
        let ghost before = token_views(out@);
        let ghost rest = ls.skip(i as int);
        assert(rest.drop_first() =~= ls.skip(i + 1));
        assert(rest[0] == ls[i as int]);
        out.push(toks[i].duplicate());
        if i + 1 < n && ends[i] == starts[i + 1] && is_word_component(&toks[i]) && is_word_component(
            &toks[i + 1],
        ) {
            assert(rest[1] == ls[i + 1]);
            out.push(Token::Adjacent);
        }
        assert(before + mark_adjacent(rest) =~= token_views(out@) + mark_adjacent(ls.skip(i + 1)));
        i = i + 1;
    }
    assert(mark_adjacent(ls.skip(n as int)) =~= Seq::<TokenView>::empty());
    assert(token_views(out@) + Seq::<TokenView>::empty() =~= token_views(out@));
    out
}

// ---------------------------------------------------------------------------
// Lines
// ---------------------------------------------------------------------------

/// A line without the carriage return of a `\r\n` ending.
pub open spec fn chomp_cr(l: Seq<char>) -> Seq<char> {
    if l.len() > 0 && l.last() == '\r' {
        l.drop_last()
    } else {
        l
    }
}

/// The lines of `s` from `p` (`str::lines`): split at `\n`, a `\r` before
/// a `\n` dropped, no empty line after a final `\n`.
pub open spec fn lines_from(s: Seq<char>, p: int) -> Seq<Seq<char>>
    decreases s.len() - p,
{
    if p < 0 || p >= s.len() {
        Seq::empty()
    } else {
        proof {
            lemma_find_char(s, p, '\n');
        }
        let k = find_char(s, p, '\n');
        if k < s.len() {
            seq![chomp_cr(s.subrange(p, k))] + lines_from(s, k + 1)
        } else {
            seq![s.subrange(p, s.len() as int)]
        }
    }
}

/// The views of a sequence of character vectors.
pub open spec fn line_views(v: Seq<Vec<char>>) -> Seq<Seq<char>> {
    v.map_values(|l: Vec<char>| l@)
}

/// The lines of `s`.
pub fn split_lines(s: &[char]) -> (r: Vec<Vec<char>>)
    ensures
        line_views(r@) == lines_from(s@, 0),
{
    let n = s.len();
    let mut out: Vec<Vec<char>> = Vec::new();
    let mut p: usize = 0;
    while p < n
        invariant
            n == s@.len(),
            p <= n,
            line_views(out@) + lines_from(s@, p as int) == lines_from(s@, 0),
        decreases n - p,
    {
        let ghost before = line_views(out@);
        let ghost rest = lines_from(s@, p as int);
        let k = find_char_exec(s, p, '\n');
        if k < n {
            let mut line = chars_range_pub(s, p, k);
            if k > p && s[k - 1] == '\r' {
                line.pop();
            }
            assert(line@ == chomp_cr(s@.subrange(p as int, k as int)));
            out.push(line);
            p = k + 1;
        } else {
            let line = chars_range_pub(s, p, n);
            out.push(line);
            p = n;
            assert(lines_from(s@, p as int) =~= Seq::<Seq<char>>::empty());
        }
        assert(before + rest =~= line_views(out@) + lines_from(s@, p as int));
    }
    assert(line_views(out@) + Seq::<Seq<char>>::empty() =~= line_views(out@));
    out
}

// ---------------------------------------------------------------------------
// Here-documents
// ---------------------------------------------------------------------------

/// Whether a token ends a line.
pub open spec fn is_line_end(t: TokenView) -> bool {
    t == TokenView::Fixed(Kind::Newline) || t == TokenView::Fixed(Kind::CrLf)
}

/// The number of tokens in `ts` that end a line.
pub open spec fn count_line_ends(ts: Seq<TokenView>) -> nat
    decreases ts.len(),
{
    if ts.len() == 0 {
        0
    } else {
        count_line_ends(ts.drop_last()) + (if is_line_end(ts.last()) {
            1nat
        } else {
            0nat
        })
    }
}

/// The number of characters `c` at the start of `s` from `i`.
pub open spec fn lead_count(s: Seq<char>, c: char, i: int) -> int
    decreases s.len() - i,
{
    if 0 <= i < s.len() && s[i] == c {
        1 + lead_count(s, c, i + 1)
    } else {
        0
    }
}

/// The number of characters `c` that end `s.take(j)`.
pub open spec fn trail_count(s: Seq<char>, c: char, j: int) -> int
    decreases j,
{
    if 0 < j <= s.len() && s[j - 1] == c {
        1 + trail_count(s, c, j - 1)
    } else {
        0
    }
}

/// `s` without the characters `c` at its start (`trim_start_matches`).
pub open spec fn trim_start_char(s: Seq<char>, c: char) -> Seq<char> {
    s.skip(lead_count(s, c, 0))
}

/// `s` without the characters `c` at its start and end (`trim_matches`).
pub open spec fn trim_char(s: Seq<char>, c: char) -> Seq<char> {
    let t = trim_start_char(s, c);
    t.take(t.len() - trail_count(t, c, t.len() as int))
}

pub proof fn lemma_lead_count(s: Seq<char>, c: char, i: int)
    requires
        0 <= i <= s.len(),
    ensures
        0 <= lead_count(s, c, i) <= s.len() - i,
    decreases s.len() - i,
{
    if i < s.len() && s[i] == c {
        lemma_lead_count(s, c, i + 1);
    }
}

pub proof fn lemma_trail_count(s: Seq<char>, c: char, j: int)
    requires
        0 <= j <= s.len(),
    ensures
        0 <= trail_count(s, c, j) <= j,
    decreases j,
{
    if 0 < j && s[j - 1] == c {
        lemma_trail_count(s, c, j - 1);
    }
}

/// The bounds of `v` without the characters `c` at its start and end.
fn trim_char_bounds(v: &[char], c: char) -> (r: (usize, usize))
    ensures
        r.0 <= r.1 <= v@.len(),
        v@.subrange(r.0 as int, r.1 as int) == trim_char(v@, c),
        r.0 == lead_count(v@, c, 0),
{
    let n = v.len();
    let mut a: usize = 0;
    while a < n && v[a] == c
        invariant
            n == v@.len(),
            a <= n,
            lead_count(v@, c, 0) == a + lead_count(v@, c, a as int),
        decreases n - a,
    {
        a = a + 1;
    }
    let ghost t = v@.skip(a as int);
    let mut b: usize = n;
    while b > a && v[b - 1] == c
        invariant
            n == v@.len(),
            a <= b <= n,
            t == v@.skip(a as int),
            trail_count(t, c, t.len() as int) == (n - b) + trail_count(t, c, b - a),
        decreases b,
    {
        assert(t[b - a - 1] == v@[b - 1]);
        b = b - 1;
    }
    assert(v@.subrange(a as int, b as int) =~= t.take(t.len() - trail_count(t, c, t.len() as int)));
    (a, b)
}

/// The delimiter that a token after `<<` gives, and whether the body's
/// variables are expanded: a word as it stands, expanded; a quoted string
/// without its quotes, not expanded.
pub open spec fn delimiter(t: TokenView) -> Option<(Seq<char>, bool)> {
    match t {
        TokenView::Word(k, w) => if k == Kind::Identifier {
            Some((w, true))
        } else if k == Kind::SingleQuote {
            Some((trim_char(w, '\''), false))
        } else if k == Kind::DoubleQuote {
            Some((trim_char(w, '"'), false))
        } else {
            None
        },
        _ => None,
    }
}

/// A body line as it is kept: without its leading tabs under `<<-`.
pub open spec fn body_line(line: Seq<char>, strip: bool) -> Seq<char> {
    if strip {
        trim_start_char(line, '\t')
    } else {
        line
    }
}

/// The index of the first line from `j` that, kept as a body line and
/// trimmed, is the delimiter `d`; the number of lines if none is.
pub open spec fn find_delimiter(lines: Seq<Seq<char>>, j: int, d: Seq<char>, strip: bool) -> int
    decreases lines.len() - j,
{
    if j < 0 || j >= lines.len() {
        lines.len() as int
    } else if crate::text::trim(body_line(lines[j], strip)) == d {
        j
    } else {
        find_delimiter(lines, j + 1, d, strip)
    }
}

pub proof fn lemma_find_delimiter(lines: Seq<Seq<char>>, j: int, d: Seq<char>, strip: bool)
    requires
        0 <= j,
    ensures
        find_delimiter(lines, j, d, strip) < lines.len() ==> j <= find_delimiter(lines, j, d, strip),
        find_delimiter(lines, j, d, strip) <= lines.len(),
    decreases lines.len() - j,
{
    if j < lines.len() && crate::text::trim(body_line(lines[j], strip)) != d {
        lemma_find_delimiter(lines, j + 1, d, strip);
    }
}

/// The lines `a..b` as they are kept in a body.
pub open spec fn kept_lines(lines: Seq<Seq<char>>, a: int, b: int, strip: bool) -> Seq<Seq<char>> {
    lines.subrange(a, b).map_values(|l: Seq<char>| body_line(l, strip))
}

/// The body of a here-document whose lines start at `start`: the body lines
/// before the delimiter's line, each followed by a newline; empty when no
/// line holds the delimiter.
pub open spec fn heredoc_body(lines: Seq<Seq<char>>, start: int, d: Seq<char>, strip: bool) -> Seq<char> {
    let f = find_delimiter(lines, start, d, strip);
    if f < lines.len() && start < f {
        crate::text::join(kept_lines(lines, start, f, strip), seq!['\n']) + seq!['\n']
    } else {
        Seq::empty()
    }
}

/// The index after passing `r` line ends from `k`.
pub open spec fn skip_lines(ts: Seq<TokenView>, k: int, r: nat) -> int
    decreases ts.len() - k,
{
    if k < 0 || k >= ts.len() || r == 0 {
        k
    } else {
        skip_lines(ts, k + 1, if is_line_end(ts[k]) {
            (r - 1) as nat
        } else {
            r
        })
    }
}

/// The index of the first line end at or after `k`, or the end of `ts`.
pub open spec fn skip_to_line_end(ts: Seq<TokenView>, k: int) -> int
    decreases ts.len() - k,
{
    if k < 0 || k >= ts.len() || is_line_end(ts[k]) {
        k
    } else {
        skip_to_line_end(ts, k + 1)
    }
}

pub proof fn lemma_skips(ts: Seq<TokenView>, k: int, r: nat)
    requires
        0 <= k <= ts.len(),
    ensures
        k <= skip_lines(ts, k, r) <= ts.len(),
        k <= skip_to_line_end(ts, k) <= ts.len(),
    decreases ts.len() - k,
{
    if k < ts.len() {
        if r > 0 {
            lemma_skips(
                ts,
                k + 1,
                if is_line_end(ts[k]) {
                    (r - 1) as nat
                } else {
                    r
                },
            );
        }
        if !is_line_end(ts[k]) {
            lemma_skips(ts, k + 1, 0);
        }
    }
}

/// The tokens from `i` with here-documents resolved, after the tokens `out`
/// already resolved. A `<<` or `<<-` followed by a delimiter becomes the
/// operator and a body token; the body is taken from the source lines after
/// the line of the operator, up to the delimiter's line, and the tokens of
/// those lines, and of the rest of the delimiter's line, are dropped. An
/// operator without a delimiter stays as it is.
pub open spec fn resolve_from(ts: Seq<TokenView>, lines: Seq<Seq<char>>, i: int, out: Seq<TokenView>) -> Seq<TokenView>
    decreases ts.len() - i,
{
    if i < 0 || i >= ts.len() {
        out
    } else {
        let t = ts[i];
        if t != TokenView::Fixed(Kind::HereDoc) && t != TokenView::Fixed(Kind::HereDocStrip) {
            resolve_from(ts, lines, i + 1, out.push(t))
        } else if i + 1 >= ts.len() {
            resolve_from(ts, lines, i + 1, out.push(t))
        } else {
            match delimiter(ts[i + 1]) {
                None => resolve_from(ts, lines, i + 1, out.push(t)),
                Some((d, expand)) => {
                    let strip = t == TokenView::Fixed(Kind::HereDocStrip);
                    let nc = count_line_ends(out) as int;
                    let f = find_delimiter(lines, nc + 1, d, strip);
                    let body = heredoc_body(lines, nc + 1, d, strip);
                    let skip: nat = if f < lines.len() {
                        (f - nc) as nat
                    } else {
                        0
                    };
                    proof {
                        lemma_skips(ts, i + 2, skip);
                        lemma_skips(ts, skip_lines(ts, i + 2, skip), 0);
                    }
                    let k = skip_to_line_end(ts, skip_lines(ts, i + 2, skip));
                    resolve_from(
                        ts,
                        lines,
                        k,
                        out.push(TokenView::HereDocBody(body, expand, strip)),
                    )
                },
            }
        }
    }
}

/// Whether a token ends a line.
fn is_line_end_exec(t: &Token) -> (b: bool)
    ensures
        b == is_line_end(t@),
{
    match t {
        Token::Newline | Token::CrLf => true,
        _ => false,
    }
}

/// The delimiter that a token after `<<` gives, and whether the body's
/// variables are expanded.
fn delimiter_exec(t: &Token) -> (r: Option<(Vec<char>, bool)>)
    ensures
        r matches Some((d, e)) ==> delimiter(t@) == Some((d@, e)),
        r is None ==> delimiter(t@) is None,
{
    match t {
        Token::Identifier(w) => Some((crate::text::chars_of(w.as_str()), true)),
        Token::SingleQuotedString(w) => {
            let v = crate::text::chars_of(w.as_str());
            let (a, b) = trim_char_bounds(v.as_slice(), '\'');
            Some((chars_range_pub(v.as_slice(), a, b), false))
        },
        Token::String(w) => {
            let v = crate::text::chars_of(w.as_str());
            let (a, b) = trim_char_bounds(v.as_slice(), '"');
            Some((chars_range_pub(v.as_slice(), a, b), false))
        },
        _ => None,
    }
}

/// A body line as it is kept.
fn body_line_exec(l: &[char], strip: bool) -> (r: Vec<char>)
    ensures
        r@ == body_line(l@, strip),
{
    if strip {
        let (a, _b) = trim_char_bounds(l, '\t');
        proof {
            lemma_lead_count(l@, '\t', 0);
        }
        let r = chars_range_pub(l, a, l.len());
        assert(r@ =~= l@.skip(a as int));
        r
    } else {
        chars_range_pub(l, 0, l.len())
    }
}

/// Looks for the delimiter from line `start`: the index of its line (the
/// number of lines if none holds it) and the body.
fn collect_body(lines: &Vec<Vec<char>>, start: usize, d: &[char], strip: bool) -> (r: (usize, Vec<char>))
    ensures
        r.0 == find_delimiter(line_views(lines@), start as int, d@, strip),
        r.1@ == heredoc_body(line_views(lines@), start as int, d@, strip),
{
    let ghost ls = line_views(lines@);
    let n = lines.len();
    if start >= n {
        return (n, Vec::new());
    }
    let mut idx: usize = start;
    let mut acc: Vec<char> = Vec::new();
    while idx < n
        invariant
            ls == line_views(lines@),
            n == lines@.len(),
            start < n,
            start <= idx <= n,
            find_delimiter(ls, start as int, d@, strip) == find_delimiter(ls, idx as int, d@, strip),
            acc@ == crate::text::join(kept_lines(ls, start as int, idx as int, strip), seq!['\n']),
        decreases n - idx,
    {
        let bl = body_line_exec(lines[idx].as_slice(), strip);
        assert(lines@[idx as int]@ == ls[idx as int]);
        let (a, b) = crate::text::trim_bounds(bl.as_slice());
        let trimmed = chars_range_pub(bl.as_slice(), a, b);
        if crate::text::chars_eq(trimmed.as_slice(), d) {
            if idx > start {
                acc.push('\n');
                return (idx, acc);
            } else {
                return (idx, Vec::new());
            }
        }
        let ghost prev = kept_lines(ls, start as int, idx as int, strip);
        let ghost next = kept_lines(ls, start as int, idx + 1, strip);
        assert(next.drop_last() =~= prev);
        assert(next.last() == bl@);
        if idx > start {
            acc.push('\n');
        }
        let mut q: usize = 0;
        let ghost acc0 = acc@;
        while q < bl.len()
            invariant
                q <= bl@.len(),
                acc@ == acc0 + bl@.take(q as int),
            decreases bl@.len() - q,
        {
            acc.push(bl[q]);
            assert(bl@.take(q + 1) =~= bl@.take(q as int).push(bl@[q as int]));
            q = q + 1;
        }
        assert(bl@.take(bl@.len() as int) =~= bl@);
        if idx == start {
            assert(acc@ =~= bl@);
        } else {
            assert(acc@ =~= crate::text::join(prev, seq!['\n']) + seq!['\n'] + bl@);
        }
        idx = idx + 1;
    }
    (n, Vec::new())
}

/// The index after passing `r` line ends from `k`.
fn skip_lines_exec(tokens: &Vec<Token>, k: usize, r: usize) -> (e: usize)
    requires
        k <= tokens@.len(),
    ensures
        e == skip_lines(token_views(tokens@), k as int, r as nat),
        k <= e <= tokens@.len(),
{
    let ghost ts = token_views(tokens@);
    proof {
        lemma_skips(ts, k as int, r as nat);
    }
    let mut j: usize = k;
    let mut left: usize = r;
    while j < tokens.len() && left > 0
        invariant
            ts == token_views(tokens@),
            k <= j <= tokens@.len(),
            skip_lines(ts, k as int, r as nat) == skip_lines(ts, j as int, left as nat),
        decreases tokens@.len() - j,
    {
        if is_line_end_exec(&tokens[j]) {
            left = left - 1;
        }
        j = j + 1;
    }
    j
}

/// The index of the first line end at or after `k`.
fn skip_to_line_end_exec(tokens: &Vec<Token>, k: usize) -> (e: usize)
    requires
        k <= tokens@.len(),
    ensures
        e == skip_to_line_end(token_views(tokens@), k as int),
        k <= e <= tokens@.len(),
{
    let ghost ts = token_views(tokens@);
    let mut j: usize = k;
    while j < tokens.len() && !is_line_end_exec(&tokens[j])
        invariant
            ts == token_views(tokens@),
            k <= j <= tokens@.len(),
            skip_to_line_end(ts, k as int) == skip_to_line_end(ts, j as int),
        decreases tokens@.len() - j,
    {
        j = j + 1;
    }
    j
}

/// Appends a token, counting the line ends of the result.
fn push_token(out: &mut Vec<Token>, nl: &mut usize, t: Token)
    requires
        *old(nl) == count_line_ends(token_views(old(out)@)),
        old(out)@.len() < usize::MAX,
    ensures
        token_views(final(out)@) == token_views(old(out)@).push(t@),
        *final(nl) == count_line_ends(token_views(final(out)@)),
        final(out)@.len() == old(out)@.len() + 1,
{
    let end = is_line_end_exec(&t);
    proof {
        lemma_count_line_ends_bound(token_views(out@));
    }
    out.push(t);
    assert(token_views(out@).drop_last() =~= token_views(old(out)@));
    if end {
        *nl = *nl + 1;
    }
}

proof fn lemma_count_line_ends_bound(ts: Seq<TokenView>)
    ensures
        count_line_ends(ts) <= ts.len(),
    decreases ts.len(),
{
    if ts.len() > 0 {
        lemma_count_line_ends_bound(ts.drop_last());
    }
}

/// The tokens with here-documents resolved against the source lines.
pub fn resolve_heredocs(tokens: &Vec<Token>, lines: &Vec<Vec<char>>) -> (r: Vec<Token>)
    ensures
        token_views(r@) == resolve_from(token_views(tokens@), line_views(lines@), 0, Seq::empty()),
{
    let ghost ts = token_views(tokens@);
    let ghost ls = line_views(lines@);
    let n = tokens.len();
    let mut out: Vec<Token> = Vec::new();
    let mut nl: usize = 0;
    let mut i: usize = 0;
    assert(token_views(out@) =~= Seq::<TokenView>::empty());
    while i < n
        invariant
            ts == token_views(tokens@),
            ls == line_views(lines@),
            n == tokens@.len(),
            i <= n,
            out@.len() <= i,
            nl == count_line_ends(token_views(out@)),
            resolve_from(ts, ls, i as int, token_views(out@)) == resolve_from(ts, ls, 0, Seq::empty()),
        decreases n - i,
    {
        let t = &tokens[i];
        assert(ts[i as int] == t@);
        let op: u8 = match t {
            Token::HereDoc => 1,
            Token::HereDocStrip => 2,
            _ => 0,
        };
        if op == 0 || i + 1 >= n {
            push_token(&mut out, &mut nl, t.duplicate());
            i = i + 1;
        } else {
            assert(ts[i + 1] == tokens@[i + 1]@);
            match delimiter_exec(&tokens[i + 1]) {
                None => {
                    push_token(&mut out, &mut nl, t.duplicate());
                    i = i + 1;
                },
                Some((d, expand)) => {
                    let strip = op == 2;
                    proof {
                        lemma_count_line_ends_bound(token_views(out@));
                    }
                    let (f, body) = collect_body(lines, nl + 1, d.as_slice(), strip);
                    proof {
                        lemma_find_delimiter(ls, nl + 1, d@, strip);
                    }
                    let skip: usize = if f < lines.len() {
                        f - nl
                    } else {
                        0
                    };
                    let body_token = Token::HereDocBody(
                        HereDocData { body: string_of(body.as_slice()), expand_vars: expand, strip_tabs: strip },
                    );
                    push_token(&mut out, &mut nl, body_token);
                    let k = skip_lines_exec(tokens, i + 2, skip);
                    i = skip_to_line_end_exec(tokens, k);
                },
            }
        }
    }
    out
}

// ---------------------------------------------------------------------------
// The lexer
// ---------------------------------------------------------------------------

/// The byte position in the UTF-8 text of `s` of its character `a`, as far
/// as a `usize` reaches.
pub open spec fn byte_position(s: Seq<char>, a: int) -> usize {
    let b = utf8_len(s.take(a));
    if b <= usize::MAX {
        b as usize
    } else {
        usize::MAX
    }
}

/// `e` reports the text `s[a..b]` that no token matches.
pub open spec fn reports_invalid(e: LexerError, s: Seq<char>, a: int, b: int) -> bool {
    match e {
        LexerError::InvalidToken { position, text } => position == byte_position(s, a) && text@
            == s.subrange(a, b),
    }
}

/// The byte position of character `a` of `s`.
fn byte_position_exec(s: &[char], a: usize) -> (r: usize)
    requires
        a <= s@.len(),
    ensures
        r == byte_position(s@, a as int),
{
    let mut acc: u128 = 0;
    let mut i: usize = 0;
    while i < a
        invariant
            a <= s@.len(),
            i <= a,
            acc == utf8_len(s@.take(i as int)),
            acc <= 4 * i,
        decreases a - i,
    {
        let w = char_utf8_width(s[i]);
        assert(s@.take(i + 1).drop_last() =~= s@.take(i as int));
        acc = acc + w as u128;
        i = i + 1;
    }
    if acc <= usize::MAX as u128 {
        acc as usize
    } else {
        usize::MAX
    }
}

/// The error for the text `s[a..b]`.
fn invalid_token(s: &[char], a: usize, b: usize) -> (e: LexerError)
    requires
        a <= b <= s@.len(),
    ensures
        reports_invalid(e, s@, a as int, b as int),
{
    LexerError::InvalidToken { position: byte_position_exec(s, a), text: string_of_range(s, a, b) }
}

/// The lexemes before a position prepended to what the lexer finds after it.
pub open spec fn prepend(
    acc: Seq<(TokenView, int, int)>,
    r: Result<Seq<(TokenView, int, int)>, (int, int)>,
) -> Result<Seq<(TokenView, int, int)>, (int, int)> {
    match r {
        Ok(rest) => Ok(acc + rest),
        Err(x) => Err(x),
    }
}

/// The tokens of the text `s` (comments already removed): its lexemes,
/// marked where they form one word, with here-documents resolved against
/// the lines of `s`; or the text where lexing stops.
pub open spec fn lexed(s: Seq<char>) -> Result<Seq<TokenView>, (int, int)> {
    match lex_from(s, 0) {
        Ok(ls) => Ok(resolve_from(mark_adjacent(ls), lines_from(s, 0), 0, Seq::empty())),
        Err(x) => Err(x),
    }
}

/// The lexer over a text, at a position in it.
pub struct Lexer {
    source: Vec<char>,
    pos: usize,
}

impl Lexer {
    #[verifier::type_invariant]
    spec fn within(&self) -> bool {
        self.pos <= self.source@.len()
    }

    /// The text being lexed.
    pub closed spec fn source(&self) -> Seq<char> {
        self.source@
    }

    /// The position the next token is looked for at.
    pub closed spec fn position(&self) -> int {
        self.pos as int
    }

    /// A lexer at the start of `input`.
    pub fn new(input: &str) -> (l: Lexer)
        ensures
            l.source() == input@,
            l.position() == 0,
    {
        Lexer { source: crate::text::chars_of(input), pos: 0 }
    }

    /// The next token, or the error for text that no token matches, or
    /// `None` at the end of the text. After an error the lexer goes on past
    /// the rejected text.
    pub fn next_token(&mut self) -> (r: Option<Result<Token, LexerError>>)
        ensures
            final(self).source() == old(self).source(),
            match next_step(old(self).source(), old(self).position()) {
                Step::End => r is None && final(self).position() == old(self).position(),
                Step::Lexeme(tv, a, e) => r matches Some(Ok(t)) && t@ == tv && final(self).position() == e,
                Step::Invalid(a, e) => r matches Some(Err(err)) && reports_invalid(
                    err,
                    old(self).source(),
                    a,
                    e,
                ) && final(self).position() == e,
            },
    {
        proof {
            use_type_invariant(&*self);
            lemma_next_step(self.source@, self.pos as int);
        }
        match next_step_exec(self.source.as_slice(), self.pos) {
            Scanned::End => None,
            Scanned::Lexeme(t, _a, e) => {
                self.pos = e;
                Some(Ok(t))
            },
            Scanned::Invalid(a, e) => {
                let err = invalid_token(self.source.as_slice(), a, e);
                self.pos = e;
                Some(Err(err))
            },
        }
    }

    /// The tokens of `input`: comments removed, its lexemes marked where
    /// they form one word, here-documents resolved; or the error for the
    /// first text that no token matches.
    pub fn tokenize(input: &str) -> (r: Result<Vec<Token>, LexerError>)
        ensures
            match lexed(strip(input@)) {
                Ok(ts) => r matches Ok(v) && token_views(v@) == ts,
                Err((a, b)) => r matches Err(e) && reports_invalid(e, strip(input@), a, b),
            },
    {
        let chars = crate::text::chars_of(input);
        let s = strip_comments(chars.as_slice());
        let ghost sv = s@;
        let n = s.len();
        let mut toks: Vec<Token> = Vec::new();
        let mut starts: Vec<usize> = Vec::new();
        let mut ends: Vec<usize> = Vec::new();
        let mut pos: usize = 0;
        let mut done = false;
        assert(lexemes(toks@, starts@, ends@) =~= Seq::<(TokenView, int, int)>::empty());
        assert(prepend(Seq::empty(), lex_from(sv, 0)) =~= lex_from(sv, 0)) by {
            match lex_from(sv, 0) {
                Ok(rest) => {
                    assert(Seq::<(TokenView, int, int)>::empty() + rest =~= rest);
                },
                Err(x) => {},
            }
        }
        while !done
            invariant
                sv == s@,
                sv == strip(input@),
                n == sv.len(),
                pos <= n,
                toks@.len() == starts@.len() == ends@.len(),
                lex_from(sv, 0) == prepend(lexemes(toks@, starts@, ends@), lex_from(sv, pos as int)),
                done ==> next_step(sv, pos as int) is End,
            decreases n - pos + (if done {
                0int
            } else {
                1int
            }),
        {
            proof {
                lemma_next_step(sv, pos as int);
            }
            match next_step_exec(s.as_slice(), pos) {
                Scanned::End => {
                    done = true;
                },
                Scanned::Invalid(a, b) => {
                    assert(lex_from(sv, pos as int) == Err::<Seq<(TokenView, int, int)>, (int, int)>(
                        (a as int, b as int),
                    ));
                    return Err(invalid_token(s.as_slice(), a, b));
                },
                Scanned::Lexeme(t, a, e) => {
                    let ghost acc = lexemes(toks@, starts@, ends@);
                    let ghost x = (t@, a as int, e as int);
                    toks.push(t);
                    starts.push(a);
                    ends.push(e);
                    assert(lexemes(toks@, starts@, ends@) =~= acc.push(x));
                    proof {
                        match lex_from(sv, e as int) {
                            Ok(rest) => {
                                assert(acc + (seq![x] + rest) =~= acc.push(x) + rest);
                            },
                            Err(_) => {},
                        }
                    }
                    pos = e;
                },
            }
        }
        assert(lexemes(toks@, starts@, ends@) + Seq::<(TokenView, int, int)>::empty() =~= lexemes(toks@, starts@, ends@));
        let marked = mark_adjacent_exec(&toks, &starts, &ends);
        let lines = split_lines(s.as_slice());
        Ok(resolve_heredocs(&marked, &lines))
    }
}

// ---------------------------------------------------------------------------
// Laws
// ---------------------------------------------------------------------------

/// Text without a `#` is left as it is by comment removal.
pub proof fn law_strip_without_hash(s: Seq<char>)
    requires
        forall|q: int| 0 <= q < s.len() ==> s[q] != '#',
    ensures
        strip(s) == s,
{
    lemma_strip_without_hash(s, 0, false, false);
    assert(s.subrange(0, s.len() as int) =~= s);
}

proof fn lemma_strip_without_hash(s: Seq<char>, i: int, sq: bool, dq: bool)
    requires
        0 <= i <= s.len(),
        forall|q: int| 0 <= q < s.len() ==> s[q] != '#',
    ensures
        strip_from(s, i, sq, dq) == s.subrange(i, s.len() as int),
    decreases s.len() - i,
{
    if i < s.len() {
        let c = s[i];
        if c == '\'' && !dq {
            lemma_strip_without_hash(s, i + 1, !sq, dq);
        } else if c == '"' && !sq {
            lemma_strip_without_hash(s, i + 1, sq, !dq);
        } else if c == '\\' && dq {
            if i + 1 < s.len() {
                lemma_strip_without_hash(s, i + 2, sq, dq);
                assert(seq![c, s[i + 1]] + s.subrange(i + 2, s.len() as int) =~= s.subrange(
                    i,
                    s.len() as int,
                ));
            } else {
                assert(seq![c] =~= s.subrange(i, s.len() as int));
            }
            return;
        } else {
            lemma_strip_without_hash(s, i + 1, sq, dq);
        }
        assert(seq![c] + s.subrange(i + 1, s.len() as int) =~= s.subrange(i, s.len() as int));
    } else {
        assert(s.subrange(i, s.len() as int) =~= Seq::<char>::empty());
    }
}

/// Not the marker between parts of a word.
pub open spec fn not_marker(t: TokenView) -> bool {
    t != TokenView::Adjacent
}

/// The lexer finds no `Adjacent` marker and no here-document body: those
/// are only made after lexing.
pub proof fn lemma_lexemes_plain(s: Seq<char>, i: int)
    requires
        0 <= i <= s.len(),
    ensures
        lex_from(s, i) matches Ok(ls) ==> forall|j: int| 0 <= j < ls.len() ==> not_marker(#[trigger] ls[j].0),
    decreases s.len() - i,
{
    lemma_next_step(s, i);
    match next_step(s, i) {
        Step::Lexeme(t, a, e) => {
            lemma_next_step_token(s, i);
            lemma_lexemes_plain(s, e);
            match lex_from(s, e) {
                Ok(rest) => {
                    let ls = seq![(t, a, e)] + rest;
                    assert forall|j: int| 0 <= j < ls.len() implies not_marker(#[trigger] ls[j].0) by {
                        if j > 0 {
                            assert(ls[j] == rest[j - 1]);
                        }
                    }
                },
                Err(_) => {},
            }
        },
        _ => {},
    }
}

proof fn lemma_next_step_token(s: Seq<char>, i: int)
    requires
        0 <= i <= s.len(),
    ensures
        next_step(s, i) matches Step::Lexeme(t, a, e) ==> not_marker(t),
    decreases s.len() - i,
{
    if i < s.len() {
        lemma_scan_at_bound(s, i);
        match scan_at(s, i) {
            Some((k, n)) => {
                if skipped(k) {
                    lemma_next_step_token(s, i + n);
                }
            },
            None => {},
        }
    }
}

/// Marking adjacent word parts only inserts markers: without them, the
/// marked tokens are the lexemes' tokens.
pub proof fn law_adjacent_only_marks(ls: Seq<(TokenView, int, int)>)
    requires
        forall|j: int| 0 <= j < ls.len() ==> not_marker(#[trigger] ls[j].0),
    ensures
        mark_adjacent(ls).filter(|t: TokenView| not_marker(t)) == ls.map_values(
            |l: (TokenView, int, int)| l.0,
        ),
    decreases ls.len(),
{
    let p = |t: TokenView| not_marker(t);
    if ls.len() == 0 {
        reveal(Seq::filter);
        assert(mark_adjacent(ls).filter(p) =~= ls.map_values(|l: (TokenView, int, int)| l.0));
    } else {
        let rest = ls.drop_first();
        assert forall|j: int| 0 <= j < rest.len() implies not_marker(#[trigger] rest[j].0) by {
            assert(rest[j] == ls[j + 1]);
        }
        law_adjacent_only_marks(rest);
        let head = seq![ls[0].0];
        let mid = if ls.len() >= 2 && joined(ls[0], ls[1]) {
            seq![TokenView::Adjacent]
        } else {
            Seq::<TokenView>::empty()
        };
        assert(mark_adjacent(ls) == head + mid + mark_adjacent(rest));
        Seq::filter_distributes_over_add(head + mid, mark_adjacent(rest), p);
        Seq::filter_distributes_over_add(head, mid, p);
        reveal_with_fuel(Seq::filter, 2);
        assert(head.filter(p) =~= head) by {
            assert(head.drop_last() =~= Seq::<TokenView>::empty());
        }
        assert(mid.filter(p) =~= Seq::<TokenView>::empty()) by {
            if mid.len() == 1 {
                assert(mid.drop_last() =~= Seq::<TokenView>::empty());
            }
        }
        assert(head + rest.map_values(|l: (TokenView, int, int)| l.0) =~= ls.map_values(
            |l: (TokenView, int, int)| l.0,
        ));
    }
}

/// The tokens the lexer finds come out of adjacency marking unchanged and in
/// order, with only markers between them.
pub proof fn law_lexed_tokens_kept(s: Seq<char>)
    requires
        lex_from(s, 0) is Ok,
    ensures
        mark_adjacent(lex_from(s, 0)->Ok_0).filter(|t: TokenView| not_marker(t)) == lex_from(
            s,
            0,
        )->Ok_0.map_values(|l: (TokenView, int, int)| l.0),
{
    lemma_lexemes_plain(s, 0);
    law_adjacent_only_marks(lex_from(s, 0)->Ok_0);
}

proof fn lemma_find_char_shift(x: Seq<char>, r: Seq<char>, k: int, ch: char)
    requires
        0 <= k,
    ensures
        find_char(x + r, x.len() + k, ch) == x.len() + find_char(r, k, ch),
    decreases r.len() - k,
{
    if k < r.len() {
        assert((x + r)[x.len() + k] == r[k]);
        if r[k] != ch {
            lemma_find_char_shift(x, r, k + 1, ch);
        }
    }
}

/// Comment removal from within `r`, after a text `x` that ends with
/// whitespace, is comment removal of `r` alone.
proof fn lemma_strip_shift(x: Seq<char>, r: Seq<char>, j: int, sq: bool, dq: bool)
    requires
        0 <= j <= r.len(),
        j > 0 || x.len() == 0 || is_ws(x.last()),
    ensures
        strip_from(x + r, x.len() + j, sq, dq) == strip_from(r, j, sq, dq),
    decreases r.len() - j, 0int,
{
    let s = x + r;
    let i = x.len() + j;
    if j < r.len() {
        let c = r[j];
        assert(s[i] == c);
        let starts = j == 0 || is_ws(r[j - 1]);
        if j > 0 {
            assert(s[i - 1] == r[j - 1]);
        } else if x.len() > 0 {
            assert(s[i - 1] == x.last());
        }
        assert((i == 0 || is_ws(s[i - 1])) == starts);
        if c == '\'' && !dq {
            lemma_strip_shift(x, r, j + 1, !sq, dq);
            assert(strip_from(s, i, sq, dq) == seq![c] + strip_from(s, i + 1, !sq, dq));
            assert(strip_from(r, j, sq, dq) == seq![c] + strip_from(r, j + 1, !sq, dq));
        } else if c == '"' && !sq {
            lemma_strip_shift(x, r, j + 1, sq, !dq);
            assert(strip_from(s, i, sq, dq) == seq![c] + strip_from(s, i + 1, sq, !dq));
            assert(strip_from(r, j, sq, dq) == seq![c] + strip_from(r, j + 1, sq, !dq));
        } else if c == '\\' && dq {
            if j + 1 < r.len() {
                assert(s[i + 1] == r[j + 1]);
                lemma_strip_shift(x, r, j + 2, sq, dq);
                assert(strip_from(s, i, sq, dq) == seq![c, r[j + 1]] + strip_from(s, i + 2, sq, dq));
                assert(strip_from(r, j, sq, dq) == seq![c, r[j + 1]] + strip_from(r, j + 2, sq, dq));
            } else {
                assert(strip_from(s, i, sq, dq) == seq![c]);
                assert(strip_from(r, j, sq, dq) == seq![c]);
            }
        } else if c == '#' && !sq && !dq && starts {
            lemma_find_char(r, j + 1, '\n');
            lemma_find_char_shift(x, r, j + 1, '\n');
            let f = find_char(r, j + 1, '\n');
            assert(find_char(s, i + 1, '\n') == x.len() + f);
            if f < r.len() {
                lemma_strip_shift(x, r, f + 1, sq, dq);
                assert(strip_comment(s, x.len() + f, sq, dq) == seq!['\n'] + strip_from(s, x.len() + f + 1, sq, dq));
                assert(strip_comment(r, f, sq, dq) == seq!['\n'] + strip_from(r, f + 1, sq, dq));
            } else {
                assert(strip_comment(s, x.len() + f, sq, dq) == Seq::<char>::empty());
            }
            assert(strip_from(s, i, sq, dq) == strip_comment(s, find_char(s, i + 1, '\n'), sq, dq));
            assert(strip_from(r, j, sq, dq) == strip_comment(r, f, sq, dq));
        } else {
            lemma_strip_shift(x, r, j + 1, sq, dq);
            assert(strip_from(s, i, sq, dq) == seq![c] + strip_from(s, i + 1, sq, dq));
            assert(strip_from(r, j, sq, dq) == seq![c] + strip_from(r, j + 1, sq, dq));
        }
    } else {
        assert(strip_from(s, i, sq, dq) == Seq::<char>::empty());
    }
}

/// Plain text, free of quotes, backslashes and `#`, is kept as it is.
proof fn lemma_strip_plain_prefix(s: Seq<char>, a: Seq<char>, i: int)
    requires
        0 <= i <= a.len() <= s.len(),
        s.take(a.len() as int) == a,
        forall|q: int| 0 <= q < a.len() ==> a[q] != '#' && a[q] != '\'' && a[q] != '"',
    ensures
        strip_from(s, i, false, false) == a.skip(i) + strip_from(s, a.len() as int, false, false),
    decreases a.len() - i,
{
    if i < a.len() {
        assert(s[i] == a[i]);
        lemma_strip_plain_prefix(s, a, i + 1);
        assert(a.skip(i) =~= seq![a[i]] + a.skip(i + 1));
    } else {
        assert(a.skip(i) =~= Seq::<char>::empty());
    }
}

/// An unquoted `#` that starts a word drops the rest of its line, and keeps
/// the newline that ends it: with `a` plain text (no quotes, no `#`) that
/// is empty or ends with whitespace, and `c` a comment without a newline,
/// `a #c` and a newline before `r` lose `#c`.
pub proof fn law_comment_drops_rest_of_line(a: Seq<char>, c: Seq<char>, r: Seq<char>)
    requires
        forall|q: int| 0 <= q < a.len() ==> a[q] != '#' && a[q] != '\'' && a[q] != '"',
        a.len() == 0 || is_ws(a.last()),
        forall|q: int| 0 <= q < c.len() ==> c[q] != '\n',
    ensures
        strip(a + seq!['#'] + c + seq!['\n'] + r) == a + seq!['\n'] + strip(r),
{
    let x = a + seq!['#'] + c + seq!['\n'];
    let s = x + r;
    assert(s.take(a.len() as int) =~= a);
    lemma_strip_plain_prefix(s, a, 0);
    assert(a.skip(0) =~= a);
    let h = a.len() as int;
    assert(s[h] == '#');
    if h > 0 {
        assert(s[h - 1] == a.last());
    }
    lemma_find_char(s, h + 1, '\n');
    assert forall|k: int| h + 1 <= k < h + 1 + c.len() implies s[k] != '\n' by {
        assert(s[k] == c[k - h - 1]);
    }
    assert(s[h + 1 + c.len()] == '\n');
    assert(find_char(s, h + 1, '\n') == h + 1 + c.len()) by {
        let f = find_char(s, h + 1, '\n');
        if f < h + 1 + c.len() {
            assert(s[f] == '\n');
        }
    }
    assert(x.len() == h + c.len() + 2);
    assert(x.last() == '\n');
    lemma_strip_shift(x, r, 0, false, false);
    assert(strip_from(s, h, false, false) == strip_comment(s, h + 1 + c.len(), false, false));
    assert(strip_comment(s, h + 1 + c.len(), false, false) == seq!['\n'] + strip_from(s, x.len() as int, false, false));
    assert(strip_from(s, x.len() as int, false, false) == strip_from(r, 0, false, false));
    assert(strip(s) == a + strip_from(s, h, false, false));
}

proof fn lemma_strip_quoted_body(s: Seq<char>, q: Seq<char>, i: int)
    requires
        0 <= i <= q.len(),
        q.len() + 1 < s.len(),
        forall|k: int| 0 <= k < q.len() ==> s[1 + k] == q[k] && q[k] != '\'',
        s[1 + q.len() as int] == '\'',
    ensures
        strip_from(s, 1 + i, true, false) == q.skip(i) + seq!['\''] + strip_from(
            s,
            2 + q.len() as int,
            false,
            false,
        ),
    decreases q.len() - i,
{
    if i < q.len() {
        lemma_strip_quoted_body(s, q, i + 1);
        assert(q.skip(i) =~= seq![q[i]] + q.skip(i + 1));
    } else {
        assert(q.skip(i) =~= Seq::<char>::empty());
    }
}

/// Text inside single quotes is kept as it is, `#` included: a quoted word
/// followed by whitespace comes out unchanged, and what follows it as it
/// would on its own.
pub proof fn law_single_quoted_kept(q: Seq<char>, r: Seq<char>)
    requires
        forall|k: int| 0 <= k < q.len() ==> q[k] != '\'',
        r.len() > 0 && is_ws(r[0]),
    ensures
        strip(seq!['\''] + q + seq!['\''] + r) == seq!['\''] + q + seq!['\''] + strip(r),
{
    let x = seq!['\''] + q + seq!['\''];
    let s = x + r;
    assert forall|k: int| 0 <= k < q.len() implies s[1 + k] == q[k] && q[k] != '\'' by {
        assert(s[1 + k] == x[1 + k]);
    }
    assert(s[1 + q.len() as int] == '\'');
    lemma_strip_quoted_body(s, q, 0);
    assert(q.skip(0) =~= q);
    assert(s[0] == '\'');
    let h = x.len() as int;
    assert(s[h] == r[0]);
    lemma_strip_shift(x, r, 1, false, false);
    assert(strip_from(s, h, false, false) == seq![r[0]] + strip_from(r, 1, false, false));
    assert(strip(r) == seq![r[0]] + strip_from(r, 1, false, false));
    assert(strip(s) == seq!['\''] + (q + seq!['\''] + strip_from(s, h, false, false)));
}

/// A `#` inside a word is kept: text without quotes in which every `#`
/// follows a character that is not whitespace comes out unchanged.
pub proof fn law_hash_inside_word_kept(s: Seq<char>)
    requires
        forall|q: int| 0 <= q < s.len() ==> s[q] != '\'' && s[q] != '"',
        forall|q: int| 0 <= q < s.len() && #[trigger] s[q] == '#' ==> q > 0 && !is_ws(s[q - 1]),
    ensures
        strip(s) == s,
{
    lemma_hash_inside_word(s, 0);
    assert(s.skip(0) =~= s);
}

proof fn lemma_hash_inside_word(s: Seq<char>, i: int)
    requires
        0 <= i <= s.len(),
        forall|q: int| 0 <= q < s.len() ==> s[q] != '\'' && s[q] != '"',
        forall|q: int| 0 <= q < s.len() && #[trigger] s[q] == '#' ==> q > 0 && !is_ws(s[q - 1]),
    ensures
        strip_from(s, i, false, false) == s.skip(i),
    decreases s.len() - i,
{
    if i < s.len() {
        lemma_hash_inside_word(s, i + 1);
        assert(s.skip(i) =~= seq![s[i]] + s.skip(i + 1));
    } else {
        assert(s.skip(i) =~= Seq::<char>::empty());
    }
}

} // verus!
