//! The parts of a word or a here-document body that expansion replaces:
//! command substitutions, braced and plain variables, special and
//! positional parameters, between runs of literal text. The shell resolves
//! each part and joins the results.
use vstd::prelude::*;
use crate::expansion::{closing_paren, find_matching_paren_in_str};
use crate::lexer::{find_char, find_char_exec, lemma_find_char};
use crate::text::{chars_of, string_of_range};

verus! {

/// A part of a text to expand.
#[derive(Debug, PartialEq)]
pub enum Piece {
    /// Text that stays as it is.
    Text(String),
    /// A command substitution as written, `$(...)` or `` `...` ``.
    Substitution(String),
    /// The command of a substitution, without its delimiters.
    Command(String),
    /// The inside of `${...}`.
    Braced(String),
    /// A variable by name.
    Variable(String),
    /// A special parameter such as `$?` or `$$`, by its character.
    Special(char),
    /// A positional parameter `$N`.
    Positional(usize),
}

/// A part as a mathematical value.
pub enum PieceView {
    Text(Seq<char>),
    Substitution(Seq<char>),
    Command(Seq<char>),
    Braced(Seq<char>),
    Variable(Seq<char>),
    Special(char),
    Positional(nat),
}

impl View for Piece {
    type V = PieceView;

    open spec fn view(&self) -> PieceView {
        match self {
            Piece::Text(s) => PieceView::Text(s@),
            Piece::Substitution(s) => PieceView::Substitution(s@),
            Piece::Command(s) => PieceView::Command(s@),
            Piece::Braced(s) => PieceView::Braced(s@),
            Piece::Variable(s) => PieceView::Variable(s@),
            Piece::Special(c) => PieceView::Special(*c),
            Piece::Positional(n) => PieceView::Positional(*n as nat),
        }
    }
}

/// The views of parts.
pub open spec fn piece_views(v: Seq<Piece>) -> Seq<PieceView> {
    v.map_values(|p: Piece| p@)
}

/// `ps` followed by literal text `t`, joined to a text part that ends `ps`.
pub open spec fn push_text(ps: Seq<PieceView>, t: Seq<char>) -> Seq<PieceView> {
    if ps.len() > 0 && ps.last() is Text {
        ps.drop_last().push(PieceView::Text(ps.last()->Text_0 + t))
    } else {
        ps.push(PieceView::Text(t))
    }
}

/// An ASCII letter, digit or `_`.
pub open spec fn name_char(c: char) -> bool {
    crate::scan::var_char(c)
}

/// The index after the run of name characters from `j`.
pub open spec fn name_end(s: Seq<char>, j: int) -> int
    decreases s.len() - j,
{
    if 0 <= j < s.len() && name_char(s[j]) {
        name_end(s, j + 1)
    } else {
        j
    }
}

pub proof fn lemma_name_end(s: Seq<char>, j: int)
    requires
        0 <= j <= s.len(),
    ensures
        j <= name_end(s, j) <= s.len(),
    decreases s.len() - j,
{
    if j < s.len() && name_char(s[j]) {
        lemma_name_end(s, j + 1);
    }
}

/// The index of the `}` that closes a `{` already open `depth` deep.
pub open spec fn closing_brace(s: Seq<char>, pos: int, depth: int) -> Option<int>
    decreases s.len() - pos,
{
    if pos < 0 || pos >= s.len() || depth <= 0 {
        None
    } else if s[pos] == '{' {
        closing_brace(s, pos + 1, depth + 1)
    } else if s[pos] == '}' {
        if depth == 1 {
            Some(pos)
        } else {
            closing_brace(s, pos + 1, depth - 1)
        }
    } else {
        closing_brace(s, pos + 1, depth)
    }
}

pub proof fn lemma_closing_brace(s: Seq<char>, pos: int, depth: int)
    ensures
        closing_brace(s, pos, depth) matches Some(k) ==> pos <= k < s.len(),
    decreases s.len() - pos,
{
    if 0 <= pos < s.len() && depth > 0 {
        if s[pos] == '{' {
            lemma_closing_brace(s, pos + 1, depth + 1);
        } else if s[pos] == '}' {
            if depth != 1 {
                lemma_closing_brace(s, pos + 1, depth - 1);
            }
        } else {
            lemma_closing_brace(s, pos + 1, depth);
        }
    }
}

/// The index after a backquoted command whose body starts at `j`: past the
/// closing backquote, a backslash taking the character after it; or the end.
pub open spec fn backquote_end(s: Seq<char>, j: int) -> int
    decreases s.len() - j,
{
    if j < 0 || j >= s.len() {
        s.len() as int
    } else if s[j] == '`' {
        j + 1
    } else if s[j] == '\\' {
        if j + 1 < s.len() {
            backquote_end(s, j + 2)
        } else {
            s.len() as int
        }
    } else {
        backquote_end(s, j + 1)
    }
}

pub proof fn lemma_backquote_end(s: Seq<char>, j: int)
    requires
        0 <= j <= s.len(),
    ensures
        j <= backquote_end(s, j) <= s.len(),
    decreases s.len() - j,
{
    if j < s.len() && s[j] != '`' {
        if s[j] == '\\' {
            if j + 1 < s.len() {
                lemma_backquote_end(s, j + 2);
            }
        } else {
            lemma_backquote_end(s, j + 1);
        }
    }
}

/// The value of a numeral of decimal digits.
pub open spec fn digits_value(t: Seq<char>) -> nat
    decreases t.len(),
{
    if t.len() == 0 {
        0
    } else {
        digits_value(t.drop_last()) * 10 + crate::lexer::hex_digit(t.last())
    }
}

/// Whether every character of `t` is a decimal digit.
pub open spec fn all_digits(t: Seq<char>) -> bool {
    forall|q: int| 0 <= q < t.len() ==> crate::scan::is_digit(#[trigger] t[q])
}

/// A `$name` after `$`: a positional parameter when the name is a number
/// that fits in a `usize`, else a variable.
pub open spec fn name_piece(name: Seq<char>) -> PieceView {
    if name.len() > 0 && all_digits(name) && digits_value(name) <= usize::MAX {
        PieceView::Positional(digits_value(name))
    } else {
        PieceView::Variable(name)
    }
}

/// The characters that name special parameters.
pub open spec fn special_param(c: char) -> bool {
    c == '#' || c == '@' || c == '*' || c == '?' || c == '!' || c == '$' || c == '-' || c == '_'
}

/// The parts of a word from `i`, after the parts `acc`: `$(...)` (to the
/// matching parenthesis, or the end) and backquoted commands as written;
/// the inside of `${...}` (to the matching brace, or the end); `$` and a
/// special character; `$` and a name, a positional parameter when it is a
/// number; any other `$` stays.
pub open spec fn literal_from(s: Seq<char>, i: int, acc: Seq<PieceView>) -> Seq<PieceView>
    decreases s.len() - i,
{
    if i < 0 || i >= s.len() {
        acc
    } else if s[i] == '$' && i + 1 < s.len() {
        let d = s[i + 1];
        if d == '(' {
            match closing_paren(s, i + 2, 1) {
                Some(k) => {
                    proof {
                        crate::expansion::lemma_closing_paren_bounds(s, i + 2, 1);
                    }
                    literal_from(s, k + 1, acc.push(PieceView::Substitution(s.subrange(i, k + 1))))
                },
                None => acc.push(PieceView::Substitution(s.subrange(i, s.len() as int))),
            }
        } else if d == '{' {
            match closing_brace(s, i + 2, 1) {
                Some(k) => {
                    proof {
                        lemma_closing_brace(s, i + 2, 1);
                    }
                    literal_from(s, k + 1, acc.push(PieceView::Braced(s.subrange(i + 2, k))))
                },
                None => acc.push(PieceView::Braced(s.subrange(i + 2, s.len() as int))),
            }
        } else if special_param(d) {
            literal_from(s, i + 2, acc.push(PieceView::Special(d)))
        } else if crate::scan::is_alnum(d) {
            proof {
                lemma_name_end(s, i + 1);
            }
            let e = name_end(s, i + 1);
            literal_from(s, e, acc.push(name_piece(s.subrange(i + 1, e))))
        } else {
            literal_from(s, i + 1, push_text(acc, seq!['$']))
        }
    } else if s[i] == '`' {
        proof {
            lemma_backquote_end(s, i + 1);
        }
        let e = backquote_end(s, i + 1);
        literal_from(s, e, acc.push(PieceView::Substitution(s.subrange(i, e))))
    } else {
        literal_from(s, i + 1, push_text(acc, seq![s[i]]))
    }
}

/// The parts of a here-document body from `i`, after the parts `acc`:
/// `$(...)` to its matching parenthesis and a backquoted command to the
/// next backquote, as commands; `${...}` to the next `}`; `$name`; `$?` and
/// `$$`; the escapes `\$`, `` \` ``, `\\`, `\n` and `\t`, and any other
/// backslash pair as written. A `$` or backquote that opens nothing stays.
pub open spec fn heredoc_from(s: Seq<char>, i: int, acc: Seq<PieceView>) -> Seq<PieceView>
    decreases s.len() - i,
{
    if i < 0 || i >= s.len() {
        acc
    } else if s[i] == '$' && i + 1 < s.len() {
        let d = s[i + 1];
        if d == '(' {
            match closing_paren(s, i + 2, 1) {
                Some(k) => {
                    proof {
                        crate::expansion::lemma_closing_paren_bounds(s, i + 2, 1);
                    }
                    heredoc_from(s, k + 1, acc.push(PieceView::Command(s.subrange(i + 2, k))))
                },
                None => heredoc_from(s, i + 1, push_text(acc, seq!['$'])),
            }
        } else if d == '{' {
            proof {
                lemma_find_char(s, i + 2, '}');
            }
            let close = find_char(s, i + 2, '}');
            if close < s.len() {
                heredoc_from(s, close + 1, acc.push(PieceView::Braced(s.subrange(i + 2, close))))
            } else {
                heredoc_from(s, i + 1, push_text(acc, seq!['$']))
            }
        } else if crate::scan::is_alpha(d) || d == '_' {
            proof {
                lemma_name_end(s, i + 1);
            }
            let e = name_end(s, i + 1);
            heredoc_from(s, e, acc.push(PieceView::Variable(s.subrange(i + 1, e))))
        } else if d == '?' || d == '$' {
            heredoc_from(s, i + 2, acc.push(PieceView::Special(d)))
        } else {
            heredoc_from(s, i + 1, push_text(acc, seq!['$']))
        }
    } else if s[i] == '`' {
        proof {
            lemma_find_char(s, i + 1, '`');
        }
        let close = find_char(s, i + 1, '`');
        if close < s.len() {
            heredoc_from(s, close + 1, acc.push(PieceView::Command(s.subrange(i + 1, close))))
        } else {
            heredoc_from(s, i + 1, push_text(acc, seq!['`']))
        }
    } else if s[i] == '\\' && i + 1 < s.len() {
        let e = s[i + 1];
        let t = if e == '$' || e == '`' || e == '\\' {
            seq![e]
        } else if e == 'n' {
            seq!['\n']
        } else if e == 't' {
            seq!['\t']
        } else {
            seq!['\\', e]
        };
        heredoc_from(s, i + 2, push_text(acc, t))
    } else {
        heredoc_from(s, i + 1, push_text(acc, seq![s[i]]))
    }
}

/// Appends literal text, joining it to a text part at the end.
fn push_text_exec(out: &mut Vec<Piece>, t: &[char])
    ensures
        piece_views(final(out)@) == push_text(piece_views(old(out)@), t@),
{
    let ghost before = piece_views(out@);
    let n = out.len();
    if n > 0 {
        let last_is_text = match &out[n - 1] {
            Piece::Text(_) => true,
            _ => false,
        };
        if last_is_text {
            let last = out.pop().unwrap();
            match last {
                Piece::Text(mut s) => {
                    let ghost s0 = s@;
                    crate::text::append_chars(&mut s, t);
                    out.push(Piece::Text(s));
                    assert(piece_views(out@) =~= before.drop_last().push(PieceView::Text(s0 + t@)));
                },
                _ => {},
            }
            return;
        }
    }
    out.push(Piece::Text(crate::text::string_of(t)));
    assert(piece_views(out@) =~= before.push(PieceView::Text(t@)));
}

/// Appends a part.
fn push_piece(out: &mut Vec<Piece>, p: Piece)
    ensures
        piece_views(final(out)@) == piece_views(old(out)@).push(p@),
{
    let ghost before = piece_views(out@);
    let ghost pv = p@;
    out.push(p);
    assert(piece_views(out@) =~= before.push(pv));
}

/// The index of the `}` that closes an open `{`, scanning from `start`.
pub(crate) fn find_matching_brace(s: &[char], start: usize) -> (r: Option<usize>)
    requires
        1 <= start <= s.len(),
    ensures
        r matches Some(k) ==> closing_brace(s@, start as int, 1) == Some(k as int) && start <= k < s@.len(),
        r is None ==> closing_brace(s@, start as int, 1) is None,
{
    proof {
        lemma_closing_brace(s@, start as int, 1);
    }
    let mut depth: usize = 1;
    let mut pos: usize = start;
    while pos < s.len()
        invariant
            start <= pos,
            1 <= start,
            pos <= s.len(),
            depth >= 1,
            depth <= pos - start + 1,
            closing_brace(s@, start as int, 1) == closing_brace(s@, pos as int, depth as int),
        decreases s@.len() - pos,
    {
        if s[pos] == '{' {
            depth = depth + 1;
        } else if s[pos] == '}' {
            if depth == 1 {
                return Some(pos);
            }
            depth = depth - 1;
        }
        pos = pos + 1;
    }
    None
}

/// The index after the run of name characters from `j`.
pub(crate) fn name_end_exec(s: &[char], j: usize) -> (e: usize)
    requires
        j <= s.len(),
    ensures
        e == name_end(s@, j as int),
        j <= e <= s@.len(),
{
    proof {
        lemma_name_end(s@, j as int);
    }
    let mut e: usize = j;
    while e < s.len() && (('a' <= s[e] && s[e] <= 'z') || ('A' <= s[e] && s[e] <= 'Z') || ('0' <= s[e]
        && s[e] <= '9') || s[e] == '_')
        invariant
            j <= e <= s@.len(),
            name_end(s@, j as int) == name_end(s@, e as int),
        decreases s@.len() - e,
    {
        e = e + 1;
    }
    e
}

proof fn lemma_digits_prefix(t: Seq<char>, i: int)
    requires
        0 <= i <= t.len(),
    ensures
        digits_value(t.take(i)) <= digits_value(t),
    decreases t.len(),
{
    if i < t.len() {
        lemma_digits_prefix(t.drop_last(), i);
        assert(t.drop_last().take(i) =~= t.take(i));
    } else {
        assert(t.take(i) =~= t);
    }
}

/// The part a `$name` gives.
fn name_piece_exec(name: &[char]) -> (p: Piece)
    ensures
        p@ == name_piece(name@),
{
    let n = name.len();
    let mut all = n > 0;
    let mut value: u128 = 0;
    let mut fits = true;
    let mut q: usize = 0;
    while q < n
        invariant
            n == name@.len(),
            q <= n,
            all == (n > 0 && forall|j: int| 0 <= j < q ==> crate::scan::is_digit(#[trigger] name@[j])),
            all && fits ==> value == digits_value(name@.take(q as int)) && value <= usize::MAX,
            all && !fits ==> digits_value(name@.take(q as int)) > usize::MAX,
        decreases n - q,
    {
        let c = name[q];
        assert(name@.take(q + 1).drop_last() =~= name@.take(q as int));
        if '0' <= c && c <= '9' {
            if all && fits {
                let d = ((c as u32) - ('0' as u32)) as u128;
                assert(value * 10 + d <= 0xffff_ffff_ffff_ffff * 10 + 9) by (nonlinear_arith)
                    requires
                        value <= 0xffff_ffff_ffff_ffff,
                        d <= 9,
                ;
                let next = value * 10 + d;
                if next > usize::MAX as u128 {
                    fits = false;
                } else {
                    value = next;
                }
            } else if all {
                proof {
                    assert(digits_value(name@.take(q + 1)) >= digits_value(name@.take(q as int)) * 10);
                }
            }
        } else {
            all = false;
        }
        q = q + 1;
    }
    assert(name@.take(n as int) =~= name@);
    if all && fits {
        Piece::Positional(value as usize)
    } else {
        Piece::Variable(crate::text::string_of(name))
    }
}

/// The parts of a word to expand.
pub fn split_literal(input: &str) -> (r: Vec<Piece>)
    ensures
        piece_views(r@) == literal_from(input@, 0, Seq::empty()),
{
    let s = chars_of(input);
    let n = s.len();
    let mut out: Vec<Piece> = Vec::new();
    let mut i: usize = 0;
    assert(piece_views(out@) =~= Seq::<PieceView>::empty());
    while i < n
        invariant
            n == s@.len(),
            s@ == input@,
            i <= n,
            literal_from(s@, i as int, piece_views(out@)) == literal_from(s@, 0, Seq::empty()),
        decreases n - i,
    {
        let ghost i0 = i as int;
        let ghost acc0 = piece_views(out@);
        if s[i] == '$' && i + 1 < n {
            let d = s[i + 1];
            if d == '(' {
                proof {
                    crate::expansion::lemma_closing_paren_bounds(s@, i + 2, 1);
                }
                match find_matching_paren_in_str(s.as_slice(), i + 2) {
                    Some(k) => {
                        assert(closing_paren(s@, i0 + 2, 1) == Some(k as int));
                        push_piece(&mut out, Piece::Substitution(string_of_range(s.as_slice(), i, k + 1)));
                        i = k + 1;
                        assert(literal_from(s@, i0, acc0) == literal_from(s@, i as int, piece_views(out@)));
                    },
                    None => {
                        push_piece(&mut out, Piece::Substitution(string_of_range(s.as_slice(), i, n)));
                        i = n;
                        assert(literal_from(s@, i0, acc0) == literal_from(s@, i as int, piece_views(out@)));
                    },
                }
            } else if d == '{' {
                match find_matching_brace(s.as_slice(), i + 2) {
                    Some(k) => {
                        push_piece(&mut out, Piece::Braced(string_of_range(s.as_slice(), i + 2, k)));
                        i = k + 1;
                        assert(literal_from(s@, i0, acc0) == literal_from(s@, i as int, piece_views(out@)));
                    },
                    None => {
                        push_piece(&mut out, Piece::Braced(string_of_range(s.as_slice(), i + 2, n)));
                        i = n;
                        assert(literal_from(s@, i0, acc0) == literal_from(s@, i as int, piece_views(out@)));
                    },
                }
            } else if d == '#' || d == '@' || d == '*' || d == '?' || d == '!' || d == '$' || d == '-'
                || d == '_' {
                push_piece(&mut out, Piece::Special(d));
                i = i + 2;
                assert(literal_from(s@, i0, acc0) == literal_from(s@, i as int, piece_views(out@)));
            } else if ('a' <= d && d <= 'z') || ('A' <= d && d <= 'Z') || ('0' <= d && d <= '9') {
                let e = name_end_exec(s.as_slice(), i + 1);
                let name = crate::lexer::chars_range_pub(s.as_slice(), i + 1, e);
                push_piece(&mut out, name_piece_exec(name.as_slice()));
                i = e;
                assert(literal_from(s@, i0, acc0) == literal_from(s@, i as int, piece_views(out@)));
            } else {
                let dollar = vec!['$'];
                assert(dollar@ =~= seq!['$']);
                push_text_exec(&mut out, dollar.as_slice());
                i = i + 1;
                assert(literal_from(s@, i0, acc0) == literal_from(s@, i as int, piece_views(out@)));
            }
        } else if s[i] == '`' {
            proof {
                lemma_backquote_end(s@, i + 1);
            }
            let mut e: usize = i + 1;
            while e < n && s[e] != '`'
                invariant
                    n == s@.len(),
                    i < e <= n,
                    backquote_end(s@, i + 1) == backquote_end(s@, e as int),
                decreases n - e,
            {
                if s[e] == '\\' {
                    if e + 1 < n {
                        e = e + 2;
                    } else {
                        e = n;
                    }
                } else {
                    e = e + 1;
                }
            }
            let end = if e < n {
                e + 1
            } else {
                n
            };
            push_piece(&mut out, Piece::Substitution(string_of_range(s.as_slice(), i, end)));
            i = end;
            assert(literal_from(s@, i0, acc0) == literal_from(s@, i as int, piece_views(out@)));
        } else {
            let one = vec![s[i]];
            assert(one@ =~= seq![s@[i0]]);
            push_text_exec(&mut out, one.as_slice());
            i = i + 1;
            assert(literal_from(s@, i0, acc0) == literal_from(s@, i as int, piece_views(out@)));
        }
    }
    out
}

/// The parts of a here-document body to expand.
pub fn split_heredoc_body(body: &str) -> (r: Vec<Piece>)
    ensures
        piece_views(r@) == heredoc_from(body@, 0, Seq::empty()),
{
    let s = chars_of(body);
    let n = s.len();
    let mut out: Vec<Piece> = Vec::new();
    let mut i: usize = 0;
    assert(piece_views(out@) =~= Seq::<PieceView>::empty());
    while i < n
        invariant
            n == s@.len(),
            s@ == body@,
            i <= n,
            heredoc_from(s@, i as int, piece_views(out@)) == heredoc_from(s@, 0, Seq::empty()),
        decreases n - i,
    {
        let ghost i0 = i as int;
        let ghost acc0 = piece_views(out@);
        if s[i] == '$' && i + 1 < n {
            let d = s[i + 1];
            if d == '(' {
                proof {
                    crate::expansion::lemma_closing_paren_bounds(s@, i + 2, 1);
                }
                match find_matching_paren_in_str(s.as_slice(), i + 2) {
                    Some(k) => {
                        assert(closing_paren(s@, i0 + 2, 1) == Some(k as int));
                        push_piece(&mut out, Piece::Command(string_of_range(s.as_slice(), i + 2, k)));
                        i = k + 1;
                        assert(heredoc_from(s@, i0, acc0) == heredoc_from(s@, i as int, piece_views(out@)));
                    },
                    None => {
                        let t = vec!['$'];
                        assert(t@ =~= seq!['$']);
                        push_text_exec(&mut out, t.as_slice());
                        i = i + 1;
                        assert(heredoc_from(s@, i0, acc0) == heredoc_from(s@, i as int, piece_views(out@)));
                    },
                }
            } else if d == '{' {
                let close = find_char_exec(s.as_slice(), i + 2, '}');
                if close < n {
                    push_piece(&mut out, Piece::Braced(string_of_range(s.as_slice(), i + 2, close)));
                    i = close + 1;
                    assert(heredoc_from(s@, i0, acc0) == heredoc_from(s@, i as int, piece_views(out@)));
                } else {
                    let t = vec!['$'];
                    assert(t@ =~= seq!['$']);
                    push_text_exec(&mut out, t.as_slice());
                    i = i + 1;
                    assert(heredoc_from(s@, i0, acc0) == heredoc_from(s@, i as int, piece_views(out@)));
                }
            } else if ('a' <= d && d <= 'z') || ('A' <= d && d <= 'Z') || d == '_' {
                let e = name_end_exec(s.as_slice(), i + 1);
                push_piece(&mut out, Piece::Variable(string_of_range(s.as_slice(), i + 1, e)));
                i = e;
                assert(heredoc_from(s@, i0, acc0) == heredoc_from(s@, i as int, piece_views(out@)));
            } else if d == '?' || d == '$' {
                push_piece(&mut out, Piece::Special(d));
                i = i + 2;
                assert(heredoc_from(s@, i0, acc0) == heredoc_from(s@, i as int, piece_views(out@)));
            } else {
                let t = vec!['$'];
                assert(t@ =~= seq!['$']);
                push_text_exec(&mut out, t.as_slice());
                i = i + 1;
                assert(heredoc_from(s@, i0, acc0) == heredoc_from(s@, i as int, piece_views(out@)));
            }
        } else if s[i] == '`' {
            let close = find_char_exec(s.as_slice(), i + 1, '`');
            if close < n {
                push_piece(&mut out, Piece::Command(string_of_range(s.as_slice(), i + 1, close)));
                i = close + 1;
                assert(heredoc_from(s@, i0, acc0) == heredoc_from(s@, i as int, piece_views(out@)));
            } else {
                let t = vec!['`'];
                assert(t@ =~= seq!['`']);
                push_text_exec(&mut out, t.as_slice());
                i = i + 1;
                assert(heredoc_from(s@, i0, acc0) == heredoc_from(s@, i as int, piece_views(out@)));
            }
        } else if s[i] == '\\' && i + 1 < n {
            let e = s[i + 1];
            if e == '$' || e == '`' || e == '\\' {
                let t = vec![e];
                assert(t@ =~= seq![e]);
                push_text_exec(&mut out, t.as_slice());
            } else if e == 'n' {
                let t = vec!['\n'];
                assert(t@ =~= seq!['\n']);
                push_text_exec(&mut out, t.as_slice());
            } else if e == 't' {
                let t = vec!['\t'];
                assert(t@ =~= seq!['\t']);
                push_text_exec(&mut out, t.as_slice());
            } else {
                let t = vec!['\\', e];
                assert(t@ =~= seq!['\\', e]);
                push_text_exec(&mut out, t.as_slice());
            }
            i = i + 2;
            assert(heredoc_from(s@, i0, acc0) == heredoc_from(s@, i as int, piece_views(out@)));
        } else {
            let one = vec![s[i]];
            assert(one@ =~= seq![s@[i0]]);
            push_text_exec(&mut out, one.as_slice());
            i = i + 1;
            assert(heredoc_from(s@, i0, acc0) == heredoc_from(s@, i as int, piece_views(out@)));
        }
    }
    out
}

} // verus!
