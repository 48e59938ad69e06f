//! Syntax highlighting of a command line: the line is split into the
//! lexer's tokens and the text between them, and each piece gets a paint
//! by what it is and by whether a word stands where a command name goes.
use vstd::prelude::*;
use crate::lexer::{Scanned, Step, TokenView, find_char, find_char_exec, lemma_find_char, lemma_next_step, next_step, next_step_exec};
use crate::scan::Kind;
use crate::text::{chars_eq, chars_of, string_of_range};

verus! {

/// How a piece of the line is painted.
#[derive(Debug, Clone, Copy, PartialEq, Eq, Structural)]
pub enum Paint {
    Plain,
    Yellow,
    Cyan,
    LightCyan,
    DarkGray,
    Magenta,
    BoldBlue,
    Green,
    Red,
    /// A command name that is not a builtin: green if an executable of that
    /// name is on the search path, red if not.
    PathCommand,
}

/// A piece of the line with its paint.
#[derive(Debug, Clone, PartialEq)]
pub struct Segment {
    pub paint: Paint,
    pub text: String,
}

/// The paint of a token and whether a command name may follow it, given
/// whether the token stands where a command name goes and whether a word
/// there names a builtin.
pub open spec fn paint_of(t: TokenView, command_position: bool, builtin: bool) -> (Paint, bool) {
    match t {
        TokenView::Word(k, _) => if k == Kind::DoubleQuote || k == Kind::SingleQuote || k == Kind::AnsiC {
            (Paint::Yellow, false)
        } else if k == Kind::Variable || k == Kind::SpecialVariable || k == Kind::BracedVariable
            || k == Kind::CommandSubstitution || k == Kind::Backtick {
            (Paint::Cyan, false)
        } else if k == Kind::ShortFlag || k == Kind::LongFlag || k == Kind::PlusFlag {
            (Paint::DarkGray, false)
        } else if k == Kind::Identifier {
            (
                if !command_position {
                    Paint::Plain
                } else if builtin {
                    Paint::Green
                } else {
                    Paint::PathCommand
                },
                false,
            )
        } else {
            (Paint::Plain, false)
        },
        TokenView::Fixed(k) => fixed_paint(k),
        TokenView::Integer(_) => (Paint::Magenta, false),
        TokenView::Float(_) => (Paint::Magenta, false),
        TokenView::HereDocBody(_, _, _) => (Paint::Yellow, false),
        TokenView::Adjacent => (Paint::Plain, false),
    }
}

/// The paint of a fixed token and whether a command name may follow it.
pub open spec fn fixed_paint(k: Kind) -> (Paint, bool) {
    if k == Kind::Pipe || k == Kind::ParallelPipe || k == Kind::PipeAsk || k == Kind::And || k
        == Kind::Or || k == Kind::Bang || k == Kind::Ampersand {
        (Paint::LightCyan, true)
    } else if k == Kind::Semicolon || k == Kind::DoubleSemicolon || k == Kind::Newline || k
        == Kind::CrLf {
        (Paint::Plain, true)
    } else if k == Kind::GreaterThan || k == Kind::StdoutAppend || k == Kind::StderrRedirect || k
        == Kind::StdinRedirect || k == Kind::StderrToStdout || k == Kind::BothRedirect || k
        == Kind::HereDoc || k == Kind::HereDocStrip {
        (Paint::LightCyan, false)
    } else if k == Kind::Dash || k == Kind::DoubleDash {
        (Paint::DarkGray, false)
    } else if k == Kind::Then || k == Kind::Do || k == Kind::Else {
        (Paint::BoldBlue, true)
    } else if k == Kind::If || k == Kind::Elif || k == Kind::Fi || k == Kind::For || k == Kind::In
        || k == Kind::While || k == Kind::Until || k == Kind::Done || k == Kind::Case || k
        == Kind::Esac || k == Kind::Let || k == Kind::Fn || k == Kind::Match || k
        == Kind::Function {
        (Paint::BoldBlue, false)
    } else if k == Kind::LeftBrace || k == Kind::LeftParen || k == Kind::LeftBracket {
        (Paint::Plain, true)
    } else {
        (Paint::Plain, false)
    }
}

/// The text between tokens, `s[p..q]`: plain, except that from a `#` on it
/// is a comment, painted dark gray.
pub open spec fn gap(s: Seq<char>, p: int, q: int) -> Seq<(Paint, Seq<char>)> {
    if p >= q {
        Seq::empty()
    } else {
        let g = s.subrange(p, q);
        let h = find_char(g, 0, '#');
        if h < g.len() {
            (if h > 0 {
                seq![(Paint::Plain, g.subrange(0, h))]
            } else {
                Seq::empty()
            }) + seq![(Paint::DarkGray, g.subrange(h, g.len() as int))]
        } else {
            seq![(Paint::Plain, g)]
        }
    }
}

/// The pieces of `s` from `i`, where the lexer stands, with whether a
/// command name goes there; `builtin` tells which words name builtins.
pub open spec fn pieces_from(
    s: Seq<char>,
    i: int,
    command_position: bool,
    builtin: spec_fn(Seq<char>) -> bool,
) -> Seq<(Paint, Seq<char>)>
    decreases s.len() - i,
{
    if i < 0 || i > s.len() {
        Seq::empty()
    } else {
        proof {
            lemma_next_step(s, i);
        }
        match next_step(s, i) {
            Step::End => gap(s, i, s.len() as int),
            Step::Lexeme(t, a, e) => {
                let name_is_builtin = match t {
                    TokenView::Word(_, w) => builtin(w),
                    _ => false,
                };
                let (paint, next) = paint_of(t, command_position, name_is_builtin);
                gap(s, i, a) + seq![(paint, s.subrange(a, e))] + pieces_from(s, e, next, builtin)
            },
            Step::Invalid(a, e) => gap(s, i, a) + seq![(Paint::Red, s.subrange(a, e))] + pieces_from(
                s,
                e,
                false,
                builtin,
            ),
        }
    }
}

/// The views of segments.
pub open spec fn segment_views(v: Seq<Segment>) -> Seq<(Paint, Seq<char>)> {
    v.map_values(|g: Segment| (g.paint, g.text@))
}

/// Highlights command lines, knowing the names of the shell's builtins.
pub struct AUSHHighlighter {
    builtins: Vec<String>,
}

impl AUSHHighlighter {
    /// The names of the builtins.
    pub closed spec fn builtin_names(&self) -> Seq<Seq<char>> {
        self.builtins@.map_values(|b: String| b@)
    }

    /// Whether `w` names a builtin.
    pub open spec fn names_builtin(&self, w: Seq<char>) -> bool {
        self.builtin_names().contains(w)
    }

    /// A highlighter for the given builtin names.
    pub fn new(builtins: Vec<String>) -> (h: Self)
        ensures
            h.builtin_names() == builtins@.map_values(|b: String| b@),
    {
        AUSHHighlighter { builtins }
    }

    /// Whether `w` names a builtin.
    pub fn is_builtin(&self, w: &[char]) -> (b: bool)
        ensures
            b == self.names_builtin(w@),
    {
        let mut i: usize = 0;
        while i < self.builtins.len()
            invariant
                i <= self.builtins@.len(),
                forall|j: int| 0 <= j < i ==> self.builtin_names()[j] != w@,
            decreases self.builtins@.len() - i,
        {
            let b = chars_of(self.builtins[i].as_str());
            if chars_eq(b.as_slice(), w) {
                assert(self.builtin_names()[i as int] == w@);
                return true;
            }
            i = i + 1;
        }
        false
    }

    /// The pieces of `line` with their paints: the tokens, the text between
    /// them (with comments), and text no token matches, in red.
    pub fn highlight(&self, line: &str) -> (r: Vec<Segment>)
        ensures
            segment_views(r@) == pieces_from(line@, 0, true, |w: Seq<char>| self.names_builtin(w)),
    {
        let s = chars_of(line);
        let ghost sv = s@;
        let ghost builtin = |w: Seq<char>| self.names_builtin(w);
        let n = s.len();
        let mut out: Vec<Segment> = Vec::new();
        let mut i: usize = 0;
        let mut command_position = true;
        let mut done = false;
        assert(segment_views(out@) =~= Seq::<(Paint, Seq<char>)>::empty());
        assert(Seq::<(Paint, Seq<char>)>::empty() + pieces_from(sv, 0, true, builtin) =~= pieces_from(sv, 0, true, builtin));
        while !done
            invariant
                sv == s@,
                sv == line@,
                n == sv.len(),
                i <= n,
                builtin == (|w: Seq<char>| self.names_builtin(w)),
                !done ==> segment_views(out@) + pieces_from(sv, i as int, command_position, builtin)
                    == pieces_from(sv, 0, true, builtin),
                done ==> segment_views(out@) == pieces_from(sv, 0, true, builtin),
            decreases n - i + (if done {
                0int
            } else {
                1int
            }),
        {
            proof {
                lemma_next_step(sv, i as int);
            }
            let ghost before = segment_views(out@);
            let ghost rest = pieces_from(sv, i as int, command_position, builtin);
            match next_step_exec(s.as_slice(), i) {
                Scanned::End => {
                    push_gap(&mut out, s.as_slice(), i, n);
                    assert(before + rest =~= segment_views(out@));
                    done = true;
                },
                Scanned::Lexeme(t, a, e) => {
                    push_gap(&mut out, s.as_slice(), i, a);
                    let (paint, next) = self.paint_token(&t, command_position, s.as_slice(), a, e);
                    proof {
                        let nb = match t@ {
                            TokenView::Word(_, w) => builtin(w),
                            _ => false,
                        };
                        assert(nb == match t@ {
                            TokenView::Word(_, w) => self.names_builtin(w),
                            _ => false,
                        });
                        assert(rest == gap(sv, i as int, a as int) + seq![(paint, sv.subrange(a as int, e as int))]
                            + pieces_from(sv, e as int, next, builtin));
                    }
                    let ghost mid = segment_views(out@);
                    out.push(Segment { paint, text: string_of_range(s.as_slice(), a, e) });
                    assert(segment_views(out@) =~= mid.push((paint, sv.subrange(a as int, e as int))));
                    assert(before + rest =~= segment_views(out@) + pieces_from(sv, e as int, next, builtin));
                    command_position = next;
                    i = e;
                },
                Scanned::Invalid(a, e) => {
                    push_gap(&mut out, s.as_slice(), i, a);
                    assert(rest == gap(sv, i as int, a as int) + seq![(Paint::Red, sv.subrange(a as int, e as int))]
                        + pieces_from(sv, e as int, false, builtin));
                    let ghost mid = segment_views(out@);
                    out.push(Segment { paint: Paint::Red, text: string_of_range(s.as_slice(), a, e) });
                    assert(segment_views(out@) =~= mid.push((Paint::Red, sv.subrange(a as int, e as int))));
                    assert(before + rest =~= segment_views(out@) + pieces_from(sv, e as int, false, builtin));
                    command_position = false;
                    i = e;
                },
            }
        }
        out
    }

    /// The paint of token `t`, found at `s[a..e]`, and whether a command name
    /// may follow it.
    fn paint_token(&self, t: &crate::lexer::Token, command_position: bool, s: &[char], a: usize, e: usize) -> (r: (Paint, bool))
        ensures
            r == paint_of(
                t@,
                command_position,
                match t@ {
                    TokenView::Word(_, w) => self.names_builtin(w),
                    _ => false,
                },
            ),
    {
        match t {
            crate::lexer::Token::Identifier(name) => {
                if !command_position {
                    (Paint::Plain, false)
                } else {
                    let w = chars_of(name.as_str());
                    if self.is_builtin(w.as_slice()) {
                        (Paint::Green, false)
                    } else {
                        (Paint::PathCommand, false)
                    }
                }
            },
            crate::lexer::Token::String(_) | crate::lexer::Token::SingleQuotedString(_)
            | crate::lexer::Token::AnsiCString(_) => (Paint::Yellow, false),
            crate::lexer::Token::Variable(_) | crate::lexer::Token::SpecialVariable(_)
            | crate::lexer::Token::BracedVariable(_) | crate::lexer::Token::CommandSubstitution(_)
            | crate::lexer::Token::BacktickSubstitution(_) => (Paint::Cyan, false),
            crate::lexer::Token::ShortFlag(_) | crate::lexer::Token::LongFlag(_)
            | crate::lexer::Token::PlusFlag(_) | crate::lexer::Token::Dash
            | crate::lexer::Token::DoubleDash => (Paint::DarkGray, false),
            crate::lexer::Token::Integer(_) | crate::lexer::Token::Float(_) => (Paint::Magenta, false),
            crate::lexer::Token::HereDocBody(_) => (Paint::Yellow, false),
            crate::lexer::Token::Pipe | crate::lexer::Token::ParallelPipe | crate::lexer::Token::PipeAsk
            | crate::lexer::Token::And | crate::lexer::Token::Or | crate::lexer::Token::Bang
            | crate::lexer::Token::Ampersand => (Paint::LightCyan, true),
            crate::lexer::Token::Semicolon | crate::lexer::Token::DoubleSemicolon
            | crate::lexer::Token::Newline | crate::lexer::Token::CrLf => (Paint::Plain, true),
            crate::lexer::Token::GreaterThan | crate::lexer::Token::StdoutAppend
            | crate::lexer::Token::StderrRedirect | crate::lexer::Token::StdinRedirect
            | crate::lexer::Token::StderrToStdout | crate::lexer::Token::BothRedirect
            | crate::lexer::Token::HereDoc | crate::lexer::Token::HereDocStrip => (Paint::LightCyan, false),
            crate::lexer::Token::Then | crate::lexer::Token::Do | crate::lexer::Token::Else => (Paint::BoldBlue, true),
            crate::lexer::Token::If | crate::lexer::Token::Elif | crate::lexer::Token::Fi
            | crate::lexer::Token::For | crate::lexer::Token::In | crate::lexer::Token::While
            | crate::lexer::Token::Until | crate::lexer::Token::Done | crate::lexer::Token::Case
            | crate::lexer::Token::Esac | crate::lexer::Token::Let | crate::lexer::Token::Fn
            | crate::lexer::Token::Match | crate::lexer::Token::Function => (Paint::BoldBlue, false),
            crate::lexer::Token::LeftBrace | crate::lexer::Token::LeftParen
            | crate::lexer::Token::LeftBracket => (Paint::Plain, true),
            _ => (Paint::Plain, false),
        }
    }
}

/// Appends the pieces of the text `s[p..q]` between tokens.
fn push_gap(out: &mut Vec<Segment>, s: &[char], p: usize, q: usize)
    requires
        p <= q <= s@.len(),
    ensures
        segment_views(final(out)@) == segment_views(old(out)@) + gap(s@, p as int, q as int),
{
    let ghost before = segment_views(out@);
    if p >= q {
        assert(before + gap(s@, p as int, q as int) =~= before);
        return;
    }
    let g = crate::lexer::chars_range_pub(s, p, q);
    let h = find_char_exec(g.as_slice(), 0, '#');
    if h < g.len() {
        if h > 0 {
            out.push(Segment { paint: Paint::Plain, text: string_of_range(g.as_slice(), 0, h) });
        }
        out.push(Segment { paint: Paint::DarkGray, text: string_of_range(g.as_slice(), h, g.len()) });
    } else {
        out.push(Segment { paint: Paint::Plain, text: string_of_range(g.as_slice(), 0, g.len()) });
        assert(g@.subrange(0, g@.len() as int) =~= g@);
    }
    assert(segment_views(out@) =~= before + gap(s@, p as int, q as int));
}

/// The text of pieces, concatenated.
pub open spec fn text_of(ps: Seq<(Paint, Seq<char>)>) -> Seq<char>
    decreases ps.len(),
{
    if ps.len() == 0 {
        Seq::empty()
    } else {
        ps[0].1 + text_of(ps.drop_first())
    }
}

proof fn lemma_text_of_add(a: Seq<(Paint, Seq<char>)>, b: Seq<(Paint, Seq<char>)>)
    ensures
        text_of(a + b) == text_of(a) + text_of(b),
    decreases a.len(),
{
    if a.len() == 0 {
        assert(a + b =~= b);
        assert(Seq::<char>::empty() + text_of(b) =~= text_of(b));
    } else {
        assert((a + b).drop_first() =~= a.drop_first() + b);
        lemma_text_of_add(a.drop_first(), b);
        assert(a[0].1 + (text_of(a.drop_first()) + text_of(b)) =~= (a[0].1 + text_of(a.drop_first()))
            + text_of(b));
    }
}

proof fn lemma_text_of_one(x: (Paint, Seq<char>))
    ensures
        text_of(seq![x]) == x.1,
{
    assert(seq![x].drop_first() =~= Seq::<(Paint, Seq<char>)>::empty());
    assert(text_of(Seq::<(Paint, Seq<char>)>::empty()) == Seq::<char>::empty());
    assert(seq![x][0] == x);
    assert(x.1 + Seq::<char>::empty() =~= x.1);
}

proof fn lemma_gap_text(s: Seq<char>, p: int, q: int)
    requires
        0 <= p <= q <= s.len(),
    ensures
        text_of(gap(s, p, q)) == s.subrange(p, q),
{
    if p >= q {
        assert(s.subrange(p, q) =~= Seq::<char>::empty());
    } else {
        let g = s.subrange(p, q);
        lemma_find_char(g, 0, '#');
        let h = find_char(g, 0, '#');
        if h < g.len() {
            let d = seq![(Paint::DarkGray, g.subrange(h, g.len() as int))];
            lemma_text_of_one(d[0]);
            if h > 0 {
                let a = seq![(Paint::Plain, g.subrange(0, h))];
                lemma_text_of_one(a[0]);
                lemma_text_of_add(a, d);
                assert(g.subrange(0, h) + g.subrange(h, g.len() as int) =~= g);
            } else {
                assert(Seq::<(Paint, Seq<char>)>::empty() + d =~= d);
                assert(g.subrange(h, g.len() as int) =~= g);
            }
        } else {
            lemma_text_of_one((Paint::Plain, g));
        }
    }
}

/// Highlighting keeps the text: the pieces from `i`, concatenated, are the
/// rest of the line.
pub proof fn lemma_pieces_text(s: Seq<char>, i: int, cp: bool, builtin: spec_fn(Seq<char>) -> bool)
    requires
        0 <= i <= s.len(),
    ensures
        text_of(pieces_from(s, i, cp, builtin)) == s.subrange(i, s.len() as int),
    decreases s.len() - i,
{
    lemma_next_step(s, i);
    match next_step(s, i) {
        Step::End => {
            lemma_gap_text(s, i, s.len() as int);
        },
        Step::Lexeme(t, a, e) => {
            let nb = match t {
                TokenView::Word(_, w) => builtin(w),
                _ => false,
            };
            let (paint, next) = paint_of(t, cp, nb);
            let g = gap(s, i, a);
            let x = seq![(paint, s.subrange(a, e))];
            let rest = pieces_from(s, e, next, builtin);
            lemma_pieces_text(s, e, next, builtin);
            lemma_gap_text(s, i, a);
            lemma_text_of_one(x[0]);
            lemma_text_of_add(g + x, rest);
            lemma_text_of_add(g, x);
            assert(s.subrange(i, a) + s.subrange(a, e) + s.subrange(e, s.len() as int) =~= s.subrange(
                i,
                s.len() as int,
            ));
        },
        Step::Invalid(a, e) => {
            let g = gap(s, i, a);
            let x = seq![(Paint::Red, s.subrange(a, e))];
            let rest = pieces_from(s, e, false, builtin);
            lemma_pieces_text(s, e, false, builtin);
            lemma_gap_text(s, i, a);
            lemma_text_of_one(x[0]);
            lemma_text_of_add(g + x, rest);
            lemma_text_of_add(g, x);
            assert(s.subrange(i, a) + s.subrange(a, e) + s.subrange(e, s.len() as int) =~= s.subrange(
                i,
                s.len() as int,
            ));
        },
    }
}

/// Highlighting a line loses and adds no text: its pieces, concatenated,
/// are the line.
pub proof fn law_highlight_keeps_text(line: Seq<char>, builtin: spec_fn(Seq<char>) -> bool)
    ensures
        text_of(pieces_from(line, 0, true, builtin)) == line,
{
    lemma_pieces_text(line, 0, true, builtin);
    assert(line.subrange(0, line.len() as int) =~= line);
}

/// Every piece of a gap holds some text.
proof fn lemma_gap_nonempty(s: Seq<char>, p: int, q: int)
    requires
        0 <= p <= q <= s.len(),
    ensures
        forall|k: int| 0 <= k < gap(s, p, q).len() ==> (#[trigger] gap(s, p, q)[k]).1.len() > 0,
{
    if p < q {
        let g = s.subrange(p, q);
        lemma_find_char(g, 0, '#');
    }
}

proof fn lemma_pieces_nonempty(s: Seq<char>, i: int, command_position: bool, builtin: spec_fn(Seq<char>) -> bool)
    requires
        0 <= i <= s.len(),
    ensures
        forall|k: int|
            0 <= k < pieces_from(s, i, command_position, builtin).len() ==> (#[trigger] pieces_from(
                s,
                i,
                command_position,
                builtin,
            )[k]).1.len() > 0,
    decreases s.len() - i,
{
    lemma_next_step(s, i);
    match next_step(s, i) {
        Step::End => {
            lemma_gap_nonempty(s, i, s.len() as int);
        },
        Step::Lexeme(t, a, e) => {
            let name_is_builtin = match t {
                TokenView::Word(_, w) => builtin(w),
                _ => false,
            };
            let (paint, next) = paint_of(t, command_position, name_is_builtin);
            lemma_gap_nonempty(s, i, a);
            lemma_pieces_nonempty(s, e, next, builtin);
            let g = gap(s, i, a);
            let x = seq![(paint, s.subrange(a, e))];
            let rest = pieces_from(s, e, next, builtin);
            assert forall|k: int| 0 <= k < (g + x + rest).len() implies (#[trigger] (g + x + rest)[k]).1.len() > 0 by {
                if k < g.len() {
                    assert((g + x + rest)[k] == g[k]);
                } else if k == g.len() {
                    assert((g + x + rest)[k] == x[0]);
                } else {
                    assert((g + x + rest)[k] == rest[k - g.len() - 1]);
                }
            }
        },
        Step::Invalid(a, e) => {
            lemma_gap_nonempty(s, i, a);
            lemma_pieces_nonempty(s, e, false, builtin);
            let g = gap(s, i, a);
            let x = seq![(Paint::Red, s.subrange(a, e))];
            let rest = pieces_from(s, e, false, builtin);
            assert forall|k: int| 0 <= k < (g + x + rest).len() implies (#[trigger] (g + x + rest)[k]).1.len() > 0 by {
                if k < g.len() {
                    assert((g + x + rest)[k] == g[k]);
                } else if k == g.len() {
                    assert((g + x + rest)[k] == x[0]);
                } else {
                    assert((g + x + rest)[k] == rest[k - g.len() - 1]);
                }
            }
        },
    }
}

/// No piece of a highlighted line is empty.
pub proof fn law_highlight_pieces_nonempty(line: Seq<char>, builtin: spec_fn(Seq<char>) -> bool)
    ensures
        forall|k: int|
            0 <= k < pieces_from(line, 0, true, builtin).len() ==> (#[trigger] pieces_from(line, 0, true, builtin)[k]).1.len() > 0,
{
    lemma_pieces_nonempty(line, 0, true, builtin);
}

/// A piece's paint once the search path is known: a command name that is
/// not a builtin is green when it is among `on_path`, red when not; other
/// paints stay.
pub open spec fn settled_paint(p: (Paint, Seq<char>), on_path: Seq<Seq<char>>) -> (Paint, Seq<char>) {
    if p.0 == Paint::PathCommand {
        (if on_path.contains(p.1) {
            Paint::Green
        } else {
            Paint::Red
        }, p.1)
    } else {
        p
    }
}

/// Settles the paints of command names that are not builtins, given the
/// names found on the search path.
pub fn settle_path_commands(segments: Vec<Segment>, on_path: &[String]) -> (r: Vec<Segment>)
    ensures
        segment_views(r@) == segment_views(segments@).map_values(
            |p: (Paint, Seq<char>)| settled_paint(p, crate::text::views(on_path@)),
        ),
{
    let ghost names = crate::text::views(on_path@);
    let ghost target = segment_views(segments@).map_values(|p: (Paint, Seq<char>)| settled_paint(p, names));
    let mut out: Vec<Segment> = Vec::new();
    let mut i: usize = 0;
    let mut rest = segments;
    let ghost all = rest@;
    // take the segments from the back and rebuild in order
    let mut back: Vec<Segment> = Vec::new();
    while rest.len() > 0
        invariant
            rest@ + back@.reverse() == all,
        decreases rest@.len(),
    {
        let seg = rest.pop().unwrap();
        let ghost b0 = back@;
        back.push(seg);
        assert(rest@ + back@.reverse() =~= all) by {
            assert(back@.reverse() =~= seq![seg] + b0.reverse());
        }
    }
    assert(back@.reverse() =~= all);
    while back.len() > 0
        invariant
            i == out@.len(),
            out@.len() + back@.len() == all.len(),
            back@.reverse() == all.skip(i as int),
            names == crate::text::views(on_path@),
            target == segment_views(all).map_values(|p: (Paint, Seq<char>)| settled_paint(p, names)),
            segment_views(out@) == target.take(i as int),
        decreases back@.len(),
    {
        let seg = back.pop().unwrap();
        let ghost sv = (seg.paint, seg.text@);
        assert(all.skip(i as int)[0] == seg) by {
            assert(back@.push(seg).reverse()[0] == seg);
        }
        assert(back@.reverse() =~= all.skip(i + 1)) by {
            assert(all.skip(i as int).drop_first() =~= all.skip(i + 1));
            assert(back@.push(seg).reverse().drop_first() =~= back@.reverse());
        }
        let paint = if seg.paint == Paint::PathCommand {
            let mut found = false;
            let mut k: usize = 0;
            while k < on_path.len()
                invariant
                    k <= on_path@.len(),
                    names == crate::text::views(on_path@),
                    found == (exists|q: int| 0 <= q < k && names[q] == seg.text@),
                decreases on_path@.len() - k,
            {
                assert(names[k as int] == on_path@[k as int]@);
                let same = chars_eq(chars_of(on_path[k].as_str()).as_slice(), chars_of(seg.text.as_str()).as_slice());
                if same {
                    found = true;
                }
                assert(found == (exists|q: int| 0 <= q < k + 1 && names[q] == seg.text@)) by {
                    if same {
                        assert(names[k as int] == seg.text@);
                    }
                    if exists|q: int| 0 <= q < k + 1 && names[q] == seg.text@ {
                        let q = choose|q: int| 0 <= q < k + 1 && names[q] == seg.text@;
                        if q < k {
                            assert(exists|q2: int| 0 <= q2 < k && names[q2] == seg.text@);
                        }
                    }
                }
                k = k + 1;
            }
            if found {
                Paint::Green
            } else {
                Paint::Red
            }
        } else {
            seg.paint
        };
        proof {
            assert(names.contains(seg.text@) == (exists|q: int| 0 <= q < on_path@.len() && names[q] == seg.text@));
        }
        let ghost before = segment_views(out@);
        out.push(Segment { paint, text: seg.text });
        assert(target[i as int] == settled_paint(sv, names));
        assert(segment_views(out@) =~= before.push(target[i as int]));
        assert(target.take(i + 1) =~= target.take(i as int).push(target[i as int]));
        i = out.len();
    }
    assert(target.take(i as int) =~= target);
    out
}

} // verus!
