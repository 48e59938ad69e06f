//! Resolving the parts of a word into its text: variables and braced
//! expansions against the shell's variables, special and positional
//! parameters against the shell's parameters, and command substitutions
//! by their output, which the caller has from running them.
use vstd::prelude::*;
use crate::braced::{expand_braced_variable, lookup_var, or_empty, spec_expand_braced, var_value};
use crate::literal::{piece_views, Piece, PieceView};
use crate::text::{append_str, chars_of, dec, dec_int, i64_to_string, join, join_strings, owned, u64_to_string, views};

verus! {

/// The parameters of the shell that special and positional parameters
/// read.
pub struct ShellParams {
    /// `$1`, `$2`, ...
    pub positional: Vec<String>,
    /// `$?`
    pub last_exit: i32,
    /// `$$`
    pub pid: u32,
    /// `$!`, when a job was started in the background.
    pub last_bg_pid: Option<u32>,
    /// `$-`
    pub option_flags: String,
    /// `$_`
    pub last_arg: String,
}

/// The value of the special parameter `$c`.
pub open spec fn special_value(c: char, p: ShellParams) -> Seq<char> {
    if c == '?' {
        dec_int(p.last_exit as int)
    } else if c == '$' {
        dec(p.pid as nat)
    } else if c == '!' {
        match p.last_bg_pid {
            Some(b) => dec(b as nat),
            None => Seq::empty(),
        }
    } else if c == '#' {
        dec(p.positional@.len())
    } else if c == '@' || c == '*' {
        join(views(p.positional@), " "@)
    } else if c == '-' {
        p.option_flags@
    } else if c == '_' {
        p.last_arg@
    } else {
        Seq::empty()
    }
}

/// The value of `$n`: for 0 the variable `0`, or `rush` when it is unset;
/// else the `n`th positional parameter, or empty.
pub open spec fn positional_value(n: nat, vars: Seq<(String, String)>, p: ShellParams) -> Seq<char> {
    if n == 0 {
        match var_value(vars, "0"@) {
            Some(v) => v,
            None => "rush"@,
        }
    } else if n <= p.positional@.len() {
        p.positional@[n - 1]@
    } else {
        Seq::empty()
    }
}

/// The text of parts `ps`, where the command substitutions among them
/// give, in order, the outputs `subs` (empty once they run out).
pub open spec fn resolved(
    ps: Seq<PieceView>,
    vars: Seq<(String, String)>,
    p: ShellParams,
    subs: Seq<Seq<char>>,
) -> Seq<char>
    decreases ps.len(),
{
    if ps.len() == 0 {
        Seq::empty()
    } else {
        let rest = ps.drop_first();
        match ps[0] {
            PieceView::Text(t) => t + resolved(rest, vars, p, subs),
            PieceView::Variable(n) => or_empty(var_value(vars, n)) + resolved(rest, vars, p, subs),
            PieceView::Braced(e) => spec_expand_braced(e, vars).0 + resolved(rest, vars, p, subs),
            PieceView::Special(c) => special_value(c, p) + resolved(rest, vars, p, subs),
            PieceView::Positional(n) => positional_value(n, vars, p) + resolved(rest, vars, p, subs),
            _ => if subs.len() > 0 {
                subs[0] + resolved(rest, vars, p, subs.drop_first())
            } else {
                resolved(rest, vars, p, subs)
            },
        }
    }
}

/// The value of a variable, or empty.
fn var_or_empty(vars: &[(String, String)], name: &str) -> (r: String)
    ensures
        r@ == or_empty(var_value(vars@, name@)),
{
    let n = chars_of(name);
    match lookup_var(vars, n.as_slice()) {
        Some(v) => v,
        None => String::new(),
    }
}

/// The value of the special parameter `$c`.
fn special(c: char, p: &ShellParams) -> (r: String)
    ensures
        r@ == special_value(c, *p),
{
    if c == '?' {
        i64_to_string(p.last_exit as i64)
    } else if c == '$' {
        u64_to_string(p.pid as u64)
    } else if c == '!' {
        match p.last_bg_pid {
            Some(b) => u64_to_string(b as u64),
            None => String::new(),
        }
    } else if c == '#' {
        u64_to_string(p.positional.len() as u64)
    } else if c == '@' || c == '*' {
        join_strings(p.positional.as_slice(), " ")
    } else if c == '-' {
        owned(p.option_flags.as_str())
    } else if c == '_' {
        owned(p.last_arg.as_str())
    } else {
        String::new()
    }
}

/// The value of `$n`.
fn positional(n: usize, vars: &[(String, String)], p: &ShellParams) -> (r: String)
    ensures
        r@ == positional_value(n as nat, vars@, *p),
{
    if n == 0 {
        let zero = chars_of("0");
        match lookup_var(vars, zero.as_slice()) {
            Some(v) => v,
            None => owned("rush"),
        }
    } else if n <= p.positional.len() {
        owned(p.positional[n - 1].as_str())
    } else {
        String::new()
    }
}

/// The text of a word from its parts: text as it is, variables and braced
/// expansions by `vars`, special and positional parameters by `p`, and the
/// command substitutions, in order, by `subs`, the outputs of running them.
pub fn resolve_pieces(
    pieces: &[Piece],
    vars: &[(String, String)],
    p: &ShellParams,
    subs: &[String],
) -> (r: String)
    ensures
        r@ == resolved(piece_views(pieces@), vars@, *p, views(subs@)),
{
    let ghost ps = piece_views(pieces@);
    let ghost ss = views(subs@);
    let mut out = String::new();
    let mut i: usize = 0;
    let mut k: usize = 0;
    assert(ps.skip(0) =~= ps);
    assert(ss.skip(0) =~= ss);
    while i < pieces.len()
        invariant
            i <= pieces@.len(),
            k <= subs@.len(),
            ps == piece_views(pieces@),
            ss == views(subs@),
            out@ + resolved(ps.skip(i as int), vars@, *p, ss.skip(k as int)) == resolved(ps, vars@, *p, ss),
        decreases pieces@.len() - i,
    {
        let ghost o0 = out@;
        let ghost rest_subs = ss.skip(k as int);
        assert(ps.skip(i as int)[0] == pieces@[i as int]@);
        assert(ps.skip(i as int).drop_first() =~= ps.skip(i + 1));
        match &pieces[i] {
            Piece::Text(t) => {
                append_str(&mut out, t.as_str());
            },
            Piece::Variable(n) => {
                let v = var_or_empty(vars, n.as_str());
                append_str(&mut out, v.as_str());
            },
            Piece::Braced(e) => {
                let b = expand_braced_variable(e.as_str(), vars);
                append_str(&mut out, b.value.as_str());
            },
            Piece::Special(c) => {
                let v = special(*c, p);
                append_str(&mut out, v.as_str());
            },
            Piece::Positional(n) => {
                let v = positional(*n, vars, p);
                append_str(&mut out, v.as_str());
            },
            _ => {
                if k < subs.len() {
                    assert(rest_subs[0] == subs@[k as int]@);
                    assert(rest_subs.drop_first() =~= ss.skip(k + 1));
                    append_str(&mut out, subs[k].as_str());
                    k = k + 1;
                }
            },
        }
        assert(o0 + (out@.skip(o0.len() as int)) == out@);
        i = i + 1;
    }
    assert(ps.skip(pieces@.len() as int) =~= Seq::<PieceView>::empty());
    assert(out@ + Seq::<char>::empty() =~= out@);
    out
}

} // verus!
