//! The interactive prompt: the default prompt (directory, Git branch, last
//! exit status) and prompt formats with `{...}` tokens.
use vstd::prelude::*;
use crate::expansion::utf8_len;
use crate::lexer::{find_char, find_char_exec, lemma_find_char};
use crate::table::{hex_pair, hex_pair_exec};
use crate::text::{append_chars, chars_eq, chars_of, dec, dec_chars, dec_int, i64_to_string, push_char};

verus! {

/// What a prompt shows, gathered by the caller.
#[derive(Debug)]
pub struct PromptContext {
    /// The working directory, shortened (`~` for the home directory).
    pub cwd: String,
    /// The current Git branch, if in a repository.
    pub git_branch: Option<String>,
    /// The exit status of the last command.
    pub exit_code: i32,
    pub user: String,
    pub host: String,
    /// The local time as `HH:MM`.
    pub time: String,
}

/// `ESC [` followed by `code` and `m`: a terminal style sequence.
pub open spec fn sgr(code: Seq<char>) -> Seq<char> {
    seq!['\u{1b}', '['] + code + seq!['m']
}

/// The text a token `{tok}` of a prompt format stands for.
pub open spec fn token_text(tok: Seq<char>, ctx: PromptContext) -> Seq<char> {
    if tok == seq!['c', 'w', 'd'] {
        ctx.cwd@
    } else if tok == seq!['g', 'i', 't'] {
        match ctx.git_branch {
            Some(b) => b@,
            None => Seq::empty(),
        }
    } else if tok == seq!['e', 'x', 'i', 't'] {
        if ctx.exit_code != 0 {
            dec_int(ctx.exit_code as int)
        } else {
            Seq::empty()
        }
    } else if tok == seq!['u', 's', 'e', 'r'] {
        ctx.user@
    } else if tok == seq!['h', 'o', 's', 't'] {
        ctx.host@
    } else if tok == seq!['t', 'i', 'm', 'e'] {
        ctx.time@
    } else if tok == seq!['b', 'o', 'l', 'd'] {
        sgr(seq!['1'])
    } else if tok == seq!['d', 'i', 'm'] {
        sgr(seq!['2'])
    } else if tok == seq!['i', 't', 'a', 'l', 'i', 'c'] {
        sgr(seq!['3'])
    } else if tok == seq!['r', 'e', 's', 'e', 't'] {
        sgr(seq!['0'])
    } else if tok == seq!['n', 'l'] {
        seq!['\n']
    } else if tok.len() > 0 && tok[0] == '#' && utf8_len(tok) == 7 {
        if tok.len() == 7 {
            match (hex_pair(tok[1], tok[2]), hex_pair(tok[3], tok[4]), hex_pair(tok[5], tok[6])) {
                (Some(r), Some(g), Some(b)) => sgr(
                    seq!['3', '8', ';', '2', ';'] + dec(r as nat) + seq![';'] + dec(g as nat) + seq![';']
                        + dec(b as nat),
                ),
                _ => Seq::empty(),
            }
        } else {
            Seq::empty()
        }
    } else {
        seq!['{'] + tok + seq!['}']
    }
}

/// A prompt format from `i` with its tokens expanded: `{name}` runs to the
/// next `}` (or the end of the format) and is replaced by what it stands
/// for; other characters stay.
pub open spec fn expand_from(fmt: Seq<char>, i: int, ctx: PromptContext) -> Seq<char>
    decreases fmt.len() - i,
{
    if i < 0 || i >= fmt.len() {
        Seq::empty()
    } else if fmt[i] == '{' {
        proof {
            lemma_find_char(fmt, i + 1, '}');
        }
        let j = find_char(fmt, i + 1, '}');
        token_text(fmt.subrange(i + 1, j), ctx) + expand_from(
            fmt,
            if j < fmt.len() {
                j + 1
            } else {
                fmt.len() as int
            },
            ctx,
        )
    } else {
        seq![fmt[i]] + expand_from(fmt, i + 1, ctx)
    }
}

/// Whether `v` spells `lit`.
fn is_word(v: &[char], lit: &[char]) -> (b: bool)
    ensures
        b == (v@ == lit@),
{
    chars_eq(v, lit)
}

/// The text of `dec(n)`.
fn dec_text(n: u8) -> (r: Vec<char>)
    ensures
        r@ == dec(n as nat),
{
    dec_chars(n as u64)
}

/// The UTF-8 length of `v`, if it is at most 8.
fn short_utf8_len(v: &[char]) -> (r: usize)
    ensures
        r == (if utf8_len(v@) <= 8 {
            utf8_len(v@)
        } else {
            9nat
        }),
{
    let mut acc: usize = 0;
    let mut k: usize = 0;
    while k < v.len()
        invariant
            k <= v@.len(),
            acc == utf8_len(v@.take(k as int)),
            acc <= 8,
        decreases v@.len() - k,
    {
        assert(v@.take(k + 1).drop_last() =~= v@.take(k as int));
        let w = crate::expansion::char_utf8_width(v[k]);
        if acc + w > 8 {
            proof {
                crate::expansion::lemma_utf8_len_prefix_mono(v@, k + 1);
            }
            return 9;
        }
        acc = acc + w;
        k = k + 1;
    }
    assert(v@.take(k as int) =~= v@);
    acc
}

/// Appends what token `tok` stands for.
fn push_token_text(out: &mut String, tok: &[char], ctx: &PromptContext)
    ensures
        final(out)@ == old(out)@ + token_text(tok@, *ctx),
{
    let ghost before = out@;
    if is_word(tok, &['c', 'w', 'd']) {
        out.append(ctx.cwd.as_str());
    } else if is_word(tok, &['g', 'i', 't']) {
        match &ctx.git_branch {
            Some(b) => out.append(b.as_str()),
            None => {},
        }
    } else if is_word(tok, &['e', 'x', 'i', 't']) {
        if ctx.exit_code != 0 {
            let t = i64_to_string(ctx.exit_code as i64);
            out.append(t.as_str());
        }
    } else if is_word(tok, &['u', 's', 'e', 'r']) {
        out.append(ctx.user.as_str());
    } else if is_word(tok, &['h', 'o', 's', 't']) {
        out.append(ctx.host.as_str());
    } else if is_word(tok, &['t', 'i', 'm', 'e']) {
        out.append(ctx.time.as_str());
    } else if is_word(tok, &['b', 'o', 'l', 'd']) {
        append_chars(out, &['\u{1b}', '[', '1', 'm']);
    } else if is_word(tok, &['d', 'i', 'm']) {
        append_chars(out, &['\u{1b}', '[', '2', 'm']);
    } else if is_word(tok, &['i', 't', 'a', 'l', 'i', 'c']) {
        append_chars(out, &['\u{1b}', '[', '3', 'm']);
    } else if is_word(tok, &['r', 'e', 's', 'e', 't']) {
        append_chars(out, &['\u{1b}', '[', '0', 'm']);
    } else if is_word(tok, &['n', 'l']) {
        push_char(out, '\n');
    } else if tok.len() > 0 && tok[0] == '#' && short_utf8_len(tok) == 7 {
        if tok.len() == 7 {
            match (
                hex_pair_exec(tok[1], tok[2]),
                hex_pair_exec(tok[3], tok[4]),
                hex_pair_exec(tok[5], tok[6]),
            ) {
                (Some(r), Some(g), Some(b)) => {
                    append_chars(out, &['\u{1b}', '[', '3', '8', ';', '2', ';']);
                    let rs = dec_text(r);
                    append_chars(out, rs.as_slice());
                    push_char(out, ';');
                    let gs = dec_text(g);
                    append_chars(out, gs.as_slice());
                    push_char(out, ';');
                    let bs = dec_text(b);
                    append_chars(out, bs.as_slice());
                    push_char(out, 'm');
                },
                _ => {},
            }
        }
    } else {
        push_char(out, '{');
        append_chars(out, tok);
        push_char(out, '}');
    }
    assert(out@ =~= before + token_text(tok@, *ctx));
}

/// The prompt format `fmt` with its tokens expanded: `{cwd}`, `{git}`,
/// `{exit}` (empty for status 0), `{user}`, `{host}`, `{time}`, the styles
/// `{bold}`, `{dim}`, `{italic}`, `{reset}`, `{nl}` for a newline, and
/// `{#rrggbb}` for a foreground color; unknown tokens stay as written.
pub fn expand_prompt(fmt: &str, ctx: &PromptContext) -> (r: String)
    ensures
        r@ == expand_from(fmt@, 0, *ctx),
{
    let f = chars_of(fmt);
    let n = f.len();
    let mut out = String::new();
    let mut i: usize = 0;
    assert(out@ + expand_from(f@, 0, *ctx) =~= expand_from(f@, 0, *ctx));
    while i < n
        invariant
            n == f@.len(),
            f@ == fmt@,
            i <= n,
            out@ + expand_from(f@, i as int, *ctx) == expand_from(f@, 0, *ctx),
        decreases n - i,
    {
        let ghost before = out@;
        let ghost rest = expand_from(f@, i as int, *ctx);
        if f[i] == '{' {
            let j = find_char_exec(f.as_slice(), i + 1, '}');
            let tok = crate::lexer::chars_range_pub(f.as_slice(), i + 1, j);
            push_token_text(&mut out, tok.as_slice(), ctx);
            i = if j < n {
                j + 1
            } else {
                n
            };
        } else {
            push_char(&mut out, f[i]);
            i = i + 1;
        }
        assert(before + rest =~= out@ + expand_from(f@, i as int, *ctx));
    }
    assert(out@ + Seq::<char>::empty() =~= out@);
    out
}

/// The default prompt: the directory, the Git branch in yellow, a non-zero
/// exit status in red, and a cyan `>`.
pub open spec fn default_prompt(ctx: PromptContext) -> Seq<char> {
    ctx.cwd@ + (match ctx.git_branch {
        Some(b) => seq![' '] + sgr(seq!['3', '3']) + seq!['('] + b@ + seq![')'] + sgr(seq!['0']),
        None => Seq::empty(),
    }) + (if ctx.exit_code != 0 {
        seq![' '] + sgr(seq!['3', '1']) + seq!['['] + dec_int(ctx.exit_code as int) + seq![']'] + sgr(
            seq!['0'],
        )
    } else {
        Seq::empty()
    }) + sgr(seq!['3', '6']) + seq!['>'] + sgr(seq!['0']) + seq![' ']
}

/// The prompt: the expanded format when one is set, else the default.
pub fn prompt_indicator(format: Option<&str>, ctx: &PromptContext) -> (r: String)
    ensures
        r@ == (match format {
            Some(f) => expand_from(f@, 0, *ctx),
            None => default_prompt(*ctx),
        }),
{
    match format {
        Some(f) => expand_prompt(f, ctx),
        None => {
            let mut p = ctx.cwd.clone();
            match &ctx.git_branch {
                Some(b) => {
                    append_chars(&mut p, &[' ', '\u{1b}', '[', '3', '3', 'm', '(']);
                    p.append(b.as_str());
                    append_chars(&mut p, &[')', '\u{1b}', '[', '0', 'm']);
                },
                None => {},
            }
            if ctx.exit_code != 0 {
                append_chars(&mut p, &[' ', '\u{1b}', '[', '3', '1', 'm', '[']);
                let t = i64_to_string(ctx.exit_code as i64);
                p.append(t.as_str());
                append_chars(&mut p, &[']', '\u{1b}', '[', '0', 'm']);
            }
            append_chars(&mut p, &['\u{1b}', '[', '3', '6', 'm', '>', '\u{1b}', '[', '0', 'm', ' ']);
            assert(p@ =~= default_prompt(*ctx));
            p
        },
    }
}

/// The indicator of a reverse history search: `(reverse-search: term) `,
/// with `failing ` before `reverse-search` when nothing matches.
pub fn history_search_indicator(failing: bool, term: &str) -> (r: String)
    ensures
        r@ == seq!['('] + (if failing {
            seq!['f', 'a', 'i', 'l', 'i', 'n', 'g', ' ']
        } else {
            Seq::empty()
        }) + seq!['r', 'e', 'v', 'e', 'r', 's', 'e', '-', 's', 'e', 'a', 'r', 'c', 'h', ':', ' '] + term@
            + seq![')', ' '],
{
    let mut r = String::new();
    push_char(&mut r, '(');
    if failing {
        append_chars(&mut r, &['f', 'a', 'i', 'l', 'i', 'n', 'g', ' ']);
    }
    append_chars(&mut r, &['r', 'e', 'v', 'e', 'r', 's', 'e', '-', 's', 'e', 'a', 'r', 'c', 'h', ':', ' ']);
    r.append(term);
    append_chars(&mut r, &[')', ' ']);
    r
}

} // verus!
