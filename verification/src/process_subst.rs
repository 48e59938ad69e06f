//! Markers that carry a process substitution through a list of words: the
//! path of the file it reads or writes and its command, in one word that
//! the command runner recognises again. Making the path and running the
//! command are the shell's part.
use vstd::prelude::*;
use crate::text::{chars_of, contains_sub, has_prefix, has_sub, string_of};

verus! {

/// The start of a marker for a process substitution argument.
pub open spec fn arg_prefix() -> Seq<char> {
    "__AUSH_PROCESS_SUBST_ARG__"@
}

/// The start of a marker for a process substitution output.
pub open spec fn out_prefix() -> Seq<char> {
    "__AUSH_PROCESS_SUBST_OUT__"@
}

/// What the path of an output substitution's file contains.
pub open spec fn out_path_mark() -> Seq<char> {
    "process-subst-out"@
}

/// A path with each `/` written as `~s`, so that the marker is one word.
pub open spec fn escape_path(p: Seq<char>) -> Seq<char>
    decreases p.len(),
{
    if p.len() == 0 {
        Seq::empty()
    } else {
        (if p[0] == '/' {
            seq!['~', 's']
        } else {
            seq![p[0]]
        }) + escape_path(p.drop_first())
    }
}

/// Each `~s` read back as `/`, from left to right.
pub open spec fn unescape_path(p: Seq<char>) -> Seq<char>
    decreases p.len(),
{
    if p.len() == 0 {
        Seq::empty()
    } else if p.len() >= 2 && p[0] == '~' && p[1] == 's' {
        seq!['/'] + unescape_path(p.skip(2))
    } else {
        seq![p[0]] + unescape_path(p.drop_first())
    }
}

/// The first index from `i` where `::` occurs.
pub open spec fn first_sep(s: Seq<char>, i: int) -> Option<int>
    decreases s.len() - i,
{
    if i < 0 || i + 1 >= s.len() {
        None
    } else if s[i] == ':' && s[i + 1] == ':' {
        Some(i)
    } else {
        first_sep(s, i + 1)
    }
}

/// The two sides of the first `::` in what follows `prefix` in `t`.
pub open spec fn split_marker(t: Seq<char>, prefix: Seq<char>) -> Option<(Seq<char>, Seq<char>)> {
    if has_prefix(t, prefix) {
        let rest = t.skip(prefix.len() as int);
        match first_sep(rest, 0) {
            Some(k) => Some((rest.take(k), rest.skip(k + 2))),
            None => None,
        }
    } else {
        None
    }
}

/// The marker word for a process substitution with `path` and `command`.
pub open spec fn marker(path: Seq<char>, command: Seq<char>) -> Seq<char> {
    arg_prefix() + escape_path(path) + seq![':', ':'] + command
}

pub proof fn lemma_first_sep(s: Seq<char>, i: int)
    ensures
        first_sep(s, i) matches Some(k) ==> 0 <= i <= k && k + 1 < s.len() && s[k] == ':' && s[k
            + 1] == ':',
    decreases s.len() - i,
{
    if 0 <= i && i + 1 < s.len() && !(s[i] == ':' && s[i + 1] == ':') {
        lemma_first_sep(s, i + 1);
    }
}

/// The index of the first `::` in `s` from `i`.
fn first_sep_exec(s: &[char], i: usize) -> (r: Option<usize>)
    ensures
        r == (match first_sep(s@, i as int) {
            Some(k) => Some(k as usize),
            None => None::<usize>,
        }),
{
    proof {
        lemma_first_sep(s@, i as int);
    }
    let mut j = i;
    while j < s.len() && j + 1 < s.len()
        invariant
            i <= j,
            first_sep(s@, i as int) == first_sep(s@, j as int),
        decreases s@.len() - j,
    {
        if s[j] == ':' && s[j + 1] == ':' {
            return Some(j);
        }
        j = j + 1;
    }
    None
}

/// The two sides of the first `::` after `prefix` in `t`.
fn split_after(t: &[char], prefix: &[char]) -> (r: Option<(Vec<char>, Vec<char>)>)
    ensures
        r matches Some((a, b)) ==> split_marker(t@, prefix@) == Some((a@, b@)),
        r is None ==> split_marker(t@, prefix@) is None,
{
    if !crate::text::starts_with(t, prefix) {
        return None;
    }
    let rest_v = crate::lexer::chars_range_pub(t, prefix.len(), t.len());
    let ghost rest = t@.skip(prefix@.len() as int);
    assert(rest_v@ =~= rest);
    proof {
        lemma_first_sep(rest, 0);
    }
    match first_sep_exec(rest_v.as_slice(), 0) {
        Some(k) => {
            let a = crate::lexer::chars_range_pub(rest_v.as_slice(), 0, k);
            let b = crate::lexer::chars_range_pub(rest_v.as_slice(), k + 2, rest_v.len());
            assert(a@ =~= rest.take(k as int));
            assert(b@ =~= rest.skip(k + 2));
            Some((a, b))
        },
        None => None,
    }
}

/// A path with each `/` written as `~s`.
fn escape_path_exec(p: &[char]) -> (r: Vec<char>)
    ensures
        r@ == escape_path(p@),
{
    let n = p.len();
    let mut out: Vec<char> = Vec::new();
    let mut i: usize = 0;
    assert(p@.skip(0) =~= p@);
    while i < n
        invariant
            n == p@.len(),
            i <= n,
            out@ + escape_path(p@.skip(i as int)) == escape_path(p@),
        decreases n - i,
    {
        let ghost rest = p@.skip(i as int);
        assert(rest.drop_first() =~= p@.skip(i + 1));
        if p[i] == '/' {
            out.push('~');
            out.push('s');
        } else {
            out.push(p[i]);
        }
        assert(out@ + escape_path(p@.skip(i + 1)) =~= escape_path(p@));
        i = i + 1;
    }
    assert(out@ =~= out@ + escape_path(p@.skip(n as int)));
    out
}

/// Each `~s` read back as `/`.
fn unescape_path_exec(p: &[char]) -> (r: Vec<char>)
    ensures
        r@ == unescape_path(p@),
{
    let n = p.len();
    let mut out: Vec<char> = Vec::new();
    let mut i: usize = 0;
    assert(p@.skip(0) =~= p@);
    while i < n
        invariant
            n == p@.len(),
            i <= n,
            out@ + unescape_path(p@.skip(i as int)) == unescape_path(p@),
        decreases n - i,
    {
        let ghost rest = p@.skip(i as int);
        if i + 1 < n && p[i] == '~' && p[i + 1] == 's' {
            out.push('/');
            assert(rest.skip(2) =~= p@.skip(i + 2));
            assert(unescape_path(rest) == seq!['/'] + unescape_path(rest.skip(2)));
            i = i + 2;
        } else {
            out.push(p[i]);
            assert(rest.drop_first() =~= p@.skip(i + 1));
            assert(unescape_path(rest) == seq![p@[i as int]] + unescape_path(rest.drop_first()));
            i = i + 1;
        }
        assert(out@ + unescape_path(p@.skip(i as int)) =~= unescape_path(p@));
    }
    assert(out@ =~= out@ + unescape_path(p@.skip(n as int)));
    out
}

/// The marker word that stands for a process substitution reading or
/// writing the file at `path` with `command`.
pub fn process_substitution_marker(path: &str, command: &str) -> (r: String)
    ensures
        r@ == marker(path@, command@),
{
    proof {
        reveal_strlit("__AUSH_PROCESS_SUBST_ARG__");
    }
    let v = chars_of("__AUSH_PROCESS_SUBST_ARG__");
    let p = chars_of(path);
    let e = escape_path_exec(p.as_slice());
    let mut s = string_of(v.as_slice());
    crate::text::append_chars(&mut s, e.as_slice());
    crate::text::append_str(&mut s, "::");
    crate::text::append_str(&mut s, command);
    proof {
        reveal_strlit("::");
    }
    assert(s@ =~= marker(path@, command@));
    s
}

/// The path and the command of a process substitution argument marker.
pub fn split_process_substitution_argument(target: &str) -> (r: Option<(String, String)>)
    ensures
        r matches Some((p, c)) ==> split_marker(target@, arg_prefix()) matches Some((ep, ec)) && p@
            == unescape_path(ep) && c@ == ec,
        r is None <==> split_marker(target@, arg_prefix()) is None,
{
    proof {
        reveal_strlit("__AUSH_PROCESS_SUBST_ARG__");
    }
    let t = chars_of(target);
    let prefix = chars_of("__AUSH_PROCESS_SUBST_ARG__");
    match split_after(t.as_slice(), prefix.as_slice()) {
        Some((a, b)) => {
            let path = unescape_path_exec(a.as_slice());
            Some((string_of(path.as_slice()), string_of(b.as_slice())))
        },
        None => None,
    }
}

/// The path and the command of a process substitution output marker.
pub fn split_process_substitution_output(target: &str) -> (r: Option<(String, String)>)
    ensures
        r matches Some((p, c)) ==> split_marker(target@, out_prefix()) == Some((p@, c@)),
        r is None <==> split_marker(target@, out_prefix()) is None,
{
    proof {
        reveal_strlit("__AUSH_PROCESS_SUBST_OUT__");
    }
    let t = chars_of(target);
    let prefix = chars_of("__AUSH_PROCESS_SUBST_OUT__");
    match split_after(t.as_slice(), prefix.as_slice()) {
        Some((a, b)) => Some((string_of(a.as_slice()), string_of(b.as_slice()))),
        None => None,
    }
}

/// Whether the file of a process substitution is one its command writes to.
pub fn is_output_path(path: &str) -> (r: bool)
    ensures
        r == has_sub(path@, out_path_mark()),
{
    proof {
        reveal_strlit("process-subst-out");
    }
    let p = chars_of(path);
    let m = chars_of("process-subst-out");
    contains_sub(p.as_slice(), m.as_slice())
}

/// The output substitution that a redirect target or argument stands for:
/// an output marker as it is, or an argument marker whose file is one the
/// substitution writes to, with its path read back.
pub open spec fn output_of(t: Seq<char>) -> Option<(Seq<char>, Seq<char>)> {
    match split_marker(t, out_prefix()) {
        Some(pc) => Some(pc),
        None => match split_marker(t, arg_prefix()) {
            Some((ep, ec)) => if has_sub(unescape_path(ep), out_path_mark()) {
                Some((unescape_path(ep), ec))
            } else {
                None
            },
            None => None,
        },
    }
}

/// The output substitution that a redirect target or argument stands for,
/// to run once the command is done.
pub fn output_target(target: &str) -> (r: Option<(String, String)>)
    ensures
        r matches Some((p, c)) ==> output_of(target@) == Some((p@, c@)),
        r is None <==> output_of(target@) is None,
{
    match split_process_substitution_output(target) {
        Some(pc) => Some(pc),
        None => match split_process_substitution_argument(target) {
            Some((p, c)) => {
                if is_output_path(p.as_str()) {
                    Some((p, c))
                } else {
                    None
                }
            },
            None => None,
        },
    }
}

/// Whether `a` is followed by `b` somewhere in `p`.
pub open spec fn has_pair(p: Seq<char>, a: char, b: char) -> bool {
    exists|i: int| 0 <= i < p.len() - 1 && #[trigger] p[i] == a && p[i + 1] == b
}

/// The escaped path starts with `~` for a `/`, else with the path's first
/// character; it is empty just when the path is.
proof fn lemma_escape_first(p: Seq<char>)
    ensures
        escape_path(p).len() >= p.len(),
        p.len() > 0 ==> escape_path(p)[0] == (if p[0] == '/' {
            '~'
        } else {
            p[0]
        }),
    decreases p.len(),
{
    if p.len() > 0 {
        lemma_escape_first(p.drop_first());
    }
}

proof fn lemma_pair_tail(p: Seq<char>, a: char, b: char)
    requires
        p.len() > 0,
        !has_pair(p, a, b),
    ensures
        !has_pair(p.drop_first(), a, b),
        p.len() > 1 ==> !(p[0] == a && p[1] == b),
{
    let t = p.drop_first();
    if has_pair(t, a, b) {
        let i = choose|i: int| 0 <= i < t.len() - 1 && #[trigger] t[i] == a && t[i + 1] == b;
        assert(p[i + 1] == a && p[i + 2] == b);
    }
    if p.len() > 1 && p[0] == a && p[1] == b {
        assert(p[0] == a);
    }
}

proof fn lemma_unescape_escape(p: Seq<char>)
    requires
        !has_pair(p, '~', 's'),
    ensures
        unescape_path(escape_path(p)) == p,
    decreases p.len(),
{
    if p.len() > 0 {
        let t = p.drop_first();
        lemma_pair_tail(p, '~', 's');
        lemma_unescape_escape(t);
        lemma_escape_first(t);
        let e = escape_path(t);
        if p[0] == '/' {
            let s = seq!['~', 's'] + e;
            assert(s.skip(2) =~= e);
            assert(unescape_path(s) == seq!['/'] + unescape_path(e));
            assert(seq!['/'] + t =~= p);
        } else {
            let s = seq![p[0]] + e;
            assert(!(s.len() >= 2 && s[0] == '~' && s[1] == 's')) by {
                if s.len() >= 2 && s[0] == '~' && s[1] == 's' {
                    assert(s[1] == e[0]);
                    assert(t.len() > 0);
                    assert(t[0] == 's');
                    assert(p[1] == 's');
                }
            }
            assert(s.drop_first() =~= e);
            assert(unescape_path(s) == seq![p[0]] + unescape_path(e));
            assert(seq![p[0]] + t =~= p);
        }
    }
}

/// Escaping keeps colons where they are: without `::` in the path, there
/// is none in the escaped path, and it ends with `:` only where the path
/// does.
proof fn lemma_escape_colons(p: Seq<char>)
    requires
        !has_pair(p, ':', ':'),
    ensures
        !has_pair(escape_path(p), ':', ':'),
        escape_path(p).len() > 0 && escape_path(p).last() == ':' ==> p.len() > 0 && p.last() == ':',
    decreases p.len(),
{
    if p.len() > 0 {
        let t = p.drop_first();
        lemma_pair_tail(p, ':', ':');
        lemma_escape_colons(t);
        lemma_escape_first(t);
        let h = if p[0] == '/' {
            seq!['~', 's']
        } else {
            seq![p[0]]
        };
        let et = escape_path(t);
        let e = escape_path(p);
        assert(e == h + et);
        if has_pair(e, ':', ':') {
            let i = choose|i: int| 0 <= i < e.len() - 1 && #[trigger] e[i] == ':' && e[i + 1] == ':';
            if i >= h.len() {
                assert(et[i - h.len()] == ':' && et[i - h.len() + 1] == ':');
                assert(has_pair(et, ':', ':'));
            } else if i == h.len() - 1 {
                assert(h[i] == ':');
                assert(p[0] == ':');
                assert(et[0] == ':');
                assert(t[0] == ':');
                assert(p[1] == ':');
            } else {
                assert(h == seq!['~', 's']);
            }
        }
        if e.len() > 0 && e.last() == ':' {
            if et.len() > 0 {
                assert(e.last() == et.last());
                assert(p.last() == t.last());
            } else {
                assert(t.len() == 0);
                assert(h.last() == ':');
                assert(p.len() == 1);
            }
        }
    }
}

proof fn lemma_first_sep_at(s: Seq<char>, i: int, k: int)
    requires
        0 <= i <= k,
        k + 1 < s.len(),
        s[k] == ':' && s[k + 1] == ':',
        forall|j: int| i <= j < k ==> !(s[j] == ':' && #[trigger] s[j + 1] == ':'),
    ensures
        first_sep(s, i) == Some(k),
    decreases k - i,
{
    if i < k {
        lemma_first_sep_at(s, i + 1, k);
    }
}

/// A marker gives back the path and the command it was made from, where
/// the path holds no `~s` and no `::` and does not end with `:`.
pub proof fn law_marker_roundtrip(path: Seq<char>, command: Seq<char>)
    requires
        !has_pair(path, '~', 's'),
        !has_pair(path, ':', ':'),
        path.len() > 0 ==> path.last() != ':',
    ensures
        split_marker(marker(path, command), arg_prefix()) == Some((escape_path(path), command)),
        unescape_path(escape_path(path)) == path,
{
    let e = escape_path(path);
    let m = marker(path, command);
    let rest = e + seq![':', ':'] + command;
    assert(m.take(arg_prefix().len() as int) =~= arg_prefix());
    assert(m.skip(arg_prefix().len() as int) =~= rest);
    lemma_escape_colons(path);
    assert forall|j: int| 0 <= j < e.len() implies !(rest[j] == ':' && #[trigger] rest[j + 1] == ':') by {
        if j + 1 < e.len() {
            if rest[j] == ':' && rest[j + 1] == ':' {
                assert(e[j] == ':' && e[j + 1] == ':');
                assert(has_pair(e, ':', ':'));
            }
        } else {
            assert(rest[j] == e.last());
        }
    }
    lemma_first_sep_at(rest, 0, e.len() as int);
    assert(rest.take(e.len() as int) =~= e);
    assert(rest.skip(e.len() + 2int) =~= command);
    lemma_unescape_escape(path);
}

} // verus!
