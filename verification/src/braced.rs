//! The forms of a braced parameter expansion `${...}`: the variable's name,
//! the operator, and the word that follows the operator.
use vstd::prelude::*;
use crate::lexer::{trail_count, lemma_trail_count};
use crate::text::{chars_of, find_sub, has_prefix, has_sub, occurs_at, starts_with, string_of_range};

verus! {

/// The operators of a braced expansion.
#[derive(Debug, Clone, Copy, PartialEq, Eq, Structural)]
pub enum ExpansionOp {
    /// `${name}`
    Simple,
    /// `${#name}`
    StringLength,
    /// `${name:-word}`
    UseDefault,
    /// `${name:=word}`
    AssignDefault,
    /// `${name:?word}`
    ErrorIfUnset,
    /// `${name:+word}`
    UseAlternate,
    /// `${name##word}`
    RemoveLongestPrefix,
    /// `${name#word}`
    RemoveShortestPrefix,
    /// `${name%%word}`
    RemoveLongestSuffix,
    /// `${name%word}`
    RemoveShortestSuffix,
}

/// A braced expansion taken apart.
#[derive(Debug)]
pub struct VarExpansion {
    pub name: String,
    pub operator: ExpansionOp,
    pub word: String,
}

/// The first position from `i` at which `t` occurs in `s`.
pub open spec fn find_from(s: Seq<char>, t: Seq<char>, i: int) -> Option<int>
    decreases s.len() + 1 - i,
{
    if i < 0 || i > s.len() {
        None
    } else if occurs_at(s, t, i) {
        Some(i)
    } else {
        find_from(s, t, i + 1)
    }
}

proof fn lemma_find_from_skip(s: Seq<char>, t: Seq<char>, k: int, i: int)
    requires
        0 <= k <= i,
        forall|j: int| k <= j < i ==> !occurs_at(s, t, j),
    ensures
        find_from(s, t, k) == find_from(s, t, i),
    decreases i - k,
{
    if k < i {
        lemma_find_from_skip(s, t, k + 1, i);
    }
}

proof fn lemma_find_from_none(s: Seq<char>, t: Seq<char>, k: int)
    requires
        0 <= k,
        forall|j: int| k <= j ==> !occurs_at(s, t, j),
    ensures
        find_from(s, t, k) is None,
    decreases s.len() + 1 - k,
{
    if k <= s.len() {
        lemma_find_from_none(s, t, k + 1);
    }
}

/// The first position of `t` in `s` (`str::find`).
fn find_first(s: &[char], t: &[char]) -> (r: Option<usize>)
    ensures
        r matches Some(i) ==> find_from(s@, t@, 0) == Some(i as int) && i + t@.len() <= s@.len(),
        r is None ==> find_from(s@, t@, 0) is None,
{
    let r = find_sub(s, t);
    proof {
        match r {
            Some(i) => {
                lemma_find_from_skip(s@, t@, 0, i as int);
            },
            None => {
                assert forall|j: int| 0 <= j implies !occurs_at(s@, t@, j) by {
                    if occurs_at(s@, t@, j) {
                        assert(has_sub(s@, t@));
                    }
                }
                lemma_find_from_none(s@, t@, 0);
            },
        }
    }
    r
}

/// `s` without every leading copy of `p` (`trim_start_matches` with a string).
pub open spec fn strip_prefixes(s: Seq<char>, p: Seq<char>) -> Seq<char>
    decreases s.len(),
{
    if p.len() > 0 && has_prefix(s, p) {
        strip_prefixes(s.skip(p.len() as int), p)
    } else {
        s
    }
}

/// The text between `${` and `}`: leading `${` and trailing `}` removed, as
/// often as they repeat.
pub open spec fn braced_inner(b: Seq<char>) -> Seq<char> {
    let t = strip_prefixes(b, seq!['$', '{']);
    t.take(t.len() - trail_count(t, '}', t.len() as int))
}

/// The operators with a word, in the order they are looked for, with their
/// text.
pub open spec fn op_patterns() -> Seq<(Seq<char>, ExpansionOp)> {
    seq![
        (seq![':', '-'], ExpansionOp::UseDefault),
        (seq![':', '='], ExpansionOp::AssignDefault),
        (seq![':', '?'], ExpansionOp::ErrorIfUnset),
        (seq![':', '+'], ExpansionOp::UseAlternate),
        (seq!['#', '#'], ExpansionOp::RemoveLongestPrefix),
        (seq!['#'], ExpansionOp::RemoveShortestPrefix),
        (seq!['%', '%'], ExpansionOp::RemoveLongestSuffix),
        (seq!['%'], ExpansionOp::RemoveShortestSuffix),
    ]
}

/// The expansion the first operator found in `inner` gives, checking the
/// operators from `k` in order: the name before the operator's first
/// occurrence and the word after it; a simple expansion when none occurs.
pub open spec fn split_at_op(inner: Seq<char>, k: int) -> (Seq<char>, ExpansionOp, Seq<char>)
    decreases op_patterns().len() - k,
{
    if k < 0 || k >= op_patterns().len() {
        (inner, ExpansionOp::Simple, Seq::empty())
    } else {
        let (pat, op) = op_patterns()[k];
        match find_from(inner, pat, 0) {
            Some(p) => (inner.take(p), op, inner.skip(p + pat.len())),
            None => split_at_op(inner, k + 1),
        }
    }
}

/// A braced expansion taken apart. `${#name}` (with no `:`, and no `#` or
/// `%` after the first character) asks for the length; otherwise the first
/// of `:-`, `:=`, `:?`, `:+`, `##`, `#`, `%%`, `%` that occurs splits the
/// text into name and word; else the whole text is the name.
pub open spec fn spec_parse_braced(b: Seq<char>) -> (Seq<char>, ExpansionOp, Seq<char>) {
    let inner = braced_inner(b);
    if inner.len() > 0 && inner[0] == '#' && !inner.contains(':') && !inner.drop_first().contains('#')
        && !inner.drop_first().contains('%') {
        (inner.drop_first(), ExpansionOp::StringLength, Seq::empty())
    } else {
        split_at_op(inner, 0)
    }
}

/// The text of `v` after every leading `${`, and without its trailing `}`.
fn inner_bounds(v: &[char]) -> (r: (usize, usize))
    ensures
        r.0 <= r.1 <= v@.len(),
        v@.subrange(r.0 as int, r.1 as int) == braced_inner(v@),
{
    let n = v.len();
    let mut a: usize = 0;
    let pat: Vec<char> = vec!['$', '{'];
    assert(v@.skip(0) =~= v@);
    while n - a >= 2 && v[a] == '$' && v[a + 1] == '{'
        invariant
            n == v@.len(),
            a <= n,
            pat@ == seq!['$', '{'],
            strip_prefixes(v@, pat@) == strip_prefixes(v@.skip(a as int), pat@),
        decreases n - a,
    {
        assert(has_prefix(v@.skip(a as int), pat@)) by {
            assert(v@.skip(a as int).take(2) =~= pat@);
        }
        assert(v@.skip(a as int).skip(2) =~= v@.skip(a + 2));
        a = a + 2;
    }
    assert(!has_prefix(v@.skip(a as int), pat@)) by {
        if has_prefix(v@.skip(a as int), pat@) {
            assert(v@.skip(a as int).take(2)[0] == v@[a as int]);
            assert(v@.skip(a as int).take(2)[1] == v@[a + 1]);
        }
    }
    let ghost t = v@.skip(a as int);
    let mut b: usize = n;
    while b > a && v[b - 1] == '}'
        invariant
            n == v@.len(),
            a <= b <= n,
            t == v@.skip(a as int),
            trail_count(t, '}', t.len() as int) == (n - b) + trail_count(t, '}', b - a),
        decreases b,
    {
        assert(t[b - a - 1] == v@[b - 1]);
        b = b - 1;
    }
    proof {
        lemma_trail_count(t, '}', t.len() as int);
    }
    assert(v@.subrange(a as int, b as int) =~= t.take(t.len() - trail_count(t, '}', t.len() as int)));
    (a, b)
}

fn op_patterns_exec() -> (v: Vec<(Vec<char>, ExpansionOp)>)
    ensures
        v@.len() == op_patterns().len(),
        forall|k: int| 0 <= k < v@.len() ==> (#[trigger] v@[k]).0@ == op_patterns()[k].0 && v@[k].1
            == op_patterns()[k].1,
{
    let v = vec![
        (vec![':', '-'], ExpansionOp::UseDefault),
        (vec![':', '='], ExpansionOp::AssignDefault),
        (vec![':', '?'], ExpansionOp::ErrorIfUnset),
        (vec![':', '+'], ExpansionOp::UseAlternate),
        (vec!['#', '#'], ExpansionOp::RemoveLongestPrefix),
        (vec!['#'], ExpansionOp::RemoveShortestPrefix),
        (vec!['%', '%'], ExpansionOp::RemoveLongestSuffix),
        (vec!['%'], ExpansionOp::RemoveShortestSuffix),
    ];
    v
}

/// Takes a braced expansion `${...}` apart into name, operator and word.
pub fn parse_braced_var_expansion(braced_var: &str) -> (e: VarExpansion)
    ensures
        (e.name@, e.operator, e.word@) == spec_parse_braced(braced_var@),
{
    let v = chars_of(braced_var);
    let (a, b) = inner_bounds(v.as_slice());
    let inner = crate::lexer::chars_range_pub(v.as_slice(), a, b);
    let n = inner.len();
    if n > 0 && inner[0] == '#' && !crate::text::contains_char(inner.as_slice(), ':') {
        let rest = crate::lexer::chars_range_pub(inner.as_slice(), 1, n);
        assert(rest@ =~= inner@.drop_first());
        if !crate::text::contains_char(rest.as_slice(), '#') && !crate::text::contains_char(rest.as_slice(), '%') {
            return VarExpansion {
                name: crate::text::string_of(rest.as_slice()),
                operator: ExpansionOp::StringLength,
                word: String::new(),
            };
        }
    }
    let pats = op_patterns_exec();
    let mut k: usize = 0;
    while k < pats.len()
        invariant
            pats@.len() == op_patterns().len(),
            forall|q: int| 0 <= q < pats@.len() ==> (#[trigger] pats@[q]).0@ == op_patterns()[q].0
                && pats@[q].1 == op_patterns()[q].1,
            k <= pats@.len(),
            n == inner@.len(),
            spec_parse_braced(braced_var@) == split_at_op(inner@, k as int),
        decreases pats@.len() - k,
    {
        let pat = &pats[k].0;
        match find_first(inner.as_slice(), pat.as_slice()) {
            Some(p) => {
                return VarExpansion {
                    name: string_of_range(inner.as_slice(), 0, p),
                    operator: pats[k].1,
                    word: string_of_range(inner.as_slice(), p + pat.len(), n),
                };
            },
            None => {},
        }
        k = k + 1;
    }
    VarExpansion { name: crate::text::string_of(inner.as_slice()), operator: ExpansionOp::Simple, word: String::new() }
}

// ---------------------------------------------------------------------------
// Expanding a braced expansion against the variables
// ---------------------------------------------------------------------------

/// The value of variable `name`: that of its first binding in `vars`.
pub open spec fn var_value(vars: Seq<(String, String)>, name: Seq<char>) -> Option<Seq<char>>
    decreases vars.len(),
{
    if vars.len() == 0 {
        None
    } else if vars[0].0@ == name {
        Some(vars[0].1@)
    } else {
        var_value(vars.drop_first(), name)
    }
}

/// The value, or empty when unset.
pub open spec fn or_empty(v: Option<Seq<char>>) -> Seq<char> {
    match v {
        Some(s) => s,
        None => Seq::empty(),
    }
}

/// Whether a value is set and not empty.
pub open spec fn set_nonempty(v: Option<Seq<char>>) -> bool {
    v matches Some(s) && s.len() > 0
}

/// Whether every character is an ASCII letter, digit or `_`.
pub open spec fn plain_name(e: Seq<char>) -> bool {
    forall|q: int| 0 <= q < e.len() ==> crate::scan::var_char(#[trigger] e[q])
}

/// The result of expanding `${expr}`: its value, and the message a `:?`
/// form reports when the variable is unset or empty.
pub open spec fn spec_expand_braced(expr: Seq<char>, vars: Seq<(String, String)>) -> (Seq<char>, Option<Seq<char>>) {
    let get = |n: Seq<char>| var_value(vars, n);
    if expr.len() > 0 && expr[0] == '#' {
        let v = get(expr.drop_first());
        (
            match v {
                Some(s) => crate::text::dec(crate::expansion::utf8_len(s)),
                None => seq!['0'],
            },
            None,
        )
    } else if plain_name(expr) {
        (or_empty(get(expr)), None)
    } else if let Some(p) = find_from(expr, seq![':', '-'], 0) {
        let v = get(expr.take(p));
        (if set_nonempty(v) { v->0 } else { expr.skip(p + 2) }, None)
    } else if let Some(p) = find_from(expr, seq![':', '='], 0) {
        let v = get(expr.take(p));
        (if set_nonempty(v) { v->0 } else { expr.skip(p + 2) }, None)
    } else if let Some(p) = find_from(expr, seq![':', '+'], 0) {
        let v = get(expr.take(p));
        (if set_nonempty(v) { expr.skip(p + 2) } else { Seq::empty() }, None)
    } else if let Some(p) = find_from(expr, seq![':', '?'], 0) {
        let v = get(expr.take(p));
        (
            or_empty(v),
            if set_nonempty(v) {
                None
            } else {
                Some(expr.take(p) + seq![':', ' '] + expr.skip(p + 2))
            },
        )
    } else if let Some(p) = find_from(expr, seq!['%', '%'], 0) {
        (crate::expansion::spec_remove_longest_suffix(or_empty(get(expr.take(p))), expr.skip(p + 2)), None)
    } else if let Some(p) = find_from(expr, seq!['%'], 0) {
        (crate::expansion::spec_remove_shortest_suffix(or_empty(get(expr.take(p))), expr.skip(p + 1)), None)
    } else if let Some(p) = find_from(expr, seq!['#', '#'], 0) {
        (crate::expansion::spec_remove_longest_prefix(or_empty(get(expr.take(p))), expr.skip(p + 2)), None)
    } else if let Some(p) = find_from(expr, seq!['#'], 0) {
        (crate::expansion::spec_remove_shortest_prefix(or_empty(get(expr.take(p))), expr.skip(p + 1)), None)
    } else {
        (or_empty(get(expr)), None)
    }
}

/// The value of `name` in `vars`.
pub(crate) fn lookup_var(vars: &[(String, String)], name: &[char]) -> (r: Option<String>)
    ensures
        (match r {
            Some(s) => Some(s@),
            None => None,
        }) == var_value(vars@, name@),
{
    let mut i: usize = 0;
    assert(vars@.skip(0) =~= vars@);
    while i < vars.len()
        invariant
            i <= vars@.len(),
            var_value(vars@, name@) == var_value(vars@.skip(i as int), name@),
        decreases vars@.len() - i,
    {
        assert(vars@.skip(i as int).drop_first() =~= vars@.skip(i + 1));
        assert(vars@.skip(i as int)[0] == vars@[i as int]);
        let n = chars_of(vars[i].0.as_str());
        if crate::text::chars_eq(n.as_slice(), name) {
            return Some(vars[i].1.clone());
        }
        i = i + 1;
    }
    assert(vars@.skip(i as int) =~= Seq::<(String, String)>::empty());
    None
}

/// The value of `name`, or empty.
fn value_or_empty(vars: &[(String, String)], name: &[char]) -> (r: String)
    ensures
        r@ == or_empty(var_value(vars@, name@)),
{
    match lookup_var(vars, name) {
        Some(s) => s,
        None => String::new(),
    }
}

/// The result of expanding a braced expansion.
#[derive(Debug)]
pub struct BracedValue {
    pub value: String,
    /// For `${name:?message}` with `name` unset or empty: `name: message`.
    pub warning: Option<String>,
}

/// Expands `${expr}` against the variables `vars`: `#name` gives the
/// length in bytes of the value (0 when unset), a plain name its value, and
/// `name:-word`, `name:=word`, `name:+word`, `name:?word`, `name%%pat`,
/// `name%pat`, `name##pat`, `name#pat` their usual forms; `:=` gives the
/// default without assigning it.
pub fn expand_braced_variable(expr: &str, vars: &[(String, String)]) -> (r: BracedValue)
    ensures
        (r.value@, match r.warning {
            Some(w) => Some(w@),
            None => None,
        }) == spec_expand_braced(expr@, vars@),
{
    let e = chars_of(expr);
    let n = e.len();
    if n > 0 && e[0] == '#' {
        let name = crate::lexer::chars_range_pub(e.as_slice(), 1, n);
        assert(name@ =~= e@.drop_first());
        let value = match lookup_var(vars, name.as_slice()) {
            Some(s) => {
                let sc = chars_of(s.as_str());
                let len = crate::expansion::utf8_len_exec(sc.as_slice());
                crate::text::string_of(crate::text::dec_chars_wide(len).as_slice())
            },
            None => {
                let mut z = String::new();
                crate::text::push_char(&mut z, '0');
                z
            },
        };
        return BracedValue { value, warning: None };
    }
    let mut plain = true;
    let mut q: usize = 0;
    while q < n
        invariant
            n == e@.len(),
            q <= n,
            plain == (forall|j: int| 0 <= j < q ==> crate::scan::var_char(#[trigger] e@[j])),
        decreases n - q,
    {
        let c = e[q];
        let ok = ('a' <= c && c <= 'z') || ('A' <= c && c <= 'Z') || ('0' <= c && c <= '9') || c == '_';
        if !ok {
            plain = false;
        }
        q = q + 1;
    }
    if plain {
        return BracedValue { value: value_or_empty(vars, e.as_slice()), warning: None };
    }
    let dash: Vec<char> = vec![':', '-'];
    let eq: Vec<char> = vec![':', '='];
    let plus: Vec<char> = vec![':', '+'];
    let ques: Vec<char> = vec![':', '?'];
    let pp: Vec<char> = vec!['%', '%'];
    let p1: Vec<char> = vec!['%'];
    let hh: Vec<char> = vec!['#', '#'];
    let h1: Vec<char> = vec!['#'];
    assert(p1@ =~= seq!['%']);
    assert(h1@ =~= seq!['#']);
    if let Some(p) = find_first(e.as_slice(), dash.as_slice()) {
        let name = crate::lexer::chars_range_pub(e.as_slice(), 0, p);
        let v = lookup_var(vars, name.as_slice());
        let value = match v {
            Some(s) if !s.as_str().is_empty() => s,
            _ => string_of_range(e.as_slice(), p + 2, n),
        };
        return BracedValue { value, warning: None };
    }
    if let Some(p) = find_first(e.as_slice(), eq.as_slice()) {
        let name = crate::lexer::chars_range_pub(e.as_slice(), 0, p);
        let v = lookup_var(vars, name.as_slice());
        let value = match v {
            Some(s) if !s.as_str().is_empty() => s,
            _ => string_of_range(e.as_slice(), p + 2, n),
        };
        return BracedValue { value, warning: None };
    }
    if let Some(p) = find_first(e.as_slice(), plus.as_slice()) {
        let name = crate::lexer::chars_range_pub(e.as_slice(), 0, p);
        let v = lookup_var(vars, name.as_slice());
        let value = match v {
            Some(s) if !s.as_str().is_empty() => string_of_range(e.as_slice(), p + 2, n),
            _ => String::new(),
        };
        return BracedValue { value, warning: None };
    }
    if let Some(p) = find_first(e.as_slice(), ques.as_slice()) {
        let name = crate::lexer::chars_range_pub(e.as_slice(), 0, p);
        let v = lookup_var(vars, name.as_slice());
        let (value, warning) = match v {
            Some(s) => {
                if !s.as_str().is_empty() {
                    (s, None)
                } else {
                    (s, Some(unset_message(e.as_slice(), p)))
                }
            },
            None => (String::new(), Some(unset_message(e.as_slice(), p))),
        };
        return BracedValue { value, warning };
    }
    if let Some(p) = find_first(e.as_slice(), pp.as_slice()) {
        let name = crate::lexer::chars_range_pub(e.as_slice(), 0, p);
        let value = value_or_empty(vars, name.as_slice());
        let pat = string_of_range(e.as_slice(), p + 2, n);
        return BracedValue {
            value: crate::expansion::remove_longest_suffix(value.as_str(), pat.as_str()),
            warning: None,
        };
    }
    if let Some(p) = find_first(e.as_slice(), p1.as_slice()) {
        let name = crate::lexer::chars_range_pub(e.as_slice(), 0, p);
        let value = value_or_empty(vars, name.as_slice());
        let pat = string_of_range(e.as_slice(), p + 1, n);
        return BracedValue {
            value: crate::expansion::remove_shortest_suffix(value.as_str(), pat.as_str()),
            warning: None,
        };
    }
    if let Some(p) = find_first(e.as_slice(), hh.as_slice()) {
        let name = crate::lexer::chars_range_pub(e.as_slice(), 0, p);
        let value = value_or_empty(vars, name.as_slice());
        let pat = string_of_range(e.as_slice(), p + 2, n);
        return BracedValue {
            value: crate::expansion::remove_longest_prefix(value.as_str(), pat.as_str()),
            warning: None,
        };
    }
    if let Some(p) = find_first(e.as_slice(), h1.as_slice()) {
        let name = crate::lexer::chars_range_pub(e.as_slice(), 0, p);
        let value = value_or_empty(vars, name.as_slice());
        let pat = string_of_range(e.as_slice(), p + 1, n);
        return BracedValue {
            value: crate::expansion::remove_shortest_prefix(value.as_str(), pat.as_str()),
            warning: None,
        };
    }
    BracedValue { value: value_or_empty(vars, e.as_slice()), warning: None }
}

/// `name: message` for `${name:?message}`, the operator at `p`.
fn unset_message(e: &[char], p: usize) -> (m: String)
    requires
        p + 2 <= e.len(),
    ensures
        m@ == e@.take(p as int) + seq![':', ' '] + e@.skip(p + 2),
{
    let mut m = string_of_range(e, 0, p);
    crate::text::push_char(&mut m, ':');
    crate::text::push_char(&mut m, ' ');
    let rest = crate::lexer::chars_range_pub(e, p + 2, e.len());
    crate::text::append_chars(&mut m, rest.as_slice());
    assert(m@ =~= e@.take(p as int) + seq![':', ' '] + e@.skip(p + 2));
    m
}

/// Where `:` followed by `d` first occurs in `name`, `:`, `c`, `word`,
/// when the name has no `:` and neither has the word: right after the
/// name when `c` is `d`, nowhere otherwise.
proof fn lemma_find_colon_op(name: Seq<char>, c: char, word: Seq<char>, d: char)
    requires
        c != ':',
        forall|q: int| 0 <= q < name.len() ==> name[q] != ':',
        forall|q: int| 0 <= q < word.len() ==> word[q] != ':',
    ensures
        find_from(name + seq![':', c] + word, seq![':', d], 0) == if c == d {
            Some(name.len() as int)
        } else {
            None::<int>
        },
{
    let e = name + seq![':', c] + word;
    let t = seq![':', d];
    let n = name.len() as int;
    assert forall|j: int| 0 <= j && j != n implies !occurs_at(e, t, j) by {
        if occurs_at(e, t, j) {
            assert(e.subrange(j, j + 2)[0] == e[j]);
            assert(e[j] == ':');
            if j < n {
                assert(e[j] == name[j]);
            } else if j == n + 1 {
                assert(e[j] == c);
            } else {
                assert(e[j] == word[j - n - 2]);
            }
        }
    }
    if c == d {
        assert(e.subrange(n, n + 2) =~= t);
        lemma_find_from_skip(e, t, 0, n);
    } else {
        assert(!occurs_at(e, t, n)) by {
            if occurs_at(e, t, n) {
                assert(e.subrange(n, n + 2)[1] == e[n + 1]);
            }
        }
        lemma_find_from_none(e, t, 0);
    }
}

/// The default forms of `${name:OPword}`, for a variable name and a word
/// without `:`: with the variable set to a non-empty value `s`, `:-` and
/// `:=` give `s`, `:+` gives the word and `:?` gives `s` with no message;
/// with it unset or empty, `:-` and `:=` give the word, `:+` gives nothing
/// and `:?` gives the value (or nothing) and the message `name: word`.
pub proof fn law_default_forms(name: Seq<char>, word: Seq<char>, vars: Seq<(String, String)>)
    requires
        name.len() > 0,
        forall|q: int| 0 <= q < name.len() ==> crate::scan::var_char(#[trigger] name[q]),
        forall|q: int| 0 <= q < word.len() ==> word[q] != ':',
    ensures
        ({
            let v = var_value(vars, name);
            let set = v matches Some(s) && s.len() > 0;
            &&& spec_expand_braced(name + seq![':', '-'] + word, vars) == if set {
                (v->0, None::<Seq<char>>)
            } else {
                (word, None::<Seq<char>>)
            }
            &&& spec_expand_braced(name + seq![':', '='] + word, vars) == if set {
                (v->0, None::<Seq<char>>)
            } else {
                (word, None::<Seq<char>>)
            }
            &&& spec_expand_braced(name + seq![':', '+'] + word, vars) == if set {
                (word, None::<Seq<char>>)
            } else {
                (Seq::<char>::empty(), None::<Seq<char>>)
            }
            &&& spec_expand_braced(name + seq![':', '?'] + word, vars) == if set {
                (v->0, None::<Seq<char>>)
            } else {
                (
                    match v {
                        Some(s) => s,
                        None => Seq::<char>::empty(),
                    },
                    Some(name + seq![':', ' '] + word),
                )
            }
        }),
{
    assert forall|q: int| 0 <= q < name.len() implies name[q] != ':' by {
        assert(crate::scan::var_char(name[q]));
    }
    let n = name.len() as int;
    let cs = seq!['-', '=', '+', '?'];
    assert forall|k: int| 0 <= k < 4 implies {
        let e = name + seq![':', #[trigger] cs[k]] + word;
        &&& e.len() > 0 && e[0] != '#'
        &&& !plain_name(e)
        &&& e.take(n) =~= name
        &&& e.skip(n + 2) =~= word
    } by {
        let e = name + seq![':', cs[k]] + word;
        assert(e[0] == name[0]);
        assert(crate::scan::var_char(name[0]));
        assert(e[n] == ':');
        assert(!crate::scan::var_char(e[n]));
    }
    lemma_find_colon_op(name, '-', word, '-');
    lemma_find_colon_op(name, '=', word, '-');
    lemma_find_colon_op(name, '=', word, '=');
    lemma_find_colon_op(name, '+', word, '-');
    lemma_find_colon_op(name, '+', word, '=');
    lemma_find_colon_op(name, '+', word, '+');
    lemma_find_colon_op(name, '?', word, '-');
    lemma_find_colon_op(name, '?', word, '=');
    lemma_find_colon_op(name, '?', word, '+');
    lemma_find_colon_op(name, '?', word, '?');
    assert(cs[0] == '-' && cs[1] == '=' && cs[2] == '+' && cs[3] == '?');
}

/// `${name}` is the variable's value, or nothing when it is unset, and
/// `${#name}` the length of the value in bytes, `0` when it is unset.
pub proof fn law_plain_and_length(name: Seq<char>, vars: Seq<(String, String)>)
    requires
        name.len() > 0,
        forall|q: int| 0 <= q < name.len() ==> crate::scan::var_char(#[trigger] name[q]),
    ensures
        spec_expand_braced(name, vars) == (
            match var_value(vars, name) {
                Some(s) => s,
                None => Seq::<char>::empty(),
            },
            None::<Seq<char>>,
        ),
        spec_expand_braced(seq!['#'] + name, vars) == (
            match var_value(vars, name) {
                Some(s) => crate::text::dec(crate::expansion::utf8_len(s)),
                None => seq!['0'],
            },
            None::<Seq<char>>,
        ),
{
    assert(crate::scan::var_char(name[0]));
    assert((seq!['#'] + name).drop_first() =~= name);
}

} // verus!
