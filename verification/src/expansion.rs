//! Parameter-expansion helpers: shell pattern matching (`*` and `?`), the
//! `${var%pat}`, `${var%%pat}`, `${var#pat}` and `${var##pat}` removals,
//! truncation of captured command-substitution output at a UTF-8 boundary,
//! and matching of parentheses in `$(...)`.
use vstd::prelude::*;
use crate::text::{chars_of, owned, string_of_range};

verus! {

// ---------------------------------------------------------------------------
// Shell patterns
// ---------------------------------------------------------------------------

/// Whether shell pattern `p` matches all of `t`: `*` matches any sequence of
/// characters, `?` matches exactly one character, and every other character
/// matches itself.
pub open spec fn glob_match(p: Seq<char>, t: Seq<char>) -> bool
    decreases p.len(), t.len(),
{
    if p.len() == 0 {
        t.len() == 0
    } else if p[0] == '*' {
        glob_match(p.drop_first(), t) || (t.len() > 0 && glob_match(p, t.drop_first()))
    } else if p[0] == '?' {
        t.len() > 0 && glob_match(p.drop_first(), t.drop_first())
    } else {
        t.len() > 0 && t[0] == p[0] && glob_match(p.drop_first(), t.drop_first())
    }
}

/// A leading `*` matches when the rest of the pattern matches some suffix.
pub proof fn lemma_star(p: Seq<char>, t: Seq<char>)
    requires
        p.len() > 0,
        p[0] == '*',
    ensures
        glob_match(p, t) <==> exists|i: int|
            0 <= i <= t.len() && #[trigger] glob_match(p.drop_first(), t.skip(i)),
    decreases t.len(),
{
    if glob_match(p.drop_first(), t) {
        assert(t.skip(0) =~= t);
    }
    if t.len() > 0 {
        lemma_star(p, t.drop_first());
        if glob_match(p, t.drop_first()) {
            let i = choose|i: int|
                0 <= i <= t.drop_first().len() && #[trigger] glob_match(
                    p.drop_first(),
                    t.drop_first().skip(i),
                );
            assert(t.drop_first().skip(i) =~= t.skip(i + 1));
        }
        if exists|i: int| 0 <= i <= t.len() && #[trigger] glob_match(p.drop_first(), t.skip(i)) {
            let i = choose|i: int| 0 <= i <= t.len() && #[trigger] glob_match(p.drop_first(), t.skip(i));
            if i > 0 {
                assert(t.drop_first().skip(i - 1) =~= t.skip(i));
            } else {
                assert(t.skip(0) =~= t);
            }
        }
    } else {
        if exists|i: int| 0 <= i <= t.len() && #[trigger] glob_match(p.drop_first(), t.skip(i)) {
            let i = choose|i: int| 0 <= i <= t.len() && #[trigger] glob_match(p.drop_first(), t.skip(i));
            assert(i == 0);
            assert(t.skip(0) =~= t);
        }
    }
}

/// Whether `p[pi..]` matches `t[ti..te]`.
fn matches_range(p: &[char], pi: usize, t: &[char], ti: usize, te: usize) -> (b: bool)
    requires
        pi <= p@.len(),
        ti <= te <= t@.len(),
    ensures
        b == glob_match(p@.skip(pi as int), t@.subrange(ti as int, te as int)),
    decreases p@.len() - pi,
{
    let ghost ps = p@.skip(pi as int);
    let ghost ts = t@.subrange(ti as int, te as int);
    if pi == p.len() {
        assert(ps.len() == 0);
        return ti == te;
    }
    assert(ps[0] == p@[pi as int]);
    assert(ps.drop_first() =~= p@.skip(pi + 1));
    if p[pi] == '*' {
        let mut i: usize = ti;
        loop
            invariant
                pi < p.len(),
                ps == p@.skip(pi as int),
                ts == t@.subrange(ti as int, te as int),
                ps.len() > 0,
                ps[0] == '*',
                ps.drop_first() == p@.skip(pi + 1),
                ti <= i <= te,
                te <= t@.len(),
                forall|j: int|
                    ti <= j < i ==> !glob_match(p@.skip(pi + 1), t@.subrange(j, te as int)),
            decreases te - i,
        {
            if matches_range(p, pi + 1, t, i, te) {
                proof {
                    lemma_star(ps, ts);
                    assert(ts.skip(i - ti) =~= t@.subrange(i as int, te as int));
                }
                return true;
            }
            if i == te {
                proof {
                    lemma_star(ps, ts);
                    assert forall|k: int| 0 <= k <= ts.len() implies !#[trigger] glob_match(
                        ps.drop_first(),
                        ts.skip(k),
                    ) by {
                        assert(ts.skip(k) =~= t@.subrange(ti + k, te as int));
                    }
                }
                return false;
            }
            i = i + 1;
        }
    } else if p[pi] == '?' {
        if ti == te {
            return false;
        }
        assert(ts.drop_first() =~= t@.subrange(ti + 1, te as int));
        matches_range(p, pi + 1, t, ti + 1, te)
    } else {
        if ti == te || t[ti] != p[pi] {
            return false;
        }
        assert(ts[0] == t@[ti as int]);
        assert(ts.drop_first() =~= t@.subrange(ti + 1, te as int));
        matches_range(p, pi + 1, t, ti + 1, te)
    }
}

/// Matches a shell pattern against a whole string: `*` matches any
/// sequence, `?` any single character.
pub fn pattern_matches(pattern: &str, text: &str) -> (b: bool)
    ensures
        b == glob_match(pattern@, text@),
{
    let p = chars_of(pattern);
    let t = chars_of(text);
    let b = matches_range(p.as_slice(), 0, t.as_slice(), 0, t.len());
    assert(p@.skip(0) =~= p@);
    assert(t@.subrange(0, t@.len() as int) =~= t@);
    b
}

// ---------------------------------------------------------------------------
// Searching cut positions
// ---------------------------------------------------------------------------

/// The largest `i` in `0..=k` with `f(i)`, if any.
pub open spec fn last_true(f: spec_fn(int) -> bool, k: int) -> Option<int>
    decreases k + 1,
{
    if k < 0 {
        None
    } else if f(k) {
        Some(k)
    } else {
        last_true(f, k - 1)
    }
}

/// The smallest `i` in `k..=n` with `f(i)`, if any.
pub open spec fn first_true(f: spec_fn(int) -> bool, k: int, n: int) -> Option<int>
    decreases n + 1 - k,
{
    if k > n {
        None
    } else if f(k) {
        Some(k)
    } else {
        first_true(f, k + 1, n)
    }
}

pub proof fn lemma_last_true(f: spec_fn(int) -> bool, k: int)
    ensures
        last_true(f, k) matches Some(i) ==> 0 <= i <= k && f(i) && forall|j: int|
            i < j <= k ==> !#[trigger] f(j),
        last_true(f, k) is None ==> forall|j: int| 0 <= j <= k ==> !#[trigger] f(j),
    decreases k + 1,
{
    if k >= 0 && !f(k) {
        lemma_last_true(f, k - 1);
    }
}

pub proof fn lemma_first_true(f: spec_fn(int) -> bool, k: int, n: int)
    ensures
        first_true(f, k, n) matches Some(i) ==> k <= i <= n && f(i) && forall|j: int|
            k <= j < i ==> !#[trigger] f(j),
        first_true(f, k, n) is None ==> forall|j: int| k <= j <= n ==> !#[trigger] f(j),
    decreases n + 1 - k,
{
    if k <= n && !f(k) {
        lemma_first_true(f, k + 1, n);
    }
}

proof fn lemma_last_true_from(f: spec_fn(int) -> bool, k: int, i: int)
    requires
        -1 <= i <= k,
        forall|j: int| i < j <= k ==> !#[trigger] f(j),
    ensures
        last_true(f, k) == last_true(f, i),
    decreases k - i,
{
    if k > i {
        lemma_last_true_from(f, k - 1, i);
    }
}

proof fn lemma_first_true_from(f: spec_fn(int) -> bool, k: int, i: int, n: int)
    requires
        k <= i <= n + 1,
        forall|j: int| k <= j < i ==> !#[trigger] f(j),
    ensures
        first_true(f, k, n) == first_true(f, i, n),
    decreases i - k,
{
    if i > k {
        lemma_first_true_from(f, k + 1, i, n);
    }
}

/// The suffix of `v` from position `i` matches `p`.
pub open spec fn suffix_match(v: Seq<char>, p: Seq<char>) -> spec_fn(int) -> bool {
    |i: int| glob_match(p, v.skip(i))
}

/// The prefix of `v` up to position `i` matches `p`.
pub open spec fn prefix_match(v: Seq<char>, p: Seq<char>) -> spec_fn(int) -> bool {
    |i: int| glob_match(p, v.take(i))
}

/// `${v%p}`: `v` without its shortest suffix matching `p`.
pub open spec fn spec_remove_shortest_suffix(v: Seq<char>, p: Seq<char>) -> Seq<char> {
    if p.len() == 0 {
        v
    } else {
        match last_true(suffix_match(v, p), v.len() as int) {
            Some(i) => v.take(i),
            None => v,
        }
    }
}

/// `${v%%p}`: `v` without its longest suffix matching `p`.
pub open spec fn spec_remove_longest_suffix(v: Seq<char>, p: Seq<char>) -> Seq<char> {
    if p.len() == 0 {
        v
    } else {
        match first_true(suffix_match(v, p), 0, v.len() as int) {
            Some(i) => v.take(i),
            None => v,
        }
    }
}

/// `${v#p}`: `v` without its shortest prefix matching `p`.
pub open spec fn spec_remove_shortest_prefix(v: Seq<char>, p: Seq<char>) -> Seq<char> {
    if p.len() == 0 {
        v
    } else {
        match first_true(prefix_match(v, p), 0, v.len() as int) {
            Some(i) => v.skip(i),
            None => v,
        }
    }
}

/// `${v##p}`: `v` without its longest prefix matching `p`.
pub open spec fn spec_remove_longest_prefix(v: Seq<char>, p: Seq<char>) -> Seq<char> {
    if p.len() == 0 {
        v
    } else {
        match last_true(prefix_match(v, p), v.len() as int) {
            Some(i) => v.skip(i),
            None => v,
        }
    }
}

/// The position of the shortest matching suffix, searching `n, n-1, ..., 0`.
fn search_suffix_down(v: &[char], p: &[char]) -> (r: Option<usize>)
    ensures
        r == (match last_true(suffix_match(v@, p@), v@.len() as int) {
            Some(i) => Some(i as usize),
            None => None::<usize>,
        }),
{
    let ghost f = suffix_match(v@, p@);
    let mut i: usize = v.len();
    loop
        invariant
            i <= v@.len(),
            f == suffix_match(v@, p@),
            last_true(f, v@.len() as int) == last_true(f, i as int),
        decreases i,
    {
        let m = matches_range(p, 0, v, i, v.len());
        proof {
            assert(p@.skip(0) =~= p@);
            assert(v@.subrange(i as int, v@.len() as int) =~= v@.skip(i as int));
            assert(f(i as int) == m);
        }
        if m {
            return Some(i);
        }
        if i == 0 {
            assert(last_true(f, -1) is None);
            return None;
        }
        proof {
            lemma_last_true_from(f, i as int, i - 1);
        }
        i = i - 1;
    }
}

/// The position of the longest matching suffix, searching `0, 1, ..., n`.
fn search_suffix_up(v: &[char], p: &[char]) -> (r: Option<usize>)
    ensures
        r == (match first_true(suffix_match(v@, p@), 0, v@.len() as int) {
            Some(i) => Some(i as usize),
            None => None::<usize>,
        }),
{
    let ghost f = suffix_match(v@, p@);
    let mut i: usize = 0;
    loop
        invariant
            i <= v@.len(),
            f == suffix_match(v@, p@),
            first_true(f, 0, v@.len() as int) == first_true(f, i as int, v@.len() as int),
        decreases v@.len() - i,
    {
        let m = matches_range(p, 0, v, i, v.len());
        proof {
            assert(p@.skip(0) =~= p@);
            assert(v@.subrange(i as int, v@.len() as int) =~= v@.skip(i as int));
            assert(f(i as int) == m);
        }
        if m {
            return Some(i);
        }
        if i == v.len() {
            assert(first_true(f, i + 1, v@.len() as int) is None);
            return None;
        }
        proof {
            lemma_first_true_from(f, i as int, i + 1, v@.len() as int);
        }
        i = i + 1;
    }
}

/// The end of the shortest matching prefix, searching `0, 1, ..., n`.
fn search_prefix_up(v: &[char], p: &[char]) -> (r: Option<usize>)
    ensures
        r == (match first_true(prefix_match(v@, p@), 0, v@.len() as int) {
            Some(i) => Some(i as usize),
            None => None::<usize>,
        }),
{
    let ghost f = prefix_match(v@, p@);
    let mut i: usize = 0;
    loop
        invariant
            i <= v@.len(),
            f == prefix_match(v@, p@),
            first_true(f, 0, v@.len() as int) == first_true(f, i as int, v@.len() as int),
        decreases v@.len() - i,
    {
        let m = matches_range(p, 0, v, 0, i);
        proof {
            assert(p@.skip(0) =~= p@);
            assert(v@.subrange(0, i as int) =~= v@.take(i as int));
            assert(f(i as int) == m);
        }
        if m {
            return Some(i);
        }
        if i == v.len() {
            assert(first_true(f, i + 1, v@.len() as int) is None);
            return None;
        }
        proof {
            lemma_first_true_from(f, i as int, i + 1, v@.len() as int);
        }
        i = i + 1;
    }
}

/// The end of the longest matching prefix, searching `n, n-1, ..., 0`.
fn search_prefix_down(v: &[char], p: &[char]) -> (r: Option<usize>)
    ensures
        r == (match last_true(prefix_match(v@, p@), v@.len() as int) {
            Some(i) => Some(i as usize),
            None => None::<usize>,
        }),
{
    let ghost f = prefix_match(v@, p@);
    let mut i: usize = v.len();
    loop
        invariant
            i <= v@.len(),
            f == prefix_match(v@, p@),
            last_true(f, v@.len() as int) == last_true(f, i as int),
        decreases i,
    {
        let m = matches_range(p, 0, v, 0, i);
        proof {
            assert(p@.skip(0) =~= p@);
            assert(v@.subrange(0, i as int) =~= v@.take(i as int));
            assert(f(i as int) == m);
        }
        if m {
            return Some(i);
        }
        if i == 0 {
            assert(last_true(f, -1) is None);
            return None;
        }
        proof {
            lemma_last_true_from(f, i as int, i - 1);
        }
        i = i - 1;
    }
}

/// Removes the shortest suffix of `value` matching `pattern` (`${v%pat}`).
pub fn remove_shortest_suffix(value: &str, pattern: &str) -> (r: String)
    ensures
        r@ == spec_remove_shortest_suffix(value@, pattern@),
{
    let v = chars_of(value);
    let p = chars_of(pattern);
    if p.len() == 0 {
        return owned(value);
    }
    let n = v.len();
    proof {
        lemma_last_true(suffix_match(v@, p@), v@.len() as int);
    }
    match search_suffix_down(v.as_slice(), p.as_slice()) {
        Some(i) => {
            let r = string_of_range(v.as_slice(), 0, i);
            assert(r@ =~= value@.take(i as int));
            r
        },
        None => owned(value),
    }
}

/// Removes the longest suffix of `value` matching `pattern` (`${v%%pat}`).
pub fn remove_longest_suffix(value: &str, pattern: &str) -> (r: String)
    ensures
        r@ == spec_remove_longest_suffix(value@, pattern@),
{
    let v = chars_of(value);
    let p = chars_of(pattern);
    if p.len() == 0 {
        return owned(value);
    }
    let n = v.len();
    proof {
        lemma_first_true(suffix_match(v@, p@), 0, v@.len() as int);
    }
    match search_suffix_up(v.as_slice(), p.as_slice()) {
        Some(i) => {
            let r = string_of_range(v.as_slice(), 0, i);
            assert(r@ =~= value@.take(i as int));
            r
        },
        None => owned(value),
    }
}

/// Removes the shortest prefix of `value` matching `pattern` (`${v#pat}`).
pub fn remove_shortest_prefix(value: &str, pattern: &str) -> (r: String)
    ensures
        r@ == spec_remove_shortest_prefix(value@, pattern@),
{
    let v = chars_of(value);
    let p = chars_of(pattern);
    if p.len() == 0 {
        return owned(value);
    }
    let n = v.len();
    proof {
        lemma_first_true(prefix_match(v@, p@), 0, v@.len() as int);
    }
    match search_prefix_up(v.as_slice(), p.as_slice()) {
        Some(i) => string_of_range(v.as_slice(), i, v.len()),
        None => owned(value),
    }
}

/// Removes the longest prefix of `value` matching `pattern` (`${v##pat}`).
pub fn remove_longest_prefix(value: &str, pattern: &str) -> (r: String)
    ensures
        r@ == spec_remove_longest_prefix(value@, pattern@),
{
    let v = chars_of(value);
    let p = chars_of(pattern);
    if p.len() == 0 {
        return owned(value);
    }
    let n = v.len();
    proof {
        lemma_last_true(prefix_match(v@, p@), v@.len() as int);
    }
    match search_prefix_down(v.as_slice(), p.as_slice()) {
        Some(i) => string_of_range(v.as_slice(), i, v.len()),
        None => owned(value),
    }
}

// ---------------------------------------------------------------------------
// Laws of the removals
// ---------------------------------------------------------------------------

/// `${v%p}` and `${v%%p}` remove a suffix of `v` that matches `p`, or
/// nothing when no suffix matches; `${v%p}` removes no more than any other
/// matching suffix would, and `${v%%p}` no less.
pub proof fn law_suffix_removal(v: Seq<char>, p: Seq<char>)
    requires
        p.len() > 0,
    ensures
        ({
            let s = spec_remove_shortest_suffix(v, p);
            let l = spec_remove_longest_suffix(v, p);
            &&& s.is_prefix_of(v)
            &&& l.is_prefix_of(v)
            &&& l.is_prefix_of(s)
            &&& (exists|i: int| 0 <= i <= v.len() && #[trigger] glob_match(p, v.skip(i))) ==> {
                &&& glob_match(p, v.skip(s.len() as int))
                &&& glob_match(p, v.skip(l.len() as int))
                &&& forall|i: int|
                    0 <= i <= v.len() && #[trigger] glob_match(p, v.skip(i)) ==> l.len() <= i
                        <= s.len()
            }
            &&& !(exists|i: int| 0 <= i <= v.len() && #[trigger] glob_match(p, v.skip(i))) ==> s
                == v && l == v
        }),
{
    let f = suffix_match(v, p);
    let n = v.len() as int;
    lemma_last_true(f, n);
    lemma_first_true(f, 0, n);
    let s = spec_remove_shortest_suffix(v, p);
    let l = spec_remove_longest_suffix(v, p);
    if exists|i: int| 0 <= i <= v.len() && #[trigger] glob_match(p, v.skip(i)) {
        let w = choose|i: int| 0 <= i <= v.len() && #[trigger] glob_match(p, v.skip(i));
        assert(f(w));
        let a = last_true(f, n)->0;
        let b = first_true(f, 0, n)->0;
        assert(s == v.take(a));
        assert(l == v.take(b));
        assert(b <= a) by {
            assert(f(a));
        }
        assert forall|i: int| 0 <= i <= v.len() && #[trigger] glob_match(p, v.skip(i)) implies b
            <= i <= a by {
            assert(f(i));
        }
    } else {
        assert forall|i: int| 0 <= i <= n implies !#[trigger] f(i) by {}
        if last_true(f, n) is Some {
            let a = last_true(f, n)->0;
            assert(glob_match(p, v.skip(a)));
        }
        if first_true(f, 0, n) is Some {
            let b = first_true(f, 0, n)->0;
            assert(glob_match(p, v.skip(b)));
        }
    }
    assert(v.take(v.len() as int) =~= v);
}

/// `${v#p}` and `${v##p}` remove a prefix of `v` that matches `p`, or
/// nothing when no prefix matches; `${v#p}` removes no more than any other
/// matching prefix would, and `${v##p}` no less.
pub proof fn law_prefix_removal(v: Seq<char>, p: Seq<char>)
    requires
        p.len() > 0,
    ensures
        ({
            let s = spec_remove_shortest_prefix(v, p);
            let l = spec_remove_longest_prefix(v, p);
            &&& s.is_suffix_of(v)
            &&& l.is_suffix_of(v)
            &&& l.is_suffix_of(s)
            &&& (exists|i: int| 0 <= i <= v.len() && #[trigger] glob_match(p, v.take(i))) ==> {
                &&& glob_match(p, v.take(v.len() - s.len()))
                &&& glob_match(p, v.take(v.len() - l.len()))
                &&& forall|i: int|
                    0 <= i <= v.len() && #[trigger] glob_match(p, v.take(i)) ==> v.len() - s.len()
                        <= i <= v.len() - l.len()
            }
            &&& !(exists|i: int| 0 <= i <= v.len() && #[trigger] glob_match(p, v.take(i))) ==> s
                == v && l == v
        }),
{
    let f = prefix_match(v, p);
    let n = v.len() as int;
    lemma_last_true(f, n);
    lemma_first_true(f, 0, n);
    let s = spec_remove_shortest_prefix(v, p);
    let l = spec_remove_longest_prefix(v, p);
    if exists|i: int| 0 <= i <= v.len() && #[trigger] glob_match(p, v.take(i)) {
        let w = choose|i: int| 0 <= i <= v.len() && #[trigger] glob_match(p, v.take(i));
        assert(f(w));
        let a = first_true(f, 0, n)->0;
        let b = last_true(f, n)->0;
        assert(s == v.skip(a));
        assert(l == v.skip(b));
        assert(a <= b) by {
            assert(f(b));
        }
        assert(s.skip(b - a) =~= l);
        assert(v.skip(v.len() - s.len()) =~= s);
        assert(v.skip(v.len() - l.len()) =~= l);
        assert(s.skip(s.len() - l.len()) =~= l);
        assert forall|i: int| 0 <= i <= v.len() && #[trigger] glob_match(p, v.take(i)) implies a
            <= i <= b by {
            assert(f(i));
        }
    } else {
        assert forall|i: int| 0 <= i <= n implies !#[trigger] f(i) by {}
        if last_true(f, n) is Some {
            let a = last_true(f, n)->0;
            assert(glob_match(p, v.take(a)));
        }
        if first_true(f, 0, n) is Some {
            let b = first_true(f, 0, n)->0;
            assert(glob_match(p, v.take(b)));
        }
        assert(v.skip(0) =~= v);
    }
}

/// A pattern of a single `*` matches every string.
pub proof fn law_star_matches_everything(t: Seq<char>)
    ensures
        glob_match(seq!['*'], t),
{
    let p = seq!['*'];
    assert(p.drop_first() =~= Seq::<char>::empty());
    assert(t.skip(t.len() as int) =~= Seq::<char>::empty());
    lemma_star(p, t);
    assert(glob_match(p.drop_first(), t.skip(t.len() as int)));
}

/// Every string matches itself when it holds neither `*` nor `?`.
pub proof fn law_literal_matches_itself(t: Seq<char>)
    requires
        !t.contains('*'),
        !t.contains('?'),
    ensures
        glob_match(t, t),
    decreases t.len(),
{
    if t.len() > 0 {
        assert(t[0] != '*' && t[0] != '?') by {
            assert(t.contains(t[0]));
        }
        let u = t.drop_first();
        assert(!u.contains('*')) by {
            if u.contains('*') {
                let k = choose|k: int| 0 <= k < u.len() && u[k] == '*';
                assert(t[k + 1] == '*');
            }
        }
        assert(!u.contains('?')) by {
            if u.contains('?') {
                let k = choose|k: int| 0 <= k < u.len() && u[k] == '?';
                assert(t[k + 1] == '?');
            }
        }
        law_literal_matches_itself(u);
    }
}

// ---------------------------------------------------------------------------
// Command-substitution output
// ---------------------------------------------------------------------------

/// Default cap, in bytes, on the captured output of a command substitution.
pub const DEFAULT_MAX_SUBSTITUTION_OUTPUT: usize = 50 * 1024 * 1024;

/// Number of bytes of `c` in UTF-8.
pub open spec fn utf8_width(c: char) -> nat {
    if (c as u32) < 0x80 {
        1
    } else if (c as u32) < 0x800 {
        2
    } else if (c as u32) < 0x10000 {
        3
    } else {
        4
    }
}

/// Number of bytes of `s` in UTF-8 (`str::len`).
pub open spec fn utf8_len(s: Seq<char>) -> nat
    decreases s.len(),
{
    if s.len() == 0 {
        0
    } else {
        utf8_len(s.drop_last()) + utf8_width(s.last())
    }
}

/// Number of bytes of `v` in UTF-8 (`str::len`).
pub fn utf8_len_exec(v: &[char]) -> (r: u128)
    ensures
        r == utf8_len(v@),
{
    let mut acc: u128 = 0;
    let mut k: usize = 0;
    while k < v.len()
        invariant
            k <= v@.len(),
            acc == utf8_len(v@.take(k as int)),
            acc <= 4 * k,
        decreases v@.len() - k,
    {
        assert(v@.take(k + 1).drop_last() =~= v@.take(k as int));
        acc = acc + char_utf8_width(v[k]) as u128;
        k = k + 1;
    }
    assert(v@.take(k as int) =~= v@);
    acc
}

/// Number of bytes of `c` in UTF-8 (`char::len_utf8`).
pub fn char_utf8_width(c: char) -> (w: usize)
    ensures
        w == utf8_width(c),
{
    let u = c as u32;
    if u < 0x80 {
        1
    } else if u < 0x800 {
        2
    } else if u < 0x10000 {
        3
    } else {
        4
    }
}

/// Truncates `output` to at most `max` bytes, cutting at a character
/// boundary; returns whether anything was cut.
pub fn truncate_output(output: &mut String, max: usize) -> (cut: bool)
    ensures
        cut == (utf8_len(old(output)@) > max),
        !cut ==> final(output)@ == old(output)@,
        cut ==> {
            &&& final(output)@.is_prefix_of(old(output)@)
            &&& utf8_len(final(output)@) <= max
            &&& utf8_len(old(output)@.take(final(output)@.len() + 1int)) > max
        },
{
    let v = chars_of(output.as_str());
    let mut acc: usize = 0;
    let mut k: usize = 0;
    while k < v.len()
        invariant
            k <= v@.len(),
            v@ == old(output)@,
            *output == *old(output),
            acc == utf8_len(v@.take(k as int)),
            acc <= max,
        decreases v@.len() - k,
    {
        let w = char_utf8_width(v[k]);
        assert(v@.take(k + 1).drop_last() =~= v@.take(k as int));
        if w > max - acc {
            let s = string_of_range(v.as_slice(), 0, k);
            assert(v@.subrange(0, k as int) =~= v@.take(k as int));
            proof {
                lemma_utf8_len_prefix_mono(v@, (k + 1) as int);
            }
            *output = s;
            return true;
        }
        acc = acc + w;
        k = k + 1;
    }
    assert(v@.take(v@.len() as int) =~= v@);
    false
}

/// The UTF-8 length of a prefix is at most that of any longer prefix.
pub proof fn lemma_utf8_len_prefix_mono(s: Seq<char>, k: int)
    requires
        0 <= k <= s.len(),
    ensures
        utf8_len(s.take(k)) <= utf8_len(s),
    decreases s.len() - k,
{
    if k < s.len() {
        lemma_utf8_len_prefix_mono(s.drop_last(), k);
        assert(s.drop_last().take(k) =~= s.take(k));
    } else {
        assert(s.take(k) =~= s);
    }
}

// ---------------------------------------------------------------------------
// Parentheses
// ---------------------------------------------------------------------------

/// Scanning `s` from `pos` with `depth` open parentheses: the position of
/// the `)` that closes the outermost one, if any.
pub open spec fn closing_paren(s: Seq<char>, pos: int, depth: int) -> Option<int>
    decreases s.len() - pos,
{
    if pos < 0 || pos >= s.len() || depth <= 0 {
        None
    } else if s[pos] == '(' {
        closing_paren(s, pos + 1, depth + 1)
    } else if s[pos] == ')' {
        if depth == 1 {
            Some(pos)
        } else {
            closing_paren(s, pos + 1, depth - 1)
        }
    } else {
        closing_paren(s, pos + 1, depth)
    }
}

/// The note that ends output cut to a budget of `max` bytes, `len` being
/// its full length in bytes.
pub open spec fn truncation_note(len: nat, max: nat) -> Seq<char> {
    "\n[Output truncated: "@ + crate::text::dec(len) + " bytes, limit "@ + crate::text::dec(max) + " bytes]"@
}

/// Output held to a budget of `max` bytes, as `aush -c` prints it: when
/// longer, cut at the last character boundary within the budget and
/// followed by a note of its full length and the limit.
pub fn budget_output(text: &str, max: usize) -> (r: String)
    ensures
        utf8_len(text@) <= max ==> r@ == text@,
        utf8_len(text@) > max ==> exists|k: int|
            #![trigger text@.take(k)]
            0 <= k < text@.len() && utf8_len(text@.take(k)) <= max && utf8_len(text@.take(k + 1)) > max && r@
                == text@.take(k) + truncation_note(utf8_len(text@), max as nat),
{
    let v = chars_of(text);
    let total = utf8_len_exec(v.as_slice());
    let mut out = owned(text);
    let cut = truncate_output(&mut out, max);
    if !cut {
        return out;
    }
    let ghost k = out@.len() as int;
    let ghost cut_text = out@;
    assert(text@.take(k) =~= out@);
    assert(k < text@.len()) by {
        if k >= text@.len() {
            assert(cut_text =~= text@);
        }
    }
    assert(utf8_len(text@.take(k)) <= max && utf8_len(text@.take(k + 1)) > max);
    crate::text::append_str(&mut out, "\n[Output truncated: ");
    let total_text = crate::text::dec_chars_wide(total);
    crate::text::append_chars(&mut out, total_text.as_slice());
    crate::text::append_str(&mut out, " bytes, limit ");
    let max_text = crate::text::u64_to_string(max as u64);
    crate::text::append_str(&mut out, max_text.as_str());
    crate::text::append_str(&mut out, " bytes]");
    assert(out@ =~= text@.take(k) + truncation_note(utf8_len(text@), max as nat));
    out
}

/// Finds the `)` matching an already-open `(`, scanning from `start`.
pub fn find_matching_paren_in_str(chars: &[char], start: usize) -> (r: Option<usize>)
    ensures
        r == (match closing_paren(chars@, start as int, 1) {
            Some(i) => Some(i as usize),
            None => None::<usize>,
        }),
        r matches Some(i) ==> start <= i < chars@.len() && chars@[i as int] == ')',
{
    let mut depth: usize = 1;
    let mut pos: usize = start;
    proof {
        lemma_closing_paren_bounds(chars@, start as int, 1);
    }
    while pos < chars.len() && depth > 0
        invariant
            start <= pos,
            depth >= 1,
            closing_paren(chars@, start as int, 1) == closing_paren(chars@, pos as int, depth as int),
        decreases chars@.len() - pos,
    {
        if chars[pos] == '(' {
            if depth == usize::MAX {
                proof {
                    lemma_closing_paren_bounded(chars@, pos + 1, depth + 1);
                }
                return None;
            }
            depth = depth + 1;
        } else if chars[pos] == ')' {
            depth = depth - 1;
            if depth == 0 {
                return Some(pos);
            }
        }
        pos = pos + 1;
    }
    None
}

pub proof fn lemma_closing_paren_bounds(s: Seq<char>, pos: int, depth: int)
    ensures
        closing_paren(s, pos, depth) matches Some(i) ==> pos <= i < s.len() && s[i] == ')',
    decreases s.len() - pos,
{
    if 0 <= pos < s.len() && depth > 0 {
        if s[pos] == '(' {
            lemma_closing_paren_bounds(s, pos + 1, depth + 1);
        } else if s[pos] == ')' {
            lemma_closing_paren_bounds(s, pos + 1, depth - 1);
        } else {
            lemma_closing_paren_bounds(s, pos + 1, depth);
        }
    }
}

/// With more open parentheses than characters left, none can close.
proof fn lemma_closing_paren_bounded(s: Seq<char>, pos: int, depth: int)
    requires
        depth > s.len() - pos,
    ensures
        closing_paren(s, pos, depth) is None,
    decreases s.len() - pos,
{
    if 0 <= pos < s.len() && depth > 0 {
        if s[pos] == '(' {
            lemma_closing_paren_bounded(s, pos + 1, depth + 1);
        } else if s[pos] == ')' {
            lemma_closing_paren_bounded(s, pos + 1, depth - 1);
        } else {
            lemma_closing_paren_bounded(s, pos + 1, depth);
        }
    }
}

// ---------------------------------------------------------------------------
// Tilde expansion
// ---------------------------------------------------------------------------

/// The rest of a `~user` or `~user/path` form after `~`, split at its first
/// `/`: the user name and the suffix from the `/`.
pub open spec fn tilde_parts(path: Seq<char>) -> (Seq<char>, Seq<char>) {
    let rest = path.drop_first();
    let k = crate::lexer::find_char(rest, 0, '/');
    (rest.take(k), rest.skip(k))
}

/// Whether `path` is `~` alone or starts with `~/`.
pub open spec fn own_home_form(path: Seq<char>) -> bool {
    path == seq!['~'] || crate::text::has_prefix(path, seq!['~', '/'])
}

/// The user whose home directory a `~user` path names, if it is of that form.
pub open spec fn spec_tilde_user(path: Seq<char>) -> Option<Seq<char>> {
    if path.len() > 0 && path[0] == '~' && !own_home_form(path) {
        Some(tilde_parts(path).0)
    } else {
        None
    }
}

/// A path with its leading `~` expanded: `~` and `~/...` to the home
/// directory `home`, `~user` and `~user/...` to `user_home`, the home of the
/// named user; unchanged when it does not start with `~` or the home
/// directory is not known.
pub open spec fn spec_expand_tilde(path: Seq<char>, home: Option<Seq<char>>, user_home: Option<Seq<char>>) -> Seq<char> {
    if !(path.len() > 0 && path[0] == '~') {
        path
    } else if own_home_form(path) {
        match home {
            Some(h) => if path == seq!['~'] {
                h
            } else {
                h + path.drop_first()
            },
            None => path,
        }
    } else {
        match user_home {
            Some(h) => h + tilde_parts(path).1,
            None => path,
        }
    }
}

/// Whether `v` is `~` alone or starts with `~/`.
fn own_home_form_exec(v: &[char]) -> (b: bool)
    ensures
        b == own_home_form(v@),
{
    let r = (v.len() == 1 && v[0] == '~') || (v.len() >= 2 && v[0] == '~' && v[1] == '/');
    proof {
        if v@.len() >= 2 && v@[0] == '~' && v@[1] == '/' {
            assert(v@.take(2) =~= seq!['~', '/']);
        }
        if crate::text::has_prefix(v@, seq!['~', '/']) {
            assert(v@.take(2)[0] == v@[0]);
            assert(v@.take(2)[1] == v@[1]);
        }
        if v@.len() == 1 && v@[0] == '~' {
            assert(v@ =~= seq!['~']);
        }
    }
    r
}

/// The user whose home directory a `~user` path names, if it is of that form.
pub fn tilde_user(path: &str) -> (r: Option<String>)
    ensures
        (match r {
            Some(u) => Some(u@),
            None => None,
        }) == spec_tilde_user(path@),
{
    let v = chars_of(path);
    if v.len() > 0 && v[0] == '~' && !own_home_form_exec(v.as_slice()) {
        let rest = crate::lexer::chars_range_pub(v.as_slice(), 1, v.len());
        assert(rest@ =~= v@.drop_first());
        let k = crate::lexer::find_char_exec(rest.as_slice(), 0, '/');
        Some(string_of_range(rest.as_slice(), 0, k))
    } else {
        None
    }
}

/// A path with its leading `~` expanded, given the home directory and, for
/// `~user` forms, the home directory of that user.
pub fn expand_tilde(path: &str, home: Option<&str>, user_home: Option<&str>) -> (r: String)
    ensures
        r@ == spec_expand_tilde(
            path@,
            match home {
                Some(h) => Some(h@),
                None => None,
            },
            match user_home {
                Some(h) => Some(h@),
                None => None,
            },
        ),
{
    let v = chars_of(path);
    if !(v.len() > 0 && v[0] == '~') {
        return owned(path);
    }
    if own_home_form_exec(v.as_slice()) {
        match home {
            Some(h) => {
                let mut r = owned(h);
                if v.len() > 1 {
                    let rest = crate::lexer::chars_range_pub(v.as_slice(), 1, v.len());
                    crate::text::append_chars(&mut r, rest.as_slice());
                    assert(rest@ =~= v@.drop_first());
                } else {
                    assert(v@ =~= seq!['~']);
                }
                r
            },
            None => owned(path),
        }
    } else {
        match user_home {
            Some(h) => {
                let rest = crate::lexer::chars_range_pub(v.as_slice(), 1, v.len());
                assert(rest@ =~= v@.drop_first());
                let k = crate::lexer::find_char_exec(rest.as_slice(), 0, '/');
                let mut r = owned(h);
                let tail = crate::lexer::chars_range_pub(rest.as_slice(), k, rest.len());
                crate::text::append_chars(&mut r, tail.as_slice());
                assert(tail@ =~= rest@.skip(k as int));
                r
            },
            None => owned(path),
        }
    }
}

} // verus!
