//! Typo correction for command names and flags.
//!
//! Candidates (builtins, aliases, command names from history, tools that the
//! current project suggests, or a command's valid flags) are scored by their
//! similarity to the typed word, an edit distance that counts insertions,
//! deletions, substitutions and swaps of adjacent characters, and returned
//! best first.
use vstd::prelude::*;
use crate::text::{chars_of, is_whitespace, is_ws, owned, trim_start, lemma_trim_start_skip};

verus! {

// ---------------------------------------------------------------------------
// Edit distance
// ---------------------------------------------------------------------------

pub open spec fn min2(x: int, y: int) -> int {
    if x <= y {
        x
    } else {
        y
    }
}

/// Optimal string alignment distance: the least number of insertions,
/// deletions, substitutions and swaps of two adjacent characters (no
/// substring edited twice) that turn `a` into `b`.
pub open spec fn osa(a: Seq<char>, b: Seq<char>) -> int
    decreases a.len() + b.len(),
{
    if a.len() == 0 {
        b.len() as int
    } else if b.len() == 0 {
        a.len() as int
    } else {
        let i = a.len() as int;
        let j = b.len() as int;
        let sub = osa(a.drop_last(), b.drop_last()) + if a.last() == b.last() {
            0int
        } else {
            1int
        };
        let m = min2(min2(osa(a.drop_last(), b) + 1, osa(a, b.drop_last()) + 1), sub);
        if i > 1 && j > 1 && a[i - 1] == b[j - 2] && a[i - 2] == b[j - 1] {
            min2(m, osa(a.take(i - 2), b.take(j - 2)) + 1)
        } else {
            m
        }
    }
}

/// The distance lies between 0 and the longer length.
pub proof fn lemma_osa_bounds(a: Seq<char>, b: Seq<char>)
    ensures
        0 <= osa(a, b) <= if a.len() >= b.len() {
            a.len() as int
        } else {
            b.len() as int
        },
    decreases a.len() + b.len(),
{
    if a.len() > 0 && b.len() > 0 {
        let i = a.len() as int;
        let j = b.len() as int;
        lemma_osa_bounds(a.drop_last(), b.drop_last());
        lemma_osa_bounds(a.drop_last(), b);
        lemma_osa_bounds(a, b.drop_last());
        if i > 1 && j > 1 {
            lemma_osa_bounds(a.take(i - 2), b.take(j - 2));
        }
    }
}

/// Computes the edit distance of `a` and `b` by dynamic programming.
pub fn edit_distance(a: &[char], b: &[char]) -> (d: u128)
    ensures
        d == osa(a@, b@),
{
    let n = a.len();
    let m = b.len();
    // prev2[j] = osa(a[..i-2], b[..j]), prev[j] = osa(a[..i-1], b[..j]).
    let mut prev2: Vec<u128> = Vec::new();
    let mut prev: Vec<u128> = Vec::new();
    prev.push(0u128);
    let mut j: usize = 0;
    proof {
        assert(a@.take(0).len() == 0);
        assert(b@.take(0).len() == 0);
    }
    while j < m
        invariant
            j <= m,
            m == b@.len(),
            prev@.len() == j + 1,
            forall|k: int| 0 <= k <= j ==> prev@[k] == osa(a@.take(0), b@.take(k)),
        decreases m - j,
    {
        j = j + 1;
        proof {
            assert(a@.take(0).len() == 0);
        }
        prev.push(j as u128);
    }
    if n == 0 {
        proof {
            assert(a@.take(0) =~= a@);
            assert(b@.take(m as int) =~= b@);
        }
        return prev[m];
    }
    let mut i: usize = 1;
    loop
        invariant
            1 <= i <= n,
            n == a@.len(),
            m == b@.len(),
            prev@.len() == m + 1,
            forall|k: int| 0 <= k <= m ==> prev@[k] == osa(a@.take(i - 1), b@.take(k)),
            i >= 2 ==> prev2@.len() == m + 1,
            i >= 2 ==> forall|k: int| 0 <= k <= m ==> prev2@[k] == osa(a@.take(i - 2), b@.take(k)),
        decreases n - i,
    {
        let ghost ai = a@.take(i as int);
        proof {
            assert(ai.drop_last() =~= a@.take(i - 1));
            assert(ai.last() == a@[i - 1]);
            assert(ai.take(0).len() == 0);
            if i >= 2 {
                assert(ai.take(i - 2) =~= a@.take(i - 2));
            }
            assert(b@.take(0).len() == 0);
        }
        let mut cur: Vec<u128> = Vec::new();
        cur.push(i as u128);
        proof {
            assert(osa(ai, b@.take(0)) == i);
        }
        let mut done: usize = 0;
        while done < m
            invariant
                1 <= i <= n,
                n == a@.len(),
                m == b@.len(),
                done <= m,
                ai == a@.take(i as int),
                ai.drop_last() == a@.take(i - 1),
                i >= 2 ==> ai.take(i - 2) == a@.take(i - 2),
                prev@.len() == m + 1,
                forall|q: int| 0 <= q <= m ==> prev@[q] == osa(a@.take(i - 1), b@.take(q)),
                i >= 2 ==> prev2@.len() == m + 1,
                i >= 2 ==> forall|q: int|
                    0 <= q <= m ==> prev2@[q] == osa(a@.take(i - 2), b@.take(q)),
                cur@.len() == done + 1,
                forall|q: int| 0 <= q <= done ==> cur@[q] == osa(ai, b@.take(q)),
            decreases m - done,
        {
            let k = done + 1;
            let ghost bk = b@.take(k as int);
            proof {
                assert(bk.drop_last() =~= b@.take(k - 1));
                assert(bk.last() == b@[k - 1]);
                if k >= 2 {
                    assert(bk.take(k - 2) =~= b@.take(k - 2));
                }
                lemma_osa_bounds(a@.take(i - 1), b@.take(k as int));
                lemma_osa_bounds(ai, b@.take(k - 1));
                lemma_osa_bounds(a@.take(i - 1), b@.take(k - 1));
            }
            let cost: u128 = if a[i - 1] == b[k - 1] {
                0
            } else {
                1
            };
            let del = prev[k] + 1;
            let ins = cur[k - 1] + 1;
            let sub = prev[k - 1] + cost;
            let mut best = if del <= ins {
                del
            } else {
                ins
            };
            if sub < best {
                best = sub;
            }
            if i > 1 && k > 1 && a[i - 1] == b[k - 2] && a[i - 2] == b[k - 1] {
                proof {
                    lemma_osa_bounds(a@.take(i - 2), b@.take(k - 2));
                }
                let swap = prev2[k - 2] + 1;
                if swap < best {
                    best = swap;
                }
            }
            proof {
                assert(ai.len() == i && bk.len() == k);
                assert(ai[i - 1] == a@[i - 1]);
                assert(bk[k - 1] == b@[k - 1]);
                if k >= 2 {
                    assert(bk[k - 2] == b@[k - 2]);
                }
                if i >= 2 {
                    assert(ai[i - 2] == a@[i - 2]);
                }
                assert(best == osa(ai, bk));
            }
            cur.push(best);
            done = k;
        }
        if i == n {
            proof {
                assert(ai =~= a@);
                assert(b@.take(m as int) =~= b@);
            }
            return cur[m];
        }
        prev2 = prev;
        prev = cur;
        i = i + 1;
    }
}

/// Similarity of two words as a percentage: 100 for equal words, less the
/// share of the longer length that the edit distance takes, rounded down.
pub open spec fn similarity(a: Seq<char>, b: Seq<char>) -> int {
    let longest = if a.len() >= b.len() {
        a.len() as int
    } else {
        b.len() as int
    };
    if longest == 0 {
        100
    } else {
        100 - (100 * osa(a, b)) / longest
    }
}

/// The similarity of two words, from 0 to 100.
pub fn similarity_score(a: &[char], b: &[char]) -> (s: i64)
    ensures
        s == similarity(a@, b@),
        0 <= s <= 100,
{
    let longest: u128 = if a.len() >= b.len() {
        a.len() as u128
    } else {
        b.len() as u128
    };
    if longest == 0 {
        return 100;
    }
    let d = edit_distance(a, b);
    proof {
        lemma_osa_bounds(a@, b@);
        assert(100 * d <= 100 * longest) by (nonlinear_arith)
            requires
                d <= longest,
        ;
        assert((100 * d as int) / (longest as int) <= 100) by (nonlinear_arith)
            requires
                100 * d <= 100 * longest,
                longest > 0,
        ;
    }
    let q = (100 * d) / longest;
    (100 - q) as i64
}

// ---------------------------------------------------------------------------
// Suggestions
// ---------------------------------------------------------------------------

/// Where a suggestion came from.
#[derive(Debug, Clone, Copy, PartialEq, Eq, Structural)]
pub enum SuggestionKind {
    Builtin,
    Alias,
    History,
    Executable,
    Flag,
    Context,
}

/// The label shown for a kind of suggestion.
pub open spec fn spec_kind_label(k: SuggestionKind) -> Seq<char> {
    match k {
        SuggestionKind::Builtin => "builtin"@,
        SuggestionKind::Alias => "alias"@,
        SuggestionKind::History => "history"@,
        SuggestionKind::Executable => "command"@,
        SuggestionKind::Flag => "flag"@,
        SuggestionKind::Context => "project"@,
    }
}

impl SuggestionKind {
    /// The label shown for this kind.
    pub fn label(&self) -> (s: &'static str)
        ensures
            s@ == spec_kind_label(*self),
    {
        match self {
            SuggestionKind::Builtin => "builtin",
            SuggestionKind::Alias => "alias",
            SuggestionKind::History => "history",
            SuggestionKind::Executable => "command",
            SuggestionKind::Flag => "flag",
            SuggestionKind::Context => "project",
        }
    }
}

/// A correction candidate with its similarity score.
#[derive(Debug, Clone)]
pub struct Suggestion {
    pub text: String,
    pub score: i64,
    pub kind: SuggestionKind,
}

/// A suggestion as plain values.
pub struct SuggestionView {
    pub text: Seq<char>,
    pub score: int,
    pub kind: SuggestionKind,
}

impl View for Suggestion {
    type V = SuggestionView;

    open spec fn view(&self) -> SuggestionView {
        SuggestionView { text: self.text@, score: self.score as int, kind: self.kind }
    }
}

/// The views of a list of suggestions.
pub open spec fn sugg_views(v: Seq<Suggestion>) -> Seq<SuggestionView> {
    v.map_values(|s: Suggestion| s@)
}

/// A candidate: a word and where it came from.
pub type Candidate = (String, SuggestionKind);

/// The views of a list of candidates.
pub open spec fn cand_views(v: Seq<Candidate>) -> Seq<(Seq<char>, SuggestionKind)> {
    v.map_values(|c: Candidate| (c.0@, c.1))
}

/// The words of a list of candidates.
pub open spec fn cand_words(v: Seq<(Seq<char>, SuggestionKind)>) -> Seq<Seq<char>> {
    v.map_values(|c: (Seq<char>, SuggestionKind)| c.0)
}

/// Candidates with later repetitions of a word removed.
pub open spec fn dedup(c: Seq<(Seq<char>, SuggestionKind)>) -> Seq<(Seq<char>, SuggestionKind)>
    decreases c.len(),
{
    if c.len() == 0 {
        c
    } else if cand_words(c.drop_last()).contains(c.last().0) {
        dedup(c.drop_last())
    } else {
        dedup(c.drop_last()).push(c.last())
    }
}

/// Candidates scored against `typo`, those with a positive score kept, in
/// order.
pub open spec fn scored(typo: Seq<char>, c: Seq<(Seq<char>, SuggestionKind)>) -> Seq<
    SuggestionView,
>
    decreases c.len(),
{
    if c.len() == 0 {
        Seq::empty()
    } else {
        let s = similarity(typo, c.last().0);
        if s > 0 {
            scored(typo, c.drop_last()).push(
                SuggestionView { text: c.last().0, score: s, kind: c.last().1 },
            )
        } else {
            scored(typo, c.drop_last())
        }
    }
}

/// `x` inserted before the first element with a lower score.
pub open spec fn insert_desc(s: Seq<SuggestionView>, x: SuggestionView) -> Seq<SuggestionView>
    decreases s.len(),
{
    if s.len() == 0 {
        seq![x]
    } else if x.score > s[0].score {
        seq![x] + s
    } else {
        seq![s[0]] + insert_desc(s.drop_first(), x)
    }
}

/// Suggestions ordered by score, highest first; equal scores keep their
/// order.
pub open spec fn sort_desc(s: Seq<SuggestionView>) -> Seq<SuggestionView>
    decreases s.len(),
{
    if s.len() == 0 {
        s
    } else {
        insert_desc(sort_desc(s.drop_last()), s.last())
    }
}

/// The ranked suggestions for `typo` among the candidates.
pub open spec fn ranked(typo: Seq<char>, c: Seq<(Seq<char>, SuggestionKind)>) -> Seq<
    SuggestionView,
> {
    sort_desc(scored(typo, dedup(c)))
}

/// The lemma behind insertion: placing `x` at the first position whose
/// element scores lower than `x`.
proof fn lemma_insert_desc_at(s: Seq<SuggestionView>, x: SuggestionView, k: int)
    requires
        0 <= k <= s.len(),
        forall|j: int| 0 <= j < k ==> !(x.score > #[trigger] s[j].score),
        k == s.len() || x.score > s[k].score,
    ensures
        insert_desc(s, x) == s.take(k) + seq![x] + s.skip(k),
    decreases s.len(),
{
    if s.len() == 0 {
        assert(s.take(k) + seq![x] + s.skip(k) =~= seq![x]);
    } else if k == 0 {
        assert(s.take(0) + seq![x] + s.skip(0) =~= seq![x] + s);
    } else {
        let t = s.drop_first();
        assert forall|j: int| 0 <= j < k - 1 implies !(x.score > #[trigger] t[j].score) by {
            assert(t[j] == s[j + 1]);
        }
        if k < s.len() {
            assert(t[k - 1] == s[k]);
        }
        lemma_insert_desc_at(t, x, k - 1);
        assert(seq![s[0]] + (t.take(k - 1) + seq![x] + t.skip(k - 1)) =~= s.take(k) + seq![x]
            + s.skip(k));
    }
}

/// Orders suggestions by score, highest first, keeping the order of equal
/// scores.
pub fn sort_suggestions(v: Vec<Suggestion>) -> (r: Vec<Suggestion>)
    ensures
        sugg_views(r@) == sort_desc(sugg_views(v@)),
{
    let mut r: Vec<Suggestion> = Vec::new();
    let mut rest = v;
    let ghost orig = sugg_views(rest@);
    let ghost n = orig.len();
    while rest.len() > 0
        invariant
            n == orig.len(),
            rest@.len() <= n,
            sugg_views(rest@) == orig.skip(n - rest@.len()),
            sugg_views(r@) == sort_desc(orig.take(n - rest@.len())),
        decreases rest.len(),
    {
        let ghost before_rest = rest@;
        let ghost done = n - rest@.len();
        let x = rest.remove(0);
        assert(sugg_views(before_rest)[0] == x@);
        assert(orig[done] == x@) by {
            assert(orig.skip(done)[0] == orig[done]);
        }
        assert(sugg_views(rest@) =~= orig.skip(done + 1)) by {
            assert(sugg_views(before_rest).drop_first() =~= sugg_views(rest@));
        }
        assert(orig.take(done + 1).drop_last() =~= orig.take(done));
        assert(orig.take(done + 1).last() == x@);
        let mut k: usize = 0;
        while k < r.len() && !(x.score > r[k].score)
            invariant
                k <= r.len(),
                forall|j: int| 0 <= j < k ==> !(x@.score > #[trigger] sugg_views(r@)[j].score),
            decreases r.len() - k,
        {
            k = k + 1;
        }
        let ghost sorted = sugg_views(r@);
        proof {
            lemma_insert_desc_at(sorted, x@, k as int);
        }
        r.insert(k, x);
        assert(sugg_views(r@) =~= sorted.take(k as int) + seq![x@] + sorted.skip(k as int));
    }
    assert(orig.take(n as int) =~= orig);
    r
}

/// Removes later repetitions of a word from the candidates.
pub fn dedup_candidates(c: Vec<Candidate>) -> (r: Vec<Candidate>)
    ensures
        cand_views(r@) == dedup(cand_views(c@)),
{
    let mut r: Vec<Candidate> = Vec::new();
    let mut i: usize = 0;
    while i < c.len()
        invariant
            i <= c.len(),
            cand_views(r@) == dedup(cand_views(c@.take(i as int))),
        decreases c.len() - i,
    {
        let ghost pre = cand_views(c@.take(i as int));
        let ghost cur = cand_views(c@.take(i + 1));
        assert(cur.drop_last() =~= pre);
        assert(cur.last() == (c@[i as int].0@, c@[i as int].1));
        proof {
            lemma_dedup_words(pre);
        }
        let seen = words_contain(&r, c[i].0.as_str());
        assert(seen == cand_words(pre).contains(c@[i as int].0@));
        if !seen {
            let ghost before = r@;
            r.push((c[i].0.clone(), c[i].1));
            assert(cand_views(r@) =~= cand_views(before).push((c@[i as int].0@, c@[i as int].1)));
        }
        i = i + 1;
    }
    assert(c@.take(c.len() as int) =~= c@);
    r
}

/// Removing repetitions keeps the same set of words.
proof fn lemma_dedup_words(c: Seq<(Seq<char>, SuggestionKind)>)
    ensures
        forall|w: Seq<char>| #[trigger] cand_words(dedup(c)).contains(w) <==> cand_words(c).contains(w),
    decreases c.len(),
{
    if c.len() > 0 {
        let t = c.drop_last();
        lemma_dedup_words(t);
        let d = dedup(t);
        assert(cand_words(c) =~= cand_words(t).push(c.last().0));
        if !cand_words(t).contains(c.last().0) {
            assert(cand_words(d.push(c.last())) =~= cand_words(d).push(c.last().0));
        }
        assert forall|w: Seq<char>| #[trigger] cand_words(dedup(c)).contains(w) <==> cand_words(c).contains(w) by {
            let wc = cand_words(c);
            let wt = cand_words(t);
            if wc.contains(w) {
                let k = choose|k: int| 0 <= k < wc.len() && wc[k] == w;
                if k < wt.len() {
                    assert(wt[k] == w);
                }
            }
            if wt.contains(w) {
                let k = choose|k: int| 0 <= k < wt.len() && wt[k] == w;
                assert(wc[k] == w);
            }
            assert(wc[wt.len() as int] == c.last().0);
            if !wt.contains(c.last().0) {
                let wd = cand_words(d);
                let wd2 = cand_words(d.push(c.last()));
                if wd2.contains(w) {
                    let k = choose|k: int| 0 <= k < wd2.len() && wd2[k] == w;
                    if k < wd.len() {
                        assert(wd[k] == w);
                    }
                }
                if wd.contains(w) {
                    let k = choose|k: int| 0 <= k < wd.len() && wd[k] == w;
                    assert(wd2[k] == w);
                }
                assert(wd2[wd.len() as int] == c.last().0);
            }
        }
    }
}

/// Whether a word is among the candidates' words.
fn words_contain(r: &Vec<Candidate>, w: &str) -> (b: bool)
    ensures
        b == cand_words(cand_views(r@)).contains(w@),
{
    let wv = chars_of(w);
    let mut i: usize = 0;
    while i < r.len()
        invariant
            i <= r.len(),
            wv@ == w@,
            forall|j: int| 0 <= j < i ==> r@[j].0@ != w@,
        decreases r.len() - i,
    {
        let x = chars_of(r[i].0.as_str());
        if crate::text::chars_eq(x.as_slice(), wv.as_slice()) {
            assert(cand_words(cand_views(r@))[i as int] == w@);
            return true;
        }
        i = i + 1;
    }
    assert forall|j: int| 0 <= j < cand_words(cand_views(r@)).len() implies cand_words(
        cand_views(r@),
    )[j] != w@ by {}
    false
}

/// Scores the candidates against `typo` and keeps those with a positive
/// score.
pub fn score_candidates(typo: &[char], c: &Vec<Candidate>) -> (r: Vec<Suggestion>)
    ensures
        sugg_views(r@) == scored(typo@, cand_views(c@)),
{
    let mut r: Vec<Suggestion> = Vec::new();
    let mut i: usize = 0;
    while i < c.len()
        invariant
            i <= c.len(),
            sugg_views(r@) == scored(typo@, cand_views(c@.take(i as int))),
        decreases c.len() - i,
    {
        let ghost pre = cand_views(c@.take(i as int));
        let ghost cur = cand_views(c@.take(i + 1));
        assert(cur.drop_last() =~= pre);
        assert(cur.last() == (c@[i as int].0@, c@[i as int].1));
        let w = chars_of(c[i].0.as_str());
        let s = similarity_score(typo, w.as_slice());
        if s > 0 {
            let ghost before = r@;
            r.push(Suggestion { text: c[i].0.clone(), score: s, kind: c[i].1 });
            assert(sugg_views(r@) =~= sugg_views(before).push(
                SuggestionView { text: c@[i as int].0@, score: s as int, kind: c@[i as int].1 },
            ));
        }
        i = i + 1;
    }
    assert(c@.take(c.len() as int) =~= c@);
    r
}

/// The ranked suggestions for `typo` among the candidates.
pub fn rank_candidates(typo: &[char], c: Vec<Candidate>) -> (r: Vec<Suggestion>)
    ensures
        sugg_views(r@) == ranked(typo@, cand_views(c@)),
{
    let d = dedup_candidates(c);
    let s = score_candidates(typo, &d);
    sort_suggestions(s)
}

// ---------------------------------------------------------------------------
// Candidate sources
// ---------------------------------------------------------------------------

/// The leading run of non-whitespace characters of `s`.
pub open spec fn leading_word(s: Seq<char>) -> Seq<char>
    decreases s.len(),
{
    if s.len() == 0 || is_ws(s[0]) {
        Seq::empty()
    } else {
        seq![s[0]] + leading_word(s.drop_first())
    }
}

/// The first whitespace-separated word of `s` (empty when there is none).
pub open spec fn first_word(s: Seq<char>) -> Seq<char> {
    leading_word(trim_start(s))
}

pub proof fn lemma_leading_word(s: Seq<char>, k: int)
    requires
        0 <= k <= s.len(),
        forall|i: int| 0 <= i < k ==> !is_ws(#[trigger] s[i]),
        k == s.len() || is_ws(s[k]),
    ensures
        leading_word(s) == s.take(k),
    decreases k,
{
    if k == 0 {
        assert(s.take(0) =~= Seq::<char>::empty());
    } else {
        let t = s.drop_first();
        assert forall|i: int| 0 <= i < k - 1 implies !is_ws(#[trigger] t[i]) by {
            assert(t[i] == s[i + 1]);
        }
        if k < s.len() {
            assert(t[k - 1] == s[k]);
        }
        lemma_leading_word(t, k - 1);
        assert(seq![s[0]] + t.take(k - 1) =~= s.take(k));
    }
}

/// The first word of a command line (the command's name).
pub fn command_word(line: &str) -> (w: String)
    ensures
        w@ == first_word(line@),
{
    let v = chars_of(line);
    let mut a: usize = 0;
    while a < v.len() && is_whitespace(v[a])
        invariant
            a <= v.len(),
            forall|i: int| 0 <= i < a ==> is_ws(#[trigger] v@[i]),
        decreases v.len() - a,
    {
        a = a + 1;
    }
    proof {
        lemma_trim_start_skip(v@, a as int);
    }
    let mut b: usize = a;
    while b < v.len() && !is_whitespace(v[b])
        invariant
            a <= b <= v.len(),
            forall|i: int| a <= i < b ==> !is_ws(#[trigger] v@[i]),
        decreases v.len() - b,
    {
        b = b + 1;
    }
    proof {
        let s = v@.skip(a as int);
        assert forall|i: int| 0 <= i < b - a implies !is_ws(#[trigger] s[i]) by {
            assert(s[i] == v@[a + i]);
        }
        if b < v.len() {
            assert(s[b - a] == v@[b as int]);
        }
        lemma_leading_word(s, b - a);
        assert(s.take(b - a) =~= v@.subrange(a as int, b as int));
    }
    crate::text::string_of_range(v.as_slice(), a, b)
}

/// `words` tagged with `kind`, appended to `out`.
fn push_candidates(out: &mut Vec<Candidate>, words: &[String], kind: SuggestionKind)
    ensures
        cand_views(final(out)@) == cand_views(old(out)@) + words@.map_values(
            |w: String| (w@, kind),
        ),
{
    let ghost start = cand_views(out@);
    let mut i: usize = 0;
    while i < words.len()
        invariant
            i <= words.len(),
            cand_views(out@) == start + words@.take(i as int).map_values(|w: String| (w@, kind)),
        decreases words.len() - i,
    {
        let ghost before = out@;
        out.push((words[i].clone(), kind));
        assert(cand_views(out@) =~= cand_views(before).push((words@[i as int]@, kind)));
        assert(words@.take(i + 1).map_values(|w: String| (w@, kind)) =~= words@.take(
            i as int,
        ).map_values(|w: String| (w@, kind)).push((words@[i as int]@, kind)));
        i = i + 1;
    }
    assert(words@.take(words.len() as int) =~= words@);
}

/// The command names found in history lines, in order, skipping blank lines.
pub open spec fn history_words(h: Seq<String>) -> Seq<(Seq<char>, SuggestionKind)>
    decreases h.len(),
{
    if h.len() == 0 {
        Seq::empty()
    } else {
        let w = first_word(h.last()@);
        if w.len() > 0 {
            history_words(h.drop_last()).push((w, SuggestionKind::History))
        } else {
            history_words(h.drop_last())
        }
    }
}

/// Appends the command names of history lines to `out`.
fn push_history(out: &mut Vec<Candidate>, history: &[String])
    ensures
        cand_views(final(out)@) == cand_views(old(out)@) + history_words(history@),
{
    let ghost start = cand_views(out@);
    let mut i: usize = 0;
    while i < history.len()
        invariant
            i <= history.len(),
            cand_views(out@) == start + history_words(history@.take(i as int)),
        decreases history.len() - i,
    {
        assert(history@.take(i + 1).drop_last() =~= history@.take(i as int));
        assert(history@.take(i + 1).last() == history@[i as int]);
        let w = command_word(history[i].as_str());
        if !w.as_str().is_empty() {
            let ghost before = out@;
            let ghost wv = w@;
            out.push((w, SuggestionKind::History));
            assert(cand_views(out@) =~= cand_views(before).push((wv, SuggestionKind::History)));
        } else {
            assert(w@.len() == 0);
        }
        i = i + 1;
    }
    assert(history@.take(history.len() as int) =~= history@);
}

/// The words of `v` paired with `kind`.
pub open spec fn tagged(v: Seq<String>, kind: SuggestionKind) -> Seq<(Seq<char>, SuggestionKind)> {
    v.map_values(|w: String| (w@, kind))
}

/// A flag without its leading dashes.
pub open spec fn strip_dashes(s: Seq<char>) -> Seq<char>
    decreases s.len(),
{
    if s.len() > 0 && s[0] == '-' {
        strip_dashes(s.drop_first())
    } else {
        s
    }
}

/// The flag `f` scored against `typo`, ignoring leading dashes on both.
pub open spec fn flag_scored(typo: Seq<char>, flags: Seq<Seq<char>>) -> Seq<SuggestionView>
    decreases flags.len(),
{
    if flags.len() == 0 {
        Seq::empty()
    } else {
        let f = flags.last();
        let s = similarity(strip_dashes(typo), strip_dashes(f));
        if s > 0 {
            flag_scored(typo, flags.drop_last()).push(
                SuggestionView { text: f, score: s, kind: SuggestionKind::Flag },
            )
        } else {
            flag_scored(typo, flags.drop_last())
        }
    }
}

/// The characters of a flag after its leading dashes.
fn strip_dashes_exec(s: &[char]) -> (r: Vec<char>)
    ensures
        r@ == strip_dashes(s@),
{
    let mut a: usize = 0;
    assert(s@.skip(0) =~= s@);
    while a < s.len() && s[a] == '-'
        invariant
            a <= s.len(),
            strip_dashes(s@) == strip_dashes(s@.skip(a as int)),
        decreases s.len() - a,
    {
        assert(s@.skip(a as int).drop_first() =~= s@.skip(a + 1));
        a = a + 1;
    }
    let mut r: Vec<char> = Vec::new();
    let mut i: usize = a;
    while i < s.len()
        invariant
            a <= i <= s.len(),
            r@ == s@.subrange(a as int, i as int),
        decreases s.len() - i,
    {
        r.push(s[i]);
        assert(r@ =~= s@.subrange(a as int, i + 1));
        i = i + 1;
    }
    assert(s@.subrange(a as int, s.len() as int) =~= s@.skip(a as int));
    r
}

/// Views of a list of string slices.
pub open spec fn str_views(v: Seq<&str>) -> Seq<Seq<char>> {
    v.map_values(|s: &str| s@)
}

/// Typo corrector for commands and flags.
#[derive(Debug, Clone)]
pub struct Corrector {
    enabled: bool,
}

impl Corrector {
    /// An enabled corrector.
    pub fn new() -> (c: Self)
        ensures
            c.is_on(),
    {
        Corrector { enabled: true }
    }

    /// Whether corrections are offered.
    pub closed spec fn is_on(&self) -> bool {
        self.enabled
    }

    /// Turns corrections on or off.
    pub fn set_enabled(&mut self, enabled: bool)
        ensures
            final(self).is_on() == enabled,
    {
        self.enabled = enabled;
    }

    /// Whether corrections are offered.
    pub fn is_enabled(&self) -> (b: bool)
        ensures
            b == self.is_on(),
    {
        self.enabled
    }

    /// The percentage shown for a score: the score held to 0..=100.
    pub fn similarity_percent(score: i64, text: &str) -> (p: i64)
        ensures
            p == if score < 0 {
                0
            } else if score > 100 {
                100
            } else {
                score as int
            },
    {
        if score < 0 {
            0
        } else if score > 100 {
            100
        } else {
            score
        }
    }

    /// Ranked corrections for a command among the builtins.
    pub fn suggest_command(&self, typo: &str, builtins: &[String]) -> (r: Vec<Suggestion>)
        ensures
            !self.is_on() ==> r@.len() == 0,
            self.is_on() ==> sugg_views(r@) == ranked(
                typo@,
                tagged(builtins@, SuggestionKind::Builtin),
            ),
    {
        if !self.enabled {
            return Vec::new();
        }
        let mut c: Vec<Candidate> = Vec::new();
        push_candidates(&mut c, builtins, SuggestionKind::Builtin);
        assert(cand_views(c@) =~= tagged(builtins@, SuggestionKind::Builtin));
        let t = chars_of(typo);
        rank_candidates(t.as_slice(), c)
    }

    /// Ranked corrections for a command among builtins, aliases, command
    /// names from history, and tools that the current project suggests.
    pub fn suggest_command_with_context(
        &self,
        typo: &str,
        builtins: &[String],
        aliases: &[String],
        history: &[String],
        context_tools: &[String],
    ) -> (r: Vec<Suggestion>)
        ensures
            !self.is_on() ==> r@.len() == 0,
            self.is_on() ==> sugg_views(r@) == ranked(
                typo@,
                tagged(builtins@, SuggestionKind::Builtin) + tagged(aliases@, SuggestionKind::Alias)
                    + history_words(history@) + tagged(context_tools@, SuggestionKind::Context),
            ),
    {
        if !self.enabled {
            return Vec::new();
        }
        let mut c: Vec<Candidate> = Vec::new();
        push_candidates(&mut c, builtins, SuggestionKind::Builtin);
        push_candidates(&mut c, aliases, SuggestionKind::Alias);
        push_history(&mut c, history);
        push_candidates(&mut c, context_tools, SuggestionKind::Context);
        assert(cand_views(c@) =~= tagged(builtins@, SuggestionKind::Builtin) + tagged(
            aliases@,
            SuggestionKind::Alias,
        ) + history_words(history@) + tagged(context_tools@, SuggestionKind::Context));
        let t = chars_of(typo);
        rank_candidates(t.as_slice(), c)
    }

    /// Ranked corrections for a flag among the valid flags, comparing them
    /// without leading dashes.
    pub fn suggest_flag(&self, typo: &str, valid_flags: &[&str]) -> (r: Vec<Suggestion>)
        ensures
            !self.is_on() ==> r@.len() == 0,
            self.is_on() ==> sugg_views(r@) == sort_desc(flag_scored(typo@, str_views(valid_flags@))),
    {
        if !self.enabled {
            return Vec::new();
        }
        let t = chars_of(typo);
        let tt = strip_dashes_exec(t.as_slice());
        let mut r: Vec<Suggestion> = Vec::new();
        let mut i: usize = 0;
        while i < valid_flags.len()
            invariant
                i <= valid_flags.len(),
                tt@ == strip_dashes(typo@),
                sugg_views(r@) == flag_scored(typo@, str_views(valid_flags@.take(i as int))),
            decreases valid_flags.len() - i,
        {
            let ghost pre = str_views(valid_flags@.take(i as int));
            let ghost cur = str_views(valid_flags@.take(i + 1));
            assert(cur.drop_last() =~= pre);
            assert(cur.last() == valid_flags@[i as int]@);
            let f = chars_of(valid_flags[i]);
            let ff = strip_dashes_exec(f.as_slice());
            let s = similarity_score(tt.as_slice(), ff.as_slice());
            if s > 0 {
                let ghost before = r@;
                r.push(Suggestion { text: owned(valid_flags[i]), score: s, kind: SuggestionKind::Flag });
                assert(sugg_views(r@) =~= sugg_views(before).push(
                    SuggestionView { text: valid_flags@[i as int]@, score: s as int, kind: SuggestionKind::Flag },
                ));
            }
            i = i + 1;
        }
        assert(valid_flags@.take(valid_flags.len() as int) =~= valid_flags@);
        sort_suggestions(r)
    }
}

// ---------------------------------------------------------------------------
// Laws
// ---------------------------------------------------------------------------

/// A word is at distance 0 from itself, and so 100% similar to itself.
pub proof fn law_identical_words(a: Seq<char>)
    ensures
        osa(a, a) == 0,
        similarity(a, a) == 100,
    decreases a.len(),
{
    if a.len() > 0 {
        law_identical_words(a.drop_last());
        lemma_osa_bounds(a.drop_last(), a);
        lemma_osa_bounds(a, a.drop_last());
        if a.len() > 1 {
            lemma_osa_bounds(a.take(a.len() - 2), a.take(a.len() - 2));
        }
    }
}

/// Ranked suggestions are ordered by score, highest first.
pub proof fn law_sorted_by_score(s: Seq<SuggestionView>)
    ensures
        forall|i: int, j: int|
            0 <= i < j < sort_desc(s).len() ==> sort_desc(s)[i].score >= sort_desc(s)[j].score,
        sort_desc(s).len() == s.len(),
    decreases s.len(),
{
    if s.len() > 0 {
        law_sorted_by_score(s.drop_last());
        lemma_insert_keeps_sorted(sort_desc(s.drop_last()), s.last());
    }
}

proof fn lemma_insert_keeps_sorted(s: Seq<SuggestionView>, x: SuggestionView)
    requires
        forall|i: int, j: int| 0 <= i < j < s.len() ==> s[i].score >= s[j].score,
    ensures
        forall|i: int, j: int|
            0 <= i < j < insert_desc(s, x).len() ==> insert_desc(s, x)[i].score >= insert_desc(
                s,
                x,
            )[j].score,
        insert_desc(s, x).len() == s.len() + 1,
        forall|i: int|
            0 <= i < insert_desc(s, x).len() ==> insert_desc(s, x)[i] == x || s.contains(
                insert_desc(s, x)[i],
            ),
    decreases s.len(),
{
    if s.len() > 0 {
        let t = s.drop_first();
        assert forall|i: int, j: int| 0 <= i < j < t.len() implies t[i].score >= t[j].score by {
            assert(t[i] == s[i + 1] && t[j] == s[j + 1]);
        }
        lemma_insert_keeps_sorted(t, x);
        let r = insert_desc(s, x);
        if !(x.score > s[0].score) {
            let rt = insert_desc(t, x);
            assert forall|i: int| 0 <= i < rt.len() implies rt[i] == x || s.contains(rt[i]) by {
                if rt[i] != x {
                    let k = choose|k: int| 0 <= k < t.len() && t[k] == rt[i];
                    assert(s[k + 1] == rt[i]);
                }
            }
            assert forall|i: int| 0 <= i < r.len() implies r[i] == x || s.contains(r[i]) by {
                if i > 0 {
                    assert(r[i] == rt[i - 1]);
                } else {
                    assert(s[0] == r[0]);
                }
            }
            assert forall|j: int| 0 < j < r.len() implies r[0].score >= #[trigger] r[j].score by {
                assert(r[j] == rt[j - 1]);
                if rt[j - 1] != x {
                    let k = choose|k: int| 0 <= k < s.len() && s[k] == rt[j - 1];
                    assert(s[0].score >= s[k].score);
                }
            }
            assert forall|i: int, j: int| 0 <= i < j < r.len() implies r[i].score >= r[j].score by {
                if i > 0 {
                    assert(r[i] == rt[i - 1] && r[j] == rt[j - 1]);
                }
            }
        } else {
            assert forall|i: int| 0 <= i < r.len() implies r[i] == x || s.contains(r[i]) by {
                if i > 0 {
                    assert(r[i] == s[i - 1]);
                }
            }
            assert forall|i: int, j: int| 0 <= i < j < r.len() implies r[i].score >= r[j].score by {
                if i > 0 {
                    assert(r[i] == s[i - 1] && r[j] == s[j - 1]);
                } else {
                    assert(r[j] == s[j - 1]);
                    assert(s[0].score >= s[j - 1].score);
                }
            }
        }
    }
}

} // verus!
