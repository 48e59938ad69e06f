//! Where command substitutions stand in a text: `$(...)`, with nested
//! parentheses and quoted parentheses, and `` `...` ``. Positions are byte
//! offsets. Running the commands is the shell's part; this module finds them.
use vstd::prelude::*;

verus! {

/// The index of the `'` that closes a single-quoted run from `k`, or the
/// end of the text.
pub open spec fn sq_close(b: Seq<u8>, k: int) -> int
    decreases b.len() - k,
{
    if k < 0 || k >= b.len() || b[k] == 39u8 {
        k
    } else {
        sq_close(b, k + 1)
    }
}

/// The index of the `"` that closes a double-quoted run from `k`, a
/// backslash taking the byte after it; past the end when none does.
pub open spec fn dq_close(b: Seq<u8>, k: int) -> int
    decreases b.len() + 2 - k,
{
    if k < 0 || k >= b.len() || b[k] == 34u8 {
        k
    } else if b[k] == 92u8 {
        dq_close(b, k + 2)
    } else {
        dq_close(b, k + 1)
    }
}

pub proof fn lemma_sq_close(b: Seq<u8>, k: int)
    requires
        0 <= k <= b.len(),
    ensures
        k <= sq_close(b, k) <= b.len(),
        sq_close(b, k) < b.len() ==> b[sq_close(b, k)] == 39u8,
    decreases b.len() - k,
{
    if k < b.len() && b[k] != 39u8 {
        lemma_sq_close(b, k + 1);
    }
}

pub proof fn lemma_dq_close(b: Seq<u8>, k: int)
    requires
        0 <= k <= b.len() + 1,
    ensures
        k <= dq_close(b, k) <= b.len() + 1,
    decreases b.len() + 2 - k,
{
    if k < b.len() && b[k] != 34u8 {
        if b[k] == 92u8 {
            lemma_dq_close(b, k + 2);
        } else {
            lemma_dq_close(b, k + 1);
        }
    }
}

/// The scan of `$(...)` from `j` with `depth` parentheses open: where it
/// stops and how many are still open. Quoted runs are skipped whole.
pub open spec fn paren_scan(b: Seq<u8>, j: int, depth: int) -> (int, int)
    decreases b.len() + 3 - j,
{
    if j < 0 || j >= b.len() || depth <= 0 {
        (j, depth)
    } else if b[j] == 40u8 {
        paren_scan(b, j + 1, depth + 1)
    } else if b[j] == 41u8 {
        paren_scan(b, j + 1, depth - 1)
    } else if b[j] == 39u8 {
        proof {
            lemma_sq_close(b, j + 1);
        }
        paren_scan(b, sq_close(b, j + 1) + 1, depth)
    } else if b[j] == 34u8 {
        proof {
            lemma_dq_close(b, j + 1);
        }
        paren_scan(b, dq_close(b, j + 1) + 1, depth)
    } else {
        paren_scan(b, j + 1, depth)
    }
}

/// The index after a backquoted command whose body starts at `j`: past the
/// closing backquote, a backslash taking the byte after it; or the end.
pub open spec fn backquote_scan(b: Seq<u8>, j: int) -> int
    decreases b.len() - j,
{
    if j < 0 || j >= b.len() {
        j
    } else if b[j] == 96u8 {
        j + 1
    } else if b[j] == 92u8 && j + 1 < b.len() {
        backquote_scan(b, j + 2)
    } else {
        backquote_scan(b, j + 1)
    }
}

pub proof fn lemma_backquote_scan(b: Seq<u8>, j: int)
    requires
        0 <= j <= b.len(),
    ensures
        j <= backquote_scan(b, j) <= b.len(),
    decreases b.len() - j,
{
    if j < b.len() && b[j] != 96u8 {
        if b[j] == 92u8 && j + 1 < b.len() {
            lemma_backquote_scan(b, j + 2);
        } else {
            lemma_backquote_scan(b, j + 1);
        }
    }
}

/// The end (exclusive) of the command substitution that starts at `i`:
/// `$(` to the parenthesis that closes it, or a backquote to the next
/// unescaped backquote when that makes a non-empty run ending in a
/// backquote. `None` where no substitution starts or none is closed.
pub open spec fn subst_end(b: Seq<u8>, i: int) -> Option<int> {
    if 0 <= i && i + 1 < b.len() && b[i] == 36u8 && b[i + 1] == 40u8 {
        let scan = paren_scan(b, i + 2, 1);
        if scan.1 == 0 {
            Some(scan.0)
        } else {
            None
        }
    } else if 0 <= i < b.len() && b[i] == 96u8 {
        let j = backquote_scan(b, i + 1);
        if j <= b.len() && j > i + 1 && b[j - 1] == 96u8 {
            Some(j)
        } else {
            None
        }
    } else {
        None
    }
}

/// Where `paren_scan` stops when it closes every parenthesis: after the
/// closing `)`, within the text.
pub proof fn lemma_paren_scan(b: Seq<u8>, j: int, depth: int)
    requires
        0 <= j <= b.len() + 2,
    ensures
        j <= paren_scan(b, j, depth).0,
        paren_scan(b, j, depth).1 == 0 && depth > 0 ==> paren_scan(b, j, depth).0 <= b.len()
            && paren_scan(b, j, depth).0 > j && b[paren_scan(b, j, depth).0 - 1] == 41u8,
        depth > 0 ==> paren_scan(b, j, depth).1 >= 0,
    decreases b.len() + 3 - j,
{
    if 0 <= j < b.len() && depth > 0 {
        if b[j] == 40u8 {
            lemma_paren_scan(b, j + 1, depth + 1);
        } else if b[j] == 41u8 {
            lemma_paren_scan(b, j + 1, depth - 1);
        } else if b[j] == 39u8 {
            lemma_sq_close(b, j + 1);
            lemma_paren_scan(b, sq_close(b, j + 1) + 1, depth);
        } else if b[j] == 34u8 {
            lemma_dq_close(b, j + 1);
            lemma_paren_scan(b, dq_close(b, j + 1) + 1, depth);
        } else {
            lemma_paren_scan(b, j + 1, depth);
        }
    }
}

/// A substitution ends after where it starts, within the text.
pub proof fn lemma_subst_end(b: Seq<u8>, i: int)
    ensures
        subst_end(b, i) matches Some(j) ==> 0 <= i < j <= b.len(),
{
    if 0 <= i && i + 1 < b.len() && b[i] == 36u8 && b[i + 1] == 40u8 {
        lemma_paren_scan(b, i + 2, 1);
    } else if 0 <= i < b.len() && b[i] == 96u8 {
        lemma_backquote_scan(b, i + 1);
    }
}

/// Whether the bytes from `start` to `end` start with `$((` and end with
/// `))`: an arithmetic expansion rather than a command.
pub open spec fn arithmetic_form(b: Seq<u8>, start: int, end: int) -> bool {
    &&& end - start >= 3
    &&& b[start] == 36u8
    &&& b[start + 1] == 40u8
    &&& b[start + 2] == 40u8
    &&& b[end - 2] == 41u8
    &&& b[end - 1] == 41u8
}

/// The index of the `'` closing a quoted run from `k`, or the end.
fn sq_close_exec(bytes: &[u8], k: usize) -> (r: usize)
    requires
        k <= bytes.len(),
    ensures
        r == sq_close(bytes@, k as int),
        k <= r <= bytes@.len(),
{
    proof {
        lemma_sq_close(bytes@, k as int);
    }
    let mut j = k;
    while j < bytes.len() && bytes[j] != 39u8
        invariant
            k <= j <= bytes@.len(),
            sq_close(bytes@, k as int) == sq_close(bytes@, j as int),
        decreases bytes@.len() - j,
    {
        j = j + 1;
    }
    j
}

/// The index of the `"` closing a quoted run from `k`, or the end of the
/// text where the run is not closed.
fn dq_close_exec(bytes: &[u8], k: usize) -> (r: usize)
    requires
        k <= bytes.len(),
    ensures
        dq_close(bytes@, k as int) < bytes@.len() ==> r == dq_close(bytes@, k as int),
        dq_close(bytes@, k as int) >= bytes@.len() ==> r == bytes@.len(),
        k <= r <= bytes@.len(),
{
    proof {
        lemma_dq_close(bytes@, k as int);
    }
    let len = bytes.len();
    let mut j = k;
    while j < len && bytes[j] != 34u8
        invariant
            len == bytes@.len(),
            k <= j <= len,
            dq_close(bytes@, k as int) == dq_close(bytes@, j as int),
        decreases len - j,
    {
        if bytes[j] == 92u8 {
            if j + 1 < len {
                j = j + 2;
            } else {
                proof {
                    assert(dq_close(bytes@, j + 2) == j + 2);
                }
                return len;
            }
        } else {
            j = j + 1;
        }
    }
    j
}

/// The end of a `$(...)` whose body starts at `start`, if its parentheses
/// all close.
fn paren_end(bytes: &[u8], start: usize) -> (r: Option<usize>)
    requires
        1 <= start <= bytes.len(),
    ensures
        r == (if paren_scan(bytes@, start as int, 1).1 == 0 {
            Some(paren_scan(bytes@, start as int, 1).0 as usize)
        } else {
            None::<usize>
        }),
{
    proof {
        lemma_paren_scan(bytes@, start as int, 1);
    }
    let len = bytes.len();
    let mut depth: usize = 1;
    let mut j: usize = start;
    while j < len && depth > 0
        invariant
            len == bytes@.len(),
            1 <= start <= j <= len,
            depth <= j - start + 1,
            paren_scan(bytes@, start as int, 1) == paren_scan(bytes@, j as int, depth as int),
        decreases len - j,
    {
        let c = bytes[j];
        if c == 40u8 {
            depth = depth + 1;
            j = j + 1;
        } else if c == 41u8 {
            depth = depth - 1;
            j = j + 1;
        } else if c == 39u8 {
            let k = sq_close_exec(bytes, j + 1);
            if k >= len {
                proof {
                    assert(paren_scan(bytes@, k + 1, depth as int) == (k + 1, depth as int));
                }
                return None;
            }
            j = k + 1;
        } else if c == 34u8 {
            let k = dq_close_exec(bytes, j + 1);
            if k >= len {
                proof {
                    let d = dq_close(bytes@, j + 1);
                    lemma_dq_close(bytes@, j + 1);
                    assert(paren_scan(bytes@, d + 1, depth as int) == (d + 1, depth as int));
                }
                return None;
            }
            j = k + 1;
        } else {
            j = j + 1;
        }
    }
    if depth == 0 {
        Some(j)
    } else {
        None
    }
}

/// The index after a backquoted command whose body starts at `j`.
fn backquote_end_exec(bytes: &[u8], j: usize) -> (r: usize)
    requires
        j <= bytes.len(),
    ensures
        r == backquote_scan(bytes@, j as int),
{
    proof {
        lemma_backquote_scan(bytes@, j as int);
    }
    let len = bytes.len();
    let mut k = j;
    while k < len
        invariant
            len == bytes@.len(),
            j <= k <= len,
            backquote_scan(bytes@, j as int) == backquote_scan(bytes@, k as int),
        decreases len - k,
    {
        if bytes[k] == 96u8 {
            return k + 1;
        } else if bytes[k] == 92u8 && k + 1 < len {
            k = k + 2;
        } else {
            k = k + 1;
        }
    }
    k
}

/// The end (exclusive) of the command substitution that starts at byte
/// `i`, or `None` where none starts or it is not closed.
pub fn substitution_end(bytes: &[u8], i: usize) -> (r: Option<usize>)
    ensures
        r == (match subst_end(bytes@, i as int) {
            Some(j) => Some(j as usize),
            None => None::<usize>,
        }),
        r matches Some(j) ==> i < j <= bytes@.len(),
{
    proof {
        lemma_subst_end(bytes@, i as int);
    }
    let len = bytes.len();
    if i < len && i + 1 < len && bytes[i] == 36u8 && bytes[i + 1] == 40u8 {
        paren_end(bytes, i + 2)
    } else if i < len && bytes[i] == 96u8 {
        proof {
            lemma_backquote_scan(bytes@, i + 1);
        }
        let j = backquote_end_exec(bytes, i + 1);
        if j > i + 1 && bytes[j - 1] == 96u8 {
            Some(j)
        } else {
            None
        }
    } else {
        None
    }
}

/// Whether the substitution from `start` to `end` is an arithmetic
/// expansion `$((...))`; its expression then lies from `start + 3` to
/// `end - 2`.
pub fn is_arithmetic(bytes: &[u8], start: usize, end: usize) -> (r: bool)
    requires
        start <= end <= bytes.len(),
    ensures
        r == arithmetic_form(bytes@, start as int, end as int),
        r ==> end - start >= 5,
{
    end - start >= 3 && bytes[start] == 36u8 && bytes[start + 1] == 40u8 && bytes[start + 2] == 40u8
        && bytes[end - 2] == 41u8 && bytes[end - 1] == 41u8
}

/// Whether a span of text stays as it is or is a command substitution.
#[derive(Debug, Clone, Copy, PartialEq, Eq, Structural)]
pub enum SpanKind {
    Literal,
    Substitution,
}

/// A run of bytes of a text, from `start` up to `end`.
#[derive(Debug, Clone, Copy, PartialEq, Eq, Structural)]
pub struct Span {
    pub start: usize,
    pub end: usize,
    pub kind: SpanKind,
}

/// `spans` followed by the byte at `i` as literal text, joined to a literal
/// span that ends at `i`.
pub open spec fn push_literal(spans: Seq<Span>, i: int) -> Seq<Span> {
    if spans.len() > 0 && spans.last().kind == SpanKind::Literal && spans.last().end == i {
        spans.drop_last().push(Span { start: spans.last().start, end: (i + 1) as usize, kind: SpanKind::Literal })
    } else {
        spans.push(Span { start: i as usize, end: (i + 1) as usize, kind: SpanKind::Literal })
    }
}

/// The spans of the text from `i`, after `acc`: each substitution whole,
/// the bytes between them as literal runs.
pub open spec fn spans_from(b: Seq<u8>, i: int, acc: Seq<Span>) -> Seq<Span>
    decreases b.len() - i,
{
    if i < 0 || i >= b.len() {
        acc
    } else {
        match subst_end(b, i) {
            Some(j) => {
                proof {
                    lemma_subst_end(b, i);
                }
                spans_from(b, j, acc.push(Span { start: i as usize, end: j as usize, kind: SpanKind::Substitution }))
            },
            None => spans_from(b, i + 1, push_literal(acc, i)),
        }
    }
}

/// Cuts a text into literal runs and command substitutions.
pub fn split_substitutions(bytes: &[u8]) -> (r: Vec<Span>)
    ensures
        r@ == spans_from(bytes@, 0, Seq::empty()),
{
    let len = bytes.len();
    let mut out: Vec<Span> = Vec::new();
    let mut i: usize = 0;
    while i < len
        invariant
            len == bytes@.len(),
            i <= len,
            spans_from(bytes@, i as int, out@) == spans_from(bytes@, 0, Seq::empty()),
            forall|k: int| 0 <= k < out@.len() ==> #[trigger] out@[k].end <= i,
        decreases len - i,
    {
        let ghost i0 = i as int;
        let ghost acc0 = out@;
        proof {
            lemma_subst_end(bytes@, i0);
        }
        match substitution_end(bytes, i) {
            Some(j) => {
                assert(subst_end(bytes@, i0) == Some(j as int));
                out.push(Span { start: i, end: j, kind: SpanKind::Substitution });
                i = j;
            },
            None => {
                assert(subst_end(bytes@, i0) is None);
                let n = out.len();
                if n > 0 && out[n - 1].kind == SpanKind::Literal && out[n - 1].end == i {
                    let last = out.pop().unwrap();
                    out.push(Span { start: last.start, end: i + 1, kind: SpanKind::Literal });
                } else {
                    out.push(Span { start: i, end: i + 1, kind: SpanKind::Literal });
                }
                assert(out@ =~= push_literal(acc0, i0));
                i = i + 1;
            },
        }
        assert(spans_from(bytes@, i0, acc0) == spans_from(bytes@, i as int, out@));
    }
    out
}

/// `spans` cover the bytes before `upto` in order, without gaps or overlap;
/// each substitution span is one that starts there, and no substitution
/// starts at a byte of a literal span.
pub open spec fn tiles(b: Seq<u8>, spans: Seq<Span>, upto: int) -> bool {
    &&& spans.len() == 0 ==> upto == 0
    &&& spans.len() > 0 ==> spans[0].start == 0 && spans.last().end == upto
    &&& forall|k: int| 0 <= k < spans.len() ==> #[trigger] spans[k].start < spans[k].end
    &&& forall|k: int| 0 <= k < spans.len() - 1 ==> #[trigger] spans[k].end == spans[k + 1].start
    &&& forall|k: int|
        0 <= k < spans.len() && #[trigger] spans[k].kind == SpanKind::Substitution ==> subst_end(
            b,
            spans[k].start as int,
        ) == Some(spans[k].end as int)
    &&& forall|k: int, p: int|
        #![trigger spans[k], subst_end(b, p)]
        0 <= k < spans.len() && spans[k].kind == SpanKind::Literal && spans[k].start <= p
            < spans[k].end ==> subst_end(b, p) is None
}

proof fn lemma_spans_tile(b: Seq<u8>, i: int, acc: Seq<Span>)
    requires
        b.len() <= usize::MAX,
        0 <= i <= b.len(),
        tiles(b, acc, i),
    ensures
        tiles(b, spans_from(b, i, acc), b.len() as int),
    decreases b.len() - i,
{
    if i < b.len() {
        lemma_subst_end(b, i);
        match subst_end(b, i) {
            Some(j) => {
                let next = acc.push(Span { start: i as usize, end: j as usize, kind: SpanKind::Substitution });
                assert(tiles(b, next, j));
                lemma_spans_tile(b, j, next);
            },
            None => {
                let next = push_literal(acc, i);
                assert(tiles(b, next, i + 1));
                lemma_spans_tile(b, i + 1, next);
            },
        }
    }
}

/// The spans of a text cover it from its first byte to its last, in order,
/// without gaps or overlap: every substitution span is a whole command
/// substitution, and no substitution starts inside a literal span.
pub proof fn law_spans_tile(b: Seq<u8>)
    requires
        b.len() <= usize::MAX,
    ensures
        tiles(b, spans_from(b, 0, Seq::empty()), b.len() as int),
{
    lemma_spans_tile(b, 0, Seq::empty());
}

} // verus!
