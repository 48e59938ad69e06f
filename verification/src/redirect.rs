//! Expansion of a redirect target such as `/tmp/log-$name.txt`: what
//! stands at each position of the target. The shell reads the variables and
//! runs the commands; a command that fails leaves its `$` as text.
use vstd::prelude::*;
use crate::expansion::{closing_paren, find_matching_paren_in_str, lemma_closing_paren_bounds};
use crate::literal::{closing_brace, find_matching_brace, lemma_closing_brace, lemma_name_end, name_char, name_end, name_end_exec};

verus! {

/// What a redirect target holds at a position.
#[derive(Debug, Clone, Copy, PartialEq, Eq, Structural)]
pub enum RedirectPart {
    /// The character stays as it is; the next part starts after it.
    Char,
    /// `$(` and a command from `start` up to `end`, where its `)` stands;
    /// `arithmetic` when the command is itself in parentheses, `$((...))`,
    /// with its expression from `start + 1` to `end - 1`. The next part
    /// starts after `end`.
    Command { start: usize, end: usize, arithmetic: bool },
    /// `${` and a name from `start` up to `end`, where its `}` stands. The
    /// next part starts after `end`.
    Braced { start: usize, end: usize },
    /// `$` and a name from `start` up to `end`, where the next part starts.
    Variable { start: usize, end: usize },
    /// `$?` or `$$`, by its second character; the next part starts after it.
    Special(char),
}

/// The part of the target `s` at `i`.
pub open spec fn redirect_part(s: Seq<char>, i: int) -> RedirectPart {
    if 0 <= i && i + 1 < s.len() && s[i] == '$' {
        let d = s[i + 1];
        if d == '(' {
            match closing_paren(s, i + 2, 1) {
                Some(j) => RedirectPart::Command {
                    start: (i + 2) as usize,
                    end: j as usize,
                    arithmetic: j > i + 2 && s[i + 2] == '(' && s[j - 1] == ')',
                },
                None => RedirectPart::Char,
            }
        } else if d == '{' {
            match closing_brace(s, i + 2, 1) {
                Some(j) => RedirectPart::Braced { start: (i + 2) as usize, end: j as usize },
                None => RedirectPart::Char,
            }
        } else if name_char(d) {
            RedirectPart::Variable { start: (i + 1) as usize, end: name_end(s, i + 1) as usize }
        } else if d == '?' || d == '$' {
            RedirectPart::Special(d)
        } else {
            RedirectPart::Char
        }
    } else {
        RedirectPart::Char
    }
}

/// Where the part that starts at `i` ends, and the next one starts.
pub open spec fn part_next(part: RedirectPart, i: int) -> int {
    match part {
        RedirectPart::Char => i + 1,
        RedirectPart::Command { end, .. } => end + 1,
        RedirectPart::Braced { end, .. } => end + 1,
        RedirectPart::Variable { end, .. } => end as int,
        RedirectPart::Special(_) => i + 2,
    }
}

/// The part of a redirect target at position `i` of its characters.
pub fn redirect_part_at(s: &[char], i: usize) -> (r: RedirectPart)
    requires
        i < s.len(),
    ensures
        r == redirect_part(s@, i as int),
        i < part_next(r, i as int) <= s@.len(),
{
    let n = s.len();
    if i + 1 < n && s[i] == '$' {
        let d = s[i + 1];
        if d == '(' {
            proof {
                lemma_closing_paren_bounds(s@, i + 2, 1);
            }
            match find_matching_paren_in_str(s, i + 2) {
                Some(j) => {
                    assert(closing_paren(s@, i + 2, 1) == Some(j as int));
                    let arithmetic = j > i + 2 && s[i + 2] == '(' && s[j - 1] == ')';
                    RedirectPart::Command { start: i + 2, end: j, arithmetic }
                },
                None => RedirectPart::Char,
            }
        } else if d == '{' {
            proof {
                lemma_closing_brace(s@, i + 2, 1);
            }
            match find_matching_brace(s, i + 2) {
                Some(j) => RedirectPart::Braced { start: i + 2, end: j },
                None => RedirectPart::Char,
            }
        } else if ('a' <= d && d <= 'z') || ('A' <= d && d <= 'Z') || ('0' <= d && d <= '9') || d
            == '_' {
            proof {
                lemma_name_end(s@, i + 1);
            }
            let e = name_end_exec(s, i + 1);
            RedirectPart::Variable { start: i + 1, end: e }
        } else if d == '?' || d == '$' {
            RedirectPart::Special(d)
        } else {
            RedirectPart::Char
        }
    } else {
        RedirectPart::Char
    }
}

/// The parts of a target from `i`, in order.
pub open spec fn parts_from(s: Seq<char>, i: int) -> Seq<RedirectPart>
    decreases s.len() - i,
{
    if i < 0 || i >= s.len() || part_next(redirect_part(s, i), i) <= i || part_next(
        redirect_part(s, i),
        i,
    ) > s.len() {
        Seq::empty()
    } else {
        seq![redirect_part(s, i)] + parts_from(s, part_next(redirect_part(s, i), i))
    }
}

/// A target without `$` is all plain characters.
pub proof fn law_plain_target(s: Seq<char>, i: int)
    requires
        0 <= i <= s.len(),
        !s.contains('$'),
    ensures
        parts_from(s, i).len() == s.len() - i,
        forall|k: int| 0 <= k < parts_from(s, i).len() ==> parts_from(s, i)[k] == RedirectPart::Char,
    decreases s.len() - i,
{
    if i < s.len() {
        assert(s[i] != '$') by {
            if s[i] == '$' {
                assert(s.contains('$'));
            }
        }
        law_plain_target(s, i + 1);
        let rest = parts_from(s, i + 1);
        assert(parts_from(s, i) == seq![RedirectPart::Char] + rest);
        assert forall|k: int| 0 <= k < parts_from(s, i).len() implies parts_from(s, i)[k]
            == RedirectPart::Char by {
            if k > 0 {
                assert((seq![RedirectPart::Char] + rest)[k] == rest[k - 1]);
            }
        }
    }
}

} // verus!
