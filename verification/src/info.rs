//! The panel that `aush info` shows: system, resource, network and time
//! figures in two framed columns, then the user's own figures and the
//! state of the background service, one per line. Gathering the figures is
//! the shell's part; this module lays them out.
use vstd::prelude::*;
use crate::correction::{leading_word, lemma_leading_word};
use crate::expansion::{char_utf8_width, utf8_len, utf8_len_exec, utf8_width};
use crate::table::{pad, pad_exec};
use crate::text::{
    append_chars, append_repeat, append_str, chars_of, is_whitespace, is_ws, lemma_trim_start_skip, repeat_char,
    str_eq, trim_start,
};

verus! {


pub open spec fn cyan() -> Seq<char> {
    "\x1b[36m"@
}

pub open spec fn bold_on() -> Seq<char> {
    "\x1b[1m"@
}

pub open spec fn reset() -> Seq<char> {
    "\x1b[0m"@
}

/// `t` in bold.
pub open spec fn bold(t: Seq<char>) -> Seq<char> {
    bold_on() + t + reset()
}

/// The number of leading characters of `v` whose UTF-8 encoding fits in `b`
/// bytes.
pub open spec fn fit_count(v: Seq<char>, b: nat) -> nat
    decreases v.len(),
{
    if v.len() == 0 || utf8_width(v[0]) > b {
        0
    } else {
        1 + fit_count(v.drop_first(), (b - utf8_width(v[0])) as nat)
    }
}

/// A figure's name padded to eight characters, a space, and its value.
pub open spec fn label(name: Seq<char>, value: Seq<char>) -> Seq<char> {
    pad(name, 8) + seq![' '] + value
}

/// A cell `w` bytes wide: the text cut after `w` bytes when it has that
/// many, else padded with spaces to `w` characters.
pub open spec fn cell(c: Seq<char>, w: nat) -> Seq<char> {
    if utf8_len(c) >= w {
        c.take(fit_count(c, w) as int)
    } else {
        pad(c, w)
    }
}

/// Whether cutting `c` after `w` bytes falls between two characters.
pub open spec fn cuts_cleanly(c: Seq<char>, w: nat) -> bool {
    utf8_len(c) < w || utf8_len(c.take(fit_count(c, w) as int)) == w
}

/// The cell of a figure, or a blank one where it is not shown.
pub open spec fn figure_cell(name: Seq<char>, value: Option<Seq<char>>, w: nat) -> Seq<char> {
    match value {
        Some(v) => cell(label(name, v), w),
        None => repeat_char(' ', w),
    }
}

/// Whether the cell of a figure is cut cleanly, if it is shown.
pub open spec fn figure_clean(name: Seq<char>, value: Option<Seq<char>>, w: nat) -> bool {
    match value {
        Some(v) => cuts_cleanly(label(name, v), w),
        None => true,
    }
}

/// The value of the first figure named `name`.
pub open spec fn figure(stats: Seq<(String, String)>, name: Seq<char>) -> Option<Seq<char>>
    decreases stats.len(),
{
    if stats.len() == 0 {
        None
    } else if stats[0].0@ == name {
        Some(stats[0].1@)
    } else {
        figure(stats.drop_first(), name)
    }
}

/// The value of a figure when it says something: not empty, `N/A` or
/// `unknown`.
pub open spec fn shown(stats: Seq<(String, String)>, name: Seq<char>) -> Option<Seq<char>> {
    match figure(stats, name) {
        Some(v) => if v.len() == 0 || v == "N/A"@ || v == "unknown"@ {
            None
        } else {
            Some(v)
        },
        None => None,
    }
}

/// The `n`-th whitespace-separated word of `s`, counting from zero.
pub open spec fn word_at(s: Seq<char>, n: nat) -> Option<Seq<char>>
    decreases s.len(),
{
    let t = trim_start(s);
    if t.len() == 0 {
        None
    } else {
        proof {
            lemma_trim_start_len(s);
            lemma_leading_word_len(t);
        }
        let w = leading_word(t);
        if n == 0 {
            Some(w)
        } else {
            word_at(t.skip(w.len() as int), (n - 1) as nat)
        }
    }
}

pub proof fn lemma_trim_start_len(s: Seq<char>)
    ensures
        trim_start(s).len() <= s.len(),
        trim_start(s).len() > 0 ==> !is_ws(trim_start(s)[0]),
    decreases s.len(),
{
    if s.len() > 0 && is_ws(s[0]) {
        lemma_trim_start_len(s.drop_first());
    }
}

pub proof fn lemma_leading_word_len(t: Seq<char>)
    ensures
        leading_word(t).len() <= t.len(),
        t.len() > 0 && !is_ws(t[0]) ==> leading_word(t).len() >= 1,
        leading_word(t) == t.take(leading_word(t).len() as int),
    decreases t.len(),
{
    if t.len() > 0 && !is_ws(t[0]) {
        lemma_leading_word_len(t.drop_first());
        assert(seq![t[0]] + t.drop_first().take(leading_word(t.drop_first()).len() as int) =~= t.take(
            leading_word(t).len() as int,
        ));
    }
}

/// A frame line across both columns.
pub open spec fn frame2(l: char, m: char, r: char) -> Seq<char> {
    cyan() + seq![l] + repeat_char('─', 28) + seq![m] + repeat_char('─', 28) + seq![r] + reset()
}

/// A frame line across the whole panel.
pub open spec fn frame1(l: char, r: char) -> Seq<char> {
    cyan() + seq![l] + repeat_char('─', 57) + seq![r] + reset()
}

/// A border of the frame.
pub open spec fn bar() -> Seq<char> {
    cyan() + seq!['│'] + reset()
}

/// A line of two cells.
pub open spec fn row2(left: Seq<char>, right: Seq<char>) -> Seq<char> {
    bar() + left + bar() + right + bar()
}

/// A line of one cell across the panel.
pub open spec fn row1(c: Seq<char>) -> Seq<char> {
    bar() + c + bar()
}

/// `a - b`, or zero.
pub open spec fn sat_sub(a: nat, b: nat) -> nat {
    if a >= b {
        (a - b) as nat
    } else {
        0
    }
}

/// The names of the system figures, on the left.
pub open spec fn system_names() -> Seq<Seq<char>> {
    seq!["host"@, "os"@, "kernel"@, "arch"@, "cpu"@, "cores"@, "uptime"@]
}

/// The names of the resource figures, on the right.
pub open spec fn resource_labels() -> Seq<Seq<char>> {
    seq!["memory"@, "swap"@, "disk"@, "load 1m"@, "load 5m"@, "load 15m"@, "procs"@]
}

/// The load averages: the words of the `load` figure, as it is.
pub open spec fn load_word(stats: Seq<(String, String)>, n: nat) -> Option<Seq<char>> {
    match figure(stats, "load"@) {
        Some(v) => word_at(v, n),
        None => None,
    }
}

/// The value shown in resource row `k`.
pub open spec fn resource_value(stats: Seq<(String, String)>, k: int) -> Option<Seq<char>> {
    if k == 0 {
        shown(stats, "memory"@)
    } else if k == 1 {
        shown(stats, "swap"@)
    } else if k == 2 {
        shown(stats, "disk"@)
    } else if k == 6 {
        shown(stats, "procs"@)
    } else {
        load_word(stats, (k - 3) as nat)
    }
}

/// The figures among `names` that are shown, with their values, in order.
pub open spec fn present(stats: Seq<(String, String)>, names: Seq<Seq<char>>) -> Seq<(Seq<char>, Seq<char>)>
    decreases names.len(),
{
    if names.len() == 0 {
        Seq::empty()
    } else {
        let rest = present(stats, names.drop_first());
        match shown(stats, names[0]) {
            Some(v) => seq![(names[0], v)] + rest,
            None => rest,
        }
    }
}

pub open spec fn network_names() -> Seq<Seq<char>> {
    seq!["ip"@, "wifi"@, "power"@, "battery"@]
}

pub open spec fn time_names() -> Seq<Seq<char>> {
    seq!["time"@, "date"@]
}

/// Cell `k` of a list of present figures, or a blank one past its end.
pub open spec fn listed_cell(figs: Seq<(Seq<char>, Seq<char>)>, k: int) -> Seq<char> {
    if k < figs.len() {
        cell(label(figs[k].0, figs[k].1), 28)
    } else {
        repeat_char(' ', 28)
    }
}

/// The lines of the system and resource figures.
pub open spec fn system_rows(stats: Seq<(String, String)>) -> Seq<Seq<char>> {
    Seq::new(
        7,
        |k: int|
            row2(
                figure_cell(system_names()[k], shown(stats, system_names()[k]), 28),
                figure_cell(resource_labels()[k], resource_value(stats, k), 28),
            ),
    )
}

/// The lines of the network and time figures: as many as the longer list.
pub open spec fn network_rows(stats: Seq<(String, String)>) -> Seq<Seq<char>> {
    let net = present(stats, network_names());
    let time = present(stats, time_names());
    let n = if net.len() > time.len() {
        net.len()
    } else {
        time.len()
    };
    Seq::new(n, |k: int| row2(listed_cell(net, k), listed_cell(time, k)))
}

/// The lines of the user's own figures, when there are any.
pub open spec fn custom_rows(custom: Seq<(String, String)>) -> Seq<Seq<char>> {
    if custom.len() == 0 {
        Seq::empty()
    } else {
        seq![
            frame1('├', '┤'),
            row1(bold("Custom"@) + repeat_char(' ', 51)),
            frame1('├', '┤'),
        ] + Seq::new(custom.len(), |k: int| row1(cell(label(custom[k].0@, custom[k].1@), 57)))
    }
}

/// The state of the background service as the panel names it.
pub open spec fn daemon_text(daemon: Option<Seq<char>>) -> Seq<char> {
    match daemon {
        Some(s) => s,
        None => "not running"@,
    }
}

/// The lines of the panel, with `version` the shell's version, `stats`
/// the built-in figures, `custom` the user's own, and `daemon` the state
/// the background service reports, if it runs.
pub open spec fn panel(
    version: Seq<char>,
    stats: Seq<(String, String)>,
    custom: Seq<(String, String)>,
    daemon: Option<Seq<char>>,
) -> Seq<Seq<char>> {
    let left_hdr = bold("aush"@) + " v"@ + version;
    let left_pad = sat_sub(28, utf8_len("aush v"@ + version));
    seq![
        frame2('╭', '┬', '╮'),
        row2(left_hdr + repeat_char(' ', left_pad), bold("Resources"@) + repeat_char(' ', 19)),
        frame2('├', '┼', '┤'),
    ] + system_rows(stats) + seq![
        frame2('├', '┼', '┤'),
        row2(bold("Network"@) + repeat_char(' ', 21), bold("Time"@) + repeat_char(' ', 24)),
        frame2('├', '┼', '┤'),
    ] + network_rows(stats) + custom_rows(custom) + seq![
        frame1('├', '┤'),
        row1(cell(label("daemon"@, daemon_text(daemon)), 57)),
        frame1('╰', '╯'),
    ]
}

/// Whether every cell of the panel that is cut is cut between two
/// characters.
pub open spec fn panel_clean(
    stats: Seq<(String, String)>,
    custom: Seq<(String, String)>,
    daemon: Option<Seq<char>>,
) -> bool {
    &&& forall|k: int|
        0 <= k < 7 ==> #[trigger] figure_clean(system_names()[k], shown(stats, system_names()[k]), 28)
            && figure_clean(resource_labels()[k], resource_value(stats, k), 28)
    &&& forall|k: int|
        0 <= k < present(stats, network_names()).len() ==> cuts_cleanly(
            label(#[trigger] present(stats, network_names())[k].0, present(stats, network_names())[k].1),
            28,
        )
    &&& forall|k: int|
        0 <= k < present(stats, time_names()).len() ==> cuts_cleanly(
            label(#[trigger] present(stats, time_names())[k].0, present(stats, time_names())[k].1),
            28,
        )
    &&& forall|k: int| 0 <= k < custom.len() ==> cuts_cleanly(label(#[trigger] custom[k].0@, custom[k].1@), 57)
    &&& cuts_cleanly(label("daemon"@, daemon_text(daemon)), 57)
}

/// How many leading characters of `v` fit in `w` bytes, and their length in
/// bytes.
fn cut_point(v: &[char], w: usize) -> (r: (usize, u128))
    ensures
        r.0 == fit_count(v@, w as nat),
        r.1 == utf8_len(v@.take(r.0 as int)),
        r.0 <= v@.len(),
{
    let mut k: usize = 0;
    let mut used: u128 = 0;
    let mut left: usize = w;
    assert(v@.skip(0) =~= v@);
    assert(v@.take(0) =~= Seq::<char>::empty());
    while k < v.len() && char_utf8_width(v[k]) <= left
        invariant
            k <= v@.len(),
            left <= w,
            used == utf8_len(v@.take(k as int)),
            used + left == w,
            fit_count(v@, w as nat) == k + fit_count(v@.skip(k as int), left as nat),
        decreases v@.len() - k,
    {
        assert(v@.skip(k as int).drop_first() =~= v@.skip(k + 1));
        assert(v@.skip(k as int)[0] == v@[k as int]);
        assert(v@.take(k + 1).drop_last() =~= v@.take(k as int));
        let cw = char_utf8_width(v[k]);
        left = left - cw;
        used = used + cw as u128;
        k = k + 1;
    }
    if k < v.len() {
        assert(v@.skip(k as int)[0] == v@[k as int]);
    }
    (k, used)
}

/// A cell `w` bytes wide made of the text `c`.
fn cell_exec(c: &[char], w: usize) -> (r: String)
    ensures
        r@ == cell(c@, w as nat),
{
    if utf8_len_exec(c) >= w as u128 {
        let (k, _) = cut_point(c, w);
        let mut r = String::new();
        let part = crate::lexer::chars_range_pub(c, 0, k);
        append_chars(&mut r, part.as_slice());
        assert(part@ =~= c@.take(k as int));
        r
    } else {
        pad_exec(c, w)
    }
}

/// Whether cutting `c` after `w` bytes falls between two characters.
fn cuts_cleanly_exec(c: &[char], w: usize) -> (r: bool)
    ensures
        r == cuts_cleanly(c@, w as nat),
{
    if utf8_len_exec(c) < w as u128 {
        true
    } else {
        let (_, used) = cut_point(c, w);
        used == w as u128
    }
}

/// A figure's name padded to eight characters, a space, and its value.
fn label_exec(name: &str, value: &[char]) -> (r: Vec<char>)
    ensures
        r@ == label(name@, value@),
{
    let n = chars_of(name);
    let p = pad_exec(n.as_slice(), 8);
    let mut r = chars_of(p.as_str());
    r.push(' ');
    let mut i: usize = 0;
    let ghost r0 = r@;
    while i < value.len()
        invariant
            i <= value@.len(),
            r@ == r0 + value@.take(i as int),
        decreases value@.len() - i,
    {
        r.push(value[i]);
        assert(value@.take(i + 1) =~= value@.take(i as int).push(value@[i as int]));
        i = i + 1;
    }
    assert(value@.take(value@.len() as int) =~= value@);
    r
}

/// The value of the first figure named `name`.
fn figure_exec(stats: &[(String, String)], name: &str) -> (r: Option<Vec<char>>)
    ensures
        r matches Some(v) ==> figure(stats@, name@) == Some(v@),
        r is None ==> figure(stats@, name@) is None,
{
    let mut i: usize = 0;
    assert(stats@.skip(0) =~= stats@);
    while i < stats.len()
        invariant
            i <= stats@.len(),
            figure(stats@, name@) == figure(stats@.skip(i as int), name@),
        decreases stats@.len() - i,
    {
        assert(stats@.skip(i as int)[0] == stats@[i as int]);
        assert(stats@.skip(i as int).drop_first() =~= stats@.skip(i + 1));
        if str_eq(stats[i].0.as_str(), name) {
            return Some(chars_of(stats[i].1.as_str()));
        }
        i = i + 1;
    }
    None
}

/// The value of a figure when it says something.
fn shown_exec(stats: &[(String, String)], name: &str) -> (r: Option<Vec<char>>)
    ensures
        r matches Some(v) ==> shown(stats@, name@) == Some(v@),
        r is None ==> shown(stats@, name@) is None,
{
    match figure_exec(stats, name) {
        Some(v) => {
            let na = chars_of("N/A");
            let unknown = chars_of("unknown");
            if v.len() == 0 || crate::text::chars_eq(v.as_slice(), na.as_slice())
                || crate::text::chars_eq(v.as_slice(), unknown.as_slice()) {
                None
            } else {
                Some(v)
            }
        },
        None => None,
    }
}

/// The `n`-th whitespace-separated word of `v`.
fn word_at_exec(v: &[char], n: usize) -> (r: Option<Vec<char>>)
    ensures
        r matches Some(w) ==> word_at(v@, n as nat) == Some(w@),
        r is None ==> word_at(v@, n as nat) is None,
{
    let len = v.len();
    let mut i: usize = 0;
    let mut count: usize = 0;
    assert(v@.skip(0) =~= v@);
    while count <= n
        invariant
            i <= len == v@.len(),
            count <= n,
            word_at(v@, n as nat) == word_at(v@.skip(i as int), (n - count) as nat),
        decreases n + 1 - count,
    {
        let ghost s = v@.skip(i as int);
        let mut a: usize = i;
        while a < len && is_whitespace(v[a])
            invariant
                i <= a <= len == v@.len(),
                forall|q: int| i <= q < a ==> is_ws(#[trigger] v@[q]),
            decreases len - a,
        {
            a = a + 1;
        }
        proof {
            assert forall|q: int| 0 <= q < a - i implies is_ws(#[trigger] s[q]) by {
                assert(s[q] == v@[i + q]);
            }
            if a < len {
                assert(s[a - i] == v@[a as int]);
            }
            lemma_trim_start_skip(s, a - i);
            assert(s.skip(a - i) =~= v@.skip(a as int));
        }
        if a == len {
            return None;
        }
        let mut b: usize = a;
        while b < len && !is_whitespace(v[b])
            invariant
                a <= b <= len == v@.len(),
                forall|q: int| a <= q < b ==> !is_ws(#[trigger] v@[q]),
            decreases len - b,
        {
            b = b + 1;
        }
        let ghost t = v@.skip(a as int);
        proof {
            assert forall|q: int| 0 <= q < b - a implies !is_ws(#[trigger] t[q]) by {
                assert(t[q] == v@[a + q]);
            }
            if b < len {
                assert(t[b - a] == v@[b as int]);
            }
            lemma_leading_word(t, b - a);
            lemma_trim_start_len(s);
            lemma_leading_word_len(t);
            assert(t.skip(b - a) =~= v@.skip(b as int));
        }
        if count == n {
            let w = crate::lexer::chars_range_pub(v, a, b);
            assert(w@ =~= t.take(b - a));
            return Some(w);
        }
        i = b;
        count = count + 1;
    }
    None
}

/// The texts of a list of words.
pub open spec fn strs(v: Seq<&str>) -> Seq<Seq<char>> {
    v.map_values(|t: &str| t@)
}

/// The texts of a list of figures.
pub open spec fn pair_views(v: Seq<(Vec<char>, Vec<char>)>) -> Seq<(Seq<char>, Seq<char>)> {
    v.map_values(|p: (Vec<char>, Vec<char>)| (p.0@, p.1@))
}

/// The text of an optional value.
pub open spec fn opt_view(o: Option<Vec<char>>) -> Option<Seq<char>> {
    match o {
        Some(v) => Some(v@),
        None => None,
    }
}

/// A frame line across both columns.
fn frame2_exec(l: char, m: char, r: char) -> (s: String)
    ensures
        s@ == frame2(l, m, r),
{
    let mut s = String::new();
    append_str(&mut s, "\x1b[36m");
    crate::text::push_char(&mut s, l);
    append_repeat(&mut s, '─', 28);
    crate::text::push_char(&mut s, m);
    append_repeat(&mut s, '─', 28);
    crate::text::push_char(&mut s, r);
    append_str(&mut s, "\x1b[0m");
    assert(s@ =~= frame2(l, m, r));
    s
}

/// A frame line across the whole panel.
fn frame1_exec(l: char, r: char) -> (s: String)
    ensures
        s@ == frame1(l, r),
{
    let mut s = String::new();
    append_str(&mut s, "\x1b[36m");
    crate::text::push_char(&mut s, l);
    append_repeat(&mut s, '─', 57);
    crate::text::push_char(&mut s, r);
    append_str(&mut s, "\x1b[0m");
    assert(s@ =~= frame1(l, r));
    s
}

fn push_bar(s: &mut String)
    ensures
        final(s)@ == old(s)@ + bar(),
{
    append_str(s, "\x1b[36m");
    crate::text::push_char(s, '│');
    append_str(s, "\x1b[0m");
    assert(final(s)@ =~= old(s)@ + bar());
}

/// A line of two cells.
fn row2_exec(left: &str, right: &str) -> (s: String)
    ensures
        s@ == row2(left@, right@),
{
    let mut s = String::new();
    push_bar(&mut s);
    append_str(&mut s, left);
    push_bar(&mut s);
    append_str(&mut s, right);
    push_bar(&mut s);
    assert(s@ =~= row2(left@, right@));
    s
}

/// A line of one cell.
fn row1_exec(c: &str) -> (s: String)
    ensures
        s@ == row1(c@),
{
    let mut s = String::new();
    push_bar(&mut s);
    append_str(&mut s, c);
    push_bar(&mut s);
    assert(s@ =~= row1(c@));
    s
}

/// `t` in bold, followed by `n` spaces.
fn bold_padded(t: &str, n: usize) -> (s: String)
    ensures
        s@ == bold(t@) + repeat_char(' ', n as nat),
{
    let mut s = String::new();
    append_str(&mut s, "\x1b[1m");
    append_str(&mut s, t);
    append_str(&mut s, "\x1b[0m");
    append_repeat(&mut s, ' ', n);
    assert(s@ =~= bold(t@) + repeat_char(' ', n as nat));
    s
}

/// The cell of a figure, or a blank one.
fn figure_cell_exec(name: &str, value: &Option<Vec<char>>, w: usize) -> (s: String)
    ensures
        s@ == figure_cell(name@, opt_view(*value), w as nat),
{
    match value {
        Some(v) => {
            let l = label_exec(name, v.as_slice());
            cell_exec(l.as_slice(), w)
        },
        None => {
            let mut s = String::new();
            append_repeat(&mut s, ' ', w);
            s
        },
    }
}

/// The value shown in resource row `k`, with `load` the load figure.
fn resource_value_exec(stats: &[(String, String)], load: &Option<Vec<char>>, k: usize) -> (r: Option<Vec<char>>)
    requires
        k < 7,
        opt_view(*load) == figure(stats@, "load"@),
    ensures
        opt_view(r) == resource_value(stats@, k as int),
{
    if k == 0 {
        shown_exec(stats, "memory")
    } else if k == 1 {
        shown_exec(stats, "swap")
    } else if k == 2 {
        shown_exec(stats, "disk")
    } else if k == 6 {
        shown_exec(stats, "procs")
    } else {
        match load {
            Some(v) => word_at_exec(v.as_slice(), k - 3),
            None => None,
        }
    }
}

/// The figures among `names` that are shown, with their values, in order.
fn present_exec(stats: &[(String, String)], names: &[&str]) -> (r: Vec<(Vec<char>, Vec<char>)>)
    ensures
        pair_views(r@) == present(stats@, strs(names@)),
{
    let mut out: Vec<(Vec<char>, Vec<char>)> = Vec::new();
    let mut i: usize = 0;
    assert(strs(names@).skip(0) =~= strs(names@));
    while i < names.len()
        invariant
            i <= names@.len(),
            pair_views(out@) + present(stats@, strs(names@).skip(i as int)) == present(stats@, strs(names@)),
        decreases names@.len() - i,
    {
        let ghost rest = strs(names@).skip(i as int);
        assert(rest[0] == names@[i as int]@);
        assert(rest.drop_first() =~= strs(names@).skip(i + 1));
        let ghost before = pair_views(out@);
        match shown_exec(stats, names[i]) {
            Some(v) => {
                out.push((chars_of(names[i]), v));
                assert(pair_views(out@) =~= before.push((names@[i as int]@, v@)));
                assert(before.push((names@[i as int]@, v@)) + present(stats@, rest.drop_first())
                    =~= before + (seq![(names@[i as int]@, v@)] + present(stats@, rest.drop_first())));
            },
            None => {
                assert(pair_views(out@) =~= before);
            },
        }
        i = i + 1;
    }
    assert(strs(names@).skip(names@.len() as int) =~= Seq::<Seq<char>>::empty());
    assert(pair_views(out@) + Seq::<(Seq<char>, Seq<char>)>::empty() =~= pair_views(out@));
    out
}

/// Cell `k` of a list of present figures, or a blank one.
fn listed_cell_exec(figs: &Vec<(Vec<char>, Vec<char>)>, k: usize) -> (s: String)
    ensures
        s@ == listed_cell(pair_views(figs@), k as int),
{
    if k < figs.len() {
        let n = crate::text::string_of(figs[k].0.as_slice());
        let l = label_exec(n.as_str(), figs[k].1.as_slice());
        cell_exec(l.as_slice(), 28)
    } else {
        let mut s = String::new();
        append_repeat(&mut s, ' ', 28);
        s
    }
}

/// The value of a figure, looked up among the built-in figures and then
/// among the user's own: what `aush info NAME` prints.
pub fn stat_value(builtin: &[(String, String)], custom: &[(String, String)], name: &str) -> (r: Option<String>)
    ensures
        r matches Some(v) ==> (match figure(builtin@, name@) {
            Some(b) => b,
            None => figure(custom@, name@)->Some_0,
        }) == v@,
        r is None <==> figure(builtin@, name@) is None && figure(custom@, name@) is None,
{
    match figure_exec(builtin, name) {
        Some(v) => Some(crate::text::string_of(v.as_slice())),
        None => match figure_exec(custom, name) {
            Some(v) => Some(crate::text::string_of(v.as_slice())),
            None => None,
        },
    }
}

/// The lines of the panel: a frame with the version and the system and
/// resource figures side by side, the network and time figures side by
/// side, the user's own figures, and the state of the background service
/// (`None` when it does not run).
pub fn info_panel(
    version: &str,
    stats: &[(String, String)],
    custom: &[(String, String)],
    daemon: Option<&str>,
) -> (lines: Vec<String>)
    requires
        panel_clean(stats@, custom@, match daemon {
            Some(d) => Some(d@),
            None => None,
        }),
    ensures
        crate::text::views(lines@) == panel(version@, stats@, custom@, match daemon {
            Some(d) => Some(d@),
            None => None,
        }),
{
    let ghost dv = match daemon {
        Some(d) => Some(d@),
        None => None::<Seq<char>>,
    };
    let mut lines: Vec<String> = Vec::new();
    lines.push(frame2_exec('╭', '┬', '╮'));
    let mut left_hdr = bold_padded("aush", 0);
    append_str(&mut left_hdr, " v");
    append_str(&mut left_hdr, version);
    let mut visible = chars_of("aush v");
    let vv = chars_of(version);
    let mut vi: usize = 0;
    let ghost v0 = visible@;
    while vi < vv.len()
        invariant
            vi <= vv@.len(),
            visible@ == v0 + vv@.take(vi as int),
        decreases vv@.len() - vi,
    {
        visible.push(vv[vi]);
        assert(vv@.take(vi + 1) =~= vv@.take(vi as int).push(vv@[vi as int]));
        vi = vi + 1;
    }
    assert(vv@.take(vv@.len() as int) =~= vv@);
    let vis_len = utf8_len_exec(visible.as_slice());
    let left_pad: usize = if vis_len < 28 {
        (28 - vis_len) as usize
    } else {
        0
    };
    append_repeat(&mut left_hdr, ' ', left_pad);
    assert(visible@ =~= "aush v"@ + version@);
    assert(left_pad == sat_sub(28, utf8_len("aush v"@ + version@)));
    assert(left_hdr@ =~= bold("aush"@) + " v"@ + version@ + repeat_char(' ', left_pad as nat));
    let right_hdr = bold_padded("Resources", 19);
    lines.push(row2_exec(left_hdr.as_str(), right_hdr.as_str()));
    lines.push(frame2_exec('├', '┼', '┤'));
    let ghost head = crate::text::views(lines@);
    assert(head =~= seq![
        frame2('╭', '┬', '╮'),
        row2(
            bold("aush"@) + " v"@ + version@ + repeat_char(' ', sat_sub(28, utf8_len("aush v"@ + version@))),
            bold("Resources"@) + repeat_char(' ', 19),
        ),
        frame2('├', '┼', '┤'),
    ]);
    let names = vec!["host", "os", "kernel", "arch", "cpu", "cores", "uptime"];
    let labels = vec!["memory", "swap", "disk", "load 1m", "load 5m", "load 15m", "procs"];
    assert(strs(names@) =~= system_names());
    assert(strs(labels@) =~= resource_labels());
    let load = figure_exec(stats, "load");
    let mut k: usize = 0;
    while k < 7
        invariant
            k <= 7,
            names@.len() == 7,
            labels@.len() == 7,
            strs(names@) == system_names(),
            strs(labels@) == resource_labels(),
            opt_view(load) == figure(stats@, "load"@),
            crate::text::views(lines@) == head + system_rows(stats@).take(k as int),
        decreases 7 - k,
    {
        let ghost before = crate::text::views(lines@);
        assert(strs(names@)[k as int] == names@[k as int]@);
        assert(strs(labels@)[k as int] == labels@[k as int]@);
        let lv = shown_exec(stats, names[k]);
        let rv = resource_value_exec(stats, &load, k);
        let lc = figure_cell_exec(names[k], &lv, 28);
        let rc = figure_cell_exec(labels[k], &rv, 28);
        lines.push(row2_exec(lc.as_str(), rc.as_str()));
        assert(system_rows(stats@).take(k + 1) =~= system_rows(stats@).take(k as int).push(
            system_rows(stats@)[k as int],
        ));
        assert(crate::text::views(lines@) =~= before.push(system_rows(stats@)[k as int]));
        k = k + 1;
    }
    assert(system_rows(stats@).take(7) =~= system_rows(stats@));
    lines.push(frame2_exec('├', '┼', '┤'));
    let net_hdr = bold_padded("Network", 21);
    let time_hdr = bold_padded("Time", 24);
    lines.push(row2_exec(net_hdr.as_str(), time_hdr.as_str()));
    lines.push(frame2_exec('├', '┼', '┤'));
    let ghost mid = crate::text::views(lines@);
    assert(mid =~= head + system_rows(stats@) + seq![
        frame2('├', '┼', '┤'),
        row2(bold("Network"@) + repeat_char(' ', 21), bold("Time"@) + repeat_char(' ', 24)),
        frame2('├', '┼', '┤'),
    ]);
    let net_names = vec!["ip", "wifi", "power", "battery"];
    let time_names_v = vec!["time", "date"];
    assert(strs(net_names@) =~= network_names());
    assert(strs(time_names_v@) =~= time_names());
    let net = present_exec(stats, net_names.as_slice());
    let time = present_exec(stats, time_names_v.as_slice());
    let rows = if net.len() > time.len() {
        net.len()
    } else {
        time.len()
    };
    let mut j: usize = 0;
    while j < rows
        invariant
            j <= rows,
            pair_views(net@) == present(stats@, network_names()),
            pair_views(time@) == present(stats@, time_names()),
            rows == (if net@.len() > time@.len() {
                net@.len()
            } else {
                time@.len()
            }),
            crate::text::views(lines@) == mid + network_rows(stats@).take(j as int),
        decreases rows - j,
    {
        let ghost before = crate::text::views(lines@);
        let lc = listed_cell_exec(&net, j);
        let rc = listed_cell_exec(&time, j);
        lines.push(row2_exec(lc.as_str(), rc.as_str()));
        assert(network_rows(stats@).take(j + 1) =~= network_rows(stats@).take(j as int).push(
            network_rows(stats@)[j as int],
        ));
        assert(crate::text::views(lines@) =~= before.push(network_rows(stats@)[j as int]));
        j = j + 1;
    }
    assert(network_rows(stats@).take(rows as int) =~= network_rows(stats@));
    let ghost after_net = crate::text::views(lines@);
    assert(after_net == mid + network_rows(stats@));
    if custom.len() > 0 {
        lines.push(frame1_exec('├', '┤'));
        let custom_hdr = bold_padded("Custom", 51);
        lines.push(row1_exec(custom_hdr.as_str()));
        lines.push(frame1_exec('├', '┤'));
        let ghost top = crate::text::views(lines@);
        let mut c: usize = 0;
        while c < custom.len()
            invariant
                c <= custom@.len(),
                crate::text::views(lines@) == top + Seq::new(
                    custom@.len(),
                    |q: int| row1(cell(label(custom@[q].0@, custom@[q].1@), 57)),
                ).take(c as int),
            decreases custom@.len() - c,
        {
            let ghost before = crate::text::views(lines@);
            let value = chars_of(custom[c].1.as_str());
            let l = label_exec(custom[c].0.as_str(), value.as_slice());
            let cl = cell_exec(l.as_slice(), 57);
            lines.push(row1_exec(cl.as_str()));
            assert(crate::text::views(lines@) =~= before.push(
                row1(cell(label(custom@[c as int].0@, custom@[c as int].1@), 57)),
            ));
            c = c + 1;
        }
        assert(crate::text::views(lines@) =~= after_net + custom_rows(custom@));
    } else {
        assert(custom_rows(custom@) =~= Seq::<Seq<char>>::empty());
        assert(crate::text::views(lines@) =~= after_net + custom_rows(custom@));
    }
    lines.push(frame1_exec('├', '┤'));
    let status: Vec<char> = match daemon {
        Some(d) => chars_of(d),
        None => chars_of("not running"),
    };
    assert(status@ == daemon_text(dv));
    let dl = label_exec("daemon", status.as_slice());
    let dc = cell_exec(dl.as_slice(), 57);
    lines.push(row1_exec(dc.as_str()));
    lines.push(frame1_exec('╰', '╯'));
    assert(crate::text::views(lines@) =~= panel(version@, stats@, custom@, dv));
    lines
}

/// Whether the cell of a figure is cut cleanly, if it is shown.
fn figure_clean_exec(name: &str, value: &Option<Vec<char>>, w: usize) -> (r: bool)
    ensures
        r == figure_clean(name@, opt_view(*value), w as nat),
{
    match value {
        Some(v) => {
            let l = label_exec(name, v.as_slice());
            cuts_cleanly_exec(l.as_slice(), w)
        },
        None => true,
    }
}

/// Whether each listed figure's cell is cut cleanly at `w` bytes.
fn listed_clean(figs: &Vec<(Vec<char>, Vec<char>)>, w: usize) -> (r: bool)
    ensures
        r == forall|k: int|
            0 <= k < figs@.len() ==> cuts_cleanly(label(#[trigger] pair_views(figs@)[k].0, pair_views(figs@)[k].1), w as nat),
{
    let mut k: usize = 0;
    while k < figs.len()
        invariant
            k <= figs@.len(),
            forall|q: int|
                0 <= q < k ==> cuts_cleanly(label(#[trigger] pair_views(figs@)[q].0, pair_views(figs@)[q].1), w as nat),
        decreases figs@.len() - k,
    {
        let n = crate::text::string_of(figs[k].0.as_slice());
        let l = label_exec(n.as_str(), figs[k].1.as_slice());
        if !cuts_cleanly_exec(l.as_slice(), w) {
            assert(pair_views(figs@)[k as int].0 == n@);
            return false;
        }
        k = k + 1;
    }
    true
}

/// Whether the panel can be laid out: every cell that is cut is cut
/// between two characters.
pub fn panel_is_clean(stats: &[(String, String)], custom: &[(String, String)], daemon: Option<&str>) -> (r: bool)
    ensures
        r == panel_clean(stats@, custom@, match daemon {
            Some(d) => Some(d@),
            None => None,
        }),
{
    let ghost dv = match daemon {
        Some(d) => Some(d@),
        None => None::<Seq<char>>,
    };
    let names = vec!["host", "os", "kernel", "arch", "cpu", "cores", "uptime"];
    let labels = vec!["memory", "swap", "disk", "load 1m", "load 5m", "load 15m", "procs"];
    assert(strs(names@) =~= system_names());
    assert(strs(labels@) =~= resource_labels());
    let load = figure_exec(stats, "load");
    let mut k: usize = 0;
    while k < 7
        invariant
            k <= 7,
            names@.len() == 7,
            labels@.len() == 7,
            strs(names@) == system_names(),
            strs(labels@) == resource_labels(),
            opt_view(load) == figure(stats@, "load"@),
            forall|q: int|
                0 <= q < k ==> #[trigger] figure_clean(system_names()[q], shown(stats@, system_names()[q]), 28)
                    && figure_clean(resource_labels()[q], resource_value(stats@, q), 28),
        decreases 7 - k,
    {
        assert(strs(names@)[k as int] == names@[k as int]@);
        assert(strs(labels@)[k as int] == labels@[k as int]@);
        let lv = shown_exec(stats, names[k]);
        let rv = resource_value_exec(stats, &load, k);
        if !figure_clean_exec(names[k], &lv, 28) || !figure_clean_exec(labels[k], &rv, 28) {
            return false;
        }
        assert forall|q: int| 0 <= q < k + 1 implies #[trigger] figure_clean(
            system_names()[q],
            shown(stats@, system_names()[q]),
            28,
        ) && figure_clean(resource_labels()[q], resource_value(stats@, q), 28) by {
            if q == k {
                assert(figure_clean(system_names()[q], shown(stats@, system_names()[q]), 28));
                assert(figure_clean(resource_labels()[q], resource_value(stats@, q), 28));
            }
        }
        k = k + 1;
    }
    let net_names = vec!["ip", "wifi", "power", "battery"];
    let time_names_v = vec!["time", "date"];
    assert(strs(net_names@) =~= network_names());
    assert(strs(time_names_v@) =~= time_names());
    let net = present_exec(stats, net_names.as_slice());
    let time = present_exec(stats, time_names_v.as_slice());
    if !listed_clean(&net, 28) || !listed_clean(&time, 28) {
        return false;
    }
    let mut c: usize = 0;
    while c < custom.len()
        invariant
            c <= custom@.len(),
            forall|q: int| 0 <= q < c ==> cuts_cleanly(label(#[trigger] custom@[q].0@, custom@[q].1@), 57),
        decreases custom@.len() - c,
    {
        let value = chars_of(custom[c].1.as_str());
        let l = label_exec(custom[c].0.as_str(), value.as_slice());
        if !cuts_cleanly_exec(l.as_slice(), 57) {
            return false;
        }
        c = c + 1;
    }
    let status: Vec<char> = match daemon {
        Some(d) => chars_of(d),
        None => chars_of("not running"),
    };
    let dl = label_exec("daemon", status.as_slice());
    cuts_cleanly_exec(dl.as_slice(), 57)
}

proof fn lemma_ascii_len(c: Seq<char>)
    requires
        forall|i: int| 0 <= i < c.len() ==> (#[trigger] c[i] as u32) < 0x80,
    ensures
        utf8_len(c) == c.len(),
    decreases c.len(),
{
    if c.len() > 0 {
        let d = c.drop_last();
        assert forall|i: int| 0 <= i < d.len() implies (#[trigger] d[i] as u32) < 0x80 by {
            assert(d[i] == c[i]);
        }
        lemma_ascii_len(d);
        assert((c[c.len() - 1] as u32) < 0x80);
    }
}

proof fn lemma_ascii_fit_count(c: Seq<char>, w: nat)
    requires
        forall|i: int| 0 <= i < c.len() ==> (#[trigger] c[i] as u32) < 0x80,
    ensures
        fit_count(c, w) == if c.len() < w {
            c.len()
        } else {
            w
        },
    decreases c.len(),
{
    if c.len() > 0 {
        let d = c.drop_first();
        assert forall|i: int| 0 <= i < d.len() implies (#[trigger] d[i] as u32) < 0x80 by {
            assert(d[i] == c[i + 1]);
        }
        assert((c[0] as u32) < 0x80);
        if w >= 1 {
            lemma_ascii_fit_count(d, (w - 1) as nat);
        }
    }
}

/// A cell of ASCII text is exactly as many characters wide as its column,
/// whether it is cut or padded, so the frame's borders line up.
pub proof fn law_ascii_cell_width(c: Seq<char>, w: nat)
    requires
        forall|i: int| 0 <= i < c.len() ==> (#[trigger] c[i] as u32) < 0x80,
    ensures
        cell(c, w).len() == w,
        cuts_cleanly(c, w),
{
    lemma_ascii_len(c);
    lemma_ascii_fit_count(c, w);
    if c.len() >= w {
        let t = c.take(w as int);
        assert forall|i: int| 0 <= i < t.len() implies (#[trigger] t[i] as u32) < 0x80 by {
            assert(t[i] == c[i]);
        }
        lemma_ascii_len(t);
    }
}

} // verus!
