//! Command history: entries with timestamps, the rules for which commands
//! are recorded (blank lines, leading space, ignore patterns, repeats), the
//! size limit, and fuzzy and substring search.
use vstd::prelude::*;
use crate::text::{chars_of, chars_eq, contains_sub, has_prefix, has_sub, owned, starts_with, trim, trim_bounds, append_str};
use fuzzy_matcher::FuzzyMatcher;

verus! {

/// A point in time: seconds since the Unix epoch and nanoseconds within the
/// second.
#[derive(Debug, Clone, Copy, PartialEq, Eq, Structural)]
pub struct Timestamp {
    pub secs: i64,
    pub nanos: u32,
}

/// A reading of the system clock against the Unix epoch: whether the clock
/// stands at or after the epoch, and how far from it.
#[derive(Debug, Clone, Copy, PartialEq, Eq, Structural)]
pub struct ClockReading {
    pub after_epoch: bool,
    pub secs: u64,
    pub nanos: u32,
}

#[verifier::external_type_specification]
#[verifier::external_body]
pub struct ExSystemTime(std::time::SystemTime);

#[verifier::external_type_specification]
#[verifier::external_body]
pub struct ExSystemTimeError(std::time::SystemTimeError);

/// The system clock's current time (`SystemTime::now`). Nothing is claimed
/// of it: it is the machine's.
#[verifier::external_body]
fn system_now() -> (t: std::time::SystemTime) {
    std::time::SystemTime::now()
}

/// How long after the Unix epoch `t` is (`SystemTime::duration_since` with
/// `UNIX_EPOCH`), or an error holding how long before it `t` is. Nothing is
/// claimed of the values.
#[verifier::external_body]
fn since_epoch(t: &std::time::SystemTime) -> (r: Result<std::time::Duration, std::time::SystemTimeError>) {
    t.duration_since(std::time::UNIX_EPOCH)
}

/// How far the time lies before the epoch (`SystemTimeError::duration`).
#[verifier::external_body]
fn error_duration(e: &std::time::SystemTimeError) -> (d: std::time::Duration) {
    e.duration()
}

/// The whole seconds of a duration (`Duration::as_secs`); nothing is
/// claimed of them.
#[verifier::external_body]
fn duration_secs(d: &std::time::Duration) -> (s: u64) {
    d.as_secs()
}

/// The nanoseconds of a duration past its whole seconds
/// (`Duration::subsec_nanos`), which std documents as less than a second.
#[verifier::external_body]
fn duration_subsec_nanos(d: &std::time::Duration) -> (n: u32)
    ensures
        n < 1_000_000_000,
{
    d.subsec_nanos()
}

/// The system clock against the Unix epoch: the distance after it, or,
/// when the clock is set before it, the distance before it.
fn read_clock() -> (r: ClockReading)
    ensures
        r.nanos < 1_000_000_000,
{
    let now = system_now();
    match since_epoch(&now) {
        Ok(d) => ClockReading { after_epoch: true, secs: duration_secs(&d), nanos: duration_subsec_nanos(&d) },
        Err(e) => {
            let d = error_duration(&e);
            ClockReading { after_epoch: false, secs: duration_secs(&d), nanos: duration_subsec_nanos(&d) }
        },
    }
}

/// `n` as a count of seconds that fits in an `i64`: at most `i64::MAX`.
pub open spec fn capped_secs(n: u64) -> int {
    if n > i64::MAX {
        i64::MAX as int
    } else {
        n as int
    }
}

/// The timestamp of a clock reading: whole seconds since the epoch, rounded
/// down, and the nanoseconds past them; seconds beyond what an `i64` holds
/// are capped.
pub open spec fn timestamp_of(r: ClockReading) -> Timestamp {
    if r.after_epoch {
        Timestamp { secs: capped_secs(r.secs) as i64, nanos: r.nanos }
    } else if r.nanos == 0 {
        Timestamp { secs: (-capped_secs(r.secs)) as i64, nanos: 0 }
    } else {
        Timestamp { secs: (-capped_secs(r.secs) - 1) as i64, nanos: (1_000_000_000 - r.nanos) as u32 }
    }
}

/// The timestamp of a clock reading, before or after the epoch.
pub fn timestamp_from_reading(r: ClockReading) -> (t: Timestamp)
    requires
        r.nanos < 1_000_000_000,
    ensures
        t == timestamp_of(r),
        t.nanos < 1_000_000_000,
{
    let secs: i64 = if r.secs > i64::MAX as u64 {
        i64::MAX
    } else {
        r.secs as i64
    };
    if r.after_epoch {
        Timestamp { secs, nanos: r.nanos }
    } else if r.nanos == 0 {
        Timestamp { secs: -secs, nanos: 0 }
    } else {
        Timestamp { secs: -secs - 1, nanos: 1_000_000_000 - r.nanos }
    }
}

/// The current time, before or after the epoch; it cannot fail.
pub(crate) fn utc_now() -> (t: Timestamp)
    ensures
        t.nanos < 1_000_000_000,
{
    timestamp_from_reading(read_clock())
}

/// The home directory of the current user (`dirs::home_dir`), as text.
#[verifier::external_body]
pub(crate) fn home_dir() -> (h: Option<String>) {
    dirs::home_dir().map(|p| p.to_string_lossy().to_string())
}

/// The score that skim's fuzzy matcher, with its default settings, gives
/// `pattern` against `choice`; `None` when the pattern does not match.
pub uninterp spec fn skim_score(choice: Seq<char>, pattern: Seq<char>) -> Option<int>;

/// Scores `pattern` against `choice` with skim's fuzzy matcher
/// (`SkimMatcherV2::fuzzy_match`).
#[verifier::external_body]
pub(crate) fn fuzzy_match(choice: &str, pattern: &str) -> (r: Option<i64>)
    ensures
        r is None <==> skim_score(choice@, pattern@) is None,
        r matches Some(s) ==> skim_score(choice@, pattern@) == Some(s as int),
{
    fuzzy_matcher::skim::SkimMatcherV2::default().fuzzy_match(choice, pattern)
}

/// Configuration for history behavior.
#[derive(Debug, Clone)]
pub struct HistoryConfig {
    /// Maximum number of entries to keep in history.
    pub max_size: usize,
    /// Whether to deduplicate across the entire history (not just
    /// consecutive entries).
    pub deduplicate_all: bool,
    /// Whether to show timestamps in history output.
    pub show_timestamps: bool,
    /// Commands starting with one of these are not recorded.
    pub ignore_patterns: Vec<String>,
    /// Commands starting with a space are not recorded.
    pub ignore_space: bool,
}

impl Default for HistoryConfig {
    fn default() -> (c: Self)
        ensures
            c.max_size == 10_000,
            !c.deduplicate_all,
            !c.show_timestamps,
            c.ignore_patterns@.len() == 0,
            c.ignore_space,
    {
        HistoryConfig {
            max_size: 10_000,
            deduplicate_all: false,
            show_timestamps: false,
            ignore_patterns: Vec::new(),
            ignore_space: true,
        }
    }
}

/// A single history entry with timestamp.
#[derive(Debug)]
pub struct HistoryEntry {
    pub command: String,
    pub timestamp: Timestamp,
}

/// A history entry as plain values.
pub struct EntryView {
    pub command: Seq<char>,
    pub timestamp: Timestamp,
}

impl View for HistoryEntry {
    type V = EntryView;

    open spec fn view(&self) -> EntryView {
        EntryView { command: self.command@, timestamp: self.timestamp }
    }
}

impl Clone for HistoryEntry {
    fn clone(&self) -> (e: Self)
        ensures
            e@ == self@,
    {
        HistoryEntry { command: self.command.clone(), timestamp: self.timestamp }
    }
}

impl HistoryEntry {
    /// An entry for `command`, stamped with the current time.
    pub fn new(command: String) -> (e: Self)
        ensures
            e.command == command,
            e.timestamp.nanos < 1_000_000_000,
    {
        HistoryEntry { command, timestamp: utc_now() }
    }

    /// An entry for `command` with the given time.
    pub fn with_timestamp(command: String, timestamp: Timestamp) -> (e: Self)
        ensures
            e.command == command,
            e.timestamp == timestamp,
    {
        HistoryEntry { command, timestamp }
    }
}

/// A fuzzy-search hit with its relevance score.
#[derive(Debug)]
pub struct SearchResult {
    pub entry: HistoryEntry,
    pub score: i64,
}

/// A search hit as plain values.
pub struct ResultView {
    pub entry: EntryView,
    pub score: int,
}

impl View for SearchResult {
    type V = ResultView;

    open spec fn view(&self) -> ResultView {
        ResultView { entry: self.entry@, score: self.score as int }
    }
}

/// The views of a list of entries.
pub open spec fn entry_views(v: Seq<HistoryEntry>) -> Seq<EntryView> {
    v.map_values(|e: HistoryEntry| e@)
}

/// The views of a list of search hits.
pub open spec fn result_views(v: Seq<SearchResult>) -> Seq<ResultView> {
    v.map_values(|r: SearchResult| r@)
}

/// The views of a list of patterns.
pub open spec fn pattern_views(v: Seq<String>) -> Seq<Seq<char>> {
    v.map_values(|s: String| s@)
}

/// Whether a command is not recorded: blank, starting with a space when
/// `ignore_space` is set, or starting with one of the ignore patterns.
pub open spec fn spec_should_ignore(
    command: Seq<char>,
    ignore_space: bool,
    patterns: Seq<Seq<char>>,
) -> bool {
    ||| trim(command).len() == 0
    ||| (ignore_space && command.len() > 0 && command[0] == ' ')
    ||| exists|i: int| 0 <= i < patterns.len() && has_prefix(command, #[trigger] patterns[i])
}

/// The entries without the first one whose command is `c`.
pub open spec fn remove_first(e: Seq<EntryView>, c: Seq<char>) -> Seq<EntryView>
    decreases e.len(),
{
    if e.len() == 0 {
        e
    } else if e[0].command == c {
        e.drop_first()
    } else {
        seq![e[0]] + remove_first(e.drop_first(), c)
    }
}

/// The last `max` entries (all of them when there are no more).
pub open spec fn keep_last(e: Seq<EntryView>, max: int) -> Seq<EntryView> {
    if e.len() > max {
        e.skip(e.len() - max)
    } else {
        e
    }
}

/// The entries after recording `c` at time `t`, when it is recorded:
/// without an earlier equal command when deduplicating, with the new entry
/// last, and cut to the last `max_size`.
pub open spec fn spec_after_add(
    e: Seq<EntryView>,
    c: Seq<char>,
    t: Timestamp,
    config: HistoryConfig,
) -> Seq<EntryView> {
    let base = if config.deduplicate_all {
        remove_first(e, c)
    } else {
        e
    };
    keep_last(base.push(EntryView { command: c, timestamp: t }), config.max_size as int)
}

/// Whether recording `c` is skipped: ignored, or equal to the last command.
pub open spec fn spec_add_skipped(e: Seq<EntryView>, c: Seq<char>, config: HistoryConfig) -> bool {
    spec_should_ignore(c, config.ignore_space, pattern_views(config.ignore_patterns@)) || (e.len()
        > 0 && e.last().command == c)
}

/// Hits ordered by score, highest first; equal scores keep their order.
pub open spec fn insert_hit(s: Seq<ResultView>, x: ResultView) -> Seq<ResultView>
    decreases s.len(),
{
    if s.len() == 0 {
        seq![x]
    } else if x.score > s[0].score {
        seq![x] + s
    } else {
        seq![s[0]] + insert_hit(s.drop_first(), x)
    }
}

pub open spec fn sort_hits(s: Seq<ResultView>) -> Seq<ResultView>
    decreases s.len(),
{
    if s.len() == 0 {
        s
    } else {
        insert_hit(sort_hits(s.drop_last()), s.last())
    }
}

/// The entries that the fuzzy matcher matches with `query`, with their
/// scores, in history order.
pub open spec fn fuzzy_hits(e: Seq<EntryView>, query: Seq<char>) -> Seq<ResultView>
    decreases e.len(),
{
    if e.len() == 0 {
        Seq::empty()
    } else {
        match skim_score(e.last().command, query) {
            Some(s) => fuzzy_hits(e.drop_last(), query).push(ResultView { entry: e.last(), score: s }),
            None => fuzzy_hits(e.drop_last(), query),
        }
    }
}

/// The first `n` hits (all of them when there are fewer).
pub open spec fn first_hits(s: Seq<ResultView>, n: int) -> Seq<ResultView> {
    if s.len() <= n {
        s
    } else {
        s.take(n)
    }
}

/// Entries whose command contains `query`, most recent first, at most `n`.
pub open spec fn substring_hits(e: Seq<EntryView>, query: Seq<char>, n: int) -> Seq<EntryView>
    decreases e.len(),
{
    if e.len() == 0 || n <= 0 {
        Seq::empty()
    } else if has_sub(e.last().command, query) {
        seq![e.last()] + substring_hits(e.drop_last(), query, n - 1)
    } else {
        substring_hits(e.drop_last(), query, n)
    }
}

proof fn lemma_insert_hit_at(s: Seq<ResultView>, x: ResultView, k: int)
    requires
        0 <= k <= s.len(),
        forall|j: int| 0 <= j < k ==> !(x.score > #[trigger] s[j].score),
        k == s.len() || x.score > s[k].score,
    ensures
        insert_hit(s, x) == s.take(k) + seq![x] + s.skip(k),
    decreases s.len(),
{
    if s.len() == 0 {
        assert(s.take(k) + seq![x] + s.skip(k) =~= seq![x]);
    } else if k == 0 {
        assert(s.take(0) + seq![x] + s.skip(0) =~= seq![x] + s);
    } else {
        let t = s.drop_first();
        assert forall|j: int| 0 <= j < k - 1 implies !(x.score > #[trigger] t[j].score) by {
            assert(t[j] == s[j + 1]);
        }
        if k < s.len() {
            assert(t[k - 1] == s[k]);
        }
        lemma_insert_hit_at(t, x, k - 1);
        assert(seq![s[0]] + (t.take(k - 1) + seq![x] + t.skip(k - 1)) =~= s.take(k) + seq![x]
            + s.skip(k));
    }
}

/// Orders search hits by score, highest first, keeping the order of equal
/// scores, and keeps the first `max_results`.
pub fn rank_hits(hits: Vec<SearchResult>, max_results: usize) -> (r: Vec<SearchResult>)
    ensures
        result_views(r@) == first_hits(sort_hits(result_views(hits@)), max_results as int),
{
    let mut r: Vec<SearchResult> = Vec::new();
    let mut rest = hits;
    let ghost orig = result_views(rest@);
    let ghost n = orig.len();
    while rest.len() > 0
        invariant
            n == orig.len(),
            rest@.len() <= n,
            result_views(rest@) == orig.skip(n - rest@.len()),
            result_views(r@) == sort_hits(orig.take(n - rest@.len())),
        decreases rest.len(),
    {
        let ghost before = rest@;
        let ghost done = n - rest@.len();
        let x = rest.remove(0);
        assert(orig[done] == x@) by {
            assert(orig.skip(done)[0] == orig[done]);
            assert(result_views(before)[0] == x@);
        }
        assert(result_views(rest@) =~= orig.skip(done + 1)) by {
            assert(result_views(before).drop_first() =~= result_views(rest@));
        }
        assert(orig.take(done + 1).drop_last() =~= orig.take(done));
        assert(orig.take(done + 1).last() == x@);
        let mut k: usize = 0;
        while k < r.len() && !(x.score > r[k].score)
            invariant
                k <= r.len(),
                forall|j: int| 0 <= j < k ==> !(x@.score > #[trigger] result_views(r@)[j].score),
            decreases r.len() - k,
        {
            k = k + 1;
        }
        let ghost sorted = result_views(r@);
        proof {
            lemma_insert_hit_at(sorted, x@, k as int);
        }
        r.insert(k, x);
        assert(result_views(r@) =~= sorted.take(k as int) + seq![x@] + sorted.skip(k as int));
    }
    assert(orig.take(n as int) =~= orig);
    if r.len() > max_results {
        let ghost r0 = r@;
        r.truncate(max_results);
        assert(result_views(r@) =~= result_views(r0).take(max_results as int));
    }
    r
}

/// Command history manager with fuzzy and substring search.
#[derive(Debug)]
pub struct History {
    entries: Vec<HistoryEntry>,
    config: HistoryConfig,
    history_file: String,
}

impl History {
    /// The recorded entries, oldest first.
    pub closed spec fn spec_entries(&self) -> Seq<EntryView> {
        entry_views(self.entries@)
    }

    /// The configuration.
    pub closed spec fn spec_config(&self) -> HistoryConfig {
        self.config
    }

    /// The file the history is kept in.
    pub closed spec fn spec_file(&self) -> Seq<char> {
        self.history_file@
    }

    /// A new, empty history with default configuration, kept in the default
    /// history file.
    pub fn new() -> (h: Self)
        ensures
            h.spec_entries().len() == 0,
            h.spec_config().max_size == 10_000,
            !h.spec_config().deduplicate_all,
            h.spec_config().ignore_space,
            !h.spec_config().show_timestamps,
            h.spec_config().ignore_patterns@.len() == 0,
            exists|home: Option<String>| h.spec_file() == spec_history_file_in(home),
    {
        Self::with_config(HistoryConfig::default())
    }

    /// A new, empty history with the given configuration, kept in the
    /// default history file.
    pub fn with_config(config: HistoryConfig) -> (h: Self)
        ensures
            h.spec_entries().len() == 0,
            h.spec_config() == config,
            exists|home: Option<String>| h.spec_file() == spec_history_file_in(home),
    {
        let history_file = Self::default_history_file();
        let h = History { entries: Vec::new(), config, history_file };
        assert(entry_views(h.entries@) =~= Seq::<EntryView>::empty());
        h
    }

    /// A new, empty history kept in the given file.
    pub fn with_file(path: &str, config: HistoryConfig) -> (h: Self)
        ensures
            h.spec_entries().len() == 0,
            h.spec_config() == config,
            h.spec_file() == path@,
    {
        let h = History { entries: Vec::new(), config, history_file: owned(path) };
        assert(entry_views(h.entries@) =~= Seq::<EntryView>::empty());
        h
    }

    /// The default history file: `.aush_history` in the home directory, or
    /// in the current directory when there is no home directory.
    pub fn default_history_file() -> (p: String)
        ensures
            exists|home: Option<String>| p@ == spec_history_file_in(home),
    {
        let home = home_dir();
        let p = Self::history_file_in(home);
        assert(p@ == spec_history_file_in(home));
        p
    }

    /// The history file for a home directory: `.aush_history` in it, or in
    /// the current directory when there is none.
    pub fn history_file_in(home: Option<String>) -> (p: String)
        ensures
            p@ == spec_history_file_in(home),
    {
        match home {
            Some(h) => join_path(h.as_str(), ".aush_history"),
            None => join_path(".", ".aush_history"),
        }
    }

    /// The file the history is kept in.
    pub fn history_file(&self) -> (p: &str)
        ensures
            p@ == self.spec_file(),
    {
        self.history_file.as_str()
    }

    /// Replaces the entries with those read from the history file, keeping
    /// the last `max_size` of them.
    pub fn set_loaded_entries(&mut self, entries: Vec<HistoryEntry>)
        ensures
            final(self).spec_entries() == keep_last(
                entry_views(entries@),
                old(self).spec_config().max_size as int,
            ),
            final(self).spec_config() == old(self).spec_config(),
            final(self).spec_file() == old(self).spec_file(),
    {
        self.entries = entries;
        self.trim_to_max_size();
    }

    /// Whether a command should not be recorded.
    pub fn should_ignore(&self, command: &str) -> (b: bool)
        ensures
            b == spec_should_ignore(
                command@,
                self.spec_config().ignore_space,
                pattern_views(self.spec_config().ignore_patterns@),
            ),
    {
        let v = chars_of(command);
        let (a, e) = trim_bounds(v.as_slice());
        if a == e {
            return true;
        }
        if self.config.ignore_space && v.len() > 0 && v[0] == ' ' {
            return true;
        }
        let mut i: usize = 0;
        while i < self.config.ignore_patterns.len()
            invariant
                i <= self.config.ignore_patterns.len(),
                v@ == command@,
                forall|j: int|
                    0 <= j < i ==> !has_prefix(
                        command@,
                        #[trigger] pattern_views(self.config.ignore_patterns@)[j],
                    ),
            decreases self.config.ignore_patterns.len() - i,
        {
            let p = chars_of(self.config.ignore_patterns[i].as_str());
            if starts_with(v.as_slice(), p.as_slice()) {
                assert(pattern_views(self.config.ignore_patterns@)[i as int] == p@);
                return true;
            }
            assert(pattern_views(self.config.ignore_patterns@)[i as int] == p@);
            i = i + 1;
        }
        false
    }

    /// Keeps only the last `max_size` entries.
    fn trim_to_max_size(&mut self)
        ensures
            final(self).spec_entries() == keep_last(
                old(self).spec_entries(),
                old(self).spec_config().max_size as int,
            ),
            final(self).spec_config() == old(self).spec_config(),
            final(self).spec_file() == old(self).spec_file(),
    {
        if self.entries.len() > self.config.max_size {
            let excess = self.entries.len() - self.config.max_size;
            let ghost before = self.entries@;
            let kept = self.entries.split_off(excess);
            self.entries = kept;
            assert(entry_views(self.entries@) =~= entry_views(before).skip(excess as int));
        }
    }

    /// Records `command` at time `timestamp`, unless it is ignored or
    /// repeats the last command; returns whether it was recorded.
    pub fn add_at(&mut self, command: String, timestamp: Timestamp) -> (added: bool)
        ensures
            added == !spec_add_skipped(old(self).spec_entries(), command@, old(self).spec_config()),
            added ==> final(self).spec_entries() == spec_after_add(
                old(self).spec_entries(),
                command@,
                timestamp,
                old(self).spec_config(),
            ),
            !added ==> final(self).spec_entries() == old(self).spec_entries(),
            final(self).spec_config() == old(self).spec_config(),
            final(self).spec_file() == old(self).spec_file(),
    {
        if self.should_ignore(command.as_str()) {
            return false;
        }
        let n = self.entries.len();
        if n > 0 {
            let last = chars_of(self.entries[n - 1].command.as_str());
            let c = chars_of(command.as_str());
            if chars_eq(last.as_slice(), c.as_slice()) {
                assert(entry_views(self.entries@).last() == self.entries@[n - 1]@);
                return false;
            }
            assert(entry_views(self.entries@).last() == self.entries@[n - 1]@);
        }
        if self.config.deduplicate_all {
            self.remove_first_command(command.as_str());
        }
        let ghost base = entry_views(self.entries@);
        let ghost cmd = command@;
        self.entries.push(HistoryEntry { command, timestamp });
        assert(entry_views(self.entries@) =~= base.push(EntryView { command: cmd, timestamp }));
        self.trim_to_max_size();
        true
    }

    /// Records `command` at the current time, unless it is ignored or
    /// repeats the last command; returns the recorded entry, which the
    /// caller appends to the history file.
    pub fn add(&mut self, command: String) -> (r: Option<HistoryEntry>)
        ensures
            r is None <==> spec_add_skipped(old(self).spec_entries(), command@, old(self).spec_config()),
            r matches Some(e) ==> e.command@ == command@ && final(self).spec_entries()
                == spec_after_add(old(self).spec_entries(), command@, e.timestamp, old(self).spec_config()),
            r is None ==> final(self).spec_entries() == old(self).spec_entries(),
            final(self).spec_config() == old(self).spec_config(),
            final(self).spec_file() == old(self).spec_file(),
    {
        let t = utc_now();
        let entry = HistoryEntry { command: command.clone(), timestamp: t };
        if self.add_at(command, t) {
            Some(entry)
        } else {
            None
        }
    }

    /// Removes the first entry whose command is `command`.
    fn remove_first_command(&mut self, command: &str)
        ensures
            final(self).spec_entries() == remove_first(old(self).spec_entries(), command@),
            final(self).spec_config() == old(self).spec_config(),
            final(self).spec_file() == old(self).spec_file(),
    {
        let c = chars_of(command);
        let mut i: usize = 0;
        while i < self.entries.len()
            invariant
                i <= self.entries.len(),
                c@ == command@,
                self.entries@ == old(self).entries@,
                self.config == old(self).config,
                self.history_file == old(self).history_file,
                forall|j: int| 0 <= j < i ==> self.entries@[j].command@ != command@,
            decreases self.entries.len() - i,
        {
            let e = chars_of(self.entries[i].command.as_str());
            if chars_eq(e.as_slice(), c.as_slice()) {
                let ghost before = entry_views(self.entries@);
                self.entries.remove(i);
                proof {
                    lemma_remove_first_at(before, command@, i as int);
                }
                assert(entry_views(self.entries@) =~= before.take(i as int) + before.skip(i + 1));
                return;
            }
            i = i + 1;
        }
        proof {
            lemma_remove_first_absent(entry_views(self.entries@), command@);
        }
    }

    /// Get an entry by index.
    pub fn get(&self, index: usize) -> (r: Option<&HistoryEntry>)
        ensures
            index < self.spec_entries().len() ==> (r matches Some(e) && e@ == self.spec_entries()[index as int]),
            index >= self.spec_entries().len() ==> r is None,
    {
        if index < self.entries.len() {
            Some(&self.entries[index])
        } else {
            None
        }
    }

    /// All entries, oldest first.
    pub fn entries(&self) -> (r: &[HistoryEntry])
        ensures
            entry_views(r@) == self.spec_entries(),
    {
        self.entries.as_slice()
    }

    /// The last `n` entries (all of them when there are fewer).
    pub fn last_n(&self, n: usize) -> (r: &[HistoryEntry])
        ensures
            entry_views(r@) == keep_last(self.spec_entries(), n as int),
    {
        let len = self.entries.len();
        let start = if len > n {
            len - n
        } else {
            0
        };
        let s = self.entries.as_slice();
        let r = &s[start..len];
        assert(entry_views(r@) =~= keep_last(self.spec_entries(), n as int));
        r
    }

    /// Fuzzy search: the entries matching `query`, best score first, equal
    /// scores in history order, at most `max_results`.
    pub fn search(&self, query: &str, max_results: usize) -> (r: Vec<SearchResult>)
        ensures
            result_views(r@) == first_hits(
                sort_hits(fuzzy_hits(self.spec_entries(), query@)),
                max_results as int,
            ),
    {
        let mut hits: Vec<SearchResult> = Vec::new();
        let mut i: usize = 0;
        while i < self.entries.len()
            invariant
                i <= self.entries.len(),
                result_views(hits@) == fuzzy_hits(entry_views(self.entries@.take(i as int)), query@),
            decreases self.entries.len() - i,
        {
            let ghost pre = entry_views(self.entries@.take(i as int));
            let ghost cur = entry_views(self.entries@.take(i + 1));
            assert(cur.drop_last() =~= pre);
            assert(cur.last() == self.entries@[i as int]@);
            match fuzzy_match(self.entries[i].command.as_str(), query) {
                Some(score) => {
                    let ghost before = hits@;
                    hits.push(SearchResult { entry: self.entries[i].clone(), score });
                    assert(result_views(hits@) =~= result_views(before).push(
                        ResultView { entry: self.entries@[i as int]@, score: score as int },
                    ));
                },
                None => {},
            }
            i = i + 1;
        }
        assert(self.entries@.take(self.entries.len() as int) =~= self.entries@);
        rank_hits(hits, max_results)
    }

    /// Substring search: the entries whose command contains `query`, most
    /// recent first, at most `max_results`.
    pub fn search_substring(&self, query: &str, max_results: usize) -> (r: Vec<&HistoryEntry>)
        ensures
            r@.map_values(|e: &HistoryEntry| e@) == substring_hits(
                self.spec_entries(),
                query@,
                max_results as int,
            ),
    {
        let q = chars_of(query);
        let mut r: Vec<&HistoryEntry> = Vec::new();
        let mut i: usize = self.entries.len();
        let ghost all = self.spec_entries();
        assert(all.take(self.entries.len() as int) =~= all);
        assert(r@.map_values(|e: &HistoryEntry| e@) + substring_hits(all, query@, max_results as int)
            =~= substring_hits(all, query@, max_results as int));
        while i > 0 && r.len() < max_results
            invariant
                i <= self.entries.len(),
                r@.len() <= max_results,
                q@ == query@,
                all == entry_views(self.entries@),
                substring_hits(all, query@, max_results as int) == r@.map_values(
                    |e: &HistoryEntry| e@,
                ) + substring_hits(all.take(i as int), query@, max_results - r@.len()),
            decreases i,
        {
            let ghost pre = all.take(i as int);
            assert(pre.drop_last() =~= all.take(i - 1));
            assert(pre.last() == self.entries@[i - 1]@);
            let c = chars_of(self.entries[i - 1].command.as_str());
            if contains_sub(c.as_slice(), q.as_slice()) {
                let ghost before = r@;
                r.push(&self.entries[i - 1]);
                assert(r@.map_values(|e: &HistoryEntry| e@) =~= before.map_values(
                    |e: &HistoryEntry| e@,
                ).push(self.entries@[i - 1]@));
            }
            i = i - 1;
        }
        proof {
            assert(substring_hits(all.take(i as int), query@, max_results - r@.len()) =~= Seq::<
                EntryView,
            >::empty()) by {
                if i > 0 {
                    assert(max_results - r@.len() == 0);
                }
            }
            assert(r@.map_values(|e: &HistoryEntry| e@) + Seq::<EntryView>::empty() =~= r@.map_values(
                |e: &HistoryEntry| e@,
            ));
        }
        r
    }

    /// Removes all entries; the caller rewrites the history file.
    pub fn clear(&mut self)
        ensures
            final(self).spec_entries().len() == 0,
            final(self).spec_config() == old(self).spec_config(),
            final(self).spec_file() == old(self).spec_file(),
    {
        self.entries.clear();
        assert(entry_views(self.entries@) =~= Seq::<EntryView>::empty());
    }

    /// The number of entries.
    pub fn len(&self) -> (n: usize)
        ensures
            n == self.spec_entries().len(),
    {
        self.entries.len()
    }

    /// Whether there are no entries.
    pub fn is_empty(&self) -> (b: bool)
        ensures
            b == (self.spec_entries().len() == 0),
    {
        self.entries.len() == 0
    }

    /// The configuration.
    pub fn config(&self) -> (c: &HistoryConfig)
        ensures
            *c == self.spec_config(),
    {
        &self.config
    }

    /// Replaces the configuration; the entries are left as they are.
    pub fn set_config(&mut self, config: HistoryConfig)
        ensures
            final(self).spec_config() == config,
            final(self).spec_entries() == old(self).spec_entries(),
            final(self).spec_file() == old(self).spec_file(),
    {
        self.config = config;
    }
}

impl Default for History {
    fn default() -> (h: Self)
        ensures
            h.spec_entries().len() == 0,
    {
        History::new()
    }
}

/// `dir` joined with a relative file name, with one `/` between them.
pub open spec fn spec_join_path(dir: Seq<char>, name: Seq<char>) -> Seq<char> {
    if dir.len() == 0 {
        name
    } else if dir.last() == '/' {
        dir + name
    } else {
        dir + seq!['/'] + name
    }
}

/// `.aush_history` in the home directory, or in the current directory.
pub open spec fn spec_history_file_in(home: Option<String>) -> Seq<char> {
    match home {
        Some(h) => spec_join_path(h@, ".aush_history"@),
        None => spec_join_path("."@, ".aush_history"@),
    }
}

/// Joins a directory and a relative file name.
pub fn join_path(dir: &str, name: &str) -> (p: String)
    ensures
        p@ == spec_join_path(dir@, name@),
{
    let d = chars_of(dir);
    let mut p = owned(dir);
    if d.len() > 0 && d[d.len() - 1] != '/' {
        append_str(&mut p, "/");
        proof {
            reveal_strlit("/");
        }
    }
    append_str(&mut p, name);
    p
}

proof fn lemma_remove_first_at(e: Seq<EntryView>, c: Seq<char>, i: int)
    requires
        0 <= i < e.len(),
        e[i].command == c,
        forall|j: int| 0 <= j < i ==> e[j].command != c,
    ensures
        remove_first(e, c) == e.take(i) + e.skip(i + 1),
    decreases i,
{
    if i == 0 {
        assert(e.take(0) + e.skip(1) =~= e.drop_first());
    } else {
        let t = e.drop_first();
        assert(t[i - 1] == e[i]);
        assert forall|j: int| 0 <= j < i - 1 implies t[j].command != c by {
            assert(t[j] == e[j + 1]);
        }
        lemma_remove_first_at(t, c, i - 1);
        assert(seq![e[0]] + (t.take(i - 1) + t.skip(i)) =~= e.take(i) + e.skip(i + 1));
    }
}

proof fn lemma_remove_first_absent(e: Seq<EntryView>, c: Seq<char>)
    requires
        forall|j: int| 0 <= j < e.len() ==> e[j].command != c,
    ensures
        remove_first(e, c) == e,
    decreases e.len(),
{
    if e.len() > 0 {
        let t = e.drop_first();
        assert forall|j: int| 0 <= j < t.len() implies t[j].command != c by {
            assert(t[j] == e[j + 1]);
        }
        lemma_remove_first_absent(t, c);
        assert(seq![e[0]] + t =~= e);
    }
}

// ---------------------------------------------------------------------------
// Laws
// ---------------------------------------------------------------------------

/// After a command is recorded the history holds at most `max_size`
/// entries, and the recorded command is the last entry (when `max_size` is
/// not zero).
pub proof fn law_add_bounded_and_last(
    e: Seq<EntryView>,
    c: Seq<char>,
    t: Timestamp,
    config: HistoryConfig,
)
    ensures
        spec_after_add(e, c, t, config).len() <= config.max_size,
        config.max_size > 0 ==> spec_after_add(e, c, t, config).last() == (EntryView {
            command: c,
            timestamp: t,
        }),
{
    let base = if config.deduplicate_all {
        remove_first(e, c)
    } else {
        e
    };
    let p = base.push(EntryView { command: c, timestamp: t });
    if p.len() > config.max_size {
        assert(p.skip(p.len() - config.max_size).len() == config.max_size);
        if config.max_size > 0 {
            assert(p.skip(p.len() - config.max_size).last() == p.last());
        }
    }
    lemma_remove_first_len(e, c);
}

proof fn lemma_remove_first_len(e: Seq<EntryView>, c: Seq<char>)
    ensures
        remove_first(e, c).len() <= e.len(),
    decreases e.len(),
{
    if e.len() > 0 {
        lemma_remove_first_len(e.drop_first(), c);
    }
}

/// With `deduplicate_all`, recording a command leaves it exactly once in
/// the history, when the history held it at most once before.
pub proof fn law_dedup_all_keeps_one(
    e: Seq<EntryView>,
    c: Seq<char>,
    t: Timestamp,
    config: HistoryConfig,
)
    requires
        config.deduplicate_all,
        config.max_size > 0,
        forall|i: int, j: int|
            0 <= i < j < e.len() && e[i].command == c ==> e[j].command != c,
    ensures
        ({
            let r = spec_after_add(e, c, t, config);
            forall|i: int| 0 <= i < r.len() - 1 ==> r[i].command != c
        }),
{
    let b = remove_first(e, c);
    lemma_remove_first_removes(e, c);
    let p = b.push(EntryView { command: c, timestamp: t });
    let r = spec_after_add(e, c, t, config);
    assert forall|i: int| 0 <= i < r.len() - 1 implies r[i].command != c by {
        if p.len() > config.max_size {
            let off = p.len() - config.max_size;
            assert(r[i] == p[i + off]);
            assert(p[i + off] == b[i + off]);
        } else {
            assert(r[i] == b[i]);
        }
    }
}

/// Removing the first occurrence of a command that occurred at most once
/// leaves no occurrence.
proof fn lemma_remove_first_removes(e: Seq<EntryView>, c: Seq<char>)
    requires
        forall|i: int, j: int|
            0 <= i < j < e.len() && e[i].command == c ==> e[j].command != c,
    ensures
        forall|i: int| 0 <= i < remove_first(e, c).len() ==> remove_first(e, c)[i].command != c,
    decreases e.len(),
{
    if e.len() > 0 {
        let t = e.drop_first();
        if e[0].command == c {
            assert forall|i: int| 0 <= i < t.len() implies t[i].command != c by {
                assert(t[i] == e[i + 1]);
            }
        } else {
            assert forall|i: int, j: int|
                0 <= i < j < t.len() && t[i].command == c implies t[j].command != c by {
                assert(t[i] == e[i + 1] && t[j] == e[j + 1]);
            }
            lemma_remove_first_removes(t, c);
            let r = remove_first(t, c);
            assert forall|i: int| 0 <= i < (seq![e[0]] + r).len() implies (seq![e[0]] + r)[i].command
                != c by {
                if i > 0 {
                    assert((seq![e[0]] + r)[i] == r[i - 1]);
                }
            }
        }
    }
}

} // verus!
