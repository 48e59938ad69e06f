//! Suggestion engine for command and flag typos: runs the corrector, keeps
//! the suggestions that score at least the configured minimum, shows at most
//! the configured number, and formats them for the user.
use vstd::prelude::*;
use crate::correction::{
    flag_scored, history_words, ranked, sort_desc, spec_kind_label, str_views, sugg_views, tagged,
    Corrector, Suggestion, SuggestionKind, SuggestionView,
};
use crate::text::{append_str, dec_int, i64_to_string, owned};

verus! {

/// Configuration for suggestion behavior.
#[derive(Debug, Clone)]
pub struct SuggestionConfig {
    /// Whether to show suggestions at all.
    pub enabled: bool,
    /// Maximum number of suggestions to display.
    pub max_display: usize,
    /// Minimum score for a suggestion to be shown (0-100).
    pub min_score: i64,
}

impl Default for SuggestionConfig {
    fn default() -> (c: Self)
        ensures
            c.enabled,
            c.max_display == 3,
            c.min_score == 50,
    {
        SuggestionConfig { enabled: true, max_display: 3, min_score: 50 }
    }
}

/// The suggestions with a score of at least `min`, in order.
pub open spec fn at_least(s: Seq<SuggestionView>, min: int) -> Seq<SuggestionView>
    decreases s.len(),
{
    if s.len() == 0 {
        s
    } else if s.last().score >= min {
        at_least(s.drop_last(), min).push(s.last())
    } else {
        at_least(s.drop_last(), min)
    }
}

/// The first `n` elements (all of them when there are fewer).
pub open spec fn first_n(s: Seq<SuggestionView>, n: int) -> Seq<SuggestionView> {
    if s.len() <= n {
        s
    } else {
        s.take(n)
    }
}

/// What the engine shows of ranked suggestions: those scoring at least the
/// minimum, at most `max_display` of them.
pub open spec fn shown(s: Seq<SuggestionView>, config: SuggestionConfig) -> Seq<SuggestionView> {
    first_n(at_least(s, config.min_score as int), config.max_display as int)
}

/// One line of the suggestion list: `  text (percent%, kind)`.
pub open spec fn suggestion_line(s: Suggestion) -> Seq<char> {
    let pct = if s.score < 0 {
        0
    } else if s.score > 100 {
        100
    } else {
        s.score as int
    };
    "  "@ + s.text@ + " ("@ + dec_int(pct) + "%, "@ + spec_kind_label(s.kind) + ")\n"@
}

/// The lines for a list of suggestions.
pub open spec fn suggestion_lines(s: Seq<Suggestion>) -> Seq<char>
    decreases s.len(),
{
    if s.len() == 0 {
        Seq::empty()
    } else {
        suggestion_lines(s.drop_last()) + suggestion_line(s.last())
    }
}

/// Suggestion engine for command and flag typos.
#[derive(Clone)]
pub struct SuggestionEngine {
    corrector: Corrector,
    config: SuggestionConfig,
}

impl SuggestionEngine {
    /// The engine's corrector.
    pub closed spec fn spec_corrector(&self) -> Corrector {
        self.corrector
    }

    /// The engine's configuration.
    pub closed spec fn spec_config(&self) -> SuggestionConfig {
        self.config
    }

    /// Create a new suggestion engine with default configuration.
    pub fn new() -> (e: Self)
        ensures
            e.spec_corrector().is_on(),
            e.spec_config().enabled,
            e.spec_config().max_display == 3,
            e.spec_config().min_score == 50,
    {
        SuggestionEngine { corrector: Corrector::new(), config: SuggestionConfig::default() }
    }

    /// Create a suggestion engine with custom configuration.
    pub fn with_config(config: SuggestionConfig) -> (e: Self)
        ensures
            e.spec_corrector().is_on(),
            e.spec_config() == config,
    {
        SuggestionEngine { corrector: Corrector::new(), config }
    }

    /// Get the underlying corrector.
    pub fn corrector(&self) -> (c: &Corrector)
        ensures
            *c == self.spec_corrector(),
    {
        &self.corrector
    }

    /// Get the underlying corrector mutably.
    pub fn corrector_mut(&mut self) -> (c: &mut Corrector)
        ensures
            *c == old(self).spec_corrector(),
            final(self).spec_corrector() == *final(c),
            final(self).spec_config() == old(self).spec_config(),
    {
        &mut self.corrector
    }

    /// Keeps the suggestions scoring at least the minimum, at most
    /// `max_display` of them.
    fn filter_and_limit(&self, v: Vec<Suggestion>) -> (r: Vec<Suggestion>)
        ensures
            sugg_views(r@) == shown(sugg_views(v@), self.config),
    {
        let mut kept: Vec<Suggestion> = Vec::new();
        let mut rest = v;
        let ghost orig = sugg_views(rest@);
        let ghost n = orig.len();
        while rest.len() > 0
            invariant
                n == orig.len(),
                rest@.len() <= n,
                sugg_views(rest@) == orig.skip(n - rest@.len()),
                sugg_views(kept@) == at_least(orig.take(n - rest@.len()), self.config.min_score as int),
            decreases rest.len(),
        {
            let ghost before = rest@;
            let ghost done = n - rest@.len();
            let x = rest.remove(0);
            assert(orig[done] == x@) by {
                assert(orig.skip(done)[0] == orig[done]);
                assert(sugg_views(before)[0] == x@);
            }
            assert(sugg_views(rest@) =~= orig.skip(done + 1)) by {
                assert(sugg_views(before).drop_first() =~= sugg_views(rest@));
            }
            assert(orig.take(done + 1).drop_last() =~= orig.take(done));
            assert(orig.take(done + 1).last() == x@);
            if x.score >= self.config.min_score {
                let ghost k0 = kept@;
                kept.push(x);
                assert(sugg_views(kept@) =~= sugg_views(k0).push(orig[done]));
            }
        }
        assert(orig.take(n as int) =~= orig);
        if kept.len() > self.config.max_display {
            let ghost k0 = kept@;
            kept.truncate(self.config.max_display);
            assert(sugg_views(kept@) =~= sugg_views(k0).take(self.config.max_display as int));
        }
        kept
    }

    /// Suggest corrections for a mistyped command from builtins, aliases,
    /// command names in history, and the tools the current project suggests;
    /// best first, at most `max_display`, each scoring at least `min_score`.
    pub fn suggest_command(
        &self,
        typo: &str,
        builtins: &[String],
        aliases: &[String],
        history: &[String],
        context_tools: &[String],
    ) -> (r: Vec<Suggestion>)
        ensures
            !self.spec_config().enabled || !self.spec_corrector().is_on() ==> r@.len() == 0,
            self.spec_config().enabled && self.spec_corrector().is_on() ==> sugg_views(r@) == shown(
                ranked(
                    typo@,
                    tagged(builtins@, SuggestionKind::Builtin) + tagged(
                        aliases@,
                        SuggestionKind::Alias,
                    ) + history_words(history@) + tagged(context_tools@, SuggestionKind::Context),
                ),
                self.spec_config(),
            ),
    {
        if !self.config.enabled {
            return Vec::new();
        }
        let v = self.corrector.suggest_command_with_context(
            typo,
            builtins,
            aliases,
            history,
            context_tools,
        );
        if !self.corrector.is_enabled() {
            return Vec::new();
        }
        self.filter_and_limit(v)
    }

    /// Suggest corrections for a mistyped flag among the valid flags,
    /// comparing without leading dashes; best first, at most `max_display`,
    /// each scoring at least `min_score`.
    pub fn suggest_flag(&self, typo: &str, valid_flags: &[&str]) -> (r: Vec<Suggestion>)
        ensures
            !self.spec_config().enabled || !self.spec_corrector().is_on() ==> r@.len() == 0,
            self.spec_config().enabled && self.spec_corrector().is_on() ==> sugg_views(r@) == shown(
                sort_desc(flag_scored(typo@, str_views(valid_flags@))),
                self.spec_config(),
            ),
    {
        if !self.config.enabled {
            return Vec::new();
        }
        let v = self.corrector.suggest_flag(typo, valid_flags);
        if !self.corrector.is_enabled() {
            return Vec::new();
        }
        self.filter_and_limit(v)
    }

    /// Format suggestions as a user-friendly string: `Did you mean?` and one
    /// line per suggestion, at most `max_display`; empty when there are none.
    pub fn format_suggestions(&self, suggestions: &[Suggestion]) -> (s: String)
        ensures
            suggestions@.len() == 0 ==> s@ == Seq::<char>::empty(),
            suggestions@.len() > 0 ==> s@ == "Did you mean?\n"@ + suggestion_lines(
                if suggestions@.len() <= self.spec_config().max_display {
                    suggestions@
                } else {
                    suggestions@.take(self.spec_config().max_display as int)
                },
            ),
    {
        if suggestions.len() == 0 {
            return String::new();
        }
        let mut output = owned("Did you mean?\n");
        let ghost s0 = output@;
        let count = if suggestions.len() <= self.config.max_display {
            suggestions.len()
        } else {
            self.config.max_display
        };
        let mut i: usize = 0;
        while i < count
            invariant
                count <= suggestions.len(),
                i <= count,
                output@ == s0 + suggestion_lines(suggestions@.take(i as int)),
            decreases count - i,
        {
            let sug = &suggestions[i];
            assert(suggestions@.take(i + 1).drop_last() =~= suggestions@.take(i as int));
            assert(suggestions@.take(i + 1).last() == *sug);
            let pct = Corrector::similarity_percent(sug.score, sug.text.as_str());
            append_str(&mut output, "  ");
            append_str(&mut output, sug.text.as_str());
            append_str(&mut output, " (");
            let p = i64_to_string(pct);
            append_str(&mut output, p.as_str());
            append_str(&mut output, "%, ");
            append_str(&mut output, sug.kind.label());
            append_str(&mut output, ")\n");
            i = i + 1;
        }
        if suggestions.len() <= self.config.max_display {
            assert(suggestions@.take(count as int) =~= suggestions@);
        }
        output
    }

    /// Whether the best correction for a command among the builtins scores
    /// at least the minimum.
    pub fn is_likely_typo(&self, typo: &str, builtins: &[String]) -> (b: bool)
        ensures
            b == (self.spec_config().enabled && self.spec_corrector().is_on() && {
                let r = ranked(typo@, tagged(builtins@, SuggestionKind::Builtin));
                r.len() > 0 && r[0].score >= self.spec_config().min_score
            }),
    {
        if !self.config.enabled {
            return false;
        }
        let suggestions = self.corrector.suggest_command(typo, builtins);
        if !self.corrector.is_enabled() {
            return false;
        }
        if suggestions.len() > 0 {
            assert(sugg_views(suggestions@)[0] == suggestions@[0]@);
            suggestions[0].score >= self.config.min_score
        } else {
            false
        }
    }

    /// Whether the best correction for a flag scores at least the minimum.
    pub fn is_likely_flag_typo(&self, typo: &str, valid_flags: &[&str]) -> (b: bool)
        ensures
            b == (self.spec_config().enabled && self.spec_corrector().is_on() && {
                let r = sort_desc(flag_scored(typo@, str_views(valid_flags@)));
                r.len() > 0 && r[0].score >= self.spec_config().min_score
            }),
    {
        if !self.config.enabled {
            return false;
        }
        let suggestions = self.corrector.suggest_flag(typo, valid_flags);
        if !self.corrector.is_enabled() {
            return false;
        }
        if suggestions.len() > 0 {
            assert(sugg_views(suggestions@)[0] == suggestions@[0]@);
            suggestions[0].score >= self.config.min_score
        } else {
            false
        }
    }

    /// Set whether suggestions are enabled (in the engine and its corrector).
    pub fn set_enabled(&mut self, enabled: bool)
        ensures
            final(self).spec_config().enabled == enabled,
            final(self).spec_config().max_display == old(self).spec_config().max_display,
            final(self).spec_config().min_score == old(self).spec_config().min_score,
            final(self).spec_corrector().is_on() == enabled,
    {
        self.config.enabled = enabled;
        self.corrector.set_enabled(enabled);
    }

    /// Check if suggestions are enabled.
    pub fn is_enabled(&self) -> (b: bool)
        ensures
            b == self.spec_config().enabled,
    {
        self.config.enabled
    }
}

impl Default for SuggestionEngine {
    fn default() -> (e: Self)
        ensures
            e.spec_corrector().is_on(),
            e.spec_config().enabled,
            e.spec_config().max_display == 3,
            e.spec_config().min_score == 50,
    {
        SuggestionEngine::new()
    }
}

/// Every suggestion shown scores at least the minimum, and no more than
/// `max_display` are shown.
pub proof fn law_shown_respects_config(s: Seq<SuggestionView>, config: SuggestionConfig)
    ensures
        shown(s, config).len() <= config.max_display,
        forall|i: int|
            0 <= i < shown(s, config).len() ==> #[trigger] shown(s, config)[i].score
                >= config.min_score,
{
    lemma_at_least(s, config.min_score as int);
    let a = at_least(s, config.min_score as int);
    assert forall|i: int| 0 <= i < shown(s, config).len() implies #[trigger] shown(s, config)[i].score
        >= config.min_score by {
        assert(shown(s, config)[i] == a[i]);
    }
}

proof fn lemma_at_least(s: Seq<SuggestionView>, min: int)
    ensures
        forall|i: int| 0 <= i < at_least(s, min).len() ==> #[trigger] at_least(s, min)[i].score >= min,
        at_least(s, min).len() <= s.len(),
    decreases s.len(),
{
    if s.len() > 0 {
        lemma_at_least(s.drop_last(), min);
        let a = at_least(s.drop_last(), min);
        if s.last().score >= min {
            assert forall|i: int| 0 <= i < a.push(s.last()).len() implies #[trigger] a.push(
                s.last(),
            )[i].score >= min by {
                if i < a.len() {
                    assert(a.push(s.last())[i] == a[i]);
                }
            }
        }
    }
}

} // verus!
