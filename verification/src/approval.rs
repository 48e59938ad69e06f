//! Confirmation of risky commands: what a command does and how risky it is,
//! the approval mode chosen by the user, and the prompt shown before a
//! command whose risk calls for confirmation runs.
use vstd::prelude::*;
use crate::text::{
    append_str, chars_eq, chars_of, join, join_strings, owned, trim, trim_bounds, views,
};

verus! {

/// How much harm a command can do.
#[derive(Debug, Clone, Copy, PartialEq, Eq, Structural)]
pub enum RiskLevel {
    Low,
    Medium,
    High,
}

/// The rank of a risk level: `Low < Medium < High`.
pub open spec fn risk_rank(r: RiskLevel) -> int {
    match r {
        RiskLevel::Low => 0,
        RiskLevel::Medium => 1,
        RiskLevel::High => 2,
    }
}

impl RiskLevel {
    /// The rank of this level (`Low` 0, `Medium` 1, `High` 2).
    pub fn rank(self) -> (n: u8)
        ensures
            n == risk_rank(self),
    {
        match self {
            RiskLevel::Low => 0,
            RiskLevel::Medium => 1,
            RiskLevel::High => 2,
        }
    }

    /// Whether this level is at least `other`.
    pub fn at_least(self, other: RiskLevel) -> (b: bool)
        ensures
            b == (risk_rank(self) >= risk_rank(other)),
    {
        self.rank() >= other.rank()
    }

    /// The human label, such as `High risk`.
    pub fn label(self) -> (s: String)
        ensures
            s@ == spec_risk_label(self),
    {
        match self {
            RiskLevel::Low => owned("Low risk"),
            RiskLevel::Medium => owned("Medium risk"),
            RiskLevel::High => owned("High risk"),
        }
    }
}

/// The human label of a risk level.
pub open spec fn spec_risk_label(r: RiskLevel) -> Seq<char> {
    match r {
        RiskLevel::Low => "Low risk"@,
        RiskLevel::Medium => "Medium risk"@,
        RiskLevel::High => "High risk"@,
    }
}

/// A side effect that a command can have.
#[derive(Debug, Clone, Copy, PartialEq, Eq, Structural)]
pub enum Effect {
    ReadFiles,
    WriteFiles,
    DeleteFiles,
    Network,
    ProcessControl,
}

/// The human label of an effect, such as `Delete files`.
pub open spec fn spec_effect_label(e: Effect) -> Seq<char> {
    match e {
        Effect::ReadFiles => "Read files"@,
        Effect::WriteFiles => "Write files"@,
        Effect::DeleteFiles => "Delete files"@,
        Effect::Network => "Access the network"@,
        Effect::ProcessControl => "Signal processes"@,
    }
}

impl Effect {
    /// The human label of this effect.
    pub fn label(self) -> (s: String)
        ensures
            s@ == spec_effect_label(self),
    {
        match self {
            Effect::ReadFiles => owned("Read files"),
            Effect::WriteFiles => owned("Write files"),
            Effect::DeleteFiles => owned("Delete files"),
            Effect::Network => owned("Access the network"),
            Effect::ProcessControl => owned("Signal processes"),
        }
    }
}

/// What is known of a command before it runs.
#[derive(Debug)]
pub struct CommandMetadata {
    /// One-line description of what the command does.
    pub summary: String,
    /// How much harm the command can do.
    pub risk: RiskLevel,
    /// The command's side effects.
    pub effects: Vec<Effect>,
}

/// The labels of a list of effects.
pub open spec fn effect_labels(e: Seq<Effect>) -> Seq<Seq<char>> {
    e.map_values(|x: Effect| spec_effect_label(x))
}

/// The human summary: description, risk label and effects on three lines.
pub open spec fn spec_human_summary(summary: Seq<char>, risk: RiskLevel, effects: Seq<Effect>) -> Seq<
    char,
> {
    summary + "\n"@ + spec_risk_label(risk) + "\nEffects: "@ + join(effect_labels(effects), ", "@)
}

impl CommandMetadata {
    /// A human-readable summary of the command, its risk and its effects.
    pub fn render_human_summary(&self) -> (s: String)
        ensures
            s@ == spec_human_summary(self.summary@, self.risk, self.effects@),
    {
        let mut labels: Vec<String> = Vec::new();
        let mut i: usize = 0;
        while i < self.effects.len()
            invariant
                i <= self.effects.len(),
                views(labels@) == effect_labels(self.effects@.take(i as int)),
            decreases self.effects.len() - i,
        {
            let ghost before = labels@;
            labels.push(self.effects[i].label());
            assert(views(labels@) =~= views(before).push(spec_effect_label(self.effects@[i as int])));
            assert(effect_labels(self.effects@.take(i + 1)) =~= effect_labels(
                self.effects@.take(i as int),
            ).push(spec_effect_label(self.effects@[i as int])));
            i = i + 1;
        }
        assert(self.effects@.take(self.effects.len() as int) =~= self.effects@);
        let mut s = self.summary.clone();
        append_str(&mut s, "\n");
        let r = self.risk.label();
        append_str(&mut s, r.as_str());
        append_str(&mut s, "\nEffects: ");
        let j = join_strings(labels.as_slice(), ", ");
        append_str(&mut s, j.as_str());
        s
    }
}

/// The known metadata for a command name, as (summary, risk, effects).
pub open spec fn spec_metadata(name: Seq<char>) -> Option<(Seq<char>, RiskLevel, Seq<Effect>)> {
    if name == "rm"@ {
        Some(("Remove files or directories"@, RiskLevel::High, seq![Effect::DeleteFiles]))
    } else if name == "rmdir"@ {
        Some(("Remove empty directories"@, RiskLevel::Medium, seq![Effect::DeleteFiles]))
    } else if name == "mv"@ {
        Some(
            (
                "Move or rename files"@,
                RiskLevel::Medium,
                seq![Effect::WriteFiles, Effect::DeleteFiles],
            ),
        )
    } else if name == "cp"@ {
        Some(("Copy files"@, RiskLevel::Medium, seq![Effect::ReadFiles, Effect::WriteFiles]))
    } else if name == "kill"@ {
        Some(("Send a signal to processes"@, RiskLevel::High, seq![Effect::ProcessControl]))
    } else if name == "curl"@ {
        Some(("Transfer data from or to a URL"@, RiskLevel::Medium, seq![Effect::Network]))
    } else if name == "ls"@ {
        Some(("List directory contents"@, RiskLevel::Low, seq![Effect::ReadFiles]))
    } else if name == "cat"@ {
        Some(("Print file contents"@, RiskLevel::Low, seq![Effect::ReadFiles]))
    } else {
        None
    }
}

/// Whether `name` spells `lit`.
fn is_name(name: &[char], lit: &str) -> (b: bool)
    ensures
        b == (name@ == lit@),
{
    let l = chars_of(lit);
    chars_eq(name, l.as_slice())
}

/// Builds a metadata record.
fn make_metadata(summary: &str, risk: RiskLevel, effects: Vec<Effect>) -> (m: CommandMetadata)
    ensures
        m.summary@ == summary@,
        m.risk == risk,
        m.effects@ == effects@,
{
    CommandMetadata { summary: owned(summary), risk, effects }
}

/// The metadata of a known command.
pub fn metadata_for_command(name: &str) -> (m: Option<CommandMetadata>)
    ensures
        m is None <==> spec_metadata(name@) is None,
        m matches Some(md) ==> spec_metadata(name@) == Some((md.summary@, md.risk, md.effects@)),
{
    let n = chars_of(name);
    let n = n.as_slice();
    if is_name(n, "rm") {
        Some(make_metadata("Remove files or directories", RiskLevel::High, vec![Effect::DeleteFiles]))
    } else if is_name(n, "rmdir") {
        Some(make_metadata("Remove empty directories", RiskLevel::Medium, vec![Effect::DeleteFiles]))
    } else if is_name(n, "mv") {
        Some(
            make_metadata(
                "Move or rename files",
                RiskLevel::Medium,
                vec![Effect::WriteFiles, Effect::DeleteFiles],
            ),
        )
    } else if is_name(n, "cp") {
        Some(
            make_metadata(
                "Copy files",
                RiskLevel::Medium,
                vec![Effect::ReadFiles, Effect::WriteFiles],
            ),
        )
    } else if is_name(n, "kill") {
        Some(make_metadata("Send a signal to processes", RiskLevel::High, vec![Effect::ProcessControl]))
    } else if is_name(n, "curl") {
        Some(make_metadata("Transfer data from or to a URL", RiskLevel::Medium, vec![Effect::Network]))
    } else if is_name(n, "ls") {
        Some(make_metadata("List directory contents", RiskLevel::Low, vec![Effect::ReadFiles]))
    } else if is_name(n, "cat") {
        Some(make_metadata("Print file contents", RiskLevel::Low, vec![Effect::ReadFiles]))
    } else {
        None
    }
}

/// The command as typed: its name, then its arguments separated by spaces.
pub open spec fn spec_command_preview(name: Seq<char>, args: Seq<Seq<char>>) -> Seq<char> {
    if args.len() == 0 {
        name
    } else {
        name + " "@ + join(args, " "@)
    }
}

/// Renders a command and its arguments on one line.
pub fn format_command_preview(command_name: &str, args: &[String]) -> (s: String)
    ensures
        s@ == spec_command_preview(command_name@, views(args@)),
{
    if args.len() == 0 {
        owned(command_name)
    } else {
        let mut s = owned(command_name);
        append_str(&mut s, " ");
        let j = join_strings(args, " ");
        append_str(&mut s, j.as_str());
        s
    }
}

/// The confirmation prompt: summary, blank line, the command, `Proceed?`.
pub open spec fn spec_approval_prompt(
    name: Seq<char>,
    args: Seq<Seq<char>>,
    summary: Seq<char>,
    risk: RiskLevel,
    effects: Seq<Effect>,
) -> Seq<char> {
    spec_human_summary(summary, risk, effects) + "\n\nCommand: "@ + spec_command_preview(name, args)
        + "\nProceed?"@
}

/// The prompt asking the user to confirm a command.
pub fn approval_prompt(command_name: &str, args: &[String], metadata: &CommandMetadata) -> (s:
    String)
    ensures
        s@ == spec_approval_prompt(
            command_name@,
            views(args@),
            metadata.summary@,
            metadata.risk,
            metadata.effects@,
        ),
{
    let rendered = format_command_preview(command_name, args);
    let mut s = metadata.render_human_summary();
    append_str(&mut s, "\n\nCommand: ");
    append_str(&mut s, rendered.as_str());
    append_str(&mut s, "\nProceed?");
    s
}

/// Which commands ask for confirmation before they run.
#[derive(Debug, Clone, Copy, PartialEq, Eq, Structural)]
pub enum ApprovalMode {
    /// Never ask.
    Off,
    /// Ask for high-risk commands.
    High,
    /// Ask for medium- and high-risk commands.
    Medium,
}

/// ASCII lower case of one character.
pub open spec fn ascii_lower(c: char) -> char {
    if 'A' <= c && c <= 'Z' {
        ((c as u32) + 32) as char
    } else {
        c
    }
}

/// ASCII lower case of a string (`str::to_ascii_lowercase`).
pub open spec fn ascii_lowercase(s: Seq<char>) -> Seq<char> {
    s.map_values(|c: char| ascii_lower(c))
}

/// The approval mode named by a setting: `off`, `never`, `false`, `0` turn
/// confirmation off; `medium` asks for medium risk and above; everything
/// else, the empty value included, asks for high risk. Surrounding
/// whitespace and ASCII case are ignored.
pub open spec fn spec_parse_approval_mode(value: Seq<char>) -> ApprovalMode {
    let v = ascii_lowercase(trim(value));
    if v == "off"@ || v == "never"@ || v == "false"@ || v == "0"@ {
        ApprovalMode::Off
    } else if v == "medium"@ {
        ApprovalMode::Medium
    } else {
        ApprovalMode::High
    }
}

/// Lower-cases ASCII letters.
pub fn to_ascii_lowercase(v: &[char]) -> (r: Vec<char>)
    ensures
        r@ == ascii_lowercase(v@),
{
    let mut r: Vec<char> = Vec::new();
    let mut i: usize = 0;
    while i < v.len()
        invariant
            i <= v.len(),
            r@ == ascii_lowercase(v@.take(i as int)),
        decreases v.len() - i,
    {
        let c = v[i];
        let l = if 'A' <= c && c <= 'Z' {
            (((c as u32) + 32) as u8) as char
        } else {
            c
        };
        assert(l == ascii_lower(c)) by {
            if 'A' <= c && c <= 'Z' {
                assert(((c as u32) + 32) as char == ascii_lower(c));
            }
        };
        r.push(l);
        assert(ascii_lowercase(v@.take(i + 1)) =~= ascii_lowercase(v@.take(i as int)).push(l));
        i = i + 1;
    }
    assert(v@.take(v.len() as int) =~= v@);
    r
}

/// Parses an approval-mode setting.
pub fn parse_approval_mode(value: &str) -> (m: ApprovalMode)
    ensures
        m == spec_parse_approval_mode(value@),
{
    let v = chars_of(value);
    let (a, b) = trim_bounds(v.as_slice());
    let mut t: Vec<char> = Vec::new();
    let mut i: usize = a;
    while i < b
        invariant
            a <= i <= b <= v.len(),
            t@ == v@.subrange(a as int, i as int),
        decreases b - i,
    {
        t.push(v[i]);
        assert(t@ =~= v@.subrange(a as int, i + 1));
        i = i + 1;
    }
    let l = to_ascii_lowercase(t.as_slice());
    let l = l.as_slice();
    if is_name(l, "off") || is_name(l, "never") || is_name(l, "false") || is_name(l, "0") {
        ApprovalMode::Off
    } else if is_name(l, "medium") {
        ApprovalMode::Medium
    } else {
        ApprovalMode::High
    }
}

impl ApprovalMode {
    /// Whether a command of the given risk needs confirmation in this mode.
    pub fn requires_confirmation(self, risk: RiskLevel) -> (b: bool)
        ensures
            b == match self {
                ApprovalMode::Off => false,
                ApprovalMode::High => risk_rank(risk) >= risk_rank(RiskLevel::High),
                ApprovalMode::Medium => risk_rank(risk) >= risk_rank(RiskLevel::Medium),
            },
    {
        match self {
            ApprovalMode::Off => false,
            ApprovalMode::High => risk.at_least(RiskLevel::High),
            ApprovalMode::Medium => risk.at_least(RiskLevel::Medium),
        }
    }

    /// The mode for a setting that may be absent: absent means `High`.
    pub fn from_setting(value: Option<&str>) -> (m: ApprovalMode)
        ensures
            m == match value {
                Some(v) => spec_parse_approval_mode(v@),
                None => ApprovalMode::High,
            },
    {
        match value {
            Some(v) => parse_approval_mode(v),
            None => ApprovalMode::High,
        }
    }
}

/// Whether the effects of a command of risk `risk` are confirmed before it
/// runs: only when progress is shown, outside agent mode, when the approval
/// mode asks for that risk, and when both standard input and output are
/// terminals.
pub fn should_confirm_effects(
    show_progress: bool,
    agent_mode: bool,
    mode: ApprovalMode,
    risk: RiskLevel,
    stdin_is_terminal: bool,
    stdout_is_terminal: bool,
) -> (b: bool)
    ensures
        b == (show_progress && !agent_mode && (match mode {
            ApprovalMode::Off => false,
            ApprovalMode::High => risk_rank(risk) >= risk_rank(RiskLevel::High),
            ApprovalMode::Medium => risk_rank(risk) >= risk_rank(RiskLevel::Medium),
        }) && stdin_is_terminal && stdout_is_terminal),
{
    show_progress && !agent_mode && mode.requires_confirmation(risk) && stdin_is_terminal
        && stdout_is_terminal
}

/// A stricter mode asks for confirmation of everything a looser one does:
/// `Medium` asks whenever `High` does, and `Off` never asks.
pub proof fn law_modes_nested(risk: RiskLevel)
    ensures
        risk_rank(risk) >= risk_rank(RiskLevel::High) ==> risk_rank(risk) >= risk_rank(
            RiskLevel::Medium,
        ),
{
}

} // verus!
