//! The `?` prefix: a line such as `? find all rust files` asks for a shell
//! command that carries out the stated intent.
use vstd::prelude::*;
use crate::text::{chars_of, has_prefix, is_whitespace, is_ws, lemma_trim_start_skip, trim, trim_bounds, trim_start};

verus! {

/// Result of processing an intent query.
#[derive(Debug, Clone)]
pub enum IntentResult {
    /// User accepted the suggested command.
    Accept(String),
    /// User wants to edit the command (pre-filled in the line editor).
    Edit(String),
    /// User cancelled.
    Cancel,
    /// An error occurred.
    Error(String),
}

/// The line, trimmed, is `?` alone or starts with `? `.
pub open spec fn spec_is_intent_query(line: Seq<char>) -> bool {
    has_prefix(trim(line), seq!['?', ' ']) || trim(line) == seq!['?']
}

/// The intent in a query line: the trimmed line without its leading `? `
/// and the whitespace after it; empty for `?` alone; the trimmed line
/// itself otherwise.
pub open spec fn spec_extract_intent(line: Seq<char>) -> Seq<char> {
    let t = trim(line);
    if has_prefix(t, seq!['?', ' ']) {
        trim_start(t.skip(2))
    } else if t == seq!['?'] {
        Seq::empty()
    } else {
        t
    }
}

/// Check if a line is an intent query (starts with `?`).
pub fn is_intent_query(line: &str) -> (b: bool)
    ensures
        b == spec_is_intent_query(line@),
{
    let v = chars_of(line);
    let (a, e) = trim_bounds(v.as_slice());
    let ghost t = v@.subrange(a as int, e as int);
    let n = e - a;
    if n >= 2 && v[a] == '?' && v[a + 1] == ' ' {
        assert(t.take(2) =~= seq!['?', ' ']);
        return true;
    }
    if n == 1 && v[a] == '?' {
        assert(t =~= seq!['?']);
        return true;
    }
    proof {
        if has_prefix(t, seq!['?', ' ']) {
            assert(t.take(2)[0] == v@[a as int]);
            assert(t.take(2)[1] == v@[a + 1]);
        }
        if t == seq!['?'] {
            assert(t[0] == v@[a as int]);
        }
        assert(!has_prefix(t, seq!['?', ' ']));
        assert(t != seq!['?']);
        assert(trim(line@) == t);
    }
    false
}

/// Extract the intent from a query line: removes the leading `?` and any
/// surrounding whitespace.
pub fn extract_intent<'a>(line: &'a str) -> (r: &'a str)
    ensures
        r@ == spec_extract_intent(line@),
{
    let v = chars_of(line);
    let (a, e) = trim_bounds(v.as_slice());
    let ghost t = v@.subrange(a as int, e as int);
    let n = e - a;
    if n >= 2 && v[a] == '?' && v[a + 1] == ' ' {
        assert(t.take(2) =~= seq!['?', ' ']);
        let mut b = a + 2;
        while b < e && is_whitespace(v[b])
            invariant
                a + 2 <= b <= e <= v@.len(),
                forall|q: int| a + 2 <= q < b ==> is_ws(#[trigger] v@[q]),
            decreases e - b,
        {
            b = b + 1;
        }
        let ghost u = t.skip(2);
        proof {
            assert forall|q: int| 0 <= q < b - (a + 2) implies is_ws(#[trigger] u[q]) by {
                assert(u[q] == v@[a + 2 + q]);
            }
            if b < e {
                assert(u[b - (a + 2)] == v@[b as int]);
            }
            lemma_trim_start_skip(u, b - (a + 2));
        }
        let r = line.substring_char(b, e);
        assert(r@ =~= u.skip(b - (a + 2)));
        return r;
    }
    proof {
        if has_prefix(t, seq!['?', ' ']) {
            assert(t.take(2)[0] == v@[a as int]);
            assert(t.take(2)[1] == v@[a + 1]);
        }
    }
    if n == 1 && v[a] == '?' {
        assert(t =~= seq!['?']);
        let r = line.substring_char(a, a);
        assert(r@ =~= Seq::<char>::empty());
        return r;
    }
    proof {
        if t == seq!['?'] {
            assert(t[0] == v@[a as int]);
        }
    }
    line.substring_char(a, e)
}

/// The files that mark a kind of project, in the order they are checked,
/// with the kind each marks.
pub open spec fn project_markers() -> Seq<(Seq<char>, Seq<char>)> {
    seq![
        ("Cargo.toml"@, "rust"@),
        ("package.json"@, "node"@),
        ("pyproject.toml"@, "python"@),
        ("requirements.txt"@, "python"@),
        ("setup.py"@, "python"@),
        ("go.mod"@, "go"@),
        ("Gemfile"@, "ruby"@),
        ("pom.xml"@, "java"@),
        ("build.gradle"@, "java"@),
        ("build.gradle.kts"@, "kotlin"@),
        ("CMakeLists.txt"@, "cmake"@),
        ("Makefile"@, "make"@),
        ("docker-compose.yml"@, "docker"@),
        ("docker-compose.yaml"@, "docker"@),
        ("Dockerfile"@, "docker"@),
        (".git"@, "git"@),
    ]
}

/// The kind of the first marker, in order, whose file is among `existing`.
pub open spec fn first_marker(markers: Seq<(Seq<char>, Seq<char>)>, existing: Seq<Seq<char>>) -> Option<Seq<char>>
    decreases markers.len(),
{
    if markers.len() == 0 {
        None
    } else if existing.contains(markers[0].0) {
        Some(markers[0].1)
    } else {
        first_marker(markers.drop_first(), existing)
    }
}

fn project_markers_exec() -> (v: Vec<(&'static str, &'static str)>)
    ensures
        v@.map_values(|m: (&str, &str)| (m.0@, m.1@)) == project_markers(),
{
    let v = vec![
        ("Cargo.toml", "rust"),
        ("package.json", "node"),
        ("pyproject.toml", "python"),
        ("requirements.txt", "python"),
        ("setup.py", "python"),
        ("go.mod", "go"),
        ("Gemfile", "ruby"),
        ("pom.xml", "java"),
        ("build.gradle", "java"),
        ("build.gradle.kts", "kotlin"),
        ("CMakeLists.txt", "cmake"),
        ("Makefile", "make"),
        ("docker-compose.yml", "docker"),
        ("docker-compose.yaml", "docker"),
        ("Dockerfile", "docker"),
        (".git", "git"),
    ];
    assert(v@.map_values(|m: (&str, &str)| (m.0@, m.1@)) =~= project_markers());
    v
}

/// Whether `name` is among `names`.
fn contains_name(names: &[String], name: &str) -> (b: bool)
    ensures
        b == crate::text::views(names@).contains(name@),
{
    let want = chars_of(name);
    let mut i: usize = 0;
    while i < names.len()
        invariant
            i <= names@.len(),
            want@ == name@,
            forall|j: int| 0 <= j < i ==> names@[j]@ != name@,
        decreases names@.len() - i,
    {
        let have = chars_of(names[i].as_str());
        if crate::text::chars_eq(have.as_slice(), want.as_slice()) {
            assert(crate::text::views(names@)[i as int] == name@);
            return true;
        }
        i = i + 1;
    }
    assert forall|j: int| 0 <= j < names@.len() implies crate::text::views(names@)[j] != name@ by {
        assert(crate::text::views(names@)[j] == names@[j]@);
    }
    false
}

/// The kind of project in a directory holding the files `existing`: that of
/// the first marker file found, checking Rust, Node, Python, Go, Ruby,
/// Java, Kotlin, CMake, Make and Docker projects, then Git repositories.
pub fn detect_project_type(existing: &[String]) -> (r: Option<String>)
    ensures
        (match r {
            Some(k) => Some(k@),
            None => None,
        }) == first_marker(project_markers(), crate::text::views(existing@)),
{
    let markers = project_markers_exec();
    let ghost ms = project_markers();
    let mut i: usize = 0;
    assert(ms.skip(0) =~= ms);
    while i < markers.len()
        invariant
            markers@.map_values(|m: (&str, &str)| (m.0@, m.1@)) == ms,
            ms == project_markers(),
            i <= markers@.len(),
            first_marker(ms, crate::text::views(existing@)) == first_marker(
                ms.skip(i as int),
                crate::text::views(existing@),
            ),
        decreases markers@.len() - i,
    {
        assert(ms.skip(i as int).drop_first() =~= ms.skip(i + 1));
        assert(ms.skip(i as int)[0] == (markers@[i as int].0@, markers@[i as int].1@));
        let (file, kind) = markers[i];
        assert(ms[i as int] == (file@, kind@));
        assert(ms.skip(i as int)[0] == ms[i as int]);
        if contains_name(existing, file) {
            return Some(crate::text::owned(kind));
        }
        i = i + 1;
    }
    assert(ms.skip(i as int) =~= Seq::<(Seq<char>, Seq<char>)>::empty());
    None
}

/// What the `?` query sends along about the shell.
#[derive(Debug)]
pub struct ShellContext {
    pub cwd: String,
    pub last_command: Option<String>,
    pub last_exit_code: Option<i32>,
    pub history: Vec<String>,
    pub env: Vec<(String, String)>,
}

/// The variables that are set among `vars`.
pub open spec fn set_vars(vars: Seq<(String, Option<String>)>) -> Seq<(Seq<char>, Seq<char>)>
    decreases vars.len(),
{
    if vars.len() == 0 {
        Seq::empty()
    } else {
        set_vars(vars.drop_last()) + match vars.last().1 {
            Some(v) => seq![(vars.last().0@, v@)],
            None => Seq::empty(),
        }
    }
}

/// The context of a query: the working directory (`.` when it cannot be
/// read), the last command and its exit code, the recent history, and the
/// variables among `vars` that are set.
pub fn build_shell_context(
    cwd: Option<String>,
    last_command: Option<&str>,
    last_exit_code: Option<i32>,
    history: Vec<String>,
    vars: Vec<(String, Option<String>)>,
) -> (c: ShellContext)
    ensures
        c.cwd@ == (match cwd {
            Some(d) => d@,
            None => seq!['.'],
        }),
        (match c.last_command {
            Some(l) => Some(l@),
            None => None,
        }) == (match last_command {
            Some(l) => Some(l@),
            None => None,
        }),
        c.last_exit_code == last_exit_code,
        c.history == history,
        c.env@.map_values(|e: (String, String)| (e.0@, e.1@)) == set_vars(vars@),
{
    let cwd = match cwd {
        Some(d) => d,
        None => {
            let mut s = String::new();
            crate::text::push_char(&mut s, '.');
            s
        },
    };
    let last_command = match last_command {
        Some(l) => Some(crate::text::owned(l)),
        None => None,
    };
    let mut env: Vec<(String, String)> = Vec::new();
    let mut i: usize = 0;
    while i < vars.len()
        invariant
            i <= vars@.len(),
            env@.map_values(|e: (String, String)| (e.0@, e.1@)) == set_vars(vars@.take(i as int)),
        decreases vars@.len() - i,
    {
        let ghost pre = vars@.take(i as int);
        let ghost cur = vars@.take(i + 1);
        assert(cur.drop_last() =~= pre);
        assert(cur.last() == vars@[i as int]);
        let ghost before = env@.map_values(|e: (String, String)| (e.0@, e.1@));
        match &vars[i].1 {
            Some(v) => {
                env.push((vars[i].0.clone(), v.clone()));
                assert(env@.map_values(|e: (String, String)| (e.0@, e.1@)) =~= before + seq![
                    (vars@[i as int].0@, v@),
                ]);
            },
            None => {
                assert(before + Seq::<(Seq<char>, Seq<char>)>::empty() =~= before);
            },
        }
        i = i + 1;
    }
    assert(vars@.take(vars@.len() as int) =~= vars@);
    ShellContext { cwd, last_command, last_exit_code, history, env }
}

/// A key pressed while a suggested command waits for an answer.
#[derive(Debug, Clone, Copy, PartialEq, Eq, Structural)]
pub enum KeyInput {
    Enter,
    Tab,
    Escape,
    /// A character key; `control` when Control, and no other modifier, is held.
    Char { c: char, control: bool },
    /// Any other key.
    Other,
}

/// What a key press answers to a suggested command: Enter accepts it, Tab
/// opens it for editing, Escape or Control-C cancels; any other key is no
/// answer and the shell waits for the next one.
pub fn intent_key_action(key: KeyInput) -> (r: Option<IntentResult>)
    ensures
        key == KeyInput::Enter ==> (r matches Some(IntentResult::Accept(s)) && s@.len() == 0),
        key == KeyInput::Tab ==> (r matches Some(IntentResult::Edit(s)) && s@.len() == 0),
        key == KeyInput::Escape || key == (KeyInput::Char { c: 'c', control: true }) ==> r matches Some(
            IntentResult::Cancel,
        ),
        !(key == KeyInput::Enter || key == KeyInput::Tab || key == KeyInput::Escape || key == (
        KeyInput::Char { c: 'c', control: true })) ==> r is None,
{
    match key {
        KeyInput::Enter => Some(IntentResult::Accept(String::new())),
        KeyInput::Tab => Some(IntentResult::Edit(String::new())),
        KeyInput::Escape => Some(IntentResult::Cancel),
        KeyInput::Char { c, control } => {
            if c == 'c' && control {
                Some(IntentResult::Cancel)
            } else {
                None
            }
        },
        KeyInput::Other => None,
    }
}

} // verus!
