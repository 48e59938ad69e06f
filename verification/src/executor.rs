//! The state that an executor keeps from one command to the next: the
//! shell's variables and aliases and the exit status of the last command,
//! with the helpers that correct and suggest commands. Running the commands
//! is the shell's part.
use vstd::prelude::*;
use crate::correction::Corrector;
use crate::hooks::HookManager;
use crate::suggestions::SuggestionEngine;
use crate::correction::Suggestion;
use crate::text::{append_str, owned, split_words, str_eq, views, ws_words};

verus! {

/// The value bound to `name` in a list of bindings: the first one.
pub open spec fn binding(v: Seq<(String, String)>, name: Seq<char>) -> Option<Seq<char>>
    decreases v.len(),
{
    if v.len() == 0 {
        None
    } else if v[0].0@ == name {
        Some(v[0].1@)
    } else {
        binding(v.drop_first(), name)
    }
}

proof fn lemma_binding_update(v: Seq<(String, String)>, i: int, pair: (String, String), name: Seq<char>)
    requires
        0 <= i < v.len(),
        v[i].0@ == pair.0@,
        forall|j: int| 0 <= j < i ==> v[j].0@ != pair.0@,
    ensures
        binding(v.update(i, pair), name) == if name == pair.0@ {
            Some(pair.1@)
        } else {
            binding(v, name)
        },
    decreases i,
{
    if i > 0 {
        assert forall|j: int| 0 <= j < i - 1 implies v.drop_first()[j].0@ != pair.0@ by {
            assert(v.drop_first()[j] == v[j + 1]);
        }
        lemma_binding_update(v.drop_first(), i - 1, pair, name);
        assert(v.update(i, pair).drop_first() =~= v.drop_first().update(i - 1, pair));
        assert(v.update(i, pair)[0] == v[0]);
    } else {
        assert(v.update(i, pair).drop_first() =~= v.drop_first());
    }
}

proof fn lemma_binding_push(v: Seq<(String, String)>, pair: (String, String), name: Seq<char>)
    requires
        forall|j: int| 0 <= j < v.len() ==> v[j].0@ != pair.0@,
    ensures
        binding(v.push(pair), name) == if name == pair.0@ {
            Some(pair.1@)
        } else {
            binding(v, name)
        },
    decreases v.len(),
{
    if v.len() > 0 {
        assert forall|j: int| 0 <= j < v.len() - 1 implies v.drop_first()[j].0@ != pair.0@ by {
            assert(v.drop_first()[j] == v[j + 1]);
        }
        lemma_binding_push(v.drop_first(), pair, name);
        assert(v.push(pair).drop_first() =~= v.drop_first().push(pair));
        assert(v.push(pair)[0] == v[0]);
    } else {
        assert(v.push(pair).drop_first() =~= v);
    }
}

/// The value bound to `name`.
fn lookup_binding(v: &Vec<(String, String)>, name: &str) -> (r: Option<String>)
    ensures
        r matches Some(s) ==> binding(v@, name@) == Some(s@),
        r is None ==> binding(v@, name@) is None,
{
    let mut i: usize = 0;
    assert(v@.skip(0) =~= v@);
    while i < v.len()
        invariant
            i <= v@.len(),
            binding(v@, name@) == binding(v@.skip(i as int), name@),
        decreases v@.len() - i,
    {
        assert(v@.skip(i as int)[0] == v@[i as int]);
        assert(v@.skip(i as int).drop_first() =~= v@.skip(i + 1));
        if str_eq(v[i].0.as_str(), name) {
            return Some(owned(v[i].1.as_str()));
        }
        i = i + 1;
    }
    None
}

/// Binds `name` to `value`, in place of its binding if it has one.
fn bind(v: &mut Vec<(String, String)>, name: String, value: String)
    ensures
        forall|n: Seq<char>| #[trigger] binding(final(v)@, n) == if n == name@ {
            Some(value@)
        } else {
            binding(old(v)@, n)
        },
{
    let mut i: usize = 0;
    while i < v.len()
        invariant
            i <= v@.len(),
            v@ == old(v)@,
            forall|j: int| 0 <= j < i ==> v@[j].0@ != name@,
        decreases v@.len() - i,
    {
        if str_eq(v[i].0.as_str(), name.as_str()) {
            let ghost pair = (name, value);
            proof {
                assert forall|n: Seq<char>| #[trigger] binding(v@.update(i as int, pair), n) == if n
                    == name@ {
                    Some(value@)
                } else {
                    binding(v@, n)
                } by {
                    lemma_binding_update(v@, i as int, pair, n);
                }
            }
            v.set(i, (name, value));
            assert(v@ =~= old(v)@.update(i as int, pair));
            return;
        }
        i = i + 1;
    }
    let ghost pair = (name, value);
    proof {
        assert forall|n: Seq<char>| #[trigger] binding(v@.push(pair), n) == if n == name@ {
            Some(value@)
        } else {
            binding(v@, n)
        } by {
            lemma_binding_push(v@, pair, n);
        }
    }
    v.push((name, value));
}

/// What a command name and its arguments become when `alias` is what the
/// name is an alias of: the alias's words in place of the name, the first
/// as the new name and the others before the arguments; an alias with no
/// words is an error.
pub open spec fn alias_expansion(alias: Option<Seq<char>>, name: Seq<char>, args: Seq<Seq<char>>) -> Result<
    (Seq<char>, Seq<Seq<char>>),
    Seq<char>,
> {
    match alias {
        None => Ok((name, args)),
        Some(v) => if ws_words(v).len() == 0 {
            Err("Empty alias expansion for '"@ + name + "'"@)
        } else {
            Ok((ws_words(v)[0], ws_words(v).skip(1) + args))
        },
    }
}

/// A name and its arguments, or an error, as plain values.
pub open spec fn expansion_view(r: Result<(String, Vec<String>), String>) -> Result<
    (Seq<char>, Seq<Seq<char>>),
    Seq<char>,
> {
    match r {
        Ok((n, a)) => Ok((n@, views(a@))),
        Err(e) => Err(e@),
    }
}

/// The value that the last assignment to `n` in `a` gives it.
pub open spec fn last_assigned(a: Seq<(String, String)>, n: Seq<char>) -> Option<Seq<char>>
    decreases a.len(),
{
    if a.len() == 0 {
        None
    } else if a.last().0@ == n {
        Some(a.last().1@)
    } else {
        last_assigned(a.drop_last(), n)
    }
}

/// An optional string as an optional sequence.
pub open spec fn opt_view(o: Option<String>) -> Option<Seq<char>> {
    match o {
        Some(s) => Some(s@),
        None => None,
    }
}

/// What the last entry for `n` in `saved` restores: `Some(value)` where
/// there is one (an unset value is `None`), `None` where `n` has no entry.
pub open spec fn last_saved(saved: Seq<(String, Option<String>)>, n: Seq<char>) -> Option<
    Option<Seq<char>>,
>
    decreases saved.len(),
{
    if saved.len() == 0 {
        None
    } else if saved.last().0@ == n {
        Some(opt_view(saved.last().1))
    } else {
        last_saved(saved.drop_last(), n)
    }
}

/// Two lists with the same names and values bind alike.
proof fn lemma_same_bindings(r: Seq<(String, String)>, v: Seq<(String, String)>, n: Seq<char>)
    requires
        r.len() == v.len(),
        forall|j: int| 0 <= j < r.len() ==> #[trigger] r[j].0@ == v[j].0@ && r[j].1@ == v[j].1@,
    ensures
        crate::braced::var_value(r, n) == binding(v, n),
    decreases r.len(),
{
    if r.len() > 0 {
        assert(r[0].0@ == v[0].0@ && r[0].1@ == v[0].1@);
        assert forall|j: int| 0 <= j < r.drop_first().len() implies #[trigger] r.drop_first()[j].0@
            == v.drop_first()[j].0@ && r.drop_first()[j].1@ == v.drop_first()[j].1@ by {
            assert(r[j + 1].0@ == v[j + 1].0@ && r[j + 1].1@ == v[j + 1].1@);
        }
        lemma_same_bindings(r.drop_first(), v.drop_first(), n);
    }
}

/// `binding` over a concatenation: the first part decides where it binds.
proof fn lemma_binding_append(s: Seq<(String, String)>, t: Seq<(String, String)>, n: Seq<char>)
    ensures
        binding(s + t, n) == match binding(s, n) {
            Some(x) => Some(x),
            None => binding(t, n),
        },
    decreases s.len(),
{
    if s.len() > 0 {
        assert((s + t).drop_first() =~= s.drop_first() + t);
        lemma_binding_append(s.drop_first(), t, n);
    } else {
        assert(s + t =~= t);
    }
}

proof fn lemma_binding_single(p: (String, String), n: Seq<char>)
    ensures
        binding(seq![p], n) == if p.0@ == n { Some(p.1@) } else { None::<Seq<char>> },
{
    assert(seq![p][0] == p);
    assert(seq![p].drop_first() =~= Seq::<(String, String)>::empty());
    reveal_with_fuel(binding, 2);
}

/// `v` without the bindings of `name`.
fn unbind(v: &Vec<(String, String)>, name: &str) -> (r: Vec<(String, String)>)
    ensures
        forall|n: Seq<char>| #[trigger] binding(r@, n) == if n == name@ {
            None
        } else {
            binding(v@, n)
        },
{
    let mut out: Vec<(String, String)> = Vec::new();
    let mut i: usize = 0;
    while i < v.len()
        invariant
            i <= v@.len(),
            forall|n: Seq<char>| #[trigger] binding(out@, n) == if n == name@ {
                None
            } else {
                binding(v@.take(i as int), n)
            },
        decreases v@.len() - i,
    {
        let ghost p = v@[i as int];
        let ghost o0 = out@;
        assert(v@.take(i + 1) =~= v@.take(i as int) + seq![p]);
        if !str_eq(v[i].0.as_str(), name) {
            let k = v[i].0.clone();
            let val = v[i].1.clone();
            assert(k@ == p.0@ && val@ == p.1@);
            out.push((k, val));
            assert(out@ =~= o0 + seq![out@.last()]);
            assert forall|n: Seq<char>| #[trigger] binding(out@, n) == if n == name@ {
                None
            } else {
                binding(v@.take(i + 1), n)
            } by {
                let q = out@.last();
                lemma_binding_single(q, n);
                lemma_binding_single(p, n);
                lemma_binding_append(o0, seq![q], n);
                lemma_binding_append(v@.take(i as int), seq![p], n);
            }
        } else {
            assert forall|n: Seq<char>| #[trigger] binding(out@, n) == if n == name@ {
                None
            } else {
                binding(v@.take(i + 1), n)
            } by {
                lemma_binding_single(p, n);
                lemma_binding_append(v@.take(i as int), seq![p], n);
            }
        }
        i = i + 1;
    }
    assert(v@.take(v@.len() as int) =~= v@);
    out
}

/// The field separators when `IFS` is not set: space, tab and newline.
pub open spec fn default_ifs() -> Seq<char> {
    seq![' ', '\t', '\n']
}

/// The shell's variables and aliases and the exit status of the last
/// command.
pub struct Runtime {
    variables: Vec<(String, String)>,
    aliases: Vec<(String, String)>,
    last_exit_code: i32,
}

impl Runtime {
    /// The value of the variable `name`.
    pub closed spec fn variable(&self, name: Seq<char>) -> Option<Seq<char>> {
        binding(self.variables@, name)
    }

    /// The command that the alias `name` stands for.
    pub closed spec fn alias(&self, name: Seq<char>) -> Option<Seq<char>> {
        binding(self.aliases@, name)
    }

    /// The exit status of the last command.
    pub closed spec fn exit_code(&self) -> i32 {
        self.last_exit_code
    }

    /// A runtime with no variables and no aliases, after a command that
    /// succeeded.
    pub fn new() -> (r: Self)
        ensures
            forall|n: Seq<char>| #[trigger] r.variable(n) is None,
            forall|n: Seq<char>| #[trigger] r.alias(n) is None,
            r.exit_code() == 0,
    {
        Runtime { variables: Vec::new(), aliases: Vec::new(), last_exit_code: 0 }
    }

    /// Sets the variable `name` to `value`.
    pub fn set_variable(&mut self, name: String, value: String)
        ensures
            forall|n: Seq<char>| #[trigger] final(self).variable(n) == if n == name@ {
                Some(value@)
            } else {
                old(self).variable(n)
            },
            forall|n: Seq<char>| #[trigger] final(self).alias(n) == old(self).alias(n),
            final(self).exit_code() == old(self).exit_code(),
    {
        bind(&mut self.variables, name, value);
    }

    /// The value of the variable `name`, if it is set.
    pub fn get_variable(&self, name: &str) -> (r: Option<String>)
        ensures
            r matches Some(s) ==> self.variable(name@) == Some(s@),
            r is None ==> self.variable(name@) is None,
    {
        lookup_binding(&self.variables, name)
    }

    /// Makes `name` an alias of `command`.
    pub fn set_alias(&mut self, name: String, command: String)
        ensures
            forall|n: Seq<char>| #[trigger] final(self).alias(n) == if n == name@ {
                Some(command@)
            } else {
                old(self).alias(n)
            },
            forall|n: Seq<char>| #[trigger] final(self).variable(n) == old(self).variable(n),
            final(self).exit_code() == old(self).exit_code(),
    {
        bind(&mut self.aliases, name, command);
    }

    /// The command that the alias `name` stands for, if there is one.
    pub fn get_alias(&self, name: &str) -> (r: Option<String>)
        ensures
            r matches Some(s) ==> self.alias(name@) == Some(s@),
            r is None ==> self.alias(name@) is None,
    {
        lookup_binding(&self.aliases, name)
    }

    /// The command name and arguments that a command runs as once aliases
    /// are expanded: an alias's words in place of the name, the first as
    /// the new name and the others before the given arguments. An alias
    /// with no words is an error.
    pub fn expand_alias(&self, name: &str, args: Vec<String>) -> (r: Result<(String, Vec<String>), String>)
        ensures
            expansion_view(r) == alias_expansion(self.alias(name@), name@, views(args@)),
            match self.alias(name@) {
                None => r is Ok && r->Ok_0.0@ == name@ && views(r->Ok_0.1@) == views(args@),
                Some(v) => if ws_words(v).len() == 0 {
                    r is Err && r->Err_0@ == "Empty alias expansion for '"@ + name@ + "'"@
                } else {
                    r is Ok && r->Ok_0.0@ == ws_words(v)[0] && views(r->Ok_0.1@) == ws_words(v).skip(
                        1,
                    ) + views(args@)
                },
            },
    {
        match self.get_alias(name) {
            None => Ok((owned(name), args)),
            Some(v) => {
                let words = split_words(v.as_str());
                if words.len() == 0 {
                    let mut e = owned("Empty alias expansion for '");
                    append_str(&mut e, name);
                    append_str(&mut e, "'");
                    return Err(e);
                }
                let mut rest: Vec<String> = Vec::new();
                let mut i: usize = 1;
                while i < words.len()
                    invariant
                        1 <= i <= words.len(),
                        views(rest@) == views(words@).subrange(1, i as int),
                    decreases words.len() - i,
                {
                    let ghost before = rest@;
                    rest.push(words[i].clone());
                    assert(views(rest@) =~= views(before).push(words@[i as int]@));
                    assert(views(words@).subrange(1, i + 1) =~= views(words@).subrange(1, i as int).push(words@[i as int]@));
                    i = i + 1;
                }
                let mut j: usize = 0;
                let ghost r0 = views(rest@);
                while j < args.len()
                    invariant
                        j <= args.len(),
                        views(rest@) == r0 + views(args@).take(j as int),
                    decreases args.len() - j,
                {
                    let ghost before = rest@;
                    rest.push(args[j].clone());
                    assert(views(rest@) =~= views(before).push(args@[j as int]@));
                    assert(views(args@).take(j + 1) =~= views(args@).take(j as int).push(args@[j as int]@));
                    j = j + 1;
                }
                assert(views(args@).take(args.len() as int) =~= views(args@));
                assert(views(words@).subrange(1, words.len() as int) =~= views(words@).skip(1));
                Ok((words[0].clone(), rest))
            },
        }
    }

    /// The variables, as a list in which the first binding of each name is
    /// its value.
    pub fn variables(&self) -> (r: Vec<(String, String)>)
        ensures
            forall|n: Seq<char>| #[trigger] crate::braced::var_value(r@, n) == self.variable(n),
    {
        let mut r: Vec<(String, String)> = Vec::new();
        let mut i: usize = 0;
        while i < self.variables.len()
            invariant
                i <= self.variables@.len(),
                r@.len() == i,
                forall|j: int| 0 <= j < i ==> #[trigger] r@[j].0@ == self.variables@[j].0@ && r@[j].1@
                    == self.variables@[j].1@,
            decreases self.variables@.len() - i,
        {
            let k = self.variables[i].0.clone();
            let v = self.variables[i].1.clone();
            r.push((k, v));
            i = i + 1;
        }
        proof {
            assert forall|n: Seq<char>| #[trigger] crate::braced::var_value(r@, n) == self.variable(n) by {
                lemma_same_bindings(r@, self.variables@, n);
            }
        }
        r
    }

    /// Unsets the variable `name`.
    pub fn remove_variable(&mut self, name: &str)
        ensures
            forall|n: Seq<char>| #[trigger] final(self).variable(n) == if n == name@ {
                None
            } else {
                old(self).variable(n)
            },
            forall|n: Seq<char>| #[trigger] final(self).alias(n) == old(self).alias(n),
            final(self).exit_code() == old(self).exit_code(),
    {
        self.variables = unbind(&self.variables, name);
    }

    /// What `apply_prefix_env` does: `saved` holds, for each assignment in
    /// order, its name and the value it had before (`None` when unset), and
    /// `after` has each assigned name set to its last assigned value.
    pub open spec fn prefix_applied(
        self,
        a: Seq<(String, String)>,
        saved: Seq<(String, Option<String>)>,
        after: Runtime,
    ) -> bool {
        &&& saved.len() == a.len()
        &&& forall|i: int| #![trigger saved[i]]
            0 <= i < a.len() ==> (saved[i].0@ == a[i].0@ && opt_view(saved[i].1)
                == self.variable(a[i].0@))
        &&& forall|n: Seq<char>| #[trigger]
            after.variable(n) == match last_assigned(a, n) {
                Some(v) => Some(v),
                None => self.variable(n),
            }
        &&& forall|n: Seq<char>| #[trigger] after.alias(n) == self.alias(n)
        &&& after.exit_code() == self.exit_code()
    }

    /// What `restore_prefix_env` does: each name in `saved` gets the value
    /// of its last entry back, or is unset where that value is `None`.
    pub open spec fn prefix_restored(self, saved: Seq<(String, Option<String>)>, after: Runtime) -> bool {
        &&& forall|n: Seq<char>| #[trigger]
            after.variable(n) == match last_saved(saved, n) {
                Some(o) => o,
                None => self.variable(n),
            }
        &&& forall|n: Seq<char>| #[trigger] after.alias(n) == self.alias(n)
        &&& after.exit_code() == self.exit_code()
    }

    /// Sets the variables of a command's `NAME=value` prefix, in order, and
    /// returns what each of them was, for `restore_prefix_env`.
    pub fn apply_prefix_env(&mut self, a: &[(String, String)]) -> (saved: Vec<(String, Option<String>)>)
        ensures
            old(self).prefix_applied(a@, saved@, *final(self)),
    {
        let ghost r0 = *self;
        let mut saved: Vec<(String, Option<String>)> = Vec::new();
        let mut i: usize = 0;
        while i < a.len()
            invariant
                i <= a.len(),
                *self == r0,
                saved@.len() == i,
                forall|j: int| #![trigger saved@[j]]
                    0 <= j < i ==> (saved@[j].0@ == a@[j].0@ && opt_view(saved@[j].1)
                        == r0.variable(a@[j].0@)),
            decreases a.len() - i,
        {
            let old_value = self.get_variable(a[i].0.as_str());
            saved.push((a[i].0.clone(), old_value));
            i = i + 1;
        }
        let mut k: usize = 0;
        while k < a.len()
            invariant
                k <= a.len(),
                forall|n: Seq<char>| #[trigger]
                    self.variable(n) == match last_assigned(a@.take(k as int), n) {
                        Some(v) => Some(v),
                        None => r0.variable(n),
                    },
                forall|n: Seq<char>| #[trigger] self.alias(n) == r0.alias(n),
                self.exit_code() == r0.exit_code(),
            decreases a.len() - k,
        {
            assert(a@.take(k + 1).drop_last() =~= a@.take(k as int));
            self.set_variable(a[k].0.clone(), a[k].1.clone());
            k = k + 1;
        }
        assert(a@.take(a.len() as int) =~= a@);
        saved
    }

    /// Puts back the variables that `apply_prefix_env` set: each gets its
    /// saved value, or is unset where it was unset.
    pub fn restore_prefix_env(&mut self, saved: &[(String, Option<String>)])
        ensures
            old(self).prefix_restored(saved@, *final(self)),
    {
        let ghost r1 = *self;
        let mut k: usize = 0;
        while k < saved.len()
            invariant
                k <= saved.len(),
                forall|n: Seq<char>| #[trigger]
                    self.variable(n) == match last_saved(saved@.take(k as int), n) {
                        Some(o) => o,
                        None => r1.variable(n),
                    },
                forall|n: Seq<char>| #[trigger] self.alias(n) == r1.alias(n),
                self.exit_code() == r1.exit_code(),
            decreases saved.len() - k,
        {
            assert(saved@.take(k + 1).drop_last() =~= saved@.take(k as int));
            match &saved[k].1 {
                Some(v) => self.set_variable(saved[k].0.clone(), v.clone()),
                None => self.remove_variable(saved[k].0.as_str()),
            }
            k = k + 1;
        }
        assert(saved@.take(saved.len() as int) =~= saved@);
    }

    /// Records the exit status of the last command.
    pub fn set_last_exit_code(&mut self, code: i32)
        ensures
            final(self).exit_code() == code,
            forall|n: Seq<char>| #[trigger] final(self).variable(n) == old(self).variable(n),
            forall|n: Seq<char>| #[trigger] final(self).alias(n) == old(self).alias(n),
    {
        self.last_exit_code = code;
    }

    /// The exit status of the last command (`$?`).
    pub fn get_last_exit_code(&self) -> (r: i32)
        ensures
            r == self.exit_code(),
    {
        self.last_exit_code
    }

    /// The field separators: the value of `IFS`, or space, tab and newline
    /// when it is not set.
    pub fn get_ifs(&self) -> (r: String)
        ensures
            r@ == match self.variable("IFS"@) {
                Some(v) => v,
                None => default_ifs(),
            },
    {
        match self.get_variable("IFS") {
            Some(v) => v,
            None => {
                let mut s = String::new();
                crate::text::push_char(&mut s, ' ');
                crate::text::push_char(&mut s, '\t');
                crate::text::push_char(&mut s, '\n');
                assert(s@ =~= default_ifs());
                s
            },
        }
    }

    /// Forgets every variable and alias and the last exit status, so that
    /// nothing of one request is seen by the next.
    pub fn reset(&mut self) -> (r: Result<(), String>)
        ensures
            r is Ok,
            forall|n: Seq<char>| #[trigger] final(self).variable(n) is None,
            forall|n: Seq<char>| #[trigger] final(self).alias(n) is None,
            final(self).exit_code() == 0,
    {
        self.variables = Vec::new();
        self.aliases = Vec::new();
        self.last_exit_code = 0;
        Ok(())
    }
}

/// Runs the shell's commands, keeping their state between them.
pub struct Executor {
    runtime: Runtime,
    corrector: Corrector,
    suggestion_engine: SuggestionEngine,
    hook_manager: HookManager,
    show_progress: bool,
    enable_profiling: bool,
    profiling: bool,
}

impl Executor {
    /// The executor's runtime state.
    pub closed spec fn spec_runtime(&self) -> Runtime {
        self.runtime
    }

    /// The executor's suggestion engine.
    pub closed spec fn spec_suggestion_engine(&self) -> SuggestionEngine {
        self.suggestion_engine
    }

    /// Whether progress indicators are shown while commands run.
    pub closed spec fn shows_progress(&self) -> bool {
        self.show_progress
    }

    /// Whether timings of commands are asked for, and whether they are kept.
    pub closed spec fn profiling_state(&self) -> (bool, bool) {
        (self.enable_profiling, self.profiling)
    }

    fn with_progress(show_progress: bool) -> (e: Self)
        ensures
            e.shows_progress() == show_progress,
            e.profiling_state() == (false, false),
            forall|n: Seq<char>| #[trigger] e.spec_runtime().variable(n) is None,
            forall|n: Seq<char>| #[trigger] e.spec_runtime().alias(n) is None,
            e.spec_runtime().exit_code() == 0,
            e.spec_suggestion_engine().spec_config().enabled,
            e.spec_suggestion_engine().spec_config().max_display == 3,
            e.spec_suggestion_engine().spec_config().min_score == 50,
            e.spec_suggestion_engine().spec_corrector().is_on(),
    {
        Executor {
            runtime: Runtime::new(),
            corrector: Corrector::new(),
            suggestion_engine: SuggestionEngine::new(),
            hook_manager: HookManager::new(),
            show_progress,
            enable_profiling: false,
            profiling: false,
        }
    }

    /// An executor for the command line: it shows progress indicators.
    pub fn new() -> (e: Self)
        ensures
            e.shows_progress(),
            e.profiling_state() == (false, false),
            forall|n: Seq<char>| #[trigger] e.spec_runtime().variable(n) is None,
            forall|n: Seq<char>| #[trigger] e.spec_runtime().alias(n) is None,
            e.spec_runtime().exit_code() == 0,
            e.spec_suggestion_engine().spec_config().enabled,
    {
        Self::with_progress(true)
    }

    /// An executor embedded in another program: no progress indicators.
    pub fn new_embedded() -> (e: Self)
        ensures
            !e.shows_progress(),
            e.profiling_state() == (false, false),
            forall|n: Seq<char>| #[trigger] e.spec_runtime().variable(n) is None,
            forall|n: Seq<char>| #[trigger] e.spec_runtime().alias(n) is None,
            e.spec_runtime().exit_code() == 0,
            e.spec_suggestion_engine().spec_config().enabled,
            e.spec_suggestion_engine().spec_config().max_display == 3,
            e.spec_suggestion_engine().spec_config().min_score == 50,
            e.spec_suggestion_engine().spec_corrector().is_on(),
    {
        Self::with_progress(false)
    }

    /// The executor with timing of commands asked for or not; once asked
    /// for, timings are kept.
    pub fn with_profiling(self, enable: bool) -> (e: Self)
        ensures
            e.profiling_state() == (enable, enable || self.profiling_state().1),
            e.shows_progress() == self.shows_progress(),
            e.spec_runtime() == self.spec_runtime(),
            e.spec_suggestion_engine() == self.spec_suggestion_engine(),
    {
        let mut e = self;
        e.enable_profiling = enable;
        if enable {
            e.profiling = true;
        }
        e
    }

    /// The suggestion engine.
    pub fn suggestion_engine(&self) -> (r: &SuggestionEngine)
        ensures
            *r == self.spec_suggestion_engine(),
    {
        &self.suggestion_engine
    }

    /// The suggestion engine, to change.
    pub fn suggestion_engine_mut(&mut self) -> (r: &mut SuggestionEngine)
        ensures
            *r == old(self).spec_suggestion_engine(),
            final(self).spec_suggestion_engine() == *final(r),
            final(self).spec_runtime() == old(self).spec_runtime(),
            final(self).shows_progress() == old(self).shows_progress(),
            final(self).profiling_state() == old(self).profiling_state(),
    {
        &mut self.suggestion_engine
    }

    /// The runtime state, to read or change.
    pub fn runtime_mut(&mut self) -> (r: &mut Runtime)
        ensures
            *r == old(self).spec_runtime(),
            final(self).spec_runtime() == *final(r),
            final(self).spec_suggestion_engine() == old(self).spec_suggestion_engine(),
            final(self).shows_progress() == old(self).shows_progress(),
            final(self).profiling_state() == old(self).profiling_state(),
    {
        &mut self.runtime
    }

    /// Forgets the runtime state of earlier commands: variables, aliases
    /// and the last exit status. The executor stays usable.
    pub fn reset(&mut self) -> (r: Result<(), String>)
        ensures
            r is Ok,
            forall|n: Seq<char>| #[trigger] final(self).spec_runtime().variable(n) is None,
            forall|n: Seq<char>| #[trigger] final(self).spec_runtime().alias(n) is None,
            final(self).spec_runtime().exit_code() == 0,
            final(self).spec_suggestion_engine() == old(self).spec_suggestion_engine(),
            final(self).shows_progress() == old(self).shows_progress(),
            final(self).profiling_state() == old(self).profiling_state(),
    {
        self.runtime.reset()
    }
}

/// How many recent history commands feed the suggestions for a command
/// that was not found.
pub const SUGGESTION_HISTORY: usize = 100;

/// The history commands that feed the suggestions for a missing command:
/// the most recent first, at most `SUGGESTION_HISTORY` of them.
pub open spec fn recent_first(commands: Seq<Seq<char>>) -> Seq<Seq<char>> {
    let r = commands.reverse();
    if r.len() <= SUGGESTION_HISTORY {
        r
    } else {
        r.take(SUGGESTION_HISTORY as int)
    }
}

/// The recent history commands, most recent first, that the suggestions
/// for a missing command draw on, from the history's commands in order.
pub fn recent_commands(commands: &[String]) -> (r: Vec<String>)
    ensures
        views(r@) == recent_first(views(commands@)),
{
    let mut out: Vec<String> = Vec::new();
    let n = commands.len();
    let ghost cv = views(commands@);
    while out.len() < SUGGESTION_HISTORY && out.len() < n
        invariant
            n == commands@.len(),
            cv == views(commands@),
            out@.len() <= SUGGESTION_HISTORY,
            out@.len() <= n,
            views(out@) == cv.reverse().take(out@.len() as int),
        decreases n - out@.len(),
    {
        let j = n - 1 - out.len();
        let ghost before = out@;
        out.push(commands[j].clone());
        assert(views(out@) =~= views(before).push(commands@[j as int]@));
        assert(cv.reverse().take(out@.len() as int) =~= cv.reverse().take(before.len() as int).push(
            cv[j as int],
        ));
    }
    if n <= SUGGESTION_HISTORY {
        assert(cv.reverse().take(n as int) =~= cv.reverse());
    }
    out
}

/// Exit status of a command that could not be found.
pub const NOT_FOUND_STATUS: i32 = 127;

/// The lines that name the suggestions, one `  text` line for each.
pub open spec fn did_you_mean_lines(s: Seq<Suggestion>) -> Seq<char>
    decreases s.len(),
{
    if s.len() == 0 {
        Seq::empty()
    } else {
        did_you_mean_lines(s.drop_last()) + "  "@ + s.last().text@ + "\n"@
    }
}

/// What a shell prints on stderr when `name` is no command: the message,
/// then the first three suggestions, where there are any.
pub open spec fn not_found_text(name: Seq<char>, s: Seq<Suggestion>) -> Seq<char> {
    let head = "Command not found: '"@ + name + "'"@;
    if s.len() == 0 {
        head + "\n"@
    } else {
        let shown = if s.len() <= 3 { s } else { s.take(3) };
        head + "\n\nDid you mean:\n"@ + did_you_mean_lines(shown) + "\n"@
    }
}

/// The exit status and stderr text of a command that was not found, given
/// the suggestions found for its name.
pub fn command_not_found(name: &str, suggestions: &[Suggestion]) -> (r: (i32, String))
    ensures
        r.0 == NOT_FOUND_STATUS,
        r.1@ == not_found_text(name@, suggestions@),
{
    let mut msg = owned("Command not found: '");
    append_str(&mut msg, name);
    append_str(&mut msg, "'");
    let ghost head = msg@;
    if suggestions.len() > 0 {
        append_str(&mut msg, "\n\nDid you mean:\n");
        let ghost s0 = msg@;
        let count: usize = if suggestions.len() <= 3 { suggestions.len() } else { 3 };
        let mut i: usize = 0;
        while i < count
            invariant
                count <= suggestions.len(),
                i <= count,
                msg@ == s0 + did_you_mean_lines(suggestions@.take(i as int)),
            decreases count - i,
        {
            assert(suggestions@.take(i + 1).drop_last() =~= suggestions@.take(i as int));
            append_str(&mut msg, "  ");
            append_str(&mut msg, suggestions[i].text.as_str());
            append_str(&mut msg, "\n");
            i = i + 1;
        }
        if suggestions.len() <= 3 {
            assert(suggestions@.take(count as int) =~= suggestions@);
        }
    }
    append_str(&mut msg, "\n");
    (NOT_FOUND_STATUS, msg)
}

/// The saved entries of a prefix restore, for each assigned name, the value
/// it had before the assignments.
proof fn lemma_saved_restores(
    r0: Runtime,
    a: Seq<(String, String)>,
    saved: Seq<(String, Option<String>)>,
    n: Seq<char>,
)
    requires
        saved.len() == a.len(),
        forall|i: int| #![trigger saved[i]]
            0 <= i < a.len() ==> (saved[i].0@ == a[i].0@ && opt_view(saved[i].1)
                == r0.variable(a[i].0@)),
    ensures
        last_saved(saved, n) == if last_assigned(a, n) is Some {
            Some(r0.variable(n))
        } else {
            None::<Option<Seq<char>>>
        },
    decreases a.len(),
{
    if a.len() > 0 {
        let k = a.len() - 1;
        assert(saved[k].0@ == a[k].0@);
        assert forall|i: int| #![trigger saved.drop_last()[i]]
            0 <= i < a.drop_last().len() implies (saved.drop_last()[i].0@ == a.drop_last()[i].0@
                && opt_view(saved.drop_last()[i].1) == r0.variable(a.drop_last()[i].0@)) by {
            assert(saved[i] == saved.drop_last()[i]);
        }
        lemma_saved_restores(r0, a.drop_last(), saved.drop_last(), n);
    }
}

/// A command's `NAME=value` prefix leaves no trace: after the variables are
/// set and then restored from what was saved, every variable has the value
/// it had before.
pub proof fn law_prefix_env_restored(
    before: Runtime,
    a: Seq<(String, String)>,
    saved: Seq<(String, Option<String>)>,
    during: Runtime,
    mid: Runtime,
    after: Runtime,
)
    requires
        before.prefix_applied(a, saved, during),
        forall|n: Seq<char>| #[trigger] mid.variable(n) == during.variable(n),
        mid.prefix_restored(saved, after),
    ensures
        forall|n: Seq<char>| #[trigger] after.variable(n) == before.variable(n),
{
    assert forall|n: Seq<char>| #[trigger] after.variable(n) == before.variable(n) by {
        lemma_saved_restores(before, a, saved, n);
        assert(mid.variable(n) == during.variable(n));
    }
}

} // verus!
