//! Shell hook management for precmd and preexec callbacks.
//!
//! Hooks are user-defined shell functions that run at fixed points of the
//! command lifecycle: `precmd` after each command completes, before the next
//! prompt (arguments: last exit code and elapsed milliseconds), and `preexec`
//! just before a command is executed (argument: the command string).
//!
//! Functions named `rush_precmd` and `rush_preexec` are always called; further
//! names can be registered with [`HookManager::add_hook`].
use vstd::prelude::*;
use crate::text::{owned, str_eq};

verus! {

/// The type of shell hook event.
#[derive(Debug, Clone, Copy, PartialEq, Eq, Hash, Structural)]
pub enum ShellHook {
    /// Fires after each command completes, before showing the next prompt.
    Precmd,
    /// Fires just before a command is executed.
    Preexec,
}

/// The name that is always called for `hook`.
pub open spec fn well_known_name(hook: ShellHook) -> Seq<char> {
    match hook {
        ShellHook::Precmd => seq!['r', 'u', 's', 'h', '_', 'p', 'r', 'e', 'c', 'm', 'd'],
        ShellHook::Preexec => seq!['r', 'u', 's', 'h', '_', 'p', 'r', 'e', 'e', 'x', 'e', 'c'],
    }
}

/// `s` with every occurrence of `x` taken out, order kept.
pub open spec fn remove_all(s: Seq<Seq<char>>, x: Seq<char>) -> Seq<Seq<char>>
    decreases s.len(),
{
    if s.len() == 0 {
        s
    } else if s.last() == x {
        remove_all(s.drop_last(), x)
    } else {
        remove_all(s.drop_last(), x).push(s.last())
    }
}

/// No name occurs twice.
pub open spec fn distinct(s: Seq<Seq<char>>) -> bool {
    forall|i: int, j: int| 0 <= i < j < s.len() ==> s[i] != s[j]
}

/// The registered names of a hook manager, per event.
pub struct HookManagerView {
    pub precmd: Seq<Seq<char>>,
    pub preexec: Seq<Seq<char>>,
}

impl HookManagerView {
    /// The extra names registered for `hook`.
    pub open spec fn names(self, hook: ShellHook) -> Seq<Seq<char>> {
        match hook {
            ShellHook::Precmd => self.precmd,
            ShellHook::Preexec => self.preexec,
        }
    }

    /// The same view with the names for `hook` replaced by `names`.
    pub open spec fn with_names(self, hook: ShellHook, names: Seq<Seq<char>>) -> Self {
        match hook {
            ShellHook::Precmd => HookManagerView { precmd: names, preexec: self.preexec },
            ShellHook::Preexec => HookManagerView { precmd: self.precmd, preexec: names },
        }
    }

    /// Registering `name` for `hook`: appended unless already present.
    pub open spec fn add(self, hook: ShellHook, name: Seq<char>) -> Self {
        if self.names(hook).contains(name) {
            self
        } else {
            self.with_names(hook, self.names(hook).push(name))
        }
    }

    /// Unregistering `name` for `hook`.
    pub open spec fn remove(self, hook: ShellHook, name: Seq<char>) -> Self {
        self.with_names(hook, remove_all(self.names(hook), name))
    }

    /// The names called for `hook`: the well-known name first, then the
    /// registered ones other than the well-known name, in registration order.
    pub open spec fn functions(self, hook: ShellHook) -> Seq<Seq<char>> {
        seq![well_known_name(hook)] + remove_all(self.names(hook), well_known_name(hook))
    }
}

/// Manages registered shell hook functions.
///
/// Functions are looked up by name at call time, so they can be defined or
/// removed at any point in the session.
#[derive(Debug)]
pub struct HookManager {
    /// Functions registered for the precmd event (beyond the well-known name).
    precmd_hooks: Vec<String>,
    /// Functions registered for the preexec event (beyond the well-known name).
    preexec_hooks: Vec<String>,
}

/// The views of a list of names.
pub open spec fn name_views(v: Seq<String>) -> Seq<Seq<char>> {
    v.map_values(|s: String| s@)
}

impl View for HookManager {
    type V = HookManagerView;

    closed spec fn view(&self) -> HookManagerView {
        HookManagerView {
            precmd: name_views(self.precmd_hooks@),
            preexec: name_views(self.preexec_hooks@),
        }
    }
}

impl HookManager {
    /// No name is registered twice for the same event.
    #[verifier::type_invariant]
    pub closed spec fn no_duplicates(self) -> bool {
        &&& distinct(name_views(self.precmd_hooks@))
        &&& distinct(name_views(self.preexec_hooks@))
    }

    /// A manager with no extra names registered.
    pub fn new() -> (m: Self)
        ensures
            m@.precmd == Seq::<Seq<char>>::empty(),
            m@.preexec == Seq::<Seq<char>>::empty(),
    {
        let m = HookManager { precmd_hooks: Vec::new(), preexec_hooks: Vec::new() };
        assert(name_views(m.precmd_hooks@) =~= Seq::<Seq<char>>::empty());
        assert(name_views(m.preexec_hooks@) =~= Seq::<Seq<char>>::empty());
        m
    }

    /// Register a function name as a hook for the given event.
    ///
    /// Duplicate registrations are silently ignored.
    pub fn add_hook(&mut self, hook: ShellHook, function_name: String)
        ensures
            final(self)@ == old(self)@.add(hook, function_name@),
    {
        proof {
            use_type_invariant(&*self);
        }
        match hook {
            ShellHook::Precmd => {
                if !list_contains(&self.precmd_hooks, function_name.as_str()) {
                    let ghost old_list = self.precmd_hooks@;
                    let mut list: Vec<String> = Vec::new();
                    std::mem::swap(&mut list, &mut self.precmd_hooks);
                    list.push(function_name);
                    proof {
                        lemma_push_distinct(old_list, list@);
                    }
                    self.precmd_hooks = list;
                }
            },
            ShellHook::Preexec => {
                if !list_contains(&self.preexec_hooks, function_name.as_str()) {
                    let ghost old_list = self.preexec_hooks@;
                    let mut list: Vec<String> = Vec::new();
                    std::mem::swap(&mut list, &mut self.preexec_hooks);
                    list.push(function_name);
                    proof {
                        lemma_push_distinct(old_list, list@);
                    }
                    self.preexec_hooks = list;
                }
            },
        }
        assert(self@ =~= old(self)@.add(hook, function_name@));
    }

    /// Unregister a hook function.
    pub fn remove_hook(&mut self, hook: &ShellHook, function_name: &str)
        ensures
            final(self)@ == old(self)@.remove(*hook, function_name@),
    {
        proof {
            use_type_invariant(&*self);
        }
        match hook {
            ShellHook::Precmd => {
                let mut list: Vec<String> = Vec::new();
                    std::mem::swap(&mut list, &mut self.precmd_hooks);
                let kept = retain_other(list, function_name);
                self.precmd_hooks = kept;
            },
            ShellHook::Preexec => {
                let mut list: Vec<String> = Vec::new();
                    std::mem::swap(&mut list, &mut self.preexec_hooks);
                let kept = retain_other(list, function_name);
                self.preexec_hooks = kept;
            },
        }
        assert(self@ =~= old(self)@.remove(*hook, function_name@));
    }

    /// Returns all function names that should be called for the precmd event.
    ///
    /// The well-known name `rush_precmd` is always included first.
    pub fn precmd_functions(&self) -> (fns: Vec<String>)
        ensures
            name_views(fns@) == self@.functions(ShellHook::Precmd),
            distinct(name_views(fns@)),
    {
        proof {
            use_type_invariant(self);
            law_functions_distinct(self@, ShellHook::Precmd);
        }
        let wk = owned("rush_precmd");
        proof {
            reveal_strlit("rush_precmd");
        }
        assert(wk@ =~= well_known_name(ShellHook::Precmd));
        functions_with(wk, &self.precmd_hooks)
    }

    /// Returns all function names that should be called for the preexec event.
    ///
    /// The well-known name `rush_preexec` is always included first.
    pub fn preexec_functions(&self) -> (fns: Vec<String>)
        ensures
            name_views(fns@) == self@.functions(ShellHook::Preexec),
            distinct(name_views(fns@)),
    {
        proof {
            use_type_invariant(self);
            law_functions_distinct(self@, ShellHook::Preexec);
        }
        let wk = owned("rush_preexec");
        proof {
            reveal_strlit("rush_preexec");
        }
        assert(wk@ =~= well_known_name(ShellHook::Preexec));
        functions_with(wk, &self.preexec_hooks)
    }
}

impl Clone for HookManager {
    fn clone(&self) -> (m: Self)
        ensures
            m@ == self@,
    {
        proof {
            use_type_invariant(self);
        }
        let pre = self.precmd_hooks.clone();
        let post = self.preexec_hooks.clone();
        assert(pre@ =~= self.precmd_hooks@);
        assert(post@ =~= self.preexec_hooks@);
        HookManager { precmd_hooks: pre, preexec_hooks: post }
    }
}

impl Default for HookManager {
    fn default() -> (m: Self)
        ensures
            m@.precmd == Seq::<Seq<char>>::empty(),
            m@.preexec == Seq::<Seq<char>>::empty(),
    {
        HookManager::new()
    }
}

/// Whether a name occurs in a list of names.
fn list_contains(list: &Vec<String>, name: &str) -> (b: bool)
    ensures
        b == name_views(list@).contains(name@),
{
    let mut i: usize = 0;
    while i < list.len()
        invariant
            i <= list.len(),
            forall|j: int| 0 <= j < i ==> list@[j]@ != name@,
        decreases list.len() - i,
    {
        if str_eq(list[i].as_str(), name) {
            assert(name_views(list@)[i as int] == name@);
            return true;
        }
        i = i + 1;
    }
    assert forall|j: int| 0 <= j < name_views(list@).len() implies name_views(list@)[j]
        != name@ by {}
    false
}

proof fn lemma_push_distinct(old_list: Seq<String>, new_list: Seq<String>)
    requires
        distinct(name_views(old_list)),
        new_list.len() == old_list.len() + 1,
        forall|i: int| 0 <= i < old_list.len() ==> new_list[i] == old_list[i],
        !name_views(old_list).contains(new_list.last()@),
    ensures
        distinct(name_views(new_list)),
        name_views(new_list) == name_views(old_list).push(new_list.last()@),
{
    assert(name_views(new_list) =~= name_views(old_list).push(new_list.last()@));
    assert forall|i: int, j: int| 0 <= i < j < name_views(new_list).len() implies name_views(
        new_list,
    )[i] != name_views(new_list)[j] by {
        if j == old_list.len() {
            assert(name_views(old_list)[i] == name_views(new_list)[i]);
        }
    }
}

proof fn lemma_remove_all_distinct(s: Seq<Seq<char>>, x: Seq<char>)
    requires
        distinct(s),
    ensures
        distinct(remove_all(s, x)),
        forall|y: Seq<char>| #[trigger] remove_all(s, x).contains(y) <==> (s.contains(y) && y != x),
    decreases s.len(),
{
    if s.len() > 0 {
        let t = s.drop_last();
        assert(distinct(t));
        lemma_remove_all_distinct(t, x);
        let r = remove_all(t, x);
        assert forall|y: Seq<char>| s.contains(y) <==> (t.contains(y) || y == s.last()) by {
            if s.contains(y) {
                let k = choose|k: int| 0 <= k < s.len() && s[k] == y;
                if k < t.len() {
                    assert(t[k] == y);
                }
            }
            if t.contains(y) {
                let k = choose|k: int| 0 <= k < t.len() && t[k] == y;
                assert(s[k] == y);
            }
            assert(s[s.len() - 1] == s.last());
        }
        if s.last() != x {
            assert(!t.contains(s.last())) by {
                if t.contains(s.last()) {
                    let k = choose|k: int| 0 <= k < t.len() && t[k] == s.last();
                    assert(s[k] == s[s.len() - 1]);
                }
            }
            let r2 = r.push(s.last());
            assert forall|y: Seq<char>| r2.contains(y) <==> (r.contains(y) || y == s.last()) by {
                if r2.contains(y) {
                    let k = choose|k: int| 0 <= k < r2.len() && r2[k] == y;
                    if k < r.len() {
                        assert(r[k] == y);
                    }
                }
                if r.contains(y) {
                    let k = choose|k: int| 0 <= k < r.len() && r[k] == y;
                    assert(r2[k] == y);
                }
                assert(r2[r.len() as int] == s.last());
            }
            assert forall|i: int, j: int| 0 <= i < j < r2.len() implies r2[i] != r2[j] by {
                if j == r.len() {
                    assert(r.contains(r2[i]));
                }
            }
        }
    }
}

/// The names of `list` other than `name`, in order.
fn retain_other(list: Vec<String>, name: &str) -> (kept: Vec<String>)
    requires
        distinct(name_views(list@)),
    ensures
        name_views(kept@) == remove_all(name_views(list@), name@),
        distinct(name_views(kept@)),
{
    let mut kept: Vec<String> = Vec::new();
    let mut i: usize = 0;
    while i < list.len()
        invariant
            i <= list.len(),
            name_views(kept@) == remove_all(name_views(list@.take(i as int)), name@),
        decreases list.len() - i,
    {
        assert(name_views(list@.take(i + 1)).drop_last() =~= name_views(list@.take(i as int)));
        assert(name_views(list@.take(i + 1)).last() == list@[i as int]@);
        if !str_eq(list[i].as_str(), name) {
            let ghost before = kept@;
            kept.push(list[i].clone());
            assert(name_views(kept@) =~= name_views(before).push(list@[i as int]@));
        }
        i = i + 1;
    }
    assert(list@.take(list.len() as int) =~= list@);
    proof {
        lemma_remove_all_distinct(name_views(list@), name@);
    }
    kept
}

/// The well-known name followed by the registered names other than it.
fn functions_with(well_known: String, list: &Vec<String>) -> (fns: Vec<String>)
    ensures
        name_views(fns@) == seq![well_known@] + remove_all(name_views(list@), well_known@),
{
    let mut fns: Vec<String> = Vec::new();
    let ghost wk = well_known@;
    fns.push(well_known);
    let mut i: usize = 0;
    while i < list.len()
        invariant
            i <= list.len(),
            fns@.len() >= 1,
            fns@[0]@ == wk,
            name_views(fns@) == seq![wk] + remove_all(name_views(list@.take(i as int)), wk),
        decreases list.len() - i,
    {
        assert(name_views(list@.take(i + 1)).drop_last() =~= name_views(list@.take(i as int)));
        assert(name_views(list@.take(i + 1)).last() == list@[i as int]@);
        if !str_eq(list[i].as_str(), fns[0].as_str()) {
            let ghost before = fns@;
            fns.push(list[i].clone());
            assert(name_views(fns@) =~= name_views(before).push(list@[i as int]@));
        }
        i = i + 1;
    }
    assert(list@.take(list.len() as int) =~= list@);
    fns
}

// ---------------------------------------------------------------------------
// Laws
// ---------------------------------------------------------------------------

/// After registering a name for an event, that name is among the functions
/// called for the event; the other event's functions are unchanged.
pub proof fn law_added_name_is_called(m: HookManagerView, hook: ShellHook, other: ShellHook, name: Seq<char>)
    requires
        other != hook,
    ensures
        m.add(hook, name).functions(hook).contains(name),
        m.add(hook, name).functions(other) == m.functions(other),
{
    let wk = well_known_name(hook);
    let a = m.add(hook, name);
    lemma_remove_all_contains(a.names(hook), wk);
    if name != wk {
        assert(a.names(hook).contains(name)) by {
            if !m.names(hook).contains(name) {
                assert(a.names(hook)[m.names(hook).len() as int] == name);
            }
        }
        assert(remove_all(a.names(hook), wk).contains(name));
        let r = remove_all(a.names(hook), wk);
        let k = choose|k: int| 0 <= k < r.len() && r[k] == name;
        assert(a.functions(hook)[k + 1] == name);
    } else {
        assert(a.functions(hook)[0] == name);
    }
}

/// Registering the same name twice has the effect of registering it once.
pub proof fn law_add_idempotent(m: HookManagerView, hook: ShellHook, name: Seq<char>)
    ensures
        m.add(hook, name).add(hook, name) == m.add(hook, name),
{
    let a = m.add(hook, name);
    if !m.names(hook).contains(name) {
        assert(a.names(hook)[m.names(hook).len() as int] == name);
    }
}

/// After unregistering a name other than the well-known one, it is no
/// longer called; the well-known name is always called, first.
pub proof fn law_removed_name_not_called(m: HookManagerView, hook: ShellHook, name: Seq<char>)
    ensures
        name != well_known_name(hook) ==> !m.remove(hook, name).functions(hook).contains(name),
        m.functions(hook)[0] == well_known_name(hook),
        m.remove(hook, name).functions(hook)[0] == well_known_name(hook),
{
    let wk = well_known_name(hook);
    let r = m.remove(hook, name);
    lemma_remove_all_contains(m.names(hook), name);
    lemma_remove_all_contains(r.names(hook), wk);
    if name != wk && r.functions(hook).contains(name) {
        let k = choose|k: int| 0 <= k < r.functions(hook).len() && r.functions(hook)[k] == name;
        assert(k > 0);
        assert(remove_all(r.names(hook), wk)[k - 1] == name);
        assert(remove_all(r.names(hook), wk).contains(name));
        assert(r.names(hook) == remove_all(m.names(hook), name));
        assert(remove_all(r.names(hook), wk).contains(name) ==> r.names(hook).contains(name));
        assert(r.names(hook).contains(name));
        assert(remove_all(m.names(hook), name).contains(name) ==> name != name);
        assert(false);
    }
}

/// The functions called for an event never repeat a name.
pub proof fn law_functions_distinct(m: HookManagerView, hook: ShellHook)
    requires
        distinct(m.names(hook)),
    ensures
        distinct(m.functions(hook)),
{
    let wk = well_known_name(hook);
    lemma_remove_all_distinct(m.names(hook), wk);
    let r = remove_all(m.names(hook), wk);
    let f = m.functions(hook);
    lemma_remove_all_contains(m.names(hook), wk);
    assert forall|i: int, j: int| 0 <= i < j < f.len() implies f[i] != f[j] by {
        assert(f[j] == r[j - 1]);
        assert(r.contains(r[j - 1]));
        if i > 0 {
            assert(f[i] == r[i - 1]);
            assert(r[i - 1] != r[j - 1]);
        } else {
            assert(f[i] == wk);
            assert(r.contains(r[j - 1]) ==> r[j - 1] != wk);
        }
    }
}

/// Membership in `remove_all(s, x)`.
proof fn lemma_remove_all_contains(s: Seq<Seq<char>>, x: Seq<char>)
    ensures
        forall|y: Seq<char>| #[trigger] remove_all(s, x).contains(y) <==> (s.contains(y) && y != x),
    decreases s.len(),
{
    if s.len() > 0 {
        let t = s.drop_last();
        lemma_remove_all_contains(t, x);
        let r = remove_all(t, x);
        assert forall|y: Seq<char>| s.contains(y) <==> (t.contains(y) || y == s.last()) by {
            if s.contains(y) {
                let k = choose|k: int| 0 <= k < s.len() && s[k] == y;
                if k < t.len() {
                    assert(t[k] == y);
                }
            }
            if t.contains(y) {
                let k = choose|k: int| 0 <= k < t.len() && t[k] == y;
                assert(s[k] == y);
            }
            assert(s[s.len() - 1] == s.last());
        }
        if s.last() != x {
            let r2 = r.push(s.last());
            assert forall|y: Seq<char>| r2.contains(y) <==> (r.contains(y) || y == s.last()) by {
                if r2.contains(y) {
                    let k = choose|k: int| 0 <= k < r2.len() && r2[k] == y;
                    if k < r.len() {
                        assert(r[k] == y);
                    }
                }
                if r.contains(y) {
                    let k = choose|k: int| 0 <= k < r.len() && r[k] == y;
                    assert(r2[k] == y);
                }
                assert(r2[r.len() as int] == s.last());
            }
        }
        assert forall|y: Seq<char>| remove_all(s, x).contains(y) <==> (s.contains(y) && y != x) by {
            assert(t.contains(y) ==> s.contains(y));
        }
    }
}

} // verus!
