//! The lexical-scope environment: an arena of scopes, each mapping names to
//! values and pointing at its enclosing scope.
//!
//! The arena never removes a scope: leaving a block only moves the current
//! pointer back to the enclosing scope. A closure can therefore keep the
//! index of its defining scope and chain onto it long after the block that
//! created the scope has been left.

use vstd::prelude::*;

use crate::text::str_eq;
use crate::values::{obj_wf, Object, ObjectV};

verus! {

/// One scope: its enclosing scope (none only for the global scope) and its
/// bindings. A later entry for the same name shadows an earlier one.
#[derive(Debug)]
pub struct Scope {
    pub parent: Option<usize>,
    pub entries: Vec<(String, Object)>,
}

/// The chain of lexical scopes. `scopes[0]` is the permanent global scope;
/// `current` is the innermost scope of the active chain.
#[derive(Debug)]
pub struct Enviornment {
    pub scopes: Vec<Scope>,
    pub current: usize,
}

/// The mathematical view of one scope: the enclosing scope and the map of
/// bindings, where a later entry for a name shadows an earlier one.
pub struct ScopeV {
    pub parent: Option<int>,
    pub vars: Map<Seq<char>, ObjectV>,
}

/// The mathematical view of the environment.
pub struct EnvV {
    pub scopes: Seq<ScopeV>,
    pub current: int,
}

/// The map of bindings an entry list denotes: the last entry for a name
/// wins.
pub open spec fn entries_map(s: Seq<(String, Object)>) -> Map<Seq<char>, ObjectV>
    decreases s.len(),
{
    if s.len() == 0 {
        Map::empty()
    } else {
        entries_map(s.drop_last()).insert(s.last().0@, s.last().1@)
    }
}

impl View for Scope {
    type V = ScopeV;

    open spec fn view(&self) -> ScopeV {
        ScopeV {
            parent: match self.parent {
                Some(p) => Some(p as int),
                None => None,
            },
            vars: entries_map(self.entries@),
        }
    }
}

/// The sequence of scope views of a scope vector.
pub open spec fn view_scopes(s: Seq<Scope>) -> Seq<ScopeV> {
    s.map_values(|sc: Scope| sc@)
}

impl View for Enviornment {
    type V = EnvV;

    open spec fn view(&self) -> EnvV {
        EnvV { scopes: view_scopes(self.scopes@), current: self.current as int }
    }
}

/// The environment a run starts from: one empty global scope.
pub open spec fn env_initial() -> EnvV {
    EnvV { scopes: seq![ScopeV { parent: None, vars: Map::empty() }], current: 0 }
}

/// Structural well-formedness: the global scope exists and has no parent,
/// every other scope's parent lies strictly before it (so every chain ends
/// at the global scope), and the current scope exists.
pub open spec fn env_wf(env: EnvV) -> bool {
    &&& env.scopes.len() >= 1
    &&& env.scopes[0].parent is None
    &&& forall|i: int|
        1 <= i < env.scopes.len() ==> ((#[trigger] env.scopes[i].parent) matches Some(p) && 0 <= p
            < i)
    &&& 0 <= env.current < env.scopes.len()
}

/// Every value stored anywhere in the environment is well-formed.
pub open spec fn env_vals_wf(env: EnvV) -> bool {
    forall|i: int, n: Seq<char>|
        0 <= i < env.scopes.len() && #[trigger] env.scopes[i].vars.dom().contains(n) ==> obj_wf(
            env.scopes[i].vars[n],
            env.scopes.len() as int,
        )
}

/// The environment after appending a fresh empty scope under `parent` and
/// entering it.
pub open spec fn env_push(env: EnvV, parent: int) -> EnvV {
    EnvV {
        scopes: env.scopes.push(ScopeV { parent: Some(parent), vars: Map::empty() }),
        current: env.scopes.len() as int,
    }
}

/// The environment after leaving the current scope for `idx`.
pub open spec fn env_restore(env: EnvV, idx: int) -> EnvV {
    EnvV { scopes: env.scopes, current: idx }
}

/// The environment after binding `name` to `val` in the scope at `j`.
pub open spec fn env_set_at(env: EnvV, j: int, name: Seq<char>, val: ObjectV) -> EnvV {
    EnvV {
        scopes: env.scopes.update(
            j,
            ScopeV { parent: env.scopes[j].parent, vars: env.scopes[j].vars.insert(name, val) },
        ),
        current: env.current,
    }
}

/// The environment after `define`: the binding lands in the current scope.
pub open spec fn env_define(env: EnvV, name: Seq<char>, val: ObjectV) -> EnvV {
    env_set_at(env, env.current, name, val)
}

/// The scope, along the chain from `idx` outwards, that binds `name`.
pub open spec fn env_resolve(env: EnvV, idx: int, name: Seq<char>) -> Option<int>
    decreases idx
        when 0 <= idx < env.scopes.len() && env_wf(env)
{
    if env.scopes[idx].vars.dom().contains(name) {
        Some(idx)
    } else {
        match env.scopes[idx].parent {
            Some(p) => env_resolve(env, p, name),
            None => None,
        }
    }
}

/// The value bound to `name` along the chain from `env.current`.
pub open spec fn env_get(env: EnvV, name: Seq<char>) -> Option<ObjectV> {
    match env_resolve(env, env.current, name) {
        Some(j) => Some(env.scopes[j].vars[name]),
        None => None,
    }
}

/// A resolved scope index is a real scope binding the name.
pub proof fn lemma_env_resolve_valid(env: EnvV, idx: int, name: Seq<char>)
    requires
        env_wf(env),
        0 <= idx < env.scopes.len(),
    ensures
        match env_resolve(env, idx, name) {
            Some(j) => 0 <= j <= idx && env.scopes[j].vars.dom().contains(name),
            None => true,
        },
    decreases idx,
{
    if !env.scopes[idx].vars.dom().contains(name) {
        if let Some(p) = env.scopes[idx].parent {
            lemma_env_resolve_valid(env, p, name);
        }
    }
}

/// The message reporting an unbound name.
pub open spec fn undefined_variable_message(name: Seq<char>) -> Seq<char> {
    "Undefined variable '"@ + name + "'."@
}

/// Builds the message reporting an unbound name.
pub fn undefined_variable(name: &str) -> (s: String)
    ensures
        s@ == undefined_variable_message(name@),
{
    let mut s = String::from_str("Undefined variable '");
    s.append(name);
    s.append("'.");
    s
}

/// The value bound to `name` in the entries `entries@.subrange(0, j)`,
/// searching the latest binding first.
fn entries_get_prefix(entries: &Vec<(String, Object)>, j: usize, name: &str) -> (r: Option<Object>)
    requires
        j <= entries@.len(),
    ensures
        ({
            let m = entries_map(entries@.subrange(0, j as int));
            match r {
                Some(o) => m.dom().contains(name@) && o@ == m[name@],
                None => !m.dom().contains(name@),
            }
        }),
    decreases j,
{
    if j == 0 {
        proof {
            assert(entries@.subrange(0, 0) =~= Seq::<(String, Object)>::empty());
        }
        None
    } else {
        let ghost pre = entries@.subrange(0, j as int);
        proof {
            assert(pre.drop_last() =~= entries@.subrange(0, j as int - 1));
            assert(pre.last() == entries@[j as int - 1]);
        }
        let k = &entries[j - 1].0;
        if str_eq(k.as_str(), name) {
            Some(entries[j - 1].1.clone())
        } else {
            entries_get_prefix(entries, j - 1, name)
        }
    }
}

/// The value bound to `name` by the entries, if any.
fn entries_get(entries: &Vec<(String, Object)>, name: &str) -> (r: Option<Object>)
    ensures
        ({
            let m = entries_map(entries@);
            match r {
                Some(o) => m.dom().contains(name@) && o@ == m[name@],
                None => !m.dom().contains(name@),
            }
        }),
{
    let n = entries.len();
    proof {
        assert(entries@.subrange(0, entries@.len() as int) =~= entries@);
    }
    entries_get_prefix(entries, n, name)
}

impl Default for Enviornment {
    /// An environment holding only the empty global scope.
    fn default() -> (r: Enviornment)
        ensures
            r@ == env_initial(),
            env_wf(r@),
            env_vals_wf(r@),
    {
        let mut scopes: Vec<Scope> = Vec::new();
        scopes.push(Scope { parent: None, entries: Vec::new() });
        let r = Enviornment { scopes, current: 0 };
        proof {
            assert(r@.scopes =~= env_initial().scopes);
        }
        r
    }
}

impl Enviornment {
    /// An environment holding only the empty global scope.
    pub fn new() -> (r: Self)
        ensures
            r@ == env_initial(),
            env_wf(r@),
            env_vals_wf(r@),
    {
        Enviornment::default()
    }

    /// The index of the current scope.
    pub fn current_index(&self) -> (r: usize)
        ensures
            r as int == self@.current,
    {
        self.current
    }

    /// The number of scopes in the arena.
    pub fn scope_count(&self) -> (r: usize)
        ensures
            r as int == self@.scopes.len(),
    {
        self.scopes.len()
    }

    /// Appends a fresh empty scope under the scope at `parent` and enters
    /// it. Entering a block passes the current scope; calling a function
    /// passes the function's captured scope.
    pub fn push_scope_with_parent(&mut self, parent: usize)
        requires
            env_wf(old(self)@),
            parent < old(self)@.scopes.len(),
        ensures
            final(self)@ == env_push(old(self)@, parent as int),
            env_wf(final(self)@),
    {
        self.current = self.scopes.len();
        self.scopes.push(Scope { parent: Some(parent), entries: Vec::new() });
        proof {
            assert(self@.scopes =~= env_push(old(self)@, parent as int).scopes);
            assert(forall|i: int|
                1 <= i < self@.scopes.len() ==> ((#[trigger] self@.scopes[i].parent) matches Some(
                    p,
                ) && 0 <= p < i));
        }
    }

    /// Appends a fresh empty scope inside the current one and enters it.
    pub fn push_scope(&mut self)
        requires
            env_wf(old(self)@),
        ensures
            final(self)@ == env_push(old(self)@, old(self)@.current),
            env_wf(final(self)@),
    {
        let parent = self.current;
        self.push_scope_with_parent(parent);
    }

    /// Leaves the current scope for its parent. The global scope cannot be
    /// left: a caller must not pop past it.
    pub fn pop_scope(&mut self)
        requires
            env_wf(old(self)@),
            old(self)@.scopes[old(self)@.current].parent is Some,
        ensures
            final(self)@ == env_restore(old(self)@, old(self)@.scopes[old(self)@.current].parent->0),
            env_wf(final(self)@),
    {
        let cur = self.current;
        let p = match self.scopes[cur].parent {
            Some(p) => p,
            None => {
                proof {
                    assert(false);
                }
                0
            },
        };
        self.current = p;
    }

    /// Re-enters the scope at `idx`: how a caller's chain is restored after
    /// a call, and how a block is left.
    pub fn restore_scope(&mut self, idx: usize)
        requires
            env_wf(old(self)@),
            idx < old(self)@.scopes.len(),
        ensures
            final(self)@ == env_restore(old(self)@, idx as int),
            env_wf(final(self)@),
    {
        self.current = idx;
    }

    /// Binds `name` to `value` in the current scope, shadowing any earlier
    /// binding of the name there.
    pub fn define(&mut self, name: String, value: Object)
        requires
            env_wf(old(self)@),
        ensures
            final(self)@ == env_define(old(self)@, name@, value@),
            env_wf(final(self)@),
    {
        let cur = self.current;
        let ghost oldscopes = self.scopes@;
        self.scopes[cur].entries.push((name, value));
        proof {
            let news = self.scopes@[cur as int];
            assert(news.entries@.drop_last() =~= oldscopes[cur as int].entries@);
            assert(self@.scopes =~= env_define(old(self)@, name@, value@).scopes);
        }
    }

    /// The scope along the chain from `idx` that binds `name`, if any.
    fn resolve_from(&self, idx: usize, name: &str) -> (r: Option<usize>)
        requires
            env_wf(self@),
            idx < self@.scopes.len(),
        ensures
            match r {
                Some(j) => env_resolve(self@, idx as int, name@) == Some(j as int) && j
                    < self@.scopes.len() && self@.scopes[j as int].vars.dom().contains(name@),
                None => env_resolve(self@, idx as int, name@) is None,
            },
        decreases idx,
    {
        proof {
            lemma_env_resolve_valid(self@, idx as int, name@);
        }
        match entries_get(&self.scopes[idx].entries, name) {
            Some(_) => Some(idx),
            None => {
                match self.scopes[idx].parent {
                    Some(p) => self.resolve_from(p, name),
                    None => None,
                }
            },
        }
    }

    /// The value bound to `name`, searching the current chain of scopes
    /// innermost to outermost; an unbound name is reported as an error.
    /// The value is returned by clone: the environment cannot be corrupted
    /// through it.
    pub fn get(&self, name: &str) -> (r: Result<Object, String>)
        requires
            env_wf(self@),
        ensures
            match r {
                Ok(o) => env_get(self@, name@) == Some(o@),
                Err(m) => env_get(self@, name@) is None && m@ == undefined_variable_message(
                    name@,
                ),
            },
    {
        let cur = self.current;
        match self.resolve_from(cur, name) {
            Some(j) => {
                match entries_get(&self.scopes[j].entries, name) {
                    Some(o) => Ok(o),
                    None => {
                        proof {
                            assert(false);
                        }
                        Err(undefined_variable(name))
                    },
                }
            },
            None => Err(undefined_variable(name)),
        }
    }

    /// Rebinds `name` in the nearest scope of the current chain that
    /// already binds it; never creates a binding. Assigning an unbound
    /// name is reported as an error and changes nothing.
    pub fn assign(&mut self, name: String, value: Object) -> (r: Result<(), String>)
        requires
            env_wf(old(self)@),
        ensures
            match r {
                Ok(()) => ({
                    &&& env_resolve(old(self)@, old(self)@.current, name@) matches Some(j)
                    &&& final(self)@ == env_set_at(old(self)@, j, name@, value@)
                }),
                Err(m) => ({
                    &&& env_resolve(old(self)@, old(self)@.current, name@) is None
                    &&& final(self)@ == old(self)@
                    &&& m@ == undefined_variable_message(name@)
                }),
            },
            env_wf(final(self)@),
    {
        let cur = self.current;
        match self.resolve_from(cur, name.as_str()) {
            Some(j) => {
                let ghost oldscopes = self.scopes@;
                let ghost namev = name@;
                self.scopes[j].entries.push((name, value));
                proof {
                    let news = self.scopes@[j as int];
                    assert(news.entries@.drop_last() =~= oldscopes[j as int].entries@);
                    assert(self@.scopes =~= env_set_at(
                        old(self)@,
                        j as int,
                        namev,
                        value@,
                    ).scopes);
                }
                Ok(())
            },
            None => Err(undefined_variable(name.as_str())),
        }
    }
}

/// Well-formedness of values is kept when a well-formed value is bound in
/// an existing scope.
pub proof fn lemma_vals_wf_set_at(env: EnvV, j: int, name: Seq<char>, val: ObjectV)
    requires
        env_vals_wf(env),
        0 <= j < env.scopes.len(),
        obj_wf(val, env.scopes.len() as int),
    ensures
        env_vals_wf(env_set_at(env, j, name, val)),
{
    let env2 = env_set_at(env, j, name, val);
    assert forall|i: int, n: Seq<char>|
        0 <= i < env2.scopes.len() && #[trigger] env2.scopes[i].vars.dom().contains(n) implies
        obj_wf(env2.scopes[i].vars[n], env2.scopes.len() as int) by {
        if i == j && n == name {
        } else {
            assert(env.scopes[i].vars.dom().contains(n));
        }
    }
}

/// A value well-formed for a smaller arena is well-formed for a larger one.
pub proof fn lemma_obj_wf_mono(o: ObjectV, n: int, m: int)
    requires
        obj_wf(o, n),
        n <= m,
    ensures
        obj_wf(o, m),
{
}

/// Well-formedness of values is kept when an empty scope is appended.
pub proof fn lemma_vals_wf_push(env: EnvV, parent: int)
    requires
        env_vals_wf(env),
    ensures
        env_vals_wf(env_push(env, parent)),
{
    let env2 = env_push(env, parent);
    assert forall|i: int, n: Seq<char>|
        0 <= i < env2.scopes.len() && #[trigger] env2.scopes[i].vars.dom().contains(n) implies
        obj_wf(env2.scopes[i].vars[n], env2.scopes.len() as int) by {
        if i < env.scopes.len() {
            assert(env.scopes[i].vars.dom().contains(n));
            lemma_obj_wf_mono(env.scopes[i].vars[n], env.scopes.len() as int, env2.scopes.len() as int);
        } else {
            assert(env2.scopes[i].vars.dom() =~= Set::<Seq<char>>::empty());
        }
    }
}

} // verus!
