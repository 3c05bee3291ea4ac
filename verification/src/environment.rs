use crate::value::Value;
use vstd::prelude::*;
use vstd::string::StringExecFns;

verus! {

/// A handle to one scope of the arena. Handles are cheap to copy, and every
/// copy sees what is defined through any other. Under `==` a handle equals
/// no handle, itself included: a scope changes, so it has no stable
/// identity to compare by.
#[derive(Copy, Clone, Debug)]
pub struct Environment {
    pub id: usize,
}

impl PartialEq for Environment {
    fn eq(&self, other: &Self) -> (r: bool) {
        false
    }
}

impl vstd::std_specs::cmp::PartialEqSpecImpl for Environment {
    open spec fn obeys_eq_spec() -> bool {
        true
    }

    open spec fn eq_spec(&self, other: &Self) -> bool {
        false
    }
}

/// One name bound to a value.
pub struct Binding {
    pub name: String,
    pub value: Value,
}

/// One scope: its bindings, the most recent last, and its parent scope.
pub struct _Environment {
    pub bindings: Vec<Binding>,
    pub parent: Option<Environment>,
}

/// The scopes of a program. A scope never moves, and a parent is always older
/// than its children.
pub struct Environments {
    pub frames: Vec<_Environment>,
}

/// A scope as plain data.
pub struct Scope {
    pub bindings: Seq<(Seq<char>, Value)>,
    pub parent: Option<int>,
}

/// The value most recently bound to `name` among `bindings`.
pub open spec fn find_in(bindings: Seq<(Seq<char>, Value)>, name: Seq<char>) -> Option<Value>
    decreases bindings.len(),
{
    if bindings.len() == 0 {
        None
    } else if bindings.last().0 == name {
        Some(bindings.last().1)
    } else {
        find_in(bindings.drop_last(), name)
    }
}

/// The binding of `name` nearest to the scope `id`: its own, else that of the
/// nearest ancestor that has one.
pub open spec fn lookup_in(scopes: Seq<Scope>, id: int, name: Seq<char>) -> Option<Value>
    decreases id,
{
    if id < 0 || id >= scopes.len() {
        None
    } else if find_in(scopes[id].bindings, name) is Some {
        find_in(scopes[id].bindings, name)
    } else {
        match scopes[id].parent {
            Some(p) => if 0 <= p < id {
                lookup_in(scopes, p, name)
            } else {
                None
            },
            None => None,
        }
    }
}

/// The scopes after `name` is bound to `value` in scope `id`.
pub open spec fn define_in(scopes: Seq<Scope>, id: int, name: Seq<char>, value: Value) -> Seq<
    Scope,
> {
    scopes.update(
        id,
        Scope { bindings: scopes[id].bindings.push((name, value)), parent: scopes[id].parent },
    )
}

/// The scopes after a fresh empty scope is added under `parent`.
pub open spec fn extend_in(scopes: Seq<Scope>, parent: int) -> Seq<Scope> {
    scopes.push(Scope { bindings: Seq::empty(), parent: Some(parent) })
}

/// The values bound in scope `id` and in its ancestors.
pub open spec fn values_in(scopes: Seq<Scope>, id: int) -> Seq<Value>
    decreases id,
{
    if id < 0 || id >= scopes.len() {
        Seq::empty()
    } else {
        let own = Seq::new(scopes[id].bindings.len(), |k: int| scopes[id].bindings[k].1);
        match scopes[id].parent {
            Some(p) => if 0 <= p < id {
                own + values_in(scopes, p)
            } else {
                own
            },
            None => own,
        }
    }
}

pub open spec fn binding_views(b: Seq<Binding>) -> Seq<(Seq<char>, Value)> {
    Seq::new(b.len(), |k: int| (b[k].name@, b[k].value))
}

impl _Environment {
    pub open spec fn view(&self) -> Scope {
        Scope {
            bindings: binding_views(self.bindings@),
            parent: match self.parent {
                Some(p) => Some(p.id as int),
                None => None,
            },
        }
    }

    /// An empty scope without a parent.
    pub fn new() -> (r: Self)
        ensures
            r@ == (Scope { bindings: Seq::empty(), parent: None }),
    {
        let r = _Environment { bindings: Vec::new(), parent: None };
        assert(binding_views(r.bindings@) =~= Seq::empty());
        r
    }

    /// The value most recently bound to `name` in this scope itself.
    pub fn lookup_variable_value(&self, name: &String) -> (r: Option<Value>)
        ensures
            r == find_in(self@.bindings, name@),
    {
        let mut k: usize = self.bindings.len();
        let ghost all = binding_views(self.bindings@);
        assert(all.subrange(0, k as int) == all);
        while k > 0
            invariant
                k <= self.bindings@.len(),
                all == binding_views(self.bindings@),
                find_in(all, name@) == find_in(all.subrange(0, k as int), name@),
            decreases k,
        {
            k -= 1;
            assert(all.subrange(0, k + 1).drop_last() == all.subrange(0, k as int));
            if self.bindings[k].name == *name {
                return Some(self.bindings[k].value);
            }
        }
        None
    }

    /// Binds `name` to `value` in this scope; an earlier binding of the name is
    /// shadowed.
    pub fn define_variable(&mut self, name: String, value: Value)
        ensures
            final(self)@ == (Scope {
                bindings: old(self)@.bindings.push((name@, value)),
                parent: old(self)@.parent,
            }),
    {
        self.bindings.push(Binding { name, value });
        assert(binding_views(self.bindings@) =~= binding_views(old(self).bindings@).push(
            (name@, value),
        ));
    }
}

impl Environments {
    /// The scopes as plain data.
    pub open spec fn scopes(&self) -> Seq<Scope> {
        Seq::new(self.frames@.len(), |i: int| self.frames@[i]@)
    }

    /// Every parent is an older scope.
    pub open spec fn wf(&self) -> bool {
        forall|i: int|
            0 <= i < self.frames@.len() ==> match (#[trigger] self.frames@[i]).parent {
                Some(p) => p.id < i,
                None => true,
            }
    }

    pub open spec fn has(&self, env: Environment) -> bool {
        env.id < self.frames@.len()
    }

    pub open spec fn spec_lookup(&self, env: Environment, name: Seq<char>) -> Option<Value> {
        lookup_in(self.scopes(), env.id as int, name)
    }

    /// An arena without scopes.
    pub fn new() -> (r: Self)
        ensures
            r.wf(),
            r.scopes() == Seq::<Scope>::empty(),
    {
        let r = Environments { frames: Vec::new() };
        assert(r.scopes() =~= Seq::<Scope>::empty());
        r
    }

    /// The values bound in the scope `env` and in its ancestors, the scope's own
    /// first; nothing for a handle that names no scope.
    pub fn values(&self, env: Environment) -> (out: Vec<Value>)
        requires
            self.wf(),
        ensures
            out@ == values_in(self.scopes(), env.id as int),
    {
        let mut out: Vec<Value> = Vec::new();
        if env.id >= self.frames.len() {
            return out;
        }
        let mut id: usize = env.id;
        assert(out@ + values_in(self.scopes(), id as int) =~= values_in(self.scopes(), id as int));
        loop
            invariant
                self.wf(),
                id < self.frames@.len(),
                out@ + values_in(self.scopes(), id as int) == values_in(
                    self.scopes(),
                    env.id as int,
                ),
            decreases id,
        {
            let ghost base = out@;
            let ghost own = Seq::new(
                self.scopes()[id as int].bindings.len(),
                |j: int| self.scopes()[id as int].bindings[j].1,
            );
            let n: usize = self.frames[id].bindings.len();
            let mut k: usize = 0;
            while k < n
                invariant
                    id < self.frames@.len(),
                    n == self.frames@[id as int].bindings@.len(),
                    k <= n,
                    own == Seq::new(
                        self.scopes()[id as int].bindings.len(),
                        |j: int| self.scopes()[id as int].bindings[j].1,
                    ),
                    out@ == base + own.subrange(0, k as int),
                decreases n - k,
            {
                out.push(self.frames[id].bindings[k].value);
                k += 1;
                assert(out@ =~= base + own.subrange(0, k as int));
            }
            assert(own.subrange(0, n as int) =~= own);
            match self.frames[id].parent {
                Some(p) => {
                    assert(values_in(self.scopes(), id as int) == own + values_in(
                        self.scopes(),
                        p.id as int,
                    ));
                    assert((base + own) + values_in(self.scopes(), p.id as int) =~= base + (own
                        + values_in(self.scopes(), p.id as int)));
                    id = p.id;
                },
                None => {
                    assert(values_in(self.scopes(), id as int) == own);
                    return out;
                },
            }
        }
    }

    fn add(&mut self, frame: _Environment) -> (env: Environment)
        requires
            old(self).wf(),
            match frame.parent {
                Some(p) => p.id < old(self).frames@.len(),
                None => true,
            },
        ensures
            final(self).wf(),
            env.id == old(self).frames@.len(),
            final(self).frames@.len() == old(self).frames@.len() + 1,
            final(self).scopes() == old(self).scopes().push(frame@),
    {
        let id: usize = self.frames.len();
        self.frames.push(frame);
        assert(self.scopes() =~= old(self).scopes().push(frame@));
        Environment { id }
    }
}

impl Environment {
    /// A fresh empty root scope.
    pub fn new(arena: &mut Environments) -> (env: Environment)
        requires
            old(arena).wf(),
        ensures
            final(arena).wf(),
            final(arena).has(env),
            env.id == old(arena).frames@.len(),
            final(arena).frames@.len() == old(arena).frames@.len() + 1,
            final(arena).scopes() == old(arena).scopes().push(
                Scope { bindings: Seq::empty(), parent: None },
            ),
    {
        arena.add(_Environment::new())
    }

    /// A fresh root scope that holds the given bindings; of two bindings of one
    /// name the later one counts.
    pub fn from_hashmap(arena: &mut Environments, map: Vec<Binding>) -> (env: Environment)
        requires
            old(arena).wf(),
        ensures
            final(arena).wf(),
            final(arena).has(env),
            env.id == old(arena).frames@.len(),
            final(arena).frames@.len() == old(arena).frames@.len() + 1,
            final(arena).scopes() == old(arena).scopes().push(
                Scope { bindings: binding_views(map@), parent: None },
            ),
    {
        arena.add(_Environment { bindings: map, parent: None })
    }

    /// A fresh empty scope whose parent is this one.
    pub fn extend(&self, arena: &mut Environments) -> (env: Environment)
        requires
            old(arena).wf(),
            old(arena).has(*self),
        ensures
            final(arena).wf(),
            final(arena).has(env),
            env.id == old(arena).frames@.len(),
            final(arena).frames@.len() == old(arena).frames@.len() + 1,
            final(arena).scopes() == extend_in(old(arena).scopes(), self.id as int),
    {
        let frame = _Environment { bindings: Vec::new(), parent: Some(*self) };
        assert(binding_views(frame.bindings@) =~= Seq::empty());
        arena.add(frame)
    }

    /// The binding of `name` nearest to this scope: its own, else that of the
    /// nearest ancestor that has one; `None` where no scope of the chain binds
    /// the name.
    pub fn lookup_variable_value(&self, arena: &Environments, name: &str) -> (r: Option<Value>)
        requires
            arena.wf(),
            arena.has(*self),
        ensures
            r == arena.spec_lookup(*self, name@),
    {
        let key: String = String::from_str(name);
        let mut id: usize = self.id;
        loop
            invariant
                arena.wf(),
                id < arena.frames@.len(),
                key@ == name@,
                arena.spec_lookup(*self, name@) == lookup_in(arena.scopes(), id as int, name@),
            decreases id,
        {
            let hit = arena.frames[id].lookup_variable_value(&key);
            if hit.is_some() {
                return hit;
            }
            match arena.frames[id].parent {
                Some(p) => {
                    id = p.id;
                },
                None => {
                    return None;
                },
            }
        }
    }

    /// Binds `name` to `value` in this scope only.
    pub fn define_variable(&self, arena: &mut Environments, name: String, value: Value)
        requires
            old(arena).wf(),
            old(arena).has(*self),
        ensures
            final(arena).wf(),
            final(arena).frames@.len() == old(arena).frames@.len(),
            final(arena).scopes() == define_in(old(arena).scopes(), self.id as int, name@, value),
    {
        let ghost before = arena.scopes();
        arena.frames[self.id].define_variable(name, value);
        assert(arena.scopes() =~= define_in(before, self.id as int, name@, value));
    }

    /// A fresh scope with a copy of this scope's bindings and the same parent.
    pub fn procedure_local(&self, arena: &mut Environments) -> (env: Environment)
        requires
            old(arena).wf(),
            old(arena).has(*self),
        ensures
            final(arena).wf(),
            final(arena).has(env),
            env.id == old(arena).frames@.len(),
            final(arena).frames@.len() == old(arena).frames@.len() + 1,
            final(arena).scopes() == old(arena).scopes().push(old(arena).scopes()[self.id as int]),
    {
        let mut copy: Vec<Binding> = Vec::new();
        let mut k: usize = 0;
        let n: usize = arena.frames[self.id].bindings.len();
        while k < n
            invariant
                self.id < arena.frames@.len(),
                n == arena.frames@[self.id as int].bindings@.len(),
                k <= n,
                copy@.len() == k,
                binding_views(copy@) == binding_views(
                    arena.frames@[self.id as int].bindings@,
                ).subrange(0, k as int),
            decreases n - k,
        {
            let ghost done = copy@;
            let name: String = arena.frames[self.id].bindings[k].name.clone();
            let value: Value = arena.frames[self.id].bindings[k].value;
            copy.push(Binding { name, value });
            assert(forall|j: int| 0 <= j < k ==> copy@[j] == done[j]);
            assert(forall|j: int|
                0 <= j < k ==> binding_views(done)[j] == binding_views(
                    arena.frames@[self.id as int].bindings@,
                ).subrange(0, k as int)[j]);
            k += 1;
            assert(binding_views(copy@) =~= binding_views(
                arena.frames@[self.id as int].bindings@,
            ).subrange(0, k as int));
        }
        assert(binding_views(copy@) =~= binding_views(arena.frames@[self.id as int].bindings@));
        let frame = _Environment { bindings: copy, parent: arena.frames[self.id].parent };
        arena.add(frame)
    }
}

/// Defining a name in a scope is seen in that scope; other names keep their
/// bindings there.
pub proof fn lemma_define_then_lookup(
    scopes: Seq<Scope>,
    id: int,
    name: Seq<char>,
    value: Value,
    other: Seq<char>,
)
    requires
        0 <= id < scopes.len(),
    ensures
        lookup_in(define_in(scopes, id, name, value), id, name) == Some(value),
        other != name ==> find_in(define_in(scopes, id, name, value)[id].bindings, other)
            == find_in(scopes[id].bindings, other),
{
    let after = define_in(scopes, id, name, value);
    assert(after[id].bindings.drop_last() == scopes[id].bindings);
}

/// What a lookup finds depends only on the scopes at and before the one it
/// starts from.
pub proof fn lemma_lookup_prefix(a: Seq<Scope>, b: Seq<Scope>, id: int, name: Seq<char>)
    requires
        0 <= id < a.len(),
        id < b.len(),
        forall|i: int| 0 <= i <= id ==> a[i] == b[i],
    ensures
        lookup_in(a, id, name) == lookup_in(b, id, name),
    decreases id,
{
    if find_in(a[id].bindings, name) is None {
        match a[id].parent {
            Some(p) => {
                if 0 <= p < id {
                    lemma_lookup_prefix(a, b, p, name);
                }
            },
            None => {},
        }
    }
}

/// Shadowing: after `name` is bound to `outer` in a scope, a child scope is
/// made of it and `name` is bound to `inner` in the child, a lookup from the
/// child finds `inner` and a lookup from the first scope still finds `outer`.
pub proof fn lemma_shadowing(
    scopes: Seq<Scope>,
    env: int,
    name: Seq<char>,
    outer: Value,
    inner: Value,
)
    requires
        0 <= env < scopes.len(),
    ensures
        ({
            let defined = define_in(scopes, env, name, outer);
            let extended = extend_in(defined, env);
            let child = scopes.len() as int;
            let shadowed = define_in(extended, child, name, inner);
            &&& lookup_in(shadowed, child, name) == Some(inner)
            &&& lookup_in(shadowed, env, name) == Some(outer)
            &&& lookup_in(extended, child, name) == Some(outer)
        }),
{
    let defined = define_in(scopes, env, name, outer);
    let extended = extend_in(defined, env);
    let child = scopes.len() as int;
    let shadowed = define_in(extended, child, name, inner);
    lemma_define_then_lookup(scopes, env, name, outer, name);
    lemma_define_then_lookup(extended, child, name, inner, name);
    lemma_lookup_prefix(defined, extended, env, name);
    lemma_lookup_prefix(defined, shadowed, env, name);
    assert(find_in(extended[child].bindings, name) is None);
}

} // verus!
