use crate::ast::{
    block_model, expr_model, exprs_model, fn_model, lit_model, param_model, params_model, stmt_model,
    stmts_model, Arguments, BinOp, Block, Expr, FnDeclaration, Literal, Mutable, Parameter, Parameters,
    Prog, SBlock, SExpr, SFn, SLit, SParam, SStmt, Statement, Type, UnOp,
};
use crate::error::Error;
use crate::vm::{duplicate_fns, fns_model, val_model, SVal, Val};
use vstd::prelude::*;

verus! {

/// One scope of the model: the bindings in the order they were made.
pub type Scope = Seq<(Seq<char>, SVal)>;

/// The value bound to `name` in one scope: the latest binding of it.
pub open spec fn scope_get(s: Scope, name: Seq<char>) -> Option<SVal>
    decreases s.len(),
{
    if s.len() == 0 {
        None
    } else if s.last().0 == name {
        Some(s.last().1)
    } else {
        scope_get(s.drop_last(), name)
    }
}

/// The scope with the latest binding of `name` given the value `v`.
pub open spec fn scope_set(s: Scope, name: Seq<char>, v: SVal) -> Scope
    decreases s.len(),
{
    if s.len() == 0 {
        s
    } else if s.last().0 == name {
        s.drop_last().push((name, v))
    } else {
        scope_set(s.drop_last(), name, v).push(s.last())
    }
}

/// Lookup from the most local scope to the most global one.
pub open spec fn env_lookup(sc: Seq<Scope>, name: Seq<char>) -> Option<SVal>
    decreases sc.len(),
{
    if sc.len() == 0 {
        None
    } else {
        match scope_get(sc.last(), name) {
            Some(v) => Some(v),
            None => env_lookup(sc.drop_last(), name),
        }
    }
}

/// The scopes after giving the innermost binding of `name` the value `v`;
/// `None` where no scope binds `name`.
pub open spec fn env_update(sc: Seq<Scope>, name: Seq<char>, v: SVal) -> Option<Seq<Scope>>
    decreases sc.len(),
{
    if sc.len() == 0 {
        None
    } else if scope_get(sc.last(), name) is Some {
        Some(sc.drop_last().push(scope_set(sc.last(), name, v)))
    } else {
        match env_update(sc.drop_last(), name, v) {
            Some(r) => Some(r.push(sc.last())),
            None => None,
        }
    }
}

/// The scopes after binding `name` to `v` in the innermost scope.
pub open spec fn env_insert(sc: Seq<Scope>, name: Seq<char>, v: SVal) -> Seq<Scope> {
    if sc.len() == 0 {
        sc
    } else {
        sc.drop_last().push(sc.last().push((name, v)))
    }
}

/// The value that a function declaration adds to an existing binding of its
/// name in the innermost scope: a second declaration turns a function into
/// an overload set, and a further one joins the set.
pub open spec fn overload_value(prev: Option<SVal>, decl: SFn) -> SVal {
    match prev {
        Some(SVal::Fun(p)) => SVal::Overloads(seq![p, decl]),
        Some(SVal::Overloads(v)) => SVal::Overloads(v.push(decl)),
        _ => SVal::Fun(decl),
    }
}

pub open spec fn env_insert_overload(sc: Seq<Scope>, name: Seq<char>, decl: SFn) -> Seq<Scope> {
    env_insert(sc, name, overload_value(scope_get(sc.last(), name), decl))
}

pub open spec fn scope_model(s: Seq<(String, Val)>) -> Scope {
    s.map_values(|b: (String, Val)| (b.0@, b.1@))
}

pub proof fn lemma_scope_last_match(m: Scope, key: Seq<char>, j: int, v: SVal)
    requires
        0 <= j < m.len(),
        m[j].0 == key,
        forall|k: int| j < k < m.len() ==> m[k].0 != key,
    ensures
        scope_get(m, key) == Some(m[j].1),
        scope_set(m, key, v) == m.update(j, (key, v)),
    decreases m.len(),
{
    if j < m.len() - 1 {
        lemma_scope_last_match(m.drop_last(), key, j, v);
        assert(m.drop_last().update(j, (key, v)).push(m.last()) =~= m.update(j, (key, v)));
    } else {
        assert(m.drop_last().push((key, v)) =~= m.update(j, (key, v)));
    }
}

pub proof fn lemma_scope_no_match(m: Scope, key: Seq<char>, v: SVal)
    requires
        forall|k: int| 0 <= k < m.len() ==> m[k].0 != key,
    ensures
        scope_get(m, key) is None,
        scope_set(m, key, v) == m,
    decreases m.len(),
{
    if m.len() > 0 {
        lemma_scope_no_match(m.drop_last(), key, v);
        assert(m.drop_last().push(m.last()) =~= m);
    }
}

pub proof fn lemma_env_innermost(sc: Seq<Scope>, name: Seq<char>, i: int, v: SVal)
    requires
        0 <= i < sc.len(),
        scope_get(sc[i], name) is Some,
        forall|k: int| i < k < sc.len() ==> scope_get(#[trigger] sc[k], name) is None,
    ensures
        env_lookup(sc, name) == scope_get(sc[i], name),
        env_update(sc, name, v) == Some(sc.update(i, scope_set(sc[i], name, v))),
    decreases sc.len(),
{
    if i < sc.len() - 1 {
        lemma_env_innermost(sc.drop_last(), name, i, v);
        assert(sc.drop_last().update(i, scope_set(sc[i], name, v)).push(sc.last()) =~= sc.update(
            i,
            scope_set(sc[i], name, v),
        ));
    } else {
        assert(sc.drop_last().push(scope_set(sc[i], name, v)) =~= sc.update(i, scope_set(sc[i], name, v)));
    }
}

pub proof fn lemma_env_unbound(sc: Seq<Scope>, name: Seq<char>, v: SVal)
    requires
        forall|k: int| 0 <= k < sc.len() ==> scope_get(#[trigger] sc[k], name) is None,
    ensures
        env_lookup(sc, name) is None,
        env_update(sc, name, v) is None,
    decreases sc.len(),
{
    if sc.len() > 0 {
        lemma_env_unbound(sc.drop_last(), name, v);
    }
}

/// A binding just made is what a lookup of its name finds.
pub proof fn law_lookup_after_insert(sc: Seq<Scope>, name: Seq<char>, v: SVal)
    requires
        sc.len() >= 1,
    ensures
        env_lookup(env_insert(sc, name, v), name) == Some(v),
{
    let r = env_insert(sc, name, v);
    assert(r.last() == sc.last().push((name, v)));
}

/// A binding leaves the lookup of every other name unchanged.
pub proof fn law_insert_other_name(sc: Seq<Scope>, name: Seq<char>, v: SVal, other: Seq<char>)
    requires
        sc.len() >= 1,
        other != name,
    ensures
        env_lookup(env_insert(sc, name, v), other) == env_lookup(sc, other),
{
    let r = env_insert(sc, name, v);
    assert(r.last().drop_last() == sc.last());
    assert(r.drop_last() == sc.drop_last());
}

/// Entering a new scope hides nothing.
pub proof fn law_push_scope_lookup(sc: Seq<Scope>, name: Seq<char>)
    ensures
        env_lookup(sc.push(Scope::empty()), name) == env_lookup(sc, name),
{
    assert(sc.push(Scope::empty()).drop_last() == sc);
}

/// A binding made in an inner scope shadows the outer one only until the
/// inner scope is left.
pub proof fn law_shadow_then_pop(sc: Seq<Scope>, name: Seq<char>, v: SVal)
    ensures
        env_lookup(env_insert(sc.push(Scope::empty()), name, v), name) == Some(v),
        env_insert(sc.push(Scope::empty()), name, v).drop_last() == sc,
{
    law_lookup_after_insert(sc.push(Scope::empty()), name, v);
    assert(sc.push(Scope::empty()).drop_last() == sc);
}

proof fn lemma_scope_set_get(m: Scope, name: Seq<char>, v: SVal, other: Seq<char>)
    requires
        scope_get(m, name) is Some,
    ensures
        scope_get(scope_set(m, name, v), name) == Some(v),
        other != name ==> scope_get(scope_set(m, name, v), other) == scope_get(m, other),
    decreases m.len(),
{
    if m.last().0 == name {
        assert(scope_set(m, name, v).drop_last() == m.drop_last());
    } else {
        lemma_scope_set_get(m.drop_last(), name, v, other);
        assert(scope_set(m, name, v).drop_last() == scope_set(m.drop_last(), name, v));
    }
}

/// An update succeeds exactly where a lookup would; afterwards the name has
/// the new value and every other name keeps its value.
pub proof fn law_update_then_lookup(sc: Seq<Scope>, name: Seq<char>, v: SVal, other: Seq<char>)
    ensures
        env_update(sc, name, v) is Some <==> env_lookup(sc, name) is Some,
        env_update(sc, name, v) matches Some(r) ==> {
            &&& env_lookup(r, name) == Some(v)
            &&& other != name ==> env_lookup(r, other) == env_lookup(sc, other)
            &&& r.len() == sc.len()
        },
    decreases sc.len(),
{
    if sc.len() > 0 {
        if scope_get(sc.last(), name) is Some {
            lemma_scope_set_get(sc.last(), name, v, other);
            let r = sc.drop_last().push(scope_set(sc.last(), name, v));
            assert(r.drop_last() == sc.drop_last());
        } else {
            law_update_then_lookup(sc.drop_last(), name, v, other);
            match env_update(sc.drop_last(), name, v) {
                Some(r0) => {
                    assert(r0.push(sc.last()).drop_last() == r0);
                },
                None => {},
            }
        }
    }
}

/// The position of the latest binding of `key` in a scope.
fn scope_find(scope: &Vec<(String, Val)>, key: &String) -> (r: Option<usize>)
    ensures
        match r {
            Some(j) => {
                &&& j < scope@.len()
                &&& scope@[j as int].0@ == key@
                &&& forall|k: int| j < k < scope@.len() ==> scope@[k].0@ != key@
            },
            None => forall|k: int| 0 <= k < scope@.len() ==> scope@[k].0@ != key@,
        },
{
    let mut j = scope.len();
    while j > 0
        invariant
            j <= scope@.len(),
            forall|k: int| j <= k < scope@.len() ==> scope@[k].0@ != key@,
        decreases j,
    {
        j = j - 1;
        if scope[j].0 == *key {
            return Some(j);
        }
    }
    None
}

/// A stack of scopes mapping names to runtime values; the last scope is the
/// most local one.
pub struct Env {
    scopes: Vec<Vec<(String, Val)>>,
}

impl View for Env {
    type V = Seq<Scope>;

    closed spec fn view(&self) -> Seq<Scope> {
        self.scopes@.map_values(|s: Vec<(String, Val)>| scope_model(s@))
    }
}

impl Env {
    /// An environment always has its global scope.
    #[verifier::type_invariant]
    spec fn has_global_scope(self) -> bool {
        self.scopes.len() >= 1
    }
}

impl Default for Env {
    fn default() -> (e: Self)
        ensures
            e@ == seq![Scope::empty()],
    {
        Env::new()
    }
}

impl Env {
    /// The number of scopes: never fewer than one, the global scope.
    pub fn depth(&self) -> (n: usize)
        ensures
            n == self@.len(),
            n >= 1,
    {
        proof { use_type_invariant(self); }
        self.scopes.len()
    }

    pub fn new() -> (e: Self)
        ensures
            e@ == seq![Scope::empty()],
    {
        let v: Vec<(String, Val)> = Vec::new();
        assert(scope_model(v@) =~= Scope::empty());
        let mut scopes: Vec<Vec<(String, Val)>> = Vec::new();
        scopes.push(v);
        let e = Env { scopes };
        assert(e@ =~= seq![Scope::empty()]);
        e
    }

    pub fn push_scope(&mut self)
        ensures
            final(self)@ == old(self)@.push(Scope::empty()),
    {
        let v: Vec<(String, Val)> = Vec::new();
        assert(scope_model(v@) =~= Scope::empty());
        let mut scopes: Vec<Vec<(String, Val)>> = Vec::new();
        scopes.push(Vec::new());
        std::mem::swap(&mut scopes, &mut self.scopes);
        scopes.push(v);
        self.scopes = scopes;
        assert(final(self)@ =~= old(self)@.push(Scope::empty()));
    }

    pub fn pop_scope(&mut self) -> (r: Result<(), Error>)
        ensures
            old(self)@.len() <= 1 ==> r == Err::<(), Error>(Error::PopGlobalScope) && final(self)@ == old(self)@,
            old(self)@.len() > 1 ==> r is Ok && final(self)@ == old(self)@.drop_last(),
    {
        if self.scopes.len() <= 1 {
            return Err(Error::PopGlobalScope);
        }
        let mut scopes: Vec<Vec<(String, Val)>> = Vec::new();
        scopes.push(Vec::new());
        std::mem::swap(&mut scopes, &mut self.scopes);
        scopes.pop();
        self.scopes = scopes;
        assert(final(self)@ =~= old(self)@.drop_last());
        Ok(())
    }

    pub fn lookup(&self, name: &str) -> (r: Result<Val, Error>)
        ensures
            match env_lookup(self@, name@) {
                Some(v) => r matches Ok(x) && x@ == v,
                None => r matches Err(Error::VarNotFound(n)) && n@ == name@,
            },
    {
        let key = name.to_owned();
        let mut i = self.scopes.len();
        while i > 0
            invariant
                i <= self.scopes@.len(),
                key@ == name@,
                forall|k: int| i <= k < self@.len() ==> scope_get(#[trigger] self@[k], name@) is None,
            decreases i,
        {
            i = i - 1;
            let scope = &self.scopes[i];
            match scope_find(scope, &key) {
                Some(j) => {
                    proof {
                        let m = self@[i as int];
                        assert(m == scope_model(scope@));
                        lemma_scope_last_match(m, name@, j as int, SVal::UnInit);
                        lemma_env_innermost(self@, name@, i as int, SVal::UnInit);
                    }
                    return Ok(scope[j].1.duplicate());
                },
                None => {
                    proof {
                        let m = self@[i as int];
                        assert(m == scope_model(scope@));
                        lemma_scope_no_match(m, name@, SVal::UnInit);
                    }
                },
            }
        }
        proof { lemma_env_unbound(self@, name@, SVal::UnInit); }
        Err(Error::VarNotFound(key))
    }

    pub fn update(&mut self, name: &str, value: Val) -> (r: Result<(), Error>)
        ensures
            match env_update(old(self)@, name@, value@) {
                Some(s) => r is Ok && final(self)@ == s,
                None => r matches Err(Error::VarNotFoundForAssignment(n)) && n@ == name@
                    && final(self)@ == old(self)@,
            },
    {
        proof { use_type_invariant(&*self); }
        let key = name.to_owned();
        let mut i = self.scopes.len();
        while i > 0
            invariant
                i <= self.scopes@.len(),
                key@ == name@,
                *self == *old(self),
                forall|k: int| i <= k < self@.len() ==> scope_get(#[trigger] self@[k], name@) is None,
            decreases i,
        {
            i = i - 1;
            match scope_find(&self.scopes[i], &key) {
                Some(j) => {
                    let ghost m = self@[i as int];
                    let ghost vm = value@;
                    proof {
                        assert(m == scope_model(self.scopes@[i as int]@));
                        lemma_scope_last_match(m, name@, j as int, vm);
                        lemma_env_innermost(self@, name@, i as int, vm);
                    }
                    let mut scopes: Vec<Vec<(String, Val)>> = Vec::new();
                    scopes.push(Vec::new());
                    std::mem::swap(&mut scopes, &mut self.scopes);
                    let mut scope = scopes.remove(i);
                    scope.set(j, (key, value));
                    scopes.insert(i, scope);
                    self.scopes = scopes;
                    proof {
                        assert(scope_model(scope@) =~= m.update(j as int, (name@, vm)));
                        assert(final(self)@ =~= old(self)@.update(i as int, scope_set(m, name@, vm)));
                    }
                    return Ok(());
                },
                None => {
                    proof {
                        let m = self@[i as int];
                        assert(m == scope_model(self.scopes@[i as int]@));
                        lemma_scope_no_match(m, name@, value@);
                    }
                },
            }
        }
        proof { lemma_env_unbound(self@, name@, value@); }
        Err(Error::VarNotFoundForAssignment(key))
    }

    /// Binds a function declaration in the innermost scope, keeping earlier
    /// declarations of the same name there as overloads.
    pub fn insert_overload(&mut self, name: String, decl: FnDeclaration)
        ensures
            final(self)@ == env_insert_overload(old(self)@, name@, fn_model(decl)),
    {
        let n = self.scopes.len();
        if n == 0 {
            self.insert(name, Val::Fun(decl));
            return;
        }
        let ghost top = self@[n - 1];
        let newv = match scope_find(&self.scopes[n - 1], &name) {
            Some(j) => {
                proof {
                    assert(top == scope_model(self.scopes@[n - 1]@));
                    lemma_scope_last_match(top, name@, j as int, SVal::UnInit);
                }
                match &self.scopes[n - 1][j].1 {
                    Val::Fun(prev) => {
                        let mut v: Vec<FnDeclaration> = Vec::new();
                        v.push(prev.duplicate());
                        v.push(decl);
                        let r = Val::Overloads(v);
                        assert(r@ == SVal::Overloads(seq![fn_model(*prev), fn_model(decl)])) by {
                            assert(fns_model(v@) =~= seq![fn_model(*prev), fn_model(decl)]);
                        }
                        r
                    },
                    Val::Overloads(fs) => {
                        let mut v = duplicate_fns(fs);
                        let ghost before = v@;
                        v.push(decl);
                        assert(fns_model(v@) =~= fns_model(before).push(fn_model(decl)));
                        Val::Overloads(v)
                    },
                    _ => Val::Fun(decl),
                }
            },
            None => {
                proof {
                    assert(top == scope_model(self.scopes@[n - 1]@));
                    lemma_scope_no_match(top, name@, SVal::UnInit);
                }
                Val::Fun(decl)
            },
        };
        self.insert(name, newv);
    }

    pub fn insert(&mut self, name: String, value: Val)
        ensures
            final(self)@ == env_insert(old(self)@, name@, value@),
    {
        proof { use_type_invariant(&*self); }
        let mut scopes: Vec<Vec<(String, Val)>> = Vec::new();
        scopes.push(Vec::new());
        std::mem::swap(&mut scopes, &mut self.scopes);
        let ghost old_scopes = scopes@;
        let mut top = scopes.pop().unwrap();
        let ghost old_top = top@;
        top.push((name, value));
        scopes.push(top);
        self.scopes = scopes;
        proof {
            assert(scope_model(top@) =~= scope_model(old_top).push((name@, value@)));
        }
        assert(final(self)@ =~= env_insert(old(self)@, name@, value@));
    }
}

} // verus!
