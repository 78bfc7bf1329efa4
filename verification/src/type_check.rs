use crate::assoc::{
    assoc_find, assoc_get, assoc_put, assoc_set, lemma_assoc_last_match, lemma_assoc_no_match,
    lemma_stack_innermost, lemma_stack_unbound, stack_get, stack_pop, stack_push, Assoc,
};
use crate::ast::{
    block_model, expr_model, exprs_model, fn_model, lemma_exprs_model, lemma_stmts_model, lit_model,
    param_model, params_model, stmt_model, stmts_model, Arguments, BinOp, Block, Expr, FnDeclaration,
    Literal, Mutable, Parameter, Parameters, Prog, SBlock, SExpr, SFn, SLit, SParam, SStmt,
    Statement, Type, UnOp,
};
use crate::error::{error_model, Error, SError};
use crate::vm::{duplicate_fns, fns_model};
use vstd::prelude::*;

verus! {

// ---------------------------------------------------------------------
// Static semantics: the rules of the type checker over the models.
// ---------------------------------------------------------------------

/// Variable scopes of the checker: each name with its type and whether it
/// was declared `mut`.
pub type VarScopes = Seq<Assoc<(Type, bool)>>;

/// Function scopes of the checker: each name with its overloads.
pub type FunScopes = Seq<Assoc<Seq<SFn>>>;

/// Model of the checker's state.
pub struct TcState {
    pub vars: VarScopes,
    pub funs: FunScopes,
}

pub type TRes = Result<Type, SError>;

pub open spec fn with_vars(st: TcState, vars: VarScopes) -> TcState {
    TcState { vars, funs: st.funs }
}

pub open spec fn with_funs(st: TcState, funs: FunScopes) -> TcState {
    TcState { vars: st.vars, funs }
}

/// `got` must be `expected`.
pub open spec fn unify_spec(got: Type, expected: Type) -> TRes {
    if got == expected {
        Ok(expected)
    } else {
        Err(SError::TypeMismatch(expected, got))
    }
}

pub open spec fn lit_type(l: SLit) -> Type {
    match l {
        SLit::Int(_) => Type::I32,
        SLit::Bool(_) => Type::Bool,
        SLit::Str(_) => Type::String,
        SLit::Unit => Type::Unit,
    }
}

/// The type of a binary operation on operands of the given types.
pub open spec fn binop_type(op: BinOp, lt: Type, rt: Type) -> TRes {
    match op {
        BinOp::Eq => if lt == rt {
            Ok(Type::Bool)
        } else {
            Err(SError::IncomparableTypes(lt, rt))
        },
        _ => {
            let operand = if op == BinOp::And || op == BinOp::Or { Type::Bool } else { Type::I32 };
            let result = if op == BinOp::Add || op == BinOp::Sub || op == BinOp::Mul || op == BinOp::Div {
                Type::I32
            } else {
                Type::Bool
            };
            match unify_spec(lt, operand) {
                Err(x) => Err(x),
                Ok(_) => match unify_spec(rt, operand) {
                    Err(x) => Err(x),
                    Ok(_) => Ok(result),
                },
            }
        },
    }
}

pub open spec fn unop_type(op: UnOp, t: Type) -> TRes {
    match op {
        UnOp::Neg => match unify_spec(t, Type::I32) {
            Err(x) => Err(x),
            Ok(_) => Ok(Type::I32),
        },
        UnOp::Bang => match unify_spec(t, Type::Bool) {
            Err(x) => Err(x),
            Ok(_) => Ok(Type::Bool),
        },
        UnOp::Deref => match t {
            Type::Ref(inner, _) => Ok(*inner),
            _ => Err(SError::DerefNonRefType(t)),
        },
    }
}

pub open spec fn param_types(ps: Seq<SParam>) -> Seq<Type> {
    ps.map_values(|p: SParam| p.ty)
}

/// Two declarations with the same parameter types.
pub open spec fn same_sig(f: SFn, g: SFn) -> bool {
    param_types(f.params) == param_types(g.params)
}

/// The overloads whose parameter types are exactly the argument types, in
/// declaration order.
pub open spec fn exact_matches(fs: Seq<SFn>, tys: Seq<Type>) -> Seq<SFn>
    decreases fs.len(),
{
    if fs.len() == 0 {
        Seq::empty()
    } else {
        let p = exact_matches(fs.drop_last(), tys);
        if param_types(fs.last().params) == tys {
            p.push(fs.last())
        } else {
            p
        }
    }
}

/// The result type of a call: the single overload that matches the
/// argument types decides it (no declared type means unit).
pub open spec fn resolve_overload(name: Seq<char>, fs: Seq<SFn>, tys: Seq<Type>) -> TRes {
    let ms = exact_matches(fs, tys);
    if ms.len() == 0 {
        Err(SError::NoMatchingOverload(name))
    } else if ms.len() > 1 {
        Err(SError::AmbiguousCall(name))
    } else {
        match ms[0].ty {
            Some(t) => Ok(t),
            None => Ok(Type::Unit),
        }
    }
}

/// The overloads of `id` in one scope.
pub open spec fn fun_entry(top: Assoc<Seq<SFn>>, id: Seq<char>) -> Seq<SFn> {
    match assoc_get(top, id) {
        Some(e) => e,
        None => Seq::empty(),
    }
}

/// One of the overloads has the parameter types of `d`.
pub open spec fn has_dup(entry: Seq<SFn>, d: SFn) -> bool {
    exists|i: int| 0 <= i < entry.len() && same_sig(#[trigger] entry[i], d)
}

/// Declares a function in the innermost function scope; a declaration with
/// the same name and parameter types there already is an error.
pub open spec fn fun_insert(sc: FunScopes, id: Seq<char>, d: SFn) -> Result<FunScopes, SError> {
    if sc.len() == 0 {
        Ok(sc)
    } else {
        let entry = fun_entry(sc.last(), id);
        if has_dup(entry, d) {
            Err(SError::DuplicateFunction(id))
        } else {
            Ok(sc.drop_last().push(assoc_put(sc.last(), id, entry.push(d))))
        }
    }
}

/// Declares functions in order, stopping at the first error; the scopes
/// keep the declarations made before it.
pub open spec fn fun_insert_all(sc: FunScopes, fs: Seq<SFn>) -> (FunScopes, Result<(), SError>)
    decreases fs.len(),
{
    if fs.len() == 0 {
        (sc, Ok(()))
    } else {
        let (s1, r1) = fun_insert_all(sc, fs.drop_last());
        match r1 {
            Err(x) => (s1, Err(x)),
            Ok(_) => match fun_insert(s1, fs.last().id, fs.last()) {
                Ok(s2) => (s2, Ok(())),
                Err(x) => (s1, Err(x)),
            },
        }
    }
}

/// Declares the functions of a block's statements in order (hoisting),
/// stopping at the first error.
pub open spec fn tc_hoist(sc: FunScopes, ss: Seq<SStmt>) -> (FunScopes, Result<(), SError>)
    decreases ss.len(),
{
    if ss.len() == 0 {
        (sc, Ok(()))
    } else {
        let (s1, r1) = tc_hoist(sc, ss.drop_last());
        match r1 {
            Err(x) => (s1, Err(x)),
            Ok(_) => match ss.last() {
                SStmt::Fn(d) => match fun_insert(s1, d.id, d) {
                    Ok(s2) => (s2, Ok(())),
                    Err(x) => (s1, Err(x)),
                },
                _ => (s1, Ok(())),
            },
        }
    }
}

/// Type of an expression, and the checker's state afterwards.
pub open spec fn tc_expr(st: TcState, e: SExpr) -> (TcState, TRes)
    decreases e,
{
    match e {
        SExpr::Ident(id) => (st, match stack_get(st.vars, id) {
            Some(p) => Ok(p.0),
            None => Err(SError::VarNotFound(id)),
        }),
        SExpr::Lit(l) => (st, Ok(lit_type(l))),
        SExpr::Par(i) => tc_expr(st, *i),
        SExpr::BinOp(op, l, r) => {
            let (s1, rl) = tc_expr(st, *l);
            match rl {
                Err(x) => (s1, Err(x)),
                Ok(lt) => {
                    let (s2, rr) = tc_expr(s1, *r);
                    match rr {
                        Err(x) => (s2, Err(x)),
                        Ok(rt) => (s2, binop_type(op, lt, rt)),
                    }
                },
            }
        },
        SExpr::UnOp(op, i) => {
            let (s1, r) = tc_expr(st, *i);
            match r {
                Err(x) => (s1, Err(x)),
                Ok(t) => (s1, unop_type(op, t)),
            }
        },
        SExpr::Call(name, args) => if name == "println!"@ {
            let (s1, r) = tc_exprs(st, args);
            (s1, match r {
                Err(x) => Err(x),
                Ok(_) => Ok(Type::Unit),
            })
        } else if name == "assert_eq!"@ {
            let (s1, r) = tc_exprs(st, args);
            (s1, match r {
                Err(x) => Err(x),
                Ok(tys) => if tys.len() != 2 {
                    Err(SError::ArgCount(name, 2, tys.len() as usize))
                } else {
                    match binop_type(BinOp::Eq, tys[0], tys[1]) {
                        Err(x) => Err(x),
                        Ok(_) => Ok(Type::Unit),
                    }
                },
            })
        } else {
            match stack_get(st.funs, name) {
                None => (st, Err(SError::FunctionNotFound(name))),
                Some(fs) => {
                    let (s1, r) = tc_exprs(st, args);
                    match r {
                        Err(x) => (s1, Err(x)),
                        Ok(tys) => (s1, resolve_overload(name, fs, tys)),
                    }
                },
            }
        },
        SExpr::IfThenElse(c, t, eo) => {
            let (s1, rc) = tc_expr(st, *c);
            match rc {
                Err(x) => (s1, Err(x)),
                Ok(ct) => match unify_spec(ct, Type::Bool) {
                    Err(x) => (s1, Err(x)),
                    Ok(_) => {
                        let (s2, rt) = tc_block(s1, t);
                        match rt {
                            Err(x) => (s2, Err(x)),
                            Ok(tt) => match eo {
                                Some(eb) => {
                                    let (s3, re) = tc_block(s2, eb);
                                    match re {
                                        Err(x) => (s3, Err(x)),
                                        Ok(et) => (s3, if tt == et {
                                            Ok(tt)
                                        } else {
                                            Err(SError::BranchMismatch(tt, et))
                                        }),
                                    }
                                },
                                None => (s2, match unify_spec(tt, Type::Unit) {
                                    Err(x) => Err(x),
                                    Ok(_) => Ok(Type::Unit),
                                }),
                            },
                        }
                    },
                },
            }
        },
        SExpr::Block(b) => tc_block(st, b),
        SExpr::Ref(i, m) => {
            let (s1, r) = tc_expr(st, *i);
            (s1, match r {
                Err(x) => Err(x),
                Ok(t) => Ok(Type::Ref(Box::new(t), Mutable(m))),
            })
        },
    }
}

/// Types of expressions from left to right, stopping at the first error.
pub open spec fn tc_exprs(st: TcState, es: Seq<SExpr>) -> (TcState, Result<Seq<Type>, SError>)
    decreases es,
{
    if es.len() == 0 {
        (st, Ok(Seq::empty()))
    } else {
        let (s1, r1) = tc_exprs(st, es.drop_last());
        match r1 {
            Err(x) => (s1, Err(x)),
            Ok(ts) => {
                let (s2, r2) = tc_expr(s1, es.last());
                match r2 {
                    Err(x) => (s2, Err(x)),
                    Ok(t) => (s2, Ok(ts.push(t))),
                }
            },
        }
    }
}

/// A block: new variable and function scopes, its functions declared
/// first, its statements in order, both scopes left again; its type is that
/// of its last statement unless it ends with `;`.
pub open spec fn tc_block(st: TcState, b: SBlock) -> (TcState, TRes)
    decreases b,
{
    let s0 = TcState { vars: st.vars.push(Assoc::empty()), funs: st.funs.push(Assoc::empty()) };
    let (f1, rh) = tc_hoist(s0.funs, b.stmts);
    match rh {
        Err(x) => (with_funs(s0, f1), Err(x)),
        Ok(_) => {
            let (s2, r) = tc_stmts(with_funs(s0, f1), b.stmts);
            match r {
                Err(x) => (s2, Err(x)),
                Ok(last) => match stack_pop(s2.funs) {
                    None => (s2, Err(SError::PopGlobalScope)),
                    Some(f3) => match stack_pop(s2.vars) {
                        None => (with_funs(s2, f3), Err(SError::PopGlobalScope)),
                        Some(v4) => (
                            TcState { vars: v4, funs: f3 },
                            Ok(if b.semi { Type::Unit } else { last }),
                        ),
                    },
                },
            }
        },
    }
}

/// Statements in order; the type is that of the last one (unit when there
/// are none).
pub open spec fn tc_stmts(st: TcState, ss: Seq<SStmt>) -> (TcState, TRes)
    decreases ss,
{
    if ss.len() == 0 {
        (st, Ok(Type::Unit))
    } else {
        let (s1, r1) = tc_stmts(st, ss.drop_last());
        match r1 {
            Err(x) => (s1, Err(x)),
            Ok(_) => tc_stmt(s1, ss.last()),
        }
    }
}

pub open spec fn declare(st: TcState, id: Seq<char>, t: Type, m: bool) -> TcState {
    with_vars(st, stack_push(st.vars, id, (t, m)))
}

/// The rules for statements.
pub open spec fn tc_stmt(st: TcState, s: SStmt) -> (TcState, TRes)
    decreases s,
{
    match s {
        SStmt::Let(m, id, ty, init) => match ty {
            Some(at) => match init {
                Some(e) => {
                    let (s1, r) = tc_expr(st, e);
                    match r {
                        Err(x) => (s1, Err(x)),
                        Ok(it) => match unify_spec(it, at) {
                            Err(x) => (s1, Err(x)),
                            Ok(_) => (declare(s1, id, at, m), Ok(Type::Unit)),
                        },
                    }
                },
                None => (declare(st, id, at, m), Ok(Type::Unit)),
            },
            None => match init {
                Some(e) => {
                    let (s1, r) = tc_expr(st, e);
                    match r {
                        Err(x) => (s1, Err(x)),
                        Ok(it) => (declare(s1, id, it, m), Ok(Type::Unit)),
                    }
                },
                None => (st, Err(SError::UninitNoType(id))),
            },
        },
        SStmt::Assign(lhs, rhs) => match lhs {
            SExpr::Ident(name) => match stack_get(st.vars, name) {
                None => (st, Err(SError::VarNotFound(name))),
                Some(p) => if !p.1 {
                    (st, Err(SError::AssignImmutable(name)))
                } else {
                    let (s1, r) = tc_expr(st, rhs);
                    match r {
                        Err(x) => (s1, Err(x)),
                        Ok(rt) => (s1, match unify_spec(rt, p.0) {
                            Err(x) => Err(x),
                            Ok(_) => Ok(Type::Unit),
                        }),
                    }
                },
            },
            SExpr::UnOp(UnOp::Deref, inner) => match *inner {
                SExpr::Ident(name) => match stack_get(st.vars, name) {
                    None => (st, Err(SError::VarNotFound(name))),
                    Some(p) => match p.0 {
                        Type::Ref(bt, rm) => if !rm.0 {
                            (st, Err(SError::AssignThroughImmutableRef(name)))
                        } else {
                            let (s1, r) = tc_expr(st, rhs);
                            match r {
                                Err(x) => (s1, Err(x)),
                                Ok(rt) => (s1, match unify_spec(rt, *bt) {
                                    Err(x) => Err(x),
                                    Ok(_) => Ok(Type::Unit),
                                }),
                            }
                        },
                        _ => (st, Err(SError::NotAReference(name))),
                    },
                },
                _ => (st, Err(SError::AssignDerefNonIdent)),
            },
            _ => (st, Err(SError::AssignNonIdent)),
        },
        SStmt::While(c, b) => {
            let (s1, rc) = tc_expr(st, c);
            match rc {
                Err(x) => (s1, Err(x)),
                Ok(ct) => match unify_spec(ct, Type::Bool) {
                    Err(x) => (s1, Err(x)),
                    Ok(_) => {
                        let (s2, rb) = tc_block(s1, b);
                        match rb {
                            Err(x) => (s2, Err(x)),
                            Ok(_) => (s2, Ok(Type::Unit)),
                        }
                    },
                },
            }
        },
        SStmt::Expr(e) => tc_expr(st, e),
        SStmt::Fn(f) => {
            let (s1, r) = tc_fn(st, f);
            match r {
                Err(x) => (s1, Err(x)),
                Ok(_) => (s1, Ok(Type::Unit)),
            }
        },
    }
}

/// The variable scopes with the parameters declared in order.
pub open spec fn declare_params(vars: VarScopes, ps: Seq<SParam>) -> VarScopes
    decreases ps.len(),
{
    if ps.len() == 0 {
        vars
    } else {
        let v = declare_params(vars, ps.drop_last());
        stack_push(v, ps.last().id, (ps.last().ty, ps.last().mutable))
    }
}

/// A function: a scope with its parameters, its body, whose type must be
/// the declared return type where there is one, and the scope left again.
pub open spec fn tc_fn(st: TcState, f: SFn) -> (TcState, Result<(), SError>)
    decreases f,
{
    let s0 = with_vars(st, declare_params(st.vars.push(Assoc::empty()), f.params));
    let (s1, r) = tc_block(s0, f.body);
    match r {
        Err(x) => (s1, Err(x)),
        Ok(bt) => {
            let ok = match f.ty {
                Some(rt) => unify_spec(bt, rt),
                None => Ok(bt),
            };
            match ok {
                Err(x) => (s1, Err(x)),
                Ok(_) => match stack_pop(s1.vars) {
                    None => (s1, Err(SError::PopGlobalScope)),
                    Some(v) => (with_vars(s1, v), Ok(())),
                },
            }
        },
    }
}

/// The functions checked in order, stopping at the first error.
pub open spec fn tc_fns(st: TcState, fs: Seq<SFn>) -> (TcState, Result<(), SError>)
    decreases fs.len(),
{
    if fs.len() == 0 {
        (st, Ok(()))
    } else {
        let (s1, r1) = tc_fns(st, fs.drop_last());
        match r1 {
            Err(x) => (s1, Err(x)),
            Ok(_) => tc_fn(s1, fs.last()),
        }
    }
}

/// A program: all its functions declared, then each checked.
pub open spec fn tc_prog(st: TcState, fs: Seq<SFn>) -> (TcState, Result<(), SError>) {
    let (f1, r) = fun_insert_all(st.funs, fs);
    match r {
        Err(x) => (with_funs(st, f1), Err(x)),
        Ok(_) => tc_fns(with_funs(st, f1), fs),
    }
}

pub open spec fn tc_init() -> TcState {
    TcState { vars: seq![Assoc::empty()], funs: seq![Assoc::empty()] }
}

pub open spec fn ty_res(r: Result<Type, Error>) -> TRes {
    match r {
        Ok(t) => Ok(t),
        Err(e) => Err(error_model(e)),
    }
}

pub open spec fn unit_res(r: Result<(), Error>) -> Result<(), SError> {
    match r {
        Ok(_) => Ok(()),
        Err(e) => Err(error_model(e)),
    }
}

// ---------------------------------------------------------------------
// Environments of the checker.
// ---------------------------------------------------------------------

pub open spec fn var_scope_model(s: Seq<(String, (Type, Mutable))>) -> Assoc<(Type, bool)> {
    s.map_values(|b: (String, (Type, Mutable))| (b.0@, (b.1.0, b.1.1.0)))
}

/// Variable scopes: each name with its type and mutability; the last scope
/// is the innermost.
pub struct TypeEnv {
    scopes: Vec<Vec<(String, (Type, Mutable))>>,
}

impl View for TypeEnv {
    type V = VarScopes;

    closed spec fn view(&self) -> VarScopes {
        self.scopes@.map_values(|s: Vec<(String, (Type, Mutable))>| var_scope_model(s@))
    }
}

impl Default for TypeEnv {
    fn default() -> (e: Self)
        ensures
            e@ == seq![Assoc::<(Type, bool)>::empty()],
    {
        TypeEnv::new()
    }
}

impl TypeEnv {
    /// A variable environment always has its global scope.
    #[verifier::type_invariant]
    spec fn has_global_scope(self) -> bool {
        self.scopes.len() >= 1
    }

    /// The number of scopes: never fewer than one.
    pub fn depth(&self) -> (n: usize)
        ensures
            n == self@.len(),
            n >= 1,
    {
        proof { use_type_invariant(self); }
        self.scopes.len()
    }

    pub fn new() -> (e: Self)
        ensures
            e@ == seq![Assoc::<(Type, bool)>::empty()],
    {
        let v: Vec<(String, (Type, Mutable))> = Vec::new();
        assert(var_scope_model(v@) =~= Assoc::<(Type, bool)>::empty());
        let mut scopes = Vec::new();
        scopes.push(v);
        let e = TypeEnv { scopes };
        assert(e@ =~= seq![Assoc::<(Type, bool)>::empty()]);
        e
    }

    pub fn push(&mut self)
        ensures
            final(self)@ == old(self)@.push(Assoc::empty()),
    {
        let v: Vec<(String, (Type, Mutable))> = Vec::new();
        assert(var_scope_model(v@) =~= Assoc::<(Type, bool)>::empty());
        let mut scopes: Vec<Vec<(String, (Type, Mutable))>> = Vec::new();
        scopes.push(Vec::new());
        std::mem::swap(&mut scopes, &mut self.scopes);
        scopes.push(v);
        self.scopes = scopes;
        assert(final(self)@ =~= old(self)@.push(Assoc::empty()));
    }

    pub fn pop(&mut self) -> (r: Result<(), Error>)
        ensures
            match stack_pop(old(self)@) {
                Some(s) => r is Ok && final(self)@ == s,
                None => r == Err::<(), Error>(Error::PopGlobalScope) && final(self)@ == old(self)@,
            },
    {
        if self.scopes.len() == 1 {
            return Err(Error::PopGlobalScope);
        }
        proof { use_type_invariant(&*self); }
        let mut scopes: Vec<Vec<(String, (Type, Mutable))>> = Vec::new();
        scopes.push(Vec::new());
        std::mem::swap(&mut scopes, &mut self.scopes);
        scopes.pop();
        self.scopes = scopes;
        assert(final(self)@ =~= old(self)@.drop_last());
        Ok(())
    }

    /// Declares a variable in the innermost scope; it shadows earlier
    /// declarations of the name.
    pub fn insert(&mut self, id: String, ty: Type, mutable: Mutable) -> (r: Result<(), Error>)
        ensures
            r is Ok,
            final(self)@ == stack_push(old(self)@, id@, (ty, mutable.0)),
    {
        if self.scopes.len() == 0 {
            return Ok(());
        }
        let mut scopes: Vec<Vec<(String, (Type, Mutable))>> = Vec::new();
        scopes.push(Vec::new());
        std::mem::swap(&mut scopes, &mut self.scopes);
        let mut top = scopes.pop().unwrap();
        let ghost old_top = top@;
        top.push((id, (ty, mutable)));
        scopes.push(top);
                    self.scopes = scopes;
        proof {
            assert(var_scope_model(top@) =~= var_scope_model(old_top).push((id@, (ty, mutable.0))));
        }
        assert(final(self)@ =~= stack_push(old(self)@, id@, (ty, mutable.0)));
        Ok(())
    }

    /// The type and mutability of the innermost declaration of `id`.
    pub fn lookup_var(&self, id: &str) -> (r: Result<(Type, Mutable), Error>)
        ensures
            match stack_get(self@, id@) {
                Some(p) => r matches Ok(x) && x.0 == p.0 && x.1.0 == p.1,
                None => r matches Err(Error::VarNotFound(n)) && n@ == id@,
            },
    {
        let key = id.to_owned();
        let mut i = self.scopes.len();
        while i > 0
            invariant
                i <= self.scopes@.len(),
                key@ == id@,
                forall|k: int| i <= k < self@.len() ==> assoc_get(#[trigger] self@[k], id@) is None,
            decreases i,
        {
            i = i - 1;
            let scope = &self.scopes[i];
            match assoc_find(scope, &key) {
                Some(j) => {
                    proof {
                        let m = self@[i as int];
                        assert(m == var_scope_model(scope@));
                        lemma_assoc_last_match(m, id@, j as int, (Type::Unit, false));
                        lemma_stack_innermost(self@, id@, i as int);
                    }
                    let b = &scope[j].1;
                    return Ok((b.0.duplicate(), b.1));
                },
                None => {
                    proof {
                        let m = self@[i as int];
                        assert(m == var_scope_model(scope@));
                        lemma_assoc_no_match(m, id@);
                    }
                },
            }
        }
        proof { lemma_stack_unbound(self@, id@); }
        Err(Error::VarNotFound(key))
    }

    /// The type of the innermost declaration of `id`.
    pub fn lookup_type(&self, id: &str) -> (r: Result<Type, Error>)
        ensures
            match stack_get(self@, id@) {
                Some(p) => r == Ok::<Type, Error>(p.0),
                None => r matches Err(Error::VarNotFound(n)) && n@ == id@,
            },
    {
        match self.lookup_var(id) {
            Ok(p) => Ok(p.0),
            Err(e) => Err(e),
        }
    }
}

pub open spec fn fun_scope_model(s: Seq<(String, Vec<FnDeclaration>)>) -> Assoc<Seq<SFn>> {
    s.map_values(|b: (String, Vec<FnDeclaration>)| (b.0@, fns_model(b.1@)))
}

/// Function scopes: each name with its overloads; the last scope is the
/// innermost.
pub struct FunEnv {
    scopes: Vec<Vec<(String, Vec<FnDeclaration>)>>,
}

impl View for FunEnv {
    type V = FunScopes;

    closed spec fn view(&self) -> FunScopes {
        self.scopes@.map_values(|s: Vec<(String, Vec<FnDeclaration>)>| fun_scope_model(s@))
    }
}

/// Whether two declarations have the same parameter types.
fn same_sig_exec(f: &FnDeclaration, g: &FnDeclaration) -> (r: bool)
    ensures
        r == same_sig(fn_model(*f), fn_model(*g)),
{
    let a = &f.parameters.0;
    let b = &g.parameters.0;
    let ghost ta = param_types(fn_model(*f).params);
    let ghost tb = param_types(fn_model(*g).params);
    assert(ta.len() == a@.len());
    assert(tb.len() == b@.len());
    if a.len() != b.len() {
        return false;
    }
    let n = a.len();
    for i in 0..n
        invariant
            n == a@.len(),
            n == b@.len(),
            *a == f.parameters.0,
            *b == g.parameters.0,
            ta == param_types(fn_model(*f).params),
            tb == param_types(fn_model(*g).params),
            forall|j: int| 0 <= j < i ==> ta[j] == tb[j],
    {
        assert(ta[i as int] == a@[i as int].ty);
        assert(tb[i as int] == b@[i as int].ty);
        if !a[i].ty.same(&b[i].ty) {
            return false;
        }
    }
    assert(ta =~= tb);
    true
}

/// Whether one of the declarations has the parameter types of `d`.
fn has_same_sig(fs: &Vec<FnDeclaration>, d: &FnDeclaration) -> (r: bool)
    ensures
        r == has_dup(fns_model(fs@), fn_model(*d)),
{
    let ghost entry = fns_model(fs@);
    let n = fs.len();
    for i in 0..n
        invariant
            n == fs@.len(),
            entry == fns_model(fs@),
            forall|q: int| 0 <= q < i ==> !same_sig(#[trigger] entry[q], fn_model(*d)),
    {
        if same_sig_exec(&fs[i], d) {
            assert(same_sig(entry[i as int], fn_model(*d)));
            return true;
        }
    }
    false
}

impl Default for FunEnv {
    fn default() -> (e: Self)
        ensures
            e@ == seq![Assoc::<Seq<SFn>>::empty()],
    {
        FunEnv::new()
    }
}

impl FunEnv {
    /// A function environment always has its global scope.
    #[verifier::type_invariant]
    spec fn has_global_scope(self) -> bool {
        self.scopes.len() >= 1
    }

    /// The number of scopes: never fewer than one.
    pub fn depth(&self) -> (n: usize)
        ensures
            n == self@.len(),
            n >= 1,
    {
        proof { use_type_invariant(self); }
        self.scopes.len()
    }

    pub fn new() -> (e: Self)
        ensures
            e@ == seq![Assoc::<Seq<SFn>>::empty()],
    {
        let v: Vec<(String, Vec<FnDeclaration>)> = Vec::new();
        assert(fun_scope_model(v@) =~= Assoc::<Seq<SFn>>::empty());
        let mut scopes = Vec::new();
        scopes.push(v);
        let e = FunEnv { scopes };
        assert(e@ =~= seq![Assoc::<Seq<SFn>>::empty()]);
        e
    }

    pub fn push(&mut self)
        ensures
            final(self)@ == old(self)@.push(Assoc::empty()),
    {
        let v: Vec<(String, Vec<FnDeclaration>)> = Vec::new();
        assert(fun_scope_model(v@) =~= Assoc::<Seq<SFn>>::empty());
        let mut scopes: Vec<Vec<(String, Vec<FnDeclaration>)>> = Vec::new();
        scopes.push(Vec::new());
        std::mem::swap(&mut scopes, &mut self.scopes);
        scopes.push(v);
        self.scopes = scopes;
        assert(final(self)@ =~= old(self)@.push(Assoc::empty()));
    }

    pub fn pop(&mut self) -> (r: Result<(), Error>)
        ensures
            match stack_pop(old(self)@) {
                Some(s) => r is Ok && final(self)@ == s,
                None => r == Err::<(), Error>(Error::PopGlobalScope) && final(self)@ == old(self)@,
            },
    {
        if self.scopes.len() == 1 {
            return Err(Error::PopGlobalScope);
        }
        proof { use_type_invariant(&*self); }
        let mut scopes: Vec<Vec<(String, Vec<FnDeclaration>)>> = Vec::new();
        scopes.push(Vec::new());
        std::mem::swap(&mut scopes, &mut self.scopes);
        scopes.pop();
        self.scopes = scopes;
        assert(final(self)@ =~= old(self)@.drop_last());
        Ok(())
    }

    /// Declares a function in the innermost scope, as one more overload of
    /// its name; one with the same parameter types there already is an
    /// error, and then nothing changes.
    pub fn insert(&mut self, id: String, decl: FnDeclaration) -> (r: Result<(), Error>)
        ensures
            match fun_insert(old(self)@, id@, fn_model(decl)) {
                Ok(s) => r is Ok && final(self)@ == s,
                Err(e) => r matches Err(x) && error_model(x) == e && final(self)@ == old(self)@,
            },
    {
        if self.scopes.len() == 0 {
            return Ok(());
        }
        let ghost d = fn_model(decl);
        let ghost top_m = old(self)@.last();
        let mut scopes: Vec<Vec<(String, Vec<FnDeclaration>)>> = Vec::new();
        scopes.push(Vec::new());
        std::mem::swap(&mut scopes, &mut self.scopes);
        let mut top = scopes.pop().unwrap();
        assert(top_m == fun_scope_model(top@));
        match assoc_find(&top, &id) {
            Some(j) => {
                proof { lemma_assoc_last_match(top_m, id@, j as int, fns_model(top@[j as int].1@).push(d)); }
                let ghost before = top@;
                let (k, mut fs) = top.remove(j);
                let ghost entry = fns_model(fs@);
                if has_same_sig(&fs, &decl) {
                    top.insert(j, (k, fs));
                    scopes.push(top);
                    self.scopes = scopes;
                    proof {
                        assert(top@ =~= before);
                        assert(final(self)@ =~= old(self)@);
                        assert(top_m[j as int].1 == entry);
                        assert(fun_entry(top_m, id@) == entry);
                    }
                    return Err(Error::DuplicateFunction(id));
                }
                fs.push(decl);
                proof {
                    assert(fns_model(fs@) =~= entry.push(d));
                }
                top.insert(j, (k, fs));
                scopes.push(top);
                    self.scopes = scopes;
                proof {
                    assert(fun_scope_model(top@) =~= top_m.update(j as int, (id@, entry.push(d))));
                    assert(final(self)@ =~= old(self)@.drop_last().push(
                        assoc_put(top_m, id@, entry.push(d)),
                    ));
                }
                Ok(())
            },
            None => {
                proof { lemma_assoc_no_match(top_m, id@); }
                let mut fs: Vec<FnDeclaration> = Vec::new();
                fs.push(decl);
                proof {
                    assert(fns_model(fs@) =~= Seq::<SFn>::empty().push(d));
                }
                top.push((id, fs));
                scopes.push(top);
                    self.scopes = scopes;
                proof {
                    assert(fun_scope_model(top@) =~= top_m.push((id@, Seq::<SFn>::empty().push(d))));
                    assert(final(self)@ =~= old(self)@.drop_last().push(
                        assoc_put(top_m, id@, Seq::<SFn>::empty().push(d)),
                    ));
                }
                Ok(())
            },
        }
    }

    /// The overloads of `id` in the innermost scope that declares it.
    pub fn lookup_overloads(&self, id: &str) -> (r: Result<Vec<FnDeclaration>, Error>)
        ensures
            match stack_get(self@, id@) {
                Some(fs) => r matches Ok(v) && fns_model(v@) == fs,
                None => r matches Err(Error::FunctionNotFound(n)) && n@ == id@,
            },
    {
        let key = id.to_owned();
        let mut i = self.scopes.len();
        while i > 0
            invariant
                i <= self.scopes@.len(),
                key@ == id@,
                forall|k: int| i <= k < self@.len() ==> assoc_get(#[trigger] self@[k], id@) is None,
            decreases i,
        {
            i = i - 1;
            let scope = &self.scopes[i];
            match assoc_find(scope, &key) {
                Some(j) => {
                    proof {
                        let m = self@[i as int];
                        assert(m == fun_scope_model(scope@));
                        lemma_assoc_last_match(m, id@, j as int, Seq::<SFn>::empty());
                        lemma_stack_innermost(self@, id@, i as int);
                    }
                    return Ok(duplicate_fns(&scope[j].1));
                },
                None => {
                    proof {
                        let m = self@[i as int];
                        assert(m == fun_scope_model(scope@));
                        lemma_assoc_no_match(m, id@);
                    }
                },
            }
        }
        proof { lemma_stack_unbound(self@, id@); }
        Err(Error::FunctionNotFound(key))
    }
}


/// Whether `name` is the name of the built-in `println!`.
pub fn is_println(name: &String) -> (r: bool)
    ensures
        r == (name@ == "println!"@),
{
    let p = String::from_str("println!");
    *name == p
}

/// Whether `name` is the name of the built-in `assert_eq!`.
pub fn is_assert_eq(name: &String) -> (r: bool)
    ensures
        r == (name@ == "assert_eq!"@),
{
    let p = String::from_str("assert_eq!");
    *name == p
}

/// Whether `name` is `main`.
pub fn is_main(name: &String) -> (r: bool)
    ensures
        r == (name@ == "main"@),
{
    let p = String::from_str("main");
    *name == p
}

fn binop_type_exec(op: BinOp, lt: Type, rt: Type) -> (r: Result<Type, Error>)
    ensures
        ty_res(r) == binop_type(op, lt, rt),
{
    match op {
        BinOp::Eq => if lt.same(&rt) {
            Ok(Type::Bool)
        } else {
            Err(Error::IncomparableTypes(lt, rt))
        },
        _ => {
            let is_logic = op == BinOp::And || op == BinOp::Or;
            let operand = if is_logic { Type::Bool } else { Type::I32 };
            let arith = op == BinOp::Add || op == BinOp::Sub || op == BinOp::Mul || op == BinOp::Div;
            let result = if arith { Type::I32 } else { Type::Bool };
            if !lt.same(&operand) {
                return Err(Error::TypeMismatch(operand, lt));
            }
            if !rt.same(&operand) {
                return Err(Error::TypeMismatch(operand, rt));
            }
            Ok(result)
        },
    }
}

fn unop_type_exec(op: UnOp, t: Type) -> (r: Result<Type, Error>)
    ensures
        ty_res(r) == unop_type(op, t),
{
    match op {
        UnOp::Neg => if t.same(&Type::I32) {
            Ok(Type::I32)
        } else {
            Err(Error::TypeMismatch(Type::I32, t))
        },
        UnOp::Bang => if t.same(&Type::Bool) {
            Ok(Type::Bool)
        } else {
            Err(Error::TypeMismatch(Type::Bool, t))
        },
        UnOp::Deref => match t {
            Type::Ref(inner, _) => Ok(*inner),
            other => Err(Error::DerefNonRefType(other)),
        },
    }
}

/// Whether the parameter types of `f` are exactly `tys`.
fn params_match(f: &FnDeclaration, tys: &Vec<Type>) -> (r: bool)
    ensures
        r == (param_types(fn_model(*f).params) == tys@),
{
    let ps = &f.parameters.0;
    let ghost pt = param_types(fn_model(*f).params);
    assert(pt.len() == ps@.len());
    if ps.len() != tys.len() {
        return false;
    }
    let n = ps.len();
    for i in 0..n
        invariant
            n == ps@.len(),
            n == tys@.len(),
            *ps == f.parameters.0,
            pt == param_types(fn_model(*f).params),
            pt.len() == n,
            forall|j: int| 0 <= j < i ==> pt[j] == tys@[j],
    {
        assert(pt[i as int] == ps@[i as int].ty);
        if !ps[i].ty.same(&tys[i]) {
            return false;
        }
    }
    assert(pt =~= tys@);
    true
}

fn exact_matches_exec(fs: &Vec<FnDeclaration>, tys: &Vec<Type>) -> (r: Vec<FnDeclaration>)
    ensures
        fns_model(r@) == exact_matches(fns_model(fs@), tys@),
{
    let ghost m = fns_model(fs@);
    let mut out: Vec<FnDeclaration> = Vec::new();
    let n = fs.len();
    assert(m.take(0) =~= Seq::<SFn>::empty());
    assert(fns_model(out@) =~= Seq::<SFn>::empty());
    for i in 0..n
        invariant
            n == fs@.len(),
            m == fns_model(fs@),
            fns_model(out@) == exact_matches(m.take(i as int), tys@),
    {
        assert(m.take(i + 1).drop_last() =~= m.take(i as int));
        assert(m.take(i + 1).last() == fn_model(fs@[i as int]));
        if params_match(&fs[i], tys) {
            let ghost before = out@;
            out.push(fs[i].duplicate());
            assert(fns_model(out@) =~= fns_model(before).push(fn_model(fs@[i as int])));
        }
    }
    assert(m.take(n as int) =~= m);
    out
}

fn resolve_overload_exec(name: &String, fs: &Vec<FnDeclaration>, tys: &Vec<Type>) -> (r: Result<Type, Error>)
    ensures
        ty_res(r) == resolve_overload(name@, fns_model(fs@), tys@),
{
    let ms = exact_matches_exec(fs, tys);
    if ms.len() == 0 {
        Err(Error::NoMatchingOverload(name.clone()))
    } else if ms.len() > 1 {
        Err(Error::AmbiguousCall(name.clone()))
    } else {
        assert(fns_model(ms@)[0] == fn_model(ms@[0]));
        match &ms[0].ty {
            Some(t) => Ok(t.duplicate()),
            None => Ok(Type::Unit),
        }
    }
}

proof fn lemma_tc_exprs_err(st: TcState, m: Seq<SExpr>, k: int)
    requires
        1 <= k <= m.len(),
        tc_exprs(st, m.take(k)).1 is Err,
    ensures
        tc_exprs(st, m) == tc_exprs(st, m.take(k)),
    decreases m.len() - k,
{
    if k < m.len() {
        assert(m.take(k + 1).drop_last() =~= m.take(k));
        lemma_tc_exprs_err(st, m, k + 1);
    } else {
        assert(m.take(k) =~= m);
    }
}

proof fn lemma_tc_stmts_err(st: TcState, m: Seq<SStmt>, k: int)
    requires
        1 <= k <= m.len(),
        tc_stmts(st, m.take(k)).1 is Err,
    ensures
        tc_stmts(st, m) == tc_stmts(st, m.take(k)),
    decreases m.len() - k,
{
    if k < m.len() {
        assert(m.take(k + 1).drop_last() =~= m.take(k));
        lemma_tc_stmts_err(st, m, k + 1);
    } else {
        assert(m.take(k) =~= m);
    }
}

proof fn lemma_tc_hoist_err(sc: FunScopes, m: Seq<SStmt>, k: int)
    requires
        1 <= k <= m.len(),
        tc_hoist(sc, m.take(k)).1 is Err,
    ensures
        tc_hoist(sc, m) == tc_hoist(sc, m.take(k)),
    decreases m.len() - k,
{
    if k < m.len() {
        assert(m.take(k + 1).drop_last() =~= m.take(k));
        lemma_tc_hoist_err(sc, m, k + 1);
    } else {
        assert(m.take(k) =~= m);
    }
}

proof fn lemma_insert_all_err(sc: FunScopes, m: Seq<SFn>, k: int)
    requires
        1 <= k <= m.len(),
        fun_insert_all(sc, m.take(k)).1 is Err,
    ensures
        fun_insert_all(sc, m) == fun_insert_all(sc, m.take(k)),
    decreases m.len() - k,
{
    if k < m.len() {
        assert(m.take(k + 1).drop_last() =~= m.take(k));
        lemma_insert_all_err(sc, m, k + 1);
    } else {
        assert(m.take(k) =~= m);
    }
}

proof fn lemma_tc_fns_err(st: TcState, m: Seq<SFn>, k: int)
    requires
        1 <= k <= m.len(),
        tc_fns(st, m.take(k)).1 is Err,
    ensures
        tc_fns(st, m) == tc_fns(st, m.take(k)),
    decreases m.len() - k,
{
    if k < m.len() {
        assert(m.take(k + 1).drop_last() =~= m.take(k));
        lemma_tc_fns_err(st, m, k + 1);
    } else {
        assert(m.take(k) =~= m);
    }
}

/// The static type checker: variable scopes with types and mutability,
/// and function scopes with overloads.
pub struct TypeChecker {
    env: TypeEnv,
    funs: FunEnv,
}

impl View for TypeChecker {
    type V = TcState;

    closed spec fn view(&self) -> TcState {
        TcState { vars: self.env@, funs: self.funs@ }
    }
}

impl Default for TypeChecker {
    fn default() -> (tc: Self)
        ensures
            tc@ == tc_init(),
    {
        TypeChecker::new()
    }
}

impl TypeChecker {
    pub fn new() -> (tc: Self)
        ensures
            tc@ == tc_init(),
    {
        TypeChecker { env: TypeEnv::new(), funs: FunEnv::new() }
    }

    /// The numbers of variable and function scopes: each at least one, the
    /// global scope, so that a declaration always has a scope to go to.
    pub fn scope_depths(&self) -> (r: (usize, usize))
        ensures
            r.0 == self@.vars.len(),
            r.1 == self@.funs.len(),
            r.0 >= 1,
            r.1 >= 1,
    {
        (self.env.depth(), self.funs.depth())
    }

    /// `got` must be `expected`; the result is `expected`.
    pub fn unify(&self, got: Type, expected: Type) -> (r: Result<Type, Error>)
        ensures
            ty_res(r) == unify_spec(got, expected),
    {
        if got.same(&expected) {
            Ok(expected)
        } else {
            Err(Error::TypeMismatch(expected, got))
        }
    }

    pub fn type_of_literal(&self, lit: &Literal) -> (t: Type)
        ensures
            t == lit_type(lit_model(*lit)),
    {
        match lit {
            Literal::Int(_) => Type::I32,
            Literal::Bool(_) => Type::Bool,
            Literal::String(_) => Type::String,
            Literal::Unit => Type::Unit,
        }
    }

    fn check_args(&mut self, args: &Vec<Expr>) -> (r: Result<Vec<Type>, Error>)
        ensures
            match tc_exprs(old(self)@, exprs_model(args@)) {
                (s, Ok(ts)) => r matches Ok(v) && v@ == ts && final(self)@ == s,
                (s, Err(e)) => r matches Err(x) && error_model(x) == e && final(self)@ == s,
            },
        decreases args, 0nat,
    {
        let ghost m = exprs_model(args@);
        proof { lemma_exprs_model(args@); }
        let mut out: Vec<Type> = Vec::new();
        let n = args.len();
        assert(m.take(0) =~= Seq::<SExpr>::empty());
        for i in 0..n
            invariant
                n == args@.len(),
                m == exprs_model(args@),
                m.len() == n,
                forall|j: int| 0 <= j < n ==> #[trigger] m[j] == expr_model(args@[j]),
                tc_exprs(old(self)@, m.take(i as int)) == (self@, Ok::<Seq<Type>, SError>(out@)),
        {
            assert(m.take(i + 1).drop_last() =~= m.take(i as int));
            assert(m.take(i + 1).last() == args@[i as int]@);
            match self.check_expr(&args[i]) {
                Ok(t) => {
                    out.push(t);
                },
                Err(e) => {
                    proof { lemma_tc_exprs_err(old(self)@, m, (i + 1) as int); }
                    return Err(e);
                },
            }
        }
        assert(m.take(n as int) =~= m);
        Ok(out)
    }

    pub fn check_expr(&mut self, expr: &Expr) -> (r: Result<Type, Error>)
        ensures
            (final(self)@, ty_res(r)) == tc_expr(old(self)@, expr@),
        decreases expr, 1nat,
    {
        match expr {
            Expr::Ident(id) => self.env.lookup_type(id.as_str()),
            Expr::Lit(lit) => Ok(self.type_of_literal(lit)),
            Expr::Par(e) => self.check_expr(e),
            Expr::BinOp(op, l, r) => {
                let lt = match self.check_expr(l) {
                    Ok(t) => t,
                    Err(e) => return Err(e),
                };
                let rt = match self.check_expr(r) {
                    Ok(t) => t,
                    Err(e) => return Err(e),
                };
                binop_type_exec(*op, lt, rt)
            },
            Expr::UnOp(op, e) => {
                let t = match self.check_expr(e) {
                    Ok(t) => t,
                    Err(e) => return Err(e),
                };
                unop_type_exec(*op, t)
            },
            Expr::Call(name, args) => {
                if is_println(name) {
                    match self.check_args(&args.0) {
                        Ok(_) => Ok(Type::Unit),
                        Err(e) => Err(e),
                    }
                } else if is_assert_eq(name) {
                    let tys = match self.check_args(&args.0) {
                        Ok(v) => v,
                        Err(e) => return Err(e),
                    };
                    if tys.len() != 2 {
                        return Err(Error::ArgCount(name.clone(), 2, tys.len()));
                    }
                    match binop_type_exec(BinOp::Eq, tys[0].duplicate(), tys[1].duplicate()) {
                        Ok(_) => Ok(Type::Unit),
                        Err(e) => Err(e),
                    }
                } else {
                    let overloads = match self.funs.lookup_overloads(name.as_str()) {
                        Ok(v) => v,
                        Err(e) => return Err(e),
                    };
                    let tys = match self.check_args(&args.0) {
                        Ok(v) => v,
                        Err(e) => return Err(e),
                    };
                    resolve_overload_exec(name, &overloads, &tys)
                }
            },
            Expr::IfThenElse(c, t, eo) => {
                let ct = match self.check_expr(c) {
                    Ok(t) => t,
                    Err(e) => return Err(e),
                };
                match self.unify(ct, Type::Bool) {
                    Ok(_) => {},
                    Err(e) => return Err(e),
                }
                let tt = match self.check_block(t) {
                    Ok(t) => t,
                    Err(e) => return Err(e),
                };
                match eo {
                    Some(eb) => {
                        let et = match self.check_block(eb) {
                            Ok(t) => t,
                            Err(e) => return Err(e),
                        };
                        if tt.same(&et) {
                            Ok(tt)
                        } else {
                            Err(Error::BranchMismatch(tt, et))
                        }
                    },
                    None => match self.unify(tt, Type::Unit) {
                        Ok(_) => Ok(Type::Unit),
                        Err(e) => Err(e),
                    },
                }
            },
            Expr::Block(b) => self.check_block(b),
            Expr::Ref(inner, m) => match self.check_expr(inner) {
                Ok(t) => Ok(Type::Ref(Box::new(t), *m)),
                Err(e) => Err(e),
            },
        }
    }

    pub fn check_stmt(&mut self, stmt: &Statement) -> (r: Result<Type, Error>)
        ensures
            (final(self)@, ty_res(r)) == tc_stmt(old(self)@, stmt_model(*stmt)),
        decreases stmt, 1nat,
    {
        proof { reveal_with_fuel(expr_model, 2); }
        match stmt {
            Statement::Let(m, id, ty_opt, init) => match ty_opt {
                Some(at) => {
                    match init {
                        Some(e) => {
                            let it = match self.check_expr(e) {
                                Ok(t) => t,
                                Err(x) => return Err(x),
                            };
                            match self.unify(it, at.duplicate()) {
                                Ok(_) => {},
                                Err(x) => return Err(x),
                            }
                        },
                        None => {},
                    }
                    let _ = self.env.insert(id.clone(), at.duplicate(), *m);
                    Ok(Type::Unit)
                },
                None => match init {
                    Some(e) => {
                        let it = match self.check_expr(e) {
                            Ok(t) => t,
                            Err(x) => return Err(x),
                        };
                        let _ = self.env.insert(id.clone(), it, *m);
                        Ok(Type::Unit)
                    },
                    None => Err(Error::UninitNoType(id.clone())),
                },
            },
            Statement::Assign(lhs, rhs) => match lhs {
                Expr::Ident(name) => {
                    let (lty, mutbl) = match self.env.lookup_var(name.as_str()) {
                        Ok(p) => p,
                        Err(x) => return Err(x),
                    };
                    if !mutbl.0 {
                        return Err(Error::AssignImmutable(name.clone()));
                    }
                    let rty = match self.check_expr(rhs) {
                        Ok(t) => t,
                        Err(x) => return Err(x),
                    };
                    match self.unify(rty, lty) {
                        Ok(_) => Ok(Type::Unit),
                        Err(x) => Err(x),
                    }
                },
                Expr::UnOp(UnOp::Deref, inner) => match &**inner {
                    Expr::Ident(name) => {
                        let (vty, _vmut) = match self.env.lookup_var(name.as_str()) {
                            Ok(p) => p,
                            Err(x) => return Err(x),
                        };
                        match vty {
                            Type::Ref(bt, rm) => {
                                if !rm.0 {
                                    return Err(Error::AssignThroughImmutableRef(name.clone()));
                                }
                                let rty = match self.check_expr(rhs) {
                                    Ok(t) => t,
                                    Err(x) => return Err(x),
                                };
                                match self.unify(rty, *bt) {
                                    Ok(_) => Ok(Type::Unit),
                                    Err(x) => Err(x),
                                }
                            },
                            _ => Err(Error::NotAReference(name.clone())),
                        }
                    },
                    _ => Err(Error::AssignDerefNonIdent),
                },
                _ => Err(Error::AssignNonIdent),
            },
            Statement::While(c, body) => {
                let ct = match self.check_expr(c) {
                    Ok(t) => t,
                    Err(x) => return Err(x),
                };
                match self.unify(ct, Type::Bool) {
                    Ok(_) => {},
                    Err(x) => return Err(x),
                }
                match self.check_block(body) {
                    Ok(_) => Ok(Type::Unit),
                    Err(x) => Err(x),
                }
            },
            Statement::Expr(e) => self.check_expr(e),
            Statement::Fn(f) => match self.check_fn(f) {
                Ok(()) => Ok(Type::Unit),
                Err(x) => Err(x),
            },
        }
    }

    pub fn check_block(&mut self, block: &Block) -> (r: Result<Type, Error>)
        ensures
            (final(self)@, ty_res(r)) == tc_block(old(self)@, block_model(*block)),
        decreases block, 1nat,
    {
        let ghost ss = stmts_model(block.statements@);
        proof { lemma_stmts_model(block.statements@); }
        self.env.push();
        self.funs.push();
        let ghost s0 = self@;
        let n = block.statements.len();
        assert(ss.take(0) =~= Seq::<SStmt>::empty());
        for i in 0..n
            invariant
                n == block.statements@.len(),
                ss == stmts_model(block.statements@),
                ss.len() == n,
                forall|j: int| 0 <= j < n ==> #[trigger] ss[j] == stmt_model(block.statements@[j]),
                self@.vars == s0.vars,
                s0 == (TcState {
                    vars: old(self)@.vars.push(Assoc::empty()),
                    funs: old(self)@.funs.push(Assoc::empty()),
                }),
                block_model(*block) == (SBlock { stmts: ss, semi: block.semi }),
                tc_hoist(s0.funs, ss.take(i as int)) == (self@.funs, Ok::<(), SError>(())),
        {
            assert(ss.take(i + 1).drop_last() =~= ss.take(i as int));
            assert(ss.take(i + 1).last() == stmt_model(block.statements@[i as int]));
            match &block.statements[i] {
                Statement::Fn(fd) => {
                    match self.funs.insert(fd.id.clone(), fd.duplicate()) {
                        Ok(()) => {},
                        Err(e) => {
                            proof { lemma_tc_hoist_err(s0.funs, ss, (i + 1) as int); }
                            return Err(e);
                        },
                    }
                },
                _ => {},
            }
        }
        assert(ss.take(n as int) =~= ss);
        let ghost s1 = self@;
        let mut last = Type::Unit;
        assert(ss.take(0) =~= Seq::<SStmt>::empty());
        for i in 0..n
            invariant
                n == block.statements@.len(),
                ss == stmts_model(block.statements@),
                ss.len() == n,
                forall|j: int| 0 <= j < n ==> #[trigger] ss[j] == stmt_model(block.statements@[j]),
                s1 == with_funs(s0, tc_hoist(s0.funs, ss).0),
                s0 == (TcState {
                    vars: old(self)@.vars.push(Assoc::empty()),
                    funs: old(self)@.funs.push(Assoc::empty()),
                }),
                tc_hoist(s0.funs, ss).1 is Ok,
                block_model(*block) == (SBlock { stmts: ss, semi: block.semi }),
                tc_stmts(s1, ss.take(i as int)) == (self@, Ok::<Type, SError>(last)),
        {
            assert(ss.take(i + 1).drop_last() =~= ss.take(i as int));
            assert(ss.take(i + 1).last() == stmt_model(block.statements@[i as int]));
            match self.check_stmt(&block.statements[i]) {
                Ok(t) => {
                    last = t;
                },
                Err(e) => {
                    proof { lemma_tc_stmts_err(s1, ss, (i + 1) as int); }
                    return Err(e);
                },
            }
        }
        assert(ss.take(n as int) =~= ss);
        match self.funs.pop() {
            Ok(()) => {},
            Err(e) => return Err(e),
        }
        match self.env.pop() {
            Ok(()) => {},
            Err(e) => return Err(e),
        }
        if block.semi {
            Ok(Type::Unit)
        } else {
            Ok(last)
        }
    }

    fn check_fn(&mut self, f: &FnDeclaration) -> (r: Result<(), Error>)
        ensures
            (final(self)@, unit_res(r)) == tc_fn(old(self)@, fn_model(*f)),
        decreases f, 1nat,
    {
        let ghost sf = fn_model(*f);
        self.env.push();
        let ps = &f.parameters.0;
        let n = ps.len();
        let ghost v0 = old(self)@.vars.push(Assoc::empty());
        assert(sf.params.take(0) =~= Seq::<SParam>::empty());
        for i in 0..n
            invariant
                n == ps@.len(),
                *ps == f.parameters.0,
                sf == fn_model(*f),
                sf.params.len() == n,
                self@.funs == old(self)@.funs,
                self@.vars == declare_params(v0, sf.params.take(i as int)),
        {
            assert(sf.params.take(i + 1).drop_last() =~= sf.params.take(i as int));
            assert(sf.params.take(i + 1).last() == param_model(ps@[i as int]));
            let p = &ps[i];
            let _ = self.env.insert(p.id.clone(), p.ty.duplicate(), p.mutable);
        }
        assert(sf.params.take(n as int) =~= sf.params);
        let bt = match self.check_block(&f.body) {
            Ok(t) => t,
            Err(e) => return Err(e),
        };
        match &f.ty {
            Some(rt) => match self.unify(bt, rt.duplicate()) {
                Ok(_) => {},
                Err(e) => return Err(e),
            },
            None => {},
        }
        self.env.pop()
    }

    /// Declares all functions of the program, then checks each of them.
    pub fn check_prog(&mut self, prog: &Prog) -> (r: Result<(), Error>)
        ensures
            (final(self)@, unit_res(r)) == tc_prog(old(self)@, fns_model(prog.0@)),
    {
        let ghost m = fns_model(prog.0@);
        let n = prog.0.len();
        let ghost f0 = old(self)@.funs;
        assert(m.take(0) =~= Seq::<SFn>::empty());
        for i in 0..n
            invariant
                n == prog.0@.len(),
                m == fns_model(prog.0@),
                f0 == old(self)@.funs,
                self@.vars == old(self)@.vars,
                fun_insert_all(f0, m.take(i as int)) == (self@.funs, Ok::<(), SError>(())),
        {
            assert(m.take(i + 1).drop_last() =~= m.take(i as int));
            assert(m.take(i + 1).last() == fn_model(prog.0@[i as int]));
            let fd = &prog.0[i];
            match self.funs.insert(fd.id.clone(), fd.duplicate()) {
                Ok(()) => {},
                Err(e) => {
                    proof { lemma_insert_all_err(f0, m, (i + 1) as int); }
                    return Err(e);
                },
            }
        }
        assert(m.take(n as int) =~= m);
        let ghost s1 = self@;
        assert(m.take(0) =~= Seq::<SFn>::empty());
        for i in 0..n
            invariant
                n == prog.0@.len(),
                m == fns_model(prog.0@),
                s1 == with_funs(old(self)@, fun_insert_all(f0, m).0),
                f0 == old(self)@.funs,
                fun_insert_all(f0, m).1 is Ok,
                tc_fns(s1, m.take(i as int)) == (self@, Ok::<(), SError>(())),
        {
            assert(m.take(i + 1).drop_last() =~= m.take(i as int));
            assert(m.take(i + 1).last() == fn_model(prog.0@[i as int]));
            match self.check_fn(&prog.0[i]) {
                Ok(()) => {},
                Err(e) => {
                    proof { lemma_tc_fns_err(s1, m, (i + 1) as int); }
                    return Err(e);
                },
            }
        }
        assert(m.take(n as int) =~= m);
        Ok(())
    }
}

impl crate::common::Eval<Type> for Expr {
    open spec fn evaluates_to(&self, r: Result<Type, Error>) -> bool {
        ty_res(r) == tc_expr(tc_init(), self@).1
    }

    /// The type of the expression, checked in a fresh checker.
    fn eval(&self) -> (r: Result<Type, Error>) {
        let mut tc = TypeChecker::new();
        tc.check_expr(self)
    }
}

impl crate::common::Eval<Type> for Block {
    open spec fn evaluates_to(&self, r: Result<Type, Error>) -> bool {
        ty_res(r) == tc_block(tc_init(), self@).1
    }

    /// The type of the block, checked in a fresh checker.
    fn eval(&self) -> (r: Result<Type, Error>) {
        let mut tc = TypeChecker::new();
        tc.check_block(self)
    }
}

impl crate::common::Eval<Type> for Prog {
    open spec fn evaluates_to(&self, r: Result<Type, Error>) -> bool {
        match tc_prog(tc_init(), self@).1 {
            Ok(_) => r == Ok::<Type, Error>(Type::Unit),
            Err(e) => r matches Err(x) && error_model(x) == e,
        }
    }

    /// Checks the program in a fresh checker; its type is unit.
    fn eval(&self) -> (r: Result<Type, Error>) {
        let mut tc = TypeChecker::new();
        match tc.check_prog(self) {
            Ok(()) => Ok(Type::Unit),
            Err(e) => Err(e),
        }
    }
}

} // verus!
