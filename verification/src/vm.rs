use crate::ast::{
    block_model, expr_model, exprs_model, fn_model, lemma_exprs_model, lit_model, param_model,
    params_model, stmt_model, stmts_model, Arguments, BinOp, Block, Expr, FnDeclaration, Literal, Mutable, Parameter, Parameters,
    Prog, SBlock, SExpr, SFn, SLit, SParam, SStmt, Statement, Type, UnOp,
};
use crate::env::{env_insert, env_insert_overload, env_lookup, env_update, Env, Scope};
use crate::error::{error_model, Error, SError};
use crate::intrinsics::{println_decl, println_text, Intrinsic};
use vstd::prelude::*;

verus! {

/// Runtime values of the interpreter.
#[derive(Debug, PartialEq)]
pub enum Val {
    Lit(Literal),
    /// A variable declared with `let x;` and not yet assigned.
    UnInit,
    /// The content of a mutable binding.
    Mut(Box<Val>),
    Fun(FnDeclaration),
    Overloads(Vec<FnDeclaration>),
    /// A reference to a value that is not a named variable.
    RefVal(Box<Val>),
    /// A reference to the named variable; the flag tells whether it is `&mut`.
    RefName(String, bool),
    Intrinsic(Intrinsic),
}

/// Model of a runtime value.
pub enum SVal {
    Lit(SLit),
    UnInit,
    Mut(Box<SVal>),
    Fun(SFn),
    Overloads(Seq<SFn>),
    RefVal(Box<SVal>),
    RefName(Seq<char>, bool),
    Intrinsic(Intrinsic),
}

pub open spec fn fns_model(s: Seq<FnDeclaration>) -> Seq<SFn> {
    s.map_values(|f: FnDeclaration| fn_model(f))
}

pub open spec fn val_model(v: Val) -> SVal
    decreases v,
{
    match v {
        Val::Lit(l) => SVal::Lit(lit_model(l)),
        Val::UnInit => SVal::UnInit,
        Val::Mut(b) => SVal::Mut(Box::new(val_model(*b))),
        Val::Fun(f) => SVal::Fun(fn_model(f)),
        Val::Overloads(v) => SVal::Overloads(fns_model(v@)),
        Val::RefVal(b) => SVal::RefVal(Box::new(val_model(*b))),
        Val::RefName(n, m) => SVal::RefName(n@, m),
        Val::Intrinsic(i) => SVal::Intrinsic(i),
    }
}


// ---------------------------------------------------------------------
// Semantics of the language: a big-step evaluator over the models. The
// evaluation budget `f` bounds the nesting of function calls and the
// number of loop iterations; when it runs out the result is `OutOfFuel`.
// ---------------------------------------------------------------------

/// The evaluation budget that the public entry points use.
pub const FUEL: u64 = 18446744073709551615;

/// Model of the interpreter's state: its scopes and what `println!` printed.
pub struct VmState {
    pub env: Seq<Scope>,
    pub out: Seq<char>,
}

pub type SRes = Result<SVal, SError>;

pub open spec fn unit_val() -> SVal {
    SVal::Lit(SLit::Unit)
}

pub open spec fn bool_val(b: bool) -> SVal {
    SVal::Lit(SLit::Bool(b))
}

pub open spec fn lookup_res(env: Seq<Scope>, name: Seq<char>) -> Result<SVal, SError> {
    match env_lookup(env, name) {
        Some(v) => Ok(v),
        None => Err(SError::VarNotFound(name)),
    }
}

/// The content of a mutable binding, or the value itself.
pub open spec fn strip_mut(v: SVal) -> SVal {
    match v {
        SVal::Mut(b) => *b,
        _ => v,
    }
}

pub open spec fn sem_get_bool(v: SVal) -> Result<bool, SError> {
    match v {
        SVal::Lit(SLit::Bool(b)) => Ok(b),
        _ => Err(SError::NotBool(v)),
    }
}

pub open spec fn sem_get_int(v: SVal) -> Result<i32, SError> {
    match v {
        SVal::Lit(SLit::Int(i)) => Ok(i),
        _ => Err(SError::NotInt(v)),
    }
}

/// An integer result, or `Overflow` where it does not fit in 32 bits.
pub open spec fn int_res(x: int) -> SRes {
    if i32::MIN <= x <= i32::MAX {
        Ok(SVal::Lit(SLit::Int(x as i32)))
    } else {
        Err(SError::Overflow)
    }
}

/// Integer division rounding toward zero, as Rust's `/` does.
pub open spec fn trunc_div(a: int, b: int) -> int {
    let q = (if a < 0 { -a } else { a }) / (if b < 0 { -b } else { b });
    if (a < 0) != (b < 0) { -q } else { q }
}

/// What a binary operator gives for two evaluated operands.
pub open spec fn sem_binop(op: BinOp, l: SVal, r: SVal) -> SRes {
    match op {
        BinOp::Eq => match (l, r) {
            (SVal::Lit(SLit::Int(a)), SVal::Lit(SLit::Int(b))) => Ok(bool_val(a == b)),
            (SVal::Lit(SLit::Bool(a)), SVal::Lit(SLit::Bool(b))) => Ok(bool_val(a == b)),
            (SVal::Lit(SLit::Unit), SVal::Lit(SLit::Unit)) => Ok(bool_val(true)),
            (SVal::Lit(SLit::Str(a)), SVal::Lit(SLit::Str(b))) => Ok(bool_val(a == b)),
            _ => Err(SError::CannotCompare(l, r)),
        },
        BinOp::And | BinOp::Or => match sem_get_bool(l) {
            Err(e) => Err(e),
            Ok(a) => match sem_get_bool(r) {
                Err(e) => Err(e),
                Ok(b) => Ok(bool_val(if op == BinOp::And { a && b } else { a || b })),
            },
        },
        _ => match sem_get_int(l) {
            Err(e) => Err(e),
            Ok(a) => match sem_get_int(r) {
                Err(e) => Err(e),
                Ok(b) => match op {
                    BinOp::Add => int_res(a + b),
                    BinOp::Sub => int_res(a - b),
                    BinOp::Mul => int_res(a * b),
                    BinOp::Div => if b == 0 {
                        Err(SError::DivisionByZero)
                    } else {
                        int_res(trunc_div(a as int, b as int))
                    },
                    BinOp::Lt => Ok(bool_val(a < b)),
                    _ => Ok(bool_val(a > b)),
                },
            },
        },
    }
}

/// `*v`: the value a reference points to.
pub open spec fn sem_deref(env: Seq<Scope>, v: SVal) -> SRes {
    match v {
        SVal::RefVal(b) => Ok(strip_mut(*b)),
        SVal::RefName(name, _) => match lookup_res(env, name) {
            Ok(s) => Ok(strip_mut(s)),
            Err(e) => Err(e),
        },
        _ => Err(SError::DerefNonReference),
    }
}

pub open spec fn sem_unop(env: Seq<Scope>, op: UnOp, v: SVal) -> SRes {
    match op {
        UnOp::Neg => match sem_get_int(v) {
            Ok(i) => int_res(-i),
            Err(e) => Err(e),
        },
        UnOp::Bang => match sem_get_bool(v) {
            Ok(b) => Ok(bool_val(!b)),
            Err(e) => Err(e),
        },
        UnOp::Deref => sem_deref(env, v),
    }
}

/// `&x` / `&mut x` for a variable `x`: a reference by name.
pub open spec fn sem_ref_ident(env: Seq<Scope>, name: Seq<char>, m: bool) -> SRes {
    match lookup_res(env, name) {
        Err(e) => Err(e),
        Ok(stored) => if m {
            match stored {
                SVal::Mut(_) => Ok(SVal::RefName(name, true)),
                _ => Err(SError::MutRefToImmutable(name)),
            }
        } else {
            Ok(SVal::RefName(name, false))
        },
    }
}

/// Arguments handed to an intrinsic: references by name are replaced by the
/// stored value of the variable they name.
pub open spec fn resolve_refs(env: Seq<Scope>, args: Seq<SVal>) -> Result<Seq<SVal>, SError>
    decreases args.len(),
{
    if args.len() == 0 {
        Ok(Seq::empty())
    } else {
        match resolve_refs(env, args.drop_last()) {
            Err(e) => Err(e),
            Ok(vs) => match args.last() {
                SVal::RefName(n, _) => match lookup_res(env, n) {
                    Ok(s) => Ok(vs.push(s)),
                    Err(e) => Err(e),
                },
                v => Ok(vs.push(v)),
            },
        }
    }
}

/// `assert_eq!`: two arguments that `==` finds equal give unit; unequal
/// ones are an error that carries both, as is any other number of
/// arguments or a pair that `==` cannot compare.
pub open spec fn assert_eq_result(rs: Seq<SVal>) -> SRes {
    if rs.len() != 2 {
        Err(SError::ArgCount("assert_eq!"@, 2, rs.len() as usize))
    } else {
        match sem_binop(BinOp::Eq, rs[0], rs[1]) {
            Err(x) => Err(x),
            Ok(v) => if v == bool_val(true) {
                Ok(unit_val())
            } else {
                Err(SError::AssertEqFailed(rs[0], rs[1]))
            },
        }
    }
}

/// The runtime type of an argument, as overload resolution sees it.
#[derive(Debug, Clone, Copy, PartialEq, Eq, Structural)]
pub enum RtType {
    I32,
    Bool,
    Str,
    Unit,
    Ref,
}

pub open spec fn rt_type(v: SVal) -> Result<RtType, SError>
    decreases v,
{
    match v {
        SVal::Lit(SLit::Int(_)) => Ok(RtType::I32),
        SVal::Lit(SLit::Bool(_)) => Ok(RtType::Bool),
        SVal::Lit(SLit::Str(_)) => Ok(RtType::Str),
        SVal::Lit(SLit::Unit) => Ok(RtType::Unit),
        SVal::Mut(b) => rt_type(*b),
        SVal::RefVal(b) => rt_type(*b),
        SVal::RefName(_, _) => Ok(RtType::Ref),
        _ => Err(SError::UnknownArgType),
    }
}

pub open spec fn rt_types(vs: Seq<SVal>) -> Result<Seq<RtType>, SError>
    decreases vs.len(),
{
    if vs.len() == 0 {
        Ok(Seq::empty())
    } else {
        match rt_types(vs.drop_last()) {
            Err(e) => Err(e),
            Ok(ts) => match rt_type(vs.last()) {
                Err(e) => Err(e),
                Ok(t) => Ok(ts.push(t)),
            },
        }
    }
}

pub open spec fn param_rt(t: Type) -> RtType {
    match t {
        Type::I32 => RtType::I32,
        Type::Bool => RtType::Bool,
        Type::String => RtType::Str,
        Type::Unit => RtType::Unit,
        Type::Ref(_, _) => RtType::Ref,
    }
}

/// An overload accepts arguments of these runtime types: the counts agree
/// and each parameter type equals the argument's, or is a reference type.
pub open spec fn accepts(f: SFn, tys: Seq<RtType>) -> bool {
    &&& f.params.len() == tys.len()
    &&& forall|i: int|
        0 <= i < tys.len() ==> param_rt(#[trigger] f.params[i].ty) == tys[i] || param_rt(
            f.params[i].ty,
        ) == RtType::Ref
}

/// The overloads that accept the arguments, in declaration order.
pub open spec fn candidates(fs: Seq<SFn>, tys: Seq<RtType>) -> Seq<SFn>
    decreases fs.len(),
{
    if fs.len() == 0 {
        Seq::empty()
    } else {
        let p = candidates(fs.drop_last(), tys);
        if accepts(fs.last(), tys) {
            p.push(fs.last())
        } else {
            p
        }
    }
}

pub open spec fn param_value(p: SParam, v: SVal) -> SVal {
    if p.mutable {
        SVal::Mut(Box::new(v))
    } else {
        v
    }
}

/// The scopes after binding the first `n` parameters to the arguments.
pub open spec fn bind_params(env: Seq<Scope>, ps: Seq<SParam>, args: Seq<SVal>, n: int) -> Seq<Scope>
    decreases n,
{
    if n <= 0 {
        env
    } else {
        let e = bind_params(env, ps, args, n - 1);
        env_insert(e, ps[n - 1].id, param_value(ps[n - 1], args[n - 1]))
    }
}

/// The scopes after declaring the functions of a block (hoisting).
pub open spec fn hoist(env: Seq<Scope>, ss: Seq<SStmt>) -> Seq<Scope>
    decreases ss.len(),
{
    if ss.len() == 0 {
        env
    } else {
        let e = hoist(env, ss.drop_last());
        match ss.last() {
            SStmt::Fn(d) => env_insert_overload(e, d.id, d),
            _ => e,
        }
    }
}

pub open spec fn pop_env(env: Seq<Scope>) -> Option<Seq<Scope>> {
    if env.len() <= 1 {
        None
    } else {
        Some(env.drop_last())
    }
}

pub open spec fn with_env(st: VmState, env: Seq<Scope>) -> VmState {
    VmState { env, out: st.out }
}

/// Gives the variable `name` the value `v` in the scope that binds it.
pub open spec fn sem_update(st: VmState, name: Seq<char>, v: SVal) -> (VmState, SRes) {
    match env_update(st.env, name, v) {
        Some(e) => (with_env(st, e), Ok(unit_val())),
        None => (st, Err(SError::VarNotFoundForAssignment(name))),
    }
}

/// `name = v`: allowed for mutable variables and for a first assignment of
/// an uninitialized one.
pub open spec fn sem_assign_ident(st: VmState, name: Seq<char>, v: SVal) -> (VmState, SRes) {
    match lookup_res(st.env, name) {
        Err(e) => (st, Err(e)),
        Ok(cur) => match cur {
            SVal::Mut(_) => sem_update(st, name, SVal::Mut(Box::new(v))),
            SVal::UnInit => sem_update(st, name, v),
            _ => (st, Err(SError::AssignImmutable(name))),
        },
    }
}

/// `*name = v`: allowed through mutable references only.
pub open spec fn sem_assign_deref(st: VmState, name: Seq<char>, v: SVal) -> (VmState, SRes) {
    match lookup_res(st.env, name) {
        Err(e) => (st, Err(e)),
        Ok(SVal::RefVal(b)) => match *b {
            SVal::Mut(_) => sem_update(st, name, SVal::RefVal(Box::new(SVal::Mut(Box::new(v))))),
            _ => (st, Err(SError::AssignThroughImmutableRef(name))),
        },
        Ok(SVal::RefName(target, rm)) => if !rm {
            (st, Err(SError::AssignThroughImmutableRef(name)))
        } else {
            match lookup_res(st.env, target) {
                Err(e) => (st, Err(e)),
                Ok(SVal::Mut(_)) => sem_update(st, target, SVal::Mut(Box::new(v))),
                Ok(_) => (st, Err(SError::AssignThroughImmutableRef(target))),
            }
        },
        Ok(_) => (st, Err(SError::NotAReference(name))),
    }
}

/// Evaluation of an expression.
pub open spec fn sem_expr(f: nat, st: VmState, e: SExpr) -> (VmState, SRes)
    decreases f, e,
{
    match e {
        SExpr::Lit(l) => (st, Ok(SVal::Lit(l))),
        SExpr::Par(i) => sem_expr(f, st, *i),
        SExpr::Ref(i, m) => match *i {
            SExpr::Ident(name) => (st, sem_ref_ident(st.env, name, m)),
            _ => {
                let (s1, r) = sem_expr(f, st, *i);
                match r {
                    Err(x) => (s1, Err(x)),
                    Ok(v) => (s1, Ok(SVal::RefVal(Box::new(if m { SVal::Mut(Box::new(v)) } else { v })))),
                }
            },
        },
        SExpr::Ident(id) => (st, match lookup_res(st.env, id) {
            Ok(v) => Ok(strip_mut(v)),
            Err(x) => Err(x),
        }),
        SExpr::BinOp(op, l, r) => {
            let (s1, rl) = sem_expr(f, st, *l);
            match rl {
                Err(x) => (s1, Err(x)),
                Ok(lv) => if op == BinOp::And || op == BinOp::Or {
                    match sem_get_bool(lv) {
                        Err(x) => (s1, Err(x)),
                        Ok(b) => if (op == BinOp::And && !b) || (op == BinOp::Or && b) {
                            (s1, Ok(bool_val(b)))
                        } else {
                            let (s2, rr) = sem_expr(f, s1, *r);
                            match rr {
                                Err(x) => (s2, Err(x)),
                                Ok(rv) => (s2, match sem_get_bool(rv) {
                                    Ok(c) => Ok(bool_val(c)),
                                    Err(x) => Err(x),
                                }),
                            }
                        },
                    }
                } else {
                    let (s2, rr) = sem_expr(f, s1, *r);
                    match rr {
                        Err(x) => (s2, Err(x)),
                        Ok(rv) => (s2, sem_binop(op, lv, rv)),
                    }
                },
            }
        },
        SExpr::UnOp(op, i) => {
            let (s1, r) = sem_expr(f, st, *i);
            match r {
                Err(x) => (s1, Err(x)),
                Ok(v) => (s1, sem_unop(s1.env, op, v)),
            }
        },
        SExpr::IfThenElse(c, t, eo) => {
            let (s1, rc) = sem_expr(f, st, *c);
            match rc {
                Err(x) => (s1, Err(x)),
                Ok(cv) => match sem_get_bool(cv) {
                    Err(x) => (s1, Err(x)),
                    Ok(b) => if b {
                        sem_block(f, s1, t)
                    } else {
                        match eo {
                            Some(eb) => sem_block(f, s1, eb),
                            None => (s1, Ok(unit_val())),
                        }
                    },
                },
            }
        },
        SExpr::Block(b) => sem_block(f, st, b),
        SExpr::Call(name, args) => match lookup_res(st.env, name) {
            Err(x) => (st, Err(x)),
            Ok(SVal::Intrinsic(which)) => {
                let (s1, ra) = sem_exprs(f, st, args);
                match ra {
                    Err(x) => (s1, Err(x)),
                    Ok(vs) => match resolve_refs(s1.env, vs) {
                        Err(x) => (s1, Err(x)),
                        Ok(rs) => match which {
                            Intrinsic::Println => match println_text(rs) {
                                Ok(t) => (VmState { env: s1.env, out: s1.out + t }, Ok(unit_val())),
                                Err(x) => (s1, Err(x)),
                            },
                            Intrinsic::AssertEq => (s1, assert_eq_result(rs)),
                        },
                    },
                }
            },
            Ok(SVal::Fun(decl)) => if decl.params.len() != args.len() {
                (st, Err(SError::ArgCount(name, decl.params.len() as usize, args.len() as usize)))
            } else {
                let (s1, ra) = sem_exprs(f, st, args);
                match ra {
                    Err(x) => (s1, Err(x)),
                    Ok(vs) => if f == 0 {
                        (s1, Err(SError::OutOfFuel))
                    } else {
                        sem_call((f - 1) as nat, s1, decl, vs)
                    },
                }
            },
            Ok(SVal::Overloads(fs)) => {
                let (s1, ra) = sem_exprs(f, st, args);
                match ra {
                    Err(x) => (s1, Err(x)),
                    Ok(vs) => match rt_types(vs) {
                        Err(x) => (s1, Err(x)),
                        Ok(tys) => {
                            let c = candidates(fs, tys);
                            if c.len() == 0 {
                                (s1, Err(SError::NoMatchingOverload(name)))
                            } else if c.len() > 1 {
                                (s1, Err(SError::AmbiguousCall(name)))
                            } else if f == 0 {
                                (s1, Err(SError::OutOfFuel))
                            } else {
                                sem_call((f - 1) as nat, s1, c[0], vs)
                            }
                        },
                    },
                }
            },
            Ok(other) => (st, Err(SError::NotAFunction(other))),
        },
    }
}

/// Evaluation of arguments from left to right, stopping at the first error.
pub open spec fn sem_exprs(f: nat, st: VmState, es: Seq<SExpr>) -> (VmState, Result<Seq<SVal>, SError>)
    decreases f, es,
{
    if es.len() == 0 {
        (st, Ok(Seq::empty()))
    } else {
        let (s1, r1) = sem_exprs(f, st, es.drop_last());
        match r1 {
            Err(x) => (s1, Err(x)),
            Ok(vs) => {
                let (s2, r2) = sem_expr(f, s1, es.last());
                match r2 {
                    Err(x) => (s2, Err(x)),
                    Ok(v) => (s2, Ok(vs.push(v))),
                }
            },
        }
    }
}

/// A call: a new scope with the parameters bound, the body, and the scope
/// left again.
pub open spec fn sem_call(f: nat, st: VmState, decl: SFn, args: Seq<SVal>) -> (VmState, SRes)
    decreases f, decl,
{
    let n = if decl.params.len() <= args.len() { decl.params.len() as int } else { args.len() as int };
    let env1 = bind_params(st.env.push(Scope::empty()), decl.params, args, n);
    let (s2, r) = sem_block(f, with_env(st, env1), decl.body);
    match pop_env(s2.env) {
        None => (s2, Err(SError::PopGlobalScope)),
        Some(e) => (with_env(s2, e), r),
    }
}

/// A block: a new scope, its functions declared, its statements in order,
/// the scope left again; its value is that of the last statement unless the
/// block ends with `;`.
pub open spec fn sem_block(f: nat, st: VmState, b: SBlock) -> (VmState, SRes)
    decreases f, b,
{
    let s1 = with_env(st, hoist(st.env.push(Scope::empty()), b.stmts));
    let (s2, r) = sem_stmts(f, s1, b.stmts);
    match r {
        Err(x) => (s2, Err(x)),
        Ok(last) => match pop_env(s2.env) {
            None => (s2, Err(SError::PopGlobalScope)),
            Some(e) => (with_env(s2, e), Ok(if b.semi { unit_val() } else { last })),
        },
    }
}

/// Statements in order; the value is that of the last one (unit when there
/// are none).
pub open spec fn sem_stmts(f: nat, st: VmState, ss: Seq<SStmt>) -> (VmState, SRes)
    decreases f, ss,
{
    if ss.len() == 0 {
        (st, Ok(unit_val()))
    } else {
        let (s1, r1) = sem_stmts(f, st, ss.drop_last());
        match r1 {
            Err(x) => (s1, Err(x)),
            Ok(_) => sem_stmt(f, s1, ss.last()),
        }
    }
}

/// Execution of a statement.
pub open spec fn sem_stmt(f: nat, st: VmState, s: SStmt) -> (VmState, SRes)
    decreases f, s,
{
    match s {
        SStmt::Let(m, name, _, init) => {
            let (s1, r) = match init {
                Some(e) => sem_expr(f, st, e),
                None => (st, Ok(SVal::UnInit)),
            };
            match r {
                Err(x) => (s1, Err(x)),
                Ok(v) => (
                    with_env(s1, env_insert(s1.env, name, if m { SVal::Mut(Box::new(v)) } else { v })),
                    Ok(unit_val()),
                ),
            }
        },
        SStmt::Assign(lhs, rhs) => match lhs {
            SExpr::Ident(name) => {
                let (s1, r) = sem_expr(f, st, rhs);
                match r {
                    Err(x) => (s1, Err(x)),
                    Ok(v) => sem_assign_ident(s1, name, v),
                }
            },
            SExpr::UnOp(UnOp::Deref, inner) => match *inner {
                SExpr::Ident(name) => {
                    let (s1, r) = sem_expr(f, st, rhs);
                    match r {
                        Err(x) => (s1, Err(x)),
                        Ok(v) => sem_assign_deref(s1, name, v),
                    }
                },
                _ => (st, Err(SError::AssignDerefNonIdent)),
            },
            _ => (st, Err(SError::AssignNonIdent)),
        },
        SStmt::While(c, b) => {
            let (s1, rc) = sem_expr(f, st, c);
            match rc {
                Err(x) => (s1, Err(x)),
                Ok(cv) => match sem_get_bool(cv) {
                    Err(x) => (s1, Err(x)),
                    Ok(go) => if !go {
                        (s1, Ok(unit_val()))
                    } else {
                        let (s2, rb) = sem_block(f, s1, b);
                        match rb {
                            Err(x) => (s2, Err(x)),
                            Ok(_) => if f == 0 {
                                (s2, Err(SError::OutOfFuel))
                            } else {
                                sem_stmt((f - 1) as nat, s2, SStmt::While(c, b))
                            },
                        }
                    },
                },
            }
        },
        SStmt::Expr(e) => sem_expr(f, st, e),
        SStmt::Fn(_) => (st, Ok(unit_val())),
    }
}

/// The first function named `main`.
pub open spec fn find_main(fs: Seq<SFn>) -> Option<SFn>
    decreases fs.len(),
{
    if fs.len() == 0 {
        None
    } else if fs[0].id == "main"@ {
        Some(fs[0])
    } else {
        find_main(fs.skip(1))
    }
}

/// The scopes after declaring functions in order.
pub open spec fn hoist_fns(env: Seq<Scope>, fs: Seq<SFn>) -> Seq<Scope>
    decreases fs.len(),
{
    if fs.len() == 0 {
        env
    } else {
        env_insert_overload(hoist_fns(env, fs.drop_last()), fs.last().id, fs.last())
    }
}

/// A program: its functions declared, then the body of its first `main`.
pub open spec fn sem_prog(f: nat, st: VmState, fs: Seq<SFn>) -> (VmState, SRes) {
    let s1 = with_env(st, hoist_fns(st.env, fs));
    match find_main(fs) {
        None => (s1, Err(SError::MainNotFound)),
        Some(m) => sem_block(f, s1, m.body),
    }
}

impl View for Val {
    type V = SVal;

    open spec fn view(&self) -> SVal {
        val_model(*self)
    }
}

pub fn duplicate_fns(v: &Vec<FnDeclaration>) -> (r: Vec<FnDeclaration>)
    ensures
        fns_model(r@) == fns_model(v@),
{
    let mut out: Vec<FnDeclaration> = Vec::new();
    let n = v.len();
    for i in 0..n
        invariant
            n == v@.len(),
            out@.len() == i,
            forall|j: int| 0 <= j < i ==> fn_model(#[trigger] out@[j]) == fn_model(v@[j]),
    {
        out.push(v[i].duplicate());
    }
    assert(fns_model(out@) =~= fns_model(v@));
    out
}

impl Val {
    pub fn duplicate(&self) -> (r: Val)
        ensures
            r@ == self@,
        decreases self,
    {
        match self {
            Val::Lit(l) => Val::Lit(l.duplicate()),
            Val::UnInit => Val::UnInit,
            Val::Mut(b) => Val::Mut(Box::new(b.duplicate())),
            Val::Fun(f) => Val::Fun(f.duplicate()),
            Val::Overloads(v) => Val::Overloads(duplicate_fns(v)),
            Val::RefVal(b) => Val::RefVal(Box::new(b.duplicate())),
            Val::RefName(n, m) => Val::RefName(n.clone(), *m),
            Val::Intrinsic(i) => Val::Intrinsic(*i),
        }
    }
}


pub open spec fn res_model(r: Result<Val, Error>) -> SRes {
    match r {
        Ok(v) => Ok(v@),
        Err(e) => Err(error_model(e)),
    }
}

pub open spec fn vals_model(v: Seq<Val>) -> Seq<SVal> {
    v.map_values(|x: Val| x@)
}

impl Val {
    pub fn get_bool(&self) -> (r: Result<bool, Error>)
        ensures
            match sem_get_bool(self@) {
                Ok(b) => r == Ok::<bool, Error>(b),
                Err(e) => r matches Err(x) && error_model(x) == e,
            },
    {
        match self {
            Val::Lit(Literal::Bool(b)) => Ok(*b),
            _ => Err(Error::NotBool(self.duplicate())),
        }
    }

    pub fn get_int(&self) -> (r: Result<i32, Error>)
        ensures
            match sem_get_int(self@) {
                Ok(i) => r == Ok::<i32, Error>(i),
                Err(e) => r matches Err(x) && error_model(x) == e,
            },
    {
        match self {
            Val::Lit(Literal::Int(i)) => Ok(*i),
            _ => Err(Error::NotInt(self.duplicate())),
        }
    }
}

fn int_result(x: i64) -> (r: Result<Val, Error>)
    ensures
        res_model(r) == int_res(x as int),
{
    if x < -2147483648 || x > 2147483647 {
        Err(Error::Overflow)
    } else {
        Ok(Val::Lit(Literal::Int(x as i32)))
    }
}

impl BinOp {
    /// Applies the operator to two evaluated operands. `&&` and `||` are
    /// evaluated with short-circuit by the interpreter and are not taken here.
    pub fn eval(&self, left: Val, right: Val) -> (r: Result<Val, Error>)
        requires
            *self != BinOp::And,
            *self != BinOp::Or,
        ensures
            res_model(r) == sem_binop(*self, left@, right@),
    {
        match self {
            BinOp::Eq => match (&left, &right) {
                (Val::Lit(Literal::Int(a)), Val::Lit(Literal::Int(b))) => Ok(Val::Lit(Literal::Bool(*a == *b))),
                (Val::Lit(Literal::Bool(a)), Val::Lit(Literal::Bool(b))) => Ok(Val::Lit(Literal::Bool(*a == *b))),
                (Val::Lit(Literal::Unit), Val::Lit(Literal::Unit)) => Ok(Val::Lit(Literal::Bool(true))),
                (Val::Lit(Literal::String(a)), Val::Lit(Literal::String(b))) => Ok(Val::Lit(Literal::Bool(*a == *b))),
                _ => Err(Error::CannotCompare(left, right)),
            },
            _ => {
                let l = match left.get_int() {
                    Ok(i) => i,
                    Err(e) => return Err(e),
                };
                let r = match right.get_int() {
                    Ok(i) => i,
                    Err(e) => return Err(e),
                };
                match self {
                    BinOp::Add => int_result(l as i64 + r as i64),
                    BinOp::Sub => int_result(l as i64 - r as i64),
                    BinOp::Mul => {
                        assert(-2147483648 * 2147483648 <= l * r <= 2147483648 * 2147483648) by (nonlinear_arith)
                            requires -2147483648 <= l <= 2147483647, -2147483648 <= r <= 2147483647;
                        int_result(l as i64 * r as i64)
                    },
                    BinOp::Div => {
                        if r == 0 {
                            return Err(Error::DivisionByZero);
                        }
                        let a: i64 = if l < 0 { -(l as i64) } else { l as i64 };
                        let b: i64 = if r < 0 { -(r as i64) } else { r as i64 };
                        let q = a / b;
                        assert(0 <= q <= a) by (nonlinear_arith)
                            requires 0 <= a, 1 <= b, q == a / b;
                        let res = if (l < 0) != (r < 0) { -q } else { q };
                        int_result(res)
                    },
                    BinOp::Lt => Ok(Val::Lit(Literal::Bool(l < r))),
                    _ => Ok(Val::Lit(Literal::Bool(l > r))),
                }
            },
        }
    }
}

impl Clone for Val {
    fn clone(&self) -> (r: Self)
        ensures
            r@ == self@,
    {
        self.duplicate()
    }
}

pub open spec fn vec_res_model(r: Result<Vec<Val>, Error>) -> Result<Seq<SVal>, SError> {
    match r {
        Ok(v) => Ok(vals_model(v@)),
        Err(e) => Err(error_model(e)),
    }
}

/// The state of a fresh interpreter: one global scope in which the
/// built-ins `println!` and `assert_eq!` are bound, and nothing printed.
pub open spec fn vm_init() -> VmState {
    VmState {
        env: env_insert(
            env_insert(
                env_insert_overload(seq![Scope::empty()], "println!"@, println_decl()),
                "println!"@,
                SVal::Intrinsic(Intrinsic::Println),
            ),
            "assert_eq!"@,
            SVal::Intrinsic(Intrinsic::AssertEq),
        ),
        out: Seq::empty(),
    }
}

/// Checks the arguments of `assert_eq!`.
fn assert_eq_vals(rs: &Vec<Val>) -> (r: Result<Val, Error>)
    ensures
        res_model(r) == assert_eq_result(vals_model(rs@)),
{
    if rs.len() != 2 {
        return Err(Error::ArgCount(String::from_str("assert_eq!"), 2, rs.len()));
    }
    let a = rs[0].duplicate();
    let b = rs[1].duplicate();
    match BinOp::Eq.eval(a, b) {
        Err(e) => Err(e),
        Ok(v) => match v {
            Val::Lit(Literal::Bool(true)) => Ok(Val::Lit(Literal::Unit)),
            _ => Err(Error::AssertEqFailed(rs[0].duplicate(), rs[1].duplicate())),
        },
    }
}

fn strip_mut_exec(v: Val) -> (r: Val)
    ensures
        r@ == strip_mut(v@),
{
    match v {
        Val::Mut(b) => *b,
        other => other,
    }
}

fn rt_type_exec(v: &Val) -> (r: Result<RtType, Error>)
    ensures
        match rt_type(v@) {
            Ok(t) => r == Ok::<RtType, Error>(t),
            Err(e) => r matches Err(x) && error_model(x) == e,
        },
    decreases v,
{
    match v {
        Val::Lit(Literal::Int(_)) => Ok(RtType::I32),
        Val::Lit(Literal::Bool(_)) => Ok(RtType::Bool),
        Val::Lit(Literal::String(_)) => Ok(RtType::Str),
        Val::Lit(Literal::Unit) => Ok(RtType::Unit),
        Val::Mut(b) => rt_type_exec(b),
        Val::RefVal(b) => rt_type_exec(b),
        Val::RefName(_, _) => Ok(RtType::Ref),
        _ => Err(Error::UnknownArgType),
    }
}

fn rt_types_exec(vals: &Vec<Val>) -> (r: Result<Vec<RtType>, Error>)
    ensures
        match rt_types(vals_model(vals@)) {
            Ok(ts) => r matches Ok(x) && x@ == ts,
            Err(e) => r matches Err(x) && error_model(x) == e,
        },
{
    let ghost m = vals_model(vals@);
    let mut out: Vec<RtType> = Vec::new();
    let n = vals.len();
    for i in 0..n
        invariant
            n == vals@.len(),
            m == vals_model(vals@),
            rt_types(m.take(i as int)) == Ok::<Seq<RtType>, SError>(out@),
    {
        assert(m.take(i + 1).drop_last() =~= m.take(i as int));
        let t = match rt_type_exec(&vals[i]) {
            Ok(t) => t,
            Err(e) => {
                proof { lemma_rt_types_err(m, (i + 1) as int); }
                return Err(e);
            },
        };
        out.push(t);
    }
    assert(m.take(n as int) =~= m);
    Ok(out)
}

proof fn lemma_rt_types_err(m: Seq<SVal>, k: int)
    requires
        1 <= k <= m.len(),
        rt_types(m.take(k)) is Err,
    ensures
        rt_types(m) == rt_types(m.take(k)),
    decreases m.len() - k,
{
    if k < m.len() {
        assert(m.take(k + 1).drop_last() =~= m.take(k));
        lemma_rt_types_err(m, k + 1);
    } else {
        assert(m.take(k) =~= m);
    }
}

fn param_rt_exec(t: &Type) -> (r: RtType)
    ensures
        r == param_rt(*t),
{
    match t {
        Type::I32 => RtType::I32,
        Type::Bool => RtType::Bool,
        Type::String => RtType::Str,
        Type::Unit => RtType::Unit,
        Type::Ref(_, _) => RtType::Ref,
    }
}

fn accepts_exec(f: &FnDeclaration, tys: &Vec<RtType>) -> (r: bool)
    ensures
        r == accepts(fn_model(*f), tys@),
{
    let ps = &f.parameters.0;
    if ps.len() != tys.len() {
        return false;
    }
    let n = ps.len();
    for i in 0..n
        invariant
            n == ps@.len(),
            n == tys@.len(),
            *ps == f.parameters.0,
            forall|j: int|
                0 <= j < i ==> param_rt(#[trigger] ps@[j].ty) == tys@[j] || param_rt(ps@[j].ty)
                    == RtType::Ref,
    {
        let pt = param_rt_exec(&ps[i].ty);
        if pt != tys[i] && pt != RtType::Ref {
            assert(param_rt(params_model(ps@)[i as int].ty) == pt);
            return false;
        }
    }
    assert(forall|j: int| 0 <= j < n ==> #[trigger] params_model(ps@)[j].ty == ps@[j].ty);
    true
}

fn candidates_exec(fs: &Vec<FnDeclaration>, tys: &Vec<RtType>) -> (r: Vec<FnDeclaration>)
    ensures
        fns_model(r@) == candidates(fns_model(fs@), tys@),
{
    let ghost m = fns_model(fs@);
    let mut out: Vec<FnDeclaration> = Vec::new();
    let n = fs.len();
    for i in 0..n
        invariant
            n == fs@.len(),
            m == fns_model(fs@),
            fns_model(out@) == candidates(m.take(i as int), tys@),
    {
        assert(m.take(i + 1).drop_last() =~= m.take(i as int));
        assert(m.take(i + 1).last() == fn_model(fs@[i as int]));
        if accepts_exec(&fs[i], tys) {
            let ghost before = out@;
            out.push(fs[i].duplicate());
            assert(fns_model(out@) =~= fns_model(before).push(fn_model(fs@[i as int])));
        }
    }
    assert(m.take(n as int) =~= m);
    out
}

/// The tree-walking interpreter: its scopes, and the text that `println!`
/// has printed so far.
pub struct VM {
    env: Env,
    output: String,
}

impl View for VM {
    type V = VmState;

    closed spec fn view(&self) -> VmState {
        VmState { env: self.env@, out: self.output@ }
    }
}

impl VM {
    pub fn new() -> (vm: Self)
        ensures
            vm@ == vm_init(),
    {
        let mut env = Env::new();
        let (decl, intrinsic) = crate::intrinsics::vm_println();
        env.insert_overload(decl.id.clone(), decl.duplicate());
        env.insert(decl.id.clone(), Val::Intrinsic(intrinsic));
        env.insert(String::from_str("assert_eq!"), Val::Intrinsic(Intrinsic::AssertEq));
        VM { env, output: String::new() }
    }

    /// The number of scopes of the interpreter's environment: never fewer
    /// than one, the global scope, so each `let` has a scope to bind in.
    pub fn scope_depth(&self) -> (n: usize)
        ensures
            n == self@.env.len(),
            n >= 1,
    {
        self.env.depth()
    }

    /// What `println!` has printed since the last call, which empties it.
    pub fn take_output(&mut self) -> (s: String)
        ensures
            s@ == old(self)@.out,
            final(self)@ == (VmState { env: old(self)@.env, out: Seq::empty() }),
    {
        let mut s = String::new();
        std::mem::swap(&mut s, &mut self.output);
        s
    }

    fn lookup_val(&self, name: &String) -> (r: Result<Val, Error>)
        ensures
            res_model(r) == lookup_res(self@.env, name@),
    {
        match self.env.lookup(name.as_str()) {
            Ok(v) => Ok(v),
            Err(e) => Err(e),
        }
    }

    fn update_var(&mut self, name: &String, v: Val) -> (r: Result<Val, Error>)
        ensures
            (final(self)@, res_model(r)) == sem_update(old(self)@, name@, v@),
    {
        match self.env.update(name.as_str(), v) {
            Ok(()) => Ok(Val::Lit(Literal::Unit)),
            Err(e) => Err(e),
        }
    }

    fn ref_ident(&self, name: &String, m: bool) -> (r: Result<Val, Error>)
        ensures
            res_model(r) == sem_ref_ident(self@.env, name@, m),
    {
        let stored = match self.lookup_val(name) {
            Ok(v) => v,
            Err(e) => return Err(e),
        };
        if m {
            match stored {
                Val::Mut(_) => Ok(Val::RefName(name.clone(), true)),
                _ => Err(Error::MutRefToImmutable(name.clone())),
            }
        } else {
            Ok(Val::RefName(name.clone(), false))
        }
    }

    fn apply_unop(&self, op: UnOp, v: Val) -> (r: Result<Val, Error>)
        ensures
            res_model(r) == sem_unop(self@.env, op, v@),
    {
        match op {
            UnOp::Neg => match v.get_int() {
                Ok(i) => int_result(-(i as i64)),
                Err(e) => Err(e),
            },
            UnOp::Bang => match v.get_bool() {
                Ok(b) => Ok(Val::Lit(Literal::Bool(!b))),
                Err(e) => Err(e),
            },
            UnOp::Deref => match v {
                Val::RefVal(b) => Ok(strip_mut_exec(*b)),
                Val::RefName(name, _) => match self.lookup_val(&name) {
                    Ok(s) => Ok(strip_mut_exec(s)),
                    Err(e) => Err(e),
                },
                _ => Err(Error::DerefNonReference),
            },
        }
    }

    fn resolve_args(&self, vals: &Vec<Val>) -> (r: Result<Vec<Val>, Error>)
        ensures
            vec_res_model(r) == resolve_refs(self@.env, vals_model(vals@)),
    {
        let ghost m = vals_model(vals@);
        let mut out: Vec<Val> = Vec::new();
        let n = vals.len();
        assert(m.take(0) =~= Seq::<SVal>::empty());
        assert(vals_model(out@) =~= Seq::<SVal>::empty());
        for i in 0..n
            invariant
                n == vals@.len(),
                m == vals_model(vals@),
                resolve_refs(self@.env, m.take(i as int)) == Ok::<Seq<SVal>, SError>(vals_model(out@)),
        {
            assert(m.take(i + 1).drop_last() =~= m.take(i as int));
            assert(m.take(i + 1).last() == vals@[i as int]@);
            let ghost before = out@;
            match &vals[i] {
                Val::RefName(name, _) => match self.lookup_val(name) {
                    Ok(s) => out.push(s),
                    Err(e) => {
                        proof { lemma_resolve_err(self@.env, m, (i + 1) as int); }
                        return Err(e);
                    },
                },
                v => out.push(v.duplicate()),
            }
            assert(vals_model(out@) =~= vals_model(before).push(out@.last()@));
        }
        assert(m.take(n as int) =~= m);
        Ok(out)
    }

    pub fn eval_expr(&mut self, expr: &Expr) -> (r: Result<Val, Error>)
        ensures
            (final(self)@, res_model(r)) == sem_expr(FUEL as nat, old(self)@, expr@),
    {
        self.eval_expr_f(expr, FUEL)
    }

    pub fn eval_stmt(&mut self, stmt: &Statement) -> (r: Result<Val, Error>)
        ensures
            (final(self)@, res_model(r)) == sem_stmt(FUEL as nat, old(self)@, stmt_model(*stmt)),
    {
        self.eval_stmt_f(stmt, FUEL)
    }

    pub fn eval_block(&mut self, block: &Block) -> (r: Result<Val, Error>)
        ensures
            (final(self)@, res_model(r)) == sem_block(FUEL as nat, old(self)@, block_model(*block)),
    {
        self.eval_block_f(block, FUEL)
    }

    /// Runs a program: declares its functions, then evaluates the body of
    /// its first `main`.
    pub fn eval_prog(&mut self, prog: &Prog) -> (r: Result<Val, Error>)
        ensures
            (final(self)@, res_model(r)) == sem_prog(FUEL as nat, old(self)@, prog@),
    {
        let ghost m = fns_model(prog.0@);
        let n = prog.0.len();
        assert(m.take(0) =~= Seq::<SFn>::empty());
        for i in 0..n
            invariant
                n == prog.0@.len(),
                m == fns_model(prog.0@),
                self@.out == old(self)@.out,
                self@.env == hoist_fns(old(self)@.env, m.take(i as int)),
        {
            assert(m.take(i + 1).drop_last() =~= m.take(i as int));
            assert(m.take(i + 1).last() == fn_model(prog.0@[i as int]));
            let f = &prog.0[i];
            self.env.insert_overload(f.id.clone(), f.duplicate());
        }
        assert(m.take(n as int) =~= m);
        let mut k: usize = 0;
        while k < n
            invariant
                k <= n,
                n == prog.0@.len(),
                m == fns_model(prog.0@),
                find_main(m) == find_main(m.skip(k as int)),
                self@ == with_env(old(self)@, hoist_fns(old(self)@.env, m)),
            decreases n - k,
        {
            if crate::type_check::is_main(&prog.0[k].id) {
                assert(m.skip(k as int)[0] == fn_model(prog.0@[k as int]));
                return self.eval_block(&prog.0[k].body);
            }
            assert(m.skip(k as int)[0] == fn_model(prog.0@[k as int]));
            assert(m.skip(k as int).skip(1) =~= m.skip(k + 1));
            k = k + 1;
        }
        assert(m.skip(n as int) =~= Seq::<SFn>::empty());
        Err(Error::MainNotFound)
    }

    fn eval_expr_f(&mut self, expr: &Expr, fuel: u64) -> (r: Result<Val, Error>)
        ensures
            (final(self)@, res_model(r)) == sem_expr(fuel as nat, old(self)@, expr@),
        decreases fuel, expr, 1nat,
    {
        proof {
            reveal_with_fuel(expr_model, 2);
            reveal_with_fuel(val_model, 2);
        }
        match expr {
            Expr::Lit(lit) => Ok(Val::Lit(lit.duplicate())),
            Expr::Par(e) => self.eval_expr_f(e, fuel),
            Expr::Ref(inner, m) => match &**inner {
                Expr::Ident(name) => self.ref_ident(name, m.0),
                _ => {
                    let v = match self.eval_expr_f(inner, fuel) {
                        Ok(v) => v,
                        Err(e) => return Err(e),
                    };
                    let boxed = if m.0 {
                        Val::Mut(Box::new(v))
                    } else {
                        v
                    };
                    Ok(Val::RefVal(Box::new(boxed)))
                },
            },
            Expr::Ident(id) => match self.lookup_val(id) {
                Ok(v) => Ok(strip_mut_exec(v)),
                Err(e) => Err(e),
            },
            Expr::BinOp(_, _, _) => self.eval_binop_f(expr, fuel),
            Expr::UnOp(op, inner) => {
                let v = match self.eval_expr_f(inner, fuel) {
                    Ok(v) => v,
                    Err(e) => return Err(e),
                };
                self.apply_unop(*op, v)
            },
            Expr::IfThenElse(_, _, _) => self.eval_if_f(expr, fuel),
            Expr::Block(b) => self.eval_block_f(b, fuel),
            Expr::Call(_, _) => self.eval_call_f(expr, fuel),
        }
    }

    fn eval_binop_f(&mut self, expr: &Expr, fuel: u64) -> (r: Result<Val, Error>)
        requires
            expr is BinOp,
        ensures
            (final(self)@, res_model(r)) == sem_expr(fuel as nat, old(self)@, expr@),
        decreases fuel, expr, 0nat,
    {
        match expr {
            Expr::BinOp(op, l, r) => {
                let lv = match self.eval_expr_f(l, fuel) {
                    Ok(v) => v,
                    Err(e) => return Err(e),
                };
                if *op == BinOp::And || *op == BinOp::Or {
                    let b = match lv.get_bool() {
                        Ok(b) => b,
                        Err(e) => return Err(e),
                    };
                    if (*op == BinOp::And && !b) || (*op == BinOp::Or && b) {
                        Ok(Val::Lit(Literal::Bool(b)))
                    } else {
                        let rv = match self.eval_expr_f(r, fuel) {
                            Ok(v) => v,
                            Err(e) => return Err(e),
                        };
                        match rv.get_bool() {
                            Ok(c) => Ok(Val::Lit(Literal::Bool(c))),
                            Err(e) => Err(e),
                        }
                    }
                } else {
                    let rv = match self.eval_expr_f(r, fuel) {
                        Ok(v) => v,
                        Err(e) => return Err(e),
                    };
                    op.eval(lv, rv)
                }
            },
            _ => Err(Error::AssignNonIdent),
        }
    }

    fn eval_if_f(&mut self, expr: &Expr, fuel: u64) -> (r: Result<Val, Error>)
        requires
            expr is IfThenElse,
        ensures
            (final(self)@, res_model(r)) == sem_expr(fuel as nat, old(self)@, expr@),
        decreases fuel, expr, 0nat,
    {
        match expr {
            Expr::IfThenElse(c, t, eo) => {
                let cv = match self.eval_expr_f(c, fuel) {
                    Ok(v) => v,
                    Err(e) => return Err(e),
                };
                let b = match cv.get_bool() {
                    Ok(b) => b,
                    Err(e) => return Err(e),
                };
                if b {
                    self.eval_block_f(t, fuel)
                } else {
                    match eo {
                        Some(eb) => self.eval_block_f(eb, fuel),
                        None => Ok(Val::Lit(Literal::Unit)),
                    }
                }
            },
            _ => Err(Error::AssignNonIdent),
        }
    }

    fn eval_args_f(&mut self, args: &Vec<Expr>, fuel: u64) -> (r: Result<Vec<Val>, Error>)
        ensures
            (final(self)@, vec_res_model(r)) == sem_exprs(fuel as nat, old(self)@, exprs_model(args@)),
        decreases fuel, args, 0nat,
    {
        let ghost m = exprs_model(args@);
        proof { lemma_exprs_model(args@); }
        let mut out: Vec<Val> = Vec::new();
        let n = args.len();
        assert(m.take(0) =~= Seq::<SExpr>::empty());
        assert(vals_model(out@) =~= Seq::<SVal>::empty());
        for i in 0..n
            invariant
                n == args@.len(),
                m == exprs_model(args@),
                m.len() == n,
                forall|j: int| 0 <= j < n ==> #[trigger] m[j] == expr_model(args@[j]),
                (self@, Ok::<Seq<SVal>, SError>(vals_model(out@))) == sem_exprs(
                    fuel as nat,
                    old(self)@,
                    m.take(i as int),
                ),
        {
            assert(m.take(i + 1).drop_last() =~= m.take(i as int));
            assert(m.take(i + 1).last() == args@[i as int]@);
            let ghost before = out@;
            match self.eval_expr_f(&args[i], fuel) {
                Ok(v) => {
                    out.push(v);
                    assert(vals_model(out@) =~= vals_model(before).push(out@.last()@));
                },
                Err(e) => {
                    proof { lemma_exprs_err(fuel as nat, old(self)@, m, (i + 1) as int); }
                    return Err(e);
                },
            }
        }
        assert(m.take(n as int) =~= m);
        Ok(out)
    }

    fn eval_call_f(&mut self, expr: &Expr, fuel: u64) -> (r: Result<Val, Error>)
        requires
            expr is Call,
        ensures
            (final(self)@, res_model(r)) == sem_expr(fuel as nat, old(self)@, expr@),
        decreases fuel, expr, 0nat,
    {
        match expr {
            Expr::Call(name, args) => {
                proof { crate::ast::lemma_exprs_model(args.0@); }
                let stored = match self.lookup_val(name) {
                    Ok(v) => v,
                    Err(e) => return Err(e),
                };
                match stored {
                    Val::Intrinsic(which) => {
                        let vals = match self.eval_args_f(&args.0, fuel) {
                            Ok(v) => v,
                            Err(e) => return Err(e),
                        };
                        let rs = match self.resolve_args(&vals) {
                            Ok(v) => v,
                            Err(e) => return Err(e),
                        };
                        match which {
                            Intrinsic::Println => match crate::intrinsics::println_line(&rs) {
                                Ok(t) => {
                                    self.output.append(t.as_str());
                                    Ok(Val::Lit(Literal::Unit))
                                },
                                Err(e) => Err(e),
                            },
                            Intrinsic::AssertEq => assert_eq_vals(&rs),
                        }
                    },
                    Val::Fun(decl) => {
                        let expected = decl.parameters.0.len();
                        let got = args.0.len();
                        if expected != got {
                            return Err(Error::ArgCount(name.clone(), expected, got));
                        }
                        let vals = match self.eval_args_f(&args.0, fuel) {
                            Ok(v) => v,
                            Err(e) => return Err(e),
                        };
                        if fuel == 0 {
                            return Err(Error::OutOfFuel);
                        }
                        self.call_fn_f(&decl, vals, fuel - 1)
                    },
                    Val::Overloads(fs) => {
                        let vals = match self.eval_args_f(&args.0, fuel) {
                            Ok(v) => v,
                            Err(e) => return Err(e),
                        };
                        let tys = match rt_types_exec(&vals) {
                            Ok(t) => t,
                            Err(e) => return Err(e),
                        };
                        let c = candidates_exec(&fs, &tys);
                        if c.len() == 0 {
                            Err(Error::NoMatchingOverload(name.clone()))
                        } else if c.len() > 1 {
                            Err(Error::AmbiguousCall(name.clone()))
                        } else if fuel == 0 {
                            Err(Error::OutOfFuel)
                        } else {
                            self.call_fn_f(&c[0], vals, fuel - 1)
                        }
                    },
                    other => Err(Error::NotAFunction(other)),
                }
            },
            _ => Err(Error::AssignNonIdent),
        }
    }

    fn call_fn_f(&mut self, decl: &FnDeclaration, args: Vec<Val>, fuel: u64) -> (r: Result<Val, Error>)
        ensures
            (final(self)@, res_model(r)) == sem_call(fuel as nat, old(self)@, fn_model(*decl), vals_model(args@)),
        decreases fuel, decl, 0nat,
    {
        let ghost sd = fn_model(*decl);
        let ghost va = vals_model(args@);
        self.env.push_scope();
        let ps = &decl.parameters.0;
        let n = if ps.len() <= args.len() { ps.len() } else { args.len() };
        let ghost env0 = old(self)@.env.push(Scope::empty());
        for i in 0..n
            invariant
                n <= ps@.len(),
                n <= args@.len(),
                *ps == decl.parameters.0,
                sd == fn_model(*decl),
                va == vals_model(args@),
                self@.out == old(self)@.out,
                self@.env == bind_params(env0, sd.params, va, i as int),
        {
            let p = &ps[i];
            let v = args[i].duplicate();
            let stored = if p.mutable.0 {
                Val::Mut(Box::new(v))
            } else {
                v
            };
            assert(sd.params[i as int] == param_model(ps@[i as int]));
            self.env.insert(p.id.clone(), stored);
        }
        assert(n as int == (if sd.params.len() <= va.len() { sd.params.len() as int } else { va.len() as int }));
        let result = self.eval_block_f(&decl.body, fuel);
        match self.env.pop_scope() {
            Err(e) => Err(e),
            Ok(()) => result,
        }
    }

    fn eval_block_f(&mut self, block: &Block, fuel: u64) -> (r: Result<Val, Error>)
        ensures
            (final(self)@, res_model(r)) == sem_block(fuel as nat, old(self)@, block_model(*block)),
        decreases fuel, block, 1nat,
    {
        let ghost ss = stmts_model(block.statements@);
        proof { crate::ast::lemma_stmts_model(block.statements@); }
        self.env.push_scope();
        let ghost env0 = old(self)@.env.push(Scope::empty());
        let n = block.statements.len();
        for i in 0..n
            invariant
                n == block.statements@.len(),
                ss == stmts_model(block.statements@),
                ss.len() == n,
                forall|j: int| 0 <= j < n ==> #[trigger] ss[j] == stmt_model(block.statements@[j]),
                self@.out == old(self)@.out,
                self@.env == hoist(env0, ss.take(i as int)),
        {
            assert(ss.take(i + 1).drop_last() =~= ss.take(i as int));
            assert(ss.take(i + 1).last() == stmt_model(block.statements@[i as int]));
            match &block.statements[i] {
                Statement::Fn(fd) => {
                    self.env.insert_overload(fd.id.clone(), fd.duplicate());
                },
                _ => {},
            }
        }
        assert(ss.take(n as int) =~= ss);
        let ghost s1 = self@;
        let mut last = Val::Lit(Literal::Unit);
        for i in 0..n
            invariant
                n == block.statements@.len(),
                ss == stmts_model(block.statements@),
                ss.len() == n,
                forall|j: int| 0 <= j < n ==> #[trigger] ss[j] == stmt_model(block.statements@[j]),
                s1 == with_env(old(self)@, hoist(old(self)@.env.push(Scope::empty()), ss)),
                block_model(*block) == (SBlock { stmts: ss, semi: block.semi }),
                (self@, Ok::<SVal, SError>(last@)) == sem_stmts(fuel as nat, s1, ss.take(i as int)),
        {
            assert(ss.take(i + 1).drop_last() =~= ss.take(i as int));
            assert(ss.take(i + 1).last() == stmt_model(block.statements@[i as int]));
            let ghost pre = self@;
            match self.eval_stmt_f(&block.statements[i], fuel) {
                Ok(v) => {
                    last = v;
                },
                Err(e) => {
                    proof {
                        assert(sem_stmt(fuel as nat, pre, ss[i as int]) == (self@, Err::<SVal, SError>(error_model(e))));
                        assert(sem_stmts(fuel as nat, s1, ss.take(i + 1)) == (self@, Err::<SVal, SError>(error_model(e))));
                        lemma_stmts_err(fuel as nat, s1, ss, (i + 1) as int);
                        assert(sem_stmts(fuel as nat, s1, ss) == (self@, Err::<SVal, SError>(error_model(e))));
                    }
                    return Err(e);
                },
            }
        }
        assert(ss.take(n as int) =~= ss);
        match self.env.pop_scope() {
            Err(e) => Err(e),
            Ok(()) => if block.semi {
                Ok(Val::Lit(Literal::Unit))
            } else {
                Ok(last)
            },
        }
    }

    fn eval_stmt_f(&mut self, stmt: &Statement, fuel: u64) -> (r: Result<Val, Error>)
        ensures
            (final(self)@, res_model(r)) == sem_stmt(fuel as nat, old(self)@, stmt_model(*stmt)),
        decreases fuel, stmt, 1nat,
    {
        match stmt {
            Statement::Let(m, name, _, init) => {
                let v = match init {
                    Some(e) => match self.eval_expr_f(e, fuel) {
                        Ok(v) => v,
                        Err(e) => return Err(e),
                    },
                    None => Val::UnInit,
                };
                let fin = if m.0 {
                    Val::Mut(Box::new(v))
                } else {
                    v
                };
                self.env.insert(name.clone(), fin);
                Ok(Val::Lit(Literal::Unit))
            },
            Statement::Assign(_, _) => self.eval_assign_f(stmt, fuel),
            Statement::While(_, _) => self.eval_while_f(stmt, fuel),
            Statement::Expr(e) => self.eval_expr_f(e, fuel),
            Statement::Fn(_) => Ok(Val::Lit(Literal::Unit)),
        }
    }

    fn assign_ident(&mut self, name: &String, v: Val) -> (r: Result<Val, Error>)
        ensures
            (final(self)@, res_model(r)) == sem_assign_ident(old(self)@, name@, v@),
    {
        let cur = match self.lookup_val(name) {
            Ok(c) => c,
            Err(e) => return Err(e),
        };
        match cur {
            Val::Mut(_) => self.update_var(name, Val::Mut(Box::new(v))),
            Val::UnInit => self.update_var(name, v),
            _ => Err(Error::AssignImmutable(name.clone())),
        }
    }

    fn assign_deref(&mut self, name: &String, v: Val) -> (r: Result<Val, Error>)
        ensures
            (final(self)@, res_model(r)) == sem_assign_deref(old(self)@, name@, v@),
    {
        proof { reveal_with_fuel(val_model, 2); }
        let stored = match self.lookup_val(name) {
            Ok(c) => c,
            Err(e) => return Err(e),
        };
        match stored {
            Val::RefVal(b) => match *b {
                Val::Mut(_) => self.update_var(name, Val::RefVal(Box::new(Val::Mut(Box::new(v))))),
                _ => Err(Error::AssignThroughImmutableRef(name.clone())),
            },
            Val::RefName(target, rm) => {
                if !rm {
                    return Err(Error::AssignThroughImmutableRef(name.clone()));
                }
                let ts = match self.lookup_val(&target) {
                    Ok(c) => c,
                    Err(e) => return Err(e),
                };
                match ts {
                    Val::Mut(_) => self.update_var(&target, Val::Mut(Box::new(v))),
                    _ => Err(Error::AssignThroughImmutableRef(target)),
                }
            },
            _ => Err(Error::NotAReference(name.clone())),
        }
    }

    fn eval_assign_f(&mut self, stmt: &Statement, fuel: u64) -> (r: Result<Val, Error>)
        requires
            stmt is Assign,
        ensures
            (final(self)@, res_model(r)) == sem_stmt(fuel as nat, old(self)@, stmt_model(*stmt)),
        decreases fuel, stmt, 0nat,
    {
        match stmt {
            Statement::Assign(lhs, rhs) => match lhs {
                Expr::Ident(name) => {
                    let v = match self.eval_expr_f(rhs, fuel) {
                        Ok(v) => v,
                        Err(e) => return Err(e),
                    };
                    self.assign_ident(name, v)
                },
                Expr::UnOp(UnOp::Deref, inner) => match &**inner {
                    Expr::Ident(name) => {
                        let v = match self.eval_expr_f(rhs, fuel) {
                            Ok(v) => v,
                            Err(e) => return Err(e),
                        };
                        self.assign_deref(name, v)
                    },
                    _ => Err(Error::AssignDerefNonIdent),
                },
                _ => Err(Error::AssignNonIdent),
            },
            _ => Err(Error::AssignNonIdent),
        }
    }

    fn eval_while_f(&mut self, stmt: &Statement, fuel: u64) -> (r: Result<Val, Error>)
        requires
            stmt is While,
        ensures
            (final(self)@, res_model(r)) == sem_stmt(fuel as nat, old(self)@, stmt_model(*stmt)),
        decreases fuel, stmt, 0nat,
    {
        match stmt {
            Statement::While(c, b) => {
                let ghost target = sem_stmt(fuel as nat, old(self)@, stmt_model(*stmt));
                let mut g = fuel;
                loop
                    invariant
                        g <= fuel,
                        target == sem_stmt(fuel as nat, old(self)@, stmt_model(*stmt)),
                        *stmt == Statement::While(*c, *b),
                        sem_stmt(g as nat, self@, stmt_model(*stmt)) == target,
                        stmt_model(*stmt) == SStmt::While(c@, block_model(*b)),
                    decreases g,
                {
                    let ghost pre = self@;
                    let ghost w = SStmt::While(c@, block_model(*b));
                    let cv = match self.eval_expr_f(c, g) {
                        Ok(v) => v,
                        Err(e) => {
                            assert(sem_stmt(g as nat, pre, w) == (self@, Err::<SVal, SError>(error_model(e))));
                            return Err(e);
                        },
                    };
                    let go = match cv.get_bool() {
                        Ok(b) => b,
                        Err(e) => {
                            assert(sem_stmt(g as nat, pre, w) == (self@, Err::<SVal, SError>(error_model(e))));
                            return Err(e);
                        },
                    };
                    if !go {
                        return Ok(Val::Lit(Literal::Unit));
                    }
                    match self.eval_block_f(b, g) {
                        Ok(_) => {},
                        Err(e) => return Err(e),
                    }
                    if g == 0 {
                        return Err(Error::OutOfFuel);
                    }
                    g = g - 1;
                }
            },
            _ => Err(Error::AssignNonIdent),
        }
    }
}

proof fn lemma_resolve_err(env: Seq<Scope>, m: Seq<SVal>, k: int)
    requires
        1 <= k <= m.len(),
        resolve_refs(env, m.take(k)) is Err,
    ensures
        resolve_refs(env, m) == resolve_refs(env, m.take(k)),
    decreases m.len() - k,
{
    if k < m.len() {
        assert(m.take(k + 1).drop_last() =~= m.take(k));
        lemma_resolve_err(env, m, k + 1);
    } else {
        assert(m.take(k) =~= m);
    }
}

proof fn lemma_exprs_err(f: nat, st: VmState, m: Seq<SExpr>, k: int)
    requires
        1 <= k <= m.len(),
        sem_exprs(f, st, m.take(k)).1 is Err,
    ensures
        sem_exprs(f, st, m) == sem_exprs(f, st, m.take(k)),
    decreases m.len() - k,
{
    if k < m.len() {
        assert(m.take(k + 1).drop_last() =~= m.take(k));
        lemma_exprs_err(f, st, m, k + 1);
    } else {
        assert(m.take(k) =~= m);
    }
}

proof fn lemma_stmts_err(f: nat, st: VmState, m: Seq<SStmt>, k: int)
    requires
        1 <= k <= m.len(),
        sem_stmts(f, st, m.take(k)).1 is Err,
    ensures
        sem_stmts(f, st, m) == sem_stmts(f, st, m.take(k)),
    decreases m.len() - k,
{
    if k < m.len() {
        assert(m.take(k + 1).drop_last() =~= m.take(k));
        lemma_stmts_err(f, st, m, k + 1);
    } else {
        assert(m.take(k) =~= m);
    }
}

impl crate::common::Eval<Val> for Expr {
    open spec fn evaluates_to(&self, r: Result<Val, Error>) -> bool {
        res_model(r) == sem_expr(FUEL as nat, vm_init(), self@).1
    }

    /// Evaluates the expression in a fresh interpreter; what `println!`
    /// writes meanwhile is dropped (`VM::take_output` keeps it).
    fn eval(&self) -> (r: Result<Val, Error>) {
        let mut vm = VM::new();
        vm.eval_expr(self)
    }
}

impl crate::common::Eval<Val> for Block {
    open spec fn evaluates_to(&self, r: Result<Val, Error>) -> bool {
        res_model(r) == sem_block(FUEL as nat, vm_init(), self@).1
    }

    /// Evaluates the block in a fresh interpreter; what `println!` writes
    /// meanwhile is dropped (`VM::take_output` keeps it).
    fn eval(&self) -> (r: Result<Val, Error>) {
        let mut vm = VM::new();
        vm.eval_block(self)
    }
}

impl crate::common::Eval<Val> for Prog {
    open spec fn evaluates_to(&self, r: Result<Val, Error>) -> bool {
        res_model(r) == sem_prog(FUEL as nat, vm_init(), self@).1
    }

    /// Runs the program in a fresh interpreter; what `println!` writes
    /// meanwhile is dropped (`run_with_output` returns it too).
    fn eval(&self) -> (r: Result<Val, Error>) {
        let mut vm = VM::new();
        vm.eval_prog(self)
    }
}

/// Runs a program in a fresh interpreter, and gives its value together
/// with everything that `println!` wrote.
pub fn run_with_output(prog: &Prog) -> (r: (Result<Val, Error>, String))
    ensures
        res_model(r.0) == sem_prog(FUEL as nat, vm_init(), prog@).1,
        r.1@ == sem_prog(FUEL as nat, vm_init(), prog@).0.out,
{
    let mut vm = VM::new();
    let v = vm.eval_prog(prog);
    let out = vm.take_output();
    (v, out)
}

} // verus!
