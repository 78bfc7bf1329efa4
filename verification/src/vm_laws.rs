use crate::ast::{BinOp, SBlock, SExpr, SFn, SParam, SStmt, UnOp};
use crate::env::{
    scope_set, env_insert, env_insert_overload, env_lookup, env_update, law_lookup_after_insert, law_update_then_lookup, overload_value,
    scope_get, Scope,
};
use crate::error::SError;
use crate::vm::{
    accepts, bind_params, bool_val, candidates, pop_env, sem_assign_deref, sem_assign_ident, sem_get_bool, sem_update,
    unit_val, with_env, hoist, lookup_res, rt_types, sem_block, sem_call, sem_expr, sem_exprs,
    sem_prog, sem_stmt, sem_stmts, hoist_fns, RtType, SRes, SVal, VmState,
};
use vstd::prelude::*;

verus! {

// ---------------------------------------------------------------------
// What every step of the interpreter keeps.
// ---------------------------------------------------------------------

/// From `st` to `s2`: the printed text is only added to, and when the step
/// succeeded (`ok`) there are as many scopes as before.
pub open spec fn keeps(st: VmState, s2: VmState, ok: bool) -> bool {
    &&& st.out.len() <= s2.out.len()
    &&& s2.out.take(st.out.len() as int) == st.out
    &&& ok ==> s2.env.len() == st.env.len()
}

proof fn lemma_keeps_trans(a: VmState, b: VmState, c: VmState, ok: bool)
    requires
        keeps(a, b, true),
        keeps(b, c, ok),
    ensures
        keeps(a, c, ok),
{
    assert(c.out.take(a.out.len() as int) =~= c.out.take(b.out.len() as int).take(a.out.len() as int));
}

proof fn lemma_update_len(sc: Seq<Scope>, name: Seq<char>, v: SVal)
    ensures
        env_update(sc, name, v) matches Some(r) ==> r.len() == sc.len(),
    decreases sc.len(),
{
    if sc.len() > 0 {
        lemma_update_len(sc.drop_last(), name, v);
    }
}

proof fn lemma_bind_len(env: Seq<Scope>, ps: Seq<SParam>, args: Seq<SVal>, n: int)
    ensures
        bind_params(env, ps, args, n).len() == env.len(),
    decreases n,
{
    if n > 0 {
        lemma_bind_len(env, ps, args, n - 1);
    }
}

proof fn lemma_hoist_len(env: Seq<Scope>, ss: Seq<SStmt>)
    ensures
        hoist(env, ss).len() == env.len(),
    decreases ss.len(),
{
    if ss.len() > 0 {
        lemma_hoist_len(env, ss.drop_last());
    }
}

proof fn lemma_expr_keeps(f: nat, st: VmState, e: SExpr)
    ensures
        keeps(st, sem_expr(f, st, e).0, sem_expr(f, st, e).1 is Ok),
    decreases f, e,
{
    assert(st.out.take(st.out.len() as int) =~= st.out);
    match e {
        SExpr::Lit(_) => {},
        SExpr::Par(i) => lemma_expr_keeps(f, st, *i),
        SExpr::Ref(i, m) => match *i {
            SExpr::Ident(_) => {},
            _ => lemma_expr_keeps(f, st, *i),
        },
        SExpr::Ident(_) => {},
        SExpr::BinOp(op, l, r) => {
            lemma_expr_keeps(f, st, *l);
            let s1 = sem_expr(f, st, *l).0;
            lemma_expr_keeps(f, s1, *r);
            let s2 = sem_expr(f, s1, *r).0;
            if sem_expr(f, st, *l).1 is Ok {
                lemma_keeps_trans(st, s1, s2, sem_expr(f, s1, *r).1 is Ok);
            }
        },
        SExpr::UnOp(_, i) => lemma_expr_keeps(f, st, *i),
        SExpr::IfThenElse(c, t, eo) => {
            lemma_expr_keeps(f, st, *c);
            let s1 = sem_expr(f, st, *c).0;
            if sem_expr(f, st, *c).1 is Ok {
                lemma_block_keeps(f, s1, t);
                lemma_keeps_trans(st, s1, sem_block(f, s1, t).0, sem_block(f, s1, t).1 is Ok);
                match eo {
                    Some(eb) => {
                        lemma_block_keeps(f, s1, eb);
                        lemma_keeps_trans(st, s1, sem_block(f, s1, eb).0, sem_block(f, s1, eb).1 is Ok);
                    },
                    None => {},
                }
            }
        },
        SExpr::Block(b) => {
            lemma_block_keeps(f, st, b);
            assert(keeps(st, sem_expr(f, st, e).0, sem_expr(f, st, e).1 is Ok));
        },
        SExpr::Call(name, args) => {
            lemma_exprs_keeps(f, st, args);
            let (s1, ra) = sem_exprs(f, st, args);
            match ra {
                Ok(vs) => {
                    match crate::vm::lookup_res(st.env, name) {
                        Ok(SVal::Intrinsic(_)) => {
                            match crate::vm::resolve_refs(s1.env, vs) {
                                Ok(rs) => match crate::intrinsics::println_text(rs) {
                                    Ok(t) => {
                                        assert((s1.out + t).take(st.out.len() as int) =~= s1.out.take(st.out.len() as int));
                                    },
                                    Err(_) => {},
                                },
                                Err(_) => {},
                            }
                        },
                        Ok(SVal::Fun(decl)) => {
                            if f > 0 {
                                lemma_call_keeps((f - 1) as nat, s1, decl, vs);
                                let c = sem_call((f - 1) as nat, s1, decl, vs);
                                lemma_keeps_trans(st, s1, c.0, c.1 is Ok);
                            }
                        },
                        Ok(SVal::Overloads(fs)) => {
                            match crate::vm::rt_types(vs) {
                                Ok(tys) => {
                                    let c = crate::vm::candidates(fs, tys);
                                    if f > 0 && c.len() == 1 {
                                        lemma_call_keeps((f - 1) as nat, s1, c[0], vs);
                                        let k = sem_call((f - 1) as nat, s1, c[0], vs);
                                        lemma_keeps_trans(st, s1, k.0, k.1 is Ok);
                                    }
                                },
                                Err(_) => {},
                            }
                        },
                        _ => {},
                    }
                    assert(keeps(st, sem_expr(f, st, e).0, sem_expr(f, st, e).1 is Ok));
                },
                Err(_) => {
                    assert(keeps(st, sem_expr(f, st, e).0, sem_expr(f, st, e).1 is Ok));
                },
            }
        },
    }
}

proof fn lemma_exprs_keeps(f: nat, st: VmState, es: Seq<SExpr>)
    ensures
        keeps(st, sem_exprs(f, st, es).0, sem_exprs(f, st, es).1 is Ok),
    decreases f, es,
{
    assert(st.out.take(st.out.len() as int) =~= st.out);
    if es.len() > 0 {
        lemma_exprs_keeps(f, st, es.drop_last());
        let s1 = sem_exprs(f, st, es.drop_last()).0;
        if sem_exprs(f, st, es.drop_last()).1 is Ok {
            lemma_expr_keeps(f, s1, es.last());
            lemma_keeps_trans(st, s1, sem_expr(f, s1, es.last()).0, sem_expr(f, s1, es.last()).1 is Ok);
        }
    }
}

proof fn lemma_call_keeps(f: nat, st: VmState, decl: SFn, args: Seq<SVal>)
    ensures
        keeps(st, sem_call(f, st, decl, args).0, sem_call(f, st, decl, args).1 is Ok),
    decreases f, decl,
{
    let n = if decl.params.len() <= args.len() { decl.params.len() as int } else { args.len() as int };
    let env1 = bind_params(st.env.push(Seq::empty()), decl.params, args, n);
    lemma_bind_len(st.env.push(Seq::empty()), decl.params, args, n);
    let s0 = VmState { env: env1, out: st.out };
    lemma_block_keeps(f, s0, decl.body);
    assert(st.out.take(st.out.len() as int) =~= st.out);
}

proof fn lemma_block_keeps(f: nat, st: VmState, b: SBlock)
    ensures
        keeps(st, sem_block(f, st, b).0, sem_block(f, st, b).1 is Ok),
    decreases f, b,
{
    let env1 = hoist(st.env.push(Seq::empty()), b.stmts);
    lemma_hoist_len(st.env.push(Seq::empty()), b.stmts);
    let s1 = VmState { env: env1, out: st.out };
    lemma_stmts_keeps(f, s1, b.stmts);
    assert(st.out.take(st.out.len() as int) =~= st.out);
}

proof fn lemma_stmts_keeps(f: nat, st: VmState, ss: Seq<SStmt>)
    ensures
        keeps(st, sem_stmts(f, st, ss).0, sem_stmts(f, st, ss).1 is Ok),
    decreases f, ss,
{
    if ss.len() == 0 {
        assert(st.out.take(st.out.len() as int) =~= st.out);
    } else {
        lemma_stmts_keeps(f, st, ss.drop_last());
        let s1 = sem_stmts(f, st, ss.drop_last()).0;
        if sem_stmts(f, st, ss.drop_last()).1 is Ok {
            lemma_stmt_keeps(f, s1, ss.last());
            lemma_keeps_trans(st, s1, sem_stmt(f, s1, ss.last()).0, sem_stmt(f, s1, ss.last()).1 is Ok);
        }
    }
}

proof fn lemma_stmt_keeps(f: nat, st: VmState, s: SStmt)
    ensures
        keeps(st, sem_stmt(f, st, s).0, sem_stmt(f, st, s).1 is Ok),
    decreases f, s,
{
    assert(st.out.take(st.out.len() as int) =~= st.out);
    match s {
        SStmt::Let(m, name, _, init) => {
            match init {
                Some(e) => lemma_expr_keeps(f, st, e),
                None => {},
            }
        },
        SStmt::Assign(lhs, rhs) => {
            lemma_expr_keeps(f, st, rhs);
            let s1 = sem_expr(f, st, rhs).0;
            assert forall|name: Seq<char>, v: SVal| true implies (#[trigger] env_update(s1.env, name, v)) matches Some(r) ==> r.len() == s1.env.len() by {
                lemma_update_len(s1.env, name, v);
            }
        },
        SStmt::While(c, b) => {
            lemma_expr_keeps(f, st, c);
            let s1 = sem_expr(f, st, c).0;
            if sem_expr(f, st, c).1 is Ok {
                lemma_block_keeps(f, s1, b);
                let s2 = sem_block(f, s1, b).0;
                lemma_keeps_trans(st, s1, s2, sem_block(f, s1, b).1 is Ok);
                if sem_block(f, s1, b).1 is Ok && f > 0 {
                    let g = (f - 1) as nat;
                    lemma_stmt_keeps(g, s2, SStmt::While(c, b));
                    lemma_keeps_trans(st, s2, sem_stmt(g, s2, SStmt::While(c, b)).0, sem_stmt(g, s2, SStmt::While(c, b)).1 is Ok);
                }
            }
        },
        SStmt::Expr(e) => lemma_expr_keeps(f, st, e),
        SStmt::Fn(_) => {},
    }
}

/// Evaluating an expression never takes back text that `println!` printed,
/// and an evaluation that succeeds leaves exactly as many scopes as it
/// found: every scope it opens is closed again.
pub proof fn law_expr_keeps_scopes(f: nat, st: VmState, e: SExpr)
    ensures
        keeps(st, sem_expr(f, st, e).0, sem_expr(f, st, e).1 is Ok),
{
    lemma_expr_keeps(f, st, e);
}

/// The same for a statement.
pub proof fn law_stmt_keeps_scopes(f: nat, st: VmState, s: SStmt)
    ensures
        keeps(st, sem_stmt(f, st, s).0, sem_stmt(f, st, s).1 is Ok),
{
    lemma_stmt_keeps(f, st, s);
}

/// The same for a block: the scope a block opens is left when it ends.
pub proof fn law_block_keeps_scopes(f: nat, st: VmState, b: SBlock)
    ensures
        keeps(st, sem_block(f, st, b).0, sem_block(f, st, b).1 is Ok),
{
    lemma_block_keeps(f, st, b);
}

/// `&&` does not evaluate its right operand when the left one is `false`,
/// nor `||` when it is `true`: the result is the left value, in the state
/// the left operand left.
pub proof fn law_short_circuit(f: nat, st: VmState, op: BinOp, l: SExpr, r: SExpr, b: bool)
    requires
        (op == BinOp::And && !b) || (op == BinOp::Or && b),
        sem_expr(f, st, l).1 == Ok::<SVal, SError>(bool_val(b)),
    ensures
        sem_expr(f, st, SExpr::BinOp(op, Box::new(l), Box::new(r))) == (
            sem_expr(f, st, l).0,
            Ok::<SVal, SError>(bool_val(b)),
        ),
{
}

/// At run time, assigning to a variable whose binding is neither mutable
/// nor uninitialized fails once the right side is evaluated, and changes
/// no binding.
pub proof fn law_vm_assign_immutable(f: nat, st: VmState, name: Seq<char>, rhs: SExpr, v: SVal)
    requires
        sem_expr(f, st, rhs).1 is Ok,
        lookup_res(sem_expr(f, st, rhs).0.env, name) == Ok::<SVal, SError>(v),
        !(v is Mut),
        !(v is UnInit),
    ensures
        sem_stmt(f, st, SStmt::Assign(SExpr::Ident(name), rhs)) == (
            sem_expr(f, st, rhs).0,
            Err::<SVal, SError>(SError::AssignImmutable(name)),
        ),
{
}

/// Assigning through a reference taken with `&` (not `&mut`) fails once the
/// right side is evaluated, and changes no binding.
pub proof fn law_vm_assign_through_shared_ref(f: nat, st: VmState, name: Seq<char>, target: Seq<char>, rhs: SExpr)
    requires
        sem_expr(f, st, rhs).1 is Ok,
        lookup_res(sem_expr(f, st, rhs).0.env, name) == Ok::<SVal, SError>(SVal::RefName(target, false)),
    ensures
        sem_stmt(f, st, SStmt::Assign(SExpr::UnOp(UnOp::Deref, Box::new(SExpr::Ident(name))), rhs)) == (
            sem_expr(f, st, rhs).0,
            Err::<SVal, SError>(SError::AssignThroughImmutableRef(name)),
        ),
{
}

proof fn lemma_lookup_insert_other(sc: Seq<Scope>, k: Seq<char>, v: SVal, name: Seq<char>)
    requires
        sc.len() >= 1,
        k != name,
    ensures
        env_lookup(env_insert(sc, k, v), name) == env_lookup(sc, name),
{
    let r = env_insert(sc, k, v);
    assert(r.last().drop_last() == sc.last());
    assert(r.drop_last() == sc.drop_last());
}

/// Function hoisting: once a block's functions are declared, each of them
/// is found by its name, as a function or an overload set, whatever the
/// block declares around it.
pub proof fn law_vm_hoisted_visible(env: Seq<Scope>, ss: Seq<SStmt>, k: int)
    requires
        env.len() >= 1,
        0 <= k < ss.len(),
        ss[k] is Fn,
    ensures
        env_lookup(hoist(env, ss), ss[k]->Fn_0.id) matches Some(v) && (v is Fun || v is Overloads),
    decreases ss.len(),
{
    let id = ss[k]->Fn_0.id;
    let e = hoist(env, ss.drop_last());
    lemma_hoist_len(env, ss.drop_last());
    if k == ss.len() - 1 {
        let v = overload_value(scope_get(e.last(), id), ss[k]->Fn_0);
        let r = env_insert(e, id, v);
        assert(r.last() == e.last().push((id, v)));
        assert(scope_get(r.last(), id) == Some(v));
    } else {
        assert(ss.drop_last()[k] == ss[k]);
        law_vm_hoisted_visible(env, ss.drop_last(), k);
        match ss.last() {
            SStmt::Fn(d) => {
                if d.id == id {
                    let v = overload_value(scope_get(e.last(), id), d);
                    let r = env_insert(e, id, v);
                    assert(r.last() == e.last().push((id, v)));
                    assert(scope_get(r.last(), id) == Some(v));
                } else {
                    lemma_lookup_insert_other(e, d.id, overload_value(scope_get(e.last(), d.id), d), id);
                }
            },
            _ => {},
        }
    }
}

proof fn lemma_candidates_none(fs: Seq<SFn>, tys: Seq<RtType>)
    requires
        forall|j: int| 0 <= j < fs.len() ==> !accepts(#[trigger] fs[j], tys),
    ensures
        candidates(fs, tys).len() == 0,
    decreases fs.len(),
{
    if fs.len() > 0 {
        let init = fs.drop_last();
        assert forall|j: int| 0 <= j < init.len() implies !accepts(#[trigger] init[j], tys) by {
            assert(init[j] == fs[j]);
        }
        lemma_candidates_none(init, tys);
        assert(!accepts(fs[fs.len() - 1], tys));
    }
}

proof fn lemma_candidates_unique(fs: Seq<SFn>, tys: Seq<RtType>, i: int)
    requires
        0 <= i < fs.len(),
        accepts(fs[i], tys),
        forall|j: int| 0 <= j < fs.len() && j != i ==> !accepts(#[trigger] fs[j], tys),
    ensures
        candidates(fs, tys) == seq![fs[i]],
    decreases fs.len(),
{
    let init = fs.drop_last();
    if i == fs.len() - 1 {
        assert forall|j: int| 0 <= j < init.len() implies !accepts(#[trigger] init[j], tys) by {
            assert(init[j] == fs[j]);
        }
        lemma_candidates_none(init, tys);
        assert(candidates(init, tys) =~= Seq::<SFn>::empty());
        assert(Seq::<SFn>::empty().push(fs[i]) =~= seq![fs[i]]);
    } else {
        assert(init[i] == fs[i]);
        assert forall|j: int| 0 <= j < init.len() && j != i implies !accepts(#[trigger] init[j], tys) by {
            assert(init[j] == fs[j]);
        }
        lemma_candidates_unique(init, tys, i);
        assert(!accepts(fs[fs.len() - 1], tys));
    }
}

/// Overloading at run time: once the arguments are evaluated, a call runs
/// the one overload that accepts their runtime types; when none accepts
/// them, the call fails.
pub proof fn law_vm_overload_dispatch(
    f: nat,
    st: VmState,
    name: Seq<char>,
    args: Seq<SExpr>,
    fs: Seq<SFn>,
    vs: Seq<SVal>,
    tys: Seq<RtType>,
    i: int,
)
    requires
        f > 0,
        lookup_res(st.env, name) == Ok::<SVal, SError>(SVal::Overloads(fs)),
        sem_exprs(f, st, args).1 == Ok::<Seq<SVal>, SError>(vs),
        rt_types(vs) == Ok::<Seq<RtType>, SError>(tys),
    ensures
        0 <= i < fs.len() && accepts(fs[i], tys) && (forall|j: int|
            0 <= j < fs.len() && j != i ==> !accepts(#[trigger] fs[j], tys)) ==> sem_expr(f, st, SExpr::Call(name, args))
            == sem_call((f - 1) as nat, sem_exprs(f, st, args).0, fs[i], vs),
        (forall|j: int| 0 <= j < fs.len() ==> !accepts(#[trigger] fs[j], tys)) ==> sem_expr(
            f,
            st,
            SExpr::Call(name, args),
        ) == (sem_exprs(f, st, args).0, Err::<SVal, SError>(SError::NoMatchingOverload(name))),
{
    if 0 <= i < fs.len() && accepts(fs[i], tys) && (forall|j: int|
        0 <= j < fs.len() && j != i ==> !accepts(#[trigger] fs[j], tys)) {
        lemma_candidates_unique(fs, tys, i);
    }
    if forall|j: int| 0 <= j < fs.len() ==> !accepts(#[trigger] fs[j], tys) {
        lemma_candidates_none(fs, tys);
    }
}

/// `&&` and `||` in full: a left operand that is no boolean is an error;
/// one that decides the result is the result; otherwise the result is the
/// right operand's boolean, evaluated in the state the left one left, and
/// an error when it is no boolean.
pub proof fn law_logic_operands(f: nat, st: VmState, op: BinOp, l: SExpr, r: SExpr, lv: SVal)
    requires
        op == BinOp::And || op == BinOp::Or,
        sem_expr(f, st, l).1 == Ok::<SVal, SError>(lv),
    ensures
        ({
            let s1 = sem_expr(f, st, l).0;
            let res = sem_expr(f, st, SExpr::BinOp(op, Box::new(l), Box::new(r)));
            match sem_get_bool(lv) {
                Err(x) => res == (s1, Err::<SVal, SError>(x)),
                Ok(b) => if (op == BinOp::And && !b) || (op == BinOp::Or && b) {
                    res == (s1, Ok::<SVal, SError>(bool_val(b)))
                } else {
                    res.0 == sem_expr(f, s1, r).0 && match sem_expr(f, s1, r).1 {
                        Ok(rv) => match sem_get_bool(rv) {
                            Ok(c) => res.1 == Ok::<SVal, SError>(bool_val(c)),
                            Err(x) => res.1 == Err::<SVal, SError>(x),
                        },
                        Err(x) => res.1 == Err::<SVal, SError>(x),
                    }
                },
            }
        }),
{
}

/// `let` binds its name in the innermost scope, to the initializer's value
/// (wrapped as mutable for `let mut`, uninitialized without one): a lookup
/// finds it, the outer scopes are untouched (an outer binding of the name
/// is shadowed, not overwritten), and the statement's value is unit.
pub proof fn law_vm_let(f: nat, st: VmState, m: bool, name: Seq<char>, ty: Option<crate::ast::Type>, init: Option<SExpr>, v: SVal)
    requires
        st.env.len() >= 1,
        match init {
            Some(e) => sem_expr(f, st, e).1 == Ok::<SVal, SError>(v),
            None => v == SVal::UnInit,
        },
    ensures
        ({
            let s1 = match init {
                Some(e) => sem_expr(f, st, e).0,
                None => st,
            };
            let bound = if m { SVal::Mut(Box::new(v)) } else { v };
            let res = sem_stmt(f, st, SStmt::Let(m, name, ty, init));
            &&& res.1 == Ok::<SVal, SError>(unit_val())
            &&& res.0.out == s1.out
            &&& s1.env.len() >= 1 ==> {
                &&& env_lookup(res.0.env, name) == Some(bound)
                &&& res.0.env.len() == s1.env.len()
                &&& res.0.env.drop_last() == s1.env.drop_last()
            }
        }),
{
    let s1 = match init {
        Some(e) => sem_expr(f, st, e).0,
        None => st,
    };
    let bound = if m { SVal::Mut(Box::new(v)) } else { v };
    if s1.env.len() >= 1 {
        law_lookup_after_insert(s1.env, name, bound);
        assert(env_insert(s1.env, name, bound).drop_last() =~= s1.env.drop_last());
    }
}

/// Assigning to a mutable variable (or giving an uninitialized one its
/// first value) updates the binding that a lookup finds, and leaves every
/// other name as it was; the statement's value is unit.
pub proof fn law_vm_assign_mutable(f: nat, st: VmState, name: Seq<char>, rhs: SExpr, v: SVal, cur: SVal, other: Seq<char>)
    requires
        sem_expr(f, st, rhs).1 == Ok::<SVal, SError>(v),
        lookup_res(sem_expr(f, st, rhs).0.env, name) == Ok::<SVal, SError>(cur),
        cur is Mut || cur is UnInit,
        other != name,
    ensures
        ({
            let s1 = sem_expr(f, st, rhs).0;
            let nv = if cur is Mut { SVal::Mut(Box::new(v)) } else { v };
            let res = sem_stmt(f, st, SStmt::Assign(SExpr::Ident(name), rhs));
            &&& res.1 == Ok::<SVal, SError>(unit_val())
            &&& env_lookup(res.0.env, name) == Some(nv)
            &&& env_lookup(res.0.env, other) == env_lookup(s1.env, other)
            &&& res.0.env.len() == s1.env.len()
        }),
{
    let s1 = sem_expr(f, st, rhs).0;
    let nv = if cur is Mut { SVal::Mut(Box::new(v)) } else { v };
    law_update_then_lookup(s1.env, name, nv, other);
}

/// A `while` loop that ends without error has the value unit.
pub proof fn law_while_unit(f: nat, st: VmState, c: SExpr, b: SBlock)
    ensures
        sem_stmt(f, st, SStmt::While(c, b)).1 is Ok ==> sem_stmt(f, st, SStmt::While(c, b)).1 == Ok::<SVal, SError>(unit_val()),
    decreases f,
{
    let (s1, rc) = sem_expr(f, st, c);
    if let Ok(cv) = rc {
        if let Ok(go) = sem_get_bool(cv) {
            if go {
                let (s2, rb) = sem_block(f, s1, b);
                if rb is Ok && f > 0 {
                    law_while_unit((f - 1) as nat, s2, c, b);
                }
            }
        }
    }
}

/// A call of a function declared with another number of parameters than
/// the call has arguments fails before any argument is evaluated.
pub proof fn law_vm_call_arity(f: nat, st: VmState, name: Seq<char>, args: Seq<SExpr>, d: SFn)
    requires
        lookup_res(st.env, name) == Ok::<SVal, SError>(SVal::Fun(d)),
        d.params.len() != args.len(),
    ensures
        sem_expr(f, st, SExpr::Call(name, args)) == (
            st,
            Err::<SVal, SError>(SError::ArgCount(name, d.params.len() as usize, args.len() as usize)),
        ),
{
}

/// Assigning through a `&mut` reference to a mutable variable stores the
/// value in that variable (a lookup of it finds the new value) and leaves
/// every other name as it was; the statement's value is unit.
pub proof fn law_vm_assign_through_mut_ref(
    f: nat,
    st: VmState,
    name: Seq<char>,
    target: Seq<char>,
    rhs: SExpr,
    v: SVal,
    cur: SVal,
    other: Seq<char>,
)
    requires
        sem_expr(f, st, rhs).1 == Ok::<SVal, SError>(v),
        lookup_res(sem_expr(f, st, rhs).0.env, name) == Ok::<SVal, SError>(SVal::RefName(target, true)),
        lookup_res(sem_expr(f, st, rhs).0.env, target) == Ok::<SVal, SError>(cur),
        cur is Mut,
        other != target,
    ensures
        ({
            let s1 = sem_expr(f, st, rhs).0;
            let res = sem_stmt(f, st, SStmt::Assign(SExpr::UnOp(UnOp::Deref, Box::new(SExpr::Ident(name))), rhs));
            &&& res.1 == Ok::<SVal, SError>(unit_val())
            &&& env_lookup(res.0.env, target) == Some(SVal::Mut(Box::new(v)))
            &&& env_lookup(res.0.env, other) == env_lookup(s1.env, other)
        }),
{
    let s1 = sem_expr(f, st, rhs).0;
    law_update_then_lookup(s1.env, target, SVal::Mut(Box::new(v)), other);
}

// ---------------------------------------------------------------------
// Names declared in a block are local to it.
// ---------------------------------------------------------------------

/// The first `n` scopes of `a` and `b` bind the same names.
pub open spec fn same_names(a: Seq<Scope>, b: Seq<Scope>, n: int) -> bool {
    forall|k: int, x: Seq<char>|
        #![trigger scope_get(a[k], x)]
        #![trigger scope_get(b[k], x)]
        0 <= k < n ==> (scope_get(a[k], x) is Some) == (scope_get(b[k], x) is Some)
}

proof fn lemma_scope_set_names(m: Scope, name: Seq<char>, v: SVal, x: Seq<char>)
    ensures
        (scope_get(scope_set(m, name, v), x) is Some) == (scope_get(m, x) is Some),
    decreases m.len(),
{
    if m.len() > 0 && m.last().0 != name {
        lemma_scope_set_names(m.drop_last(), name, v, x);
        assert(scope_set(m, name, v).drop_last() == scope_set(m.drop_last(), name, v));
    } else if m.len() > 0 {
        assert(scope_set(m, name, v).drop_last() == m.drop_last());
    }
}

proof fn lemma_update_names(sc: Seq<Scope>, name: Seq<char>, v: SVal)
    ensures
        env_update(sc, name, v) matches Some(r) ==> r.len() == sc.len() && same_names(sc, r, sc.len() as int),
    decreases sc.len(),
{
    if sc.len() > 0 {
        if scope_get(sc.last(), name) is Some {
            let r = sc.drop_last().push(scope_set(sc.last(), name, v));
            assert forall|k: int, x: Seq<char>| 0 <= k < sc.len() implies (scope_get(sc[k], x) is Some) == (scope_get(
                r[k],
                x,
            ) is Some) by {
                if k == sc.len() - 1 {
                    lemma_scope_set_names(sc.last(), name, v, x);
                } else {
                    assert(r[k] == sc[k]);
                }
            }
        } else {
            lemma_update_names(sc.drop_last(), name, v);
            if let Some(r0) = env_update(sc.drop_last(), name, v) {
                let r = r0.push(sc.last());
                assert forall|k: int, x: Seq<char>| 0 <= k < sc.len() implies (scope_get(sc[k], x) is Some) == (scope_get(
                    r[k],
                    x,
                ) is Some) by {
                    if k < sc.len() - 1 {
                        assert(sc[k] == sc.drop_last()[k]);
                        assert(r[k] == r0[k]);
                    }
                }
            }
        }
    }
}

proof fn lemma_insert_names(sc: Seq<Scope>, name: Seq<char>, v: SVal)
    ensures
        env_insert(sc, name, v).len() == sc.len(),
        same_names(sc, env_insert(sc, name, v), sc.len() - 1),
{
    if sc.len() > 0 {
        let r = env_insert(sc, name, v);
        assert forall|k: int| 0 <= k < sc.len() - 1 implies r[k] == sc[k] by {
            assert(r[k] == sc.drop_last()[k]);
        }
    }
}

proof fn lemma_bind_names(env: Seq<Scope>, ps: Seq<SParam>, args: Seq<SVal>, n: int)
    ensures
        bind_params(env, ps, args, n).len() == env.len(),
        same_names(env, bind_params(env, ps, args, n), env.len() - 1),
    decreases n,
{
    if n > 0 {
        lemma_bind_names(env, ps, args, n - 1);
        let e = bind_params(env, ps, args, n - 1);
        lemma_insert_names(e, ps[n - 1].id, crate::vm::param_value(ps[n - 1], args[n - 1]));
    }
}

proof fn lemma_hoist_names(env: Seq<Scope>, ss: Seq<SStmt>)
    ensures
        hoist(env, ss).len() == env.len(),
        same_names(env, hoist(env, ss), env.len() - 1),
    decreases ss.len(),
{
    if ss.len() > 0 {
        lemma_hoist_names(env, ss.drop_last());
        let e = hoist(env, ss.drop_last());
        if let SStmt::Fn(d) = ss.last() {
            lemma_insert_names(e, d.id, overload_value(scope_get(e.last(), d.id), d));
        }
    }
}

proof fn lemma_names_trans(a: Seq<Scope>, b: Seq<Scope>, c: Seq<Scope>, n: int, m: int)
    requires
        same_names(a, b, n),
        same_names(b, c, m),
    ensures
        same_names(a, c, if n <= m { n } else { m }),
{
    let p = if n <= m { n } else { m };
    assert forall|k: int, x: Seq<char>| 0 <= k < p implies (scope_get(a[k], x) is Some) == (scope_get(c[k], x) is Some) by {
        assert((scope_get(a[k], x) is Some) == (scope_get(b[k], x) is Some));
        assert((scope_get(b[k], x) is Some) == (scope_get(c[k], x) is Some));
    }
}

proof fn lemma_names_pop(a: Seq<Scope>, b: Seq<Scope>, n: int)
    requires
        same_names(a.push(Scope::empty()), b, n),
        n <= a.len(),
        b.len() == a.len() + 1,
    ensures
        same_names(a, b.drop_last(), n),
{
    assert forall|k: int, x: Seq<char>| 0 <= k < n implies (scope_get(a[k], x) is Some) == (scope_get(
        b.drop_last()[k],
        x,
    ) is Some) by {
        assert(a.push(Scope::empty())[k] == a[k]);
        assert((scope_get(a.push(Scope::empty())[k], x) is Some) == (scope_get(b[k], x) is Some));
        if k < b.len() - 1 {
            assert(b.drop_last()[k] == b[k]);
        }
    }
}

proof fn lemma_names_push(a: Seq<Scope>)
    ensures
        same_names(a, a.push(Scope::empty()), a.len() as int),
{
    assert forall|k: int| 0 <= k < a.len() implies a.push(Scope::empty())[k] == a[k] by {}
}

proof fn lemma_expr_names(f: nat, st: VmState, e: SExpr)
    ensures
        sem_expr(f, st, e).1 is Ok ==> same_names(st.env, sem_expr(f, st, e).0.env, st.env.len() as int),
    decreases f, e,
{
    match e {
        SExpr::Par(i) => lemma_expr_names(f, st, *i),
        SExpr::Ref(i, _) => if !(*i is Ident) {
            lemma_expr_names(f, st, *i);
        },
        SExpr::UnOp(_, i) => lemma_expr_names(f, st, *i),
        SExpr::BinOp(_, l, r) => {
            lemma_expr_names(f, st, *l);
            let s1 = sem_expr(f, st, *l).0;
            lemma_expr_keeps(f, st, *l);
            lemma_expr_names(f, s1, *r);
            if sem_expr(f, st, *l).1 is Ok && sem_expr(f, s1, *r).1 is Ok {
                lemma_names_trans(st.env, s1.env, sem_expr(f, s1, *r).0.env, st.env.len() as int, s1.env.len() as int);
            }
        },
        SExpr::IfThenElse(c, t, eo) => {
            lemma_expr_names(f, st, *c);
            lemma_expr_keeps(f, st, *c);
            let s1 = sem_expr(f, st, *c).0;
            if sem_expr(f, st, *c).1 is Ok {
                lemma_block_names(f, s1, t);
                if sem_block(f, s1, t).1 is Ok {
                    lemma_names_trans(st.env, s1.env, sem_block(f, s1, t).0.env, st.env.len() as int, s1.env.len() as int);
                }
                if let Some(eb) = eo {
                    lemma_block_names(f, s1, eb);
                    if sem_block(f, s1, eb).1 is Ok {
                        lemma_names_trans(st.env, s1.env, sem_block(f, s1, eb).0.env, st.env.len() as int, s1.env.len() as int);
                    }
                }
            }
        },
        SExpr::Block(b) => lemma_block_names(f, st, b),
        SExpr::Call(name, args) => {
            lemma_exprs_names(f, st, args);
            lemma_exprs_keeps(f, st, args);
            let (s1, ra) = sem_exprs(f, st, args);
            if let Ok(vs) = ra {
                match lookup_res(st.env, name) {
                    Ok(SVal::Fun(decl)) => {
                        if f > 0 {
                            lemma_call_names((f - 1) as nat, s1, decl, vs);
                            let c = sem_call((f - 1) as nat, s1, decl, vs);
                            if c.1 is Ok {
                                lemma_names_trans(st.env, s1.env, c.0.env, st.env.len() as int, s1.env.len() as int);
                            }
                        }
                    },
                    Ok(SVal::Overloads(fs)) => {
                        if let Ok(tys) = rt_types(vs) {
                            let c = candidates(fs, tys);
                            if f > 0 && c.len() == 1 {
                                lemma_call_names((f - 1) as nat, s1, c[0], vs);
                                let k = sem_call((f - 1) as nat, s1, c[0], vs);
                                if k.1 is Ok {
                                    lemma_names_trans(st.env, s1.env, k.0.env, st.env.len() as int, s1.env.len() as int);
                                }
                            }
                        }
                    },
                    _ => {},
                }
            }
        },
        _ => {},
    }
}

proof fn lemma_exprs_names(f: nat, st: VmState, es: Seq<SExpr>)
    ensures
        sem_exprs(f, st, es).1 is Ok ==> same_names(st.env, sem_exprs(f, st, es).0.env, st.env.len() as int),
    decreases f, es,
{
    if es.len() > 0 {
        lemma_exprs_names(f, st, es.drop_last());
        lemma_exprs_keeps(f, st, es.drop_last());
        let s1 = sem_exprs(f, st, es.drop_last()).0;
        if sem_exprs(f, st, es.drop_last()).1 is Ok {
            lemma_expr_names(f, s1, es.last());
            if sem_expr(f, s1, es.last()).1 is Ok {
                lemma_names_trans(st.env, s1.env, sem_expr(f, s1, es.last()).0.env, st.env.len() as int, s1.env.len() as int);
            }
        }
    }
}

proof fn lemma_call_names(f: nat, st: VmState, decl: SFn, args: Seq<SVal>)
    ensures
        sem_call(f, st, decl, args).1 is Ok ==> same_names(st.env, sem_call(f, st, decl, args).0.env, st.env.len() as int),
    decreases f, decl,
{
    let n = if decl.params.len() <= args.len() { decl.params.len() as int } else { args.len() as int };
    let e0 = st.env.push(Scope::empty());
    let env1 = bind_params(e0, decl.params, args, n);
    lemma_bind_names(e0, decl.params, args, n);
    let s0 = with_env(st, env1);
    lemma_block_names(f, s0, decl.body);
    lemma_block_keeps(f, s0, decl.body);
    let s2 = sem_block(f, s0, decl.body).0;
    if sem_call(f, st, decl, args).1 is Ok && sem_block(f, s0, decl.body).1 is Ok {
        lemma_names_trans(e0, env1, s2.env, st.env.len() as int, env1.len() as int);
        lemma_names_pop(st.env, s2.env, st.env.len() as int);
    }
}

proof fn lemma_block_names(f: nat, st: VmState, b: SBlock)
    ensures
        sem_block(f, st, b).1 is Ok ==> same_names(st.env, sem_block(f, st, b).0.env, st.env.len() as int),
    decreases f, b,
{
    let e0 = st.env.push(Scope::empty());
    let s1 = with_env(st, hoist(e0, b.stmts));
    lemma_hoist_names(e0, b.stmts);
    lemma_stmts_names(f, s1, b.stmts);
    lemma_stmts_keeps(f, s1, b.stmts);
    let s2 = sem_stmts(f, s1, b.stmts).0;
    if sem_block(f, st, b).1 is Ok {
        lemma_names_trans(e0, s1.env, s2.env, st.env.len() as int, s1.env.len() - 1);
        lemma_names_pop(st.env, s2.env, st.env.len() as int);
    }
}

proof fn lemma_stmts_names(f: nat, st: VmState, ss: Seq<SStmt>)
    ensures
        sem_stmts(f, st, ss).1 is Ok ==> same_names(st.env, sem_stmts(f, st, ss).0.env, st.env.len() - 1),
    decreases f, ss,
{
    if ss.len() > 0 {
        lemma_stmts_names(f, st, ss.drop_last());
        lemma_stmts_keeps(f, st, ss.drop_last());
        let s1 = sem_stmts(f, st, ss.drop_last()).0;
        if sem_stmts(f, st, ss.drop_last()).1 is Ok {
            lemma_stmt_names(f, s1, ss.last());
            if sem_stmt(f, s1, ss.last()).1 is Ok {
                lemma_names_trans(st.env, s1.env, sem_stmt(f, s1, ss.last()).0.env, st.env.len() - 1, s1.env.len() - 1);
            }
        }
    }
}

proof fn lemma_stmt_names(f: nat, st: VmState, s: SStmt)
    ensures
        sem_stmt(f, st, s).1 is Ok ==> same_names(st.env, sem_stmt(f, st, s).0.env, st.env.len() - 1),
    decreases f, s,
{
    match s {
        SStmt::Let(m, name, _, init) => {
            let s1 = match init {
                Some(e) => sem_expr(f, st, e).0,
                None => st,
            };
            if let Some(e) = init {
                lemma_expr_names(f, st, e);
                lemma_expr_keeps(f, st, e);
            }
            if sem_stmt(f, st, s).1 is Ok {
                let v = match init {
                    Some(e) => sem_expr(f, st, e).1->Ok_0,
                    None => SVal::UnInit,
                };
                lemma_insert_names(s1.env, name, if m { SVal::Mut(Box::new(v)) } else { v });
                lemma_names_trans(st.env, s1.env, sem_stmt(f, st, s).0.env, st.env.len() as int, s1.env.len() - 1);
            }
        },
        SStmt::Assign(lhs, rhs) => {
            lemma_expr_names(f, st, rhs);
            lemma_expr_keeps(f, st, rhs);
            let s1 = sem_expr(f, st, rhs).0;
            assert forall|name: Seq<char>, v: SVal| true implies (#[trigger] env_update(s1.env, name, v)) matches Some(r) ==> r.len()
                == s1.env.len() && same_names(s1.env, r, s1.env.len() as int) by {
                lemma_update_names(s1.env, name, v);
            }
            if sem_stmt(f, st, s).1 is Ok {
                let r = sem_stmt(f, st, s).0.env;
                assert(same_names(s1.env, r, s1.env.len() as int));
                lemma_names_trans(st.env, s1.env, r, st.env.len() as int, s1.env.len() as int);
            }
        },
        SStmt::While(c, b) => {
            lemma_expr_names(f, st, c);
            lemma_expr_keeps(f, st, c);
            let s1 = sem_expr(f, st, c).0;
            if sem_expr(f, st, c).1 is Ok {
                lemma_block_names(f, s1, b);
                lemma_block_keeps(f, s1, b);
                let s2 = sem_block(f, s1, b).0;
                if sem_block(f, s1, b).1 is Ok {
                    lemma_names_trans(st.env, s1.env, s2.env, st.env.len() as int, s1.env.len() as int);
                    if f > 0 {
                        let g = (f - 1) as nat;
                        lemma_stmt_names(g, s2, SStmt::While(c, b));
                        if sem_stmt(g, s2, SStmt::While(c, b)).1 is Ok {
                            lemma_names_trans(st.env, s2.env, sem_stmt(g, s2, SStmt::While(c, b)).0.env, st.env.len() as int, s2.env.len() - 1);
                        }
                    }
                }
                assert(same_names(st.env, s1.env, st.env.len() - 1));
            }
        },
        SStmt::Expr(e) => lemma_expr_names(f, st, e),
        SStmt::Fn(_) => {},
    }
}

proof fn lemma_names_lookup(a: Seq<Scope>, b: Seq<Scope>, x: Seq<char>)
    requires
        a.len() == b.len(),
        same_names(a, b, a.len() as int),
    ensures
        (env_lookup(a, x) is None) == (env_lookup(b, x) is None),
    decreases a.len(),
{
    if a.len() > 0 {
        assert(a.last() == a[a.len() - 1] && b.last() == b[b.len() - 1]);
        assert((scope_get(a[a.len() - 1], x) is Some) == (scope_get(b[b.len() - 1], x) is Some));
        assert forall|k: int, y: Seq<char>| 0 <= k < a.len() - 1 implies (scope_get(a.drop_last()[k], y) is Some) == (
        scope_get(b.drop_last()[k], y) is Some) by {
            assert(a.drop_last()[k] == a[k]);
            assert(b.drop_last()[k] == b[k]);
            assert((scope_get(a[k], y) is Some) == (scope_get(b[k], y) is Some));
        }
        lemma_names_lookup(a.drop_last(), b.drop_last(), x);
    }
}

/// Block scoping in the interpreter: a block that ends without error
/// leaves every scope around it binding exactly the names it bound before
/// (values may change by assignment); so a name declared in the block,
/// by `let` or `fn`, is unbound after it unless it was bound before.
pub proof fn law_vm_block_names_local(f: nat, st: VmState, b: SBlock, x: Seq<char>)
    ensures
        sem_block(f, st, b).1 is Ok ==> same_names(st.env, sem_block(f, st, b).0.env, st.env.len() as int),
        sem_block(f, st, b).1 is Ok && env_lookup(st.env, x) is None ==> env_lookup(sem_block(f, st, b).0.env, x) is None,
{
    lemma_block_names(f, st, b);
    lemma_block_keeps(f, st, b);
    if sem_block(f, st, b).1 is Ok {
        lemma_names_lookup(st.env, sem_block(f, st, b).0.env, x);
    }
}

} // verus!
