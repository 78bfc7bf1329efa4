use crate::assoc::{assoc_get, assoc_put, law_stack_push_get, law_stack_put_get, stack_get, stack_push, stack_put, Assoc};
use crate::ast::{Mutable, SBlock, SExpr, SFn, SParam, SStmt, Type, UnOp};
use crate::error::SError;
use crate::type_check::{
    declare_params, exact_matches, fun_entry, tc_fn, with_vars, fun_insert, has_dup, param_types, same_sig, tc_block, tc_expr, tc_exprs, tc_hoist, tc_stmt,
    tc_stmts, FunScopes, TcState, VarScopes,
};
use vstd::prelude::*;

verus! {

/// `b` has as many scopes as `a` and agrees with it on all but the
/// innermost one.
pub open spec fn same_outer<V>(a: Seq<Assoc<V>>, b: Seq<Assoc<V>>) -> bool {
    &&& a.len() == b.len()
    &&& a.len() > 0 ==> a.drop_last() == b.drop_last()
}

proof fn lemma_fun_insert_outer(sc: FunScopes, id: Seq<char>, d: SFn)
    ensures
        fun_insert(sc, id, d) matches Ok(r) ==> same_outer(sc, r),
{
    if sc.len() > 0 {
        assert forall|x: Assoc<Seq<SFn>>| true implies #[trigger] sc.drop_last().push(x).drop_last() == sc.drop_last() by {
            assert(sc.drop_last().push(x).drop_last() =~= sc.drop_last());
        }
    }
}

proof fn lemma_hoist_outer(sc: FunScopes, ss: Seq<SStmt>)
    ensures
        tc_hoist(sc, ss).1 is Ok ==> same_outer(sc, tc_hoist(sc, ss).0),
    decreases ss.len(),
{
    if ss.len() > 0 {
        lemma_hoist_outer(sc, ss.drop_last());
        let s1 = tc_hoist(sc, ss.drop_last()).0;
        match ss.last() {
            SStmt::Fn(d) => lemma_fun_insert_outer(s1, d.id, d),
            _ => {},
        }
    }
}

proof fn lemma_push_outer<V>(sc: Seq<Assoc<V>>, k: Seq<char>, v: V)
    ensures
        same_outer(sc, stack_push(sc, k, v)),
{
    if sc.len() > 0 {
        assert(stack_push(sc, k, v).drop_last() =~= sc.drop_last());
    }
}

proof fn lemma_expr_pure(st: TcState, e: SExpr)
    ensures
        tc_expr(st, e).1 is Ok ==> tc_expr(st, e).0 == st,
    decreases e,
{
    match e {
        SExpr::Par(i) => lemma_expr_pure(st, *i),
        SExpr::BinOp(_, l, r) => {
            lemma_expr_pure(st, *l);
            lemma_expr_pure(st, *r);
        },
        SExpr::UnOp(_, i) => lemma_expr_pure(st, *i),
        SExpr::Call(_, args) => lemma_exprs_pure(st, args),
        SExpr::IfThenElse(c, t, eo) => {
            lemma_expr_pure(st, *c);
            lemma_block_pure(st, t);
            match eo {
                Some(eb) => lemma_block_pure(st, eb),
                None => {},
            }
        },
        SExpr::Block(b) => lemma_block_pure(st, b),
        SExpr::Ref(i, _) => lemma_expr_pure(st, *i),
        _ => {},
    }
}

proof fn lemma_exprs_pure(st: TcState, es: Seq<SExpr>)
    ensures
        tc_exprs(st, es).1 is Ok ==> tc_exprs(st, es).0 == st,
    decreases es,
{
    if es.len() > 0 {
        lemma_exprs_pure(st, es.drop_last());
        lemma_expr_pure(st, es.last());
    }
}

proof fn lemma_block_pure(st: TcState, b: SBlock)
    ensures
        tc_block(st, b).1 is Ok ==> tc_block(st, b).0 == st,
    decreases b,
{
    let s0 = TcState { vars: st.vars.push(Assoc::empty()), funs: st.funs.push(Assoc::empty()) };
    assert(s0.vars.drop_last() =~= st.vars);
    assert(s0.funs.drop_last() =~= st.funs);
    lemma_hoist_outer(s0.funs, b.stmts);
    let f1 = tc_hoist(s0.funs, b.stmts).0;
    if tc_hoist(s0.funs, b.stmts).1 is Ok {
        lemma_stmts_scoped(TcState { vars: s0.vars, funs: f1 }, b.stmts);
    }
}

proof fn lemma_stmts_scoped(st: TcState, ss: Seq<SStmt>)
    ensures
        tc_stmts(st, ss).1 is Ok ==> tc_stmts(st, ss).0.funs == st.funs && same_outer(st.vars, tc_stmts(st, ss).0.vars),
    decreases ss,
{
    if ss.len() > 0 {
        lemma_stmts_scoped(st, ss.drop_last());
        let s1 = tc_stmts(st, ss.drop_last()).0;
        lemma_stmt_scoped(s1, ss.last());
    }
}

proof fn lemma_stmt_scoped(st: TcState, s: SStmt)
    ensures
        tc_stmt(st, s).1 is Ok ==> tc_stmt(st, s).0.funs == st.funs && same_outer(st.vars, tc_stmt(st, s).0.vars),
    decreases s,
{
    match s {
        SStmt::Let(m, id, ty, init) => {
            match init {
                Some(e) => lemma_expr_pure(st, e),
                None => {},
            }
            assert forall|t: Type| true implies same_outer(st.vars, #[trigger] stack_push(st.vars, id, (t, m))) by {
                lemma_push_outer(st.vars, id, (t, m));
            }
        },
        SStmt::Assign(_, rhs) => lemma_expr_pure(st, rhs),
        SStmt::While(c, b) => {
            lemma_expr_pure(st, c);
            lemma_block_pure(st, b);
        },
        SStmt::Expr(e) => lemma_expr_pure(st, e),
        SStmt::Fn(f) => lemma_fn_pure(st, f),
    }
}

proof fn lemma_declare_outer(vars: VarScopes, ps: Seq<SParam>)
    ensures
        same_outer(vars, declare_params(vars, ps)),
    decreases ps.len(),
{
    if ps.len() > 0 {
        lemma_declare_outer(vars, ps.drop_last());
        let v = declare_params(vars, ps.drop_last());
        lemma_push_outer(v, ps.last().id, (ps.last().ty, ps.last().mutable));
    }
}

/// Checking a function declaration that succeeds leaves the state as it was.
proof fn lemma_fn_pure(st: TcState, f: SFn)
    ensures
        tc_fn(st, f).1 is Ok ==> tc_fn(st, f).0 == st,
    decreases f,
{
    let v0 = st.vars.push(Assoc::empty());
    let s0 = with_vars(st, declare_params(v0, f.params));
    lemma_declare_outer(v0, f.params);
    assert(v0.drop_last() =~= st.vars);
    lemma_block_pure(s0, f.body);
}

/// Checking an expression that has a type changes nothing in the checker's
/// state: whatever a block inside it declares is gone again.
pub proof fn law_tc_expr_pure(st: TcState, e: SExpr)
    ensures
        tc_expr(st, e).1 is Ok ==> tc_expr(st, e).0 == st,
{
    lemma_expr_pure(st, e);
}

/// A block that checks leaves the variable and function scopes exactly as
/// it found them: its declarations are local to it.
pub proof fn law_tc_block_scoped(st: TcState, b: SBlock)
    ensures
        tc_block(st, b).1 is Ok ==> tc_block(st, b).0 == st,
{
    lemma_block_pure(st, b);
}

/// A statement that checks changes at most the innermost variable scope,
/// and never the function scopes.
pub proof fn law_tc_stmt_local(st: TcState, s: SStmt)
    ensures
        tc_stmt(st, s).1 is Ok ==> tc_stmt(st, s).0.funs == st.funs && same_outer(st.vars, tc_stmt(st, s).0.vars),
{
    lemma_stmt_scoped(st, s);
}

/// Assigning to a variable declared without `mut` is a type error, whatever
/// is assigned, and leaves the state as it was.
pub proof fn law_tc_assign_immutable(st: TcState, name: Seq<char>, t: Type, rhs: SExpr)
    requires
        stack_get(st.vars, name) == Some((t, false)),
    ensures
        tc_stmt(st, SStmt::Assign(SExpr::Ident(name), rhs)) == (st, Err::<Type, SError>(SError::AssignImmutable(name))),
{
}

/// Assigning through a reference that is not `&mut` is a type error,
/// whatever is assigned.
pub proof fn law_tc_assign_through_shared_ref(st: TcState, name: Seq<char>, t: Type, m: bool, rhs: SExpr)
    requires
        stack_get(st.vars, name) == Some((Type::Ref(Box::new(t), Mutable(false)), m)),
    ensures
        tc_stmt(st, SStmt::Assign(SExpr::UnOp(UnOp::Deref, Box::new(SExpr::Ident(name))), rhs)) == (
            st,
            Err::<Type, SError>(SError::AssignThroughImmutableRef(name)),
        ),
{
}

proof fn lemma_put_other<V>(m: Assoc<V>, k: Seq<char>, x: V, name: Seq<char>)
    requires
        k != name,
    ensures
        assoc_get(assoc_put(m, k, x), name) == assoc_get(m, name),
{
    if assoc_get(m, k) is Some {
        crate::assoc::lemma_assoc_set_get(m, k, x, name);
    } else {
        assert(m.push((k, x)).drop_last() =~= m);
    }
}

/// What hoisting declares lands in the innermost function scope.
proof fn lemma_hoist_in_top(sc: FunScopes, ss: Seq<SStmt>, k: int)
    requires
        sc.len() >= 1,
        0 <= k < ss.len(),
        ss[k] is Fn,
        tc_hoist(sc, ss).1 is Ok,
    ensures
        fun_entry(tc_hoist(sc, ss).0.last(), ss[k]->Fn_0.id).contains(ss[k]->Fn_0),
    decreases ss.len(),
{
    let d = ss[k]->Fn_0;
    let s1 = tc_hoist(sc, ss.drop_last()).0;
    lemma_hoist_outer(sc, ss.drop_last());
    if k == ss.len() - 1 {
        let e = fun_entry(s1.last(), d.id).push(d);
        let top = assoc_put(s1.last(), d.id, e);
        crate::assoc::lemma_assoc_put_get(s1.last(), d.id, e);
        assert(e[e.len() - 1] == d);
    } else {
        assert(ss.drop_last()[k] == ss[k]);
        lemma_hoist_in_top(sc, ss.drop_last(), k);
        match ss.last() {
            SStmt::Fn(d2) => {
                let e2 = fun_entry(s1.last(), d2.id).push(d2);
                if d2.id == d.id {
                    crate::assoc::lemma_assoc_put_get(s1.last(), d2.id, e2);
                    let top = fun_entry(s1.last(), d.id);
                    let j = choose|j: int| 0 <= j < top.len() && top[j] == d;
                    assert(e2[j] == d);
                } else {
                    lemma_put_other(s1.last(), d2.id, e2, d.id);
                }
            },
            _ => {},
        }
    }
}

/// Function hoisting in the checker: when a block's functions are declared
/// without error, each of them is among the overloads that its name finds.
pub proof fn law_tc_hoisted_visible(sc: FunScopes, ss: Seq<SStmt>, k: int)
    requires
        sc.len() >= 1,
        0 <= k < ss.len(),
        ss[k] is Fn,
        tc_hoist(sc, ss).1 is Ok,
    ensures
        stack_get(tc_hoist(sc, ss).0, ss[k]->Fn_0.id) matches Some(e) && e.contains(ss[k]->Fn_0),
{
    lemma_hoist_in_top(sc, ss, k);
    lemma_hoist_outer(sc, ss);
    let r = tc_hoist(sc, ss).0;
    let id = ss[k]->Fn_0.id;
    assert(assoc_get(r.last(), id) is Some);
}

proof fn lemma_hoist_prefix_ok(sc: FunScopes, ss: Seq<SStmt>, m: int)
    requires
        0 <= m <= ss.len(),
        tc_hoist(sc, ss).1 is Ok,
    ensures
        tc_hoist(sc, ss.take(m)).1 is Ok,
    decreases ss.len() - m,
{
    if m < ss.len() {
        assert(ss.take(m + 1).drop_last() =~= ss.take(m));
        lemma_hoist_prefix_ok(sc, ss, m + 1);
    } else {
        assert(ss.take(m) =~= ss);
    }
}

/// Overloads need different parameter types: a block that declares two
/// functions with the same name and the same parameter types is rejected.
pub proof fn law_tc_duplicate_rejected(sc: FunScopes, ss: Seq<SStmt>, i: int, j: int)
    requires
        sc.len() >= 1,
        0 <= i < j < ss.len(),
        ss[i] is Fn,
        ss[j] is Fn,
        ss[i]->Fn_0.id == ss[j]->Fn_0.id,
        same_sig(ss[i]->Fn_0, ss[j]->Fn_0),
    ensures
        tc_hoist(sc, ss).1 is Err,
{
    if tc_hoist(sc, ss).1 is Ok {
        let pre = ss.take(j);
        lemma_hoist_prefix_ok(sc, ss, j);
        assert(pre[i] == ss[i]);
        lemma_hoist_in_top(sc, pre, i);
        lemma_hoist_outer(sc, pre);
        lemma_hoist_prefix_ok(sc, ss, j + 1);
        assert(ss.take(j + 1).drop_last() =~= pre);
        assert(ss.take(j + 1).last() == ss[j]);
        let s1 = tc_hoist(sc, pre).0;
        let d = ss[i]->Fn_0;
        let d2 = ss[j]->Fn_0;
        let entry = fun_entry(s1.last(), d2.id);
        let q = choose|q: int| 0 <= q < entry.len() && entry[q] == d;
        assert(same_sig(entry[q], d2));
        assert(has_dup(entry, d2));
        assert(false);
    }
}

proof fn lemma_exact_none(fs: Seq<SFn>, tys: Seq<Type>)
    requires
        forall|j: int| 0 <= j < fs.len() ==> param_types(#[trigger] fs[j].params) != tys,
    ensures
        exact_matches(fs, tys).len() == 0,
    decreases fs.len(),
{
    if fs.len() > 0 {
        let init = fs.drop_last();
        assert forall|j: int| 0 <= j < init.len() implies param_types(#[trigger] init[j].params) != tys by {
            assert(init[j] == fs[j]);
        }
        lemma_exact_none(init, tys);
        assert(param_types(fs[fs.len() - 1].params) != tys);
    }
}

proof fn lemma_exact_unique(fs: Seq<SFn>, tys: Seq<Type>, i: int)
    requires
        0 <= i < fs.len(),
        param_types(fs[i].params) == tys,
        forall|j: int| 0 <= j < fs.len() && j != i ==> param_types(#[trigger] fs[j].params) != tys,
    ensures
        exact_matches(fs, tys) == seq![fs[i]],
    decreases fs.len(),
{
    let init = fs.drop_last();
    if i == fs.len() - 1 {
        assert forall|j: int| 0 <= j < init.len() implies param_types(#[trigger] init[j].params) != tys by {
            assert(init[j] == fs[j]);
        }
        lemma_exact_none(init, tys);
        assert(exact_matches(init, tys) =~= Seq::<SFn>::empty());
        assert(Seq::<SFn>::empty().push(fs[i]) =~= seq![fs[i]]);
    } else {
        assert(init[i] == fs[i]);
        assert forall|j: int| 0 <= j < init.len() && j != i implies param_types(#[trigger] init[j].params) != tys by {
            assert(init[j] == fs[j]);
        }
        lemma_exact_unique(init, tys, i);
        assert(param_types(fs[fs.len() - 1].params) != tys);
    }
}

/// Overloading in the checker: a call picks, among the overloads that its
/// name finds, the one whose parameter types are the argument types, and
/// has its result type (unit where it declares none); when no overload has
/// them, the call is an error.
pub proof fn law_tc_overload_dispatch(st: TcState, name: Seq<char>, args: Seq<SExpr>, fs: Seq<SFn>, tys: Seq<Type>, i: int)
    requires
        name != "println!"@,
        name != "assert_eq!"@,
        stack_get(st.funs, name) == Some(fs),
        tc_exprs(st, args).1 == Ok::<Seq<Type>, SError>(tys),
    ensures
        0 <= i < fs.len() && param_types(fs[i].params) == tys
            && (forall|j: int| 0 <= j < fs.len() && j != i ==> param_types(#[trigger] fs[j].params) != tys)
            ==> tc_expr(st, SExpr::Call(name, args)).1 == Ok::<Type, SError>(
            match fs[i].ty {
                Some(t) => t,
                None => Type::Unit,
            },
        ),
        (forall|j: int| 0 <= j < fs.len() ==> param_types(#[trigger] fs[j].params) != tys) ==> tc_expr(
            st,
            SExpr::Call(name, args),
        ).1 == Err::<Type, SError>(SError::NoMatchingOverload(name)),
{
    if 0 <= i < fs.len() && param_types(fs[i].params) == tys && (forall|j: int|
        0 <= j < fs.len() && j != i ==> param_types(#[trigger] fs[j].params) != tys) {
        lemma_exact_unique(fs, tys, i);
    }
    if forall|j: int| 0 <= j < fs.len() ==> param_types(#[trigger] fs[j].params) != tys {
        lemma_exact_none(fs, tys);
    }
}

/// The rule for `let`: it needs a type, declared or that of its
/// initializer; a declared type must be the initializer's; on success the
/// statement has type unit and the innermost scope binds the name with that
/// type and the declared mutability.
pub proof fn law_tc_let(st: TcState, m: bool, x: Seq<char>, ty: Option<Type>, init: Option<SExpr>)
    requires
        st.vars.len() >= 1,
    ensures
        ({
            let res = tc_stmt(st, SStmt::Let(m, x, ty, init));
            match init {
                None => match ty {
                    None => res == (st, Err::<Type, SError>(SError::UninitNoType(x))),
                    Some(at) => res.1 == Ok::<Type, SError>(Type::Unit) && stack_get(res.0.vars, x) == Some((at, m)),
                },
                Some(e) => match tc_expr(st, e).1 {
                    Err(_) => res.1 is Err,
                    Ok(te) => if ty is None || ty == Some(te) {
                        res.1 == Ok::<Type, SError>(Type::Unit) && stack_get(res.0.vars, x) == Some((te, m))
                    } else {
                        res.1 is Err
                    },
                },
            }
        }),
{
    match init {
        Some(e) => {
            lemma_expr_pure(st, e);
            if let Ok(te) = tc_expr(st, e).1 {
                law_stack_push_get(st.vars, x, (te, m), x);
            }
        },
        None => {
            if let Some(at) = ty {
                law_stack_push_get(st.vars, x, (at, m), x);
            }
        },
    }
}

/// Block scoping in the checker: a name that no scope binds before a block
/// is still unbound after the block checks, whatever the block declares.
pub proof fn law_tc_block_names_local(st: TcState, b: SBlock, x: Seq<char>)
    requires
        stack_get(st.vars, x) is None,
        stack_get(st.funs, x) is None,
    ensures
        tc_block(st, b).1 is Ok ==> stack_get(tc_block(st, b).0.vars, x) is None && stack_get(tc_block(st, b).0.funs, x) is None,
{
    lemma_block_pure(st, b);
}

} // verus!
