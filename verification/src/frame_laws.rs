use crate::assoc::{assoc_get, assoc_put, assoc_set, Assoc};
use crate::ast::{SBlock, SExpr, SFn, SLit, SStmt, UnOp};
use crate::codegen::{
    alloc_slot, block_has_value, cg_args, cg_binop, cg_block, cg_call, cg_expr, cg_if, cg_let, cg_assign,
    cg_pargs, cg_ref, cg_stmt, cg_stmts, cg_unop, cg_while, emit, fn_body_state, fresh_label, locals_block,
    param_slots, pop_reg, reserve, slot, store_computed, CgState,
};
use vstd::prelude::*;

verus! {

// ---------------------------------------------------------------------
// Every local variable lives inside its function's frame.
// ---------------------------------------------------------------------

/// All frame offsets known for locals, and all still reserved, lie in
/// `[lo, -4]`: below the saved frame pointer and above `lo`.
pub open spec fn in_frame(st: CgState, lo: int) -> bool {
    &&& forall|k: int| 0 <= k < st.locals.len() ==> lo <= #[trigger] st.locals[k].1 <= -4
    &&& forall|k: int, j: int|
        0 <= k < st.pending.len() && 0 <= j < st.pending[k].1.len() ==> lo <= #[trigger] st.pending[k].1[j] <= -4
}

proof fn lemma_set_elems<V>(m: Assoc<V>, k: Seq<char>, v: V)
    ensures
        assoc_set(m, k, v).len() == m.len(),
        forall|i: int| 0 <= i < m.len() ==> #[trigger] assoc_set(m, k, v)[i] == m[i] || assoc_set(m, k, v)[i] == (k, v),
    decreases m.len(),
{
    if m.len() > 0 && m.last().0 != k {
        lemma_set_elems(m.drop_last(), k, v);
        let r = assoc_set(m.drop_last(), k, v);
        assert forall|i: int| 0 <= i < m.len() implies #[trigger] assoc_set(m, k, v)[i] == m[i] || assoc_set(m, k, v)[i]
            == (k, v) by {
            if i < m.len() - 1 {
                assert(assoc_set(m, k, v)[i] == r[i]);
                assert(r[i] == m.drop_last()[i] || r[i] == (k, v));
            }
        }
    }
}

proof fn lemma_get_elem<V>(m: Assoc<V>, k: Seq<char>)
    ensures
        assoc_get(m, k) is Some ==> exists|i: int| 0 <= i < m.len() && #[trigger] m[i].1 == assoc_get(m, k)->0,
    decreases m.len(),
{
    if m.len() > 0 && m.last().0 != k {
        lemma_get_elem(m.drop_last(), k);
        if assoc_get(m, k) is Some {
            let i = choose|i: int| 0 <= i < m.drop_last().len() && #[trigger] m.drop_last()[i].1 == assoc_get(m, k)->0;
            assert(m[i] == m.drop_last()[i]);
        }
    } else if m.len() > 0 {
        assert(m[m.len() - 1].1 == assoc_get(m, k)->0);
    }
}

proof fn lemma_put_locals(m: Assoc<i32>, k: Seq<char>, v: i32, lo: int)
    requires
        forall|i: int| 0 <= i < m.len() ==> lo <= #[trigger] m[i].1 <= -4,
        lo <= v <= -4,
    ensures
        forall|i: int| 0 <= i < assoc_put(m, k, v).len() ==> lo <= #[trigger] assoc_put(m, k, v)[i].1 <= -4,
{
    lemma_set_elems(m, k, v);
    if assoc_get(m, k) is Some {
        assert forall|i: int| 0 <= i < assoc_put(m, k, v).len() implies lo <= #[trigger] assoc_put(m, k, v)[i].1 <= -4 by {
            assert(assoc_set(m, k, v)[i] == m[i] || assoc_set(m, k, v)[i] == (k, v));
        }
    } else {
        assert forall|i: int| 0 <= i < assoc_put(m, k, v).len() implies lo <= #[trigger] assoc_put(m, k, v)[i].1 <= -4 by {
            if i < m.len() {
                assert(m.push((k, v))[i] == m[i]);
            }
        }
    }
}

/// Taking a reserved slot keeps every slot in the frame, and the slot
/// taken is in it.
proof fn lemma_alloc_frame(st: CgState, id: Seq<char>, lo: int)
    requires
        in_frame(st, lo),
    ensures
        in_frame(alloc_slot(st, id).0, lo),
        alloc_slot(st, id).1 matches Ok(o) ==> lo <= o <= -4,
{
    lemma_get_elem(st.pending, id);
    match assoc_get(st.pending, id) {
        Some(v) => if v.len() > 0 {
            let i = choose|i: int| 0 <= i < st.pending.len() && #[trigger] st.pending[i].1 == v;
            assert(st.pending[i].1[0] == v[0]);
            lemma_put_locals(st.locals, id, v[0], lo);
            let w = v.skip(1);
            lemma_set_elems(st.pending, id, w);
            let p2 = assoc_set(st.pending, id, w);
            assert forall|k: int, j: int| 0 <= k < p2.len() && 0 <= j < p2[k].1.len() implies lo <= #[trigger] p2[k].1[j]
                <= -4 by {
                if p2[k] == (id, w) {
                    assert(w[j] == st.pending[i].1[j + 1]);
                } else {
                    assert(p2[k] == st.pending[k]);
                }
            }
        },
        None => {},
    }
}

/// The slots reserved for a function's first `k` locals lie in
/// `[-4 * nl, -4]` when `k <= nl`.
proof fn lemma_reserve_frame(ids: Seq<Seq<char>>, k: int, nl: int)
    requires
        0 <= k <= nl,
        nl <= 536870911,
    ensures
        forall|a: int, j: int|
            0 <= a < reserve(Assoc::<Seq<i32>>::empty(), ids, k).len() && 0 <= j < reserve(
                Assoc::<Seq<i32>>::empty(),
                ids,
                k,
            )[a].1.len() ==> -4 * nl <= #[trigger] reserve(Assoc::<Seq<i32>>::empty(), ids, k)[a].1[j] <= -4,
    decreases k,
{
    if k > 0 {
        lemma_reserve_frame(ids, k - 1, nl);
        let q = reserve(Assoc::<Seq<i32>>::empty(), ids, k - 1);
        lemma_get_elem(q, ids[k - 1]);
        let prev = match assoc_get(q, ids[k - 1]) {
            Some(v) => v,
            None => Seq::empty(),
        };
        let nv = prev.push((-4 - 4 * (k - 1)) as i32);
        let r = assoc_put(q, ids[k - 1], nv);
        lemma_set_elems(q, ids[k - 1], nv);
        assert forall|a: int, j: int| 0 <= a < r.len() && 0 <= j < r[a].1.len() implies -4 * nl <= #[trigger] r[a].1[j]
            <= -4 by {
            if r[a] == (ids[k - 1], nv) {
                if j < prev.len() {
                    let i = choose|i: int| 0 <= i < q.len() && #[trigger] q[i].1 == assoc_get(q, ids[k - 1])->0;
                    assert(nv[j] == q[i].1[j]);
                } else {
                    assert(nv[j] == (-4 - 4 * (k - 1)) as i32);
                    assert(-4 * nl <= -4 - 4 * (k - 1) <= -4);
                }
            } else if assoc_get(q, ids[k - 1]) is Some {
                assert(r[a] == q[a]);
            } else {
                assert(r[a] == q.push((ids[k - 1], nv))[a]);
                assert(r[a] == q[a]);
            }
        }
    }
}

/// The state in which a function's body is generated keeps every local in
/// the frame that it reserved: `[-4 * k, -4]` for its `k` collected `let`s.
pub proof fn law_fn_frame(st: CgState, f: SFn)
    requires
        locals_block(f.body.stmts).len() <= 536870911,
    ensures
        in_frame(fn_body_state(st, f), -4 * locals_block(f.body.stmts).len()),
{
    let nl = locals_block(f.body.stmts).len() as int;
    lemma_reserve_frame(locals_block(f.body.stmts), nl, nl);
}

proof fn lemma_frame_expr(st: CgState, e: SExpr, lo: int)
    requires
        in_frame(st, lo),
    ensures
        in_frame(cg_expr(st, e).0, lo),
    decreases e, 1nat,
{
    match e {
        SExpr::Par(i) => lemma_frame_expr(st, *i, lo),
        SExpr::BinOp(_, _, _) => lemma_frame_binop(st, e, lo),
        SExpr::UnOp(_, _) => lemma_frame_unop(st, e, lo),
        SExpr::Call(_, _) => lemma_frame_call(st, e, lo),
        SExpr::IfThenElse(_, _, _) => lemma_frame_if(st, e, lo),
        SExpr::Block(b) => lemma_frame_block(st, b, true, lo),
        SExpr::Ref(_, _) => lemma_frame_ref(st, e, lo),
        _ => {},
    }
}

proof fn lemma_frame_binop(st: CgState, e: SExpr, lo: int)
    requires
        in_frame(st, lo),
    ensures
        in_frame(cg_binop(st, e).0, lo),
    decreases e, 0nat,
{
    if let SExpr::BinOp(_, l, r) = e {
        lemma_frame_expr(st, *l, lo);
        lemma_frame_expr(cg_expr(st, *l).0, *r, lo);
    }
}

proof fn lemma_frame_unop(st: CgState, e: SExpr, lo: int)
    requires
        in_frame(st, lo),
    ensures
        in_frame(cg_unop(st, e).0, lo),
    decreases e, 0nat,
{
    if let SExpr::UnOp(_, i) = e {
        lemma_frame_expr(st, *i, lo);
    }
}

proof fn lemma_frame_ref(st: CgState, e: SExpr, lo: int)
    requires
        in_frame(st, lo),
    ensures
        in_frame(cg_ref(st, e).0, lo),
    decreases e, 0nat,
{
    if let SExpr::Ref(inner, _) = e {
        if !(*inner is Ident) {
            lemma_frame_expr(st, *inner, lo);
        }
    }
}

proof fn lemma_frame_call(st: CgState, e: SExpr, lo: int)
    requires
        in_frame(st, lo),
    ensures
        in_frame(cg_call(st, e).0, lo),
    decreases e, 0nat,
{
    if let SExpr::Call(name, args) = e {
        if name == "println!"@ {
            lemma_frame_pargs(st, args, lo);
        } else {
            lemma_frame_args(st, args, lo);
        }
    }
}

proof fn lemma_frame_pargs(st: CgState, es: Seq<SExpr>, lo: int)
    requires
        in_frame(st, lo),
    ensures
        in_frame(cg_pargs(st, es).0, lo),
    decreases es, 0nat,
{
    if es.len() > 0 {
        lemma_frame_pargs(st, es.drop_last(), lo);
        let s1 = cg_pargs(st, es.drop_last()).0;
        match es.last() {
            SExpr::Lit(SLit::Str(_)) => {},
            x => lemma_frame_expr(s1, x, lo),
        }
    }
}

proof fn lemma_frame_args(st: CgState, es: Seq<SExpr>, lo: int)
    requires
        in_frame(st, lo),
    ensures
        in_frame(cg_args(st, es).0, lo),
    decreases es, 0nat,
{
    if es.len() > 0 {
        lemma_frame_args(st, es.drop_last(), lo);
        lemma_frame_expr(cg_args(st, es.drop_last()).0, es.last(), lo);
    }
}

proof fn lemma_frame_if(st: CgState, e: SExpr, lo: int)
    requires
        in_frame(st, lo),
    ensures
        in_frame(cg_if(st, e).0, lo),
    decreases e, 0nat,
{
    if let SExpr::IfThenElse(c, t, eo) = e {
        lemma_frame_expr(st, *c, lo);
        let (s1, r1) = cg_expr(st, *c);
        if r1 is Ok {
            let s2 = pop_reg(s1, "t0"@);
            let (s3, r3) = fresh_label(s2, "if_else"@);
            if let Ok(le) = r3 {
                let (s4, r4) = fresh_label(s3, "if_end"@);
                if let Ok(lend) = r4 {
                    let s5 = emit(s4, "    beq  t0, zero, "@ + le);
                    lemma_frame_block(s5, t, true, lo);
                    let (s6, r6) = cg_block(s5, t, true);
                    if r6 is Ok {
                        let s7 = emit(emit(s6, "    b    "@ + lend), le + ":"@);
                        if let Some(eb) = eo {
                            lemma_frame_block(s7, eb, true, lo);
                        }
                    }
                }
            }
        }
    }
}

proof fn lemma_frame_block(st: CgState, b: SBlock, tail: bool, lo: int)
    requires
        in_frame(st, lo),
    ensures
        in_frame(cg_block(st, b, tail).0, lo),
    decreases b, 0nat,
{
    lemma_frame_stmts(st, b.stmts, tail && block_has_value(b), lo);
}

proof fn lemma_frame_stmts(st: CgState, ss: Seq<SStmt>, tail: bool, lo: int)
    requires
        in_frame(st, lo),
    ensures
        in_frame(cg_stmts(st, ss, tail).0, lo),
    decreases ss, 0nat,
{
    if ss.len() > 0 {
        lemma_frame_stmts(st, ss.drop_last(), false, lo);
        lemma_frame_stmt(cg_stmts(st, ss.drop_last(), false).0, ss.last(), tail, lo);
    }
}

proof fn lemma_frame_stmt(st: CgState, s: SStmt, tail: bool, lo: int)
    requires
        in_frame(st, lo),
    ensures
        in_frame(cg_stmt(st, s, tail).0, lo),
    decreases s, 1nat,
{
    match s {
        SStmt::Let(_, _, _, _) => lemma_frame_let(st, s, lo),
        SStmt::Assign(_, _) => lemma_frame_assign(st, s, lo),
        SStmt::While(_, _) => lemma_frame_while(st, s, lo),
        SStmt::Expr(e) => lemma_frame_expr(st, e, lo),
        SStmt::Fn(_) => {},
    }
}

proof fn lemma_frame_let(st: CgState, s: SStmt, lo: int)
    requires
        in_frame(st, lo),
    ensures
        in_frame(cg_let(st, s).0, lo),
    decreases s, 0nat,
{
    if let SStmt::Let(_, id, _, init) = s {
        match init {
            Some(e) => {
                lemma_frame_expr(st, e, lo);
                lemma_alloc_frame(pop_reg(cg_expr(st, e).0, "t0"@), id, lo);
            },
            None => lemma_alloc_frame(st, id, lo),
        }
    }
}

proof fn lemma_frame_assign(st: CgState, s: SStmt, lo: int)
    requires
        in_frame(st, lo),
    ensures
        in_frame(cg_assign(st, s).0, lo),
    decreases s, 0nat,
{
    if let SStmt::Assign(lhs, rhs) = s {
        lemma_frame_expr(st, rhs, lo);
        let s2 = pop_reg(cg_expr(st, rhs).0, "t0"@);
        match lhs {
            SExpr::UnOp(UnOp::Deref, inner) => if !(*inner is Ident) {
                lemma_frame_store(s2, *inner, lo);
            },
            SExpr::Ref(inner, _) => if !(*inner is Ident) {
                lemma_frame_store(s2, *inner, lo);
            },
            _ => {},
        }
    }
}

proof fn lemma_frame_store(st: CgState, inner: SExpr, lo: int)
    requires
        in_frame(st, lo),
    ensures
        in_frame(store_computed(st, inner).0, lo),
    decreases inner, 2nat,
{
    lemma_frame_expr(st, inner, lo);
}

proof fn lemma_frame_while(st: CgState, s: SStmt, lo: int)
    requires
        in_frame(st, lo),
    ensures
        in_frame(cg_while(st, s).0, lo),
    decreases s, 0nat,
{
    if let SStmt::While(c, body) = s {
        let (s1, r1) = fresh_label(st, "while_start"@);
        if let Ok(ls) = r1 {
            let (s2, r2) = fresh_label(s1, "while_end"@);
            if let Ok(le) = r2 {
                let s2e = emit(s2, ls + ":"@);
                lemma_frame_expr(s2e, c, lo);
                let (s3, r3) = cg_expr(s2e, c);
                if r3 is Ok {
                    let s4 = emit(pop_reg(s3, "t0"@), "    beq  t0, zero, "@ + le);
                    lemma_frame_block(s4, body, false, lo);
                }
            }
        }
    }
}

/// Generating an expression keeps every local slot in the frame `[lo, -4]`.
pub proof fn law_expr_frame(st: CgState, e: SExpr, lo: int)
    requires
        in_frame(st, lo),
    ensures
        in_frame(cg_expr(st, e).0, lo),
{
    lemma_frame_expr(st, e, lo);
}

/// Generating a statement keeps every local slot in the frame `[lo, -4]`:
/// each `let` takes a slot that its function reserved.
pub proof fn law_stmt_frame(st: CgState, s: SStmt, tail: bool, lo: int)
    requires
        in_frame(st, lo),
    ensures
        in_frame(cg_stmt(st, s, tail).0, lo),
{
    lemma_frame_stmt(st, s, tail, lo);
}

/// Generating a block keeps every local slot in the frame `[lo, -4]`.
pub proof fn law_block_frame(st: CgState, b: SBlock, tail: bool, lo: int)
    requires
        in_frame(st, lo),
    ensures
        in_frame(cg_block(st, b, tail).0, lo),
{
    lemma_frame_block(st, b, tail, lo);
}

/// In a state whose locals are in the frame, a variable's slot is a local
/// one in `[lo, -4]`, or a parameter's.
pub proof fn law_slot_in_frame(st: CgState, name: Seq<char>, lo: int)
    requires
        in_frame(st, lo),
    ensures
        slot(st, name) matches Some(o) ==> (lo <= o <= -4 || assoc_get(st.params, name) == Some(o)),
{
    lemma_get_elem(st.locals, name);
}

} // verus!
