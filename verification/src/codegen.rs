use crate::assemble::{assemble, assemble_spec, seq_res, Instr, SInstr};
use crate::assoc::{
    assoc_find, assoc_get, assoc_put, assoc_set, lemma_assoc_last_match, lemma_assoc_no_match,
    Assoc,
};
use crate::ast::{
    block_model, expr_model, exprs_model, fn_model, lemma_exprs_model, lemma_stmts_model, lit_model,
    param_model, params_model, stmt_model, stmts_model, Arguments, BinOp, Block, Expr, FnDeclaration,
    Literal, Mutable, Parameter, Parameters, Prog, SBlock, SExpr, SFn, SLit, SParam, SStmt,
    Statement, Type, UnOp,
};
use crate::error::{error_model, Error, SError};
use crate::text::{int_text, nat_text, push_int_text, push_nat_text};
use crate::type_check::is_println;
use crate::vm::fns_model;
use vstd::prelude::*;

verus! {

// ---------------------------------------------------------------------
// The code generator over the models: MIPS assembly text, one line per
// instruction or label. Arguments sit above the frame pointer, the saved
// return address and frame pointer at it, locals below it; every
// expression leaves its value on the stack.
// ---------------------------------------------------------------------

/// Model of the generator's state.
pub struct CgState {
    pub instrs: Seq<Seq<char>>,
    pub label: nat,
    pub params: Assoc<i32>,
    pub locals: Assoc<i32>,
    pub pending: Assoc<Seq<i32>>,
    pub next_local: i32,
    pub strings: Assoc<Seq<char>>,
    pub data: Seq<(Seq<char>, Seq<char>)>,
}

pub type CRes = (CgState, Result<(), SError>);

pub open spec fn emit(st: CgState, l: Seq<char>) -> CgState {
    CgState { instrs: st.instrs.push(l), ..st }
}

pub open spec fn push_line(r: Seq<char>) -> Seq<char> {
    "    sw   "@ + r + ", 0(sp)"@
}

pub open spec fn pop_line(r: Seq<char>) -> Seq<char> {
    "    lw   "@ + r + ", 0(sp)"@
}

/// `r` pushed on the stack.
pub open spec fn push_reg(st: CgState, r: Seq<char>) -> CgState {
    emit(emit(st, "    addi sp, sp, -4"@), push_line(r))
}

/// The top of the stack popped into `r`.
pub open spec fn pop_reg(st: CgState, r: Seq<char>) -> CgState {
    emit(emit(st, pop_line(r)), "    addi sp, sp, 4"@)
}

/// A line of the shape `pre`, a number, `post`.
pub open spec fn ln(pre: Seq<char>, n: int, post: Seq<char>) -> Seq<char> {
    pre + int_text(n) + post
}

/// A new label `base_k` with the next number `k`.
pub open spec fn fresh_label(st: CgState, base: Seq<char>) -> (CgState, Result<Seq<char>, SError>) {
    if st.label >= usize::MAX {
        (st, Err(SError::Overflow))
    } else {
        (CgState { label: st.label + 1, ..st }, Ok(base + "_"@ + nat_text(st.label)))
    }
}

/// The data label of a string literal, made (`str_k`) the first time the
/// string is met.
pub open spec fn intern(st: CgState, s: Seq<char>) -> (CgState, Result<Seq<char>, SError>) {
    match assoc_get(st.strings, s) {
        Some(l) => (st, Ok(l)),
        None => if st.label >= usize::MAX {
            (st, Err(SError::Overflow))
        } else {
            let l = "str_"@ + nat_text(st.label);
            (
                CgState {
                    label: st.label + 1,
                    strings: assoc_put(st.strings, s, l),
                    data: st.data.push((l, s)),
                    ..st
                },
                Ok(l),
            )
        },
    }
}

/// The frame offset of a variable: a local first, else a parameter.
pub open spec fn slot(st: CgState, name: Seq<char>) -> Option<i32> {
    match assoc_get(st.locals, name) {
        Some(o) => Some(o),
        None => assoc_get(st.params, name),
    }
}

/// The slot of a declared local: the next one that the function's frame
/// reserved for its name.
pub open spec fn alloc_slot(st: CgState, id: Seq<char>) -> (CgState, Result<i32, SError>) {
    match assoc_get(st.pending, id) {
        Some(v) => if v.len() > 0 {
            (
                CgState {
                    pending: assoc_set(st.pending, id, v.skip(1)),
                    locals: assoc_put(st.locals, id, v[0]),
                    ..st
                },
                Ok(v[0]),
            )
        } else {
            (st, Err(SError::UnreservedLocal(id)))
        },
        None => (st, Err(SError::UnreservedLocal(id))),
    }
}

pub open spec fn binop_line(op: BinOp) -> Seq<char> {
    match op {
        BinOp::Add => "    add  t0, t0, t1"@,
        BinOp::Sub => "    sub  t0, t0, t1"@,
        BinOp::Mul => "    mul  t0, t0, t1"@,
        BinOp::Div => "    div  t0, t0, t1"@,
        BinOp::And => "    and  t0, t0, t1"@,
        BinOp::Or => "    or   t0, t0, t1"@,
        BinOp::Lt => "    slt  t0, t0, t1"@,
        _ => "    slt  t0, t1, t0"@,
    }
}

/// `t0` set to 1 or 0 by a branch on `test`: 1 when the branch is taken.
pub open spec fn set_by_branch(st: CgState, test: Seq<char>, base_t: Seq<char>, base_e: Seq<char>) -> CRes {
    let (s1, r1) = fresh_label(st, base_t);
    match r1 {
        Err(x) => (s1, Err(x)),
        Ok(lt) => {
            let (s2, r2) = fresh_label(s1, base_e);
            match r2 {
                Err(x) => (s2, Err(x)),
                Ok(le) => {
                    let s3 = emit(s2, test + lt);
                    let s4 = emit(emit(s3, "    addi t0, zero, 0"@), "    b    "@ + le);
                    let s5 = emit(emit(s4, lt + ":"@), "    addi t0, zero, 1"@);
                    (emit(s5, le + ":"@), Ok(()))
                },
            }
        },
    }
}

/// The code of an expression.
pub open spec fn cg_expr(st: CgState, e: SExpr) -> CRes
    decreases e, 1nat,
{
    match e {
        SExpr::Ident(name) => match slot(st, name) {
            Some(off) => (push_reg(emit(st, ln("    lw   t0, "@, off as int, "(fp)"@)), "t0"@), Ok(())),
            None => (st, Err(SError::UnknownIdentifier(name))),
        },
        SExpr::Lit(l) => cg_lit(st, l),
        SExpr::Par(i) => cg_expr(st, *i),
        SExpr::BinOp(_, _, _) => cg_binop(st, e),
        SExpr::UnOp(_, _) => cg_unop(st, e),
        SExpr::Call(_, _) => cg_call(st, e),
        SExpr::IfThenElse(_, _, _) => cg_if(st, e),
        SExpr::Block(b) => cg_block(st, b, true),
        SExpr::Ref(_, _) => cg_ref(st, e),
    }
}

/// A literal pushed: integers and booleans as numbers, strings as the
/// address of their data label, unit as 0.
pub open spec fn cg_lit(st: CgState, l: SLit) -> CRes {
    match l {
        SLit::Int(n) => (push_reg(emit(st, ln("    addi t0, zero, "@, n as int, Seq::empty())), "t0"@), Ok(())),
        SLit::Bool(b) => (push_reg(emit(st, if b { "    addi t0, zero, 1"@ } else { "    addi t0, zero, 0"@ }), "t0"@), Ok(())),
        SLit::Str(s) => {
            let (s1, r) = intern(st, s);
            match r {
                Err(x) => (s1, Err(x)),
                Ok(lbl) => (push_reg(emit(s1, "    la   t0, "@ + lbl), "t0"@), Ok(())),
            }
        },
        SLit::Unit => (push_reg(emit(st, "    addi t0, zero, 0"@), "t0"@), Ok(())),
    }
}

/// Both operands pushed, popped into `t0` and `t1`, combined into `t0`,
/// which is pushed.
pub open spec fn cg_binop(st: CgState, e: SExpr) -> CRes
    decreases e, 0nat,
{
    match e {
        SExpr::BinOp(op, l, r) => {
            let (s1, r1) = cg_expr(st, *l);
            match r1 {
                Err(x) => (s1, Err(x)),
                Ok(_) => {
                    let (s2, r2) = cg_expr(s1, *r);
                    match r2 {
                        Err(x) => (s2, Err(x)),
                        Ok(_) => binop_tail(pop_reg(pop_reg(s2, "t1"@), "t0"@), op),
                    }
                },
            }
        },
        _ => (st, Err(SError::UnsupportedAssign)),
    }
}

pub open spec fn binop_tail(s3: CgState, op: BinOp) -> CRes {
    if op == BinOp::Eq {
        let (s4, r4) = set_by_branch(emit(s3, "    sub  t2, t0, t1"@), "    beq  t2, zero, "@, "eq_true"@, "eq_end"@);
        match r4 {
            Err(x) => (s4, Err(x)),
            Ok(_) => (push_reg(s4, "t0"@), Ok(())),
        }
    } else {
        (push_reg(emit(s3, binop_line(op)), "t0"@), Ok(()))
    }
}

pub open spec fn cg_unop(st: CgState, e: SExpr) -> CRes
    decreases e, 0nat,
{
    match e {
        SExpr::UnOp(op, i) => {
            let (s1, r1) = cg_expr(st, *i);
            match r1 {
                Err(x) => (s1, Err(x)),
                Ok(_) => unop_tail(pop_reg(s1, "t0"@), op),
            }
        },
        _ => (st, Err(SError::UnsupportedAssign)),
    }
}

pub open spec fn unop_tail(s2: CgState, op: UnOp) -> CRes {
    match op {
        UnOp::Neg => (push_reg(emit(s2, "    sub  t0, zero, t0"@), "t0"@), Ok(())),
        UnOp::Deref => (push_reg(emit(s2, "    lw   t0, 0(t0)"@), "t0"@), Ok(())),
        UnOp::Bang => {
            let (s3, r3) = set_by_branch(s2, "    beq  t0, zero, "@, "not_true"@, "not_end"@);
            match r3 {
                Err(x) => (s3, Err(x)),
                Ok(_) => (push_reg(s3, "t0"@), Ok(())),
            }
        },
    }
}

/// After the arguments of `println!`: the format string's address pushed
/// last, the argument count in `t2`, the call, the arguments dropped, and
/// unit pushed as its value.
pub open spec fn println_tail(s1: CgState, n: nat, fl: Option<Seq<char>>) -> CRes {
    let s2 = match fl {
        Some(l) => push_reg(emit(s1, "    la   t0, "@ + l), "t0"@),
        None => s1,
    };
    let argc: int = if fl is Some { (n + 1) as int } else { n as int };
    if argc * 4 > i32::MAX {
        (s2, Err(SError::Overflow))
    } else {
        let s3 = emit(emit(s2, ln("    addi t2, zero, "@, argc, Seq::empty())), "    bal  println"@);
        let s4 = if argc > 0 { emit(s3, ln("    addi sp, sp, "@, argc * 4, Seq::empty())) } else { s3 };
        (push_reg(emit(s4, "    addi t0, zero, 0"@), "t0"@), Ok(()))
    }
}

/// After the arguments of a call: the call, the arguments dropped, and the
/// result (in `t0`) pushed.
pub open spec fn call_tail(s1: CgState, name: Seq<char>, argc: int) -> CRes {
    if argc * 4 > i32::MAX {
        (s1, Err(SError::Overflow))
    } else {
        let s2 = emit(s1, "    bal "@ + name);
        let s3 = if argc > 0 { emit(s2, ln("    addi sp, sp, "@, argc * 4, Seq::empty())) } else { s2 };
        (push_reg(s3, "t0"@), Ok(()))
    }
}

pub open spec fn cg_call(st: CgState, e: SExpr) -> CRes
    decreases e, 0nat,
{
    match e {
        SExpr::Call(name, args) => if name == "println!"@ {
            let (s1, ra) = cg_pargs(st, args);
            match ra {
                Err(x) => (s1, Err(x)),
                Ok((n, fl)) => println_tail(s1, n, fl),
            }
        } else {
            let (s1, ra) = cg_args(st, args);
            match ra {
                Err(x) => (s1, Err(x)),
                Ok(_) => call_tail(s1, name, args.len() as int),
            }
        },
        _ => (st, Err(SError::UnsupportedAssign)),
    }
}

/// The condition popped into `t0`; a branch to the else part when it is
/// zero; each branch leaves its value on the stack (unit as 0 without an
/// else part).
pub open spec fn cg_if(st: CgState, e: SExpr) -> CRes
    decreases e, 0nat,
{
    match e {
        SExpr::IfThenElse(c, t, eo) => {
            let (s1, r1) = cg_expr(st, *c);
            match r1 {
                Err(x) => (s1, Err(x)),
                Ok(_) => {
                    let s2 = pop_reg(s1, "t0"@);
                    let (s3, r3) = fresh_label(s2, "if_else"@);
                    match r3 {
                        Err(x) => (s3, Err(x)),
                        Ok(le) => {
                            let (s4, r4) = fresh_label(s3, "if_end"@);
                            match r4 {
                                Err(x) => (s4, Err(x)),
                                Ok(lend) => {
                                    let s5 = emit(s4, "    beq  t0, zero, "@ + le);
                                    let (s6, r6) = cg_block(s5, t, true);
                                    match r6 {
                                        Err(x) => (s6, Err(x)),
                                        Ok(_) => {
                                            let s7 = emit(emit(s6, "    b    "@ + lend), le + ":"@);
                                            let (s8, r8) = match eo {
                                                Some(eb) => cg_block(s7, eb, true),
                                                None => (push_reg(emit(s7, "    addi t0, zero, 0"@), "t0"@), Ok(())),
                                            };
                                            match r8 {
                                                Err(x) => (s8, Err(x)),
                                                Ok(_) => (emit(s8, lend + ":"@), Ok(())),
                                            }
                                        },
                                    }
                                },
                            }
                        },
                    }
                },
            }
        },
        _ => (st, Err(SError::UnsupportedAssign)),
    }
}

/// The address of a variable's slot, or of a value left on the stack.
pub open spec fn cg_ref(st: CgState, e: SExpr) -> CRes
    decreases e, 0nat,
{
    match e {
        SExpr::Ref(inner, _) => match *inner {
            SExpr::Ident(name) => match slot(st, name) {
                Some(off) => (push_reg(emit(st, ln("    addi t0, fp, "@, off as int, Seq::empty())), "t0"@), Ok(())),
                None => (st, Err(SError::UnknownIdentifier(name))),
            },
            _ => {
                let (s1, r1) = cg_expr(st, *inner);
                match r1 {
                    Err(x) => (s1, Err(x)),
                    Ok(_) => (push_reg(emit(s1, "    addi t0, sp, 0"@), "t0"@), Ok(())),
                }
            },
        },
        _ => (st, Err(SError::UnsupportedAssign)),
    }
}

/// The arguments of `println!` in order: each string literal interned (the
/// last one is the format string), the others evaluated onto the stack;
/// gives how many were evaluated and the format string's label.
pub open spec fn cg_pargs(st: CgState, es: Seq<SExpr>) -> (CgState, Result<(nat, Option<Seq<char>>), SError>)
    decreases es, 0nat,
{
    if es.len() == 0 {
        (st, Ok((0, None)))
    } else {
        let (s1, r1) = cg_pargs(st, es.drop_last());
        match r1 {
            Err(x) => (s1, Err(x)),
            Ok((n, fl)) => match es.last() {
                SExpr::Lit(SLit::Str(s)) => {
                    let (s2, rl) = intern(s1, s);
                    match rl {
                        Err(x) => (s2, Err(x)),
                        Ok(l) => (s2, Ok((n, Some(l)))),
                    }
                },
                e => {
                    let (s2, r2) = cg_expr(s1, e);
                    match r2 {
                        Err(x) => (s2, Err(x)),
                        Ok(_) => (s2, Ok((n + 1, fl))),
                    }
                },
            },
        }
    }
}

/// Arguments of a call evaluated onto the stack in order.
pub open spec fn cg_args(st: CgState, es: Seq<SExpr>) -> CRes
    decreases es, 0nat,
{
    if es.len() == 0 {
        (st, Ok(()))
    } else {
        let (s1, r1) = cg_args(st, es.drop_last());
        match r1 {
            Err(x) => (s1, Err(x)),
            Ok(_) => cg_expr(s1, es.last()),
        }
    }
}

/// Whether a block has a value of its own: it ends with an expression
/// statement and no `;`.
pub open spec fn block_has_value(b: SBlock) -> bool {
    !b.semi && b.stmts.len() > 0 && b.stmts.last() is Expr
}

/// A block: its statements, and, when `tail`, exactly one value left on
/// the stack: that of its last expression where it has one, else unit (0);
/// the locals it declared are forgotten afterwards.
pub open spec fn cg_block(st: CgState, b: SBlock, tail: bool) -> CRes
    decreases b, 0nat,
{
    let keep = tail && block_has_value(b);
    let (s1, r) = cg_stmts(st, b.stmts, keep);
    match r {
        Err(x) => (s1, Err(x)),
        Ok(_) => {
            let s2 = CgState { locals: st.locals, ..s1 };
            if tail && !keep {
                (push_reg(emit(s2, "    addi t0, zero, 0"@), "t0"@), Ok(()))
            } else {
                (s2, Ok(()))
            }
        },
    }
}

pub open spec fn cg_stmts(st: CgState, ss: Seq<SStmt>, tail: bool) -> CRes
    decreases ss, 0nat,
{
    if ss.len() == 0 {
        (st, Ok(()))
    } else {
        let (s1, r1) = cg_stmts(st, ss.drop_last(), false);
        match r1 {
            Err(x) => (s1, Err(x)),
            Ok(_) => cg_stmt(s1, ss.last(), tail),
        }
    }
}

/// A store of `t0` through the address in a variable (`*x = ...`) or to
/// the address of a variable (`&x = ...`).
pub open spec fn store_via(st: CgState, name: Seq<char>, load: bool) -> CRes {
    match slot(st, name) {
        Some(off) => {
            let l = if load {
                ln("    lw   t1, "@, off as int, "(fp)"@)
            } else {
                ln("    addi t1, fp, "@, off as int, Seq::empty())
            };
            (emit(emit(st, l), "    sw   t0, 0(t1)"@), Ok(()))
        },
        None => (st, Err(SError::UnknownIdentifier(name))),
    }
}

/// A store of `t0` to the address that `inner` computes.
pub open spec fn store_computed(st: CgState, inner: SExpr) -> CRes
    decreases inner, 2nat,
{
    let (s1, r1) = cg_expr(st, inner);
    match r1 {
        Err(x) => (s1, Err(x)),
        Ok(_) => (emit(pop_reg(s1, "t1"@), "    sw   t0, 0(t1)"@), Ok(())),
    }
}

/// The code of a statement; an expression statement leaves its value on
/// the stack only when `tail`.
pub open spec fn cg_stmt(st: CgState, s: SStmt, tail: bool) -> CRes
    decreases s, 1nat,
{
    match s {
        SStmt::Let(_, _, _, _) => cg_let(st, s),
        SStmt::Assign(_, _) => cg_assign(st, s),
        SStmt::While(_, _) => cg_while(st, s),
        SStmt::Expr(e) => {
            let (s1, r1) = cg_expr(st, e);
            match r1 {
                Err(x) => (s1, Err(x)),
                Ok(_) => (if tail { s1 } else { pop_reg(s1, "t0"@) }, Ok(())),
            }
        },
        SStmt::Fn(d) => cg_local_fn(st, d),
    }
}

/// A function declared inside another: a branch over its code, its code,
/// and the label branched to; the enclosing function's slots are as they
/// were before.
pub open spec fn cg_local_fn(st: CgState, d: SFn) -> CRes
    decreases d, 1nat,
{
    let (s1, r1) = fresh_label(st, "skip_fn"@);
    match r1 {
        Err(x) => (s1, Err(x)),
        Ok(lbl) => {
            let (s2, r2) = cg_fn(emit(s1, "    b    "@ + lbl), d);
            let s3 = CgState {
                params: st.params,
                locals: st.locals,
                pending: st.pending,
                next_local: st.next_local,
                ..s2
            };
            match r2 {
                Err(x) => (s3, Err(x)),
                Ok(_) => (emit(s3, lbl + ":"@), Ok(())),
            }
        },
    }
}

/// The value (`0` when there is none) stored to the local's slot.
pub open spec fn cg_let(st: CgState, s: SStmt) -> CRes
    decreases s, 0nat,
{
    match s {
        SStmt::Let(_, id, _, init) => match init {
            Some(e) => {
                let (s1, r1) = cg_expr(st, e);
                match r1 {
                    Err(x) => (s1, Err(x)),
                    Ok(_) => {
                        let (s2, r2) = alloc_slot(pop_reg(s1, "t0"@), id);
                        match r2 {
                            Err(x) => (s2, Err(x)),
                            Ok(off) => (emit(s2, ln("    sw   t0, "@, off as int, "(fp)"@)), Ok(())),
                        }
                    },
                }
            },
            None => {
                let (s2, r2) = alloc_slot(st, id);
                match r2 {
                    Err(x) => (s2, Err(x)),
                    Ok(off) => (
                        emit(emit(s2, "    addi t0, zero, 0"@), ln("    sw   t0, "@, off as int, "(fp)"@)),
                        Ok(()),
                    ),
                }
            },
        },
        _ => (st, Err(SError::UnsupportedAssign)),
    }
}

/// The right side popped into `t0` and stored: to a variable's slot,
/// through the address that a variable holds (`*x`), to the address of a
/// variable (`&x`), or to a computed address.
pub open spec fn cg_assign(st: CgState, s: SStmt) -> CRes
    decreases s, 0nat,
{
    match s {
        SStmt::Assign(lhs, rhs) => {
            let (s1, r1) = cg_expr(st, rhs);
            match r1 {
                Err(x) => (s1, Err(x)),
                Ok(_) => {
                    let s2 = pop_reg(s1, "t0"@);
                    match lhs {
                        SExpr::Ident(name) => match slot(s2, name) {
                            Some(off) => (emit(s2, ln("    sw   t0, "@, off as int, "(fp)"@)), Ok(())),
                            None => (s2, Err(SError::UnknownIdentifier(name))),
                        },
                        SExpr::UnOp(UnOp::Deref, inner) => match *inner {
                            SExpr::Ident(name) => store_via(s2, name, true),
                            _ => store_computed(s2, *inner),
                        },
                        SExpr::Ref(inner, _) => match *inner {
                            SExpr::Ident(name) => store_via(s2, name, false),
                            _ => store_computed(s2, *inner),
                        },
                        _ => (s2, Err(SError::UnsupportedAssign)),
                    }
                },
            }
        },
        _ => (st, Err(SError::UnsupportedAssign)),
    }
}

/// A loop: its condition at the start label, a branch to the end label
/// when it is zero, the body, and a branch back.
pub open spec fn cg_while(st: CgState, s: SStmt) -> CRes
    decreases s, 0nat,
{
    match s {
        SStmt::While(c, body) => {
            let (s1, r1) = fresh_label(st, "while_start"@);
            match r1 {
                Err(x) => (s1, Err(x)),
                Ok(ls) => {
                    let (s2, r2) = fresh_label(s1, "while_end"@);
                    match r2 {
                        Err(x) => (s2, Err(x)),
                        Ok(le) => {
                            let (s3, r3) = cg_expr(emit(s2, ls + ":"@), c);
                            match r3 {
                                Err(x) => (s3, Err(x)),
                                Ok(_) => {
                                    let s4 = emit(pop_reg(s3, "t0"@), "    beq  t0, zero, "@ + le);
                                    let (s5, r5) = cg_block(s4, body, false);
                                    match r5 {
                                        Err(x) => (s5, Err(x)),
                                        Ok(_) => (emit(emit(s5, "    b    "@ + ls), le + ":"@), Ok(())),
                                    }
                                },
                            }
                        },
                    }
                },
            }
        },
        _ => (st, Err(SError::UnsupportedAssign)),
    }
}

/// The names that the `let`s of a block declare, in the order in which
/// their code is generated: every `let` of the function's body, in nested
/// blocks, conditions, initializers and assignments alike, but not those
/// of nested functions, which have frames of their own.
pub open spec fn locals_block(ss: Seq<SStmt>) -> Seq<Seq<char>>
    decreases ss, 0nat,
{
    if ss.len() == 0 {
        Seq::empty()
    } else {
        locals_block(ss.drop_last()) + locals_stmt(ss.last())
    }
}

pub open spec fn locals_stmt(s: SStmt) -> Seq<Seq<char>>
    decreases s, 0nat,
{
    match s {
        SStmt::Let(_, id, _, init) => (match init {
            Some(e) => locals_expr(e),
            None => Seq::empty(),
        }) + seq![id],
        SStmt::Assign(l, r) => locals_expr(r) + locals_expr(l),
        SStmt::While(c, body) => locals_expr(c) + locals_block(body.stmts),
        SStmt::Expr(e) => locals_expr(e),
        SStmt::Fn(_) => Seq::empty(),
    }
}

pub open spec fn locals_expr(e: SExpr) -> Seq<Seq<char>>
    decreases e, 0nat,
{
    match e {
        SExpr::IfThenElse(c, t, eo) => locals_expr(*c) + locals_block(t.stmts) + (match eo {
            Some(b) => locals_block(b.stmts),
            None => Seq::empty(),
        }),
        SExpr::Block(b) => locals_block(b.stmts),
        SExpr::BinOp(_, l, r) => locals_expr(*l) + locals_expr(*r),
        SExpr::Par(i) => locals_expr(*i),
        SExpr::UnOp(_, i) => locals_expr(*i),
        SExpr::Ref(i, _) => locals_expr(*i),
        SExpr::Call(_, args) => locals_exprs(args),
        _ => Seq::empty(),
    }
}

pub open spec fn locals_exprs(es: Seq<SExpr>) -> Seq<Seq<char>>
    decreases es, 0nat,
{
    if es.len() == 0 {
        Seq::empty()
    } else {
        locals_exprs(es.drop_last()) + locals_expr(es.last())
    }
}

/// The frame offsets of the parameters: the first one farthest above the
/// frame pointer.
pub open spec fn param_slots(ps: Seq<SParam>, k: int, n: int) -> Assoc<i32>
    decreases k,
{
    if k <= 0 {
        Assoc::empty()
    } else {
        assoc_put(param_slots(ps, k - 1, n), ps[k - 1].id, (8 + 4 * (n - k)) as i32)
    }
}

/// The slots reserved for the locals `ids[0..k]`, the `i`-th at `-4 - 4i`,
/// added to each name's list.
pub open spec fn reserve(p: Assoc<Seq<i32>>, ids: Seq<Seq<char>>, k: int) -> Assoc<Seq<i32>>
    decreases k,
{
    if k <= 0 {
        p
    } else {
        let q = reserve(p, ids, k - 1);
        let prev = match assoc_get(q, ids[k - 1]) {
            Some(v) => v,
            None => Seq::empty(),
        };
        assoc_put(q, ids[k - 1], prev.push((-4 - 4 * (k - 1)) as i32))
    }
}

pub open spec fn epilogue(st: CgState) -> CgState {
    let s1 = emit(emit(st, "    lw   fp, 0(sp)"@), "    addi sp, sp, 4"@);
    let s2 = emit(emit(s1, "    lw   ra, 0(sp)"@), "    addi sp, sp, 4"@);
    emit(s2, "    jr   ra"@)
}

/// Whether a function keeps the value of its body: it declares a return
/// type other than unit.
pub open spec fn returns_value(ty: Option<Type>) -> bool {
    match ty {
        Some(t) => t != Type::Unit,
        None => false,
    }
}

/// The code of a function: its label, the frame set up, the frame slots of
/// its parameters and locals, its body, and the frame taken down again,
/// with the return value in `t0`.
pub open spec fn cg_fn(st: CgState, f: SFn) -> CRes
    decreases f, 0nat,
{
    let s2 = fn_prologue(st, f);
    let n = f.params.len() as int;
    let nl = locals_block(f.body.stmts).len() as int;
    if n > 536870910 || nl > 536870911 {
        (s2, Err(SError::Overflow))
    } else {
        let s4 = fn_body_state(st, f);
        let tail = returns_value(f.ty);
        let (s5, r5) = cg_block(s4, f.body, tail);
        match r5 {
            Err(x) => (s5, Err(x)),
            Ok(_) => {
                let s6 = if tail { pop_reg(s5, "t0"@) } else { s5 };
                let s7 = if nl > 0 { emit(s6, ln("    addi sp, sp, "@, nl * 4, Seq::empty())) } else { s6 };
                (emit(epilogue(s7), Seq::empty()), Ok(()))
            },
        }
    }
}

/// A function's label and the frame set up: the return address and the
/// caller's frame pointer saved, and no parameter, local or reserved slot
/// known yet.
pub open spec fn fn_prologue(st: CgState, f: SFn) -> CgState {
    let s0 = CgState {
        params: Assoc::empty(),
        locals: Assoc::empty(),
        pending: Assoc::empty(),
        next_local: -4i32,
        ..st
    };
    let s1 = emit(emit(emit(s0, f.id + ":"@), "    addi sp, sp, -4"@), "    sw   ra, 0(sp)"@);
    emit(emit(emit(s1, "    addi sp, sp, -4"@), "    sw   fp, 0(sp)"@), "    addi fp, sp, 0"@)
}

/// The state in which a function's body is generated: its parameters'
/// slots known, and one slot reserved below the frame pointer for each
/// `let` of the body.
pub open spec fn fn_body_state(st: CgState, f: SFn) -> CgState {
    let s2 = fn_prologue(st, f);
    let n = f.params.len() as int;
    let ids = locals_block(f.body.stmts);
    let nl = ids.len() as int;
    let s3 = CgState { params: param_slots(f.params, n, n), ..s2 };
    if nl > 0 {
        CgState {
            pending: reserve(s3.pending, ids, nl),
            next_local: (-4 - 4 * nl) as i32,
            ..emit(s3, ln("    addi sp, sp, -"@, nl * 4, Seq::empty()))
        }
    } else {
        s3
    }
}

/// The functions in order, stopping at the first error.
pub open spec fn cg_fns(st: CgState, fs: Seq<SFn>) -> CRes
    decreases fs.len(),
{
    if fs.len() == 0 {
        (st, Ok(()))
    } else {
        let (s1, r1) = cg_fns(st, fs.drop_last());
        match r1 {
            Err(x) => (s1, Err(x)),
            Ok(_) => cg_fn(s1, fs.last()),
        }
    }
}

/// A string literal's content as it stands between quotes in the data
/// section: backslash, quote and newline escaped.
pub open spec fn esc(s: Seq<char>) -> Seq<char>
    decreases s.len(),
{
    if s.len() == 0 {
        Seq::empty()
    } else {
        let c = s.last();
        esc(s.drop_last()) + if c == '\\' {
            "\\\\"@
        } else if c == '"' {
            "\\\""@
        } else if c == '\n' {
            "\\n"@
        } else {
            seq![c]
        }
    }
}

pub open spec fn data_lines(d: Seq<(Seq<char>, Seq<char>)>) -> Seq<Seq<char>> {
    d.map_values(|p: (Seq<char>, Seq<char>)| p.0 + ": .asciiz \""@ + esc(p.1) + "\""@)
}

/// The code calls the `println` runtime routine.
pub open spec fn calls_println(instrs: Seq<Seq<char>>) -> bool {
    exists|i: int| 0 <= i < instrs.len() && (#[trigger] instrs[i] == "    bal  println"@ || instrs[i] == "    bal println"@)
}

/// All lines of the program: the data section (when there are strings),
/// the code, and a stub for `println` when the code calls it.
pub open spec fn all_lines(st: CgState) -> Seq<Seq<char>> {
    let data = if st.data.len() > 0 {
        seq![".data"@] + data_lines(st.data) + seq![".text"@]
    } else {
        Seq::empty()
    };
    let stub = if calls_println(st.instrs) {
        seq!["\n# runtime stubs"@, "println:"@, "    jr   ra"@]
    } else {
        Seq::empty()
    };
    data + st.instrs + stub
}

/// Lines joined with newlines.
pub open spec fn join_lines(ls: Seq<Seq<char>>) -> Seq<char>
    decreases ls.len(),
{
    if ls.len() == 0 {
        Seq::empty()
    } else if ls.len() == 1 {
        ls[0]
    } else {
        join_lines(ls.drop_last()) + "\n"@ + ls.last()
    }
}

pub open spec fn cg_init() -> CgState {
    CgState {
        instrs: Seq::empty(),
        label: 0,
        params: Assoc::empty(),
        locals: Assoc::empty(),
        pending: Assoc::empty(),
        next_local: -4i32,
        strings: Assoc::empty(),
        data: Seq::empty(),
    }
}

/// The assembly text of a program, or the error that stopped it.
pub open spec fn cg_prog(st: CgState, fs: Seq<SFn>) -> (CgState, Result<Seq<char>, SError>) {
    let (s1, r) = cg_fns(st, fs);
    match r {
        Err(x) => (s1, Err(x)),
        Ok(_) => (s1, Ok(join_lines(all_lines(s1)))),
    }
}

// ---------------------------------------------------------------------
// The code generator.
// ---------------------------------------------------------------------

pub open spec fn i32_assoc(s: Seq<(String, i32)>) -> Assoc<i32> {
    s.map_values(|b: (String, i32)| (b.0@, b.1))
}

pub open spec fn pend_assoc(s: Seq<(String, Vec<i32>)>) -> Assoc<Seq<i32>> {
    s.map_values(|b: (String, Vec<i32>)| (b.0@, b.1@))
}

pub open spec fn str_assoc(s: Seq<(String, String)>) -> Assoc<Seq<char>> {
    s.map_values(|b: (String, String)| (b.0@, b.1@))
}

pub open spec fn lines_model(v: Seq<String>) -> Seq<Seq<char>> {
    v.map_values(|s: String| s@)
}

pub open spec fn ures(r: Result<(), Error>) -> Result<(), SError> {
    match r {
        Ok(_) => Ok(()),
        Err(e) => Err(error_model(e)),
    }
}

pub open spec fn sres(r: Result<String, Error>) -> Result<Seq<char>, SError> {
    match r {
        Ok(s) => Ok(s@),
        Err(e) => Err(error_model(e)),
    }
}

pub open spec fn ires(r: Result<i32, Error>) -> Result<i32, SError> {
    match r {
        Ok(i) => Ok(i),
        Err(e) => Err(error_model(e)),
    }
}

fn get_i32(v: &Vec<(String, i32)>, k: &String) -> (r: Option<i32>)
    ensures
        r == assoc_get(i32_assoc(v@), k@),
{
    match assoc_find(v, k) {
        Some(j) => {
            proof { lemma_assoc_last_match(i32_assoc(v@), k@, j as int, 0); }
            Some(v[j].1)
        },
        None => {
            proof { lemma_assoc_no_match(i32_assoc(v@), k@); }
            None
        },
    }
}

fn put_i32(v: &mut Vec<(String, i32)>, k: String, x: i32)
    ensures
        i32_assoc(final(v)@) == assoc_put(i32_assoc(old(v)@), k@, x),
{
    let ghost m = i32_assoc(v@);
    match assoc_find(v, &k) {
        Some(j) => {
            proof { lemma_assoc_last_match(m, k@, j as int, x); }
            v.set(j, (k, x));
            assert(i32_assoc(v@) =~= m.update(j as int, (k@, x)));
        },
        None => {
            proof { lemma_assoc_no_match(m, k@); }
            v.push((k, x));
            assert(i32_assoc(v@) =~= m.push((k@, x)));
        },
    }
}

fn get_str(v: &Vec<(String, String)>, k: &String) -> (r: Option<String>)
    ensures
        match assoc_get(str_assoc(v@), k@) {
            Some(x) => r matches Some(y) && y@ == x,
            None => r is None,
        },
{
    match assoc_find(v, k) {
        Some(j) => {
            proof { lemma_assoc_last_match(str_assoc(v@), k@, j as int, Seq::empty()); }
            Some(v[j].1.clone())
        },
        None => {
            proof { lemma_assoc_no_match(str_assoc(v@), k@); }
            None
        },
    }
}

fn put_str(v: &mut Vec<(String, String)>, k: String, x: String)
    ensures
        str_assoc(final(v)@) == assoc_put(str_assoc(old(v)@), k@, x@),
{
    let ghost m = str_assoc(v@);
    let ghost xm = x@;
    match assoc_find(v, &k) {
        Some(j) => {
            proof { lemma_assoc_last_match(m, k@, j as int, xm); }
            v.set(j, (k, x));
            assert(str_assoc(v@) =~= m.update(j as int, (k@, xm)));
        },
        None => {
            proof { lemma_assoc_no_match(m, k@); }
            v.push((k, x));
            assert(str_assoc(v@) =~= m.push((k@, xm)));
        },
    }
}

fn get_pend(v: &Vec<(String, Vec<i32>)>, k: &String) -> (r: Option<Vec<i32>>)
    ensures
        match assoc_get(pend_assoc(v@), k@) {
            Some(x) => r matches Some(y) && y@ == x,
            None => r is None,
        },
{
    match assoc_find(v, k) {
        Some(j) => {
            proof { lemma_assoc_last_match(pend_assoc(v@), k@, j as int, Seq::empty()); }
            let src = &v[j].1;
            let mut out: Vec<i32> = Vec::new();
            for i in 0..src.len()
                invariant
                    out@ == src@.take(i as int),
            {
                out.push(src[i]);
                assert(out@ =~= src@.take(i + 1));
            }
            assert(src@.take(src@.len() as int) =~= src@);
            Some(out)
        },
        None => {
            proof { lemma_assoc_no_match(pend_assoc(v@), k@); }
            None
        },
    }
}

fn put_pend(v: &mut Vec<(String, Vec<i32>)>, k: String, x: Vec<i32>)
    ensures
        pend_assoc(final(v)@) == assoc_put(pend_assoc(old(v)@), k@, x@),
        assoc_get(pend_assoc(old(v)@), k@) is Some ==> pend_assoc(final(v)@) == assoc_set(
            pend_assoc(old(v)@),
            k@,
            x@,
        ),
{
    let ghost m = pend_assoc(v@);
    let ghost xm = x@;
    match assoc_find(v, &k) {
        Some(j) => {
            proof { lemma_assoc_last_match(m, k@, j as int, xm); }
            v.set(j, (k, x));
            assert(pend_assoc(v@) =~= m.update(j as int, (k@, xm)));
        },
        None => {
            proof { lemma_assoc_no_match(m, k@); }
            v.push((k, x));
            assert(pend_assoc(v@) =~= m.push((k@, xm)));
        },
    }
}

fn line_num(pre: &str, n: i64, post: &str) -> (s: String)
    requires
        n > i64::MIN,
    ensures
        s@ == ln(pre@, n as int, post@),
{
    let mut s = String::from_str(pre);
    push_int_text(&mut s, n);
    s.append(post);
    s
}

fn line_str(pre: &str, x: &str, post: &str) -> (s: String)
    ensures
        s@ == pre@ + x@ + post@,
{
    let mut s = String::from_str(pre);
    s.append(x);
    s.append(post);
    s
}

fn line_num0(pre: &str, n: i64) -> (s: String)
    requires
        n > i64::MIN,
    ensures
        s@ == ln(pre@, n as int, Seq::empty()),
{
    let mut s = String::from_str(pre);
    push_int_text(&mut s, n);
    assert(s@ =~= ln(pre@, n as int, Seq::empty()));
    s
}

fn cat2(pre: &str, x: &str) -> (s: String)
    ensures
        s@ == pre@ + x@,
{
    let mut s = String::from_str(pre);
    s.append(x);
    s
}

fn copy_slots(v: &Vec<(String, i32)>) -> (r: Vec<(String, i32)>)
    ensures
        i32_assoc(r@) == i32_assoc(v@),
{
    let mut out: Vec<(String, i32)> = Vec::new();
    for i in 0..v.len()
        invariant
            out@.len() == i,
            forall|j: int| 0 <= j < i ==> (#[trigger] out@[j]).0@ == v@[j].0@ && out@[j].1 == v@[j].1,
    {
        out.push((v[i].0.clone(), v[i].1));
    }
    assert(i32_assoc(out@) =~= i32_assoc(v@));
    out
}

fn copy_pend(v: &Vec<(String, Vec<i32>)>) -> (r: Vec<(String, Vec<i32>)>)
    ensures
        pend_assoc(r@) == pend_assoc(v@),
{
    let mut out: Vec<(String, Vec<i32>)> = Vec::new();
    for i in 0..v.len()
        invariant
            out@.len() == i,
            forall|j: int| 0 <= j < i ==> (#[trigger] out@[j]).0@ == v@[j].0@ && out@[j].1@ == v@[j].1@,
    {
        out.push((v[i].0.clone(), v[i].1.clone()));
    }
    assert(pend_assoc(out@) =~= pend_assoc(v@));
    out
}

fn esc_exec(s: &String) -> (r: String)
    ensures
        r@ == esc(s@),
{
    let cs = crate::lex::chars_of(s.as_str());
    let mut r = String::new();
    for i in 0..cs.len()
        invariant
            cs@ == s@,
            r@ == esc(cs@.take(i as int)),
    {
        assert(cs@.take(i + 1).drop_last() =~= cs@.take(i as int));
        let c = cs[i];
        if c == '\\' {
            r.append("\\\\");
        } else if c == '"' {
            r.append("\\\"");
        } else if c == '\n' {
            r.append("\\n");
        } else {
            crate::text::push_char(&mut r, c);
        }
        assert(r@ =~= esc(cs@.take(i + 1)));
    }
    assert(cs@.take(cs@.len() as int) =~= cs@);
    r
}

fn join_exec(ls: &Vec<String>) -> (r: String)
    ensures
        r@ == join_lines(lines_model(ls@)),
{
    let ghost m = lines_model(ls@);
    let mut r = String::new();
    assert(m.take(0) =~= Seq::<Seq<char>>::empty());
    for i in 0..ls.len()
        invariant
            m == lines_model(ls@),
            r@ == join_lines(m.take(i as int)),
    {
        assert(m.take(i + 1).drop_last() =~= m.take(i as int));
        if i > 0 {
            r.append("\n");
        }
        r.append(ls[i].as_str());
        assert(r@ =~= join_lines(m.take(i + 1)));
    }
    assert(m.take(ls@.len() as int) =~= m);
    r
}

fn collect_block(ss: &Vec<Statement>, names: &mut Vec<String>)
    ensures
        lines_model(final(names)@) == lines_model(old(names)@) + locals_block(stmts_model(ss@)),
    decreases ss, 1nat,
{
    let ghost m = stmts_model(ss@);
    proof { lemma_stmts_model(ss@); }
    let ghost start = lines_model(names@);
    assert(m.take(0) =~= Seq::<SStmt>::empty());
    assert(lines_model(names@) =~= start + locals_block(m.take(0)));
    for i in 0..ss.len()
        invariant
            m == stmts_model(ss@),
            m.len() == ss@.len(),
            forall|j: int| 0 <= j < ss@.len() ==> #[trigger] m[j] == stmt_model(ss@[j]),
            lines_model(names@) == start + locals_block(m.take(i as int)),
    {
        assert(m.take(i + 1).drop_last() =~= m.take(i as int));
        assert(m.take(i + 1).last() == stmt_model(ss@[i as int]));
        collect_stmt(&ss[i], names);
        assert(lines_model(names@) =~= start + locals_block(m.take(i + 1)));
    }
    assert(m.take(ss@.len() as int) =~= m);
}

fn collect_stmt(s: &Statement, names: &mut Vec<String>)
    ensures
        lines_model(final(names)@) == lines_model(old(names)@) + locals_stmt(stmt_model(*s)),
    decreases s, 1nat,
{
    match s {
        Statement::Let(_, id, _, init) => {
            match init {
                Some(e) => collect_expr(e, names),
                None => {},
            }
            let ghost before = names@;
            names.push(id.clone());
            assert(lines_model(names@) =~= lines_model(before) + seq![id@]);
            assert(lines_model(names@) =~= lines_model(old(names)@) + locals_stmt(stmt_model(*s)));
        },
        Statement::Assign(l, r) => {
            collect_expr(r, names);
            collect_expr(l, names);
            assert(lines_model(names@) =~= lines_model(old(names)@) + locals_stmt(stmt_model(*s)));
        },
        Statement::While(c, body) => {
            collect_expr(c, names);
            assert(block_model(*body).stmts == stmts_model(body.statements@));
            collect_block(&body.statements, names);
            assert(lines_model(names@) =~= lines_model(old(names)@) + locals_stmt(stmt_model(*s)));
        },
        Statement::Expr(e) => collect_expr(e, names),
        Statement::Fn(_) => {
            assert(lines_model(names@) =~= lines_model(names@) + Seq::<Seq<char>>::empty());
        },
    }
}

fn collect_expr(e: &Expr, names: &mut Vec<String>)
    ensures
        lines_model(final(names)@) == lines_model(old(names)@) + locals_expr(e@),
    decreases e, 1nat,
{
    match e {
        Expr::IfThenElse(c, t, eo) => {
            collect_expr(c, names);
            assert(block_model(*t).stmts == stmts_model(t.statements@));
            collect_block(&t.statements, names);
            match eo {
                Some(b) => {
                    assert(block_model(*b).stmts == stmts_model(b.statements@));
                    collect_block(&b.statements, names);
                },
                None => {},
            }
            assert(lines_model(names@) =~= lines_model(old(names)@) + locals_expr(e@));
        },
        Expr::Block(b) => {
            assert(block_model(*b).stmts == stmts_model(b.statements@));
            collect_block(&b.statements, names);
        },
        Expr::BinOp(_, l, r) => {
            collect_expr(l, names);
            collect_expr(r, names);
            assert(lines_model(names@) =~= lines_model(old(names)@) + locals_expr(e@));
        },
        Expr::Par(i) => collect_expr(i, names),
        Expr::UnOp(_, i) => collect_expr(i, names),
        Expr::Ref(i, _) => collect_expr(i, names),
        Expr::Call(_, args) => collect_exprs(&args.0, names),
        _ => {
            assert(lines_model(names@) =~= lines_model(names@) + Seq::<Seq<char>>::empty());
        },
    }
}

fn collect_exprs(es: &Vec<Expr>, names: &mut Vec<String>)
    ensures
        lines_model(final(names)@) == lines_model(old(names)@) + locals_exprs(exprs_model(es@)),
    decreases es, 0nat,
{
    let ghost m = exprs_model(es@);
    proof { lemma_exprs_model(es@); }
    let ghost start = lines_model(names@);
    assert(m.take(0) =~= Seq::<SExpr>::empty());
    assert(lines_model(names@) =~= start + locals_exprs(m.take(0)));
    for i in 0..es.len()
        invariant
            m == exprs_model(es@),
            m.len() == es@.len(),
            forall|j: int| 0 <= j < es@.len() ==> #[trigger] m[j] == expr_model(es@[j]),
            lines_model(names@) == start + locals_exprs(m.take(i as int)),
    {
        assert(m.take(i + 1).drop_last() =~= m.take(i as int));
        assert(m.take(i + 1).last() == es@[i as int]@);
        collect_expr(&es[i], names);
        assert(lines_model(names@) =~= start + locals_exprs(m.take(i + 1)));
    }
    assert(m.take(es@.len() as int) =~= m);
}

proof fn lemma_cg_pargs_err(st: CgState, m: Seq<SExpr>, k: int)
    requires
        1 <= k <= m.len(),
        cg_pargs(st, m.take(k)).1 is Err,
    ensures
        cg_pargs(st, m) == cg_pargs(st, m.take(k)),
    decreases m.len() - k,
{
    if k < m.len() {
        assert(m.take(k + 1).drop_last() =~= m.take(k));
        lemma_cg_pargs_err(st, m, k + 1);
    } else {
        assert(m.take(k) =~= m);
    }
}

proof fn lemma_cg_args_err(st: CgState, m: Seq<SExpr>, k: int)
    requires
        1 <= k <= m.len(),
        cg_args(st, m.take(k)).1 is Err,
    ensures
        cg_args(st, m) == cg_args(st, m.take(k)),
    decreases m.len() - k,
{
    if k < m.len() {
        assert(m.take(k + 1).drop_last() =~= m.take(k));
        lemma_cg_args_err(st, m, k + 1);
    } else {
        assert(m.take(k) =~= m);
    }
}

proof fn lemma_cg_stmts_err(st: CgState, m: Seq<SStmt>, k: int, tail: bool)
    requires
        1 <= k <= m.len(),
        cg_stmts(st, m.take(k), k == m.len() && tail).1 is Err,
    ensures
        cg_stmts(st, m, tail) == cg_stmts(st, m.take(k), k == m.len() && tail),
    decreases m.len() - k,
{
    if k < m.len() {
        assert(m.take(k + 1).drop_last() =~= m.take(k));
        lemma_cg_stmts_err(st, m, k + 1, tail);
    } else {
        assert(m.take(k) =~= m);
    }
}

proof fn lemma_cg_fns_err(st: CgState, m: Seq<SFn>, k: int)
    requires
        1 <= k <= m.len(),
        cg_fns(st, m.take(k)).1 is Err,
    ensures
        cg_fns(st, m) == cg_fns(st, m.take(k)),
    decreases m.len() - k,
{
    if k < m.len() {
        assert(m.take(k + 1).drop_last() =~= m.take(k));
        lemma_cg_fns_err(st, m, k + 1);
    } else {
        assert(m.take(k) =~= m);
    }
}

pub open spec fn pres(r: Result<(usize, Option<String>), Error>) -> Result<(nat, Option<Seq<char>>), SError> {
    match r {
        Ok((n, fl)) => Ok((
            n as nat,
            match fl {
                Some(l) => Some(l@),
                None => None,
            },
        )),
        Err(e) => Err(error_model(e)),
    }
}

/// The MIPS code generator: the lines emitted so far, the label counter,
/// the frame slots of the current function's parameters and locals, the
/// slots reserved for locals not yet declared, and the interned strings.
pub struct CodeGen {
    instrs: Vec<String>,
    label_counter: usize,
    params: Vec<(String, i32)>,
    locals: Vec<(String, i32)>,
    pending_locals: Vec<(String, Vec<i32>)>,
    next_local: i32,
    strings: Vec<(String, String)>,
    data_labels: Vec<(String, String)>,
}

impl View for CodeGen {
    type V = CgState;

    closed spec fn view(&self) -> CgState {
        CgState {
            instrs: lines_model(self.instrs@),
            label: self.label_counter as nat,
            params: i32_assoc(self.params@),
            locals: i32_assoc(self.locals@),
            pending: pend_assoc(self.pending_locals@),
            next_local: self.next_local,
            strings: str_assoc(self.strings@),
            data: str_assoc(self.data_labels@),
        }
    }
}

impl Default for CodeGen {
    fn default() -> (cg: Self)
        ensures
            cg@ == cg_init(),
    {
        CodeGen::new()
    }
}

impl CodeGen {
    pub fn new() -> (cg: Self)
        ensures
            cg@ == cg_init(),
    {
        let cg = CodeGen {
            instrs: Vec::new(),
            label_counter: 0,
            params: Vec::new(),
            locals: Vec::new(),
            pending_locals: Vec::new(),
            next_local: -4,
            strings: Vec::new(),
            data_labels: Vec::new(),
        };
        assert(lines_model(cg.instrs@) =~= Seq::<Seq<char>>::empty());
        assert(i32_assoc(cg.params@) =~= Assoc::<i32>::empty());
        assert(i32_assoc(cg.locals@) =~= Assoc::<i32>::empty());
        assert(pend_assoc(cg.pending_locals@) =~= Assoc::<Seq<i32>>::empty());
        assert(str_assoc(cg.strings@) =~= Assoc::<Seq<char>>::empty());
        assert(str_assoc(cg.data_labels@) =~= Seq::<(Seq<char>, Seq<char>)>::empty());
        cg
    }

    fn emit(&mut self, s: String)
        ensures
            final(self)@ == emit(old(self)@, s@),
    {
        let ghost before = self.instrs@;
        self.instrs.push(s);
        assert(lines_model(self.instrs@) =~= lines_model(before).push(s@));
        assert(final(self)@ =~~= emit(old(self)@, s@));
    }

    fn emit_str(&mut self, s: &str)
        ensures
            final(self)@ == emit(old(self)@, s@),
    {
        self.emit(String::from_str(s));
    }

    fn push_reg(&mut self, r: &str)
        ensures
            final(self)@ == push_reg(old(self)@, r@),
    {
        self.emit_str("    addi sp, sp, -4");
        self.emit(line_str("    sw   ", r, ", 0(sp)"));
    }

    fn pop_reg(&mut self, r: &str)
        ensures
            final(self)@ == pop_reg(old(self)@, r@),
    {
        self.emit(line_str("    lw   ", r, ", 0(sp)"));
        self.emit_str("    addi sp, sp, 4");
    }

    fn fresh_label(&mut self, base: &str) -> (r: Result<String, Error>)
        ensures
            (final(self)@, sres(r)) == fresh_label(old(self)@, base@),
    {
        if self.label_counter == usize::MAX {
            return Err(Error::Overflow);
        }
        let mut l = String::from_str(base);
        l.append("_");
        push_nat_text(&mut l, self.label_counter as u64);
        self.label_counter = self.label_counter + 1;
        assert(final(self)@ =~~= fresh_label(old(self)@, base@).0);
        Ok(l)
    }

    fn intern_string(&mut self, s: &String) -> (r: Result<String, Error>)
        ensures
            (final(self)@, sres(r)) == intern(old(self)@, s@),
    {
        match get_str(&self.strings, s) {
            Some(l) => {
                return Ok(l);
            },
            None => {},
        }
        if self.label_counter == usize::MAX {
            return Err(Error::Overflow);
        }
        let mut l = String::from_str("str_");
        push_nat_text(&mut l, self.label_counter as u64);
        self.label_counter = self.label_counter + 1;
        put_str(&mut self.strings, s.clone(), l.clone());
        let ghost before = self.data_labels@;
        self.data_labels.push((l.clone(), s.clone()));
        assert(str_assoc(self.data_labels@) =~= str_assoc(before).push((l@, s@)));
        assert(final(self)@ =~~= intern(old(self)@, s@).0);
        Ok(l)
    }

    fn slot(&self, name: &String) -> (r: Option<i32>)
        ensures
            r == slot(self@, name@),
    {
        match get_i32(&self.locals, name) {
            Some(o) => Some(o),
            None => get_i32(&self.params, name),
        }
    }

    fn alloc_slot(&mut self, id: &String) -> (r: Result<i32, Error>)
        ensures
            (final(self)@, ires(r)) == alloc_slot(old(self)@, id@),
    {
        match get_pend(&self.pending_locals, id) {
            Some(v) => {
                if v.len() > 0 {
                    let off = v[0];
                    let mut rest: Vec<i32> = Vec::new();
                    for i in 1..v.len()
                        invariant
                            1 <= v@.len(),
                            rest@ == v@.subrange(1, i as int),
                    {
                        rest.push(v[i]);
                        assert(rest@ =~= v@.subrange(1, i + 1));
                    }
                    assert(rest@ =~= v@.skip(1));
                    put_pend(&mut self.pending_locals, id.clone(), rest);
                    put_i32(&mut self.locals, id.clone(), off);
                    assert(final(self)@ =~~= alloc_slot(old(self)@, id@).0);
                    Ok(off)
                } else {
                    Err(Error::UnreservedLocal(id.clone()))
                }
            },
            None => Err(Error::UnreservedLocal(id.clone())),
        }
    }

    fn set_by_branch(&mut self, test: &str, base_t: &str, base_e: &str) -> (r: Result<(), Error>)
        ensures
            (final(self)@, ures(r)) == set_by_branch(old(self)@, test@, base_t@, base_e@),
    {
        let lt = match self.fresh_label(base_t) {
            Ok(l) => l,
            Err(e) => return Err(e),
        };
        let le = match self.fresh_label(base_e) {
            Ok(l) => l,
            Err(e) => return Err(e),
        };
        self.emit(line_str(test, lt.as_str(), ""));
        self.emit_str("    addi t0, zero, 0");
        self.emit(line_str("    b    ", le.as_str(), ""));
        self.emit(line_str("", lt.as_str(), ":"));
        self.emit_str("    addi t0, zero, 1");
        self.emit(line_str("", le.as_str(), ":"));
        proof {
            reveal_strlit("");
            assert(test@ + lt@ + ""@ =~= test@ + lt@);
            assert("    b    "@ + le@ + ""@ =~= "    b    "@ + le@);
            assert(""@ + lt@ + ":"@ =~= lt@ + ":"@);
            assert(""@ + le@ + ":"@ =~= le@ + ":"@);
        }
        Ok(())
    }

    fn gen_pargs(&mut self, args: &Vec<Expr>) -> (r: Result<(usize, Option<String>), Error>)
        ensures
            (final(self)@, pres(r)) == cg_pargs(old(self)@, exprs_model(args@)),
            r matches Ok((n, _)) ==> n <= args@.len(),
        decreases args, 0nat,
    {
        let ghost m = exprs_model(args@);
        proof { lemma_exprs_model(args@); }
        let mut n: usize = 0;
        let mut fl: Option<String> = None;
        assert(m.take(0) =~= Seq::<SExpr>::empty());
        for i in 0..args.len()
            invariant
                m == exprs_model(args@),
                m.len() == args@.len(),
                forall|j: int| 0 <= j < args@.len() ==> #[trigger] m[j] == expr_model(args@[j]),
                n <= i,
                (self@, pres(Ok::<(usize, Option<String>), Error>((n, fl)))) == cg_pargs(
                    old(self)@,
                    m.take(i as int),
                ),
        {
                assert(m.take(i + 1).drop_last() =~= m.take(i as int));
            assert(m.take(i + 1).last() == args@[i as int]@);
            let a = &args[i];
            match a {
                Expr::Lit(Literal::String(s)) => {
                    match self.intern_string(s) {
                        Ok(l) => {
                            fl = Some(l);
                        },
                        Err(e) => {
                            proof { lemma_cg_pargs_err(old(self)@, m, (i + 1) as int); }
                            return Err(e);
                        },
                    }
                },
                _ => {
                    match self.gen_expr(a) {
                        Ok(()) => {
                            n = n + 1;
                        },
                        Err(e) => {
                            proof { lemma_cg_pargs_err(old(self)@, m, (i + 1) as int); }
                            return Err(e);
                        },
                    }
                },
            }
        }
        assert(m.take(args@.len() as int) =~= m);
        Ok((n, fl))
    }

    fn gen_args(&mut self, args: &Vec<Expr>) -> (r: Result<(), Error>)
        ensures
            (final(self)@, ures(r)) == cg_args(old(self)@, exprs_model(args@)),
        decreases args, 0nat,
    {
        let ghost m = exprs_model(args@);
        proof { lemma_exprs_model(args@); }
        assert(m.take(0) =~= Seq::<SExpr>::empty());
        for i in 0..args.len()
            invariant
                m == exprs_model(args@),
                m.len() == args@.len(),
                forall|j: int| 0 <= j < args@.len() ==> #[trigger] m[j] == expr_model(args@[j]),
                (self@, Ok::<(), SError>(())) == cg_args(old(self)@, m.take(i as int)),
        {
            assert(m.take(i + 1).drop_last() =~= m.take(i as int));
            assert(m.take(i + 1).last() == args@[i as int]@);
                let ghost pre = self@;
            match self.gen_expr(&args[i]) {
                Ok(()) => {},
                Err(e) => {
                    proof {
                        assert(cg_args(old(self)@, m.take(i as int)) == (pre, Ok::<(), SError>(())));
                        assert(cg_expr(pre, m[i as int]) == (self@, Err::<(), SError>(error_model(e))));
                        assert(cg_args(old(self)@, m.take(i + 1)) == (self@, Err::<(), SError>(error_model(e))));
                        lemma_cg_args_err(old(self)@, m, (i + 1) as int);
                    }
                    return Err(e);
                },
            }
        }
        assert(m.take(args@.len() as int) =~= m);
        Ok(())
    }

    fn gen_expr(&mut self, e: &Expr) -> (r: Result<(), Error>)
        ensures
            (final(self)@, ures(r)) == cg_expr(old(self)@, e@),
        decreases e, 1nat,
    {
        match e {
            Expr::Ident(name) => match self.slot(name) {
                Some(off) => {
                    self.emit(line_num("    lw   t0, ", off as i64, "(fp)"));
                    self.push_reg("t0");
                    Ok(())
                },
                None => Err(Error::UnknownIdentifier(name.clone())),
            },
            Expr::Lit(l) => match l {
                Literal::Int(n) => {
                    self.emit(line_num0("    addi t0, zero, ", *n as i64));
                    self.push_reg("t0");
                    Ok(())
                },
                Literal::Bool(b) => {
                    if *b {
                        self.emit_str("    addi t0, zero, 1");
                    } else {
                        self.emit_str("    addi t0, zero, 0");
                    }
                    self.push_reg("t0");
                    Ok(())
                },
                Literal::String(s) => {
                    let lbl = match self.intern_string(s) {
                        Ok(l) => l,
                        Err(x) => return Err(x),
                    };
                    self.emit(cat2("    la   t0, ", lbl.as_str()));
                    self.push_reg("t0");
                    Ok(())
                },
                Literal::Unit => {
                    self.emit_str("    addi t0, zero, 0");
                    self.push_reg("t0");
                    Ok(())
                },
            },
            Expr::Par(i) => self.gen_expr(i),
            Expr::BinOp(_, _, _) => self.gen_binop(e),
            Expr::UnOp(_, _) => self.gen_unop(e),
            Expr::Call(_, _) => self.gen_call(e),
            Expr::IfThenElse(_, _, _) => self.gen_if(e),
            Expr::Block(b) => self.gen_block(b, true),
            Expr::Ref(_, _) => self.gen_ref(e),
        }
    }

    fn gen_binop(&mut self, e: &Expr) -> (r: Result<(), Error>)
        requires
            e is BinOp,
        ensures
            (final(self)@, ures(r)) == cg_binop(old(self)@, e@),
        decreases e, 0nat,
    {
        match e {
            Expr::BinOp(op, l, r) => {
                match self.gen_expr(l) {
                    Ok(()) => {},
                    Err(x) => return Err(x),
                }
                match self.gen_expr(r) {
                    Ok(()) => {},
                    Err(x) => return Err(x),
                }
                self.pop_reg("t1");
                self.pop_reg("t0");
                match op {
                    BinOp::Add => self.emit_str("    add  t0, t0, t1"),
                    BinOp::Sub => self.emit_str("    sub  t0, t0, t1"),
                    BinOp::Mul => self.emit_str("    mul  t0, t0, t1"),
                    BinOp::Div => self.emit_str("    div  t0, t0, t1"),
                    BinOp::And => self.emit_str("    and  t0, t0, t1"),
                    BinOp::Or => self.emit_str("    or   t0, t0, t1"),
                    BinOp::Eq => {
                        self.emit_str("    sub  t2, t0, t1");
                        match self.set_by_branch("    beq  t2, zero, ", "eq_true", "eq_end") {
                            Ok(()) => {},
                            Err(x) => return Err(x),
                        }
                    },
                    BinOp::Lt => self.emit_str("    slt  t0, t0, t1"),
                    BinOp::Gt => self.emit_str("    slt  t0, t1, t0"),
                }
                self.push_reg("t0");
                Ok(())
            },
            _ => Err(Error::UnsupportedAssign),
        }
    }

    fn gen_unop(&mut self, e: &Expr) -> (r: Result<(), Error>)
        requires
            e is UnOp,
        ensures
            (final(self)@, ures(r)) == cg_unop(old(self)@, e@),
        decreases e, 0nat,
    {
        match e {
            Expr::UnOp(op, i) => {
                match self.gen_expr(i) {
                    Ok(()) => {},
                    Err(x) => return Err(x),
                }
                self.pop_reg("t0");
                match op {
                    UnOp::Neg => self.emit_str("    sub  t0, zero, t0"),
                    UnOp::Bang => {
                        match self.set_by_branch("    beq  t0, zero, ", "not_true", "not_end") {
                            Ok(()) => {},
                            Err(x) => return Err(x),
                        }
                    },
                    UnOp::Deref => self.emit_str("    lw   t0, 0(t0)"),
                }
                self.push_reg("t0");
                Ok(())
            },
            _ => Err(Error::UnsupportedAssign),
        }
    }

    fn gen_call(&mut self, e: &Expr) -> (r: Result<(), Error>)
        requires
            e is Call,
        ensures
            (final(self)@, ures(r)) == cg_call(old(self)@, e@),
        decreases e, 0nat,
    {
        match e {
            Expr::Call(name, args) => {
                if is_println(name) {
                    let (n, fl) = match self.gen_pargs(&args.0) {
                        Ok(p) => p,
                        Err(x) => return Err(x),
                    };
                    let has_fmt = match fl {
                        Some(l) => {
                            self.emit(cat2("    la   t0, ", l.as_str()));
                            self.push_reg("t0");
                            true
                        },
                        None => false,
                    };
                    if n > 536870911 {
                        return Err(Error::Overflow);
                    }
                    let argc: usize = if has_fmt { n + 1 } else { n };
                    if argc > 536870911 {
                        return Err(Error::Overflow);
                    }
                    self.emit(line_num0("    addi t2, zero, ", argc as i64));
                    self.emit_str("    bal  println");
                    if argc > 0 {
                        self.emit(line_num0("    addi sp, sp, ", (argc * 4) as i64));
                    }
                    self.emit_str("    addi t0, zero, 0");
                    self.push_reg("t0");
                    Ok(())
                } else {
                    match self.gen_args(&args.0) {
                        Ok(()) => {},
                        Err(x) => return Err(x),
                    }
                    let argc = args.0.len();
                    proof { lemma_exprs_model(args.0@); }
                    if argc > 536870911 {
                        return Err(Error::Overflow);
                    }
                    self.emit(cat2("    bal ", name.as_str()));
                    if argc > 0 {
                        self.emit(line_num0("    addi sp, sp, ", (argc * 4) as i64));
                    }
                    self.push_reg("t0");
                    Ok(())
                }
            },
            _ => Err(Error::UnsupportedAssign),
        }
    }

    fn gen_if(&mut self, e: &Expr) -> (r: Result<(), Error>)
        requires
            e is IfThenElse,
        ensures
            (final(self)@, ures(r)) == cg_if(old(self)@, e@),
        decreases e, 0nat,
    {
        match e {
            Expr::IfThenElse(c, t, eo) => {
                match self.gen_expr(c) {
                    Ok(()) => {},
                    Err(x) => return Err(x),
                }
                self.pop_reg("t0");
                let le = match self.fresh_label("if_else") {
                    Ok(l) => l,
                    Err(x) => return Err(x),
                };
                let lend = match self.fresh_label("if_end") {
                    Ok(l) => l,
                    Err(x) => return Err(x),
                };
                self.emit(cat2("    beq  t0, zero, ", le.as_str()));
                match self.gen_block(t, true) {
                    Ok(()) => {},
                    Err(x) => return Err(x),
                }
                self.emit(cat2("    b    ", lend.as_str()));
                let mut lab = le.clone();
                lab.append(":");
                self.emit(lab);
                match eo {
                    Some(eb) => match self.gen_block(eb, true) {
                        Ok(()) => {},
                        Err(x) => return Err(x),
                    },
                    None => {
                        self.emit_str("    addi t0, zero, 0");
                        self.push_reg("t0");
                    },
                }
                let mut lab2 = lend.clone();
                lab2.append(":");
                self.emit(lab2);
                Ok(())
            },
            _ => Err(Error::UnsupportedAssign),
        }
    }

    fn gen_ref(&mut self, e: &Expr) -> (r: Result<(), Error>)
        requires
            e is Ref,
        ensures
            (final(self)@, ures(r)) == cg_ref(old(self)@, e@),
        decreases e, 0nat,
    {
        proof { reveal_with_fuel(expr_model, 2); }
        match e {
            Expr::Ref(inner, _) => match &**inner {
                Expr::Ident(name) => match self.slot(name) {
                    Some(off) => {
                        self.emit(line_num0("    addi t0, fp, ", off as i64));
                        self.push_reg("t0");
                        Ok(())
                    },
                    None => Err(Error::UnknownIdentifier(name.clone())),
                },
                _ => {
                    match self.gen_expr(inner) {
                        Ok(()) => {},
                        Err(x) => return Err(x),
                    }
                    self.emit_str("    addi t0, sp, 0");
                    self.push_reg("t0");
                    Ok(())
                },
            },
            _ => Err(Error::UnsupportedAssign),
        }
    }

    fn gen_block(&mut self, b: &Block, tail: bool) -> (r: Result<(), Error>)
        ensures
            (final(self)@, ures(r)) == cg_block(old(self)@, block_model(*b), tail),
        decreases b, 1nat,
    {
        let saved = copy_slots(&self.locals);
        let ghost m = stmts_model(b.statements@);
        proof { lemma_stmts_model(b.statements@); }
        let n = b.statements.len();
        let keep = tail && !b.semi && n > 0 && match &b.statements[n - 1] {
            Statement::Expr(_) => true,
            _ => false,
        };
        assert(keep == (tail && block_has_value(block_model(*b))));
        assert(m.take(0) =~= Seq::<SStmt>::empty());
        for i in 0..n
            invariant
                n == b.statements@.len(),
                m == stmts_model(b.statements@),
                m.len() == n,
                forall|j: int| 0 <= j < n ==> #[trigger] m[j] == stmt_model(b.statements@[j]),
                (self@, Ok::<(), SError>(())) == cg_stmts(old(self)@, m.take(i as int), i == n && keep),
                keep == (tail && block_has_value(block_model(*b))),
                block_model(*b).stmts == m,
        {
            assert(m.take(i + 1).drop_last() =~= m.take(i as int));
            assert(m.take(i + 1).last() == stmt_model(b.statements@[i as int]));
            let last = i + 1 == n;
            match self.gen_stmt(&b.statements[i], keep && last) {
                Ok(()) => {},
                Err(x) => {
                    proof { lemma_cg_stmts_err(old(self)@, m, (i + 1) as int, keep); }
                    return Err(x);
                },
            }
        }
        assert(m.take(n as int) =~= m);
        self.locals = saved;
        if tail && !keep {
            self.emit_str("    addi t0, zero, 0");
            self.push_reg("t0");
        }
        assert(final(self)@ =~~= cg_block(old(self)@, block_model(*b), tail).0);
        Ok(())
    }

    fn store_via(&mut self, name: &String, load: bool) -> (r: Result<(), Error>)
        ensures
            (final(self)@, ures(r)) == store_via(old(self)@, name@, load),
    {
        match self.slot(name) {
            Some(off) => {
                if load {
                    self.emit(line_num("    lw   t1, ", off as i64, "(fp)"));
                } else {
                    self.emit(line_num0("    addi t1, fp, ", off as i64));
                }
                self.emit_str("    sw   t0, 0(t1)");
                Ok(())
            },
            None => Err(Error::UnknownIdentifier(name.clone())),
        }
    }

    fn store_computed(&mut self, inner: &Expr) -> (r: Result<(), Error>)
        ensures
            (final(self)@, ures(r)) == store_computed(old(self)@, inner@),
        decreases inner, 2nat,
    {
        match self.gen_expr(inner) {
            Ok(()) => {},
            Err(x) => return Err(x),
        }
        self.pop_reg("t1");
        self.emit_str("    sw   t0, 0(t1)");
        Ok(())
    }

    fn gen_stmt(&mut self, s: &Statement, tail: bool) -> (r: Result<(), Error>)
        ensures
            (final(self)@, ures(r)) == cg_stmt(old(self)@, stmt_model(*s), tail),
        decreases s, 1nat,
    {
        match s {
            Statement::Let(_, _, _, _) => self.gen_let(s),
            Statement::Assign(_, _) => self.gen_assign(s),
            Statement::While(_, _) => self.gen_while(s),
            Statement::Expr(e) => {
                match self.gen_expr(e) {
                    Ok(()) => {},
                    Err(x) => return Err(x),
                }
                if !tail {
                    self.pop_reg("t0");
                }
                Ok(())
            },
            Statement::Fn(f) => {
                let r = self.gen_local_fn(f);
                r
            },
        }
    }

    fn gen_local_fn(&mut self, f: &FnDeclaration) -> (r: Result<(), Error>)
        ensures
            (final(self)@, ures(r)) == cg_local_fn(old(self)@, fn_model(*f)),
        decreases f, 1nat,
    {
        let lbl = match self.fresh_label("skip_fn") {
            Ok(l) => l,
            Err(x) => return Err(x),
        };
        let mut line = String::from_str("    b    ");
        line.append(lbl.as_str());
        self.emit(line);
        let params = copy_slots(&self.params);
        let locals = copy_slots(&self.locals);
        let pending = copy_pend(&self.pending_locals);
        let next_local = self.next_local;
        let r = self.generate_function(f);
        self.params = params;
        self.locals = locals;
        self.pending_locals = pending;
        self.next_local = next_local;
        match r {
            Ok(()) => {},
            Err(x) => return Err(x),
        }
        let mut end = lbl.clone();
        end.append(":");
        self.emit(end);
        Ok(())
    }

    fn gen_let(&mut self, s: &Statement) -> (r: Result<(), Error>)
        requires
            s is Let,
        ensures
            (final(self)@, ures(r)) == cg_let(old(self)@, stmt_model(*s)),
        decreases s, 0nat,
    {
        match s {
            Statement::Let(_, id, _, init) => match init {
                Some(e) => {
                    match self.gen_expr(e) {
                        Ok(()) => {},
                        Err(x) => return Err(x),
                    }
                    self.pop_reg("t0");
                    let off = match self.alloc_slot(id) {
                        Ok(o) => o,
                        Err(x) => return Err(x),
                    };
                    self.emit(line_num("    sw   t0, ", off as i64, "(fp)"));
                    Ok(())
                },
                None => {
                    let off = match self.alloc_slot(id) {
                        Ok(o) => o,
                        Err(x) => return Err(x),
                    };
                    self.emit_str("    addi t0, zero, 0");
                    self.emit(line_num("    sw   t0, ", off as i64, "(fp)"));
                    Ok(())
                },
            },
            _ => Err(Error::UnsupportedAssign),
        }
    }

    fn gen_assign(&mut self, s: &Statement) -> (r: Result<(), Error>)
        requires
            s is Assign,
        ensures
            (final(self)@, ures(r)) == cg_assign(old(self)@, stmt_model(*s)),
        decreases s, 0nat,
    {
        proof { reveal_with_fuel(expr_model, 2); }
        match s {
            Statement::Assign(lhs, rhs) => {
                match self.gen_expr(rhs) {
                    Ok(()) => {},
                    Err(x) => return Err(x),
                }
                self.pop_reg("t0");
                match lhs {
                    Expr::Ident(name) => match self.slot(name) {
                        Some(off) => {
                            self.emit(line_num("    sw   t0, ", off as i64, "(fp)"));
                            Ok(())
                        },
                        None => Err(Error::UnknownIdentifier(name.clone())),
                    },
                    Expr::UnOp(UnOp::Deref, inner) => match &**inner {
                        Expr::Ident(name) => self.store_via(name, true),
                        _ => self.store_computed(inner),
                    },
                    Expr::Ref(inner, _) => match &**inner {
                        Expr::Ident(name) => self.store_via(name, false),
                        _ => self.store_computed(inner),
                    },
                    _ => Err(Error::UnsupportedAssign),
                }
            },
            _ => Err(Error::UnsupportedAssign),
        }
    }

    fn gen_while(&mut self, s: &Statement) -> (r: Result<(), Error>)
        requires
            s is While,
        ensures
            (final(self)@, ures(r)) == cg_while(old(self)@, stmt_model(*s)),
        decreases s, 0nat,
    {
        match s {
            Statement::While(c, body) => {
                let ls = match self.fresh_label("while_start") {
                    Ok(l) => l,
                    Err(x) => return Err(x),
                };
                let le = match self.fresh_label("while_end") {
                    Ok(l) => l,
                    Err(x) => return Err(x),
                };
                let mut lab = ls.clone();
                lab.append(":");
                self.emit(lab);
                match self.gen_expr(c) {
                    Ok(()) => {},
                    Err(x) => return Err(x),
                }
                self.pop_reg("t0");
                self.emit(cat2("    beq  t0, zero, ", le.as_str()));
                match self.gen_block(body, false) {
                    Ok(()) => {},
                    Err(x) => return Err(x),
                }
                self.emit(cat2("    b    ", ls.as_str()));
                let mut lab2 = le.clone();
                lab2.append(":");
                self.emit(lab2);
                Ok(())
            },
            _ => Err(Error::UnsupportedAssign),
        }
    }

    fn generate_function(&mut self, f: &FnDeclaration) -> (r: Result<(), Error>)
        ensures
            (final(self)@, ures(r)) == cg_fn(old(self)@, fn_model(*f)),
        decreases f, 0nat,
    {
        let ghost sf = fn_model(*f);
        self.params = Vec::new();
        self.locals = Vec::new();
        self.pending_locals = Vec::new();
        self.next_local = -4;
        assert(pend_assoc(self.pending_locals@) =~= Assoc::<Seq<i32>>::empty());
        assert(i32_assoc(self.params@) =~= Assoc::<i32>::empty());
        assert(i32_assoc(self.locals@) =~= Assoc::<i32>::empty());
        let mut lab = f.id.clone();
        lab.append(":");
        self.emit(lab);
        self.emit_str("    addi sp, sp, -4");
        self.emit_str("    sw   ra, 0(sp)");
        self.emit_str("    addi sp, sp, -4");
        self.emit_str("    sw   fp, 0(sp)");
        self.emit_str("    addi fp, sp, 0");
        let ps = &f.parameters.0;
        let n = ps.len();
        let mut ids: Vec<String> = Vec::new();
        assert(lines_model(ids@) =~= Seq::<Seq<char>>::empty());
        assert(block_model(f.body).stmts == stmts_model(f.body.statements@));
        collect_block(&f.body.statements, &mut ids);
        assert(lines_model(ids@) =~= locals_block(sf.body.stmts));
        let nl = ids.len();
        if n > 536870910 || nl > 536870911 {
            return Err(Error::Overflow);
        }
        let ghost s2 = self@;
        assert(i32_assoc(self.params@) =~= param_slots(sf.params, 0, n as int));
        for i in 0..n
            invariant
                n == ps@.len(),
                n <= 536870910,
                *ps == f.parameters.0,
                sf == fn_model(*f),
                i32_assoc(self.params@) == param_slots(sf.params, i as int, n as int),
                self@ == (CgState { params: param_slots(sf.params, i as int, n as int), ..s2 }),
        {
            assert(sf.params[i as int] == param_model(ps@[i as int]));
            let off: i64 = 8 + 4 * ((n - 1 - i) as i64);
            put_i32(&mut self.params, ps[i].id.clone(), off as i32);
            assert(self@ =~~= (CgState { params: param_slots(sf.params, i + 1, n as int), ..s2 }));
        }
        let ghost s3 = self@;
        if nl > 0 {
            self.emit(line_num0("    addi sp, sp, -", (nl * 4) as i64));
            let ghost s3e = self@;
            let ghost p0 = self@.pending;
            let ghost idm = lines_model(ids@);
            assert(pend_assoc(self.pending_locals@) =~= reserve(p0, idm, 0));
            for i in 0..nl
                invariant
                    nl == ids@.len(),
                    nl <= 536870911,
                    idm == lines_model(ids@),
                    p0 == s3e.pending,
                    pend_assoc(self.pending_locals@) == reserve(p0, idm, i as int),
                    self@ == (CgState { pending: reserve(p0, idm, i as int), ..s3e }),
            {
                let id = &ids[i];
                let mut entry = match get_pend(&self.pending_locals, id) {
                    Some(v) => v,
                    None => Vec::new(),
                };
                let ghost before = entry@;
                let off: i64 = -4 - 4 * (i as i64);
                entry.push(off as i32);
                put_pend(&mut self.pending_locals, id.clone(), entry);
                proof {
                    let q = reserve(p0, idm, i as int);
                    let prev = match assoc_get(q, idm[i as int]) {
                        Some(v) => v,
                        None => Seq::<i32>::empty(),
                    };
                    assert(before == prev);
                    assert(pend_assoc(self.pending_locals@) == assoc_put(q, idm[i as int], prev.push((-4 - 4 * i) as i32)));
                }
                assert(self@ =~~= (CgState { pending: reserve(p0, idm, i + 1), ..s3e }));
            }
            self.next_local = (-4 - 4 * (nl as i64)) as i32;
            assert(self@ =~~= (CgState {
                pending: reserve(s3.pending, locals_block(sf.body.stmts), nl as int),
                next_local: (-4 - 4 * nl) as i32,
                ..emit(s3, ln("    addi sp, sp, -"@, nl * 4, Seq::empty()))
            }));
        }
        let tail = match &f.ty {
            Some(t) => !t.same(&Type::Unit),
            None => false,
        };
        match self.gen_block(&f.body, tail) {
            Ok(()) => {},
            Err(x) => return Err(x),
        }
        if tail {
            self.pop_reg("t0");
        }
        if nl > 0 {
            self.emit(line_num0("    addi sp, sp, ", (nl * 4) as i64));
        }
        self.emit_str("    lw   fp, 0(sp)");
        self.emit_str("    addi sp, sp, 4");
        self.emit_str("    lw   ra, 0(sp)");
        self.emit_str("    addi sp, sp, 4");
        self.emit_str("    jr   ra");
        self.emit(String::new());
        Ok(())
    }

    fn calls_println_x(&self) -> (r: bool)
        ensures
            r == calls_println(self@.instrs),
    {
        let ghost m = self@.instrs;
        let a = String::from_str("    bal  println");
        let b = String::from_str("    bal println");
        for i in 0..self.instrs.len()
            invariant
                m == self@.instrs,
                m == lines_model(self.instrs@),
                a@ == "    bal  println"@,
                b@ == "    bal println"@,
                forall|j: int| 0 <= j < i ==> !(#[trigger] m[j] == "    bal  println"@ || m[j] == "    bal println"@),
        {
            if self.instrs[i] == a || self.instrs[i] == b {
                assert(m[i as int] == "    bal  println"@ || m[i as int] == "    bal println"@);
                return true;
            }
        }
        false
    }

    /// The assembly text of a program: each function in order, then the
    /// data section, the code and the runtime stub joined by newlines.
    pub fn generate(&mut self, prog: &Prog) -> (r: Result<String, Error>)
        ensures
            (final(self)@, sres(r)) == cg_prog(old(self)@, prog@),
    {
        let ghost m = fns_model(prog.0@);
        let n = prog.0.len();
        assert(m.take(0) =~= Seq::<SFn>::empty());
        for i in 0..n
            invariant
                n == prog.0@.len(),
                m == fns_model(prog.0@),
                (self@, Ok::<(), SError>(())) == cg_fns(old(self)@, m.take(i as int)),
        {
            assert(m.take(i + 1).drop_last() =~= m.take(i as int));
            assert(m.take(i + 1).last() == fn_model(prog.0@[i as int]));
            match self.generate_function(&prog.0[i]) {
                Ok(()) => {},
                Err(e) => {
                    proof { lemma_cg_fns_err(old(self)@, m, (i + 1) as int); }
                    return Err(e);
                },
            }
        }
        assert(m.take(n as int) =~= m);
        let mut out: Vec<String> = Vec::new();
        let ghost st = self@;
        let ghost data = if st.data.len() > 0 {
            seq![".data"@] + data_lines(st.data) + seq![".text"@]
        } else {
            Seq::<Seq<char>>::empty()
        };
        if self.data_labels.len() > 0 {
            out.push(String::from_str(".data"));
            for i in 0..self.data_labels.len()
                invariant
                    st == self@,
                    st.data == str_assoc(self.data_labels@),
                    lines_model(out@) == seq![".data"@] + data_lines(st.data).take(i as int),
            {
                let (label, content) = &self.data_labels[i];
                let mut line = label.clone();
                line.append(": .asciiz \"");
                let e = esc_exec(content);
                line.append(e.as_str());
                line.append("\"");
                let ghost before = out@;
                out.push(line);
                assert(data_lines(st.data).take(i + 1) =~= data_lines(st.data).take(i as int).push(
                    data_lines(st.data)[i as int],
                ));
                assert(lines_model(out@) =~= lines_model(before).push(line@));
            }
            assert(data_lines(st.data).take(self.data_labels@.len() as int) =~= data_lines(st.data));
            let ghost before = out@;
            out.push(String::from_str(".text"));
            assert(lines_model(out@) =~= lines_model(before).push(".text"@));
        }
        assert(lines_model(out@) =~= data);
        for i in 0..self.instrs.len()
            invariant
                st == self@,
                st.instrs == lines_model(self.instrs@),
                lines_model(out@) == data + st.instrs.take(i as int),
        {
            let ghost before = out@;
            out.push(self.instrs[i].clone());
            assert(st.instrs.take(i + 1) =~= st.instrs.take(i as int).push(st.instrs[i as int]));
            assert(lines_model(out@) =~= lines_model(before).push(st.instrs[i as int]));
        }
        assert(st.instrs.take(self.instrs@.len() as int) =~= st.instrs);
        if self.calls_println_x() {
            let ghost before = out@;
            out.push(String::from_str("\n# runtime stubs"));
            out.push(String::from_str("println:"));
            out.push(String::from_str("    jr   ra"));
            assert(lines_model(out@) =~= lines_model(before) + seq!["\n# runtime stubs"@, "println:"@, "    jr   ra"@]);
        }
        assert(lines_model(out@) =~= all_lines(st));
        Ok(join_exec(&out))
    }
}

/// The assembly text of a program.
pub fn generate_prog_to_string(prog: &Prog) -> (r: Result<String, Error>)
    ensures
        sres(r) == cg_prog(cg_init(), prog@).1,
{
    let mut cg = CodeGen::new();
    cg.generate(prog)
}

/// A string literal is stored once: interning it a second time gives the
/// same data label and changes nothing.
pub proof fn law_intern_once(st: CgState, s: Seq<char>)
    requires
        intern(st, s).1 is Ok,
    ensures
        intern(intern(st, s).0, s) == (intern(st, s).0, intern(st, s).1),
{
    let l = intern(st, s).1->Ok_0;
    if assoc_get(st.strings, s) is None {
        let m = st.strings;
        let m2 = assoc_put(m, s, l);
        assert(m2 == m.push((s, l)));
        assert(m2.drop_last() =~= m);
    }
}

pub open spec fn prog_instrs(p: Seq<SFn>) -> Result<Seq<SInstr>, SError> {
    match cg_prog(cg_init(), p).1 {
        Err(e) => Err(e),
        Ok(text) => assemble_spec(text),
    }
}

/// The program's instructions: its assembly text, assembled.
pub fn generate_prog_to_instrs(prog: &Prog) -> (r: Result<Vec<Instr>, Error>)
    ensures
        seq_res(r) == prog_instrs(prog@),
{
    let text = generate_prog_to_string(prog)?;
    assemble(text.as_str())
}

} // verus!
