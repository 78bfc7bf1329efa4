use crate::assemble::{decode, is_ws, reg_of, strip_end, words, Reg, SInstr};
use crate::ast::{BinOp, Mutable, SExpr, SFn, SLit, SParam, Type, UnOp};
use crate::codegen::binop_line;
use crate::grammar::{binop_at, g_bin, g_expr, g_operand, ident_at, is_keyword, kw_is, lit_at, sym_is};
use crate::lex::{SToken, Sym};
use crate::round_trip::{binop_tok, is_name};
use crate::env::{env_insert, env_lookup, law_insert_other_name, law_lookup_after_insert, Scope};
use crate::error::SError;
use crate::type_check::{binop_type, tc_expr, unop_type, TcState};
use crate::vm::{sem_unop, bind_params, pop_env, sem_binop, sem_block, sem_call, with_env, VmState, SVal};
use vstd::prelude::*;

verus! {

// ---------------------------------------------------------------------
// What the operators mean, in every part of the toolchain.
// ---------------------------------------------------------------------

pub open spec fn int_val(a: i32) -> SVal {
    SVal::Lit(SLit::Int(a))
}

pub open spec fn bool_lit(b: bool) -> SVal {
    SVal::Lit(SLit::Bool(b))
}

/// The comparisons on integers: `<` and `>` are strict and mirror each
/// other, `==` is equality; each gives a boolean.
pub proof fn law_int_comparisons(a: i32, b: i32)
    ensures
        sem_binop(BinOp::Lt, int_val(a), int_val(b)) == Ok::<SVal, SError>(bool_lit(a < b)),
        sem_binop(BinOp::Gt, int_val(a), int_val(b)) == Ok::<SVal, SError>(bool_lit(a > b)),
        sem_binop(BinOp::Eq, int_val(a), int_val(b)) == Ok::<SVal, SError>(bool_lit(a == b)),
        sem_binop(BinOp::Lt, int_val(a), int_val(b)) == sem_binop(BinOp::Gt, int_val(b), int_val(a)),
        sem_binop(BinOp::Lt, int_val(a), int_val(a)) == Ok::<SVal, SError>(bool_lit(false)),
        sem_binop(BinOp::Gt, int_val(a), int_val(a)) == Ok::<SVal, SError>(bool_lit(false)),
{
}

/// The arithmetic operators on integers give the mathematical sum,
/// difference and product when it fits in 32 bits, and an overflow error
/// when it does not.
pub proof fn law_int_arithmetic(a: i32, b: i32)
    ensures
        i32::MIN <= a + b <= i32::MAX ==> sem_binop(BinOp::Add, int_val(a), int_val(b)) == Ok::<SVal, SError>(
            int_val((a + b) as i32),
        ),
        !(i32::MIN <= a + b <= i32::MAX) ==> sem_binop(BinOp::Add, int_val(a), int_val(b)) == Err::<SVal, SError>(
            SError::Overflow,
        ),
        i32::MIN <= a - b <= i32::MAX ==> sem_binop(BinOp::Sub, int_val(a), int_val(b)) == Ok::<SVal, SError>(
            int_val((a - b) as i32),
        ),
        i32::MIN <= a * b <= i32::MAX ==> sem_binop(BinOp::Mul, int_val(a), int_val(b)) == Ok::<SVal, SError>(
            int_val((a * b) as i32),
        ),
        !(i32::MIN <= a - b <= i32::MAX) ==> sem_binop(BinOp::Sub, int_val(a), int_val(b)) == Err::<SVal, SError>(
            SError::Overflow,
        ),
        !(i32::MIN <= a * b <= i32::MAX) ==> sem_binop(BinOp::Mul, int_val(a), int_val(b)) == Err::<SVal, SError>(
            SError::Overflow,
        ),
        b == 0 ==> sem_binop(BinOp::Div, int_val(a), int_val(b)) == Err::<SVal, SError>(SError::DivisionByZero),
{
}

/// Negation gives the negated integer (an overflow error for the least
/// one), `!` the negated boolean; `-` takes and gives `i32`, `!` takes and
/// gives `bool`, and `*` gives the type behind a reference.
pub proof fn law_unary_operators(env: Seq<Scope>, a: i32, p: bool, t: Type, m: bool)
    ensures
        a != i32::MIN ==> sem_unop(env, UnOp::Neg, int_val(a)) == Ok::<SVal, SError>(int_val((-a) as i32)),
        a == i32::MIN ==> sem_unop(env, UnOp::Neg, int_val(a)) == Err::<SVal, SError>(SError::Overflow),
        sem_unop(env, UnOp::Bang, bool_lit(p)) == Ok::<SVal, SError>(bool_lit(!p)),
        unop_type(UnOp::Neg, Type::I32) == Ok::<Type, SError>(Type::I32),
        unop_type(UnOp::Bang, Type::Bool) == Ok::<Type, SError>(Type::Bool),
        unop_type(UnOp::Deref, Type::Ref(Box::new(t), Mutable(m))) == Ok::<Type, SError>(t),
        unop_type(UnOp::Neg, Type::Bool) is Err,
        unop_type(UnOp::Bang, Type::I32) is Err,
{
}

/// Division of integers rounds toward zero: the remainder `a - q * b` is
/// smaller than `b` in size and has the sign of `a` (or is 0); dividing by
/// zero is an error.
pub proof fn law_int_division(a: i32, b: i32)
    requires
        b != 0,
        !(a == i32::MIN && b == -1),
    ensures
        sem_binop(BinOp::Div, int_val(a), int_val(b)) matches Ok(SVal::Lit(SLit::Int(q))) && ({
            let r = a - q * b;
            &&& (if r < 0 { -r } else { r }) < (if b < 0 { -(b as int) } else { b as int })
            &&& (r == 0 || ((r < 0) == (a < 0)))
        }),
{
    let aa: int = if a < 0 { -(a as int) } else { a as int };
    let bb: int = if b < 0 { -(b as int) } else { b as int };
    let qq = aa / bb;
    let rr = aa % bb;
    assert(aa == bb * qq + rr && 0 <= rr < bb) by (nonlinear_arith)
        requires
            aa >= 0,
            bb > 0,
            qq == aa / bb,
            rr == aa % bb,
    ;
    assert(0 <= qq <= aa) by (nonlinear_arith)
        requires
            aa >= 0,
            bb >= 1,
            aa == bb * qq + rr,
            0 <= rr < bb,
    ;
    let q: int = if (a < 0) != (b < 0) { -qq } else { qq };
    assert(q == crate::vm::trunc_div(a as int, b as int));
    assert(aa <= 2147483648);
    if qq == 2147483648 {
        assert(bb * qq >= qq) by (nonlinear_arith)
            requires
                bb >= 1,
                qq >= 0,
        ;
        assert(aa == 2147483648 && rr == 0 && bb * qq == 2147483648);
        assert(bb == 1) by (nonlinear_arith)
            requires
                bb * qq == 2147483648,
                qq == 2147483648,
        ;
    }
    assert(i32::MIN <= q <= i32::MAX);
    let r = a - q * b;
    if a >= 0 && b > 0 {
        assert(r == rr);
    } else if a < 0 && b < 0 {
        assert(q * b == -(qq * bb)) by (nonlinear_arith)
            requires
                q == qq,
                b == -bb,
        ;
        assert(r == -rr);
    } else if a >= 0 && b < 0 {
        assert(q * b == qq * bb) by (nonlinear_arith)
            requires
                q == -qq,
                b == -bb,
        ;
        assert(r == rr);
    } else {
        assert(q * b == -(qq * bb)) by (nonlinear_arith)
            requires
                q == -qq,
                b == bb,
        ;
        assert(r == -rr);
    }
}

/// `&&` and `||` on booleans are conjunction and disjunction.
pub proof fn law_bool_connectives(a: bool, b: bool)
    ensures
        sem_binop(BinOp::And, bool_lit(a), bool_lit(b)) == Ok::<SVal, SError>(bool_lit(a && b)),
        sem_binop(BinOp::Or, bool_lit(a), bool_lit(b)) == Ok::<SVal, SError>(bool_lit(a || b)),
{
}

/// The types of the operators: `+ - * /` take and give `i32`; `< >` take
/// `i32` and give `bool`; `==` compares two values of one type and gives
/// `bool`; `&& ||` take and give `bool`.
pub proof fn law_operator_types(t: Type)
    ensures
        binop_type(BinOp::Add, Type::I32, Type::I32) == Ok::<Type, SError>(Type::I32),
        binop_type(BinOp::Sub, Type::I32, Type::I32) == Ok::<Type, SError>(Type::I32),
        binop_type(BinOp::Mul, Type::I32, Type::I32) == Ok::<Type, SError>(Type::I32),
        binop_type(BinOp::Div, Type::I32, Type::I32) == Ok::<Type, SError>(Type::I32),
        binop_type(BinOp::Lt, Type::I32, Type::I32) == Ok::<Type, SError>(Type::Bool),
        binop_type(BinOp::Gt, Type::I32, Type::I32) == Ok::<Type, SError>(Type::Bool),
        binop_type(BinOp::Eq, t, t) == Ok::<Type, SError>(Type::Bool),
        binop_type(BinOp::And, Type::Bool, Type::Bool) == Ok::<Type, SError>(Type::Bool),
        binop_type(BinOp::Or, Type::Bool, Type::Bool) == Ok::<Type, SError>(Type::Bool),
        binop_type(BinOp::Add, Type::Bool, Type::I32) is Err,
        binop_type(BinOp::And, Type::I32, Type::Bool) is Err,
{
}

/// An arithmetic operator applied to two expressions of type `i32` has type
/// `i32`, and a comparison `<` or `>` of them has type `bool`.
pub proof fn law_arith_expr_type(st: TcState, op: BinOp, l: SExpr, r: SExpr)
    requires
        tc_expr(st, l) == (st, Ok::<Type, SError>(Type::I32)),
        tc_expr(st, r) == (st, Ok::<Type, SError>(Type::I32)),
    ensures
        (op == BinOp::Add || op == BinOp::Sub || op == BinOp::Mul || op == BinOp::Div) ==> tc_expr(
            st,
            SExpr::BinOp(op, Box::new(l), Box::new(r)),
        ).1 == Ok::<Type, SError>(Type::I32),
        (op == BinOp::Lt || op == BinOp::Gt || op == BinOp::Eq) ==> tc_expr(
            st,
            SExpr::BinOp(op, Box::new(l), Box::new(r)),
        ).1 == Ok::<Type, SError>(Type::Bool),
{
}

// ---------------------------------------------------------------------
// The comparison instructions of the generated code.
// ---------------------------------------------------------------------

/// What `slt rd, rs, rt` puts in `t0` when it writes `t0`, with `t0`
/// holding `v0` and `t1` holding `v1` before: 1 exactly when the value in
/// `rs` is less than that in `rt`.
pub open spec fn slt_into_t0(i: SInstr, v0: int, v1: int) -> Option<bool> {
    match i {
        SInstr::Slt(rd, rs, rt) => if rd == Reg::t0 && (rs == Reg::t0 || rs == Reg::t1) && (rt == Reg::t0 || rt
            == Reg::t1) {
            let a = if rs == Reg::t0 { v0 } else { v1 };
            let b = if rt == Reg::t0 { v0 } else { v1 };
            Some(a < b)
        } else {
            None
        },
        _ => None,
    }
}

proof fn lemma_words_ws(a: Seq<char>, b: Seq<char>)
    requires
        forall|k: int| 0 <= k < b.len() ==> is_ws(#[trigger] b[k]),
    ensures
        words(a + b) == words(a),
    decreases b.len(),
{
    if b.len() > 0 {
        assert((a + b).drop_last() =~= a + b.drop_last());
        assert((a + b).last() == b[b.len() - 1]);
        lemma_words_ws(a, b.drop_last());
    } else {
        assert(a + b =~= a);
    }
}

proof fn lemma_words_word(a: Seq<char>, w: Seq<char>)
    requires
        a.len() == 0 || is_ws(a.last()),
        w.len() > 0,
        forall|k: int| 0 <= k < w.len() ==> !is_ws(#[trigger] w[k]),
    ensures
        words(a + w) == words(a).push(w),
    decreases w.len(),
{
    let s = a + w;
    assert(s.drop_last() =~= a + w.drop_last());
    assert(s.last() == w[w.len() - 1]);
    if w.len() == 1 {
        assert(w.drop_last() =~= Seq::<char>::empty());
        assert(a + w.drop_last() =~= a);
        if s.len() >= 2 {
            assert(s[s.len() - 2] == a.last());
        }
        assert(seq![w[0]] =~= w);
    } else {
        lemma_words_word(a, w.drop_last());
        assert(s[s.len() - 2] == w[w.len() - 2]);
        let u = words(a).push(w.drop_last());
        assert(w.drop_last().push(w.last()) =~= w);
        assert(u.last() == w.drop_last());
        assert(u.update(u.len() - 1, u.last().push(w.last())) =~= words(a).push(w));
    }
}

/// The words of a line `    op  x, y, z`.
proof fn lemma_words_line(op: Seq<char>, pad: Seq<char>, x: Seq<char>, y: Seq<char>, z: Seq<char>)
    requires
        op.len() > 0 && x.len() > 0 && y.len() > 0 && z.len() > 0,
        pad.len() > 0,
        forall|k: int| 0 <= k < pad.len() ==> is_ws(#[trigger] pad[k]),
        forall|k: int| 0 <= k < op.len() ==> !is_ws(#[trigger] op[k]),
        forall|k: int| 0 <= k < x.len() ==> !is_ws(#[trigger] x[k]),
        forall|k: int| 0 <= k < y.len() ==> !is_ws(#[trigger] y[k]),
        forall|k: int| 0 <= k < z.len() ==> !is_ws(#[trigger] z[k]),
    ensures
        words(seq![' ', ' ', ' ', ' '] + op + pad + x.push(',') + seq![' '] + y.push(',') + seq![' '] + z) == seq![
            op,
            x.push(','),
            y.push(','),
            z,
        ],
{
    let sp4 = seq![' ', ' ', ' ', ' '];
    let sp2 = pad;
    let sp1 = seq![' '];
    assert(is_ws(' '));
    assert(!is_ws(','));
    assert forall|k: int| 0 <= k < x.push(',').len() implies !is_ws(#[trigger] x.push(',')[k]) by {
        if k < x.len() {
            assert(x.push(',')[k] == x[k]);
        }
    }
    assert forall|k: int| 0 <= k < y.push(',').len() implies !is_ws(#[trigger] y.push(',')[k]) by {
        if k < y.len() {
            assert(y.push(',')[k] == y[k]);
        }
    }
    lemma_words_ws(Seq::empty(), sp4);
    assert(Seq::<char>::empty() + sp4 =~= sp4);
    assert(words(Seq::<char>::empty()) =~= Seq::<Seq<char>>::empty());
    let a1 = sp4 + op;
    lemma_words_word(sp4, op);
    let a2 = a1 + sp2;
    lemma_words_ws(a1, sp2);
    let a3 = a2 + x.push(',');
    lemma_words_word(a2, x.push(','));
    let a4 = a3 + sp1;
    lemma_words_ws(a3, sp1);
    let a5 = a4 + y.push(',');
    lemma_words_word(a4, y.push(','));
    let a6 = a5 + sp1;
    lemma_words_ws(a5, sp1);
    let a7 = a6 + z;
    lemma_words_word(a6, z);
    assert(words(a7) =~= seq![op, x.push(','), y.push(','), z]);
}

proof fn lemma_reg_text(s: Seq<char>, c: char)
    requires
        s == seq!['t', c],
        c == '0' || c == '1',
    ensures
        reg_of(s) == Some(if c == '0' { Reg::t0 } else { Reg::t1 }),
        strip_end(s.push(','), ',') == s,
        forall|k: int| 0 <= k < s.len() ==> !is_ws(#[trigger] s[k]),
{
    reveal_strlit("sp");
    reveal_strlit("fp");
    reveal_strlit("ra");
    reveal_strlit("t0");
    reveal_strlit("t1");
    assert(s.push(',').drop_last() =~= s);
    assert(s.last() != ',');
    assert(strip_end(s, ',') == s);
    assert(s.push(',').last() == ',');
    if c == '0' {
        assert(s =~= "t0"@);
    } else {
        assert(s != "t0"@);
        assert(s =~= "t1"@);
    }
}

/// The decoding of a three-register line `    op<pad>t<x>, t<y>, t<z>`.
proof fn lemma_op_line(op: Seq<char>, pad: Seq<char>, x: char, y: char, z: char, line: Seq<char>)
    requires
        op == "slt"@ || op == "add"@ || op == "sub"@ || op == "and"@ || op == "or"@,
        pad.len() > 0,
        forall|k: int| 0 <= k < pad.len() ==> is_ws(#[trigger] pad[k]),
        x == '0' || x == '1',
        y == '0' || y == '1',
        z == '0' || z == '1',
        line == seq![' ', ' ', ' ', ' '] + op + pad + seq!['t', x].push(',') + seq![' '] + seq!['t', y].push(',')
            + seq![' '] + seq!['t', z],
    ensures
        ({
            let rx = if x == '0' { Reg::t0 } else { Reg::t1 };
            let ry = if y == '0' { Reg::t0 } else { Reg::t1 };
            let rz = if z == '0' { Reg::t0 } else { Reg::t1 };
            decode(line, Seq::empty()) == Ok::<Option<SInstr>, SError>(
                Some(
                    if op == "slt"@ {
                        SInstr::Slt(rx, ry, rz)
                    } else if op == "add"@ {
                        SInstr::Add(rx, ry, rz)
                    } else if op == "sub"@ {
                        SInstr::Sub(rx, ry, rz)
                    } else if op == "and"@ {
                        SInstr::And(rx, ry, rz)
                    } else {
                        SInstr::Or(rx, ry, rz)
                    },
                ),
            )
        }),
{
    reveal_strlit("slt");
    reveal_strlit("addi");
    reveal_strlit("add");
    reveal_strlit("sub");
    reveal_strlit("and");
    reveal_strlit("or");
    assert forall|k: int| 0 <= k < op.len() implies !is_ws(#[trigger] op[k]) by {}
    lemma_reg_text(seq!['t', x], x);
    lemma_reg_text(seq!['t', y], y);
    lemma_reg_text(seq!['t', z], z);
    lemma_words_line(op, pad, seq!['t', x], seq!['t', y], seq!['t', z]);
    assert(line.last() == z);
    assert("addi"@.len() == 4 && "add"@.len() == 3 && "sub"@.len() == 3 && "and"@.len() == 3 && "or"@.len() == 2
        && "slt"@.len() == 3);
    assert("add"@[0] != "sub"@[0] && "add"@[1] != "and"@[1] && "add"@[0] != "slt"@[0]);
    assert("sub"@[0] != "and"@[0] && "sub"@[1] != "slt"@[1] && "and"@[0] != "slt"@[0]);
}

/// The line that the generator emits for `<` and for `>`, with the left
/// operand in `t0` and the right one in `t1`, assembles to a `slt` that
/// leaves 1 in `t0` exactly when left < right, and left > right.
pub proof fn law_comparison_code(a: int, b: int)
    ensures
        decode(binop_line(BinOp::Lt), Seq::empty()) matches Ok(Some(i)) && slt_into_t0(i, a, b) == Some(a < b),
        decode(binop_line(BinOp::Gt), Seq::empty()) matches Ok(Some(i)) && slt_into_t0(i, a, b) == Some(a > b),
{
    reveal_strlit("    slt  t0, t0, t1");
    reveal_strlit("    slt  t0, t1, t0");
    reveal_strlit("slt");
    let pre = seq![' ', ' ', ' ', ' '] + "slt"@ + seq![' ', ' '];
    let lt = pre + seq!['t', '0'].push(',') + seq![' '] + seq!['t', '0'].push(',') + seq![' '] + seq!['t', '1'];
    let gt = pre + seq!['t', '0'].push(',') + seq![' '] + seq!['t', '1'].push(',') + seq![' '] + seq!['t', '0'];
    assert(binop_line(BinOp::Lt) =~= lt);
    assert(binop_line(BinOp::Gt) =~= gt);
    assert(is_ws(' '));
    lemma_op_line("slt"@, seq![' ', ' '], '0', '0', '1', lt);
    lemma_op_line("slt"@, seq![' ', ' '], '0', '1', '0', gt);
}

/// What an arithmetic or logic instruction puts in `t0` when it writes
/// `t0`, with `t0` holding `v0` and `t1` holding `v1` before: the sum, the
/// difference, or, for the truth values 0 and 1, their conjunction or
/// disjunction.
pub open spec fn alu_into_t0(i: SInstr, v0: int, v1: int) -> Option<int> {
    match i {
        SInstr::Add(Reg::t0, Reg::t0, Reg::t1) => Some(v0 + v1),
        SInstr::Sub(Reg::t0, Reg::t0, Reg::t1) => Some(v0 - v1),
        SInstr::And(Reg::t0, Reg::t0, Reg::t1) => if (v0 == 0 || v0 == 1) && (v1 == 0 || v1 == 1) {
            Some(if v0 == 1 && v1 == 1 { 1 } else { 0 })
        } else {
            None
        },
        SInstr::Or(Reg::t0, Reg::t0, Reg::t1) => if (v0 == 0 || v0 == 1) && (v1 == 0 || v1 == 1) {
            Some(if v0 == 1 || v1 == 1 { 1 } else { 0 })
        } else {
            None
        },
        _ => None,
    }
}

proof fn lemma_three_reg_code(op: BinOp)
    requires
        op == BinOp::Add || op == BinOp::Sub || op == BinOp::And || op == BinOp::Or,
    ensures
        decode(binop_line(op), Seq::empty()) == Ok::<Option<SInstr>, SError>(
            Some(
                if op == BinOp::Add {
                    SInstr::Add(Reg::t0, Reg::t0, Reg::t1)
                } else if op == BinOp::Sub {
                    SInstr::Sub(Reg::t0, Reg::t0, Reg::t1)
                } else if op == BinOp::And {
                    SInstr::And(Reg::t0, Reg::t0, Reg::t1)
                } else {
                    SInstr::Or(Reg::t0, Reg::t0, Reg::t1)
                },
            ),
        ),
{
    assert(is_ws(' '));
    reveal_strlit("slt");
    reveal_strlit("add");
    reveal_strlit("sub");
    reveal_strlit("and");
    reveal_strlit("or");
    assert("add"@[0] != "slt"@[0] && "sub"@[1] != "slt"@[1] && "and"@[0] != "slt"@[0] && "or"@.len() != "slt"@.len());
    assert("sub"@[0] != "add"@[0] && "and"@[1] != "add"@[1] && "or"@.len() != "add"@.len());
    assert("and"@[0] != "sub"@[0] && "or"@.len() != "sub"@.len() && "or"@.len() != "and"@.len());
    let sp4 = seq![' ', ' ', ' ', ' '];
    if op == BinOp::Add {
        reveal_strlit("    add  t0, t0, t1");
        reveal_strlit("add");
        let l = sp4 + "add"@ + seq![' ', ' '] + seq!['t', '0'].push(',') + seq![' '] + seq!['t', '0'].push(',') + seq![
            ' ',
        ] + seq!['t', '1'];
        assert(binop_line(op) =~= l);
        lemma_op_line("add"@, seq![' ', ' '], '0', '0', '1', l);
    } else if op == BinOp::Sub {
        reveal_strlit("    sub  t0, t0, t1");
        reveal_strlit("sub");
        let l = sp4 + "sub"@ + seq![' ', ' '] + seq!['t', '0'].push(',') + seq![' '] + seq!['t', '0'].push(',') + seq![
            ' ',
        ] + seq!['t', '1'];
        assert(binop_line(op) =~= l);
        lemma_op_line("sub"@, seq![' ', ' '], '0', '0', '1', l);
    } else if op == BinOp::And {
        reveal_strlit("    and  t0, t0, t1");
        reveal_strlit("and");
        let l = sp4 + "and"@ + seq![' ', ' '] + seq!['t', '0'].push(',') + seq![' '] + seq!['t', '0'].push(',') + seq![
            ' ',
        ] + seq!['t', '1'];
        assert(binop_line(op) =~= l);
        lemma_op_line("and"@, seq![' ', ' '], '0', '0', '1', l);
    } else {
        reveal_strlit("    or   t0, t0, t1");
        reveal_strlit("or");
        let l = sp4 + "or"@ + seq![' ', ' ', ' '] + seq!['t', '0'].push(',') + seq![' '] + seq!['t', '0'].push(',')
            + seq![' '] + seq!['t', '1'];
        assert(binop_line(op) =~= l);
        lemma_op_line("or"@, seq![' ', ' ', ' '], '0', '0', '1', l);
    }
}

/// The line that the generator emits for `+`, `-`, `&&` and `||`, with
/// the left operand in `t0` and the right one in `t1`, assembles to the
/// instruction that leaves in `t0` left + right, left - right, and for
/// truth values (0 or 1) left and right, left or right.
pub proof fn law_arith_code(a: int, b: int, p: bool, q: bool)
    ensures
        decode(binop_line(BinOp::Add), Seq::empty()) matches Ok(Some(i)) && alu_into_t0(i, a, b) == Some(a + b),
        decode(binop_line(BinOp::Sub), Seq::empty()) matches Ok(Some(i)) && alu_into_t0(i, a, b) == Some(a - b),
        decode(binop_line(BinOp::And), Seq::empty()) matches Ok(Some(i)) && alu_into_t0(
            i,
            if p { 1int } else { 0int },
            if q { 1int } else { 0int },
        ) == Some(if p && q { 1int } else { 0int }),
        decode(binop_line(BinOp::Or), Seq::empty()) matches Ok(Some(i)) && alu_into_t0(
            i,
            if p { 1int } else { 0int },
            if q { 1int } else { 0int },
        ) == Some(if p || q { 1int } else { 0int }),
{
    lemma_three_reg_code(BinOp::Add);
    lemma_three_reg_code(BinOp::Sub);
    lemma_three_reg_code(BinOp::And);
    lemma_three_reg_code(BinOp::Or);
}

// ---------------------------------------------------------------------
// Calls bind parameters by position.
// ---------------------------------------------------------------------

proof fn lemma_bind_len(env: Seq<Scope>, ps: Seq<SParam>, args: Seq<SVal>, n: int)
    ensures
        bind_params(env, ps, args, n).len() == env.len(),
    decreases n,
{
    if n > 0 {
        lemma_bind_len(env, ps, args, n - 1);
    }
}

/// Binding the parameters of a call in a new scope: when the parameters
/// have distinct names, the `i`-th is bound to the `i`-th argument
/// (wrapped as mutable for a `mut` parameter).
pub proof fn law_params_by_position(env: Seq<Scope>, ps: Seq<SParam>, args: Seq<SVal>, n: int, i: int)
    requires
        0 <= i < n <= ps.len(),
        n <= args.len(),
        forall|j: int, k: int| 0 <= j < k < ps.len() ==> ps[j].id != ps[k].id,
    ensures
        env_lookup(bind_params(env.push(Scope::empty()), ps, args, n), ps[i].id) == Some(
            if ps[i].mutable {
                SVal::Mut(Box::new(args[i]))
            } else {
                args[i]
            },
        ),
    decreases n,
{
    let e0 = env.push(Scope::empty());
    lemma_bind_len(e0, ps, args, n - 1);
    let e = bind_params(e0, ps, args, n - 1);
    let v = crate::vm::param_value(ps[n - 1], args[n - 1]);
    if i == n - 1 {
        law_lookup_after_insert(e, ps[n - 1].id, v);
    } else {
        law_params_by_position(env, ps, args, n - 1, i);
        law_insert_other_name(e, ps[n - 1].id, v, ps[i].id);
    }
}

/// A call runs the body of the function in a new innermost scope in which
/// each parameter (of distinct names) is bound to the argument at its
/// position, and leaves that scope afterwards.
pub proof fn law_call_binds_by_position(f: nat, st: VmState, decl: SFn, args: Seq<SVal>)
    requires
        decl.params.len() == args.len(),
        forall|j: int, k: int| 0 <= j < k < decl.params.len() ==> decl.params[j].id != decl.params[k].id,
    ensures
        ({
            let e1 = bind_params(st.env.push(Scope::empty()), decl.params, args, args.len() as int);
            &&& e1.len() == st.env.len() + 1
            &&& forall|i: int|
                0 <= i < args.len() ==> #[trigger] env_lookup(e1, decl.params[i].id) == Some(
                    if decl.params[i].mutable {
                        SVal::Mut(Box::new(args[i]))
                    } else {
                        args[i]
                    },
                )
            &&& sem_call(f, st, decl, args) == ({
                let (s2, r) = sem_block(f, with_env(st, e1), decl.body);
                match pop_env(s2.env) {
                    None => (s2, Err(SError::PopGlobalScope)),
                    Some(e) => (with_env(s2, e), r),
                }
            })
        }),
{
    let n = args.len() as int;
    let e1 = bind_params(st.env.push(Scope::empty()), decl.params, args, n);
    lemma_bind_len(st.env.push(Scope::empty()), decl.params, args, n);
    assert forall|i: int| 0 <= i < args.len() implies #[trigger] env_lookup(e1, decl.params[i].id) == Some(
        if decl.params[i].mutable {
            SVal::Mut(Box::new(args[i]))
        } else {
            args[i]
        },
    ) by {
        law_params_by_position(st.env, decl.params, args, n, i);
    }
}

// ---------------------------------------------------------------------
// Operator precedence.
// ---------------------------------------------------------------------

/// How tightly the operators bind: `* /` tighter than `+ -`, which bind
/// tighter than the comparisons `== < >`, which bind tighter than `&&`,
/// which binds tighter than `||`.
pub proof fn law_operator_precedence()
    ensures
        BinOp::Mul.spec_priority() == BinOp::Div.spec_priority(),
        BinOp::Div.spec_priority() > BinOp::Add.spec_priority(),
        BinOp::Add.spec_priority() == BinOp::Sub.spec_priority(),
        BinOp::Sub.spec_priority() > BinOp::Lt.spec_priority(),
        BinOp::Lt.spec_priority() == BinOp::Gt.spec_priority(),
        BinOp::Gt.spec_priority() == BinOp::Eq.spec_priority(),
        BinOp::Eq.spec_priority() > BinOp::And.spec_priority(),
        BinOp::And.spec_priority() > BinOp::Or.spec_priority(),
        BinOp::Or.spec_priority() > 0,
{
}

proof fn lemma_name_operand(t: Seq<SToken>, p: int, x: Seq<char>)
    requires
        0 <= p < t.len(),
        t[p] == SToken::Ident(x),
        is_name(x),
        p + 1 == t.len() || binop_at(t, p + 1) is Some,
    ensures
        g_operand(t, p) == Some((SExpr::Ident(x), p + 1)),
{
    reveal_strlit("if");
    reveal_strlit("true");
    reveal_strlit("false");
    reveal_strlit("mut");
    assert(is_keyword("if"@) && is_keyword("true"@) && is_keyword("false"@));
    assert(!kw_is(t, p, "if"@));
    assert(lit_at(t, p) is None);
    assert(ident_at(t, p) == Some(x));
    assert(!sym_is(t, p + 1, Sym::Bang));
    assert(!sym_is(t, p + 1, Sym::LParen));
}

proof fn lemma_binop_tok_at(t: Seq<SToken>, p: int, o: BinOp)
    requires
        0 <= p < t.len(),
        t[p] == binop_tok(o),
    ensures
        binop_at(t, p) == Some(o),
{
}

/// Parsing `x o1 y o2 z` for names `x`, `y`, `z`: the operator that binds
/// more tightly takes its operands first, and of two that bind alike the
/// left one does (operators group to the left). So `x + y < z` reads as
/// `(x + y) < z`, and `x < y + z` as `x < (y + z)`.
pub proof fn law_parse_two_operators(x: Seq<char>, y: Seq<char>, z: Seq<char>, o1: BinOp, o2: BinOp)
    requires
        is_name(x),
        is_name(y),
        is_name(z),
    ensures
        ({
            let t = seq![SToken::Ident(x), binop_tok(o1), SToken::Ident(y), binop_tok(o2), SToken::Ident(z)];
            let vx = SExpr::Ident(x);
            let vy = SExpr::Ident(y);
            let vz = SExpr::Ident(z);
            g_expr(t, 0) == Some((
                if o2.spec_priority() <= o1.spec_priority() {
                    SExpr::BinOp(o2, Box::new(SExpr::BinOp(o1, Box::new(vx), Box::new(vy))), Box::new(vz))
                } else {
                    SExpr::BinOp(o1, Box::new(vx), Box::new(SExpr::BinOp(o2, Box::new(vy), Box::new(vz))))
                },
                5int,
            ))
        }),
{
    let t = seq![SToken::Ident(x), binop_tok(o1), SToken::Ident(y), binop_tok(o2), SToken::Ident(z)];
    let vx = SExpr::Ident(x);
    let vy = SExpr::Ident(y);
    let vz = SExpr::Ident(z);
    let p1 = o1.spec_priority();
    let p2 = o2.spec_priority();
    law_operator_precedence();
    assert(p1 > 0 && p2 > 0);
    lemma_binop_tok_at(t, 1, o1);
    lemma_binop_tok_at(t, 3, o2);
    assert(binop_at(t, 5) is None);
    lemma_name_operand(t, 0, x);
    lemma_name_operand(t, 2, y);
    lemma_name_operand(t, 4, z);
    assert(g_bin(t, vz, p2, 5) == Some((vz, 5int)));
    if p2 <= p1 {
        assert(g_bin(t, vy, p1, 3) == Some((vy, 3int)));
        let l2 = SExpr::BinOp(o1, Box::new(vx), Box::new(vy));
        let l3 = SExpr::BinOp(o2, Box::new(l2), Box::new(vz));
        assert(g_bin(t, l3, 0, 5) == Some((l3, 5int)));
        assert(g_bin(t, l2, 0, 3) == Some((l3, 5int)));
        assert(g_bin(t, vx, 0, 1) == Some((l3, 5int)));
    } else {
        let r2 = SExpr::BinOp(o2, Box::new(vy), Box::new(vz));
        assert(g_bin(t, r2, p1, 5) == Some((r2, 5int)));
        assert(g_bin(t, vy, p1, 3) == Some((r2, 5int)));
        let l3 = SExpr::BinOp(o1, Box::new(vx), Box::new(r2));
        assert(g_bin(t, l3, 0, 5) == Some((l3, 5int)));
        assert(g_bin(t, vx, 0, 1) == Some((l3, 5int)));
    }
}

} // verus!
