use crate::ast::{BinOp, Expr, SBlock, SExpr, SFn, SLit, SParam, SStmt, UnOp};
use crate::grammar::{
    binop_at, g_args, g_bin, g_block, g_expr, g_fn, g_if, g_operand, g_param, g_param_list, g_params, g_stmt,
    g_stmts, ident_at, kw_is, lit_at, sym_is, unop_at, whole,
};
use crate::lex::{ident_end, is_ident_char, is_ident_start, lex_from, lex_spec, lemma_ident_end, SToken, Sym};
use crate::parse::{spec_parse, Parse};
use crate::round_trip::{
    block_form, call_name, expr_form, expr_prio, exprs_form, fn_form, is_name, law_expr_round_trip, lit_form,
    nonneg_int_lit, stmt_form, stmts_form,
};
use crate::display::expr_text;
use vstd::prelude::*;

verus! {

// ---------------------------------------------------------------------
// What the parser builds has the shapes that print and read back.
// ---------------------------------------------------------------------

/// Every identifier token has the shape of an identifier.
#[verifier::opaque]
pub open spec fn idents_ok(t: Seq<SToken>) -> bool {
    forall|k: int|
        0 <= k < t.len() && #[trigger] t[k] is Ident ==> {
            let x = t[k]->Ident_0;
            &&& x.len() > 0
            &&& is_ident_start(x[0])
            &&& forall|j: int| 0 <= j < x.len() ==> is_ident_char(#[trigger] x[j])
        }
}

/// No string token holds a quote or a backslash (which print without
/// escapes).
#[verifier::opaque]
pub open spec fn strs_plain(t: Seq<SToken>) -> bool {
    forall|k: int|
        0 <= k < t.len() && #[trigger] t[k] is Str ==> forall|j: int|
            0 <= j < t[k]->Str_0.len() ==> #[trigger] t[k]->Str_0[j] != '"' && t[k]->Str_0[j] != '\\'
}

/// No `-` is followed by `-0`: a negation of the literal `-0`, which
/// prints as `-0` and reads back as the literal 0.
#[verifier::opaque]
pub open spec fn no_neg_neg_zero(t: Seq<SToken>) -> bool {
    forall|k: int|
        0 <= k && k + 2 < t.len() && #[trigger] t[k] == SToken::Sym(Sym::Minus) && t[k + 1] == SToken::Sym(Sym::Minus)
            ==> t[k + 2] != SToken::Int(0)
}

pub open spec fn toks_ok(t: Seq<SToken>) -> bool {
    idents_ok(t) && strs_plain(t) && no_neg_neg_zero(t)
}

proof fn lemma_push_tok(acc: Seq<SToken>, tok: SToken)
    requires
        idents_ok(acc),
        tok is Ident ==> {
            let x = tok->Ident_0;
            &&& x.len() > 0
            &&& is_ident_start(x[0])
            &&& forall|j: int| 0 <= j < x.len() ==> is_ident_char(#[trigger] x[j])
        },
    ensures
        idents_ok(acc.push(tok)),
{
    reveal(idents_ok);
    let a2 = acc.push(tok);
    assert forall|k: int| 0 <= k < a2.len() && #[trigger] a2[k] is Ident implies {
        let y = a2[k]->Ident_0;
        &&& y.len() > 0
        &&& is_ident_start(y[0])
        &&& forall|m: int| 0 <= m < y.len() ==> is_ident_char(#[trigger] y[m])
    } by {
        if k < acc.len() {
            assert(a2[k] == acc[k]);
        }
    }
}

/// The lexer makes identifier tokens of identifier text only.
pub proof fn lemma_lex_idents(s: Seq<char>, i: int, acc: Seq<SToken>)
    requires
        idents_ok(acc),
    ensures
        lex_from(s, i, acc) matches Some(r) ==> idents_ok(r),
    decreases s.len() - i,
{
    if !(i < 0 || i >= s.len()) {
        if crate::lex::is_space(s[i]) {
            lemma_lex_idents(s, i + 1, acc);
        } else if s[i] == '/' && i + 1 < s.len() && s[i + 1] == '/' {
            crate::lex::lemma_line_end(s, i + 2);
            lemma_lex_idents(s, crate::lex::line_end(s, i + 2), acc);
        } else if s[i] == '/' && i + 1 < s.len() && s[i + 1] == '*' {
            crate::lex::lemma_comment_end(s, i + 2, 1);
            if let Some(j) = crate::lex::comment_end(s, i + 2, 1) {
                lemma_lex_idents(s, j, acc);
            }
        } else if is_ident_start(s[i]) {
            lemma_ident_end(s, i + 1);
            let j = ident_end(s, i + 1);
            let x = s.subrange(i, j);
            assert(x[0] == s[i]);
            assert forall|m: int| 0 <= m < x.len() implies is_ident_char(#[trigger] x[m]) by {
                assert(x[m] == s[i + m]);
            }
            lemma_push_tok(acc, SToken::Ident(x));
            lemma_lex_idents(s, j, acc.push(SToken::Ident(x)));
        } else if s[i] == '0' && i + 1 < s.len() && s[i + 1] == 'x' {
            if i + 2 < s.len() && crate::lex::is_hex_digit(s[i + 2]) {
                crate::lex::lemma_hex_number(s, i + 2, 0);
                if let Some((v, j)) = crate::lex::hex_number(s, i + 2, 0) {
                    lemma_push_tok(acc, SToken::Int(v as u32));
                    lemma_lex_idents(s, j, acc.push(SToken::Int(v as u32)));
                }
            }
        } else if crate::lex::is_digit(s[i]) {
            crate::lex::lemma_number(s, i, 0);
            if let Some((v, j)) = crate::lex::number(s, i, 0) {
                lemma_push_tok(acc, SToken::Int(v as u32));
                lemma_lex_idents(s, j, acc.push(SToken::Int(v as u32)));
            }
        } else if s[i] == '"' {
            crate::lex::lemma_string_body(s, i + 1, Seq::empty());
            if let Some((b, j)) = crate::lex::string_body(s, i + 1, Seq::empty()) {
                lemma_push_tok(acc, SToken::Str(b));
                lemma_lex_idents(s, j, acc.push(SToken::Str(b)));
            }
        } else {
            if let Some((y, j)) = crate::lex::sym_at(s, i) {
                lemma_push_tok(acc, SToken::Sym(y));
                lemma_lex_idents(s, j, acc.push(SToken::Sym(y)));
            }
        }
    }
}

proof fn lemma_ident_name(t: Seq<SToken>, p: int)
    requires
        idents_ok(t),
    ensures
        ident_at(t, p) matches Some(id) ==> is_name(id),
{
    reveal(idents_ok);
    if 0 <= p < t.len() && t[p] is Ident {
        assert(t[p] is Ident);
    }
}

proof fn lemma_lit_form(t: Seq<SToken>, p: int)
    requires
        strs_plain(t),
    ensures
        lit_at(t, p) matches Some((l, _)) ==> lit_form(l),
{
    reveal(strs_plain);
    if 0 <= p < t.len() && t[p] is Str {
        assert(t[p] is Str);
    }
}

#[verifier::spinoff_prover]
#[verifier::rlimit(100)]
proof fn lemma_operand_form(t: Seq<SToken>, p: int)
    requires
        toks_ok(t),
    ensures
        g_operand(t, p) matches Some((e, _)) ==> expr_form(e) && !(e is BinOp),
        g_operand(t, p) matches Some((e, q)) ==> (e matches SExpr::Lit(SLit::Int(n)) ==> lit_at(t, p) == Some(
            (SLit::Int(n), q),
        )),
    decreases t.len() - p, 1int,
{
    if !(0 <= p < t.len()) {
    } else if kw_is(t, p, "if"@) {
        lemma_if_form(t, p + 1);
    } else if sym_is(t, p, Sym::LBrace) {
        lemma_block_form(t, p);
    } else if sym_is(t, p, Sym::Amp) || sym_is(t, p, Sym::AndAnd) {
        let m = kw_is(t, p + 1, "mut"@);
        lemma_operand_form(t, if m { p + 2 } else { p + 1 });
        if let Some((i, q)) = g_operand(t, if m { p + 2 } else { p + 1 }) {
            let r = SExpr::Ref(Box::new(i), m);
            assert(expr_form(r));
            assert(expr_form(SExpr::Ref(Box::new(r), false)));
        }
    } else if lit_at(t, p) is Some {
        lemma_lit_form(t, p);
    } else if sym_is(t, p, Sym::LParen) {
        if !sym_is(t, p + 1, Sym::RParen) {
            lemma_expr_form(t, p + 1);
        } else {
            assert(expr_form(SExpr::Lit(SLit::Unit)));
        }
    } else if ident_at(t, p) is Some {
        lemma_name_operand_form(t, p);
    } else if unop_at(t, p) is Some {
        lemma_unop_operand_form(t, p);
    }
}

#[verifier::spinoff_prover]
#[verifier::rlimit(100)]
proof fn lemma_name_operand_form(t: Seq<SToken>, p: int)
    requires
        toks_ok(t),
        0 <= p < t.len(),
        ident_at(t, p) is Some,
        !kw_is(t, p, "if"@),
        !sym_is(t, p, Sym::LBrace),
        !sym_is(t, p, Sym::Amp),
        !sym_is(t, p, Sym::AndAnd),
        lit_at(t, p) is None,
        !sym_is(t, p, Sym::LParen),
    ensures
        g_operand(t, p) matches Some((e, _)) ==> expr_form(e) && !(e is BinOp) && !(e is Lit),
    decreases t.len() - p, 0int,
{
    lemma_ident_name(t, p);
    let id = t[p]->Ident_0;
    if sym_is(t, p + 1, Sym::Bang) {
        if sym_is(t, p + 2, Sym::LParen) {
            lemma_args_form(t, p + 3, Seq::empty());
            reveal_strlit("!");
            assert((id + "!"@).drop_last() =~= id);
            assert((id + "!"@).last() == '!');
            assert(call_name(id + "!"@));
        }
    } else if sym_is(t, p + 1, Sym::LParen) {
        lemma_args_form(t, p + 2, Seq::empty());
    }
}

#[verifier::spinoff_prover]
proof fn lemma_unop_operand_form(t: Seq<SToken>, p: int)
    requires
        toks_ok(t),
        0 <= p < t.len(),
        unop_at(t, p) is Some,
        !kw_is(t, p, "if"@),
        !sym_is(t, p, Sym::LBrace),
        !sym_is(t, p, Sym::Amp),
        !sym_is(t, p, Sym::AndAnd),
        lit_at(t, p) is None,
        !sym_is(t, p, Sym::LParen),
        ident_at(t, p) is None,
    ensures
        g_operand(t, p) matches Some((e, _)) ==> expr_form(e) && !(e is BinOp) && !(e is Lit),
    decreases t.len() - p, 0int,
{
    lemma_operand_form(t, p + 1);
    if let Some((e, q)) = g_operand(t, p + 1) {
        if let SExpr::Lit(SLit::Int(n)) = e {
            if unop_at(t, p)->0 == UnOp::Neg && n >= 0 {
                assert(lit_at(t, p + 1) == Some((SLit::Int(n), q)));
                assert(t[p] == SToken::Sym(Sym::Minus));
                if t[p + 1] is Int {
                    assert(lit_at(t, p) is Some);
                } else {
                    assert(t[p + 1] == SToken::Sym(Sym::Minus));
                    reveal(no_neg_neg_zero);
                    assert(t[p + 2] != SToken::Int(0));
                    assert(false);
                }
            }
        }
        assert(!nonneg_int_lit(e) || unop_at(t, p)->0 != UnOp::Neg);
    }
}

proof fn lemma_expr_form(t: Seq<SToken>, p: int)
    requires
        toks_ok(t),
    ensures
        g_expr(t, p) matches Some((e, _)) ==> expr_form(e),
    decreases t.len() - p, 3int,
{
    if 0 <= p <= t.len() {
        lemma_operand_form(t, p);
        if let Some((l, q)) = g_operand(t, p) {
            if !(q <= p || q > t.len()) {
                lemma_bin_form(t, l, 0, q);
            }
        }
    }
}

proof fn lemma_bin_form(t: Seq<SToken>, lhs: SExpr, min: u8, p: int)
    requires
        toks_ok(t),
        expr_form(lhs),
        binop_at(t, p) matches Some(o) ==> (o.spec_priority() > min ==> o.spec_priority() <= expr_prio(lhs)),
    ensures
        g_bin(t, lhs, min, p) matches Some((e, q)) ==> {
            &&& expr_form(e)
            &&& expr_prio(lhs) > min ==> expr_prio(e) > min
            &&& binop_at(t, q) matches Some(o) ==> o.spec_priority() <= min
        },
    decreases t.len() - p, 2int,
{
    if 0 <= p <= t.len() {
        if let Some(op) = binop_at(t, p) {
            if op.spec_priority() > min {
                lemma_operand_form(t, p + 1);
                if let Some((r, q)) = g_operand(t, p + 1) {
                    if !(q <= p || q > t.len()) {
                        lemma_bin_form(t, r, op.spec_priority(), q);
                        if let Some((r2, q2)) = g_bin(t, r, op.spec_priority(), q) {
                            if !(q2 < q || q2 > t.len()) {
                                let l2 = SExpr::BinOp(op, Box::new(lhs), Box::new(r2));
                                assert(expr_form(l2));
                                lemma_bin_form(t, l2, min, q2);
                            }
                        }
                    }
                }
            }
        }
    }
}

proof fn lemma_args_form(t: Seq<SToken>, p: int, acc: Seq<SExpr>)
    requires
        toks_ok(t),
        exprs_form(acc),
    ensures
        g_args(t, p, acc) matches Some((es, _)) ==> exprs_form(es),
    decreases t.len() - p, 4int,
{
    if 0 <= p < t.len() && !sym_is(t, p, Sym::RParen) {
        lemma_expr_form(t, p);
        if let Some((e, q)) = g_expr(t, p) {
            assert(acc.push(e).drop_last() =~= acc);
            if sym_is(t, q, Sym::Comma) && p <= q && !sym_is(t, q, Sym::RParen) {
                lemma_args_form(t, q + 1, acc.push(e));
            }
        }
    }
}

#[verifier::spinoff_prover]
#[verifier::rlimit(40)]
proof fn lemma_if_form(t: Seq<SToken>, p: int)
    requires
        toks_ok(t),
    ensures
        g_if(t, p) matches Some((e, _)) ==> expr_form(e),
    decreases t.len() - p, 4int,
{
    if 0 <= p <= t.len() {
        lemma_expr_form(t, p);
        if let Some((c, q)) = g_expr(t, p) {
            if !(q < p || q > t.len()) {
                lemma_block_form(t, q);
                if let Some((tb, r)) = g_block(t, q) {
                    if !(r < q || r > t.len()) && kw_is(t, r, "else"@) {
                        if kw_is(t, r + 1, "if"@) {
                            lemma_if_form(t, r + 2);
                            if let Some((ne, _)) = g_if(t, r + 2) {
                                lemma_single_block(ne);
                            }
                        } else {
                            lemma_block_form(t, r + 1);
                        }
                    }
                }
            }
        }
    }
}

proof fn lemma_single_block(ne: SExpr)
    requires
        expr_form(ne),
    ensures
        block_form(SBlock { stmts: seq![SStmt::Expr(ne)], semi: false }),
{
    let ss = seq![SStmt::Expr(ne)];
    assert(ss.drop_last() =~= Seq::<SStmt>::empty());
    assert(stmts_form(Seq::<SStmt>::empty()));
    assert(ss.last() == SStmt::Expr(ne));
    assert(stmt_form(SStmt::Expr(ne)));
    assert(stmts_form(ss));
}

proof fn lemma_block_form(t: Seq<SToken>, p: int)
    requires
        toks_ok(t),
    ensures
        g_block(t, p) matches Some((b, _)) ==> block_form(b),
    decreases t.len() - p, 0int,
{
    if sym_is(t, p, Sym::LBrace) {
        lemma_stmts_form(t, p + 1, Seq::empty(), false);
    }
}

proof fn lemma_stmts_form(t: Seq<SToken>, p: int, acc: Seq<SStmt>, semi: bool)
    requires
        toks_ok(t),
        stmts_form(acc),
        semi ==> acc.len() > 0,
        acc.len() > 0 && !semi ==> !(acc.last() is Let),
    ensures
        g_stmts(t, p, acc, semi) matches Some((b, _)) ==> block_form(b),
    decreases t.len() - p, 6int,
{
    if 0 <= p < t.len() && !sym_is(t, p, Sym::RBrace) {
        lemma_stmt_form(t, p);
        if let Some((s, q)) = g_stmt(t, p) {
            let a2 = acc.push(s);
            assert(a2.drop_last() =~= acc);
            assert(a2.last() == s);
            if !(q <= p || q > t.len()) {
                if sym_is(t, q, Sym::Semi) {
                    lemma_stmts_form(t, q + 1, a2, true);
                } else if s is Fn || s is While {
                    lemma_stmts_form(t, q, a2, false);
                } else if !(s is Let) && sym_is(t, q, Sym::RBrace) {
                    lemma_stmts_form(t, q, a2, false);
                }
            }
        }
    }
}

proof fn lemma_stmt_form(t: Seq<SToken>, p: int)
    requires
        toks_ok(t),
    ensures
        g_stmt(t, p) matches Some((s, _)) ==> stmt_form(s),
    decreases t.len() - p, 5int,
{
    if !(0 <= p < t.len()) {
    } else if kw_is(t, p, "fn"@) {
        lemma_fn_form(t, p);
    } else if kw_is(t, p, "let"@) {
        let m = kw_is(t, p + 1, "mut"@);
        let p1 = if m { p + 2 } else { p + 1 };
        lemma_ident_name(t, p1);
        if let Some(id) = ident_at(t, p1) {
            if let Some((ty, p3)) = crate::grammar::g_opt_annot(t, p1 + 1, Sym::Colon) {
                if !(p3 < p || p3 > t.len()) && sym_is(t, p3, Sym::Assign) {
                    lemma_expr_form(t, p3 + 1);
                }
            }
        }
    } else if kw_is(t, p, "while"@) {
        lemma_expr_form(t, p + 1);
        if let Some((c, q)) = g_expr(t, p + 1) {
            if !(q < p || q > t.len()) {
                lemma_block_form(t, q);
            }
        }
    } else {
        lemma_expr_form(t, p);
        if let Some((e, q)) = g_expr(t, p) {
            if !(q < p || q > t.len()) && sym_is(t, q, Sym::Assign) {
                lemma_expr_form(t, q + 1);
            }
        }
    }
}

proof fn lemma_params_form(t: Seq<SToken>, p: int, acc: Seq<SParam>)
    requires
        toks_ok(t),
        forall|k: int| 0 <= k < acc.len() ==> is_name(#[trigger] acc[k].id),
    ensures
        g_params(t, p, acc) matches Some((ps, _)) ==> forall|k: int| 0 <= k < ps.len() ==> is_name(#[trigger] ps[k].id),
    decreases t.len() - p,
{
    if 0 <= p < t.len() && !sym_is(t, p, Sym::RParen) {
        let m = kw_is(t, p, "mut"@);
        let p1 = if m { p + 1 } else { p };
        lemma_ident_name(t, p1);
        if let Some((x, q)) = g_param(t, p) {
            let a2 = acc.push(x);
            assert forall|k: int| 0 <= k < a2.len() implies is_name(#[trigger] a2[k].id) by {
                if k < acc.len() {
                    assert(a2[k] == acc[k]);
                }
            }
            if !(q <= p || q > t.len()) && sym_is(t, q, Sym::Comma) && !sym_is(t, q, Sym::RParen) {
                lemma_params_form(t, q + 1, a2);
            }
        }
    }
}

proof fn lemma_fn_form(t: Seq<SToken>, p: int)
    requires
        toks_ok(t),
    ensures
        g_fn(t, p) matches Some((f, _)) ==> fn_form(f),
    decreases t.len() - p, 4int,
{
    if kw_is(t, p, "fn"@) {
        lemma_ident_name(t, p + 1);
        if sym_is(t, p + 2, Sym::LParen) {
            lemma_params_form(t, p + 3, Seq::empty());
        }
        if let Some((ps, q)) = g_param_list(t, p + 2) {
            if let Some((ty, r)) = crate::grammar::g_opt_annot(t, q, Sym::Arrow) {
                if !(r < p || r > t.len()) {
                    lemma_block_form(t, r);
                }
            }
        }
    }
}

/// Every expression the parser reads is in the shape whose text reads back
/// as itself, so parsing, printing and parsing again gives the same tree.
/// It holds when no string literal of the source holds a quote or a
/// backslash (they print without escapes) and no `-` stands before `-0`
/// (whose negation prints as `-0`, which reads as the literal 0).
pub proof fn law_parsed_expr_round_trip(src: Seq<char>, e: SExpr)
    requires
        spec_parse::<Expr>(src) == Some(e),
        lex_spec(src) is Some,
        strs_plain(lex_spec(src)->0),
        no_neg_neg_zero(lex_spec(src)->0),
    ensures
        expr_form(e),
        spec_parse::<Expr>(expr_text(e)) == Some(e),
{
    let t = lex_spec(src)->0;
    assert(idents_ok(Seq::<SToken>::empty())) by {
        reveal(idents_ok);
    }
    lemma_lex_idents(src, 0, Seq::empty());
    lemma_expr_form(t, 0);
    law_expr_round_trip(e);
}

} // verus!
