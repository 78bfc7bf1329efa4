use crate::ast::{
    block_model, expr_model, exprs_model, fn_model, lemma_exprs_model_push, lemma_stmts_model_push,
    lit_model, param_model, params_model, stmt_model, stmts_model, Arguments, BinOp, Block, Expr,
    FnDeclaration, Literal, Mutable, Parameter, Parameters, Prog, SBlock, SExpr, SFn, SLit, SParam,
    SStmt, Statement, Type, UnOp,
};
use crate::grammar::{
    binop_at, g_args, g_bin, g_block, g_expr, g_fn, g_fns, g_if, g_operand, g_opt_annot, g_param,
    g_arg_list, g_binop, g_param_list, g_params, g_stmt, g_stmts, g_type, g_unop, ident_at,
    is_keyword, kw_is, lit_at, sym_is, unop_at, whole,
};
use crate::lex::{lex, lex_spec, token_model, tokens_model, SToken, Sym, Token};
use crate::vm::fns_model;
use vstd::prelude::*;

verus! {

pub open spec fn o_type(r: Option<(Type, usize)>) -> Option<(Type, int)> {
    match r {
        Some((x, y)) => Some((x, y as int)),
        None => None,
    }
}

pub open spec fn o_expr(r: Option<(Expr, usize)>) -> Option<(SExpr, int)> {
    match r {
        Some((x, y)) => Some((x@, y as int)),
        None => None,
    }
}

pub open spec fn o_block(r: Option<(Block, usize)>) -> Option<(SBlock, int)> {
    match r {
        Some((x, y)) => Some((block_model(x), y as int)),
        None => None,
    }
}

pub open spec fn o_stmt(r: Option<(Statement, usize)>) -> Option<(SStmt, int)> {
    match r {
        Some((x, y)) => Some((stmt_model(x), y as int)),
        None => None,
    }
}

pub open spec fn o_fn(r: Option<(FnDeclaration, usize)>) -> Option<(SFn, int)> {
    match r {
        Some((x, y)) => Some((fn_model(x), y as int)),
        None => None,
    }
}

pub open spec fn o_param(r: Option<(Parameter, usize)>) -> Option<(SParam, int)> {
    match r {
        Some((x, y)) => Some((param_model(x), y as int)),
        None => None,
    }
}

pub open spec fn o_params(r: Option<(Vec<Parameter>, usize)>) -> Option<(Seq<SParam>, int)> {
    match r {
        Some((x, y)) => Some((params_model(x@), y as int)),
        None => None,
    }
}

pub open spec fn o_args(r: Option<(Vec<Expr>, usize)>) -> Option<(Seq<SExpr>, int)> {
    match r {
        Some((x, y)) => Some((exprs_model(x@), y as int)),
        None => None,
    }
}

pub open spec fn o_lit(r: Option<(Literal, usize)>) -> Option<(SLit, int)> {
    match r {
        Some((x, y)) => Some((lit_model(x), y as int)),
        None => None,
    }
}

pub open spec fn o_annot(r: Option<(Option<Type>, usize)>) -> Option<(Option<Type>, int)> {
    match r {
        Some((x, y)) => Some((x, y as int)),
        None => None,
    }
}

/// The position after a successful read lies in `lo..=hi`.
pub open spec fn pos_in<A>(r: Option<(A, usize)>, lo: int, hi: int) -> bool {
    r matches Some((_, y)) ==> lo <= y <= hi
}

fn sym_is_x(t: &Vec<Token>, p: usize, y: Sym) -> (r: bool)
    ensures
        r == sym_is(tokens_model(t@), p as int, y),
        r ==> p < t@.len(),
{
    if p < t.len() {
        match &t[p] {
            Token::Sym(z) => *z == y,
            _ => false,
        }
    } else {
        false
    }
}

fn str_is(s: &String, k: &str) -> (r: bool)
    ensures
        r == (s@ == k@),
{
    let w = String::from_str(k);
    *s == w
}

fn kw_is_x(t: &Vec<Token>, p: usize, k: &str) -> (r: bool)
    ensures
        r == kw_is(tokens_model(t@), p as int, k@),
        r ==> p < t@.len(),
{
    if p < t.len() {
        match &t[p] {
            Token::Ident(s) => str_is(s, k),
            _ => false,
        }
    } else {
        false
    }
}

/// Whether a word is a keyword rather than an identifier.
pub fn is_keyword_x(s: &String) -> (r: bool)
    ensures
        r == is_keyword(s@),
{
    str_is(s, "as") || str_is(s, "break") || str_is(s, "const") || str_is(s, "continue") || str_is(
        s,
        "crate",
    ) || str_is(s, "else") || str_is(s, "enum") || str_is(s, "false") || str_is(s, "fn")
        || str_is(s, "for") || str_is(s, "if") || str_is(s, "impl") || str_is(s, "in") || str_is(
        s,
        "let",
    ) || str_is(s, "loop") || str_is(s, "match") || str_is(s, "mod") || str_is(s, "move")
        || str_is(s, "mut") || str_is(s, "pub") || str_is(s, "ref") || str_is(s, "return")
        || str_is(s, "self") || str_is(s, "Self") || str_is(s, "static") || str_is(s, "struct")
        || str_is(s, "super") || str_is(s, "trait") || str_is(s, "true") || str_is(s, "type")
        || str_is(s, "unsafe") || str_is(s, "use") || str_is(s, "where") || str_is(s, "while")
        || str_is(s, "async") || str_is(s, "await") || str_is(s, "dyn")
}

fn ident_at_x(t: &Vec<Token>, p: usize) -> (r: Option<String>)
    ensures
        match ident_at(tokens_model(t@), p as int) {
            Some(s) => r matches Some(x) && x@ == s,
            None => r is None,
        },
        r is Some ==> p < t@.len(),
{
    if p < t.len() {
        match &t[p] {
            Token::Ident(s) => if is_keyword_x(s) {
                None
            } else {
                Some(s.clone())
            },
            _ => None,
        }
    } else {
        None
    }
}

fn lit_at_x(t: &Vec<Token>, p: usize) -> (r: Option<(Literal, usize)>)
    ensures
        o_lit(r) == lit_at(tokens_model(t@), p as int),
        pos_in(r, p + 1, t@.len() as int),
{
    if p >= t.len() {
        return None;
    }
    match &t[p] {
        Token::Int(v) => if *v <= 2147483647 {
            Some((Literal::Int(*v as i32), p + 1))
        } else {
            None
        },
        Token::Str(s) => Some((Literal::String(s.clone()), p + 1)),
        Token::Ident(s) => if str_is(s, "true") {
            Some((Literal::Bool(true), p + 1))
        } else if str_is(s, "false") {
            Some((Literal::Bool(false), p + 1))
        } else {
            None
        },
        Token::Sym(Sym::Minus) => if p + 1 < t.len() {
            match &t[p + 1] {
                Token::Int(v) => if *v <= 2147483648 {
                    Some((Literal::Int((-(*v as i64)) as i32), p + 2))
                } else {
                    None
                },
                _ => None,
            }
        } else {
            None
        },
        _ => None,
    }
}

fn binop_at_x(t: &Vec<Token>, p: usize) -> (r: Option<BinOp>)
    ensures
        r == binop_at(tokens_model(t@), p as int),
        r is Some ==> p < t@.len(),
{
    if p >= t.len() {
        return None;
    }
    match &t[p] {
        Token::Sym(Sym::Plus) => Some(BinOp::Add),
        Token::Sym(Sym::Minus) => Some(BinOp::Sub),
        Token::Sym(Sym::Star) => Some(BinOp::Mul),
        Token::Sym(Sym::Slash) => Some(BinOp::Div),
        Token::Sym(Sym::AndAnd) => Some(BinOp::And),
        Token::Sym(Sym::OrOr) => Some(BinOp::Or),
        Token::Sym(Sym::EqEq) => Some(BinOp::Eq),
        Token::Sym(Sym::Lt) => Some(BinOp::Lt),
        Token::Sym(Sym::Gt) => Some(BinOp::Gt),
        _ => None,
    }
}

fn unop_at_x(t: &Vec<Token>, p: usize) -> (r: Option<UnOp>)
    ensures
        r == unop_at(tokens_model(t@), p as int),
        r is Some ==> p < t@.len(),
{
    if p >= t.len() {
        return None;
    }
    match &t[p] {
        Token::Sym(Sym::Bang) => Some(UnOp::Bang),
        Token::Sym(Sym::Minus) => Some(UnOp::Neg),
        Token::Sym(Sym::Star) => Some(UnOp::Deref),
        _ => None,
    }
}

fn type_x(t: &Vec<Token>, p: usize) -> (r: Option<(Type, usize)>)
    requires
        p <= t.len(),
    ensures
        o_type(r) == g_type(tokens_model(t@), p as int),
        pos_in(r, p + 1, t@.len() as int),
    decreases t@.len() - p,
{
    if p >= t.len() {
        return None;
    }
    if kw_is_x(t, p, "i32") {
        Some((Type::I32, p + 1))
    } else if kw_is_x(t, p, "bool") {
        Some((Type::Bool, p + 1))
    } else if kw_is_x(t, p, "String") {
        Some((Type::String, p + 1))
    } else if sym_is_x(t, p, Sym::LParen) && sym_is_x(t, p + 1, Sym::RParen) {
        Some((Type::Unit, p + 2))
    } else if sym_is_x(t, p, Sym::Amp) || sym_is_x(t, p, Sym::AndAnd) {
        let m = kw_is_x(t, p + 1, "mut");
        let p1 = if m { p + 2 } else { p + 1 };
        match type_x(t, p1) {
            None => None,
            Some((inner, q)) => {
                let r = Type::Ref(Box::new(inner), Mutable(m));
                if sym_is_x(t, p, Sym::AndAnd) {
                    Some((Type::Ref(Box::new(r), Mutable(false)), q))
                } else {
                    Some((r, q))
                }
            },
        }
    } else {
        None
    }
}

fn expr_x(t: &Vec<Token>, p: usize) -> (r: Option<(Expr, usize)>)
    requires
        p <= t.len(),
    ensures
        o_expr(r) == g_expr(tokens_model(t@), p as int),
        pos_in(r, p + 1, t@.len() as int),
    decreases t@.len() - p, 3int,
{
    match operand_x(t, p) {
        None => None,
        Some((l, q)) => bin_x(t, l, 0, q),
    }
}

fn bin_x(t: &Vec<Token>, lhs: Expr, min: u8, p: usize) -> (r: Option<(Expr, usize)>)
    requires
        p <= t.len(),
    ensures
        o_expr(r) == g_bin(tokens_model(t@), lhs@, min, p as int),
        pos_in(r, p as int, t@.len() as int),
    decreases t@.len() - p, 2int,
{
    match binop_at_x(t, p) {
        Some(op) => if op.priority() <= min {
            Some((lhs, p))
        } else {
            match operand_x(t, p + 1) {
                None => None,
                Some((r, q)) => match bin_x(t, r, op.priority(), q) {
                    None => None,
                    Some((r2, q2)) => bin_x(t, Expr::BinOp(op, Box::new(lhs), Box::new(r2)), min, q2),
                },
            }
        },
        None => Some((lhs, p)),
    }
}

fn operand_x(t: &Vec<Token>, p: usize) -> (r: Option<(Expr, usize)>)
    requires
        p <= t.len(),
    ensures
        o_expr(r) == g_operand(tokens_model(t@), p as int),
        pos_in(r, p + 1, t@.len() as int),
    decreases t@.len() - p, 1int,
{
    if p >= t.len() {
        return None;
    }
    if kw_is_x(t, p, "if") {
        return if_x(t, p + 1);
    }
    if sym_is_x(t, p, Sym::LBrace) {
        return match block_x(t, p) {
            None => None,
            Some((b, q)) => Some((Expr::Block(b), q)),
        };
    }
    if sym_is_x(t, p, Sym::Amp) || sym_is_x(t, p, Sym::AndAnd) {
        let m = kw_is_x(t, p + 1, "mut");
        let p1 = if m { p + 2 } else { p + 1 };
        return match operand_x(t, p1) {
            None => None,
            Some((i, q)) => {
                let r = Expr::Ref(Box::new(i), Mutable(m));
                if sym_is_x(t, p, Sym::AndAnd) {
                    Some((Expr::Ref(Box::new(r), Mutable(false)), q))
                } else {
                    Some((r, q))
                }
            },
        };
    }
    match lit_at_x(t, p) {
        Some((l, q)) => {
            return Some((Expr::Lit(l), q));
        },
        None => {},
    }
    if sym_is_x(t, p, Sym::LParen) {
        if sym_is_x(t, p + 1, Sym::RParen) {
            return Some((Expr::Lit(Literal::Unit), p + 2));
        }
        return match expr_x(t, p + 1) {
            None => None,
            Some((e, q)) => if sym_is_x(t, q, Sym::RParen) {
                Some((Expr::Par(Box::new(e)), q + 1))
            } else {
                None
            },
        };
    }
    match ident_at_x(t, p) {
        Some(id) => {
            if sym_is_x(t, p + 1, Sym::Bang) {
                if sym_is_x(t, p + 2, Sym::LParen) {
                    return match args_x(t, p + 3) {
                        None => None,
                        Some((args, q)) => {
                            let mut name = id;
                            name.append("!");
                            Some((Expr::Call(name, Arguments(args)), q))
                        },
                    };
                } else {
                    return None;
                }
            } else if sym_is_x(t, p + 1, Sym::LParen) {
                return match args_x(t, p + 2) {
                    None => None,
                    Some((args, q)) => Some((Expr::Call(id, Arguments(args)), q)),
                };
            } else {
                return Some((Expr::Ident(id), p + 1));
            }
        },
        None => {},
    }
    match unop_at_x(t, p) {
        Some(op) => match operand_x(t, p + 1) {
            None => None,
            Some((e, q)) => Some((Expr::UnOp(op, Box::new(e)), q)),
        },
        None => None,
    }
}

fn args_x(t: &Vec<Token>, p0: usize) -> (r: Option<(Vec<Expr>, usize)>)
    requires
        p0 <= t.len(),
    ensures
        o_args(r) == g_args(tokens_model(t@), p0 as int, Seq::empty()),
        pos_in(r, p0 + 1, t@.len() as int),
    decreases t@.len() - p0, 4int,
{
    let ghost tm = tokens_model(t@);
    let mut acc: Vec<Expr> = Vec::new();
    let mut p = p0;
    assert(exprs_model(acc@) =~= Seq::<SExpr>::empty());
    loop
        invariant
            p0 <= p <= t@.len(),
            tm == tokens_model(t@),
            g_args(tm, p0 as int, Seq::empty()) == g_args(tm, p as int, exprs_model(acc@)),
        decreases t@.len() - p,
    {
        if p >= t.len() {
            return None;
        }
        if sym_is_x(t, p, Sym::RParen) {
            return Some((acc, p + 1));
        }
        match expr_x(t, p) {
            None => {
                return None;
            },
            Some((e, q)) => {
                let ghost before = acc@;
                proof { lemma_exprs_model_push(before, e); }
                if sym_is_x(t, q, Sym::RParen) {
                    acc.push(e);
                    return Some((acc, q + 1));
                } else if sym_is_x(t, q, Sym::Comma) {
                    acc.push(e);
                    p = q + 1;
                } else {
                    return None;
                }
            },
        }
    }
}

fn if_x(t: &Vec<Token>, p: usize) -> (r: Option<(Expr, usize)>)
    requires
        p <= t.len(),
    ensures
        o_expr(r) == g_if(tokens_model(t@), p as int),
        pos_in(r, p + 1, t@.len() as int),
    decreases t@.len() - p, 4int,
{
    let (c, q) = match expr_x(t, p) {
        None => {
            return None;
        },
        Some(x) => x,
    };
    let (tb, r) = match block_x(t, q) {
        None => {
            return None;
        },
        Some(x) => x,
    };
    if kw_is_x(t, r, "else") {
        if kw_is_x(t, r + 1, "if") {
            match if_x(t, r + 2) {
                None => None,
                Some((ne, s)) => {
                    let mut v: Vec<Statement> = Vec::new();
                    v.push(Statement::Expr(ne));
                    let eb = Block { statements: v, semi: false };
                    proof {
                        lemma_stmts_model_push(Seq::empty(), v@[0]);
                        assert(Seq::<Statement>::empty().push(v@[0]) =~= v@);
                        assert(stmts_model(Seq::<Statement>::empty()) =~= Seq::<SStmt>::empty());
                        assert(block_model(eb).stmts =~= seq![SStmt::Expr(ne@)]);
                    }
                    Some((Expr::IfThenElse(Box::new(c), tb, Some(eb)), s))
                },
            }
        } else {
            match block_x(t, r + 1) {
                None => None,
                Some((eb, s)) => Some((Expr::IfThenElse(Box::new(c), tb, Some(eb)), s)),
            }
        }
    } else {
        Some((Expr::IfThenElse(Box::new(c), tb, None), r))
    }
}

fn block_x(t: &Vec<Token>, p: usize) -> (r: Option<(Block, usize)>)
    requires
        p <= t.len(),
    ensures
        o_block(r) == g_block(tokens_model(t@), p as int),
        pos_in(r, p + 1, t@.len() as int),
    decreases t@.len() - p, 0int,
{
    if sym_is_x(t, p, Sym::LBrace) {
        stmts_x(t, p + 1)
    } else {
        None
    }
}

fn stmts_x(t: &Vec<Token>, p0: usize) -> (r: Option<(Block, usize)>)
    requires
        p0 <= t.len(),
    ensures
        o_block(r) == g_stmts(tokens_model(t@), p0 as int, Seq::empty(), false),
        pos_in(r, p0 + 1, t@.len() as int),
    decreases t@.len() - p0, 6int,
{
    let ghost tm = tokens_model(t@);
    let mut acc: Vec<Statement> = Vec::new();
    let mut semi = false;
    let mut p = p0;
    assert(stmts_model(acc@) =~= Seq::<SStmt>::empty());
    loop
        invariant
            p0 <= p <= t@.len(),
            tm == tokens_model(t@),
            g_stmts(tm, p0 as int, Seq::empty(), false) == g_stmts(
                tm,
                p as int,
                stmts_model(acc@),
                semi,
            ),
        decreases t@.len() - p,
    {
        if p >= t.len() {
            return None;
        }
        if sym_is_x(t, p, Sym::RBrace) {
            let b = Block { statements: acc, semi };
            return Some((b, p + 1));
        }
        match stmt_x(t, p) {
            None => {
                return None;
            },
            Some((s, q)) => {
                let ghost before = acc@;
                proof { lemma_stmts_model_push(before, s); }
                let is_fn_or_while = match &s {
                    Statement::Fn(_) => true,
                    Statement::While(_, _) => true,
                    _ => false,
                };
                let is_let = match &s {
                    Statement::Let(_, _, _, _) => true,
                    _ => false,
                };
                if sym_is_x(t, q, Sym::Semi) {
                    acc.push(s);
                    semi = true;
                    p = q + 1;
                } else if is_fn_or_while {
                    acc.push(s);
                    semi = false;
                    p = q;
                } else if is_let {
                    return None;
                } else if sym_is_x(t, q, Sym::RBrace) {
                    acc.push(s);
                    semi = false;
                    p = q;
                } else {
                    return None;
                }
            },
        }
    }
}

fn opt_annot_x(t: &Vec<Token>, p: usize, y: Sym) -> (r: Option<(Option<Type>, usize)>)
    requires
        p <= t.len(),
    ensures
        o_annot(r) == g_opt_annot(tokens_model(t@), p as int, y),
        pos_in(r, p as int, t@.len() as int),
{
    if sym_is_x(t, p, y) {
        match type_x(t, p + 1) {
            None => None,
            Some((ty, q)) => Some((Some(ty), q)),
        }
    } else {
        Some((None, p))
    }
}

fn stmt_x(t: &Vec<Token>, p: usize) -> (r: Option<(Statement, usize)>)
    requires
        p <= t.len(),
    ensures
        o_stmt(r) == g_stmt(tokens_model(t@), p as int),
        pos_in(r, p + 1, t@.len() as int),
    decreases t@.len() - p, 5int,
{
    if p >= t.len() {
        return None;
    }
    if kw_is_x(t, p, "fn") {
        return match fn_x(t, p) {
            None => None,
            Some((f, q)) => Some((Statement::Fn(f), q)),
        };
    }
    if kw_is_x(t, p, "let") {
        let m = kw_is_x(t, p + 1, "mut");
        let p1 = if m { p + 2 } else { p + 1 };
        let id = match ident_at_x(t, p1) {
            None => {
                return None;
            },
            Some(id) => id,
        };
        let (ty, p3) = match opt_annot_x(t, p1 + 1, Sym::Colon) {
            None => {
                return None;
            },
            Some(x) => x,
        };
        if sym_is_x(t, p3, Sym::Assign) {
            return match expr_x(t, p3 + 1) {
                None => None,
                Some((e, q)) => Some((Statement::Let(Mutable(m), id, ty, Some(e)), q)),
            };
        } else {
            return Some((Statement::Let(Mutable(m), id, ty, None), p3));
        }
    }
    if kw_is_x(t, p, "while") {
        let (c, q) = match expr_x(t, p + 1) {
            None => {
                return None;
            },
            Some(x) => x,
        };
        return match block_x(t, q) {
            None => None,
            Some((b, r)) => Some((Statement::While(c, b), r)),
        };
    }
    let (e, q) = match expr_x(t, p) {
        None => {
            return None;
        },
        Some(x) => x,
    };
    if sym_is_x(t, q, Sym::Assign) {
        match expr_x(t, q + 1) {
            None => None,
            Some((r, s)) => Some((Statement::Assign(e, r), s)),
        }
    } else {
        Some((Statement::Expr(e), q))
    }
}

fn param_x(t: &Vec<Token>, p: usize) -> (r: Option<(Parameter, usize)>)
    requires
        p <= t.len(),
    ensures
        o_param(r) == g_param(tokens_model(t@), p as int),
        pos_in(r, p + 1, t@.len() as int),
{
    let m = kw_is_x(t, p, "mut");
    let p1 = if m { p + 1 } else { p };
    let id = match ident_at_x(t, p1) {
        None => {
            return None;
        },
        Some(id) => id,
    };
    if sym_is_x(t, p1 + 1, Sym::Colon) {
        match type_x(t, p1 + 2) {
            None => None,
            Some((ty, q)) => Some((Parameter { mutable: Mutable(m), id, ty }, q)),
        }
    } else {
        None
    }
}

fn param_list_x(t: &Vec<Token>, p: usize) -> (r: Option<(Vec<Parameter>, usize)>)
    requires
        p <= t.len(),
    ensures
        o_params(r) == g_param_list(tokens_model(t@), p as int),
        pos_in(r, p + 1, t@.len() as int),
{
    if !sym_is_x(t, p, Sym::LParen) {
        return None;
    }
    params_x(t, p + 1)
}

fn params_x(t: &Vec<Token>, p0: usize) -> (r: Option<(Vec<Parameter>, usize)>)
    requires
        p0 <= t.len(),
    ensures
        o_params(r) == g_params(tokens_model(t@), p0 as int, Seq::empty()),
        pos_in(r, p0 + 1, t@.len() as int),
{
    let ghost tm = tokens_model(t@);
    let mut acc: Vec<Parameter> = Vec::new();
    let mut p = p0;
    assert(params_model(acc@) =~= Seq::<SParam>::empty());
    loop
        invariant
            p0 <= p <= t@.len(),
            tm == tokens_model(t@),
            g_params(tm, p0 as int, Seq::empty()) == g_params(tm, p as int, params_model(acc@)),
        decreases t@.len() - p,
    {
        if p >= t.len() {
            return None;
        }
        if sym_is_x(t, p, Sym::RParen) {
            return Some((acc, p + 1));
        }
        match param_x(t, p) {
            None => {
                return None;
            },
            Some((x, q)) => {
                let ghost before = acc@;
                if sym_is_x(t, q, Sym::RParen) {
                    acc.push(x);
                    assert(params_model(acc@) =~= params_model(before).push(param_model(x)));
                    return Some((acc, q + 1));
                } else if sym_is_x(t, q, Sym::Comma) {
                    acc.push(x);
                    assert(params_model(acc@) =~= params_model(before).push(param_model(x)));
                    p = q + 1;
                } else {
                    return None;
                }
            },
        }
    }
}

fn fn_x(t: &Vec<Token>, p: usize) -> (r: Option<(FnDeclaration, usize)>)
    requires
        p <= t.len(),
    ensures
        o_fn(r) == g_fn(tokens_model(t@), p as int),
        pos_in(r, p + 1, t@.len() as int),
    decreases t@.len() - p, 4int,
{
    if !kw_is_x(t, p, "fn") {
        return None;
    }
    let id = match ident_at_x(t, p + 1) {
        None => {
            return None;
        },
        Some(id) => id,
    };
    let (ps, q) = match param_list_x(t, p + 2) {
        None => {
            return None;
        },
        Some(x) => x,
    };
    let (ty, r) = match opt_annot_x(t, q, Sym::Arrow) {
        None => {
            return None;
        },
        Some(x) => x,
    };
    match block_x(t, r) {
        None => None,
        Some((b, s)) => Some((FnDeclaration { id, parameters: Parameters(ps), ty, body: b }, s)),
    }
}

fn fns_x(t: &Vec<Token>) -> (r: Option<Vec<FnDeclaration>>)
    ensures
        match g_fns(tokens_model(t@), 0, Seq::empty()) {
            Some(fs) => r matches Some(v) && fns_model(v@) == fs,
            None => r is None,
        },
{
    let ghost tm = tokens_model(t@);
    let mut acc: Vec<FnDeclaration> = Vec::new();
    let mut p: usize = 0;
    assert(fns_model(acc@) =~= Seq::<SFn>::empty());
    while p < t.len()
        invariant
            p <= t@.len(),
            tm == tokens_model(t@),
            g_fns(tm, 0, Seq::empty()) == g_fns(tm, p as int, fns_model(acc@)),
        decreases t@.len() - p,
    {
        match fn_x(t, p) {
            None => {
                return None;
            },
            Some((f, q)) => {
                let ghost before = acc@;
                acc.push(f);
                assert(fns_model(acc@) =~= fns_model(before).push(fn_model(f)));
                p = q;
            },
        }
    }
    Some(acc)
}


fn whole_x<A>(r: Option<(A, usize)>, t: &Vec<Token>) -> (o: Option<A>)
    ensures
        match r {
            Some((a, q)) => if q == t@.len() {
                o == Some(a)
            } else {
                o is None
            },
            None => o is None,
        },
{
    match r {
        Some((a, q)) => if q == t.len() {
            Some(a)
        } else {
            None
        },
        None => None,
    }
}

/// Syntax that can be read from a whole token sequence.
pub trait Parse: Sized + View {
    /// What the grammar reads from all of `t`.
    spec fn grammar(t: Seq<SToken>) -> Option<Self::V>;

    /// Reads a value from all of `t`.
    fn read(t: &Vec<Token>) -> (r: Option<Self>)
        ensures
            match Self::grammar(tokens_model(t@)) {
                Some(v) => r matches Some(x) && x@ == v,
                None => r is None,
            },
    ;
}

impl Parse for Literal {
    open spec fn grammar(t: Seq<SToken>) -> Option<SLit> {
        whole(lit_at(t, 0), t)
    }

    fn read(t: &Vec<Token>) -> (r: Option<Literal>) {
        whole_x(lit_at_x(t, 0), t)
    }
}

impl Parse for BinOp {
    open spec fn grammar(t: Seq<SToken>) -> Option<BinOp> {
        whole(g_binop(t, 0), t)
    }

    fn read(t: &Vec<Token>) -> (r: Option<BinOp>) {
        let o = match binop_at_x(t, 0) {
            Some(op) => Some((op, 1usize)),
            None => None,
        };
        whole_x(o, t)
    }
}

impl Parse for UnOp {
    open spec fn grammar(t: Seq<SToken>) -> Option<UnOp> {
        whole(g_unop(t, 0), t)
    }

    fn read(t: &Vec<Token>) -> (r: Option<UnOp>) {
        let o = match unop_at_x(t, 0) {
            Some(op) => Some((op, 1usize)),
            None => None,
        };
        whole_x(o, t)
    }
}

impl Parse for Type {
    open spec fn grammar(t: Seq<SToken>) -> Option<Type> {
        whole(g_type(t, 0), t)
    }

    fn read(t: &Vec<Token>) -> (r: Option<Type>) {
        whole_x(type_x(t, 0), t)
    }
}

impl Parse for Expr {
    open spec fn grammar(t: Seq<SToken>) -> Option<SExpr> {
        whole(g_expr(t, 0), t)
    }

    fn read(t: &Vec<Token>) -> (r: Option<Expr>) {
        whole_x(expr_x(t, 0), t)
    }
}

impl Parse for Arguments {
    open spec fn grammar(t: Seq<SToken>) -> Option<Seq<SExpr>> {
        whole(g_arg_list(t, 0), t)
    }

    fn read(t: &Vec<Token>) -> (r: Option<Arguments>) {
        if !sym_is_x(t, 0, Sym::LParen) {
            return None;
        }
        match whole_x(args_x(t, 1), t) {
            Some(v) => Some(Arguments(v)),
            None => None,
        }
    }
}

impl Parse for Parameter {
    open spec fn grammar(t: Seq<SToken>) -> Option<SParam> {
        whole(g_param(t, 0), t)
    }

    fn read(t: &Vec<Token>) -> (r: Option<Parameter>) {
        whole_x(param_x(t, 0), t)
    }
}

impl Parse for Parameters {
    open spec fn grammar(t: Seq<SToken>) -> Option<Seq<SParam>> {
        whole(g_param_list(t, 0), t)
    }

    fn read(t: &Vec<Token>) -> (r: Option<Parameters>) {
        match whole_x(param_list_x(t, 0), t) {
            Some(v) => Some(Parameters(v)),
            None => None,
        }
    }
}

impl Parse for FnDeclaration {
    open spec fn grammar(t: Seq<SToken>) -> Option<SFn> {
        whole(g_fn(t, 0), t)
    }

    fn read(t: &Vec<Token>) -> (r: Option<FnDeclaration>) {
        whole_x(fn_x(t, 0), t)
    }
}

impl Parse for Statement {
    open spec fn grammar(t: Seq<SToken>) -> Option<SStmt> {
        whole(g_stmt(t, 0), t)
    }

    fn read(t: &Vec<Token>) -> (r: Option<Statement>) {
        whole_x(stmt_x(t, 0), t)
    }
}

impl Parse for Block {
    open spec fn grammar(t: Seq<SToken>) -> Option<SBlock> {
        whole(g_block(t, 0), t)
    }

    fn read(t: &Vec<Token>) -> (r: Option<Block>) {
        whole_x(block_x(t, 0), t)
    }
}

impl Parse for Prog {
    open spec fn grammar(t: Seq<SToken>) -> Option<Seq<SFn>> {
        g_fns(t, 0, Seq::empty())
    }

    fn read(t: &Vec<Token>) -> (r: Option<Prog>) {
        match fns_x(t) {
            Some(v) => Some(Prog(v)),
            None => None,
        }
    }
}

/// What a source text reads as: its tokens, read by the grammar of `T`.
pub open spec fn spec_parse<T: Parse>(src: Seq<char>) -> Option<T::V> {
    match lex_spec(src) {
        Some(t) => T::grammar(t),
        None => None,
    }
}

/// A source text that is not in the grammar.
#[derive(Debug, Clone, Copy, PartialEq, Eq)]
pub struct ParseError;

/// Reads a `T` from all of a source text.
pub fn try_parse<T: Parse>(src: &str) -> (r: Result<T, ParseError>)
    ensures
        match spec_parse::<T>(src@) {
            Some(v) => r matches Ok(x) && x@ == v,
            None => r is Err,
        },
{
    match lex(src) {
        None => Err(ParseError),
        Some(t) => match T::read(&t) {
            Some(x) => Ok(x),
            None => Err(ParseError),
        },
    }
}

/// Reads a `T` from a source text that is in the grammar.
pub fn parse<T: Parse>(src: &str) -> (r: T)
    requires
        spec_parse::<T>(src@) is Some,
    ensures
        r@ == spec_parse::<T>(src@)->0,
{
    let r = try_parse::<T>(src);
    r.unwrap()
}

} // verus!
