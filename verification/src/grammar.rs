use crate::ast::{BinOp, Mutable, SBlock, SExpr, SFn, SLit, SParam, SStmt, Type, UnOp};
use crate::lex::{SToken, Sym};
use vstd::prelude::*;

verus! {

// ---------------------------------------------------------------------
// The grammar of the language, as recursive-descent functions over the
// token sequence. Each takes the position to start at and gives what it
// read and the position after it, or `None` where the tokens do not fit.
// Binary operators are read by precedence climbing: `*` `/` bind tightest,
// then `+` `-`, then `==` `<` `>`, then `&&`, then `||`, all to the left.
// ---------------------------------------------------------------------

/// Words that are not identifiers.
pub open spec fn is_keyword(s: Seq<char>) -> bool {
    s == "as"@ || s == "break"@ || s == "const"@ || s == "continue"@ || s == "crate"@ || s
        == "else"@ || s == "enum"@ || s == "false"@ || s == "fn"@ || s == "for"@ || s == "if"@
        || s == "impl"@ || s == "in"@ || s == "let"@ || s == "loop"@ || s == "match"@ || s
        == "mod"@ || s == "move"@ || s == "mut"@ || s == "pub"@ || s == "ref"@ || s
        == "return"@ || s == "self"@ || s == "Self"@ || s == "static"@ || s == "struct"@ || s
        == "super"@ || s == "trait"@ || s == "true"@ || s == "type"@ || s == "unsafe"@ || s
        == "use"@ || s == "where"@ || s == "while"@ || s == "async"@ || s == "await"@ || s
        == "dyn"@
}

pub open spec fn sym_is(t: Seq<SToken>, p: int, y: Sym) -> bool {
    0 <= p < t.len() && t[p] == SToken::Sym(y)
}

pub open spec fn kw_is(t: Seq<SToken>, p: int, k: Seq<char>) -> bool {
    0 <= p < t.len() && t[p] == SToken::Ident(k)
}

/// The identifier at `p`, if the token there is one and no keyword.
pub open spec fn ident_at(t: Seq<SToken>, p: int) -> Option<Seq<char>> {
    if 0 <= p < t.len() {
        match t[p] {
            SToken::Ident(s) => if is_keyword(s) {
                None
            } else {
                Some(s)
            },
            _ => None,
        }
    } else {
        None
    }
}

/// A literal at `p`: an integer (possibly negative, written `-` and the
/// digits), a string, `true` or `false`.
pub open spec fn lit_at(t: Seq<SToken>, p: int) -> Option<(SLit, int)> {
    if !(0 <= p < t.len()) {
        None
    } else {
        match t[p] {
            SToken::Int(v) => if v <= i32::MAX {
                Some((SLit::Int(v as i32), p + 1))
            } else {
                None
            },
            SToken::Str(s) => Some((SLit::Str(s), p + 1)),
            SToken::Ident(s) => if s == "true"@ {
                Some((SLit::Bool(true), p + 1))
            } else if s == "false"@ {
                Some((SLit::Bool(false), p + 1))
            } else {
                None
            },
            SToken::Sym(Sym::Minus) => if p + 1 < t.len() {
                match t[p + 1] {
                    SToken::Int(v) => if v <= 2147483648 {
                        Some((SLit::Int((-(v as int)) as i32), p + 2))
                    } else {
                        None
                    },
                    _ => None,
                }
            } else {
                None
            },
            _ => None,
        }
    }
}

pub open spec fn binop_at(t: Seq<SToken>, p: int) -> Option<BinOp> {
    if !(0 <= p < t.len()) {
        None
    } else {
        match t[p] {
            SToken::Sym(Sym::Plus) => Some(BinOp::Add),
            SToken::Sym(Sym::Minus) => Some(BinOp::Sub),
            SToken::Sym(Sym::Star) => Some(BinOp::Mul),
            SToken::Sym(Sym::Slash) => Some(BinOp::Div),
            SToken::Sym(Sym::AndAnd) => Some(BinOp::And),
            SToken::Sym(Sym::OrOr) => Some(BinOp::Or),
            SToken::Sym(Sym::EqEq) => Some(BinOp::Eq),
            SToken::Sym(Sym::Lt) => Some(BinOp::Lt),
            SToken::Sym(Sym::Gt) => Some(BinOp::Gt),
            _ => None,
        }
    }
}

pub open spec fn unop_at(t: Seq<SToken>, p: int) -> Option<UnOp> {
    if !(0 <= p < t.len()) {
        None
    } else {
        match t[p] {
            SToken::Sym(Sym::Bang) => Some(UnOp::Bang),
            SToken::Sym(Sym::Minus) => Some(UnOp::Neg),
            SToken::Sym(Sym::Star) => Some(UnOp::Deref),
            _ => None,
        }
    }
}

/// A type: `i32`, `bool`, `String`, `()`, `&T` or `&mut T`.
pub open spec fn g_type(t: Seq<SToken>, p: int) -> Option<(Type, int)>
    decreases t.len() - p,
{
    if !(0 <= p < t.len()) {
        None
    } else if kw_is(t, p, "i32"@) {
        Some((Type::I32, p + 1))
    } else if kw_is(t, p, "bool"@) {
        Some((Type::Bool, p + 1))
    } else if kw_is(t, p, "String"@) {
        Some((Type::String, p + 1))
    } else if sym_is(t, p, Sym::LParen) && sym_is(t, p + 1, Sym::RParen) {
        Some((Type::Unit, p + 2))
    } else if sym_is(t, p, Sym::Amp) || sym_is(t, p, Sym::AndAnd) {
        let m = kw_is(t, p + 1, "mut"@);
        match g_type(t, if m { p + 2 } else { p + 1 }) {
            None => None,
            Some((inner, q)) => {
                let r = Type::Ref(Box::new(inner), Mutable(m));
                if sym_is(t, p, Sym::AndAnd) {
                    Some((Type::Ref(Box::new(r), Mutable(false)), q))
                } else {
                    Some((r, q))
                }
            },
        }
    } else {
        None
    }
}

/// An expression: an operand followed by binary operators and operands.
pub open spec fn g_expr(t: Seq<SToken>, p: int) -> Option<(SExpr, int)>
    decreases t.len() - p, 3int,
{
    if !(0 <= p <= t.len()) {
        None
    } else {
        match g_operand(t, p) {
            None => None,
            Some((l, q)) => if q <= p || q > t.len() {
                None
            } else {
                g_bin(t, l, 0, q)
            },
        }
    }
}

/// The rest of an expression after its left part `lhs`: operators that
/// bind more tightly than `min`, each with its right operand.
pub open spec fn g_bin(t: Seq<SToken>, lhs: SExpr, min: u8, p: int) -> Option<(SExpr, int)>
    decreases t.len() - p, 2int,
{
    if !(0 <= p <= t.len()) {
        None
    } else {
        match binop_at(t, p) {
            Some(op) => if op.spec_priority() <= min {
                Some((lhs, p))
            } else {
                match g_operand(t, p + 1) {
                    None => None,
                    Some((r, q)) => if q <= p || q > t.len() {
                        None
                    } else {
                        match g_bin(t, r, op.spec_priority(), q) {
                            None => None,
                            Some((r2, q2)) => if q2 < q || q2 > t.len() {
                                None
                            } else {
                                g_bin(t, SExpr::BinOp(op, Box::new(lhs), Box::new(r2)), min, q2)
                            },
                        }
                    },
                }
            },
            None => Some((lhs, p)),
        }
    }
}

/// An operand: an `if`, a block, a reference, a literal, `()`, a
/// parenthesized expression, a variable, a call or macro call, or a unary
/// operator applied to an operand.
pub open spec fn g_operand(t: Seq<SToken>, p: int) -> Option<(SExpr, int)>
    decreases t.len() - p, 1int,
{
    if !(0 <= p < t.len()) {
        None
    } else if kw_is(t, p, "if"@) {
        g_if(t, p + 1)
    } else if sym_is(t, p, Sym::LBrace) {
        match g_block(t, p) {
            None => None,
            Some((b, q)) => Some((SExpr::Block(b), q)),
        }
    } else if sym_is(t, p, Sym::Amp) || sym_is(t, p, Sym::AndAnd) {
        let m = kw_is(t, p + 1, "mut"@);
        match g_operand(t, if m { p + 2 } else { p + 1 }) {
            None => None,
            Some((i, q)) => {
                let r = SExpr::Ref(Box::new(i), m);
                if sym_is(t, p, Sym::AndAnd) {
                    Some((SExpr::Ref(Box::new(r), false), q))
                } else {
                    Some((r, q))
                }
            },
        }
    } else if lit_at(t, p) is Some {
        match lit_at(t, p) {
            Some((l, q)) => Some((SExpr::Lit(l), q)),
            None => None,
        }
    } else if sym_is(t, p, Sym::LParen) {
        if sym_is(t, p + 1, Sym::RParen) {
            Some((SExpr::Lit(SLit::Unit), p + 2))
        } else {
            match g_expr(t, p + 1) {
                None => None,
                Some((e, q)) => if sym_is(t, q, Sym::RParen) {
                    Some((SExpr::Par(Box::new(e)), q + 1))
                } else {
                    None
                },
            }
        }
    } else if ident_at(t, p) is Some {
        let id = t[p]->Ident_0;
        if sym_is(t, p + 1, Sym::Bang) {
            if sym_is(t, p + 2, Sym::LParen) {
                match g_args(t, p + 3, Seq::empty()) {
                    None => None,
                    Some((args, q)) => Some((SExpr::Call(id + "!"@, args), q)),
                }
            } else {
                None
            }
        } else if sym_is(t, p + 1, Sym::LParen) {
            match g_args(t, p + 2, Seq::empty()) {
                None => None,
                Some((args, q)) => Some((SExpr::Call(id, args), q)),
            }
        } else {
            Some((SExpr::Ident(id), p + 1))
        }
    } else if unop_at(t, p) is Some {
        match g_operand(t, p + 1) {
            None => None,
            Some((e, q)) => Some((SExpr::UnOp(unop_at(t, p)->0, Box::new(e)), q)),
        }
    } else {
        None
    }
}

/// Call arguments after `(`, with those read so far in `acc`: expressions
/// separated by `,` up to `)`, with an optional trailing `,`.
pub open spec fn g_args(t: Seq<SToken>, p: int, acc: Seq<SExpr>) -> Option<(Seq<SExpr>, int)>
    decreases t.len() - p, 4int,
{
    if !(0 <= p < t.len()) {
        None
    } else if sym_is(t, p, Sym::RParen) {
        Some((acc, p + 1))
    } else {
        match g_expr(t, p) {
            None => None,
            Some((e, q)) => if sym_is(t, q, Sym::RParen) {
                Some((acc.push(e), q + 1))
            } else if sym_is(t, q, Sym::Comma) && p <= q {
                g_args(t, q + 1, acc.push(e))
            } else {
                None
            },
        }
    }
}

/// An `if` after its keyword: condition, block, and an optional `else`
/// with a block or another `if` (which becomes a block of that one
/// expression).
pub open spec fn g_if(t: Seq<SToken>, p: int) -> Option<(SExpr, int)>
    decreases t.len() - p, 4int,
{
    if !(0 <= p <= t.len()) {
        None
    } else {
        match g_expr(t, p) {
            None => None,
            Some((c, q)) => if q < p || q > t.len() {
                None
            } else {
                match g_block(t, q) {
                    None => None,
                    Some((tb, r)) => if r < q || r > t.len() {
                        None
                    } else if kw_is(t, r, "else"@) {
                        if kw_is(t, r + 1, "if"@) {
                            match g_if(t, r + 2) {
                                None => None,
                                Some((ne, s)) => Some((
                                    SExpr::IfThenElse(
                                        Box::new(c),
                                        tb,
                                        Some(SBlock { stmts: seq![SStmt::Expr(ne)], semi: false }),
                                    ),
                                    s,
                                )),
                            }
                        } else {
                            match g_block(t, r + 1) {
                                None => None,
                                Some((eb, s)) => Some((SExpr::IfThenElse(Box::new(c), tb, Some(eb)), s)),
                            }
                        }
                    } else {
                        Some((SExpr::IfThenElse(Box::new(c), tb, None), r))
                    },
                }
            },
        }
    }
}

/// A block: `{`, statements, `}`.
pub open spec fn g_block(t: Seq<SToken>, p: int) -> Option<(SBlock, int)>
    decreases t.len() - p, 0int,
{
    if sym_is(t, p, Sym::LBrace) {
        g_stmts(t, p + 1, Seq::empty(), false)
    } else {
        None
    }
}

/// The statements of a block up to its `}`, with those read so far in
/// `acc`. Each is followed by `;`, except a function declaration or a
/// `while`, and the last statement (not a `let`) before the `}`; `semi`
/// tells whether the last one read was followed by `;`.
pub open spec fn g_stmts(t: Seq<SToken>, p: int, acc: Seq<SStmt>, semi: bool) -> Option<(SBlock, int)>
    decreases t.len() - p, 6int,
{
    if !(0 <= p < t.len()) {
        None
    } else if sym_is(t, p, Sym::RBrace) {
        Some((SBlock { stmts: acc, semi }, p + 1))
    } else {
        match g_stmt(t, p) {
            None => None,
            Some((s, q)) => if q <= p || q > t.len() {
                None
            } else if sym_is(t, q, Sym::Semi) {
                g_stmts(t, q + 1, acc.push(s), true)
            } else if s is Fn || s is While {
                g_stmts(t, q, acc.push(s), false)
            } else if s is Let {
                None
            } else if sym_is(t, q, Sym::RBrace) {
                g_stmts(t, q, acc.push(s), false)
            } else {
                None
            },
        }
    }
}

/// The optional `: T` of a `let` at `p`.
pub open spec fn g_opt_annot(t: Seq<SToken>, p: int, y: Sym) -> Option<(Option<Type>, int)> {
    if sym_is(t, p, y) {
        match g_type(t, p + 1) {
            None => None,
            Some((ty, q)) => Some((Some(ty), q)),
        }
    } else {
        Some((None, p))
    }
}

/// A statement: a function declaration, `let`, `while`, an assignment or
/// an expression.
pub open spec fn g_stmt(t: Seq<SToken>, p: int) -> Option<(SStmt, int)>
    decreases t.len() - p, 5int,
{
    if !(0 <= p < t.len()) {
        None
    } else if kw_is(t, p, "fn"@) {
        match g_fn(t, p) {
            None => None,
            Some((f, q)) => Some((SStmt::Fn(f), q)),
        }
    } else if kw_is(t, p, "let"@) {
        let m = kw_is(t, p + 1, "mut"@);
        let p1 = if m { p + 2 } else { p + 1 };
        match ident_at(t, p1) {
            None => None,
            Some(id) => match g_opt_annot(t, p1 + 1, Sym::Colon) {
                None => None,
                Some((ty, p3)) => if p3 < p || p3 > t.len() {
                    None
                } else if sym_is(t, p3, Sym::Assign) {
                    match g_expr(t, p3 + 1) {
                        None => None,
                        Some((e, q)) => Some((SStmt::Let(m, id, ty, Some(e)), q)),
                    }
                } else {
                    Some((SStmt::Let(m, id, ty, None), p3))
                },
            },
        }
    } else if kw_is(t, p, "while"@) {
        match g_expr(t, p + 1) {
            None => None,
            Some((c, q)) => if q < p || q > t.len() {
                None
            } else {
                match g_block(t, q) {
                    None => None,
                    Some((b, r)) => Some((SStmt::While(c, b), r)),
                }
            },
        }
    } else {
        match g_expr(t, p) {
            None => None,
            Some((e, q)) => if q < p || q > t.len() {
                None
            } else if sym_is(t, q, Sym::Assign) {
                match g_expr(t, q + 1) {
                    None => None,
                    Some((r, s)) => Some((SStmt::Assign(e, r), s)),
                }
            } else {
                Some((SStmt::Expr(e), q))
            },
        }
    }
}

/// A parameter: `[mut] name: T`.
pub open spec fn g_param(t: Seq<SToken>, p: int) -> Option<(SParam, int)> {
    let m = kw_is(t, p, "mut"@);
    let p1 = if m { p + 1 } else { p };
    match ident_at(t, p1) {
        None => None,
        Some(id) => if sym_is(t, p1 + 1, Sym::Colon) {
            match g_type(t, p1 + 2) {
                None => None,
                Some((ty, q)) => Some((SParam { mutable: m, id, ty }, q)),
            }
        } else {
            None
        },
    }
}

/// Parameters after `(`, with those read so far in `acc`, up to `)`, with
/// an optional trailing `,`.
pub open spec fn g_params(t: Seq<SToken>, p: int, acc: Seq<SParam>) -> Option<(Seq<SParam>, int)>
    decreases t.len() - p,
{
    if !(0 <= p < t.len()) {
        None
    } else if sym_is(t, p, Sym::RParen) {
        Some((acc, p + 1))
    } else {
        match g_param(t, p) {
            None => None,
            Some((x, q)) => if q <= p || q > t.len() {
                None
            } else if sym_is(t, q, Sym::RParen) {
                Some((acc.push(x), q + 1))
            } else if sym_is(t, q, Sym::Comma) {
                g_params(t, q + 1, acc.push(x))
            } else {
                None
            },
        }
    }
}

/// A parenthesized parameter list.
pub open spec fn g_param_list(t: Seq<SToken>, p: int) -> Option<(Seq<SParam>, int)> {
    if sym_is(t, p, Sym::LParen) {
        g_params(t, p + 1, Seq::empty())
    } else {
        None
    }
}

/// A function declaration: `fn name(params) [-> T] block`.
pub open spec fn g_fn(t: Seq<SToken>, p: int) -> Option<(SFn, int)>
    decreases t.len() - p, 4int,
{
    if !kw_is(t, p, "fn"@) {
        None
    } else {
        match ident_at(t, p + 1) {
            None => None,
            Some(id) => match g_param_list(t, p + 2) {
                None => None,
                Some((ps, q)) => match g_opt_annot(t, q, Sym::Arrow) {
                    None => None,
                    Some((ty, r)) => if r < p || r > t.len() {
                        None
                    } else {
                        match g_block(t, r) {
                            None => None,
                            Some((b, s)) => Some((SFn { id, params: ps, ty, body: b }, s)),
                        }
                    },
                },
            },
        }
    }
}

/// Function declarations from `p` to the end, after those in `acc`.
pub open spec fn g_fns(t: Seq<SToken>, p: int, acc: Seq<SFn>) -> Option<Seq<SFn>>
    decreases t.len() - p,
{
    if !(0 <= p < t.len()) {
        Some(acc)
    } else {
        match g_fn(t, p) {
            None => None,
            Some((f, q)) => if q <= p || q > t.len() {
                None
            } else {
                g_fns(t, q, acc.push(f))
            },
        }
    }
}

/// A parenthesized argument list.
pub open spec fn g_arg_list(t: Seq<SToken>, p: int) -> Option<(Seq<SExpr>, int)> {
    if sym_is(t, p, Sym::LParen) {
        g_args(t, p + 1, Seq::empty())
    } else {
        None
    }
}

/// A binary operator token.
pub open spec fn g_binop(t: Seq<SToken>, p: int) -> Option<(BinOp, int)> {
    match binop_at(t, p) {
        Some(op) => Some((op, p + 1)),
        None => None,
    }
}

/// A unary operator token.
pub open spec fn g_unop(t: Seq<SToken>, p: int) -> Option<(UnOp, int)> {
    match unop_at(t, p) {
        Some(op) => Some((op, p + 1)),
        None => None,
    }
}

/// What a parse function reads when it has to take all the tokens.
pub open spec fn whole<A>(r: Option<(A, int)>, t: Seq<SToken>) -> Option<A> {
    match r {
        Some((a, q)) => if q == t.len() {
            Some(a)
        } else {
            None
        },
        None => None,
    }
}

} // verus!
