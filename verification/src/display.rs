use crate::ast::{
    block_model, expr_model, exprs_model, fn_model, lemma_exprs_model, lemma_stmts_model, lit_model,
    param_model, params_model, stmt_model, stmts_model, Arguments, BinOp, Block, Expr, FnDeclaration,
    Literal, Mutable, Parameter, Parameters, Prog, SBlock, SExpr, SFn, SLit, SParam, SStmt,
    Statement, Type, UnOp,
};
use crate::text::{int_text, int_to_text};
use crate::vm::fns_model;
use vstd::prelude::*;

verus! {

// ---------------------------------------------------------------------
// How the syntax tree is written back as source text.
// ---------------------------------------------------------------------

pub open spec fn lit_text(l: SLit) -> Seq<char> {
    match l {
        SLit::Int(i) => int_text(i as int),
        SLit::Bool(b) => if b { "true"@ } else { "false"@ },
        SLit::Str(s) => "\""@ + s + "\""@,
        SLit::Unit => "()"@,
    }
}

pub open spec fn type_text(t: Type) -> Seq<char>
    decreases t,
{
    match t {
        Type::I32 => "i32"@,
        Type::Bool => "bool"@,
        Type::String => "String"@,
        Type::Unit => "()"@,
        Type::Ref(inner, m) => if m.0 {
            "&mut "@ + type_text(*inner)
        } else {
            "&"@ + type_text(*inner)
        },
    }
}

pub open spec fn binop_text(op: BinOp) -> Seq<char> {
    match op {
        BinOp::Add => "+"@,
        BinOp::Sub => "-"@,
        BinOp::Mul => "*"@,
        BinOp::Div => "/"@,
        BinOp::And => "&&"@,
        BinOp::Or => "||"@,
        BinOp::Eq => "=="@,
        BinOp::Lt => "<"@,
        BinOp::Gt => ">"@,
    }
}

pub open spec fn unop_text(op: UnOp) -> Seq<char> {
    match op {
        UnOp::Bang => "!"@,
        UnOp::Neg => "-"@,
        UnOp::Deref => "*"@,
    }
}

pub open spec fn param_text(p: SParam) -> Seq<char> {
    (if p.mutable { "mut "@ } else { Seq::empty() }) + p.id + ": "@ + type_text(p.ty)
}

/// Parameters separated by `, `.
pub open spec fn params_text(ps: Seq<SParam>) -> Seq<char>
    decreases ps.len(),
{
    if ps.len() == 0 {
        Seq::empty()
    } else if ps.len() == 1 {
        param_text(ps[0])
    } else {
        params_text(ps.drop_last()) + ", "@ + param_text(ps.last())
    }
}

/// An operator between its operands, with a space on each side; a call
/// with its arguments separated by `, `; blocks as `{ s1; s2 }`.
pub open spec fn expr_text(e: SExpr) -> Seq<char>
    decreases e,
{
    match e {
        SExpr::Ident(s) => s,
        SExpr::Lit(l) => lit_text(l),
        SExpr::BinOp(op, l, r) => expr_text(*l) + " "@ + binop_text(op) + " "@ + expr_text(*r),
        SExpr::Par(i) => "("@ + expr_text(*i) + ")"@,
        SExpr::Call(id, args) => id + "("@ + exprs_text(args) + ")"@,
        SExpr::IfThenElse(c, t, eo) => "if "@ + expr_text(*c) + " "@ + block_text(t) + " "@ + match eo {
            Some(b) => "else "@ + block_text(b),
            None => Seq::empty(),
        },
        SExpr::Block(b) => block_text(b),
        SExpr::UnOp(op, i) => unop_text(op) + expr_text(*i),
        SExpr::Ref(i, m) => (if m { "&mut "@ } else { "&"@ }) + expr_text(*i),
    }
}

/// Expressions separated by `, `.
pub open spec fn exprs_text(es: Seq<SExpr>) -> Seq<char>
    decreases es,
{
    if es.len() == 0 {
        Seq::empty()
    } else if es.len() == 1 {
        expr_text(es[0])
    } else {
        exprs_text(es.drop_last()) + ", "@ + expr_text(es.last())
    }
}

/// `{ `, each statement followed by `; ` (the last one by `; ` only when
/// the block ends with `;`, else by a space), `}`.
pub open spec fn block_text(b: SBlock) -> Seq<char>
    decreases b,
{
    "{ "@ + stmts_text(b.stmts, b.semi) + "}"@
}

pub open spec fn stmts_text(ss: Seq<SStmt>, semi: bool) -> Seq<char>
    decreases ss,
{
    if ss.len() == 0 {
        Seq::empty()
    } else {
        let init = ss.drop_last();
        let prefix = if init.len() == 0 { Seq::empty() } else { stmts_text(init, true) };
        prefix + stmt_text(ss.last()) + if semi { "; "@ } else { " "@ }
    }
}

pub open spec fn stmt_text(s: SStmt) -> Seq<char>
    decreases s,
{
    match s {
        SStmt::Let(m, id, ty, init) => "let "@ + (if m { "mut "@ } else { Seq::empty() }) + id + match ty {
            Some(t) => " : "@ + type_text(t),
            None => Seq::empty(),
        } + match init {
            Some(e) => " = "@ + expr_text(e),
            None => Seq::empty(),
        },
        SStmt::Assign(l, r) => expr_text(l) + " = "@ + expr_text(r),
        SStmt::While(c, b) => "while "@ + expr_text(c) + " "@ + block_text(b),
        SStmt::Expr(e) => expr_text(e),
        SStmt::Fn(f) => fn_text(f),
    }
}

pub open spec fn fn_text(f: SFn) -> Seq<char>
    decreases f,
{
    "fn "@ + f.id + "("@ + params_text(f.params) + ")"@ + match f.ty {
        Some(t) => " -> "@ + type_text(t),
        None => Seq::empty(),
    } + " "@ + block_text(f.body)
}

/// Each function followed by an empty line.
pub open spec fn prog_text(fs: Seq<SFn>) -> Seq<char>
    decreases fs.len(),
{
    if fs.len() == 0 {
        Seq::empty()
    } else {
        prog_text(fs.drop_last()) + fn_text(fs.last()) + "\n\n"@
    }
}

pub fn push_lit(out: &mut String, l: &Literal)
    ensures
        final(out)@ == old(out)@ + lit_text(lit_model(*l)),
{
    match l {
        Literal::Int(i) => {
            let t = int_to_text(*i);
            out.append(t.as_str());
        },
        Literal::Bool(b) => if *b {
            out.append("true");
        } else {
            out.append("false");
        },
        Literal::String(s) => {
            out.append("\"");
            out.append(s.as_str());
            out.append("\"");
            assert(final(out)@ =~= old(out)@ + lit_text(lit_model(*l)));
        },
        Literal::Unit => out.append("()"),
    }
}

pub fn push_type(out: &mut String, t: &Type)
    ensures
        final(out)@ == old(out)@ + type_text(*t),
    decreases t,
{
    match t {
        Type::I32 => out.append("i32"),
        Type::Bool => out.append("bool"),
        Type::String => out.append("String"),
        Type::Unit => out.append("()"),
        Type::Ref(inner, m) => {
            if m.0 {
                out.append("&mut ");
            } else {
                out.append("&");
            }
            push_type(out, inner);
            assert(final(out)@ =~= old(out)@ + type_text(*t));
        },
    }
}

pub fn push_binop(out: &mut String, op: BinOp)
    ensures
        final(out)@ == old(out)@ + binop_text(op),
{
    match op {
        BinOp::Add => out.append("+"),
        BinOp::Sub => out.append("-"),
        BinOp::Mul => out.append("*"),
        BinOp::Div => out.append("/"),
        BinOp::And => out.append("&&"),
        BinOp::Or => out.append("||"),
        BinOp::Eq => out.append("=="),
        BinOp::Lt => out.append("<"),
        BinOp::Gt => out.append(">"),
    }
}

pub fn push_unop(out: &mut String, op: UnOp)
    ensures
        final(out)@ == old(out)@ + unop_text(op),
{
    match op {
        UnOp::Bang => out.append("!"),
        UnOp::Neg => out.append("-"),
        UnOp::Deref => out.append("*"),
    }
}

pub fn push_param(out: &mut String, p: &Parameter)
    ensures
        final(out)@ == old(out)@ + param_text(param_model(*p)),
{
    if p.mutable.0 {
        out.append("mut ");
    }
    out.append(p.id.as_str());
    out.append(": ");
    push_type(out, &p.ty);
    assert(final(out)@ =~= old(out)@ + param_text(param_model(*p)));
}

pub fn push_params(out: &mut String, ps: &Vec<Parameter>)
    ensures
        final(out)@ == old(out)@ + params_text(params_model(ps@)),
{
    let ghost m = params_model(ps@);
    let ghost start = out@;
    let n = ps.len();
    assert(m.take(0) =~= Seq::<SParam>::empty());
    assert(out@ =~= start + params_text(m.take(0)));
    for i in 0..n
        invariant
            n == ps@.len(),
            m == params_model(ps@),
            m.len() == n,
            out@ == start + params_text(m.take(i as int)),
    {
        assert(m.take(i + 1).drop_last() =~= m.take(i as int));
        assert(m.take(i + 1).last() == param_model(ps@[i as int]));
        if i > 0 {
            out.append(", ");
        }
        push_param(out, &ps[i]);
        assert(out@ =~= start + params_text(m.take(i + 1)));
    }
    assert(m.take(n as int) =~= m);
}

pub fn push_expr(out: &mut String, e: &Expr)
    ensures
        final(out)@ == old(out)@ + expr_text(e@),
    decreases e, 1nat,
{
    match e {
        Expr::Ident(s) => out.append(s.as_str()),
        Expr::Lit(l) => push_lit(out, l),
        Expr::BinOp(op, l, r) => {
            push_expr(out, l);
            out.append(" ");
            push_binop(out, *op);
            out.append(" ");
            push_expr(out, r);
            assert(final(out)@ =~= old(out)@ + expr_text(e@));
        },
        Expr::Par(i) => {
            out.append("(");
            push_expr(out, i);
            out.append(")");
            assert(final(out)@ =~= old(out)@ + expr_text(e@));
        },
        Expr::Call(id, args) => {
            out.append(id.as_str());
            out.append("(");
            push_exprs(out, &args.0);
            out.append(")");
            assert(final(out)@ =~= old(out)@ + expr_text(e@));
        },
        Expr::IfThenElse(c, t, eo) => {
            out.append("if ");
            push_expr(out, c);
            out.append(" ");
            push_block(out, t);
            out.append(" ");
            match eo {
                Some(b) => {
                    out.append("else ");
                    push_block(out, b);
                },
                None => {},
            }
            assert(final(out)@ =~= old(out)@ + expr_text(e@));
        },
        Expr::Block(b) => push_block(out, b),
        Expr::UnOp(op, i) => {
            push_unop(out, *op);
            push_expr(out, i);
            assert(final(out)@ =~= old(out)@ + expr_text(e@));
        },
        Expr::Ref(i, m) => {
            if m.0 {
                out.append("&mut ");
            } else {
                out.append("&");
            }
            push_expr(out, i);
            assert(final(out)@ =~= old(out)@ + expr_text(e@));
        },
    }
}

pub fn push_exprs(out: &mut String, es: &Vec<Expr>)
    ensures
        final(out)@ == old(out)@ + exprs_text(exprs_model(es@)),
    decreases es, 0nat,
{
    let ghost m = exprs_model(es@);
    proof { lemma_exprs_model(es@); }
    let ghost start = out@;
    let n = es.len();
    assert(m.take(0) =~= Seq::<SExpr>::empty());
    assert(out@ =~= start + exprs_text(m.take(0)));
    for i in 0..n
        invariant
            n == es@.len(),
            m == exprs_model(es@),
            m.len() == n,
            forall|j: int| 0 <= j < n ==> #[trigger] m[j] == expr_model(es@[j]),
            out@ == start + exprs_text(m.take(i as int)),
    {
        assert(m.take(i + 1).drop_last() =~= m.take(i as int));
        assert(m.take(i + 1).last() == es@[i as int]@);
        if i > 0 {
            out.append(", ");
        }
        push_expr(out, &es[i]);
        assert(out@ =~= start + exprs_text(m.take(i + 1)));
    }
    assert(m.take(n as int) =~= m);
}

pub fn push_block(out: &mut String, b: &Block)
    ensures
        final(out)@ == old(out)@ + block_text(block_model(*b)),
    decreases b, 1nat,
{
    let ghost m = stmts_model(b.statements@);
    proof { lemma_stmts_model(b.statements@); }
    out.append("{ ");
    let ghost start = out@;
    let n = b.statements.len();
    if n > 0 {
        assert(m.take(0) =~= Seq::<SStmt>::empty());
        assert(out@ =~= start + stmts_text(m.take(0), true));
        for i in 0..n - 1
            invariant
                n == b.statements@.len(),
                n > 0,
                m == stmts_model(b.statements@),
                m.len() == n,
                forall|j: int| 0 <= j < n ==> #[trigger] m[j] == stmt_model(b.statements@[j]),
                out@ == start + stmts_text(m.take(i as int), true),
        {
            assert(m.take(i + 1).drop_last() =~= m.take(i as int));
            assert(m.take(i + 1).last() == stmt_model(b.statements@[i as int]));
            push_stmt(out, &b.statements[i]);
            out.append("; ");
            assert(out@ =~= start + stmts_text(m.take(i + 1), true));
        }
        assert(m.drop_last() =~= m.take(n - 1));
        push_stmt(out, &b.statements[n - 1]);
        if b.semi {
            out.append("; ");
        } else {
            out.append(" ");
        }
        assert(out@ =~= start + stmts_text(m, b.semi));
    } else {
        assert(m =~= Seq::<SStmt>::empty());
    }
    out.append("}");
    assert(final(out)@ =~= old(out)@ + block_text(block_model(*b)));
}

pub fn push_stmt(out: &mut String, s: &Statement)
    ensures
        final(out)@ == old(out)@ + stmt_text(stmt_model(*s)),
    decreases s, 1nat,
{
    match s {
        Statement::Let(m, id, ty, init) => {
            out.append("let ");
            if m.0 {
                out.append("mut ");
            }
            out.append(id.as_str());
            match ty {
                Some(t) => {
                    out.append(" : ");
                    push_type(out, t);
                },
                None => {},
            }
            match init {
                Some(e) => {
                    out.append(" = ");
                    push_expr(out, e);
                },
                None => {},
            }
            assert(final(out)@ =~= old(out)@ + stmt_text(stmt_model(*s)));
        },
        Statement::Assign(l, r) => {
            push_expr(out, l);
            out.append(" = ");
            push_expr(out, r);
            assert(final(out)@ =~= old(out)@ + stmt_text(stmt_model(*s)));
        },
        Statement::While(c, b) => {
            out.append("while ");
            push_expr(out, c);
            out.append(" ");
            push_block(out, b);
            assert(final(out)@ =~= old(out)@ + stmt_text(stmt_model(*s)));
        },
        Statement::Expr(e) => push_expr(out, e),
        Statement::Fn(f) => push_fn(out, f),
    }
}

pub fn push_fn(out: &mut String, f: &FnDeclaration)
    ensures
        final(out)@ == old(out)@ + fn_text(fn_model(*f)),
    decreases f, 1nat,
{
    out.append("fn ");
    out.append(f.id.as_str());
    out.append("(");
    push_params(out, &f.parameters.0);
    out.append(")");
    match &f.ty {
        Some(t) => {
            out.append(" -> ");
            push_type(out, t);
        },
        None => {},
    }
    out.append(" ");
    push_block(out, &f.body);
    assert(final(out)@ =~= old(out)@ + fn_text(fn_model(*f)));
}

impl Literal {
    /// The literal as source text.
    pub fn to_string(&self) -> (s: String)
        ensures
            s@ == lit_text(self@),
    {
        let mut s = String::new();
        push_lit(&mut s, self);
        assert(s@ =~= lit_text(self@));
        s
    }
}

impl Type {
    /// The type as source text.
    pub fn to_string(&self) -> (s: String)
        ensures
            s@ == type_text(*self),
    {
        let mut s = String::new();
        push_type(&mut s, self);
        assert(s@ =~= type_text(*self));
        s
    }
}

impl BinOp {
    /// The operator as source text.
    pub fn to_string(&self) -> (s: String)
        ensures
            s@ == binop_text(*self),
    {
        let mut s = String::new();
        push_binop(&mut s, *self);
        assert(s@ =~= binop_text(*self));
        s
    }
}

impl UnOp {
    /// The operator as source text.
    pub fn to_string(&self) -> (s: String)
        ensures
            s@ == unop_text(*self),
    {
        let mut s = String::new();
        push_unop(&mut s, *self);
        assert(s@ =~= unop_text(*self));
        s
    }
}

impl Mutable {
    /// `mut ` for a mutable binding, nothing otherwise.
    pub fn to_string(&self) -> (s: String)
        ensures
            s@ == (if self.0 { "mut "@ } else { Seq::<char>::empty() }),
    {
        let mut s = String::new();
        if self.0 {
            s.append("mut ");
        }
        assert(s@ =~= (if self.0 { "mut "@ } else { Seq::<char>::empty() }));
        s
    }
}

impl Expr {
    /// The expression as source text.
    pub fn to_string(&self) -> (s: String)
        ensures
            s@ == expr_text(self@),
    {
        let mut s = String::new();
        push_expr(&mut s, self);
        assert(s@ =~= expr_text(self@));
        s
    }
}

impl Block {
    /// The block as source text.
    pub fn to_string(&self) -> (s: String)
        ensures
            s@ == block_text(self@),
    {
        let mut s = String::new();
        push_block(&mut s, self);
        assert(s@ =~= block_text(self@));
        s
    }
}

impl Statement {
    /// The statement as source text.
    pub fn to_string(&self) -> (s: String)
        ensures
            s@ == stmt_text(self@),
    {
        let mut s = String::new();
        push_stmt(&mut s, self);
        assert(s@ =~= stmt_text(self@));
        s
    }
}

impl Parameter {
    /// The parameter as source text.
    pub fn to_string(&self) -> (s: String)
        ensures
            s@ == param_text(self@),
    {
        let mut s = String::new();
        push_param(&mut s, self);
        assert(s@ =~= param_text(self@));
        s
    }
}

impl Parameters {
    /// The parameters as source text, separated by `, `.
    pub fn to_string(&self) -> (s: String)
        ensures
            s@ == params_text(self@),
    {
        let mut s = String::new();
        push_params(&mut s, &self.0);
        assert(s@ =~= params_text(self@));
        s
    }
}

impl Arguments {
    /// The arguments as source text, separated by `, `.
    pub fn to_string(&self) -> (s: String)
        ensures
            s@ == exprs_text(self@),
    {
        let mut s = String::new();
        push_exprs(&mut s, &self.0);
        assert(s@ =~= exprs_text(self@));
        s
    }
}

impl FnDeclaration {
    /// The declaration as source text.
    pub fn to_string(&self) -> (s: String)
        ensures
            s@ == fn_text(self@),
    {
        let mut s = String::new();
        push_fn(&mut s, self);
        assert(s@ =~= fn_text(self@));
        s
    }
}

impl Prog {
    /// The program as source text: each function followed by an empty line.
    pub fn to_string(&self) -> (s: String)
        ensures
            s@ == prog_text(self@),
    {
        let ghost m = fns_model(self.0@);
        let mut s = String::new();
        let n = self.0.len();
        assert(m.take(0) =~= Seq::<SFn>::empty());
        assert(s@ =~= prog_text(m.take(0)));
        for i in 0..n
            invariant
                n == self.0@.len(),
                m == fns_model(self.0@),
                s@ == prog_text(m.take(i as int)),
        {
            assert(m.take(i + 1).drop_last() =~= m.take(i as int));
            assert(m.take(i + 1).last() == fn_model(self.0@[i as int]));
            push_fn(&mut s, &self.0[i]);
            s.append("\n\n");
            assert(s@ =~= prog_text(m.take(i + 1)));
        }
        assert(m.take(n as int) =~= m);
        s
    }
}

} // verus!
