use vstd::prelude::*;

verus! {

/// The types of the language.
#[derive(Debug, PartialEq, Eq)]
pub enum Type {
    I32,
    Bool,
    String,
    Unit,
    Ref(Box<Type>, Mutable),
}

/// Mutability flag of a binding, parameter or reference.
#[derive(Debug, Copy, Clone, PartialEq, Eq, Structural)]
pub struct Mutable(pub bool);

#[derive(Debug, Clone, PartialEq)]
pub struct Parameters(pub Vec<Parameter>);

#[derive(Debug, Clone, PartialEq)]
pub struct Parameter {
    pub mutable: Mutable,
    pub id: String,
    pub ty: Type,
}

#[derive(Debug, PartialEq)]
pub struct FnDeclaration {
    pub id: String,
    pub parameters: Parameters,
    pub ty: Option<Type>,
    pub body: Block,
}

#[derive(Debug, Clone, PartialEq)]
pub struct Prog(pub Vec<FnDeclaration>);

#[derive(Debug, PartialEq)]
pub enum Statement {
    Let(Mutable, String, Option<Type>, Option<Expr>),
    Assign(Expr, Expr),
    While(Expr, Block),
    Expr(Expr),
    Fn(FnDeclaration),
}

#[derive(Debug, PartialEq)]
pub struct Block {
    pub statements: Vec<Statement>,
    pub semi: bool,
}

#[derive(Debug, PartialEq)]
pub struct Arguments(pub Vec<Expr>);

#[derive(Debug, Clone, Copy, PartialEq, Eq, Structural)]
pub enum UnOp {
    Bang,
    Neg,
    Deref,
}

#[derive(Debug, PartialEq)]
pub enum Expr {
    Ident(String),
    Lit(Literal),
    BinOp(BinOp, Box<Expr>, Box<Expr>),
    Par(Box<Expr>),
    Call(String, Arguments),
    IfThenElse(Box<Expr>, Block, Option<Block>),
    Block(Block),
    UnOp(UnOp, Box<Expr>),
    Ref(Box<Expr>, Mutable),
}

#[derive(Debug, Clone, PartialEq)]
pub enum Literal {
    Bool(bool),
    Int(i32),
    String(String),
    Unit,
}

#[derive(Debug, Copy, Clone, PartialEq, Eq, Structural)]
pub enum BinOp {
    Add,
    Sub,
    Mul,
    Div,
    And,
    Or,
    Eq,
    Lt,
    Gt,
}

// ---------------------------------------------------------------------
// Mathematical model of the syntax tree: the same shape, with sequences in
// place of vectors and character sequences in place of strings.
// ---------------------------------------------------------------------

pub enum SLit {
    Bool(bool),
    Int(i32),
    Str(Seq<char>),
    Unit,
}

pub struct SParam {
    pub mutable: bool,
    pub id: Seq<char>,
    pub ty: Type,
}

pub enum SExpr {
    Ident(Seq<char>),
    Lit(SLit),
    BinOp(BinOp, Box<SExpr>, Box<SExpr>),
    Par(Box<SExpr>),
    Call(Seq<char>, Seq<SExpr>),
    IfThenElse(Box<SExpr>, SBlock, Option<SBlock>),
    Block(SBlock),
    UnOp(UnOp, Box<SExpr>),
    Ref(Box<SExpr>, bool),
}

pub struct SBlock {
    pub stmts: Seq<SStmt>,
    pub semi: bool,
}

pub enum SStmt {
    Let(bool, Seq<char>, Option<Type>, Option<SExpr>),
    Assign(SExpr, SExpr),
    While(SExpr, SBlock),
    Expr(SExpr),
    Fn(SFn),
}

pub struct SFn {
    pub id: Seq<char>,
    pub params: Seq<SParam>,
    pub ty: Option<Type>,
    pub body: SBlock,
}

pub open spec fn lit_model(l: Literal) -> SLit {
    match l {
        Literal::Bool(b) => SLit::Bool(b),
        Literal::Int(i) => SLit::Int(i),
        Literal::String(s) => SLit::Str(s@),
        Literal::Unit => SLit::Unit,
    }
}

pub open spec fn param_model(p: Parameter) -> SParam {
    SParam { mutable: p.mutable.0, id: p.id@, ty: p.ty }
}

pub open spec fn params_model(ps: Seq<Parameter>) -> Seq<SParam> {
    ps.map_values(|p: Parameter| param_model(p))
}

pub open spec fn expr_model(e: Expr) -> SExpr
    decreases e,
{
    match e {
        Expr::Ident(s) => SExpr::Ident(s@),
        Expr::Lit(l) => SExpr::Lit(lit_model(l)),
        Expr::BinOp(op, l, r) => SExpr::BinOp(op, Box::new(expr_model(*l)), Box::new(expr_model(*r))),
        Expr::Par(i) => SExpr::Par(Box::new(expr_model(*i))),
        Expr::Call(n, args) => SExpr::Call(n@, exprs_model(args.0@)),
        Expr::IfThenElse(c, t, eo) => SExpr::IfThenElse(
            Box::new(expr_model(*c)),
            block_model(t),
            match eo {
                Some(b) => Some(block_model(b)),
                None => None,
            },
        ),
        Expr::Block(b) => SExpr::Block(block_model(b)),
        Expr::UnOp(op, i) => SExpr::UnOp(op, Box::new(expr_model(*i))),
        Expr::Ref(i, m) => SExpr::Ref(Box::new(expr_model(*i)), m.0),
    }
}

pub open spec fn exprs_model(s: Seq<Expr>) -> Seq<SExpr>
    decreases s,
{
    if s.len() == 0 {
        Seq::empty()
    } else {
        exprs_model(s.drop_last()).push(expr_model(s.last()))
    }
}

pub open spec fn block_model(b: Block) -> SBlock
    decreases b,
{
    SBlock { stmts: stmts_model(b.statements@), semi: b.semi }
}

pub open spec fn stmts_model(s: Seq<Statement>) -> Seq<SStmt>
    decreases s,
{
    if s.len() == 0 {
        Seq::empty()
    } else {
        stmts_model(s.drop_last()).push(stmt_model(s.last()))
    }
}

pub open spec fn stmt_model(s: Statement) -> SStmt
    decreases s,
{
    match s {
        Statement::Let(m, id, ty, init) => SStmt::Let(
            m.0,
            id@,
            ty,
            match init {
                Some(e) => Some(expr_model(e)),
                None => None,
            },
        ),
        Statement::Assign(l, r) => SStmt::Assign(expr_model(l), expr_model(r)),
        Statement::While(c, b) => SStmt::While(expr_model(c), block_model(b)),
        Statement::Expr(e) => SStmt::Expr(expr_model(e)),
        Statement::Fn(f) => SStmt::Fn(fn_model(f)),
    }
}

pub open spec fn fn_model(f: FnDeclaration) -> SFn
    decreases f,
{
    SFn {
        id: f.id@,
        params: params_model(f.parameters.0@),
        ty: f.ty,
        body: block_model(f.body),
    }
}

impl View for Expr {
    type V = SExpr;

    open spec fn view(&self) -> SExpr {
        expr_model(*self)
    }
}

impl View for Literal {
    type V = SLit;

    open spec fn view(&self) -> SLit {
        lit_model(*self)
    }
}

impl View for Block {
    type V = SBlock;

    open spec fn view(&self) -> SBlock {
        block_model(*self)
    }
}

impl View for Statement {
    type V = SStmt;

    open spec fn view(&self) -> SStmt {
        stmt_model(*self)
    }
}

impl View for FnDeclaration {
    type V = SFn;

    open spec fn view(&self) -> SFn {
        fn_model(*self)
    }
}

impl View for Parameter {
    type V = SParam;

    open spec fn view(&self) -> SParam {
        param_model(*self)
    }
}

impl View for Parameters {
    type V = Seq<SParam>;

    open spec fn view(&self) -> Seq<SParam> {
        params_model(self.0@)
    }
}

impl View for Arguments {
    type V = Seq<SExpr>;

    open spec fn view(&self) -> Seq<SExpr> {
        exprs_model(self.0@)
    }
}

impl View for Prog {
    type V = Seq<SFn>;

    open spec fn view(&self) -> Seq<SFn> {
        crate::vm::fns_model(self.0@)
    }
}

impl View for Type {
    type V = Type;

    open spec fn view(&self) -> Type {
        *self
    }
}

impl View for BinOp {
    type V = BinOp;

    open spec fn view(&self) -> BinOp {
        *self
    }
}

impl View for UnOp {
    type V = UnOp;

    open spec fn view(&self) -> UnOp {
        *self
    }
}

impl BinOp {
    /// Binding strength of the operator: `*` `/` bind tightest, then `+` `-`,
    /// then the comparisons, then `&&`, and `||` loosest.
    pub open spec fn spec_priority(&self) -> u8 {
        match self {
            BinOp::Mul | BinOp::Div => 5,
            BinOp::Add | BinOp::Sub => 4,
            BinOp::Eq | BinOp::Lt | BinOp::Gt => 3,
            BinOp::And => 2,
            BinOp::Or => 1,
        }
    }

    #[verifier::when_used_as_spec(spec_priority)]
    pub fn priority(&self) -> (p: u8)
        ensures
            p == self.spec_priority(),
    {
        match self {
            BinOp::Mul => 5,
            BinOp::Div => 5,
            BinOp::Add => 4,
            BinOp::Sub => 4,
            BinOp::Eq => 3,
            BinOp::Lt => 3,
            BinOp::Gt => 3,
            BinOp::And => 2,
            BinOp::Or => 1,
        }
    }
}

impl Type {
    /// Structural equality of types.
    pub fn same(&self, other: &Type) -> (r: bool)
        ensures
            r == (*self == *other),
        decreases self,
    {
        match (self, other) {
            (Type::I32, Type::I32) => true,
            (Type::Bool, Type::Bool) => true,
            (Type::String, Type::String) => true,
            (Type::Unit, Type::Unit) => true,
            (Type::Ref(a, ma), Type::Ref(b, mb)) => ma.0 == mb.0 && a.same(b),
            _ => false,
        }
    }

    /// A copy of the type.
    pub fn duplicate(&self) -> (r: Type)
        ensures
            r == *self,
        decreases self,
    {
        match self {
            Type::I32 => Type::I32,
            Type::Bool => Type::Bool,
            Type::String => Type::String,
            Type::Unit => Type::Unit,
            Type::Ref(a, m) => Type::Ref(Box::new(a.duplicate()), *m),
        }
    }
}

impl Clone for Type {
    fn clone(&self) -> (r: Self)
        ensures
            r == *self,
    {
        self.duplicate()
    }
}

impl Literal {
    pub fn duplicate(&self) -> (r: Literal)
        ensures
            r == *self,
    {
        match self {
            Literal::Bool(b) => Literal::Bool(*b),
            Literal::Int(i) => Literal::Int(*i),
            Literal::String(s) => Literal::String(s.clone()),
            Literal::Unit => Literal::Unit,
        }
    }
}

impl Parameter {
    pub fn duplicate(&self) -> (r: Parameter)
        ensures
            r == *self,
    {
        Parameter { mutable: self.mutable, id: self.id.clone(), ty: self.ty.duplicate() }
    }
}

impl Parameters {
    pub fn duplicate(&self) -> (r: Parameters)
        ensures
            r.0@ == self.0@,
    {
        let mut v: Vec<Parameter> = Vec::new();
        let n = self.0.len();
        for i in 0..n
            invariant
                n == self.0@.len(),
                v@ == self.0@.take(i as int),
        {
            v.push(self.0[i].duplicate());
            assert(v@ == self.0@.take(i + 1));
        }
        assert(self.0@.take(n as int) == self.0@);
        Parameters(v)
    }
}

pub proof fn lemma_exprs_model_push(s: Seq<Expr>, e: Expr)
    ensures
        exprs_model(s.push(e)) == exprs_model(s).push(expr_model(e)),
{
    assert(s.push(e).drop_last() == s);
}

pub proof fn lemma_stmts_model_push(s: Seq<Statement>, e: Statement)
    ensures
        stmts_model(s.push(e)) == stmts_model(s).push(stmt_model(e)),
{
    assert(s.push(e).drop_last() == s);
}

pub proof fn lemma_exprs_model(s: Seq<Expr>)
    ensures
        exprs_model(s).len() == s.len(),
        forall|i: int| 0 <= i < s.len() ==> #[trigger] exprs_model(s)[i] == expr_model(s[i]),
    decreases s.len(),
{
    if s.len() > 0 {
        lemma_exprs_model(s.drop_last());
    }
}

pub proof fn lemma_stmts_model(s: Seq<Statement>)
    ensures
        stmts_model(s).len() == s.len(),
        forall|i: int| 0 <= i < s.len() ==> #[trigger] stmts_model(s)[i] == stmt_model(s[i]),
    decreases s.len(),
{
    if s.len() > 0 {
        lemma_stmts_model(s.drop_last());
    }
}

impl Expr {
    pub fn duplicate(&self) -> (r: Expr)
        ensures
            r@ == self@,
        decreases self,
    {
        match self {
            Expr::Ident(s) => Expr::Ident(s.clone()),
            Expr::Lit(l) => Expr::Lit(l.duplicate()),
            Expr::BinOp(op, l, r) => Expr::BinOp(*op, Box::new(l.duplicate()), Box::new(r.duplicate())),
            Expr::Par(i) => Expr::Par(Box::new(i.duplicate())),
            Expr::Call(n, args) => Expr::Call(n.clone(), args.duplicate()),
            Expr::IfThenElse(c, t, e) => {
                let c2 = c.duplicate();
                let t2 = t.duplicate();
                let e2 = match e {
                    Some(b) => Some(b.duplicate()),
                    None => None,
                };
                Expr::IfThenElse(Box::new(c2), t2, e2)
            },
            Expr::Block(b) => Expr::Block(b.duplicate()),
            Expr::UnOp(op, i) => Expr::UnOp(*op, Box::new(i.duplicate())),
            Expr::Ref(i, m) => Expr::Ref(Box::new(i.duplicate()), *m),
        }
    }
}

impl Arguments {
    pub fn duplicate(&self) -> (r: Arguments)
        ensures
            exprs_model(r.0@) == exprs_model(self.0@),
        decreases self,
    {
        let mut v: Vec<Expr> = Vec::new();
        let n = self.0.len();
        for i in 0..n
            invariant
                n == self.0@.len(),
                exprs_model(v@) == exprs_model(self.0@.take(i as int)),
        {
            let e = self.0[i].duplicate();
            proof {
                lemma_exprs_model_push(v@, e);
                lemma_exprs_model_push(self.0@.take(i as int), self.0@[i as int]);
                assert(self.0@.take(i as int).push(self.0@[i as int]) == self.0@.take(i + 1));
            }
            v.push(e);
        }
        assert(self.0@.take(n as int) == self.0@);
        Arguments(v)
    }
}

impl Block {
    pub fn duplicate(&self) -> (r: Block)
        ensures
            block_model(r) == block_model(*self),
        decreases self,
    {
        let mut v: Vec<Statement> = Vec::new();
        let n = self.statements.len();
        for i in 0..n
            invariant
                n == self.statements@.len(),
                stmts_model(v@) == stmts_model(self.statements@.take(i as int)),
        {
            let e = self.statements[i].duplicate();
            proof {
                lemma_stmts_model_push(v@, e);
                lemma_stmts_model_push(self.statements@.take(i as int), self.statements@[i as int]);
                assert(self.statements@.take(i as int).push(self.statements@[i as int])
                    == self.statements@.take(i + 1));
            }
            v.push(e);
        }
        assert(self.statements@.take(n as int) == self.statements@);
        Block { statements: v, semi: self.semi }
    }
}

impl Statement {
    pub fn duplicate(&self) -> (r: Statement)
        ensures
            stmt_model(r) == stmt_model(*self),
        decreases self,
    {
        match self {
            Statement::Let(m, id, ty, init) => {
                let ty2 = match ty {
                    Some(t) => Some(t.duplicate()),
                    None => None,
                };
                let init2 = match init {
                    Some(e) => Some(e.duplicate()),
                    None => None,
                };
                Statement::Let(*m, id.clone(), ty2, init2)
            },
            Statement::Assign(l, r) => Statement::Assign(l.duplicate(), r.duplicate()),
            Statement::While(c, b) => Statement::While(c.duplicate(), b.duplicate()),
            Statement::Expr(e) => Statement::Expr(e.duplicate()),
            Statement::Fn(f) => Statement::Fn(f.duplicate()),
        }
    }
}

impl FnDeclaration {
    pub fn duplicate(&self) -> (r: FnDeclaration)
        ensures
            fn_model(r) == fn_model(*self),
        decreases self,
    {
        let ty2 = match &self.ty {
            Some(t) => Some(t.duplicate()),
            None => None,
        };
        FnDeclaration {
            id: self.id.clone(),
            parameters: self.parameters.duplicate(),
            ty: ty2,
            body: self.body.duplicate(),
        }
    }
}

impl Clone for Expr {
    fn clone(&self) -> (r: Self)
        ensures
            r@ == self@,
    {
        self.duplicate()
    }
}

impl Clone for Block {
    fn clone(&self) -> (r: Self)
        ensures
            block_model(r) == block_model(*self),
    {
        self.duplicate()
    }
}

impl Clone for Statement {
    fn clone(&self) -> (r: Self)
        ensures
            stmt_model(r) == stmt_model(*self),
    {
        self.duplicate()
    }
}

impl Clone for FnDeclaration {
    fn clone(&self) -> (r: Self)
        ensures
            fn_model(r) == fn_model(*self),
    {
        self.duplicate()
    }
}

impl Clone for Arguments {
    fn clone(&self) -> (r: Self)
        ensures
            exprs_model(r.0@) == exprs_model(self.0@),
    {
        self.duplicate()
    }
}

impl Block {
    pub fn new(statements: Vec<Statement>, semi: bool) -> (b: Self)
        ensures
            b.statements == statements,
            b.semi == semi,
    {
        Block { statements, semi }
    }
}

impl Expr {
    pub fn bin_op(o: BinOp, left: Expr, right: Expr) -> (e: Self)
        ensures
            e == Expr::BinOp(o, Box::new(left), Box::new(right)),
    {
        Expr::BinOp(o, Box::new(left), Box::new(right))
    }
}

} // verus!
