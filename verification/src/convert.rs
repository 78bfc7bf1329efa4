use crate::ast::{Expr, Literal, Statement, Type};
use crate::vm::Val;
use vstd::prelude::*;
use vstd::std_specs::convert::FromSpecImpl;

verus! {

impl From<i32> for Literal {
    fn from(v: i32) -> (r: Self) {
        Literal::Int(v)
    }
}

impl FromSpecImpl<i32> for Literal {
    open spec fn obeys_from_spec() -> bool {
        true
    }

    open spec fn from_spec(v: i32) -> Self {
        Literal::Int(v)
    }
}

impl From<bool> for Literal {
    fn from(v: bool) -> (r: Self) {
        Literal::Bool(v)
    }
}

impl FromSpecImpl<bool> for Literal {
    open spec fn obeys_from_spec() -> bool {
        true
    }

    open spec fn from_spec(v: bool) -> Self {
        Literal::Bool(v)
    }
}

impl From<()> for Literal {
    fn from(v: ()) -> (r: Self) {
        Literal::Unit
    }
}

impl FromSpecImpl<()> for Literal {
    open spec fn obeys_from_spec() -> bool {
        true
    }

    open spec fn from_spec(v: ()) -> Self {
        Literal::Unit
    }
}

impl From<String> for Literal {
    fn from(v: String) -> (r: Self) {
        Literal::String(v)
    }
}

impl FromSpecImpl<String> for Literal {
    open spec fn obeys_from_spec() -> bool {
        true
    }

    open spec fn from_spec(v: String) -> Self {
        Literal::String(v)
    }
}

impl From<i32> for Expr {
    fn from(v: i32) -> (r: Self) {
        Expr::Lit(Literal::Int(v))
    }
}

impl FromSpecImpl<i32> for Expr {
    open spec fn obeys_from_spec() -> bool {
        true
    }

    open spec fn from_spec(v: i32) -> Self {
        Expr::Lit(Literal::Int(v))
    }
}

impl From<bool> for Expr {
    fn from(v: bool) -> (r: Self) {
        Expr::Lit(Literal::Bool(v))
    }
}

impl FromSpecImpl<bool> for Expr {
    open spec fn obeys_from_spec() -> bool {
        true
    }

    open spec fn from_spec(v: bool) -> Self {
        Expr::Lit(Literal::Bool(v))
    }
}

impl From<()> for Expr {
    fn from(v: ()) -> (r: Self) {
        Expr::Lit(Literal::Unit)
    }
}

impl FromSpecImpl<()> for Expr {
    open spec fn obeys_from_spec() -> bool {
        true
    }

    open spec fn from_spec(v: ()) -> Self {
        Expr::Lit(Literal::Unit)
    }
}

impl From<String> for Expr {
    fn from(v: String) -> (r: Self) {
        Expr::Lit(Literal::String(v))
    }
}

impl FromSpecImpl<String> for Expr {
    open spec fn obeys_from_spec() -> bool {
        true
    }

    open spec fn from_spec(v: String) -> Self {
        Expr::Lit(Literal::String(v))
    }
}

impl From<Literal> for Expr {
    fn from(v: Literal) -> (r: Self) {
        Expr::Lit(v)
    }
}

impl FromSpecImpl<Literal> for Expr {
    open spec fn obeys_from_spec() -> bool {
        true
    }

    open spec fn from_spec(v: Literal) -> Self {
        Expr::Lit(v)
    }
}

impl From<i32> for Type {
    /// The type of a literal made from a `i32`.
    fn from(v: i32) -> (r: Self) {
        Type::I32
    }
}

impl FromSpecImpl<i32> for Type {
    open spec fn obeys_from_spec() -> bool {
        true
    }

    open spec fn from_spec(v: i32) -> Self {
        Type::I32
    }
}

impl From<bool> for Type {
    /// The type of a literal made from a `bool`.
    fn from(v: bool) -> (r: Self) {
        Type::Bool
    }
}

impl FromSpecImpl<bool> for Type {
    open spec fn obeys_from_spec() -> bool {
        true
    }

    open spec fn from_spec(v: bool) -> Self {
        Type::Bool
    }
}

impl From<()> for Type {
    /// The type of a literal made from a `()`.
    fn from(v: ()) -> (r: Self) {
        Type::Unit
    }
}

impl FromSpecImpl<()> for Type {
    open spec fn obeys_from_spec() -> bool {
        true
    }

    open spec fn from_spec(v: ()) -> Self {
        Type::Unit
    }
}

impl From<String> for Type {
    /// The type of a literal made from a `String`.
    fn from(v: String) -> (r: Self) {
        Type::String
    }
}

impl FromSpecImpl<String> for Type {
    open spec fn obeys_from_spec() -> bool {
        true
    }

    open spec fn from_spec(v: String) -> Self {
        Type::String
    }
}

impl From<Literal> for Val {
    fn from(v: Literal) -> (r: Self) {
        Val::Lit(v)
    }
}

impl FromSpecImpl<Literal> for Val {
    open spec fn obeys_from_spec() -> bool {
        true
    }

    open spec fn from_spec(v: Literal) -> Self {
        Val::Lit(v)
    }
}

impl From<i32> for Val {
    fn from(v: i32) -> (r: Self) {
        Val::Lit(Literal::Int(v))
    }
}

impl FromSpecImpl<i32> for Val {
    open spec fn obeys_from_spec() -> bool {
        true
    }

    open spec fn from_spec(v: i32) -> Self {
        Val::Lit(Literal::Int(v))
    }
}

impl From<bool> for Val {
    fn from(v: bool) -> (r: Self) {
        Val::Lit(Literal::Bool(v))
    }
}

impl FromSpecImpl<bool> for Val {
    open spec fn obeys_from_spec() -> bool {
        true
    }

    open spec fn from_spec(v: bool) -> Self {
        Val::Lit(Literal::Bool(v))
    }
}

impl From<()> for Val {
    fn from(v: ()) -> (r: Self) {
        Val::Lit(Literal::Unit)
    }
}

impl FromSpecImpl<()> for Val {
    open spec fn obeys_from_spec() -> bool {
        true
    }

    open spec fn from_spec(v: ()) -> Self {
        Val::Lit(Literal::Unit)
    }
}

impl From<Expr> for Statement {
    fn from(v: Expr) -> (r: Self) {
        Statement::Expr(v)
    }
}

impl FromSpecImpl<Expr> for Statement {
    open spec fn obeys_from_spec() -> bool {
        true
    }

    open spec fn from_spec(v: Expr) -> Self {
        Statement::Expr(v)
    }
}

} // verus!
