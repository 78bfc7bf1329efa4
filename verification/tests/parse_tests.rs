use rnr::ast::{
    Arguments, BinOp, Block, Expr, FnDeclaration, Literal, Mutable, Parameter, Parameters, Prog,
    Statement, Type, UnOp,
};
use rnr::parse::{parse, try_parse, Parse};

fn assert_parse_fail<T: Parse>(s: &str) {
    assert!(try_parse::<T>(s).is_err(), "expected a parse error for {:?}", s);
}

#[test]
fn parse_lit_int() {
    let lit: Literal = parse("1");
    assert_eq!(lit, Literal::Int(1));
}

#[test]
fn parse_lit_neg_int() {
    let lit: Literal = parse("-1");
    assert_eq!(lit, Literal::Int(-1));
}

#[test]
fn parse_lit_bool_false() {
    let lit: Literal = parse("false");
    assert_eq!(lit, Literal::Bool(false));
}

#[test]
fn parse_lit_string() {
    let lit: Literal = parse("\"abba\"");
    assert_eq!(lit, Literal::String("abba".to_string()));
}

#[test]
fn parse_lit_fail() {
    assert_parse_fail::<Literal>("a");
    assert_parse_fail::<Literal>("-");
    assert_parse_fail::<Literal>("'hello'");
}

#[test]
fn add() {
    let op: BinOp = parse("+");
    assert_eq!(op, BinOp::Add);
}

#[test]
fn sub() {
    let op: BinOp = parse("-");
    assert_eq!(op, BinOp::Sub);
}

#[test]
fn mul() {
    let op: BinOp = parse("*");
    assert_eq!(op, BinOp::Mul);
}

#[test]
fn div() {
    let op: BinOp = parse("/");
    assert_eq!(op, BinOp::Div);
}

#[test]
fn and() {
    let op: BinOp = parse("&&");
    assert_eq!(op, BinOp::And);
}

#[test]
fn or() {
    let op: BinOp = parse("||");
    assert_eq!(op, BinOp::Or);
}

#[test]
fn eq() {
    let op: BinOp = parse("==");
    assert_eq!(op, BinOp::Eq);
}

#[test]
fn lt() {
    let op: BinOp = parse("<");
    assert_eq!(op, BinOp::Lt);
}

#[test]
fn gt() {
    let op: BinOp = parse(">");
    assert_eq!(op, BinOp::Gt);
}

#[test]
fn parse_op_fail() {
    assert_parse_fail::<BinOp>("1");
    assert_parse_fail::<BinOp>("x");
    assert_parse_fail::<BinOp>(".");
}

#[test]
fn bang() {
    let op: UnOp = parse("!");
    assert_eq!(op, UnOp::Bang);
}

#[test]
fn neg() {
    let op: UnOp = parse("-");
    assert_eq!(op, UnOp::Neg);
}

#[test]
fn parse_unop_fail() {
    assert_parse_fail::<UnOp>(".");
    assert_parse_fail::<UnOp>("/");
    assert_parse_fail::<UnOp>("x");
    assert_parse_fail::<UnOp>("1");
    assert_parse_fail::<UnOp>("i32");
    assert_parse_fail::<UnOp>("true");
    assert_parse_fail::<UnOp>("()");
}

#[test]
fn literal() {
    parse::<Expr>("123");
    parse::<Expr>("true");
    parse::<Expr>("()");
    parse::<Expr>("\"hello world\"");
}

#[test]
fn binary_op() {
    parse::<Expr>("1 + 2");
    parse::<Expr>("1 - 2");
    parse::<Expr>("1 * 2");
    parse::<Expr>("1 / 2");
    parse::<Expr>("1 + 2 + 3");
    parse::<Expr>("1 * 2 - 3 / 1");
    parse::<Expr>("(1) + (2)");
    parse::<Expr>("(1 + 2) + (3 + 4)");
    parse::<Expr>("(1 * 2) - (3 / 4)");
    parse::<Expr>("true || false");
    parse::<Expr>("true && false");
    parse::<Expr>("true && (false || true) && false");
}

#[test]
fn binary_op_comparisons() {
    parse::<Expr>("1 == 2");
    parse::<Expr>("1 < 2");
    parse::<Expr>("1 > 2");
    parse::<Expr>("1 + (2 * 3) == (2 - 3) / 4");
    parse::<Expr>("1 + 2 < 2 * 3");
    parse::<Expr>("1 + 2 > (2 - 1)");
    parse::<Expr>("true == true");
    parse::<Expr>("true || false == true && (false || true)");
}

#[test]
fn unary_op() {
    parse::<Expr>("-(1)");
    parse::<Expr>("-(1+2)");
    parse::<Expr>("-(2 * 3 / 2)");
    parse::<Expr>("!true");
    parse::<Expr>("!true && true");
    parse::<Expr>("!true || !false");
    parse::<Expr>("!(true && !true)");
}

#[test]
fn identifier() {
    parse::<Expr>("my_variable");
    parse::<Expr>("var");
    parse::<Expr>("var123");
    parse::<Expr>("_var_123_");
}

#[test]
fn operators_and_identifiers() {
    parse::<Expr>("-my_variable");
    parse::<Expr>("!var");
    parse::<Expr>("321 + var123 - 123");
    parse::<Expr>("(1 - _var_123_ * 2) == a && (!b || true) || !a");
}

// The failing inputs of the expression, call, declaration and statement
// grammars.
#[test]
fn parse_fail_tests() {
    assert_parse_fail::<Expr>("12 34");
    assert_parse_fail::<Expr>("+");
    assert_parse_fail::<Expr>("1+");
    assert_parse_fail::<Expr>("1++2");
    assert_parse_fail::<Expr>("1+2+3+4+");
    assert_parse_fail::<Expr>("(1+2+3+4");
    assert_parse_fail::<Expr>("1+2+3+4)");
    assert_parse_fail::<Expr>("1)+2+(3+4");
    assert_parse_fail::<Expr>("3(1+2)");
    assert_parse_fail::<Expr>("(1+2)3");
    assert_parse_fail::<Expr>("(1+2)(3+4)");
    assert_parse_fail::<Expr>("12!34");
    assert_parse_fail::<Expr>("true ! false");
    assert_parse_fail::<Expr>("(2 * 4) - ");

    assert_parse_fail::<Expr>("foo(,)");
    assert_parse_fail::<Expr>("foo(+)");
    assert_parse_fail::<Expr>("foo(1+)");
    assert_parse_fail::<Expr>("foo(2 * 4, -)");

    assert_parse_fail::<Parameter>("123");
    assert_parse_fail::<Parameter>("i32");
    assert_parse_fail::<Parameter>("a = i32");
    assert_parse_fail::<FnDeclaration>("fn 123() {}");
    assert_parse_fail::<FnDeclaration>("fn foo(a, b: i32) {}");
    assert_parse_fail::<FnDeclaration>("fn foo(): i32 {}");

    assert_parse_fail::<Statement>("let a i32;");
    assert_parse_fail::<Statement>("let a: I32;");
    assert_parse_fail::<Statement>("let a: i32 == 3;");
    assert_parse_fail::<Statement>("let 123;");
    assert_parse_fail::<Statement>("let 123: i32;");
    assert_parse_fail::<Statement>("123_var = 3;");
    assert_parse_fail::<Statement>("while true { let x }");
    assert_parse_fail::<Statement>("while {}");
}

fn add_e<T1: Into<Expr>, T2: Into<Expr>>(left: T1, right: T2) -> Expr {
    Expr::bin_op(BinOp::Add, left.into(), right.into())
}

fn mul_e<T1: Into<Expr>, T2: Into<Expr>>(left: T1, right: T2) -> Expr {
    Expr::bin_op(BinOp::Mul, left.into(), right.into())
}

fn or_e<T1: Into<Expr>, T2: Into<Expr>>(left: T1, right: T2) -> Expr {
    Expr::bin_op(BinOp::Or, left.into(), right.into())
}

fn and_e<T1: Into<Expr>, T2: Into<Expr>>(left: T1, right: T2) -> Expr {
    Expr::bin_op(BinOp::And, left.into(), right.into())
}

fn eq_e<T1: Into<Expr>, T2: Into<Expr>>(left: T1, right: T2) -> Expr {
    Expr::bin_op(BinOp::Eq, left.into(), right.into())
}

fn paren(expr: Expr) -> Expr {
    Expr::Par(Box::new(expr))
}

#[test]
fn precedence_and_associativity_1() {
    let expr: Expr = parse("1+2+3");
    let expected = add_e(add_e(1, 2), 3);
    assert_eq!(expr, expected);
}

#[test]
fn precedence_and_associativity_2() {
    let expr: Expr = parse("1+2*3");
    let expected = add_e(1, mul_e(2, 3));
    assert_eq!(expr, expected);
}

#[test]
fn precedence_and_associativity_3() {
    let expr: Expr = parse("1+2*3+4");
    let expected = add_e(add_e(1, mul_e(2, 3)), 4);
    assert_eq!(expr, expected);
}

#[test]
fn precedence_and_associativity_4() {
    let expr: Expr = parse("1+2*3 == 4");
    let expected = eq_e(add_e(1, mul_e(2, 3)), 4);
    assert_eq!(expr, expected);
}

#[test]
fn precedence_and_associativity_5() {
    let expr: Expr = parse("1+2*3 == 1+2*3");
    let expected = eq_e(add_e(1, mul_e(2, 3)), add_e(1, mul_e(2, 3)));
    assert_eq!(expr, expected);
}

#[test]
fn precedence_and_associativity_6() {
    let expr: Expr = parse("1*2+3*4+5*6");
    let expected = add_e(add_e(mul_e(1, 2), mul_e(3, 4)), mul_e(5, 6));
    assert_eq!(expr, expected);
}

#[test]
fn precedence_and_associativity_7() {
    let expr: Expr = parse("1+2 * 3+4 == 5*(6+7) + 8*9");
    let left = add_e(add_e(1, mul_e(2, 3)), 4);
    let right = add_e(mul_e(5, paren(add_e(6, 7))), mul_e(8, 9));
    let expected = eq_e(left, right);
    assert_eq!(expr, expected);
}

#[test]
fn precedence_and_associativity_123() {
    let expr: Expr = parse("true || true && true == true");
    let expected = or_e(true, and_e(true, eq_e(true, true)));
    assert_eq!(expr, expected);
}

#[test]
fn precedence_and_associativity_132() {
    let expr: Expr = parse("true || true == true && true");
    let expected = or_e(true, and_e(eq_e(true, true), true));
    assert_eq!(expr, expected);
}

#[test]
fn precedence_and_associativity_213() {
    let expr: Expr = parse("true && true || true == true");
    let expected = or_e(and_e(true, true), eq_e(true, true));
    assert_eq!(expr, expected);
}

#[test]
fn precedence_and_associativity_231() {
    let expr: Expr = parse("true && true == true || true");
    let expected = or_e(and_e(true, eq_e(true, true)), true);
    assert_eq!(expr, expected);
}

#[test]
fn precedence_and_associativity_312() {
    let expr: Expr = parse("true == true || true && true");
    let expected = or_e(eq_e(true, true), and_e(true, true));
    assert_eq!(expr, expected);
}

#[test]
fn precedence_and_associativity_321() {
    let expr: Expr = parse("true == true && true || true");
    let expected = or_e(and_e(eq_e(true, true), true), true);
    assert_eq!(expr, expected);
}

#[test]
#[allow(unused_must_use)]
fn test_if_then_else_nested_rust() {
    if false {
        2;
    } else {
        if true {
            3 + 5;
        }
    };
}

#[test]
#[allow(unused_must_use)]
fn test_if_then_else_nested_rust2() {
    if false {
        2;
    } else if true {
        3 + 5;
    };
}

#[test]
fn test_if_then_else_nested2() {
    let src = "
        if false {
            2;
        } else if true {
            3 + 5;
        }";
    let _e: Expr = parse(src);
}

#[test]
fn test_if_then_else_nested() {
    let src = "
        if false {
            2;
        } else {
            if true {
                3 + 5;
            }
        }";
    let _e: Expr = parse(src);
}

#[test]
fn test_if_then_else_nested3() {
    let src = "
        if false {
            2;
        } else if true {
            3 + 5;
        } else if false {
            let a : i32 = 0;
        } else {
            5
        }
        ";
    let _e: Expr = parse(src);
}

#[test]
fn parse_test_expr_if_then_else() {
    let src = "if a > 0 {1} else {2}";
    let _e: Expr = parse(src);
}

#[test]
fn parse_type_i32() {
    let typ: Type = parse("i32");
    assert_eq!(typ, Type::I32);
}

#[test]
fn parse_type_bool() {
    let typ: Type = parse("bool");
    assert_eq!(typ, Type::Bool);
}

#[test]
fn parse_type_unit() {
    let typ: Type = parse("()");
    assert_eq!(typ, Type::Unit);
}

#[test]
fn parse_type_ref_i32() {
    let typ: Type = parse("&i32");
    assert_eq!(typ, Type::Ref(Box::new(Type::I32), Mutable(false)));
}

#[test]
fn parse_type_ref_mut_i32() {
    let typ: Type = parse("&mut i32");
    assert_eq!(typ, Type::Ref(Box::new(Type::I32), Mutable(true)));
}

#[test]
fn parse_type_ref_bool() {
    let typ: Type = parse("&bool");
    assert_eq!(typ, Type::Ref(Box::new(Type::Bool), Mutable(false)));
}

#[test]
fn parse_type_ref_ref_i32() {
    let typ: Type = parse("&&i32");
    assert_eq!(
        typ,
        Type::Ref(
            Box::new(Type::Ref(Box::new(Type::I32), Mutable(false))),
            Mutable(false)
        )
    );
}

#[test]
fn parse_type_fail() {
    assert_parse_fail::<Type>("u32");
    assert_parse_fail::<Type>("I32");
    assert_parse_fail::<Type>("123");
    assert_parse_fail::<Type>("boolean");
    assert_parse_fail::<Type>("Bool");
    assert_parse_fail::<Type>("true");
    assert_parse_fail::<Type>("false");
}

#[test]
fn args() {
    parse::<Arguments>("(1)");
    parse::<Arguments>("(a)");
    parse::<Arguments>("(a, b)");
    parse::<Arguments>("(a + 1, b * 2)");
    parse::<Arguments>("(1, 2, 3 + 4)");
}

#[test]
fn function_call() {
    parse::<Expr>("foo()");
    parse::<Expr>("foo(1)");
    parse::<Expr>("foo(true)");
    parse::<Expr>("foo(true, false)");
    parse::<Expr>("foo(true || false)");
    parse::<Expr>("foo(1 + 2)");
    parse::<Expr>("foo(1, 2)");
    parse::<Expr>("foo(1, 2 + 2)");
    parse::<Expr>("foo(my_variable)");
    parse::<Expr>("foo(a, b, c)");
    parse::<Expr>("foo(\"passing a string\")");
    parse::<Expr>("ident({1}, {let a = 6; a },)");
}

#[test]
fn function_call_extra_comma() {
    parse::<Expr>("foo(1,)");
    parse::<Expr>("foo(1, 2,)");
    parse::<Expr>("foo(1, 2 + 2,)");
    parse::<Expr>("foo(a,)");
    parse::<Expr>("foo(a, b, c,)");
    parse::<Expr>("foo(true, false,)");
}

#[test]
fn param() {
    parse::<Parameter>("a: i32");
    parse::<Parameter>("b: bool");
}

#[test]
fn params() {
    parse::<Parameters>("(a: i32)");
    parse::<Parameters>("(a: i32,)");
    parse::<Parameters>("(b: bool)");
    parse::<Parameters>("(a: i32, b: bool)");
    parse::<Parameters>("(a: i32, b: bool,)");
}

#[test]
fn fn_no_type() {
    parse::<FnDeclaration>("fn foo() {}");
    parse::<FnDeclaration>("fn foo(a: i32, b: bool) {}");
}

#[test]
fn fn_with_type() {
    parse::<FnDeclaration>("fn foo() -> i32 {}");
    parse::<FnDeclaration>("fn foo(a: i32, b: bool) -> i32 {}");
    parse::<FnDeclaration>("fn foo() -> () {}");
    parse::<FnDeclaration>("fn foo(a: i32, b: bool) -> () {}");
    parse::<FnDeclaration>("fn foo() -> bool {}");
    parse::<FnDeclaration>("fn foo(a: i32, b: bool) -> bool {}");
}

#[test]
fn test_println() {
    let src = "println!(\"{}\", 1)";
    let _expr: Expr = parse(src);
}

#[test]
fn test_statement_let_ty_expr() {
    let stmt: Statement = parse("let a: i32 = 2");
    let expected = Statement::Let(
        Mutable(false),
        "a".to_string(),
        Some(Type::I32),
        Some(Expr::Lit(Literal::Int(2))),
    );
    assert_eq!(stmt, expected);
}

#[test]
fn test_statement_let_mut_ty_expr() {
    let stmt: Statement = parse("let mut a: i32 = 2");
    let expected = Statement::Let(
        Mutable(true),
        "a".to_string(),
        Some(Type::I32),
        Some(Expr::Lit(Literal::Int(2))),
    );
    assert_eq!(stmt, expected);
}

#[test]
fn test_statement_let() {
    let stmt: Statement = parse("let a");
    let expected = Statement::Let(Mutable(false), "a".to_string(), None, None);
    assert_eq!(stmt, expected);
}

#[test]
fn test_statement_assign() {
    let stmt: Statement = parse("a = false");
    let expected = Statement::Assign(
        Expr::Ident("a".to_string()),
        Expr::Lit(Literal::Bool(false)),
    );
    assert_eq!(stmt, expected);
}

#[test]
fn test_statement_while() {
    let stmt: Statement = parse("while a {}");
    let expected = Statement::While(
        Expr::Ident("a".to_string()),
        Block {
            statements: vec![],
            semi: false,
        },
    );
    assert_eq!(stmt, expected);
}

#[test]
fn test_statement_expr() {
    let stmt: Statement = parse("a");
    assert_eq!(stmt, Statement::Expr(Expr::Ident("a".to_string())));
}

#[test]
fn test_block_expr_fail() {
    let stmt = try_parse::<Statement>("{ let a = }");
    assert!(stmt.is_err());
}

#[test]
fn test_block_semi() {
    let bl: Block = try_parse(
        "
        {
            let a : i32 = 1;
            a = 5;
            a + 5;
        }",
    )
    .unwrap();
    assert_eq!(bl.statements.len(), 3);
    assert!(bl.semi);
}

#[test]
fn test_block_no_semi() {
    let bl: Block = try_parse(
        "
        {
            let a : i32 = 1;
            a = 5;
            a + 5
        }",
    )
    .unwrap();
    assert_eq!(bl.statements.len(), 3);
    assert!(!bl.semi);
}

#[test]
fn test_block_fn() {
    let bl: Block = try_parse(
        "
        {
            let a : i32 = 1;
            fn t() {}
            a = 5;
            a + 5
        }",
    )
    .unwrap();
    assert_eq!(bl.statements.len(), 4);
    assert!(!bl.semi);
}

#[test]
fn test_block_while() {
    let bl: Block = try_parse(
        "
        {
            let a : i32 = 1;
            while true {}
            a = 5;
            a + 5
        }",
    )
    .unwrap();
    assert_eq!(bl.statements.len(), 4);
    assert!(!bl.semi);
}

#[test]
fn test_block2() {
    let bl: Block = try_parse("{ let b : bool = false; b = true }").unwrap();
    assert_eq!(bl.statements.len(), 2);
    assert!(!bl.semi);
}

#[test]
fn test_expr_block() {
    let e = try_parse::<Expr>(
        "
        {
            12
        }
        ",
    );
    assert!(e.is_ok());
}

#[test]
fn test_block_fail() {
    let bl = try_parse::<Block>("{ let a = 1 a = 5 }");
    assert!(bl.is_err());
}

#[test]
fn parse_test_prog() {
    let pr = try_parse::<Prog>(
        "
        fn a(a: i32) { let b = a; }
        fn b() -> i32 { 3 }

        fn main() {

        }
        ",
    );
    assert!(pr.is_ok());
}

#[test]
fn test_ref_de_ref() {
    let pr = try_parse::<Prog>(
        "
        fn main() {
            let a = &1;
            let mut a = &mut 1;
            *a = *a + 1;
            println!(\"{}\", *a);
        }
        ",
    );
    assert!(pr.is_ok());
}

// A negative literal in an expression is one literal; `-` before anything
// else is the unary operator.
#[test]
fn parse_negative_literal_and_neg() {
    let e: Expr = parse("-1");
    assert_eq!(e, Expr::Lit(Literal::Int(-1)));
    let e: Expr = parse("-x");
    assert_eq!(e, Expr::UnOp(UnOp::Neg, Box::new(Expr::Ident("x".to_string()))));
    let e: Expr = parse("1 - -2");
    assert_eq!(e, Expr::bin_op(BinOp::Sub, Expr::Lit(Literal::Int(1)), Expr::Lit(Literal::Int(-2))));
    let l: Literal = parse("-2147483648");
    assert_eq!(l, Literal::Int(-2147483648));
    assert_parse_fail::<Literal>("2147483648");
}

// `else if` becomes an else block holding the nested `if`.
#[test]
fn parse_else_if_shape() {
    let e: Expr = parse("if a { 1 } else if b { 2 }");
    let inner = Expr::IfThenElse(
        Box::new(Expr::Ident("b".to_string())),
        Block::new(vec![Statement::Expr(Expr::Lit(Literal::Int(2)))], false),
        None,
    );
    let expected = Expr::IfThenElse(
        Box::new(Expr::Ident("a".to_string())),
        Block::new(vec![Statement::Expr(Expr::Lit(Literal::Int(1)))], false),
        Some(Block::new(vec![Statement::Expr(inner)], false)),
    );
    assert_eq!(e, expected);
}

// References, macro calls and comments.
#[test]
fn parse_refs_macros_comments() {
    let e: Expr = parse("&&mut x");
    let expected = Expr::Ref(
        Box::new(Expr::Ref(Box::new(Expr::Ident("x".to_string())), Mutable(true))),
        Mutable(false),
    );
    assert_eq!(e, expected);
    let e: Expr = parse("println!(\"a\\n\", 1) // trailing comment");
    assert_eq!(
        e,
        Expr::Call(
            "println!".to_string(),
            Arguments(vec![
                Expr::Lit(Literal::String("a\n".to_string())),
                Expr::Lit(Literal::Int(1))
            ])
        )
    );
    assert_parse_fail::<Expr>("fn");
    assert_parse_fail::<Expr>("\"unterminated");
}

// Block comments (which nest) separate tokens, `_` may stand between the
// digits of an integer, and integers may be written in hexadecimal.
#[test]
fn parse_block_comments_and_digit_separators() {
    let e: Expr = rnr::parse::parse("/* one */ 1_000 + /* a /* b */ c */ 2");
    assert_eq!(e, Expr::bin_op(BinOp::Add, Expr::Lit(Literal::Int(1000)), Expr::Lit(Literal::Int(2))));
    assert!(rnr::parse::try_parse::<Expr>("1 /* open").is_err());
    let e: Expr = rnr::parse::parse("0x1F + 0xff_ff");
    assert_eq!(e, Expr::bin_op(BinOp::Add, Expr::Lit(Literal::Int(31)), Expr::Lit(Literal::Int(65535))));
    assert!(rnr::parse::try_parse::<Expr>("0x").is_err());
    assert!(rnr::parse::try_parse::<Expr>("0xfg").is_err());
}
