use rnr::ast::{BinOp, Block, Expr, FnDeclaration, Literal, Mutable, Prog, Statement, Type};
use rnr::parse::{parse, try_parse};

#[test]
fn display_literal() {
    println!("{}", Literal::Int(3).to_string());
    println!("{}", Literal::Bool(false).to_string());
    println!("{}", Literal::Unit.to_string());
    assert_eq!(Literal::Int(3).to_string(), "3");
    assert_eq!(Literal::Bool(false).to_string(), "false");
    assert_eq!(Literal::Unit.to_string(), "()");
}

#[test]
fn display_type() {
    assert_eq!(Type::I32.to_string(), "i32");
    assert_eq!(Type::Bool.to_string(), "bool");
    assert_eq!(Type::Unit.to_string(), "()");
    assert_eq!(Type::String.to_string(), "String");
}

#[test]
fn display_if_then_else() {
    let e: Expr = try_parse(
        "
    if a {
        let a : i32 = false;
        0
    } else {
        if a == 5 { b = 8 };
        while b {
            e;
        }
        b
    }
    ",
    )
    .unwrap();
    println!("ast:\n{:?}", e);

    println!("pretty:\n{}", e.to_string());
}

#[test]
fn display_while() {
    let e: Statement = try_parse(
        "
    while a == 9 {
        let b : i32 = 7;
    }
    ",
    )
    .unwrap();
    println!("ast:\n{:?}", e);

    println!("pretty:\n{}", e.to_string());
}

#[test]
fn display_expr() {
    println!("{}", Expr::Ident("a".to_string()).to_string());
    println!("{}", Expr::Lit(Literal::Int(7)).to_string());
    println!("{}", Expr::Lit(Literal::Bool(false)).to_string());
    let e = Expr::BinOp(
        BinOp::Add,
        Box::new(Expr::Ident("a".to_string())),
        Box::new(Expr::Lit(Literal::Int(7))),
    );
    println!("{}", e.to_string());
    assert_eq!(e.to_string(), "a + 7");
}

#[test]
fn parse_display_expr() {
    let e: Expr = try_parse("a + 7").unwrap();
    println!("e {}", e.to_string());
}

#[test]
fn parse_display_if() {
    let e: Expr = try_parse("if a > 5 {5}").unwrap();
    println!("e {}", e.to_string());
}

// Exact texts of the printer for each kind of syntax.
#[test]
fn display_texts() {
    let e: Expr = parse("if a > 5 { let b = &mut x; 5 } else { f(1, \"s\", -2); }");
    assert_eq!(
        e.to_string(),
        "if a > 5 { let b = &mut x; 5 } else { f(1, \"s\", -2); }"
    );
    let s: Statement = parse("let mut a : &i32 = *r");
    assert_eq!(s.to_string(), "let mut a : &i32 = *r");
    let b: Block = parse("{}");
    assert_eq!(b.to_string(), "{ }");
    let p: Prog = parse("fn f(mut x: i32, y: bool) -> i32 { while y { x = x + 1 } x }");
    assert_eq!(
        p.to_string(),
        "fn f(mut x: i32, y: bool) -> i32 { while y { x = x + 1 }; x }\n\n"
    );
    assert_eq!(Type::Ref(Box::new(Type::I32), Mutable(true)).to_string(), "&mut i32");
    assert_eq!(Mutable(true).to_string(), "mut ");
    assert_eq!(Literal::Int(-2147483648).to_string(), "-2147483648");
    assert_eq!(Literal::String("x".to_string()).to_string(), "\"x\"");
}

// What the printer writes of an expression parses back to the same
// expression.
#[test]
fn display_parse_round_trip() {
    for src in ["1 + 2 * 3 == (4 - x) / 2 && !b || f(a, -1)", "{ let a = 1; a }", "if c { 1 } else { 2 }"] {
        let e: Expr = parse(src);
        let back: Expr = parse(&e.to_string());
        assert_eq!(back, e);
    }
}

// Printing a type and reading the text back gives the type again, also
// where two `&` in a row print as `&&`.
#[test]
fn type_round_trip_examples() {
    let tys = vec![
        Type::I32,
        Type::Unit,
        Type::Ref(Box::new(Type::Ref(Box::new(Type::I32), Mutable(false))), Mutable(false)),
        Type::Ref(Box::new(Type::Ref(Box::new(Type::Bool), Mutable(true))), Mutable(false)),
        Type::Ref(Box::new(Type::Ref(Box::new(Type::String), Mutable(false))), Mutable(true)),
        Type::Ref(
            Box::new(Type::Ref(Box::new(Type::Ref(Box::new(Type::Unit), Mutable(false))), Mutable(false))),
            Mutable(false),
        ),
    ];
    for t in tys {
        let text = t.to_string();
        let back: Type = rnr::parse::parse(&text);
        assert_eq!(back, t, "text: {}", text);
    }
    assert_eq!(
        Type::Ref(Box::new(Type::Ref(Box::new(Type::I32), Mutable(false))), Mutable(false)).to_string(),
        "&&i32"
    );
}

// Printing a literal and reading the text back gives the literal again;
// unit prints as `()`, which is no literal of the grammar.
#[test]
fn literal_round_trip_examples() {
    let lits = vec![
        Literal::Int(0),
        Literal::Int(42),
        Literal::Int(-7),
        Literal::Int(i32::MAX),
        Literal::Int(i32::MIN),
        Literal::Bool(true),
        Literal::Bool(false),
        Literal::String("hello world {}".to_string()),
    ];
    for l in lits {
        let text = l.to_string();
        let back: Literal = parse(&text);
        assert_eq!(back, l, "text: {}", text);
    }
    assert!(try_parse::<Literal>(&Literal::Unit.to_string()).is_err());
}

// Printing statements, blocks, functions and programs and reading the
// text back gives them again.
#[test]
fn block_stmt_fn_prog_round_trip_examples() {
    for src in ["let mut a : &i32 = *r", "x = x + 1", "while i < 10 { i = i + 1; }", "println!(\"{}\", a)"] {
        let s: Statement = parse(src);
        let back: Statement = parse(&s.to_string());
        assert_eq!(back, s, "text: {}", s.to_string());
    }
    for src in ["{ }", "{ let a = 1; a }", "{ a; b; }", "{ fn g() { } g() }"] {
        let b: Block = parse(src);
        let back: Block = parse(&b.to_string());
        assert_eq!(back, b, "text: {}", b.to_string());
    }
    let f: FnDeclaration = parse("fn f(mut x: i32, y: &mut bool) -> i32 { *y = true; x }");
    let back: FnDeclaration = parse(&f.to_string());
    assert_eq!(back, f);
    let p: Prog = parse("fn main() { let a = f(1); } fn f(x: i32) -> i32 { if x > 0 { x } else { -x } }");
    let back: Prog = parse(&p.to_string());
    assert_eq!(back, p);
}

// The blocks that do not read back: an empty block with `;`, and a block
// whose value would be a `let`.
#[test]
fn block_round_trip_exceptions() {
    let empty_semi = Block { statements: vec![], semi: true };
    let back: Block = parse(&empty_semi.to_string());
    assert_eq!(back, Block { statements: vec![], semi: false });
    let let_last = Block {
        statements: vec![Statement::Let(Mutable(false), "a".to_string(), None, Some(Expr::Lit(Literal::Int(1))))],
        semi: false,
    };
    assert!(try_parse::<Block>(&let_last.to_string()).is_err());
}

// Whatever expression the parser reads prints to text that reads back as
// the same expression; `--0` is the exception, and so is a string with an
// escaped quote.
#[test]
fn parsed_expr_round_trip_examples() {
    let srcs = [
        "()",
        "f(())",
        "a - b - c * d / 2 == 3 || !x && y < -4",
        "&&mut x",
        "- - 3",
        "-(0)",
        "if a { () } else if b { 1; } else { let c = 2; c }",
        "{ fn g(mut x: &i32) -> i32 { *x } while z > 0 { z = z - 1; } g(&5) }",
        "println!(\"{} {}\", 0x10, 1_000)",
    ];
    for src in srcs {
        let e: Expr = parse(src);
        let back: Expr = parse(&e.to_string());
        assert_eq!(back, e, "src: {} text: {}", src, e.to_string());
    }
    let e: Expr = parse("--0");
    let back: Expr = parse(&e.to_string());
    assert_ne!(back, e);
    let e: Expr = parse("\"a\\\"b\"");
    assert!(try_parse::<Expr>(&e.to_string()).is_err());
}
