use rnr::ast::{
    Arguments, BinOp, Block, Expr, FnDeclaration, Literal, Mutable, Parameter, Parameters, Prog,
    Statement, Type,
};
use rnr::common::{parse_test, Eval};
use rnr::error::Error;
use rnr::parse::parse;
use rnr::vm::{Val, VM};

#[test]
fn test_expr() {
    let v = parse_test::<Expr, Val>(
        "        
        1 + 1
    ",
    );

    assert_eq!(v.unwrap().get_int().unwrap(), 2);
}

#[test]
fn test_bool() {
    let v = parse_test::<Block, Val>(
        "
    {
        let a = true && false;
        a
    }
    ",
    );

    assert!(!v.unwrap().get_bool().unwrap());
}

#[test]
fn test_bool_bang2() {
    let v = parse_test::<Block, Val>(
        "
    {
        let a = (!true) && false;
        a
    }
    ",
    );

    assert!(!v.unwrap().get_bool().unwrap());
}

#[test]
fn test_bool_bang() {
    let v = parse_test::<Block, Val>(
        "
    {
        let a = true && !false;
        a
    }
    ",
    );

    assert!(v.unwrap().get_bool().unwrap());
}

#[test]
fn test_block_let() {
    let v = parse_test::<Block, Val>(
        "
    {
        let a: i32 = 1;
        let b: i32 = 2;

        a + b
    }",
    );
    assert_eq!(v.unwrap().get_int().unwrap(), 3);
}

#[test]
fn test_block_let_shadow() {
    let v = parse_test::<Block, Val>(
        "
    {
        let a: i32 = 1;
        let b: i32 = 2;
        let a: i32 = 3;
        let b: i32 = 4;

        a + b
    }",
    );
    assert_eq!(v.unwrap().get_int().unwrap(), 7);
}

#[test]
fn test_local_block() {
    let v = parse_test::<Block, Val>(
        "
    {
        let a = 1;
        let b = {
            let b = a;
            b * 2
        };

        b
    }
    ",
    );

    assert_eq!(v.unwrap().get_int().unwrap(), 2);
}

#[test]
fn test_block_assign() {
    let v = parse_test::<Block, Val>(
        "
    {
        let mut a: i32 = 1;
        a = a + 2;
        a
    }",
    );
    assert_eq!(v.unwrap().get_int().unwrap(), 3);
}

#[test]
fn test_assignment_to_immutable_errors() {
    // runtime should reject assignment to non-mut variable
    let blk: Block = parse("{ let a: i32 = 1; a = 2; }");
    let r = Eval::<Val>::eval(&blk);
    assert!(
        r.is_err(),
        "expected runtime error for assignment to immutable var, got {:?}",
        r
    );
}

#[test]
fn test_assign_through_deref_mutable() {
    let v = parse_test::<Block, Val>(
        "
    {
        let mut x: i32 = 1;
        let r = &mut x;
        *r = 2;
        *r
    }
    ",
    );
    assert_eq!(v.unwrap().get_int().unwrap(), 2);
}

#[test]
fn test_regress_assign_through_ref_aliasing() {
    let v = parse_test::<Block, Val>(
        "
    {
        let mut x: i32 = 1;
        let r = &mut x;
        *r = 5;
        x
    }
    ",
    );
    assert_eq!(v.unwrap().get_int().unwrap(), 5);
}

#[test]
fn test_assign_through_deref_immutable_ref_errors() {
    // reference is immutable, assignment through deref must fail
    let blk: Block = parse("{ let mut x: i32 = 1; let r = &x; *r = 2; }");
    let r = Eval::<Val>::eval(&blk);
    assert!(
        r.is_err(),
        "expected runtime error assigning through immutable ref, got {:?}",
        r
    );
}

#[test]
fn vm_test_expr_if_then_else() {
    let v = parse_test::<Block, Val>(
        "
    {
        let mut a: i32 = 1;
        a = if a > 0 { a + 1 } else { a - 2 };
        a
    }",
    );

    assert_eq!(v.unwrap().get_int().unwrap(), 2);
}

#[test]
fn test_while() {
    let v = parse_test::<Block, Val>(
        "
    {
        let mut a = 2;
        let mut b = 0;
        while a > 0 {
            a = a - 1;
            b = b + 1;
        }
        b
    }
    ",
    );

    assert_eq!(v.unwrap().get_int().unwrap(), 2);
}

#[test]
fn vm_test_prog() {
    let v = parse_test::<Prog, Val>(
        "
    fn main() {
        let a = 1;
        a
    }
    ",
    );

    assert_eq!(v.unwrap().get_int().unwrap(), 1);
}

#[test]
fn test_local_fn() {
    let v = parse_test::<Prog, Val>(
        "
    fn main() {
        fn f(i: i32, j: i32) -> i32 {
            i + j
        }
        let a = f(1, 2);
        println!(\"a = {} and another a = {}\", a, a);
    }
    ",
    );

    assert_eq!(v.unwrap(), Val::Lit(Literal::Unit));
}

#[test]
fn test_check_if_then_else_shadowing() {
    let v = parse_test::<Block, Val>(
        "
        {
            let a: i32 = 1 + 2; // a == 3
            let mut a: i32 = 2 + a; // a == 5
            if true {
                a = a - 1;      // outer a == 4
                let mut a: i32 = 0; // inner a == 0
                a = a + 1;      // inner a == 1
            } else {
                a = a - 1;
            };
            a   // a == 4
        }
        ",
    );

    assert_eq!(v.unwrap().get_int().unwrap(), 4);
}

#[test]
fn vm_call_add_returns_value() {
    let add = FnDeclaration {
        id: "add".to_string(),
        parameters: Parameters(vec![
            Parameter {
                mutable: Mutable(false),
                id: "a".to_string(),
                ty: Type::I32,
            },
            Parameter {
                mutable: Mutable(false),
                id: "b".to_string(),
                ty: Type::I32,
            },
        ]),
        ty: Some(Type::I32),
        body: Block::new(
            vec![Statement::Expr(Expr::BinOp(
                BinOp::Add,
                Box::new(Expr::Ident("a".to_string())),
                Box::new(Expr::Ident("b".to_string())),
            ))],
            false,
        ),
    };

    let main = FnDeclaration {
        id: "main".to_string(),
        parameters: Parameters(vec![]),
        ty: None,
        body: Block::new(
            vec![Statement::Expr(Expr::Call(
                "add".to_string(),
                Arguments(vec![Expr::Lit(Literal::Int(2)), Expr::Lit(Literal::Int(3))]),
            ))],
            false,
        ),
    };

    // create a block that hoists the functions and then calls main
    let stmts: Vec<Statement> = vec![
        Statement::Fn(add),
        Statement::Fn(main),
        Statement::Expr(Expr::Call("main".to_string(), Arguments(vec![]))),
    ];
    let block = Block::new(stmts, false);
    let val = block.eval().expect("vm eval");
    match val {
        Val::Lit(Literal::Int(i)) => assert_eq!(i, 5),
        other => panic!("unexpected return: {:?}", other),
    }
}

// `false && e` does not evaluate `e` (here `e` would fail: `x` is unbound).
#[test]
fn vm_short_circuit_and() {
    let v = parse_test::<Expr, Val>("false && x");
    assert_eq!(v.unwrap(), Val::Lit(Literal::Bool(false)));
    let v = parse_test::<Expr, Val>("true || x");
    assert_eq!(v.unwrap(), Val::Lit(Literal::Bool(true)));
    let v = parse_test::<Expr, Val>("true && x");
    assert!(v.is_err());
}

// Arithmetic that leaves 32 bits is an error, not a wrap.
#[test]
fn vm_overflow_is_error() {
    let v = parse_test::<Expr, Val>("2147483647 + 1");
    assert!(matches!(v, Err(Error::Overflow)));
    let v = parse_test::<Expr, Val>("1 / 0");
    assert!(matches!(v, Err(Error::DivisionByZero)));
    let v = parse_test::<Expr, Val>("-7 / 2");
    assert_eq!(v.unwrap().get_int().unwrap(), -3);
}

// A program without `main` is refused.
#[test]
fn vm_main_not_found() {
    let v = parse_test::<Prog, Val>("fn f() { 1 }");
    assert!(matches!(v, Err(Error::MainNotFound)));
}

// `println!` fills its placeholders in order; the text is kept by the VM.
#[test]
fn vm_println_output() {
    let blk: Block = parse("{ let a = 3; println!(\"a = {} and {:?}!\", a, true); }");
    let mut vm = VM::new();
    let r = vm.eval_block(&blk);
    assert_eq!(r.unwrap(), Val::Lit(Literal::Unit));
    assert_eq!(vm.take_output(), "a = 3 and true!\n");
    assert_eq!(vm.take_output(), "");
}

// Overloads are resolved by the runtime types of the arguments.
#[test]
fn vm_overload_dispatch() {
    let v = parse_test::<Block, Val>(
        "{ fn f(x: i32) -> i32 { 1 } fn f(x: bool) -> i32 { 2 } f(true) + f(5) * 10 }",
    );
    assert_eq!(v.unwrap().get_int().unwrap(), 12);
    let v = parse_test::<Block, Val>("{ fn f(x: i32) -> i32 { 1 } fn f(x: bool) -> i32 { 2 } f(()) }");
    assert!(matches!(v, Err(Error::NoMatchingOverload(_))));
}

// A call with the wrong number of arguments, and a loop that never ends.
#[test]
fn vm_arg_count_error() {
    let v = parse_test::<Block, Val>("{ fn f(x: i32) -> i32 { x } f(1, 2) }");
    assert!(matches!(v, Err(Error::ArgCount(_, 1, 2))));
}

// Values of the operators, and the errors of each binary operator.
#[test]
fn vm_binop_eval() {
    let i = |n: i32| Val::Lit(Literal::Int(n));
    let b = |x: bool| Val::Lit(Literal::Bool(x));
    assert_eq!(BinOp::Sub.eval(i(7), i(10)).unwrap(), i(-3));
    assert_eq!(BinOp::Mul.eval(i(-4), i(6)).unwrap(), i(-24));
    assert_eq!(BinOp::Lt.eval(i(1), i(2)).unwrap(), b(true));
    assert_eq!(BinOp::Gt.eval(i(1), i(2)).unwrap(), b(false));
    assert_eq!(BinOp::Eq.eval(b(true), b(true)).unwrap(), b(true));
    assert!(matches!(BinOp::Eq.eval(b(true), i(1)), Err(Error::CannotCompare(_, _))));
    assert!(matches!(BinOp::Add.eval(b(true), i(1)), Err(Error::NotInt(_))));
    assert!(matches!(i(1).get_bool(), Err(Error::NotBool(_))));
}

// The format string is cut at each `{}` and `{:?}`; the pieces frame the
// values in order.
#[test]
fn regex_test() {
    let e: Expr = parse("println!(\"a {} b {:?} c\", 1, 2)");
    let mut vm = VM::new();
    vm.eval_expr(&e).unwrap();
    assert_eq!(vm.take_output(), "a 1 b 2 c\n");
}

// The right operand of `&&` is not evaluated when the left one is false:
// no division by zero happens.
#[test]
fn vm_short_circuit_skips_right_side() {
    let v = parse_test::<Expr, Val>("false && (1 / 0 == 1)");
    assert_eq!(v.unwrap(), Val::Lit(Literal::Bool(false)));
    let v = parse_test::<Expr, Val>("true || (1 / 0 == 1)");
    assert_eq!(v.unwrap(), Val::Lit(Literal::Bool(true)));
    let v = parse_test::<Expr, Val>("true && (1 / 0 == 1)");
    assert!(matches!(v, Err(Error::DivisionByZero)));
}

// A block that succeeds closes the scope it opened: its variables are gone
// afterwards, and the output printed inside stays.
#[test]
fn vm_block_closes_its_scope() {
    let mut vm = VM::new();
    let b: Block = parse("{ let a = 1; println!(\"in\"); a }");
    assert_eq!(vm.eval_block(&b).unwrap(), Val::Lit(Literal::Int(1)));
    let e: Expr = parse("a");
    assert!(matches!(vm.eval_expr(&e), Err(Error::VarNotFound(_))));
    assert_eq!(vm.take_output(), "in\n");
}

// A function declared later in a block can be called before its declaration.
#[test]
fn vm_hoisted_function_is_visible() {
    let v = parse_test::<Block, Val>("{ let x = f(2); fn f(a: i32) -> i32 { a + 1 } x }");
    assert_eq!(v.unwrap(), Val::Lit(Literal::Int(3)));
}

// `assert_eq!` is a built-in: equal values give unit, different ones an
// error that carries both.
#[test]
fn vm_assert_eq() {
    let v = parse_test::<Block, Val>("{ let a = 3; assert_eq!(a + 1, 4) }");
    assert_eq!(v.unwrap(), Val::Lit(Literal::Unit));
    let v = parse_test::<Block, Val>("{ assert_eq!(\"x\", \"y\") }");
    assert!(matches!(v, Err(Error::AssertEqFailed(_, _))));
    let v = parse_test::<Block, Val>("{ assert_eq!(1, 2, 3) }");
    assert!(matches!(v, Err(Error::ArgCount(_, 2, 3))));
    let mut vm = VM::new();
    assert!(matches!(vm.eval_expr(&Expr::Ident("assert_eq!".to_string())), Ok(Val::Intrinsic(_))));
}

// Values that are no literal are printed in their `Debug` form.
#[test]
fn vm_println_debug_form() {
    let blk: Block = parse("{ fn g() { } println!(\"{}\", g); }");
    let mut vm = VM::new();
    assert!(vm.eval_block(&blk).is_ok());
    let out = vm.take_output();
    assert!(out.starts_with("Fun(FnDeclaration { id: \"g\", parameters: Parameters([])"), "{}", out);
}

// Names declared in a block are gone after it; the scopes around keep
// their names, and their values may change.
#[test]
fn vm_block_names_local() {
    let mut vm = VM::new();
    let b: Block = parse("{ let y = 1; fn h() { } y }");
    assert!(vm.eval_block(&b).is_ok());
    assert!(vm.eval_expr(&Expr::Ident("y".to_string())).is_err());
    assert!(vm.eval_expr(&Expr::Ident("h".to_string())).is_err());
    let v = parse_test::<Block, Val>("{ let mut x = 1; { let mut x = 5; x = x + 1; }; x }");
    assert_eq!(v.unwrap(), Val::Lit(Literal::Int(1)));
}

// A program's value comes with what it printed.
#[test]
fn vm_run_with_output() {
    let p: Prog = parse("fn main() -> i32 { println!(\"hi {}\", 2); 7 }");
    let (v, out) = rnr::vm::run_with_output(&p);
    assert_eq!(v.unwrap(), Val::Lit(Literal::Int(7)));
    assert_eq!(out, "hi 2\n");
}
