use rnr::ast::{Block, Expr, Prog, Type};
use rnr::common::Eval;
use rnr::error::Error;
use rnr::parse::parse;
use rnr::type_check::TypeChecker;

fn assert_type<T: Eval<Type>>(e: &T, ty: Type) {
    assert_eq!(e.eval().unwrap(), ty);
}

fn assert_block_type_fail(b: &Block) {
    let r: Result<Type, Error> = b.eval();
    assert!(r.is_err(), "expected a type error, got {:?}", r);
}

#[test]
fn literal_types() {
    let blk: Block = parse("{ 1 }");
    assert_type(&blk, Type::I32);
    let blk: Block = parse("{ true }");
    assert_type(&blk, Type::Bool);
    let blk: Block = parse("{ () }");
    assert_type(&blk, Type::Unit);
}

#[test]
fn arithmetic_ops() {
    let blk: Block = parse("{ 1 + 2 }");
    assert_type(&blk, Type::I32);
    let blk: Block = parse("{ 1 * (2 + 3) }");
    assert_type(&blk, Type::I32);
    let blk: Block = parse("{ 1 + true }");
    assert_block_type_fail(&blk);
}

#[test]
fn let_and_assign() {
    let blk: Block = parse("{ let a: i32 = 1; a }");
    assert_type(&blk, Type::I32);
    let blk: Block = parse("{ let a: i32 = true; a }");
    assert_block_type_fail(&blk);
    let blk: Block = parse("{ let a; }");
    assert_block_type_fail(&blk);
}

#[test]
fn if_exprs() {
    let blk: Block = parse("{ if true { 1 } else { 2 } }");
    assert_type(&blk, Type::I32);
    let blk: Block = parse("{ if 1 { 1 } else { 2 } }");
    assert_block_type_fail(&blk);
}

#[test]
fn var_access_in_child_scope() {
    let blk: Block = parse("{ let a: i32 = 1; { a } }");
    assert_type(&blk, Type::I32);
}

#[test]
fn shadowing_between_scopes() {
    let blk: Block = parse("{ let a: i32 = 1; { let a: bool = true; a } }");
    assert_type(&blk, Type::Bool);
    let blk: Block = parse("{ let a: i32 = 1; { let a: bool = true; a }; a }");
    assert_type(&blk, Type::I32);
}

#[test]
fn shadowing_same_scope_allowed() {
    let blk: Block = parse("{ let a: i32 = 1; let a: i32 = 3; a }");
    assert_type(&blk, Type::I32);
}

#[test]
fn var_not_declared_is_error() {
    let blk: Block = parse("{ a }");
    assert_block_type_fail(&blk);
}

#[test]
fn exit_scope_variable_inaccessible() {
    let blk: Block = parse("{ { let a: i32 = 1; }; a }");
    assert_block_type_fail(&blk);
}

#[test]
fn assignment_correct_same_type() {
    let blk: Block = parse("{ let mut a: i32 = 1; a = 2; a }");
    assert_type(&blk, Type::I32);
}

#[test]
fn assignment_type_mismatch_is_error() {
    let blk: Block = parse("{ let a: i32 = 1; a = true; }");
    assert_block_type_fail(&blk);
}

#[test]
fn assignment_before_declaration_is_error() {
    let blk: Block = parse("{ a = 1 }");
    assert_block_type_fail(&blk);
}

#[test]
fn assignment_to_non_mutable_forbidden() {
    let blk: Block = parse("{ let a: i32 = 1; a = 2; }");
    assert_block_type_fail(&blk);
}

#[test]
fn fn_declaration_and_call() {
    let blk: Block = parse("{ fn f(x: i32) -> i32 { x + 1 } f(1) }");
    assert_type(&blk, Type::I32);
}

#[test]
fn fn_wrong_arg_count_is_error() {
    let blk: Block = parse("{ fn f(x: i32) -> i32 { x + 1 } f(1,2) }");
    assert_block_type_fail(&blk);
}

#[test]
fn fn_wrong_arg_type_is_error() {
    let blk: Block = parse("{ fn f(x: i32) -> i32 { x + 1 } f(true) }");
    assert_block_type_fail(&blk);
}

#[test]
fn fn_not_declared_is_error() {
    let blk: Block = parse("{ f(1) }");
    assert_block_type_fail(&blk);
}

#[test]
fn fn_shadowing_same_scope_forbidden() {
    let blk: Block = parse("{ fn f() -> i32 { 1 } fn f() -> i32 { 2 } }");
    assert_block_type_fail(&blk);
}

#[test]
fn fn_in_child_scope_does_not_mask_global_after_exit() {
    let blk: Block = parse("{ fn f() -> i32 { 1 } { fn f() -> i32 { 2 } }; f() }");
    assert_type(&blk, Type::I32);
}

#[test]
fn fn_return_type_mismatch_is_error() {
    let prog: Prog = parse("fn f(x: i32) -> i32 { true }");
    let mut tc = TypeChecker::new();
    let r = tc.check_prog(&prog);
    assert!(
        r.is_err(),
        "expected function return type mismatch to fail but got {:?}",
        r
    );
}

#[test]
fn test_check_if_then_else_shadowing_type() {
    let v: Block = parse(
        "
        {
            let mut a: i32 = 1 + 2; // a == 3
            let mut a: i32 = 2 + a; // a == 5
            if true {
                a = a - 1;      // outer a == 4
                let mut a: i32 = 0; // inner a == 0
                a = a + 1       // inner a == 1
            } else {
                a = a - 1
            };
            a   // a == 4
        }
        ",
    );
    assert_type(&v, Type::I32);
}

#[test]
fn test_block_let_shadow_type() {
    let v: Expr = parse(
        "
    {
        let a: i32 = 1;
        let b: i32 = 2;
        let a: i32 = 3;
        let b: i32 = 4;

        a + b
    }",
    );
    assert_type(&v, Type::I32);
}

#[test]
fn if_without_else_then_must_be_unit() {
    // The then-block must be Unit when there is no else
    let blk: Block = parse("{ if true { 1 } }");
    assert_block_type_fail(&blk);
}

#[test]
fn if_branch_type_mismatch_is_error() {
    let blk: Block = parse("{ if true { 1 } else { true } }");
    assert_block_type_fail(&blk);
}

#[test]
fn if_condition_non_bool_is_error() {
    let blk: Block = parse("{ if 1 { 1 } else { 2 } }");
    assert_block_type_fail(&blk);
}

#[test]
fn comparison_eq_typechecks() {
    let blk: Block = parse("{ 1 == 2 }");
    assert_type(&blk, Type::Bool);
}

#[test]
fn arithmetic_on_bool_is_error() {
    let blk: Block = parse("{ true + false }");
    assert_block_type_fail(&blk);
}

#[test]
fn static_overload_resolution_success() {
    let blk: Block = parse("{ fn f(x: i32) -> i32 { x } fn f(x: bool) -> i32 { 0 } f(1) }");
    assert_type(&blk, Type::I32);
    let blk: Block = parse("{ fn f(x: i32) -> i32 { x } fn f(x: bool) -> i32 { 0 } f(true) }");
    assert_type(&blk, Type::I32);
}

#[test]
fn static_overload_no_match_is_error() {
    let blk: Block = parse("{ fn f(x: bool) -> i32 { 0 } f(1) }");
    assert_block_type_fail(&blk);
}

#[test]
fn typecheck_assign_through_deref() {
    let blk: Block = parse("{ let mut a: i32 = 1; let r = &mut a; *r = 2; a }");
    assert_type(&blk, Type::I32);
    let blk: Block = parse("{ let mut a: i32 = 1; let r = &a; *r = 2; }");
    assert_block_type_fail(&blk);
}

// The error of each rule, on an input that breaks it.
#[test]
fn type_errors_by_kind() {
    let fails = |s: &str| -> Error {
        let b: Block = parse(s);
        Eval::<Type>::eval(&b).unwrap_err()
    };
    assert!(matches!(fails("{ 1 + true }"), Error::TypeMismatch(Type::I32, Type::Bool)));
    assert!(matches!(fails("{ 1 == true }"), Error::IncomparableTypes(Type::I32, Type::Bool)));
    assert!(matches!(fails("{ *1 }"), Error::DerefNonRefType(Type::I32)));
    assert!(matches!(fails("{ if true { 1 } else { true } }"), Error::BranchMismatch(Type::I32, Type::Bool)));
    assert!(matches!(fails("{ let a; }"), Error::UninitNoType(_)));
    assert!(matches!(fails("{ fn f() {} fn f() {} }"), Error::DuplicateFunction(_)));
    assert!(matches!(fails("{ f() }"), Error::FunctionNotFound(_)));
    assert!(matches!(fails("{ a }"), Error::VarNotFound(_)));
    assert!(matches!(fails("{ let a = 1; a = 2 }"), Error::AssignImmutable(_)));
    assert!(matches!(fails("{ let a = 1; let r = &a; *r = 2 }"), Error::AssignThroughImmutableRef(_)));
    assert!(matches!(fails("{ let a = 1; *a = 2 }"), Error::NotAReference(_)));
    assert!(matches!(fails("{ 1 = 2 }"), Error::AssignNonIdent));
    assert!(matches!(fails("{ *(a) = 2 }"), Error::AssignDerefNonIdent));
    assert!(matches!(fails("{ fn f(x: i32) {} fn f(x: bool) {} f(()) }"), Error::NoMatchingOverload(_)));
}

// A checker's declarations do not outlive their block, also after an error.
#[test]
fn type_check_reuse_after_block() {
    let mut tc = TypeChecker::new();
    let b: Block = parse("{ let a = 1; a }");
    assert_eq!(tc.check_block(&b).unwrap(), Type::I32);
    let e: Expr = parse("a");
    assert!(tc.check_expr(&e).is_err());
    assert_eq!(tc.unify(Type::I32, Type::I32).unwrap(), Type::I32);
    assert!(tc.unify(Type::Bool, Type::I32).is_err());
}

// A function declared later in a block is visible before its declaration.
#[test]
fn hoisted_function_is_visible() {
    let b: Block = parse("{ let x = f(2); fn f(a: i32) -> i32 { a + 1 } x }");
    let mut tc = TypeChecker::new();
    assert_eq!(tc.check_block(&b).unwrap(), Type::I32);
}

// Two declarations with the same name and parameter types in one block are
// rejected, even far apart; different parameter types make overloads.
#[test]
fn duplicate_signature_rejected() {
    let b: Block = parse("{ fn f(a: i32) -> i32 { a } let y = 1; fn f(b: i32) -> bool { true } 1 }");
    let mut tc = TypeChecker::new();
    assert!(matches!(tc.check_block(&b), Err(Error::DuplicateFunction(_))));
    let ok: Block = parse("{ fn f(a: i32) -> i32 { a } fn f(b: bool) -> bool { b } f(true) }");
    let mut tc2 = TypeChecker::new();
    assert_eq!(tc2.check_block(&ok).unwrap(), Type::Bool);
}

// Assigning to a variable declared without `mut`, or through `&`, is a type
// error whatever the right side is.
#[test]
fn immutable_targets_rejected() {
    let b: Block = parse("{ let a = 1; a = true; }");
    let mut tc = TypeChecker::new();
    assert!(matches!(tc.check_block(&b), Err(Error::AssignImmutable(_))));
    let c: Block = parse("{ let mut x = 1; let r = &x; *r = 2; }");
    let mut tc2 = TypeChecker::new();
    assert!(matches!(tc2.check_block(&c), Err(Error::AssignThroughImmutableRef(_))));
}

// The body of a local function is checked like that of a top-level one.
#[test]
fn local_fn_body_is_checked() {
    let mut tc = TypeChecker::new();
    let blk: Block = parse("{ fn f() -> i32 { true } f() }");
    assert!(matches!(tc.check_block(&blk), Err(Error::TypeMismatch(Type::I32, Type::Bool))));
    let blk: Block = parse("{ fn f(x: i32) -> i32 { x + 1 } f(2) }");
    assert_type(&blk, Type::I32);
    let blk: Block = parse("{ fn f() -> i32 { y } f() }");
    assert!(matches!(TypeChecker::new().check_block(&blk), Err(Error::VarNotFound(_))));
}

// `assert_eq!` takes two values of the same type and has type unit.
#[test]
fn assert_eq_types() {
    let blk: Block = parse("{ assert_eq!(1 + 1, 2) }");
    assert_type(&blk, Type::Unit);
    let blk: Block = parse("{ assert_eq!(1, true) }");
    assert!(matches!(TypeChecker::new().check_block(&blk), Err(Error::IncomparableTypes(_, _))));
    let blk: Block = parse("{ assert_eq!(1) }");
    assert!(matches!(TypeChecker::new().check_block(&blk), Err(Error::ArgCount(_, 2, 1))));
}

// The `let` rule: a type is needed, a declared one must match the
// initializer's, and the name is then bound; names of a block do not
// outlive it.
#[test]
fn tc_let_rule_and_block_scope() {
    let blk: Block = parse("{ let a: i32 = true; }");
    assert!(matches!(TypeChecker::new().check_block(&blk), Err(Error::TypeMismatch(Type::I32, Type::Bool))));
    let blk: Block = parse("{ let a; }");
    assert!(matches!(TypeChecker::new().check_block(&blk), Err(Error::UninitNoType(_))));
    let blk: Block = parse("{ let mut a: bool; a = true; a }");
    assert_type(&blk, Type::Bool);
    let mut tc = TypeChecker::new();
    assert_eq!(tc.scope_depths(), (1, 1));
    let blk: Block = parse("{ let z = 1; z }");
    assert!(tc.check_block(&blk).is_ok());
    assert_eq!(tc.scope_depths(), (1, 1));
    assert!(tc.check_expr(&Expr::Ident("z".to_string())).is_err());
}
