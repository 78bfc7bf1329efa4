use rnr::ast::{Literal, Prog};
use rnr::env::Env;
use rnr::parse::parse;
use rnr::vm::Val;

#[test]
fn test_env_basic() {
    let mut env = Env::new();
    env.insert("x".to_string(), Val::Lit(Literal::Int(42)));

    let val = env.lookup("x").unwrap();
    assert_eq!(val, Val::Lit(Literal::Int(42)));
}

#[test]
fn test_env_shadowing() {
    let mut env = Env::new();
    env.insert("x".to_string(), Val::Lit(Literal::Int(1)));

    env.push_scope();
    env.insert("x".to_string(), Val::Lit(Literal::Int(2)));

    let val = env.lookup("x").unwrap();
    assert_eq!(val, Val::Lit(Literal::Int(2)));

    env.pop_scope().unwrap();

    let val = env.lookup("x").unwrap();
    assert_eq!(val, Val::Lit(Literal::Int(1)));
}

#[test]
fn test_env_update() {
    let mut env = Env::new();
    env.insert("x".to_string(), Val::Lit(Literal::Int(1)));

    env.update("x", Val::Lit(Literal::Int(2))).unwrap();

    let val = env.lookup("x").unwrap();
    assert_eq!(val, Val::Lit(Literal::Int(2)));
}

#[test]
fn test_env_update_in_outer_scope() {
    let mut env = Env::new();
    env.insert("x".to_string(), Val::Lit(Literal::Int(1)));

    env.push_scope();
    env.update("x", Val::Lit(Literal::Int(2))).unwrap();

    let val = env.lookup("x").unwrap();
    assert_eq!(val, Val::Lit(Literal::Int(2)));

    env.pop_scope().unwrap();

    let val = env.lookup("x").unwrap();
    assert_eq!(val, Val::Lit(Literal::Int(2)));
}

#[test]
fn test_env_not_found() {
    let env = Env::new();
    let result = env.lookup("x");
    assert!(result.is_err());
}

#[test]
fn test_env_update_not_found() {
    let mut env = Env::new();
    let result = env.update("x", Val::Lit(Literal::Int(1)));
    assert!(result.is_err());
}

#[test]
fn test_env_multiple_scopes() {
    let mut env = Env::new();
    env.insert("a".to_string(), Val::Lit(Literal::Int(1)));

    env.push_scope();
    env.insert("b".to_string(), Val::Lit(Literal::Int(2)));

    env.push_scope();
    env.insert("c".to_string(), Val::Lit(Literal::Int(3)));

    assert_eq!(env.lookup("a").unwrap(), Val::Lit(Literal::Int(1)));
    assert_eq!(env.lookup("b").unwrap(), Val::Lit(Literal::Int(2)));
    assert_eq!(env.lookup("c").unwrap(), Val::Lit(Literal::Int(3)));

    env.pop_scope().unwrap();

    assert!(env.lookup("c").is_err());
    assert_eq!(env.lookup("a").unwrap(), Val::Lit(Literal::Int(1)));
    assert_eq!(env.lookup("b").unwrap(), Val::Lit(Literal::Int(2)));

    env.pop_scope().unwrap();

    assert!(env.lookup("b").is_err());
    assert_eq!(env.lookup("a").unwrap(), Val::Lit(Literal::Int(1)));
}

#[test]
fn test_insert_overload_preserves_overloads() {
    let mut env = Env::new();
    // two functions with same name but different parameter types
    let prog: Prog = parse("fn f(x: i32) -> i32 { x } fn f(x: bool) -> i32 { 0 }");
    for f in prog.0.iter() {
        env.insert_overload(f.id.clone(), f.clone());
    }

    let val = env.lookup("f").unwrap();
    match val {
        Val::Overloads(vec) => assert_eq!(vec.len(), 2),
        _ => panic!("expected overloads for 'f'"),
    }
}

// The global scope cannot be left.
#[test]
fn env_pop_global_scope_is_error() {
    let mut env = Env::new();
    assert!(env.pop_scope().is_err());
    env.push_scope();
    assert!(env.pop_scope().is_ok());
    assert!(env.pop_scope().is_err());
}

// A binding leaves the lookup of other names unchanged.
#[test]
fn env_insert_other_name_unchanged() {
    let mut env = Env::new();
    env.insert("a".to_string(), Val::Lit(Literal::Int(1)));
    env.insert("b".to_string(), Val::Lit(Literal::Int(2)));
    assert_eq!(env.lookup("a").unwrap(), Val::Lit(Literal::Int(1)));
}

// The global scope can never be popped, so an environment always has one.
#[test]
fn env_keeps_global_scope() {
    let mut env = rnr::env::Env::new();
    assert_eq!(env.depth(), 1);
    assert!(env.pop_scope().is_err());
    assert_eq!(env.depth(), 1);
    env.push_scope();
    assert_eq!(env.depth(), 2);
    assert!(env.pop_scope().is_ok());
    assert_eq!(env.depth(), 1);
    let vm = rnr::vm::VM::new();
    assert_eq!(vm.scope_depth(), 1);
}
