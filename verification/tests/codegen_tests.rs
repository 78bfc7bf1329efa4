use rnr::assemble::{assemble, Instr, Reg};
use rnr::ast::{
    Arguments, BinOp, Block, Expr, FnDeclaration, Literal, Mutable, Parameters, Prog, Statement,
    Type, UnOp,
};
use rnr::codegen::{generate_prog_to_instrs, generate_prog_to_string, CodeGen};
use rnr::common::{TestMachine, TestRF};
use rnr::error::Error;
use rnr::parse::parse;

fn main_with(body: Vec<Statement>, ty: Option<Type>) -> Prog {
    Prog(vec![FnDeclaration {
        id: "main".to_string(),
        parameters: Parameters(vec![]),
        ty,
        body: Block::new(body, true),
    }])
}

#[test]
fn gen_int_literal_in_main() {
    let f = FnDeclaration {
        id: "main".to_string(),
        parameters: Parameters(vec![]),
        ty: None,
        body: Block::new(vec![Statement::Expr(Expr::Lit(Literal::Int(1)))], true),
    };
    let prog = Prog(vec![f]);
    let out = generate_prog_to_string(&prog).expect("codegen");
    assert!(out.contains("main:"));
    assert!(out.contains("addi t0, zero, 1"));
}

#[test]
fn gen_string_and_println() {
    let call = Expr::Call(
        "println!".to_string(),
        Arguments(vec![Expr::Lit(Literal::String("hello".to_string()))]),
    );
    let f = FnDeclaration {
        id: "main".to_string(),
        parameters: Parameters(vec![]),
        ty: None,
        body: Block::new(vec![Statement::Expr(call)], true),
    };
    let prog = Prog(vec![f]);
    let out = generate_prog_to_string(&prog).expect("codegen");
    assert!(out.contains(".data"));
    assert!(out.contains("la   t0"));
    assert!(out.contains("bal  println"));
}

#[test]
fn gen_deref_assign_addressing() {
    // fn main() -> i32 { let mut x = 1; let r = &mut x; *r = 5; x }
    let stmts = vec![
        Statement::Let(
            Mutable(true),
            "x".to_string(),
            Some(Type::I32),
            Some(Expr::Lit(Literal::Int(1))),
        ),
        Statement::Let(
            Mutable(false),
            "r".to_string(),
            None,
            Some(Expr::Ref(Box::new(Expr::Ident("x".to_string())), Mutable(true))),
        ),
        Statement::Assign(
            Expr::UnOp(UnOp::Deref, Box::new(Expr::Ident("r".to_string()))),
            Expr::Lit(Literal::Int(5)),
        ),
        Statement::Expr(Expr::Ident("x".to_string())),
    ];
    let body = Block::new(stmts, true);
    let f = FnDeclaration {
        id: "main".to_string(),
        parameters: Parameters(vec![]),
        ty: Some(Type::I32),
        body,
    };
    let prog = Prog(vec![f]);
    let out = generate_prog_to_string(&prog).expect("codegen");

    // x should be assigned at some negative offset (first local -> -4), and r at -8
    assert!(out.contains("addi t0, fp, -4"), "expected address load for x");
    assert!(out.contains("lw   t1, -8(fp)"), "expected load of r's stored address into t1");
    assert!(out.contains("sw   t0, 0(t1)"), "expected store via deref into 0(t1)");
}

#[test]
fn gen_println_runs_and_generates_asm() {
    let src = r#"
    fn main() { println!("hello {}", 42) }
    "#;

    let prog: Prog = parse(src);
    let out = generate_prog_to_string(&prog).expect("codegen");
    assert!(
        out.contains(".data") || out.contains(".asciiz"),
        "expected .data section in asm:\n{}",
        out
    );
    assert!(
        out.contains("bal  println") || out.contains("bal println"),
        "asm missing println call:\n{}",
        out
    );
    let _m = generate_prog_to_instrs(&prog).expect("run");
}

#[test]
fn gen_println_multiple_and_varargs() {
    let src = r#"
    fn main() { let x = 3; println!("a {} b {} {}", 1, x, 2) }
    "#;

    let prog: Prog = parse(src);
    let out = generate_prog_to_string(&prog).expect("codegen");
    assert!(
        out.contains("bal  println") || out.contains("bal println"),
        "asm missing println call:\n{}",
        out
    );
    let _m = generate_prog_to_instrs(&prog).expect("run");
}

#[test]
fn gen_println_no_args_and_literal_only() {
    // no args
    let src1 = r#" fn main() { println!() } "#;
    let prog1: Prog = parse(src1);
    let _m1 = generate_prog_to_instrs(&prog1).expect("run");

    // literal only
    let src2 = r#" fn main() { println!("hello") } "#;
    let prog: Prog = parse(src2);
    let out = generate_prog_to_string(&prog).expect("codegen");
    assert!(
        out.contains("la   t0") || out.contains(".asciiz"),
        "expected data in asm:\n{}",
        out
    );
    let _m2 = generate_prog_to_instrs(&prog).expect("run");
}

#[test]
fn gen_scoping_and_shadowing_asm() {
    let src = r#"
    fn main() { shadow(5) }
    fn shadow(x: i32) -> i32 { let x = x + 1; let x = x + 1; x }
    "#;
    let prog: Prog = parse(src);
    let out = generate_prog_to_string(&prog).expect("codegen");
    assert!(out.contains("shadow:"), "asm should contain shadow label:\n{}", out);
    let instrs = generate_prog_to_instrs(&prog).expect("to instrs");
    assert!(instrs.contains(&Instr::Label("shadow".to_string())));
    assert!(instrs.contains(&Instr::Bal("shadow".to_string())));
}

#[test]
fn codegen_instrs_start_with_prelude() {
    let prog = main_with(
        vec![Statement::Expr(Expr::BinOp(
            BinOp::Add,
            Box::new(Expr::Lit(Literal::Int(1))),
            Box::new(Expr::Lit(Literal::Int(2))),
        ))],
        Some(Type::I32),
    );
    let instrs = generate_prog_to_instrs(&prog).expect("to instrs");
    assert_eq!(instrs[0], Instr::Addi(Reg::sp, Reg::zero, 10000));
    assert_eq!(instrs[1], Instr::Bal("main".to_string()));
    assert_eq!(instrs[2], Instr::Halt);
    assert!(instrs.contains(&Instr::Label("main".to_string())));
    assert!(instrs.contains(&Instr::Addi(Reg::t0, Reg::zero, 1)));
    assert!(instrs.contains(&Instr::Addi(Reg::t0, Reg::zero, 2)));
    assert!(instrs.contains(&Instr::Add(Reg::t0, Reg::t0, Reg::t1)));
    // pushes decrement the stack pointer with a negative immediate
    assert!(instrs.contains(&Instr::Addiu(Reg::sp, Reg::sp, -4)));
}

#[test]
fn codegen_call_function_instrs() {
    let foo = FnDeclaration {
        id: "foo".to_string(),
        parameters: Parameters(vec![]),
        ty: Some(Type::I32),
        body: Block::new(vec![Statement::Expr(Expr::Lit(Literal::Int(7)))], true),
    };
    let main = FnDeclaration {
        id: "main".to_string(),
        parameters: Parameters(vec![]),
        ty: Some(Type::I32),
        body: Block::new(
            vec![Statement::Expr(Expr::Call("foo".to_string(), Arguments(vec![])))],
            true,
        ),
    };
    let prog = Prog(vec![foo, main]);
    let instrs = generate_prog_to_instrs(&prog).expect("to instrs");
    assert!(instrs.contains(&Instr::Label("foo".to_string())));
    assert!(instrs.contains(&Instr::Bal("foo".to_string())));
    assert!(instrs.contains(&Instr::Jr(Reg::ra)));
}

#[test]
fn codegen_string_literal_address() {
    let prog = main_with(
        vec![Statement::Expr(Expr::Call(
            "println!".to_string(),
            Arguments(vec![Expr::Lit(Literal::String("hello".to_string()))]),
        ))],
        None,
    );
    let instrs = generate_prog_to_instrs(&prog).expect("to instrs");
    // the first string of the data section has address -1
    assert!(instrs.contains(&Instr::Addi(Reg::t0, Reg::zero, -1)));
    assert!(instrs.contains(&Instr::Bal("println".to_string())));
}

#[test]
fn codegen_unknown_identifier_error() {
    let prog = main_with(
        vec![Statement::Expr(Expr::Ident("nope".to_string()))],
        Some(Type::I32),
    );
    match generate_prog_to_string(&prog) {
        Err(Error::UnknownIdentifier(x)) => assert_eq!(x, "nope"),
        other => panic!("unexpected: {:?}", other),
    }
    match generate_prog_to_instrs(&prog) {
        Err(Error::UnknownIdentifier(x)) => assert_eq!(x, "nope"),
        other => panic!("unexpected: {:?}", other),
    }
}

#[test]
fn codegen_generate_matches_free_function() {
    let prog = main_with(vec![Statement::Expr(Expr::Lit(Literal::Int(3)))], Some(Type::I32));
    let mut cg = CodeGen::new();
    let a = cg.generate(&prog).expect("codegen");
    let b = generate_prog_to_string(&prog).expect("codegen");
    assert_eq!(a, b);
}

#[test]
fn assemble_decodes_each_mnemonic() {
    let text = ".data\nstr_0: .asciiz \"hi\"\nstr_1: .asciiz \"yo\"\n.text\nmain:\n    addi t0, zero, 1\n    addi sp, sp, -4\n    la   t1, str_1\n    la   t2, str_0\n    la   t3, other\n    add  t0, t0, t1\n    sub  t0, t0, t1\n    and  t0, t0, t1\n    or   t0, t0, t1\n    slt  t0, t1, t0\n    lw   t1, -8(fp)\n    sw   t0, 0(t1)\n    beq  t0, zero, main\n    b    main\n    bal  println\n    jr   ra\n";
    let got = assemble(text).expect("assemble");
    let want = vec![
        Instr::Addi(Reg::sp, Reg::zero, 10000),
        Instr::Bal("main".to_string()),
        Instr::Halt,
        Instr::Label("main".to_string()),
        Instr::Addi(Reg::t0, Reg::zero, 1),
        Instr::Addiu(Reg::sp, Reg::sp, -4),
        Instr::Addi(Reg::t1, Reg::zero, -2),
        Instr::Addi(Reg::t2, Reg::zero, -1),
        Instr::Addi(Reg::t3, Reg::zero, -1),
        Instr::Add(Reg::t0, Reg::t0, Reg::t1),
        Instr::Sub(Reg::t0, Reg::t0, Reg::t1),
        Instr::And(Reg::t0, Reg::t0, Reg::t1),
        Instr::Or(Reg::t0, Reg::t0, Reg::t1),
        Instr::Slt(Reg::t0, Reg::t1, Reg::t0),
        Instr::Lw(Reg::t1, -8, Reg::fp),
        Instr::Sw(Reg::t0, 0, Reg::t1),
        Instr::Beq(Reg::t0, Reg::zero, "main".to_string()),
        Instr::B("main".to_string()),
        Instr::Bal("println".to_string()),
        Instr::Jr(Reg::ra),
    ];
    assert_eq!(got, want);
}

#[test]
fn assemble_empty_text_is_prelude() {
    let got = assemble("").expect("assemble");
    assert_eq!(
        got,
        vec![
            Instr::Addi(Reg::sp, Reg::zero, 10000),
            Instr::Bal("main".to_string()),
            Instr::Halt,
        ]
    );
}

#[test]
fn assemble_immediates_and_odd_lines() {
    // a signed immediate, one that does not parse (0), one out of range (0),
    // an operand without a base register (nothing), a comment (nothing)
    let text = "addi t0, zero, +7\naddi t1, zero, x\naddi t2, zero, 40000\nsw t0, 4\n# note\n  \n";
    let got = assemble(text).expect("assemble");
    assert_eq!(
        got[3..].to_vec(),
        vec![
            Instr::Addi(Reg::t0, Reg::zero, 7),
            Instr::Addi(Reg::t1, Reg::zero, 0),
            Instr::Addi(Reg::t2, Reg::zero, 0),
        ]
    );
}

#[test]
fn assemble_unknown_register_error() {
    match assemble("add t0, t9, t1") {
        Err(Error::UnknownRegister(r)) => assert_eq!(r, "t9"),
        other => panic!("unexpected: {:?}", other),
    }
    // the first bad operand is the one reported
    match assemble("lw  q1, 0(q2)") {
        Err(Error::UnknownRegister(r)) => assert_eq!(r, "q1"),
        other => panic!("unexpected: {:?}", other),
    }
}

#[test]
fn assemble_missing_operand_error() {
    match assemble("main:\n  add t0, t1\n") {
        Err(Error::MissingOperand(l)) => assert_eq!(l, "add t0, t1"),
        other => panic!("unexpected: {:?}", other),
    }
}

#[test]
fn test_rf_reads_registers() {
    let rf = TestRF::new(vec![(Reg::t0, 7), (Reg::sp, 10000), (Reg::t0, 9)]);
    assert_eq!(rf.get(Reg::t0), 7);
    assert_eq!(rf.get(Reg::sp), 10000);
    assert_eq!(rf.get(Reg::t1), 0);
    // `zero` reads as `t0`
    assert_eq!(rf.get(Reg::zero), 7);
    let m = TestMachine { rf, output: String::new() };
    assert_eq!(m.rf.get(Reg::t0), 7);
    assert!(m.output.is_empty());
}

#[test]
fn assemble_refuses_mul_and_div() {
    match assemble("main:\n    mul  t0, t0, t1\n") {
        Err(Error::UnsupportedInstruction(op)) => assert_eq!(op, "mul"),
        other => panic!("unexpected: {:?}", other),
    }
    match assemble("    div  t0, t0, t1") {
        Err(Error::UnsupportedInstruction(op)) => assert_eq!(op, "div"),
        other => panic!("unexpected: {:?}", other),
    }
}

// Multiplication has assembly text but no instruction encoding.
#[test]
fn codegen_mul_has_text_but_no_instrs() {
    let prog = main_with(
        vec![Statement::Expr(Expr::BinOp(
            BinOp::Mul,
            Box::new(Expr::Lit(Literal::Int(2))),
            Box::new(Expr::Lit(Literal::Int(3))),
        ))],
        Some(Type::I32),
    );
    let out = generate_prog_to_string(&prog).expect("codegen");
    assert!(out.contains("mul  t0, t0, t1"));
    assert!(matches!(generate_prog_to_instrs(&prog), Err(Error::UnsupportedInstruction(_))));
}

// A function declared inside another is compiled in place, with a branch
// over its code.
#[test]
fn gen_local_fn_inside_main() {
    let src = "fn main() -> i32 { fn add1(x: i32) -> i32 { x + 1 } add1(2) }";
    let prog: Prog = parse(src);
    let out = generate_prog_to_string(&prog).expect("codegen");
    assert!(out.contains("    b    skip_fn_0\nadd1:\n"), "asm:\n{}", out);
    assert!(out.contains("\nskip_fn_0:\n"), "asm:\n{}", out);
    assert!(out.contains("    bal add1"), "asm:\n{}", out);
    let instrs = generate_prog_to_instrs(&prog).expect("to instrs");
    assert!(instrs.contains(&Instr::Label("add1".to_string())));
    assert!(instrs.contains(&Instr::B("skip_fn_0".to_string())));
    assert!(instrs.contains(&Instr::Label("skip_fn_0".to_string())));
}

// A string literal used twice is stored once in the data section.
#[test]
fn gen_string_interned_once() {
    let src = r#" fn main() { println!("same"); println!("same"); println!("other") } "#;
    let prog: Prog = parse(src);
    let out = generate_prog_to_string(&prog).expect("codegen");
    assert_eq!(out.matches(".asciiz \"same\"").count(), 1, "asm:\n{}", out);
    assert_eq!(out.matches(".asciiz").count(), 2, "asm:\n{}", out);
    assert_eq!(out.matches("la   t0, str_0").count(), 2, "asm:\n{}", out);
}

// A block expression leaves exactly one value on the stack: unit (0) when
// it ends with `;`; a unit literal pushes 0 too.
#[test]
fn gen_block_expr_pushes_one_value() {
    let prog: Prog = parse("fn main() { let a = { 1; }; let b = (); }");
    let text = generate_prog_to_string(&prog).expect("codegen");
    let lines: Vec<&str> = text.lines().collect();
    let i = lines.iter().position(|l| l.trim() == "addi t0, zero, 1").unwrap();
    assert_eq!(lines[i + 1].trim(), "addi sp, sp, -4");
    assert_eq!(lines[i + 3].trim(), "lw   t0, 0(sp)");
    assert_eq!(lines[i + 5].trim(), "addi t0, zero, 0");
    assert_eq!(lines[i + 6].trim(), "addi sp, sp, -4");
    assert!(generate_prog_to_instrs(&prog).is_ok());
}

// Every `let`, also one inside an initializer, has a slot in the frame that
// the function reserves at its start.
#[test]
fn gen_let_in_initializer_reserved() {
    let prog: Prog = parse("fn main() -> i32 { let a = { let b = 2; b + 1 }; a }");
    let text = generate_prog_to_string(&prog).expect("codegen");
    assert!(text.contains("    addi sp, sp, -8"), "{}", text);
    assert!(text.contains("    sw   t0, -4(fp)"), "{}", text);
    assert!(text.contains("    sw   t0, -8(fp)"), "{}", text);
    assert!(!text.contains("-12(fp)"), "{}", text);
}
