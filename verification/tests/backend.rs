use flowlang::ast::{Expr, Stmt};
use flowlang::bytecode::{compile_program, eval_condition, first_handler, vm_step, Instr};
use flowlang::consteval::{eval_const_bool, eval_const_expr, eval_ok, find_first_const_expr, search_ok};
use flowlang::error::CompileError;
use flowlang::native::{
    build_x86_64_return_expr, check_native_result, collect_add_terms, prepare_native,
};
use flowlang::parser::parse_source;

fn num(n: u64) -> Box<Expr> {
    Box::new(Expr::Number(n))
}

/// Runs the code the way the processor would, for the instructions the backend emits.
fn run_machine_code(code: &[u8]) -> i64 {
    let mut pc = 0usize;
    let mut rax: i64 = 0;
    let mut rcx: i64 = 0;
    let imm64 = |at: usize| i64::from_le_bytes(code[at..at + 8].try_into().unwrap());
    loop {
        match (code[pc], code.get(pc + 1).copied()) {
            (0xC3, _) => return rax,
            (0x48, Some(0xB8)) => {
                rax = imm64(pc + 2);
                pc += 10;
            }
            (0x48, Some(0xB9)) => {
                rcx = imm64(pc + 2);
                pc += 10;
            }
            (0x48, Some(0x05)) => {
                let imm = i32::from_le_bytes(code[pc + 2..pc + 6].try_into().unwrap());
                rax = rax.wrapping_add(imm as i64);
                pc += 6;
            }
            (0x48, Some(0x01)) if code[pc + 2] == 0xC8 => {
                rax = rax.wrapping_add(rcx);
                pc += 3;
            }
            other => panic!("unexpected instruction {:?}", other),
        }
    }
}

fn run_vm(code: &[Instr]) -> Vec<String> {
    let mut out = Vec::new();
    let mut ip = 0usize;
    let mut steps = 0usize;
    while ip < code.len() {
        let st = vm_step(code, ip);
        assert!(st.next > ip, "every step moves forward");
        if let Some(line) = st.output {
            out.push(line);
        }
        ip = st.next;
        steps += 1;
    }
    assert!(steps <= code.len());
    out
}

#[test]
fn compiles_if_else_with_forward_jumps() {
    let p = parse_source(
        "contract C { state S { on h() {
            if (x > 1) { call f(a, 2); } else { send y; }
            let z = 1 + 2;
            violation { drop q; }
            transition -> T;
        } } }",
    )
    .unwrap();
    let code = compile_program(&p);
    assert_eq!(code.len(), 7);
    assert!(matches!(&code[0], Instr::JumpIfFalse { cond, target: 3 } if cond == "x > 1"));
    assert!(matches!(&code[1], Instr::Call(t) if t == "f(a, 2)"));
    assert!(matches!(&code[2], Instr::Jump { target: 4 }));
    assert!(matches!(&code[3], Instr::Send(e) if e == "y"));
    assert!(matches!(&code[4], Instr::Eval(e) if e == "let z = 1 + 2"));
    assert!(matches!(&code[5], Instr::Drop(e) if e == "q"));
    assert!(matches!(&code[6], Instr::Transition(t) if t == "T"));
}

#[test]
fn if_without_else_jumps_past_its_then_code() {
    let p = parse_source("contract C { state S { on h() { if (c) { a; b; } z; } } }").unwrap();
    let code = compile_program(&p);
    assert_eq!(code.len(), 4);
    assert!(matches!(&code[0], Instr::JumpIfFalse { target: 3, .. }));
    assert!(matches!(&code[3], Instr::Eval(e) if e == "z"));
}

#[test]
fn compiles_the_first_handler_of_the_first_contract_only() {
    let p = parse_source(
        "shared_contract G { state D { on f() { a; } } }
         contract E { state X { var v: u32 = 0; } }
         contract C { state S { on h() { b; } on k() { c; } } }",
    )
    .unwrap();
    assert_eq!(first_handler(&p).map(|h| h.name.clone()), Some("h".to_string()));
    let code = compile_program(&p);
    assert_eq!(code.len(), 1);
    assert!(matches!(&code[0], Instr::Eval(e) if e == "b"));
}

#[test]
fn program_without_contract_handler_compiles_to_nop() {
    let p = parse_source("shared_contract G { state D { on f() { a; } } }").unwrap();
    assert!(first_handler(&p).is_none());
    let code = compile_program(&p);
    assert_eq!(code.len(), 1);
    assert!(matches!(&code[0], Instr::Nop));
    assert!(run_vm(&code).is_empty());
}

#[test]
fn vm_takes_then_branch_unless_condition_mentions_false() {
    let src_true = "contract C { state S { on h() { if (x > 1) { call f(); } else { send y; } transition -> T; } } }";
    let code = compile_program(&parse_source(src_true).unwrap());
    assert_eq!(run_vm(&code), vec!["[vm] call f()", "[vm] transition -> T"]);
    let src_false = "contract C { state S { on h() { if (is_false) { call f(); } else { send y; } drop z; } } }";
    let code = compile_program(&parse_source(src_false).unwrap());
    assert_eq!(run_vm(&code), vec!["[vm] send y", "[vm] drop z"]);
}

#[test]
fn vm_step_reports_next_index_and_output() {
    let code = vec![
        Instr::Eval("e".to_string()),
        Instr::JumpIfFalse { cond: "false".to_string(), target: 3 },
        Instr::Nop,
        Instr::Jump { target: 5 },
    ];
    let s0 = vm_step(&code, 0);
    assert_eq!((s0.next, s0.output.as_deref()), (1, Some("[vm] eval e")));
    let s1 = vm_step(&code, 1);
    assert_eq!((s1.next, s1.output), (3, None));
    let s2 = vm_step(&code, 2);
    assert_eq!((s2.next, s2.output), (3, None));
    let s3 = vm_step(&code, 3);
    assert_eq!((s3.next, s3.output), (5, None));
}

#[test]
fn condition_is_false_exactly_when_its_text_mentions_false() {
    assert!(eval_condition("x > 1"));
    assert!(eval_condition(""));
    assert!(eval_condition("fals"));
    assert!(!eval_condition("false"));
    assert!(!eval_condition("a.is_false()"));
}

#[test]
fn const_evaluation_edge_cases() {
    assert_eq!(eval_const_expr(&Expr::Number(9223372036854775807)), Some(i64::MAX));
    assert_eq!(eval_const_expr(&Expr::Number(9223372036854775808)), None);
    assert_eq!(eval_const_expr(&Expr::Path("x".to_string())), None);
    assert_eq!(eval_const_expr(&Expr::Sub(num(3), num(10))), Some(-7));
    assert_eq!(eval_const_expr(&Expr::Add(num(1), Box::new(Expr::Path("x".to_string())))), None);
    assert_eq!(eval_const_bool(&Expr::Number(0)), Some(false));
    assert_eq!(eval_const_bool(&Expr::Number(3)), Some(true));
    assert_eq!(eval_const_bool(&Expr::Lt(num(2), num(3))), Some(true));
    assert_eq!(eval_const_bool(&Expr::Eq(num(2), num(3))), Some(false));
    assert_eq!(eval_const_bool(&Expr::Path("c".to_string())), None);
    assert!(eval_ok(&Expr::Add(num(9223372036854775807), num(0))));
    assert!(!eval_ok(&Expr::Add(num(9223372036854775807), num(1))));
}

#[test]
fn constant_search_follows_constant_conditions() {
    let stmts = vec![
        Stmt::Let { name: "a".to_string(), expr: Expr::Number(1) },
        Stmt::If {
            cond: Expr::Lt(num(5), num(2)),
            then_branch: vec![Stmt::Expr(Expr::Number(1))],
            else_branch: Some(vec![Stmt::Send(Expr::Number(2))]),
        },
    ];
    assert!(search_ok(&stmts));
    let e = find_first_const_expr(&stmts).expect("a constant expression");
    assert_eq!(eval_const_expr(e), Some(2));

    let stmts = vec![
        Stmt::If {
            cond: Expr::Lt(num(5), num(2)),
            then_branch: vec![Stmt::Expr(Expr::Number(1))],
            else_branch: None,
        },
        Stmt::Violation(vec![Stmt::Expr(Expr::Number(3))]),
    ];
    let e = find_first_const_expr(&stmts).expect("a constant expression");
    assert_eq!(eval_const_expr(e), Some(3));

    let stmts = vec![Stmt::If {
        cond: Expr::Path("c".to_string()),
        then_branch: vec![Stmt::Expr(Expr::Path("x".to_string()))],
        else_branch: Some(vec![Stmt::Expr(Expr::Number(4))]),
    }];
    let e = find_first_const_expr(&stmts).expect("a constant expression");
    assert_eq!(eval_const_expr(e), Some(4));

    let stmts = vec![Stmt::Drop(Expr::Number(1)), Stmt::Call(Expr::Number(2))];
    assert!(find_first_const_expr(&stmts).is_none());
}

#[test]
fn collects_terms_with_subtracted_ones_negated() {
    let mut terms = Vec::new();
    let e = Expr::Sub(num(10), Box::new(Expr::Sub(num(3), num(1))));
    collect_add_terms(&e, &mut terms).unwrap();
    assert_eq!(terms, vec![10, -3, 1]);
    let mut terms = vec![5];
    let err = collect_add_terms(&Expr::Add(num(1), Box::new(Expr::Path("x".to_string()))), &mut terms)
        .unwrap_err();
    assert_eq!(terms, vec![5, 1]);
    assert_eq!(err.message(), "Linearity error: native backend supports only constant additive expressions");
}

#[test]
fn encodes_small_and_large_terms() {
    let code = build_x86_64_return_expr(&Expr::Sub(num(10), num(3))).unwrap();
    assert_eq!(
        code,
        vec![0x48, 0xB8, 10, 0, 0, 0, 0, 0, 0, 0, 0x48, 0x05, 0xFD, 0xFF, 0xFF, 0xFF, 0xC3]
    );
    let code = build_x86_64_return_expr(&Expr::Add(num(1), num(5_000_000_000))).unwrap();
    assert_eq!(
        code,
        vec![
            0x48, 0xB8, 1, 0, 0, 0, 0, 0, 0, 0, 0x48, 0xB9, 0x00, 0xF2, 0x05, 0x2A, 0x01, 0, 0, 0,
            0x48, 0x01, 0xC8, 0xC3,
        ]
    );
    assert_eq!(run_machine_code(&code), 5_000_000_001);
}

#[test]
fn emitted_code_returns_the_value_of_its_expression() {
    let exprs = vec![
        Expr::Add(Box::new(Expr::Add(num(10), num(20))), num(12)),
        Expr::Sub(num(3), num(9_000_000_000)),
        Expr::Sub(Box::new(Expr::Sub(num(0), num(9223372036854775807))), num(1)),
        Expr::Add(Box::new(Expr::Add(num(9223372036854775807), num(9223372036854775807))), Box::new(Expr::Sub(num(0), num(9223372036854775807)))),
    ];
    for e in &exprs {
        let code = build_x86_64_return_expr(e).unwrap();
        let expected = if eval_ok(e) { eval_const_expr(e) } else { None };
        match expected {
            Some(v) => assert_eq!(run_machine_code(&code), v),
            None => assert_eq!(run_machine_code(&code), i64::MAX),
        }
    }
}

#[test]
fn native_backend_errors() {
    let e = build_x86_64_return_expr(&Expr::Number(u64::MAX)).unwrap_err();
    assert_eq!(e.message(), "Linearity error: native backend: number too large for i64");
    let e = build_x86_64_return_expr(&Expr::Gt(num(1), num(2))).unwrap_err();
    assert_eq!(e.message(), "Linearity error: native backend supports only constant additive expressions");
}

#[test]
fn prepares_native_code_for_the_first_constant_expression() {
    let p = parse_source("contract C { state S { on h() { call f(); send 40 + 2; 7; transition -> T; } } }")
        .unwrap();
    let job = prepare_native(&p).unwrap();
    assert_eq!(job.expected, 42);
    assert_eq!(run_machine_code(&job.code), 42);

    let p = parse_source("shared_contract G { state D { on f() { 1; } } }").unwrap();
    let e = prepare_native(&p).err().unwrap();
    assert_eq!(e.message(), "Linearity error: native backend: no contract handler found");

    let p = parse_source("contract C { state S { on h() { x + 1; transition -> T; } } }").unwrap();
    let e = prepare_native(&p).err().unwrap();
    assert_eq!(
        e.message(),
        "Linearity error: native backend supports only handlers with at least one constant arithmetic expression"
    );
}

#[test]
fn error_messages_of_each_kind() {
    assert_eq!(CompileError::Verify("x".to_string()).message(), "Linearity error: x");
    assert_eq!(CompileError::Io("disk full".to_string()).message(), "I/O error: disk full");
    assert_eq!(
        CompileError::Parse { line: 12, col: 340, msg: "m".to_string() }.message(),
        "Parse error at 12:340: m"
    );
    assert_eq!(
        CompileError::Lex { line: 0, col: 7, msg: "n".to_string() }.message(),
        "Lex error at 0:7: n"
    );
}

#[test]
fn native_result_must_match_the_expected_value() {
    assert!(check_native_result(42, 42).is_ok());
    let e = check_native_result(-7, 42).unwrap_err();
    assert_eq!(e.message(), "Linearity error: native backend mismatch: got -7, expected 42");
    let e = check_native_result(i64::MIN, 0).unwrap_err();
    assert_eq!(
        e.message(),
        "Linearity error: native backend mismatch: got -9223372036854775808, expected 0"
    );
}

#[test]
fn collecting_keeps_any_earlier_content() {
    let mut terms = vec![i64::MIN, 3];
    collect_add_terms(&Expr::Sub(num(1), num(2)), &mut terms).unwrap();
    assert_eq!(terms, vec![i64::MIN, 3, 1, -2]);
}

fn stmts_a() -> Vec<Stmt> {
    vec![
        Stmt::If {
            cond: Expr::Path("c".to_string()),
            then_branch: vec![Stmt::Expr(Expr::Number(1))],
            else_branch: Some(vec![Stmt::Drop(Expr::Path("p".to_string()))]),
        },
    ]
}

fn stmts_b() -> Vec<Stmt> {
    vec![
        Stmt::If { cond: Expr::Path("d".to_string()), then_branch: vec![], else_branch: None },
        Stmt::Transition("T".to_string()),
    ]
}

#[test]
fn compiling_blocks_in_turn_is_compiling_their_concatenation() {
    let mut whole = Vec::new();
    let mut ab = stmts_a();
    ab.extend(stmts_b());
    flowlang::bytecode::compile_block(&ab, &mut whole);
    let mut parts = vec![Instr::Nop];
    flowlang::bytecode::compile_block(&stmts_a(), &mut parts);
    flowlang::bytecode::compile_block(&stmts_b(), &mut parts);
    assert_eq!(format!("{:?}", &parts[0]), "Nop");
    assert_eq!(
        format!("{:?}", &parts[1..]),
        "[JumpIfFalse { cond: \"c\", target: 4 }, Eval(\"1\"), Jump { target: 5 }, Drop(\"p\"), JumpIfFalse { cond: \"d\", target: 6 }, Transition(\"T\")]"
    );
    assert_eq!(
        format!("{:?}", whole),
        "[JumpIfFalse { cond: \"c\", target: 3 }, Eval(\"1\"), Jump { target: 4 }, Drop(\"p\"), JumpIfFalse { cond: \"d\", target: 5 }, Transition(\"T\")]"
    );
}
