use flowlang::ast::{Expr, Stmt};
use flowlang::checker::verify_program;
use flowlang::consteval::{eval_const_bool, eval_const_expr, find_first_const_expr};
use flowlang::native::build_x86_64_return_expr;
use flowlang::parser::parse_source;

#[test]
fn parses_and_verifies_tcp_contract() {
    let source = r#"
        shared_contract GlobalRegistry {
            state DATA {
                var active_connections: u32 = 0;
                on increment() { active_connections + 1; }
            }
        }

        contract TCP_Stack {
            state LISTEN {
                on receive(p: LinearBuffer) {
                    if (p.has_syn_flag()) {
                        call GlobalRegistry.increment();
                        let response = create_syn_ack(p);
                        send response;
                        transition -> SYN_SENT;
                    } else {
                        violation {
                            drop p;
                            send reset();
                        }
                    }
                }
            }
        }
    "#;

    let program = parse_source(source).expect("parser should succeed");
    verify_program(&program).expect("linearity check should succeed");
}

#[test]
fn fails_without_violation_block_for_linear_handler() {
    let source = r#"
        contract TCP_Stack {
            state LISTEN {
                on receive(p: LinearBuffer) {
                    if (p.has_syn_flag()) {
                        drop p;
                    } else {
                        send reset();
                    }
                }
            }
        }
    "#;

    let program = parse_source(source).expect("parser should succeed");
    let err = verify_program(&program).expect_err("verification should fail");
    let msg = err.message();
    assert!(msg.contains("no explicit violation block"));
    assert!(msg.contains("else-path without violation handling"));
}

#[test]
fn fails_on_if_without_else_for_linear_handler() {
    let source = r#"
        contract TCP_Stack {
            state LISTEN {
                on receive(p: LinearBuffer) {
                    if (p.has_syn_flag()) {
                        drop p;
                    }
                    violation {
                        send reset();
                    }
                }
            }
        }
    "#;

    let program = parse_source(source).expect("parser should succeed");
    let err = verify_program(&program).expect_err("verification should fail");
    let msg = err.message();
    assert!(msg.contains("if without else"));
}

#[test]
fn evals_const_expression_for_native_subset() {
    let expr = Expr::Sub(
        Box::new(Expr::Add(Box::new(Expr::Number(50)), Box::new(Expr::Number(10)))),
        Box::new(Expr::Number(18)),
    );
    assert_eq!(eval_const_expr(&expr), Some(42));
}

#[test]
fn emits_machine_code_for_const_return() {
    let expr = Expr::Add(
        Box::new(Expr::Add(Box::new(Expr::Number(10)), Box::new(Expr::Number(20)))),
        Box::new(Expr::Number(12)),
    );
    let code = build_x86_64_return_expr(&expr).expect("machine code emission should succeed");
    assert_eq!(code[0], 0x48);
    assert_eq!(code[1], 0xB8);
    assert!(code.windows(2).any(|w| w == [0x48, 0x05]));
    assert_eq!(*code.last().unwrap_or(&0), 0xC3);
}

#[test]
fn evals_const_comparison_conditions() {
    let gt = Expr::Gt(Box::new(Expr::Number(7)), Box::new(Expr::Number(3)));
    let eq = Expr::Eq(
        Box::new(Expr::Sub(Box::new(Expr::Number(10)), Box::new(Expr::Number(4)))),
        Box::new(Expr::Number(6)),
    );
    assert_eq!(eval_const_bool(&gt), Some(true));
    assert_eq!(eval_const_bool(&eq), Some(true));
}

#[test]
fn chooses_const_if_branch_for_native_search() {
    let stmts = vec![Stmt::If {
        cond: Expr::Gt(Box::new(Expr::Number(5)), Box::new(Expr::Number(2))),
        then_branch: vec![Stmt::Expr(Expr::Sub(
            Box::new(Expr::Number(100)),
            Box::new(Expr::Number(58)),
        ))],
        else_branch: Some(vec![Stmt::Expr(Expr::Number(1))]),
    }];

    let expr = find_first_const_expr(&stmts).expect("branch expression should exist");
    assert_eq!(eval_const_expr(expr), Some(42));
}
