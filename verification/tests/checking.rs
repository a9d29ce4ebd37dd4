use flowlang::checker::{check_source, verify_program};
use flowlang::parser::parse_source;

fn findings(src: &str) -> Option<String> {
    let program = parse_source(src).expect("parser should succeed");
    verify_program(&program).err().map(|e| e.message())
}

#[test]
fn value_left_on_a_path_is_a_leak() {
    let msg = findings("contract C { state S { on h(p: LinearP) { violation { transition -> T; } } } }");
    assert_eq!(
        msg.as_deref(),
        Some("Linearity error: handler 'C.S.h' leaks linear values on one path: {\"p\"}")
    );
}

#[test]
fn leaked_values_are_listed_in_order() {
    let msg = findings(
        "contract C { state S { on h(p: LinearP, n: u32, q: LinearQ) { violation { transition -> T; } } } }",
    );
    assert_eq!(
        msg.as_deref(),
        Some("Linearity error: handler 'C.S.h' leaks linear values on one path: {\"p\", \"q\"}")
    );
}

#[test]
fn second_consumption_is_a_use_after_move() {
    let msg = findings("contract C { state S { on h(p: LinearP) { violation { drop p; drop p; } } } }");
    assert_eq!(msg.as_deref(), Some("Linearity error: use-after-move for 'p' in handler 'h'"));
    let msg = findings("contract C { state S { on h(p: LinearP) { violation { send p; f(p); } } } }");
    assert_eq!(msg.as_deref(), Some("Linearity error: use-after-move for 'p' in handler 'h'"));
}

#[test]
fn each_path_is_checked_on_its_own() {
    let msg = findings(
        "contract C { state S { on h(p: LinearP) {
            if (ok) { drop p; transition -> T; } else { violation { send reset(); } }
        } } }",
    );
    assert_eq!(
        msg.as_deref(),
        Some("Linearity error: handler 'C.S.h' leaks linear values on one path: {\"p\"}")
    );
}

#[test]
fn moved_names_and_created_values_are_tracked() {
    let ok = findings(
        "contract C { state S { on h(p: LinearP) {
            let q = p;
            if (q.ready()) { let r = create_r(q); send r; transition -> T; }
            else { violation { drop q; } }
        } } }",
    );
    assert_eq!(ok, None);
    let msg = findings(
        "contract C { state S { on h(p: LinearP) {
            let q = p;
            violation { drop p; drop q; }
        } } }",
    );
    assert_eq!(msg.as_deref(), Some("Linearity error: use-after-move for 'p' in handler 'h'"));
}

#[test]
fn nested_violation_handling_in_else_is_enough() {
    let ok = findings(
        "contract C { state S { on h(p: LinearP) {
            if (a) { drop p; transition -> T; }
            else { if (b) { violation { drop p; } } else { violation { drop p; } } }
        } } }",
    );
    assert_eq!(ok, None);
}

#[test]
fn state_variable_rules() {
    let msg = findings(
        "contract C { state S {
            var a: u32 = 0;
            var a: LinearX = create_x();
            var b: u32 = create_y();
            on h() { transition -> S; }
        } }",
    );
    assert_eq!(
        msg.as_deref(),
        Some(
            "Linearity error: duplicate state variable 'C.S.a'\n\
             state variable 'C.S.a' cannot use linear type 'LinearX'\n\
             state variable 'C.S.b' initializes linear value into non-linear type 'u32'"
        )
    );
}

#[test]
fn duplicate_states_and_states_without_handlers() {
    let msg = findings("contract C { state S { on h() { transition -> S; } } state S { } }");
    assert_eq!(
        msg.as_deref(),
        Some("Linearity error: duplicate state 'C.S'\nstate 'C.S' has no handler")
    );
}

#[test]
fn duplicate_handlers() {
    let msg = findings("contract C { state S { on h() { transition -> S; } on h() { violation { } } } }");
    assert_eq!(msg.as_deref(), Some("Linearity error: duplicate handler 'C.S.h'"));
}

#[test]
fn shared_contract_handlers_make_no_transition() {
    let msg = findings("shared_contract G { state D { on f() { if (x) { transition -> D; } } } }");
    assert_eq!(
        msg.as_deref(),
        Some("Linearity error: shared_contract handler 'G.D.f' performs a transition")
    );
    assert_eq!(findings("shared_contract G { state D { var n: u32 = 0; } }"), None);
}

#[test]
fn contract_handler_paths_must_end_in_transition_or_violation() {
    let msg = findings("contract C { state S { on h() { call f(); } } }");
    assert_eq!(
        msg.as_deref(),
        Some("Linearity error: handler 'C.S.h' has a path that ends without transition or violation")
    );
    let msg = findings("contract C { state S { on h() { if (x) { transition -> T; } } } }");
    assert_eq!(
        msg.as_deref(),
        Some("Linearity error: handler 'C.S.h' has a path that ends without transition or violation")
    );
    assert_eq!(
        findings("contract C { state S { on h() { if (x) { transition -> T; } else { violation { } } } } }"),
        None
    );
}

#[test]
fn violation_rules_apply_only_to_linear_input() {
    assert_eq!(findings("contract C { state S { on h(n: u32) { if (n) { transition -> T; } else { transition -> U; } } } }"), None);
    let msg = findings(
        "contract C { state S { on h(p: LinearP) { if (p.ok()) { drop p; transition -> T; } else { drop p; transition -> U; } } } }",
    );
    assert_eq!(
        msg.as_deref(),
        Some(
            "Linearity error: handler 'C.S.h' has linear input but no explicit violation block\n\
             handler 'C.S.h' has else-path without violation handling"
        )
    );
}

#[test]
fn findings_of_all_items_are_reported_in_order() {
    let msg = findings(
        "contract A { state S { on h() { call f(); } } }
         contract B { state T { } }",
    );
    assert_eq!(
        msg.as_deref(),
        Some(
            "Linearity error: handler 'A.S.h' has a path that ends without transition or violation\n\
             state 'B.T' has no handler"
        )
    );
}

#[test]
fn check_source_parses_then_checks() {
    let p = check_source("contract C { state S { on h() { transition -> S; } } }").unwrap();
    assert_eq!(p.items.len(), 1);
    let e = check_source("contract C {").unwrap_err();
    assert_eq!(e.message(), "Parse error at 1:13: expected keyword");
    let e = check_source("contract C { state S { } }").unwrap_err();
    assert_eq!(e.message(), "Linearity error: state 'C.S' has no handler");
}

use flowlang::ast::{ContractDecl, Expr, HandlerDecl, Item, Param, Program, StateDecl, StateMember, Stmt};
use flowlang::checker::{apply_block, apply_stmt, VerifyIssue};
use flowlang::names::NameSet;
use flowlang::parser::append_kind_debug;
use flowlang::token::TokenKind;

fn text(s: &NameSet) -> String {
    let mut out = String::new();
    s.append_text(&mut out);
    out
}

fn texts(v: &[NameSet]) -> Vec<String> {
    v.iter().map(text).collect()
}

fn set_of(names: &[&str]) -> NameSet {
    let mut s = NameSet::new();
    for n in names {
        s.insert(n.to_string());
    }
    s
}

#[test]
fn names_in_messages_are_in_debugging_notation() {
    let program = Program {
        items: vec![Item::Contract(ContractDecl {
            name: "C".to_string(),
            states: vec![StateDecl {
                name: "S".to_string(),
                members: vec![StateMember::Handler(HandlerDecl {
                    name: "h".to_string(),
                    params: vec![Param { name: "p\"q\n".to_string(), ty: "LinearP".to_string() }],
                    body: vec![Stmt::Violation(vec![Stmt::Transition("T".to_string())])],
                })],
            }],
        })],
    };
    let msg = verify_program(&program).unwrap_err().message();
    assert_eq!(
        msg,
        "Linearity error: handler 'C.S.h' leaks linear values on one path: {\"p\\\"q\\n\"}"
    );
    let mut out = String::new();
    append_kind_debug(&mut out, &TokenKind::Ident("a\\b\"".to_string()));
    assert_eq!(out, "Ident(\"a\\\\b\\\"\")");
    assert_eq!(text(&set_of(&["x", "y"])), "{\"x\", \"y\"}");
}

#[test]
fn splitting_the_paths_splits_the_result() {
    let stmt = Stmt::Drop(Expr::Path("p".to_string()));
    let all = vec![set_of(&["p", "q"]), set_of(&["q"]), set_of(&["p"])];
    let mut env = set_of(&["p", "q"]);
    let mut issues: Vec<VerifyIssue> = Vec::new();
    let whole = apply_stmt(&stmt, &all, &mut env, &mut issues, "h");

    let first = vec![set_of(&["p", "q"])];
    let second = vec![set_of(&["q"]), set_of(&["p"])];
    let mut env2 = set_of(&["p", "q"]);
    let mut issues2: Vec<VerifyIssue> = Vec::new();
    let mut parts = apply_stmt(&stmt, &first, &mut env2, &mut issues2, "h");
    parts.extend(apply_stmt(&stmt, &second, &mut env2, &mut issues2, "h"));

    assert_eq!(texts(&whole), texts(&parts));
    assert_eq!(texts(&whole), vec!["{\"q\"}", "{\"q\"}", "{}"]);
    let msgs: Vec<String> = issues.iter().map(|i| i.0.clone()).collect();
    let msgs2: Vec<String> = issues2.iter().map(|i| i.0.clone()).collect();
    assert_eq!(msgs, msgs2);
    assert_eq!(msgs, vec!["use-after-move for 'p' in handler 'h'"]);
    assert_eq!(text(&env), text(&env2));

    let none = apply_stmt(&stmt, &[], &mut env, &mut issues, "h");
    assert!(none.is_empty());
    assert_eq!(issues.len(), 1);
}

fn block_one() -> Vec<Stmt> {
    vec![Stmt::Let { name: "r".to_string(), expr: Expr::Path("p".to_string()) }]
}

fn block_two() -> Vec<Stmt> {
    vec![
        Stmt::If {
            cond: Expr::Path("c".to_string()),
            then_branch: vec![Stmt::Send(Expr::Path("r".to_string()))],
            else_branch: None,
        },
        Stmt::Drop(Expr::Path("p".to_string())),
    ]
}

#[test]
fn running_blocks_in_turn_is_running_their_concatenation() {
    let mut both = block_one();
    both.extend(block_two());
    let mut env = set_of(&["p"]);
    let mut issues: Vec<VerifyIssue> = Vec::new();
    let whole = apply_block(&both, vec![set_of(&["p"])], &mut env, &mut issues, "h");

    let mut env2 = set_of(&["p"]);
    let mut issues2: Vec<VerifyIssue> = Vec::new();
    let mid = apply_block(&block_one(), vec![set_of(&["p"])], &mut env2, &mut issues2, "h");
    let after = apply_block(&block_two(), mid, &mut env2, &mut issues2, "h");

    assert_eq!(texts(&whole), texts(&after));
    assert_eq!(texts(&whole), vec!["{}", "{\"r\"}"]);
    let msgs: Vec<String> = issues.iter().map(|i| i.0.clone()).collect();
    let msgs2: Vec<String> = issues2.iter().map(|i| i.0.clone()).collect();
    assert_eq!(msgs, msgs2);
    assert_eq!(
        msgs,
        vec!["use-after-move for 'p' in handler 'h'", "use-after-move for 'p' in handler 'h'"]
    );
    assert_eq!(text(&env), text(&env2));

    let same = apply_block(&[], vec![set_of(&["z"])], &mut env, &mut issues, "h");
    assert_eq!(texts(&same), vec!["{\"z\"}"]);
}
