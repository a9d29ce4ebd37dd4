use flowlang::ast::{Expr, Item, StateMember, Stmt};
use flowlang::error::CompileError;
use flowlang::lexer::Lexer;
use flowlang::parser::parse_source;
use flowlang::token::{Keyword, TokenKind};

fn kinds(src: &str) -> Vec<TokenKind> {
    Lexer::new(src)
        .tokenize()
        .expect("lexing should succeed")
        .into_iter()
        .map(|t| t.kind)
        .collect()
}

#[test]
fn lexes_punctuation_and_two_character_operators() {
    assert_eq!(
        kinds("{ } ( ) : ; , . + - -> == = > <"),
        vec![
            TokenKind::LBrace,
            TokenKind::RBrace,
            TokenKind::LParen,
            TokenKind::RParen,
            TokenKind::Colon,
            TokenKind::Semicolon,
            TokenKind::Comma,
            TokenKind::Dot,
            TokenKind::Plus,
            TokenKind::Minus,
            TokenKind::Arrow,
            TokenKind::EqEq,
            TokenKind::Assign,
            TokenKind::Greater,
            TokenKind::Less,
            TokenKind::Eof,
        ]
    );
}

#[test]
fn lexes_keywords_identifiers_and_numbers() {
    assert_eq!(
        kinds("shared_contract contract state var on if else call let send transition violation drop x_1 007"),
        vec![
            TokenKind::Keyword(Keyword::SharedContract),
            TokenKind::Keyword(Keyword::Contract),
            TokenKind::Keyword(Keyword::State),
            TokenKind::Keyword(Keyword::Var),
            TokenKind::Keyword(Keyword::On),
            TokenKind::Keyword(Keyword::If),
            TokenKind::Keyword(Keyword::Else),
            TokenKind::Keyword(Keyword::Call),
            TokenKind::Keyword(Keyword::Let),
            TokenKind::Keyword(Keyword::Send),
            TokenKind::Keyword(Keyword::Transition),
            TokenKind::Keyword(Keyword::Violation),
            TokenKind::Keyword(Keyword::Drop),
            TokenKind::Ident("x_1".to_string()),
            TokenKind::Number(7),
            TokenKind::Eof,
        ]
    );
}

#[test]
fn empty_input_and_comments_give_only_eof() {
    assert_eq!(kinds(""), vec![TokenKind::Eof]);
    assert_eq!(kinds("  // a comment\n\t// another"), vec![TokenKind::Eof]);
}

#[test]
fn token_spans_count_lines_and_columns_from_one() {
    let toks = Lexer::new("a\n  bc // note\n->").tokenize().unwrap();
    let spans: Vec<(usize, usize)> = toks.iter().map(|t| (t.span.line, t.span.col)).collect();
    assert_eq!(spans, vec![(1, 1), (2, 3), (3, 1), (3, 3)]);
    assert_eq!(toks.last().unwrap().kind, TokenKind::Eof);
}

#[test]
fn unexpected_character_is_a_lex_error_at_its_position() {
    let err = Lexer::new("state\n  @").tokenize().unwrap_err();
    match &err {
        CompileError::Lex { line, col, msg } => {
            assert_eq!((*line, *col), (2, 3));
            assert_eq!(msg, "unexpected character '@'");
        }
        other => panic!("unexpected error {:?}", other),
    }
    assert_eq!(err.message(), "Lex error at 2:3: unexpected character '@'");
}

#[test]
fn number_beyond_u64_is_invalid() {
    let err = Lexer::new(" 18446744073709551616").tokenize().unwrap_err();
    assert_eq!(err.message(), "Lex error at 1:2: invalid number");
    let ok = kinds("18446744073709551615");
    assert_eq!(ok[0], TokenKind::Number(u64::MAX));
}

#[test]
fn parse_error_messages_name_what_was_expected() {
    let e = parse_source("state").unwrap_err();
    assert_eq!(e.message(), "Parse error at 1:1: expected 'shared_contract' or 'contract'");
    let e = parse_source("contract A state").unwrap_err();
    assert_eq!(e.message(), "Parse error at 1:12: expected LBrace");
    let e = parse_source("contract A { on }").unwrap_err();
    assert_eq!(e.message(), "Parse error at 1:14: expected keyword");
    let e = parse_source("contract A { state S { x } }").unwrap_err();
    assert_eq!(e.message(), "Parse error at 1:24: expected state member: 'var' or 'on'");
    let e = parse_source("contract A { state S { on h() { ; } } }").unwrap_err();
    assert_eq!(e.message(), "Parse error at 1:33: expected expression");
    let e = parse_source("contract 5").unwrap_err();
    assert_eq!(e.message(), "Parse error at 1:10: expected identifier");
    let e = parse_source("contract A { state S { on h() { transition S; } } }").unwrap_err();
    assert_eq!(e.message(), "Parse error at 1:44: expected Arrow");
}

#[test]
fn lex_errors_come_before_parsing() {
    let e = parse_source("contract $").unwrap_err();
    assert_eq!(e.message(), "Lex error at 1:10: unexpected character '$'");
}

#[test]
fn empty_source_is_an_empty_program() {
    let p = parse_source("// nothing here\n").unwrap();
    assert!(p.items.is_empty());
}

#[test]
fn parses_contract_structure() {
    let p = parse_source(
        "shared_contract G { state D { var n: u32 = 1 + 2; on inc(a: A, b: LinearB) { n + 1; } } }",
    )
    .unwrap();
    assert_eq!(p.items.len(), 1);
    let c = match &p.items[0] {
        Item::SharedContract(c) => c,
        Item::Contract(_) => panic!("expected a shared contract"),
    };
    assert_eq!(c.name, "G");
    assert_eq!(c.states.len(), 1);
    assert_eq!(c.states[0].name, "D");
    let members = &c.states[0].members;
    assert_eq!(members.len(), 2);
    match &members[0] {
        StateMember::VarDecl(v) => {
            assert_eq!(v.name, "n");
            assert_eq!(v.ty, "u32");
            assert_eq!(v.init.to_text(), "1 + 2");
        }
        _ => panic!("expected a variable"),
    }
    match &members[1] {
        StateMember::Handler(h) => {
            assert_eq!(h.name, "inc");
            assert_eq!(h.params.len(), 2);
            assert_eq!(h.params[1].name, "b");
            assert_eq!(h.params[1].ty, "LinearB");
            assert_eq!(h.body.len(), 1);
        }
        _ => panic!("expected a handler"),
    }
}

#[test]
fn expressions_are_left_associative_with_comparisons_below_sums() {
    let p = parse_source("contract C { state S { on h() { a.b(1, x - 2) > 3 + 4 == (5 - 6 - 7); } } }")
        .unwrap();
    let body = match &p.items[0] {
        Item::Contract(c) => match &c.states[0].members[0] {
            StateMember::Handler(h) => &h.body,
            _ => panic!("expected a handler"),
        },
        _ => panic!("expected a contract"),
    };
    match &body[0] {
        Stmt::Expr(Expr::Eq(l, r)) => {
            assert!(matches!(**l, Expr::Gt(_, _)));
            match &**r {
                Expr::Sub(a, b) => {
                    assert!(matches!(**a, Expr::Sub(_, _)));
                    assert!(matches!(**b, Expr::Number(7)));
                }
                _ => panic!("expected a subtraction"),
            }
        }
        _ => panic!("expected an equality"),
    }
    match &body[0] {
        Stmt::Expr(e) => assert_eq!(e.to_text(), "a.b(1, x - 2) > 3 + 4 == 5 - 6 - 7"),
        _ => panic!("expected an expression statement"),
    }
}

#[test]
fn parses_every_statement_form() {
    let p = parse_source(
        "contract C { state S { on h(p: LinearP) {
            if (x) { call f(); } else { violation { drop p; } }
            let y = create_y(p);
            send y;
            transition -> T;
            z;
        } } }",
    )
    .unwrap();
    let body = match &p.items[0] {
        Item::Contract(c) => match &c.states[0].members[0] {
            StateMember::Handler(h) => &h.body,
            _ => panic!("expected a handler"),
        },
        _ => panic!("expected a contract"),
    };
    assert_eq!(body.len(), 5);
    assert!(matches!(&body[0], Stmt::If { else_branch: Some(_), .. }));
    assert!(matches!(&body[1], Stmt::Let { name, .. } if name == "y"));
    assert!(matches!(&body[2], Stmt::Send(Expr::Path(n)) if n == "y"));
    assert!(matches!(&body[3], Stmt::Transition(t) if t == "T"));
    assert!(matches!(&body[4], Stmt::Expr(Expr::Path(n)) if n == "z"));
}

#[test]
fn lexer_cursor_operations() {
    let mut lx = Lexer::new("ab 12x\n  // c\n q");
    assert_eq!(lx.peek(), Some('a'));
    assert_eq!(lx.peek_next(), Some('b'));
    assert_eq!(lx.lex_ident(), "ab");
    assert_eq!(lx.lex_ident(), "");
    assert_eq!(lx.lex_number().unwrap_err().message(), "Lex error at 1:3: invalid number");
    assert_eq!(lx.bump(), Some(' '));
    assert_eq!(lx.lex_number().unwrap(), 12);
    assert_eq!(lx.bump(), Some('x'));
    lx.skip_ws_and_comments();
    assert_eq!(lx.peek(), Some('q'));
    assert_eq!(lx.peek_next(), None);
    assert_eq!(lx.bump(), Some('q'));
    assert_eq!(lx.bump(), None);
    assert_eq!(lx.peek(), None);
}
