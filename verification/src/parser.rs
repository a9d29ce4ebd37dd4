//! The parser: from tokens to a syntax tree, by recursive descent.
use vstd::prelude::*;
use vstd::string::*;

use crate::ast::{
    exprs_view, views, ContractDecl, Expr, HandlerDecl, Item, Param, Program, SpecContract,
    SpecExpr, SpecHandler, SpecItem, SpecMember, SpecParam, SpecProgram, SpecState, SpecStmt,
    SpecVar, StateDecl, StateMember, Stmt, VarDecl,
};
use crate::error::{CompileError, SpecCompileError};
use crate::text::{debug_text, decimal_text, push_decimal, str_debug};
use crate::lexer::{law_tokens_end_with_one_eof, spec_tokenize, Lexer};
use crate::token::{tokens_view, Keyword, SpecToken, SpecTokenKind, Token, TokenKind};

verus! {

/// A parse result: the value and the position after it, or the error.
pub type PRes<T> = Result<(T, int), SpecCompileError>;

pub open spec fn kind_at(toks: Seq<SpecToken>, p: int) -> SpecTokenKind {
    toks[p].kind
}

/// The position after consuming the token at `p`; `Eof` is never consumed.
pub open spec fn next_pos(toks: Seq<SpecToken>, p: int) -> int {
    if toks[p].kind is Eof {
        p
    } else {
        p + 1
    }
}

/// A parse error at the span of the token at `p`.
pub open spec fn error_at(toks: Seq<SpecToken>, p: int, msg: Seq<char>) -> SpecCompileError {
    SpecCompileError::Parse { line: toks[p].span.line, col: toks[p].span.col, msg }
}

/// The value of a parse function at a position it cannot reach.
pub open spec fn stuck(toks: Seq<SpecToken>, p: int) -> SpecCompileError {
    error_at(toks, p, Seq::empty())
}

/// The variant of a token kind, as a number.
pub open spec fn kind_tag(k: SpecTokenKind) -> int {
    match k {
        SpecTokenKind::Ident(_) => 0,
        SpecTokenKind::Number(_) => 1,
        SpecTokenKind::Keyword(_) => 2,
        SpecTokenKind::LBrace => 3,
        SpecTokenKind::RBrace => 4,
        SpecTokenKind::LParen => 5,
        SpecTokenKind::RParen => 6,
        SpecTokenKind::Colon => 7,
        SpecTokenKind::Semicolon => 8,
        SpecTokenKind::Comma => 9,
        SpecTokenKind::Dot => 10,
        SpecTokenKind::Plus => 11,
        SpecTokenKind::Minus => 12,
        SpecTokenKind::EqEq => 13,
        SpecTokenKind::Greater => 14,
        SpecTokenKind::Less => 15,
        SpecTokenKind::Assign => 16,
        SpecTokenKind::Arrow => 17,
        SpecTokenKind::Eof => 18,
    }
}

pub open spec fn keyword_name(k: Keyword) -> Seq<char> {
    match k {
        Keyword::SharedContract => "SharedContract"@,
        Keyword::Contract => "Contract"@,
        Keyword::State => "State"@,
        Keyword::Var => "Var"@,
        Keyword::On => "On"@,
        Keyword::If => "If"@,
        Keyword::Else => "Else"@,
        Keyword::Call => "Call"@,
        Keyword::Let => "Let"@,
        Keyword::Send => "Send"@,
        Keyword::Transition => "Transition"@,
        Keyword::Violation => "Violation"@,
        Keyword::Drop => "Drop"@,
    }
}

/// The debugging notation of an identifier token, around the debugging notation of its name.
pub open spec fn ident_debug(quoted: Seq<char>) -> Seq<char> {
    "Ident("@ + quoted + ")"@
}

/// The debugging notation of a token kind, as used in parse errors.
pub open spec fn kind_debug(k: SpecTokenKind) -> Seq<char> {
    match k {
        SpecTokenKind::Ident(s) => ident_debug(str_debug(s)),
        SpecTokenKind::Number(n) => "Number("@ + decimal_text(n as nat) + ")"@,
        SpecTokenKind::Keyword(kw) => "Keyword("@ + keyword_name(kw) + ")"@,
        SpecTokenKind::LBrace => "LBrace"@,
        SpecTokenKind::RBrace => "RBrace"@,
        SpecTokenKind::LParen => "LParen"@,
        SpecTokenKind::RParen => "RParen"@,
        SpecTokenKind::Colon => "Colon"@,
        SpecTokenKind::Semicolon => "Semicolon"@,
        SpecTokenKind::Comma => "Comma"@,
        SpecTokenKind::Dot => "Dot"@,
        SpecTokenKind::Plus => "Plus"@,
        SpecTokenKind::Minus => "Minus"@,
        SpecTokenKind::EqEq => "EqEq"@,
        SpecTokenKind::Greater => "Greater"@,
        SpecTokenKind::Less => "Less"@,
        SpecTokenKind::Assign => "Assign"@,
        SpecTokenKind::Arrow => "Arrow"@,
        SpecTokenKind::Eof => "Eof"@,
    }
}

pub open spec fn spec_expect(toks: Seq<SpecToken>, p: int, k: SpecTokenKind) -> Result<
    int,
    SpecCompileError,
> {
    if kind_tag(kind_at(toks, p)) == kind_tag(k) {
        Ok(next_pos(toks, p))
    } else {
        Err(error_at(toks, p, "expected "@ + kind_debug(k)))
    }
}

pub open spec fn spec_expect_keyword(toks: Seq<SpecToken>, p: int, kw: Keyword) -> Result<
    int,
    SpecCompileError,
> {
    if kind_at(toks, p) == SpecTokenKind::Keyword(kw) {
        Ok(next_pos(toks, p))
    } else {
        Err(error_at(toks, p, "expected keyword"@))
    }
}

pub open spec fn spec_expect_ident(toks: Seq<SpecToken>, p: int) -> PRes<Seq<char>> {
    match kind_at(toks, p) {
        SpecTokenKind::Ident(s) => Ok((s, next_pos(toks, p))),
        _ => Err(error_at(toks, p, "expected identifier"@)),
    }
}

/// Whether the token sequence can be parsed at all: it ends with `Eof`.
pub open spec fn tokens_ok(toks: Seq<SpecToken>) -> bool {
    toks.len() > 0 && toks.last().kind is Eof
}

/// An executable parse result agrees with its model and the final position.
pub open spec fn parsed<T: View>(r: Result<T, CompileError>, s: PRes<T::V>, end: int) -> bool {
    match s {
        Ok((v, q)) => r is Ok && r->Ok_0@ == v && end == q,
        Err(e) => r is Err && r->Err_0@ == e,
    }
}

/// Like [`parsed`], for results that are only a position.
pub open spec fn moved<T>(r: Result<T, CompileError>, s: Result<int, SpecCompileError>, end: int) -> bool {
    match s {
        Ok(q) => r is Ok && end == q,
        Err(e) => r is Err && r->Err_0@ == e,
    }
}

pub open spec fn spec_parse_expr(toks: Seq<SpecToken>, p: int) -> PRes<SpecExpr>
    decreases toks.len() - p, 5int,
{
    if 0 <= p < toks.len() {
        spec_parse_comparison(toks, p)
    } else {
        Err(stuck(toks, p))
    }
}

pub open spec fn spec_parse_comparison(toks: Seq<SpecToken>, p: int) -> PRes<SpecExpr>
    decreases toks.len() - p, 4int,
{
    if 0 <= p < toks.len() {
        match spec_parse_additive(toks, p) {
            Ok((l, q)) => if p < q < toks.len() {
                spec_comparison_rest(toks, q, l)
            } else {
                Err(stuck(toks, p))
            },
            Err(e) => Err(e),
        }
    } else {
        Err(stuck(toks, p))
    }
}

/// Comparisons are left-associative: `a == b > c` is `(a == b) > c`.
pub open spec fn spec_comparison_rest(toks: Seq<SpecToken>, q: int, left: SpecExpr) -> PRes<
    SpecExpr,
>
    decreases toks.len() - q, 3int,
{
    if 0 <= q < toks.len() {
        let k = kind_at(toks, q);
        if k is EqEq || k is Greater || k is Less {
            match spec_parse_additive(toks, q + 1) {
                Ok((r, q2)) => if q < q2 < toks.len() {
                    let e = if k is EqEq {
                        SpecExpr::Eq(Box::new(left), Box::new(r))
                    } else if k is Greater {
                        SpecExpr::Gt(Box::new(left), Box::new(r))
                    } else {
                        SpecExpr::Lt(Box::new(left), Box::new(r))
                    };
                    spec_comparison_rest(toks, q2, e)
                } else {
                    Err(stuck(toks, q))
                },
                Err(e) => Err(e),
            }
        } else {
            Ok((left, q))
        }
    } else {
        Err(stuck(toks, q))
    }
}

pub open spec fn spec_parse_additive(toks: Seq<SpecToken>, p: int) -> PRes<SpecExpr>
    decreases toks.len() - p, 2int,
{
    if 0 <= p < toks.len() {
        match spec_parse_primary(toks, p) {
            Ok((l, q)) => if p < q < toks.len() {
                spec_additive_rest(toks, q, l)
            } else {
                Err(stuck(toks, p))
            },
            Err(e) => Err(e),
        }
    } else {
        Err(stuck(toks, p))
    }
}

/// Sums are left-associative: `a - b + c` is `(a - b) + c`.
pub open spec fn spec_additive_rest(toks: Seq<SpecToken>, q: int, left: SpecExpr) -> PRes<SpecExpr>
    decreases toks.len() - q, 1int,
{
    if 0 <= q < toks.len() {
        let k = kind_at(toks, q);
        if k is Plus || k is Minus {
            match spec_parse_primary(toks, q + 1) {
                Ok((r, q2)) => if q < q2 < toks.len() {
                    let e = if k is Plus {
                        SpecExpr::Add(Box::new(left), Box::new(r))
                    } else {
                        SpecExpr::Sub(Box::new(left), Box::new(r))
                    };
                    spec_additive_rest(toks, q2, e)
                } else {
                    Err(stuck(toks, q))
                },
                Err(e) => Err(e),
            }
        } else {
            Ok((left, q))
        }
    } else {
        Err(stuck(toks, q))
    }
}

pub open spec fn spec_parse_primary(toks: Seq<SpecToken>, p: int) -> PRes<SpecExpr>
    decreases toks.len() - p, 0int,
{
    if 0 <= p < toks.len() {
        match kind_at(toks, p) {
            SpecTokenKind::Number(n) => Ok((SpecExpr::Number(n), p + 1)),
            SpecTokenKind::Ident(_) => match spec_parse_path(toks, p) {
                Ok((path, q)) => if p < q < toks.len() {
                    if kind_at(toks, q) is LParen {
                        spec_call_tail(toks, q + 1, path)
                    } else {
                        Ok((SpecExpr::Path(path), q))
                    }
                } else {
                    Err(stuck(toks, p))
                },
                Err(e) => Err(e),
            },
            SpecTokenKind::LParen => match spec_parse_expr(toks, p + 1) {
                Ok((e, q)) => match spec_expect(toks, q, SpecTokenKind::RParen) {
                    Ok(q2) => Ok((e, q2)),
                    Err(err) => Err(err),
                },
                Err(err) => Err(err),
            },
            _ => Err(error_at(toks, p, "expected expression"@)),
        }
    } else {
        Err(stuck(toks, p))
    }
}

/// The arguments of a call, from just after its `(`.
pub open spec fn spec_call_tail(toks: Seq<SpecToken>, q: int, target: Seq<char>) -> PRes<SpecExpr>
    decreases toks.len() - q, 7int,
{
    if 0 <= q < toks.len() {
        if kind_at(toks, q) is RParen {
            Ok((SpecExpr::Call { target, args: Seq::empty() }, q + 1))
        } else {
            spec_call_args(toks, q, target, Seq::empty())
        }
    } else {
        Err(stuck(toks, q))
    }
}

/// Comma-separated arguments after those already read (`acc`), then `)`.
pub open spec fn spec_call_args(
    toks: Seq<SpecToken>,
    q: int,
    target: Seq<char>,
    acc: Seq<SpecExpr>,
) -> PRes<SpecExpr>
    decreases toks.len() - q, 6int,
{
    if 0 <= q < toks.len() {
        match spec_parse_expr(toks, q) {
            Ok((a, q2)) => if q < q2 < toks.len() {
                let acc2 = acc.push(a);
                if kind_at(toks, q2) is Comma {
                    spec_call_args(toks, q2 + 1, target, acc2)
                } else {
                    match spec_expect(toks, q2, SpecTokenKind::RParen) {
                        Ok(q3) => Ok((SpecExpr::Call { target, args: acc2 }, q3)),
                        Err(e) => Err(e),
                    }
                }
            } else {
                Err(stuck(toks, q))
            },
            Err(e) => Err(e),
        }
    } else {
        Err(stuck(toks, q))
    }
}

/// A dotted path such as `a.b.c`, kept as one name.
pub open spec fn spec_parse_path(toks: Seq<SpecToken>, p: int) -> PRes<Seq<char>> {
    match spec_expect_ident(toks, p) {
        Ok((s, q)) => spec_path_rest(toks, q, s),
        Err(e) => Err(e),
    }
}

pub open spec fn spec_path_rest(toks: Seq<SpecToken>, q: int, acc: Seq<char>) -> PRes<Seq<char>>
    decreases toks.len() - q,
{
    if 0 <= q < toks.len() {
        if kind_at(toks, q) is Dot {
            match spec_expect_ident(toks, q + 1) {
                Ok((s, q2)) => if q < q2 < toks.len() {
                    spec_path_rest(toks, q2, acc + "."@ + s)
                } else {
                    Err(stuck(toks, q))
                },
                Err(e) => Err(e),
            }
        } else {
            Ok((acc, q))
        }
    } else {
        Err(stuck(toks, q))
    }
}

/// An expression followed by `;`.
pub open spec fn spec_expr_semi(toks: Seq<SpecToken>, p: int) -> PRes<SpecExpr> {
    match spec_parse_expr(toks, p) {
        Ok((e, q)) => match spec_expect(toks, q, SpecTokenKind::Semicolon) {
            Ok(q2) => Ok((e, q2)),
            Err(err) => Err(err),
        },
        Err(err) => Err(err),
    }
}

pub open spec fn spec_parse_block(toks: Seq<SpecToken>, p: int) -> PRes<Seq<SpecStmt>>
    decreases toks.len() - p, 2int,
{
    if 0 <= p < toks.len() {
        match spec_expect(toks, p, SpecTokenKind::LBrace) {
            Ok(q) => if p < q < toks.len() {
                spec_block_items(toks, q, Seq::empty())
            } else {
                Err(stuck(toks, p))
            },
            Err(e) => Err(e),
        }
    } else {
        Err(stuck(toks, p))
    }
}

/// The statements of a block after those already read (`acc`), then `}`.
pub open spec fn spec_block_items(toks: Seq<SpecToken>, q: int, acc: Seq<SpecStmt>) -> PRes<
    Seq<SpecStmt>,
>
    decreases toks.len() - q, 1int,
{
    if 0 <= q < toks.len() {
        if kind_at(toks, q) is RBrace {
            Ok((acc, q + 1))
        } else {
            match spec_parse_stmt(toks, q) {
                Ok((st, q2)) => if q < q2 < toks.len() {
                    spec_block_items(toks, q2, acc.push(st))
                } else {
                    Err(stuck(toks, q))
                },
                Err(e) => Err(e),
            }
        }
    } else {
        Err(stuck(toks, q))
    }
}

pub open spec fn spec_parse_stmt(toks: Seq<SpecToken>, p: int) -> PRes<SpecStmt>
    decreases toks.len() - p, 0int,
{
    if 0 <= p < toks.len() {
        match kind_at(toks, p) {
            SpecTokenKind::Keyword(Keyword::If) => spec_if_stmt(toks, p + 1),
            SpecTokenKind::Keyword(Keyword::Call) => match spec_expr_semi(toks, p + 1) {
                Ok((e, q)) => Ok((SpecStmt::Call(e), q)),
                Err(err) => Err(err),
            },
            SpecTokenKind::Keyword(Keyword::Let) => spec_let_stmt(toks, p + 1),
            SpecTokenKind::Keyword(Keyword::Send) => match spec_expr_semi(toks, p + 1) {
                Ok((e, q)) => Ok((SpecStmt::Send(e), q)),
                Err(err) => Err(err),
            },
            SpecTokenKind::Keyword(Keyword::Transition) => spec_transition_stmt(toks, p + 1),
            SpecTokenKind::Keyword(Keyword::Violation) => match spec_parse_block(toks, p + 1) {
                Ok((b, q)) => Ok((SpecStmt::Violation(b), q)),
                Err(err) => Err(err),
            },
            SpecTokenKind::Keyword(Keyword::Drop) => match spec_expr_semi(toks, p + 1) {
                Ok((e, q)) => Ok((SpecStmt::Drop(e), q)),
                Err(err) => Err(err),
            },
            _ => match spec_expr_semi(toks, p) {
                Ok((e, q)) => Ok((SpecStmt::Expr(e), q)),
                Err(err) => Err(err),
            },
        }
    } else {
        Err(stuck(toks, p))
    }
}

/// An `if` statement after its keyword: `( cond ) { .. }`, then maybe `else { .. }`.
pub open spec fn spec_if_stmt(toks: Seq<SpecToken>, q: int) -> PRes<SpecStmt>
    decreases toks.len() - q, 3int,
{
    if 0 <= q < toks.len() {
        match spec_expect(toks, q, SpecTokenKind::LParen) {
            Ok(q1) => match spec_parse_expr(toks, q1) {
                Ok((cond, q2)) => match spec_expect(toks, q2, SpecTokenKind::RParen) {
                    Ok(q3) => if q < q3 < toks.len() {
                        match spec_parse_block(toks, q3) {
                            Ok((then_branch, q4)) => if q3 < q4 < toks.len() {
                                if kind_at(toks, q4) == SpecTokenKind::Keyword(Keyword::Else) {
                                    match spec_parse_block(toks, q4 + 1) {
                                        Ok((else_b, q5)) => Ok(
                                            (
                                                SpecStmt::If {
                                                    cond,
                                                    then_branch,
                                                    else_branch: Some(else_b),
                                                },
                                                q5,
                                            ),
                                        ),
                                        Err(e) => Err(e),
                                    }
                                } else {
                                    Ok((SpecStmt::If { cond, then_branch, else_branch: None }, q4))
                                }
                            } else {
                                Err(stuck(toks, q))
                            },
                            Err(e) => Err(e),
                        }
                    } else {
                        Err(stuck(toks, q))
                    },
                    Err(e) => Err(e),
                },
                Err(e) => Err(e),
            },
            Err(e) => Err(e),
        }
    } else {
        Err(stuck(toks, q))
    }
}

/// A `let` statement after its keyword: `name = expr ;`.
pub open spec fn spec_let_stmt(toks: Seq<SpecToken>, q: int) -> PRes<SpecStmt> {
    match spec_expect_ident(toks, q) {
        Ok((name, q1)) => match spec_expect(toks, q1, SpecTokenKind::Assign) {
            Ok(q2) => match spec_expr_semi(toks, q2) {
                Ok((expr, q3)) => Ok((SpecStmt::Let { name, expr }, q3)),
                Err(e) => Err(e),
            },
            Err(e) => Err(e),
        },
        Err(e) => Err(e),
    }
}

/// A `transition` statement after its keyword: `-> target ;`.
pub open spec fn spec_transition_stmt(toks: Seq<SpecToken>, q: int) -> PRes<SpecStmt> {
    match spec_expect(toks, q, SpecTokenKind::Arrow) {
        Ok(q1) => match spec_expect_ident(toks, q1) {
            Ok((target, q2)) => match spec_expect(toks, q2, SpecTokenKind::Semicolon) {
                Ok(q3) => Ok((SpecStmt::Transition(target), q3)),
                Err(e) => Err(e),
            },
            Err(e) => Err(e),
        },
        Err(e) => Err(e),
    }
}

/// The parameters of a handler, from just after its `(`; the `)` is not read.
#[verifier::opaque]
pub open spec fn spec_params(toks: Seq<SpecToken>, q: int) -> PRes<Seq<SpecParam>> {
    if kind_at(toks, q) is RParen {
        Ok((Seq::empty(), q))
    } else {
        spec_params_items(toks, q, Seq::empty())
    }
}

pub open spec fn spec_params_items(toks: Seq<SpecToken>, q: int, acc: Seq<SpecParam>) -> PRes<
    Seq<SpecParam>,
>
    decreases toks.len() - q,
{
    if 0 <= q < toks.len() {
        match spec_expect_ident(toks, q) {
            Ok((name, q1)) => match spec_expect(toks, q1, SpecTokenKind::Colon) {
                Ok(q2) => match spec_expect_ident(toks, q2) {
                    Ok((ty, q3)) => {
                        let acc2 = acc.push(SpecParam { name, ty });
                        if q < q3 < toks.len() && kind_at(toks, q3) is Comma {
                            spec_params_items(toks, q3 + 1, acc2)
                        } else {
                            Ok((acc2, q3))
                        }
                    },
                    Err(e) => Err(e),
                },
                Err(e) => Err(e),
            },
            Err(e) => Err(e),
        }
    } else {
        Err(stuck(toks, q))
    }
}

#[verifier::opaque]
pub open spec fn spec_parse_state_member(toks: Seq<SpecToken>, p: int) -> PRes<SpecMember> {
    match kind_at(toks, p) {
        SpecTokenKind::Keyword(Keyword::Var) => spec_var_decl(toks, p + 1),
        SpecTokenKind::Keyword(Keyword::On) => spec_handler_decl(toks, p + 1),
        _ => Err(error_at(toks, p, "expected state member: 'var' or 'on'"@)),
    }
}

/// A state variable after `var`: `name : ty = expr ;`.
#[verifier::opaque]
pub open spec fn spec_var_decl(toks: Seq<SpecToken>, q: int) -> PRes<SpecMember> {
    match spec_expect_ident(toks, q) {
        Ok((name, q1)) => match spec_expect(toks, q1, SpecTokenKind::Colon) {
            Ok(q2) => match spec_expect_ident(toks, q2) {
                Ok((ty, q3)) => match spec_expect(toks, q3, SpecTokenKind::Assign) {
                    Ok(q4) => match spec_expr_semi(toks, q4) {
                        Ok((init, q5)) => Ok((SpecMember::VarDecl(SpecVar { name, ty, init }), q5)),
                        Err(e) => Err(e),
                    },
                    Err(e) => Err(e),
                },
                Err(e) => Err(e),
            },
            Err(e) => Err(e),
        },
        Err(e) => Err(e),
    }
}

/// A handler after `on`: `name ( params ) { body }`.
#[verifier::opaque]
pub open spec fn spec_handler_decl(toks: Seq<SpecToken>, q: int) -> PRes<SpecMember> {
    match spec_expect_ident(toks, q) {
        Ok((name, q1)) => match spec_expect(toks, q1, SpecTokenKind::LParen) {
            Ok(q2) => match spec_params(toks, q2) {
                Ok((params, q3)) => match spec_expect(toks, q3, SpecTokenKind::RParen) {
                    Ok(q4) => match spec_parse_block(toks, q4) {
                        Ok((body, q5)) => Ok(
                            (SpecMember::Handler(SpecHandler { name, params, body }), q5),
                        ),
                        Err(e) => Err(e),
                    },
                    Err(e) => Err(e),
                },
                Err(e) => Err(e),
            },
            Err(e) => Err(e),
        },
        Err(e) => Err(e),
    }
}

#[verifier::opaque]
pub open spec fn spec_parse_state_decl(toks: Seq<SpecToken>, p: int) -> PRes<SpecState> {
    match spec_expect_keyword(toks, p, Keyword::State) {
        Ok(q) => match spec_expect_ident(toks, q) {
            Ok((name, q1)) => match spec_expect(toks, q1, SpecTokenKind::LBrace) {
                Ok(q2) => match spec_members_items(toks, q2, Seq::empty()) {
                    Ok((members, q3)) => Ok((SpecState { name, members }, q3)),
                    Err(e) => Err(e),
                },
                Err(e) => Err(e),
            },
            Err(e) => Err(e),
        },
        Err(e) => Err(e),
    }
}

pub open spec fn spec_members_items(toks: Seq<SpecToken>, q: int, acc: Seq<SpecMember>) -> PRes<
    Seq<SpecMember>,
>
    decreases toks.len() - q,
{
    if 0 <= q < toks.len() {
        if kind_at(toks, q) is RBrace {
            Ok((acc, q + 1))
        } else {
            match spec_parse_state_member(toks, q) {
                Ok((m, q2)) => if q < q2 < toks.len() {
                    spec_members_items(toks, q2, acc.push(m))
                } else {
                    Err(stuck(toks, q))
                },
                Err(e) => Err(e),
            }
        }
    } else {
        Err(stuck(toks, q))
    }
}

#[verifier::opaque]
pub open spec fn spec_parse_contract_body(toks: Seq<SpecToken>, p: int) -> PRes<SpecContract> {
    match spec_expect_ident(toks, p) {
        Ok((name, q)) => match spec_expect(toks, q, SpecTokenKind::LBrace) {
            Ok(q1) => match spec_states_items(toks, q1, Seq::empty()) {
                Ok((states, q2)) => Ok((SpecContract { name, states }, q2)),
                Err(e) => Err(e),
            },
            Err(e) => Err(e),
        },
        Err(e) => Err(e),
    }
}

pub open spec fn spec_states_items(toks: Seq<SpecToken>, q: int, acc: Seq<SpecState>) -> PRes<
    Seq<SpecState>,
>
    decreases toks.len() - q,
{
    if 0 <= q < toks.len() {
        if kind_at(toks, q) is RBrace {
            Ok((acc, q + 1))
        } else {
            match spec_parse_state_decl(toks, q) {
                Ok((st, q2)) => if q < q2 < toks.len() {
                    spec_states_items(toks, q2, acc.push(st))
                } else {
                    Err(stuck(toks, q))
                },
                Err(e) => Err(e),
            }
        }
    } else {
        Err(stuck(toks, q))
    }
}

#[verifier::opaque]
pub open spec fn spec_parse_item(toks: Seq<SpecToken>, p: int) -> PRes<SpecItem> {
    match kind_at(toks, p) {
        SpecTokenKind::Keyword(Keyword::SharedContract) => match spec_parse_contract_body(
            toks,
            p + 1,
        ) {
            Ok((c, q)) => Ok((SpecItem::SharedContract(c), q)),
            Err(e) => Err(e),
        },
        SpecTokenKind::Keyword(Keyword::Contract) => match spec_parse_contract_body(toks, p + 1) {
            Ok((c, q)) => Ok((SpecItem::Contract(c), q)),
            Err(e) => Err(e),
        },
        _ => Err(error_at(toks, p, "expected 'shared_contract' or 'contract'"@)),
    }
}

/// The items of a program after those already read (`acc`), up to `Eof`.
pub open spec fn spec_program_items(toks: Seq<SpecToken>, p: int, acc: Seq<SpecItem>) -> PRes<
    Seq<SpecItem>,
>
    decreases toks.len() - p,
{
    if 0 <= p < toks.len() {
        if kind_at(toks, p) is Eof {
            Ok((acc, p))
        } else {
            match spec_parse_item(toks, p) {
                Ok((it, q)) => if p < q < toks.len() {
                    spec_program_items(toks, q, acc.push(it))
                } else {
                    Err(stuck(toks, p))
                },
                Err(e) => Err(e),
            }
        }
    } else {
        Err(stuck(toks, p))
    }
}

/// The program that the tokens from `p` on spell.
pub open spec fn spec_parse_program(toks: Seq<SpecToken>, p: int) -> PRes<SpecProgram> {
    match spec_program_items(toks, p, Seq::empty()) {
        Ok((items, q)) => Ok((SpecProgram { items }, q)),
        Err(e) => Err(e),
    }
}

/// Like [`parsed`], for lists whose model is the sequence of the models of their elements.
pub open spec fn parsed_list<T: View>(
    r: Result<Vec<T>, CompileError>,
    s: PRes<Seq<T::V>>,
    end: int,
) -> bool {
    match s {
        Ok((v, q)) => r is Ok && views(r->Ok_0@) == v && end == q,
        Err(e) => r is Err && r->Err_0@ == e,
    }
}

pub struct Parser {
    tokens: Vec<Token>,
    idx: usize,
}

impl Parser {
    /// The models of the tokens being parsed.
    pub closed spec fn toks(&self) -> Seq<SpecToken> {
        tokens_view(self.tokens@)
    }

    /// The index of the current token.
    pub closed spec fn pos(&self) -> int {
        self.idx as int
    }

    /// The tokens end with `Eof` and the position is within them.
    pub closed spec fn wf(&self) -> bool {
        &&& tokens_ok(self.toks())
        &&& self.idx < self.tokens.len()
    }

    proof fn lemma_wf(&self)
        requires
            self.wf(),
        ensures
            0 <= self.pos() < self.toks().len(),
            self.toks().len() == self.tokens@.len(),
            self.toks()[self.pos()] == self.tokens@[self.pos()]@,
            !(self.toks()[self.pos()].kind is Eof) ==> self.pos() + 1 < self.toks().len(),
    {
    }

    pub fn new(tokens: Vec<Token>) -> (p: Self)
        requires
            tokens_ok(tokens_view(tokens@)),
        ensures
            p.wf(),
            p.toks() == tokens_view(tokens@),
            p.pos() == 0,
    {
        Parser { tokens, idx: 0 }
    }

    pub fn peek_kind(&self) -> (k: &TokenKind)
        requires
            self.wf(),
        ensures
            k@ == kind_at(self.toks(), self.pos()),
    {
        &self.tokens[self.idx].kind
    }

    pub fn bump(&mut self)
        requires
            old(self).wf(),
        ensures
            final(self).wf(),
            final(self).toks() == old(self).toks(),
            final(self).pos() == next_pos(old(self).toks(), old(self).pos()),
    {
        if !self.is_eof() {
            self.idx = self.idx + 1;
        }
    }

    pub fn is_eof(&self) -> (b: bool)
        requires
            self.wf(),
        ensures
            b == (kind_at(self.toks(), self.pos()) is Eof),
    {
        matches!(self.peek_kind(), TokenKind::Eof)
    }

    pub fn check(&self, kind: &TokenKind) -> (b: bool)
        requires
            self.wf(),
        ensures
            b == (kind_tag(kind_at(self.toks(), self.pos())) == kind_tag(kind@)),
    {
        kind_tag_of(self.peek_kind()) == kind_tag_of(kind)
    }

    pub fn matches_keyword(&self, kw: Keyword) -> (b: bool)
        requires
            self.wf(),
        ensures
            b == (kind_at(self.toks(), self.pos()) == SpecTokenKind::Keyword(kw)),
    {
        match self.peek_kind() {
            TokenKind::Keyword(k) => *k == kw,
            _ => false,
        }
    }

    pub fn error_here<T>(&self, msg: &str) -> (r: Result<T, CompileError>)
        requires
            self.wf(),
        ensures
            r is Err,
            r->Err_0@ == error_at(self.toks(), self.pos(), msg@),
    {
        let span = self.tokens[self.idx].span;
        Err(CompileError::Parse { line: span.line, col: span.col, msg: String::from_str(msg) })
    }

    pub fn expect(&mut self, kind: &TokenKind) -> (r: Result<(), CompileError>)
        requires
            old(self).wf(),
        ensures
            final(self).wf(),
            final(self).toks() == old(self).toks(),
            moved(r, spec_expect(old(self).toks(), old(self).pos(), kind@), final(self).pos()),
    {
        if self.check(kind) {
            self.bump();
            Ok(())
        } else {
            let mut msg = String::from_str("expected ");
            append_kind_debug(&mut msg, kind);
            let span = self.tokens[self.idx].span;
            Err(CompileError::Parse { line: span.line, col: span.col, msg })
        }
    }

    pub fn expect_keyword(&mut self, kw: Keyword) -> (r: Result<(), CompileError>)
        requires
            old(self).wf(),
        ensures
            final(self).wf(),
            final(self).toks() == old(self).toks(),
            moved(r, spec_expect_keyword(old(self).toks(), old(self).pos(), kw), final(self).pos()),
    {
        if self.matches_keyword(kw) {
            self.bump();
            Ok(())
        } else {
            self.error_here("expected keyword")
        }
    }

    pub fn expect_ident(&mut self) -> (r: Result<String, CompileError>)
        requires
            old(self).wf(),
        ensures
            final(self).wf(),
            final(self).toks() == old(self).toks(),
            parsed(r, spec_expect_ident(old(self).toks(), old(self).pos()), final(self).pos()),
            r is Ok ==> final(self).pos() == old(self).pos() + 1,
    {
        match self.peek_kind() {
            TokenKind::Ident(s) => {
                let out = s.clone();
                self.bump();
                Ok(out)
            },
            _ => self.error_here("expected identifier"),
        }
    }

    pub fn parse_path(&mut self) -> (r: Result<String, CompileError>)
        requires
            old(self).wf(),
        ensures
            final(self).wf(),
            final(self).toks() == old(self).toks(),
            parsed(r, spec_parse_path(old(self).toks(), old(self).pos()), final(self).pos()),
            r is Ok ==> old(self).pos() < final(self).pos(),
    {
        let ghost toks = self.toks();
        let ghost p0 = self.pos();
        let mut path = self.expect_ident()?;
        loop
            invariant
                self.wf(),
                self.toks() == toks,
                toks == old(self).toks(),
                p0 == old(self).pos(),
                0 <= p0 < self.pos(),
                spec_parse_path(toks, p0) == spec_path_rest(toks, self.pos(), path@),
            ensures
                self.wf(),
                self.toks() == toks,
                toks == old(self).toks(),
                p0 == old(self).pos(),
                0 <= p0 < self.pos(),
                spec_parse_path(toks, p0) == Ok::<(Seq<char>, int), SpecCompileError>(
                    (path@, self.pos()),
                ),
            decreases toks.len() - self.pos(),
        {
            proof {
                self.lemma_wf();
            }
            if !self.check(&TokenKind::Dot) {
                break;
            }
            self.bump();
            let part = self.expect_ident()?;
            path.append(".");
            path.append(part.as_str());
            proof {
                self.lemma_wf();
            }
        }
        Ok(path)
    }

    pub fn parse_expr(&mut self) -> (r: Result<Expr, CompileError>)
        requires
            old(self).wf(),
        ensures
            final(self).wf(),
            final(self).toks() == old(self).toks(),
            parsed(r, spec_parse_expr(old(self).toks(), old(self).pos()), final(self).pos()),
            r is Ok ==> old(self).pos() < final(self).pos(),
        decreases old(self).toks().len() - old(self).pos(), 5int,
    {
        proof {
            self.lemma_wf();
        }
        self.parse_comparison()
    }

    pub fn parse_comparison(&mut self) -> (r: Result<Expr, CompileError>)
        requires
            old(self).wf(),
        ensures
            final(self).wf(),
            final(self).toks() == old(self).toks(),
            parsed(r, spec_parse_comparison(old(self).toks(), old(self).pos()), final(self).pos()),
            r is Ok ==> old(self).pos() < final(self).pos(),
        decreases old(self).toks().len() - old(self).pos(), 4int,
    {
        proof {
            self.lemma_wf();
        }
        let ghost toks = self.toks();
        let ghost p0 = self.pos();
        let mut left = self.parse_additive()?;
        loop
            invariant
                self.wf(),
                self.toks() == toks,
                toks == old(self).toks(),
                p0 == old(self).pos(),
                0 <= p0 < self.pos(),
                spec_parse_comparison(toks, p0) == spec_comparison_rest(toks, self.pos(), left@),
            ensures
                self.wf(),
                self.toks() == toks,
                toks == old(self).toks(),
                p0 == old(self).pos(),
                0 <= p0 < self.pos(),
                spec_parse_comparison(toks, p0) == Ok::<(SpecExpr, int), SpecCompileError>(
                    (left@, self.pos()),
                ),
            decreases toks.len() - self.pos(),
        {
            proof {
                self.lemma_wf();
            }
            if self.check(&TokenKind::EqEq) {
                self.bump();
                let right = self.parse_additive()?;
                left = Expr::Eq(Box::new(left), Box::new(right));
                continue;
            }
            if self.check(&TokenKind::Greater) {
                self.bump();
                let right = self.parse_additive()?;
                left = Expr::Gt(Box::new(left), Box::new(right));
                continue;
            }
            if self.check(&TokenKind::Less) {
                self.bump();
                let right = self.parse_additive()?;
                left = Expr::Lt(Box::new(left), Box::new(right));
                continue;
            }
            break;
        }
        Ok(left)
    }

    pub fn parse_additive(&mut self) -> (r: Result<Expr, CompileError>)
        requires
            old(self).wf(),
        ensures
            final(self).wf(),
            final(self).toks() == old(self).toks(),
            parsed(r, spec_parse_additive(old(self).toks(), old(self).pos()), final(self).pos()),
            r is Ok ==> old(self).pos() < final(self).pos(),
        decreases old(self).toks().len() - old(self).pos(), 2int,
    {
        proof {
            self.lemma_wf();
        }
        let ghost toks = self.toks();
        let ghost p0 = self.pos();
        let mut left = self.parse_primary()?;
        loop
            invariant
                self.wf(),
                self.toks() == toks,
                toks == old(self).toks(),
                p0 == old(self).pos(),
                0 <= p0 < self.pos(),
                spec_parse_additive(toks, p0) == spec_additive_rest(toks, self.pos(), left@),
            ensures
                self.wf(),
                self.toks() == toks,
                toks == old(self).toks(),
                p0 == old(self).pos(),
                0 <= p0 < self.pos(),
                spec_parse_additive(toks, p0) == Ok::<(SpecExpr, int), SpecCompileError>(
                    (left@, self.pos()),
                ),
            decreases toks.len() - self.pos(),
        {
            proof {
                self.lemma_wf();
            }
            if self.check(&TokenKind::Plus) {
                self.bump();
                let right = self.parse_primary()?;
                left = Expr::Add(Box::new(left), Box::new(right));
                continue;
            }
            if self.check(&TokenKind::Minus) {
                self.bump();
                let right = self.parse_primary()?;
                left = Expr::Sub(Box::new(left), Box::new(right));
                continue;
            }
            break;
        }
        Ok(left)
    }

    pub fn parse_primary(&mut self) -> (r: Result<Expr, CompileError>)
        requires
            old(self).wf(),
        ensures
            final(self).wf(),
            final(self).toks() == old(self).toks(),
            parsed(r, spec_parse_primary(old(self).toks(), old(self).pos()), final(self).pos()),
            r is Ok ==> old(self).pos() < final(self).pos(),
        decreases old(self).toks().len() - old(self).pos(), 0int,
    {
        proof {
            self.lemma_wf();
        }
        let ghost toks = self.toks();
        let ghost p0 = self.pos();
        match self.peek_kind() {
            TokenKind::Number(n) => {
                let value = *n;
                self.bump();
                Ok(Expr::Number(value))
            },
            TokenKind::Ident(_) => {
                let path = self.parse_path()?;
                proof {
                    self.lemma_wf();
                }
                if self.check(&TokenKind::LParen) {
                    self.bump();
                    proof {
                        self.lemma_wf();
                    }
                    self.parse_call_tail(path)
                } else {
                    Ok(Expr::Path(path))
                }
            },
            TokenKind::LParen => {
                self.bump();
                let expr = self.parse_expr()?;
                self.expect(&TokenKind::RParen)?;
                Ok(expr)
            },
            _ => self.error_here("expected expression"),
        }
    }

    /// The arguments of a call to `target`, from just after its `(`.
    fn parse_call_tail(&mut self, target: String) -> (r: Result<Expr, CompileError>)
        requires
            old(self).wf(),
        ensures
            final(self).wf(),
            final(self).toks() == old(self).toks(),
            parsed(
                r,
                spec_call_tail(old(self).toks(), old(self).pos(), target@),
                final(self).pos(),
            ),
            r is Ok ==> old(self).pos() < final(self).pos(),
        decreases old(self).toks().len() - old(self).pos(), 7int,
    {
        proof {
            self.lemma_wf();
        }
        let ghost toks = self.toks();
        let ghost q0 = self.pos();
        let mut args: Vec<Expr> = Vec::new();
        assert(exprs_view(args@) =~= Seq::<SpecExpr>::empty());
        if !self.check(&TokenKind::RParen) {
            loop
                invariant_except_break
                    spec_call_tail(toks, q0, target@) == spec_call_args(
                        toks,
                        self.pos(),
                        target@,
                        exprs_view(args@),
                    ),
                invariant
                    self.wf(),
                    self.toks() == toks,
                    toks == old(self).toks(),
                    q0 == old(self).pos(),
                    0 <= q0 <= self.pos(),
                    !(kind_at(toks, q0) is RParen),
                ensures
                    self.wf(),
                    self.toks() == toks,
                    toks == old(self).toks(),
                    q0 == old(self).pos(),
                    0 <= q0 < self.pos(),
                    spec_call_tail(toks, q0, target@) == match spec_expect(
                        toks,
                        self.pos(),
                        SpecTokenKind::RParen,
                    ) {
                        Ok(q3) => Ok((SpecExpr::Call { target: target@, args: exprs_view(args@) }, q3)),
                        Err(e) => Err(e),
                    },
                decreases toks.len() - self.pos(),
            {
                proof {
                    self.lemma_wf();
                }
                let ghost before = self.pos();
                let a = self.parse_expr()?;
                proof {
                    self.lemma_wf();
                    assert(exprs_view(args@.push(a)) =~= exprs_view(args@).push(a@));
                }
                args.push(a);
                if self.check(&TokenKind::Comma) {
                    self.bump();
                    continue;
                }
                break;
            }
        }
        self.expect(&TokenKind::RParen)?;
        let e = Expr::Call { target, args };
        proof {
            assert(e@ == (SpecExpr::Call { target: target@, args: exprs_view(args@) })) by {
                assert(exprs_view(args@) =~= match e@ {
                    SpecExpr::Call { args, .. } => args,
                    _ => Seq::empty(),
                });
            }
        }
        Ok(e)
    }

    pub fn parse_block(&mut self) -> (r: Result<Vec<Stmt>, CompileError>)
        requires
            old(self).wf(),
        ensures
            final(self).wf(),
            final(self).toks() == old(self).toks(),
            parsed_list(r, spec_parse_block(old(self).toks(), old(self).pos()), final(self).pos()),
            r is Ok ==> old(self).pos() < final(self).pos(),
        decreases old(self).toks().len() - old(self).pos(), 2int,
    {
        proof {
            self.lemma_wf();
        }
        let ghost toks = self.toks();
        let ghost p0 = self.pos();
        self.expect(&TokenKind::LBrace)?;
        let mut stmts: Vec<Stmt> = Vec::new();
        assert(views(stmts@) =~= Seq::<SpecStmt>::empty());
        loop
            invariant
                self.wf(),
                self.toks() == toks,
                toks == old(self).toks(),
                p0 == old(self).pos(),
                0 <= p0 < self.pos(),
                spec_parse_block(toks, p0) == spec_block_items(toks, self.pos(), views(stmts@)),
            ensures
                self.wf(),
                self.toks() == toks,
                0 <= p0 < self.pos(),
                spec_parse_block(toks, p0) == spec_block_items(toks, self.pos(), views(stmts@)),
                kind_at(toks, self.pos()) is RBrace,
            decreases toks.len() - self.pos(),
        {
            proof {
                self.lemma_wf();
            }
            if self.check(&TokenKind::RBrace) {
                break;
            }
            let st = self.parse_stmt()?;
            proof {
                self.lemma_wf();
                assert(views(stmts@.push(st)) =~= views(stmts@).push(st@));
            }
            stmts.push(st);
        }
        proof {
            self.lemma_wf();
        }
        self.expect(&TokenKind::RBrace)?;
        Ok(stmts)
    }

    /// An expression followed by `;`.
    fn parse_expr_semi(&mut self) -> (r: Result<Expr, CompileError>)
        requires
            old(self).wf(),
        ensures
            final(self).wf(),
            final(self).toks() == old(self).toks(),
            parsed(r, spec_expr_semi(old(self).toks(), old(self).pos()), final(self).pos()),
            r is Ok ==> old(self).pos() < final(self).pos(),
    {
        let expr = self.parse_expr()?;
        proof {
            self.lemma_wf();
        }
        self.expect(&TokenKind::Semicolon)?;
        Ok(expr)
    }

    pub fn parse_stmt(&mut self) -> (r: Result<Stmt, CompileError>)
        requires
            old(self).wf(),
        ensures
            final(self).wf(),
            final(self).toks() == old(self).toks(),
            parsed(r, spec_parse_stmt(old(self).toks(), old(self).pos()), final(self).pos()),
            r is Ok ==> old(self).pos() < final(self).pos(),
        decreases old(self).toks().len() - old(self).pos(), 0int,
    {
        proof {
            self.lemma_wf();
        }
        let ghost toks = self.toks();
        let ghost p0 = self.pos();
        match self.peek_kind() {
            TokenKind::Keyword(Keyword::If) => {
                self.bump();
                self.expect(&TokenKind::LParen)?;
                let cond = self.parse_expr()?;
                self.expect(&TokenKind::RParen)?;
                proof {
                    self.lemma_wf();
                }
                let then_branch = self.parse_block()?;
                let ghost q4 = self.pos();
                proof {
                    self.lemma_wf();
                }
                let else_branch = if self.matches_keyword(Keyword::Else) {
                    self.bump();
                    Some(self.parse_block()?)
                } else {
                    None
                };
                let ghost tb = then_branch;
                let ghost eb = else_branch;
                let st = Stmt::If { cond, then_branch, else_branch };
                proof {
                    assert(views(tb@) =~= match st@ {
                        SpecStmt::If { then_branch, .. } => then_branch,
                        _ => Seq::empty(),
                    });
                    if let Some(b) = eb {
                        assert(views(b@) =~= match st@ {
                            SpecStmt::If { else_branch: Some(e), .. } => e,
                            _ => Seq::empty(),
                        });
                    }
                }
                Ok(st)
            },
            TokenKind::Keyword(Keyword::Call) => {
                self.bump();
                let expr = self.parse_expr_semi()?;
                Ok(Stmt::Call(expr))
            },
            TokenKind::Keyword(Keyword::Let) => {
                self.bump();
                let name = self.expect_ident()?;
                self.expect(&TokenKind::Assign)?;
                let expr = self.parse_expr_semi()?;
                Ok(Stmt::Let { name, expr })
            },
            TokenKind::Keyword(Keyword::Send) => {
                self.bump();
                let expr = self.parse_expr_semi()?;
                Ok(Stmt::Send(expr))
            },
            TokenKind::Keyword(Keyword::Transition) => {
                self.bump();
                self.expect(&TokenKind::Arrow)?;
                let target = self.expect_ident()?;
                self.expect(&TokenKind::Semicolon)?;
                Ok(Stmt::Transition(target))
            },
            TokenKind::Keyword(Keyword::Violation) => {
                self.bump();
                let body = self.parse_block()?;
                let ghost bb = body;
                let st = Stmt::Violation(body);
                proof {
                    assert(views(bb@) =~= match st@ {
                        SpecStmt::Violation(b) => b,
                        _ => Seq::empty(),
                    });
                }
                Ok(st)
            },
            TokenKind::Keyword(Keyword::Drop) => {
                self.bump();
                let expr = self.parse_expr_semi()?;
                Ok(Stmt::Drop(expr))
            },
            _ => {
                let expr = self.parse_expr_semi()?;
                Ok(Stmt::Expr(expr))
            },
        }
    }

    pub fn parse_state_member(&mut self) -> (r: Result<StateMember, CompileError>)
        requires
            old(self).wf(),
        ensures
            final(self).wf(),
            final(self).toks() == old(self).toks(),
            parsed(r, spec_parse_state_member(old(self).toks(), old(self).pos()), final(self).pos()),
            r is Ok ==> old(self).pos() < final(self).pos(),
    {
        proof {
            self.lemma_wf();
            reveal(spec_parse_state_member);
        }
        match self.peek_kind() {
            TokenKind::Keyword(Keyword::Var) => {
                self.bump();
                self.parse_var_decl()
            },
            TokenKind::Keyword(Keyword::On) => {
                self.bump();
                self.parse_handler_decl()
            },
            _ => self.error_here("expected state member: 'var' or 'on'"),
        }
    }

    /// A state variable after `var`.
    fn parse_var_decl(&mut self) -> (r: Result<StateMember, CompileError>)
        requires
            old(self).wf(),
        ensures
            final(self).wf(),
            final(self).toks() == old(self).toks(),
            parsed(r, spec_var_decl(old(self).toks(), old(self).pos()), final(self).pos()),
            r is Ok ==> old(self).pos() < final(self).pos(),
    {
        proof {
            reveal(spec_var_decl);
        }
        let name = self.expect_ident()?;
        self.expect(&TokenKind::Colon)?;
        let ty = self.expect_ident()?;
        self.expect(&TokenKind::Assign)?;
        let init = self.parse_expr_semi()?;
        Ok(StateMember::VarDecl(VarDecl { name, ty, init }))
    }

    /// A handler after `on`.
    fn parse_handler_decl(&mut self) -> (r: Result<StateMember, CompileError>)
        requires
            old(self).wf(),
        ensures
            final(self).wf(),
            final(self).toks() == old(self).toks(),
            parsed(r, spec_handler_decl(old(self).toks(), old(self).pos()), final(self).pos()),
            r is Ok ==> old(self).pos() < final(self).pos(),
    {
        proof {
            reveal(spec_handler_decl);
        }
        let name = self.expect_ident()?;
        self.expect(&TokenKind::LParen)?;
        let params = self.parse_params()?;
        self.expect(&TokenKind::RParen)?;
        proof {
            self.lemma_wf();
        }
        let body = self.parse_block()?;
        Ok(StateMember::Handler(HandlerDecl { name, params, body }))
    }

    /// The parameters of a handler, from just after its `(`; the `)` is left.
    fn parse_params(&mut self) -> (r: Result<Vec<Param>, CompileError>)
        requires
            old(self).wf(),
        ensures
            final(self).wf(),
            final(self).toks() == old(self).toks(),
            parsed_list(r, spec_params(old(self).toks(), old(self).pos()), final(self).pos()),
            r is Ok ==> old(self).pos() <= final(self).pos(),
    {
        proof {
            self.lemma_wf();
            reveal(spec_params);
        }
        let ghost toks = self.toks();
        let ghost q2 = self.pos();
        let mut params: Vec<Param> = Vec::new();
        assert(views(params@) =~= Seq::<SpecParam>::empty());
        if self.check(&TokenKind::RParen) {
            return Ok(params);
        }
        loop
            invariant_except_break
                spec_params(toks, q2) == spec_params_items(toks, self.pos(), views(params@)),
            invariant
                self.wf(),
                self.toks() == toks,
                toks == old(self).toks(),
                q2 == old(self).pos(),
                0 <= q2 <= self.pos(),
            ensures
                self.wf(),
                self.toks() == toks,
                0 <= q2 < self.pos(),
                spec_params(toks, q2) == Ok::<(Seq<SpecParam>, int), SpecCompileError>(
                    (views(params@), self.pos()),
                ),
            decreases toks.len() - self.pos(),
        {
            proof {
                self.lemma_wf();
            }
            let pname = self.expect_ident()?;
            self.expect(&TokenKind::Colon)?;
            let pty = self.expect_ident()?;
            let prm = Param { name: pname, ty: pty };
            proof {
                self.lemma_wf();
                assert(views(params@.push(prm)) =~= views(params@).push(prm@));
            }
            params.push(prm);
            if self.check(&TokenKind::Comma) {
                self.bump();
                continue;
            }
            break;
        }
        Ok(params)
    }

    pub fn parse_state_decl(&mut self) -> (r: Result<StateDecl, CompileError>)
        requires
            old(self).wf(),
        ensures
            final(self).wf(),
            final(self).toks() == old(self).toks(),
            parsed(r, spec_parse_state_decl(old(self).toks(), old(self).pos()), final(self).pos()),
            r is Ok ==> old(self).pos() < final(self).pos(),
    {
        proof {
            self.lemma_wf();
        }
        let ghost toks = self.toks();
        let ghost p0 = self.pos();
        proof {
            reveal(spec_parse_state_decl);
        }
        self.expect_keyword(Keyword::State)?;
        let name = self.expect_ident()?;
        self.expect(&TokenKind::LBrace)?;
        let ghost q2 = self.pos();
        let mut members: Vec<StateMember> = Vec::new();
        assert(views(members@) =~= Seq::<SpecMember>::empty());
        loop
            invariant
                self.wf(),
                self.toks() == toks,
                toks == old(self).toks(),
                p0 == old(self).pos(),
                0 <= p0 < q2 <= self.pos(),
                spec_parse_state_decl(toks, p0) == match spec_members_items(toks, q2, Seq::empty()) {
                    Ok((members, q3)) => Ok((SpecState { name: name@, members }, q3)),
                    Err(e) => Err(e),
                },
                spec_members_items(toks, q2, Seq::empty()) == spec_members_items(
                    toks,
                    self.pos(),
                    views(members@),
                ),
            ensures
                self.wf(),
                self.toks() == toks,
                0 <= p0 < self.pos(),
                spec_members_items(toks, q2, Seq::empty()) == spec_members_items(
                    toks,
                    self.pos(),
                    views(members@),
                ),
                kind_at(toks, self.pos()) is RBrace,
            decreases toks.len() - self.pos(),
        {
            proof {
                self.lemma_wf();
            }
            if self.check(&TokenKind::RBrace) {
                break;
            }
            let m = self.parse_state_member()?;
            proof {
                self.lemma_wf();
                assert(views(members@.push(m)) =~= views(members@).push(m@));
            }
            members.push(m);
        }
        proof {
            self.lemma_wf();
        }
        self.expect(&TokenKind::RBrace)?;
        Ok(StateDecl { name, members })
    }

    pub fn parse_contract_body(&mut self) -> (r: Result<ContractDecl, CompileError>)
        requires
            old(self).wf(),
        ensures
            final(self).wf(),
            final(self).toks() == old(self).toks(),
            parsed(r, spec_parse_contract_body(old(self).toks(), old(self).pos()), final(self).pos()),
            r is Ok ==> old(self).pos() < final(self).pos(),
    {
        proof {
            self.lemma_wf();
        }
        let ghost toks = self.toks();
        let ghost p0 = self.pos();
        proof {
            reveal(spec_parse_contract_body);
        }
        let name = self.expect_ident()?;
        self.expect(&TokenKind::LBrace)?;
        let ghost q1 = self.pos();
        let mut states: Vec<StateDecl> = Vec::new();
        assert(views(states@) =~= Seq::<SpecState>::empty());
        loop
            invariant
                self.wf(),
                self.toks() == toks,
                toks == old(self).toks(),
                p0 == old(self).pos(),
                0 <= p0 < q1 <= self.pos(),
                spec_parse_contract_body(toks, p0) == match spec_states_items(toks, q1, Seq::empty()) {
                    Ok((states, q2)) => Ok((SpecContract { name: name@, states }, q2)),
                    Err(e) => Err(e),
                },
                spec_states_items(toks, q1, Seq::empty()) == spec_states_items(
                    toks,
                    self.pos(),
                    views(states@),
                ),
            ensures
                self.wf(),
                self.toks() == toks,
                0 <= p0 < self.pos(),
                spec_states_items(toks, q1, Seq::empty()) == spec_states_items(
                    toks,
                    self.pos(),
                    views(states@),
                ),
                kind_at(toks, self.pos()) is RBrace,
            decreases toks.len() - self.pos(),
        {
            proof {
                self.lemma_wf();
            }
            if self.check(&TokenKind::RBrace) {
                break;
            }
            let st = self.parse_state_decl()?;
            proof {
                self.lemma_wf();
                assert(views(states@.push(st)) =~= views(states@).push(st@));
            }
            states.push(st);
        }
        proof {
            self.lemma_wf();
        }
        self.expect(&TokenKind::RBrace)?;
        Ok(ContractDecl { name, states })
    }

    pub fn parse_item(&mut self) -> (r: Result<Item, CompileError>)
        requires
            old(self).wf(),
        ensures
            final(self).wf(),
            final(self).toks() == old(self).toks(),
            parsed(r, spec_parse_item(old(self).toks(), old(self).pos()), final(self).pos()),
            r is Ok ==> old(self).pos() < final(self).pos(),
    {
        proof {
            self.lemma_wf();
            reveal(spec_parse_item);
        }
        match self.peek_kind() {
            TokenKind::Keyword(Keyword::SharedContract) => {
                self.bump();
                Ok(Item::SharedContract(self.parse_contract_body()?))
            },
            TokenKind::Keyword(Keyword::Contract) => {
                self.bump();
                Ok(Item::Contract(self.parse_contract_body()?))
            },
            _ => self.error_here("expected 'shared_contract' or 'contract'"),
        }
    }

    pub fn parse_program(&mut self) -> (r: Result<Program, CompileError>)
        requires
            old(self).wf(),
        ensures
            final(self).wf(),
            final(self).toks() == old(self).toks(),
            parsed(r, spec_parse_program(old(self).toks(), old(self).pos()), final(self).pos()),
    {
        let ghost toks = self.toks();
        let ghost p0 = self.pos();
        let mut items: Vec<Item> = Vec::new();
        assert(views(items@) =~= Seq::<SpecItem>::empty());
        proof {
            self.lemma_wf();
        }
        while !self.is_eof()
            invariant
                self.wf(),
                self.toks() == toks,
                toks == old(self).toks(),
                p0 == old(self).pos(),
                0 <= p0 <= self.pos(),
                spec_program_items(toks, p0, Seq::empty()) == spec_program_items(
                    toks,
                    self.pos(),
                    views(items@),
                ),
            decreases toks.len() - self.pos(),
        {
            proof {
                self.lemma_wf();
            }
            let it = self.parse_item()?;
            proof {
                self.lemma_wf();
                assert(views(items@.push(it)) =~= views(items@).push(it@));
            }
            items.push(it);
        }
        proof {
            self.lemma_wf();
        }
        Ok(Program { items })
    }
}

/// The program that a source text spells, or the first lexing or parse error.
pub open spec fn spec_parse_source(src: Seq<char>) -> Result<SpecProgram, SpecCompileError> {
    match spec_tokenize(src) {
        Ok(toks) => match spec_parse_program(toks, 0) {
            Ok((p, _)) => Ok(p),
            Err(e) => Err(e),
        },
        Err(e) => Err(e),
    }
}

/// Lexes and parses a source text.
pub fn parse_source(source: &str) -> (r: Result<Program, CompileError>)
    requires
        source@.len() < usize::MAX,
    ensures
        match spec_parse_source(source@) {
            Ok(p) => r is Ok && r->Ok_0@ == p,
            Err(e) => r is Err && r->Err_0@ == e,
        },
{
    let tokens = Lexer::new(source).tokenize()?;
    proof {
        law_tokens_end_with_one_eof(source@, 0);
    }
    Parser::new(tokens).parse_program()
}

/// The variant number of a token kind.
fn kind_tag_of(k: &TokenKind) -> (t: u8)
    ensures
        t as int == kind_tag(k@),
{
    match k {
        TokenKind::Ident(_) => 0,
        TokenKind::Number(_) => 1,
        TokenKind::Keyword(_) => 2,
        TokenKind::LBrace => 3,
        TokenKind::RBrace => 4,
        TokenKind::LParen => 5,
        TokenKind::RParen => 6,
        TokenKind::Colon => 7,
        TokenKind::Semicolon => 8,
        TokenKind::Comma => 9,
        TokenKind::Dot => 10,
        TokenKind::Plus => 11,
        TokenKind::Minus => 12,
        TokenKind::EqEq => 13,
        TokenKind::Greater => 14,
        TokenKind::Less => 15,
        TokenKind::Assign => 16,
        TokenKind::Arrow => 17,
        TokenKind::Eof => 18,
    }
}

fn keyword_str(k: Keyword) -> (s: &'static str)
    ensures
        s@ == keyword_name(k),
{
    match k {
        Keyword::SharedContract => "SharedContract",
        Keyword::Contract => "Contract",
        Keyword::State => "State",
        Keyword::Var => "Var",
        Keyword::On => "On",
        Keyword::If => "If",
        Keyword::Else => "Else",
        Keyword::Call => "Call",
        Keyword::Let => "Let",
        Keyword::Send => "Send",
        Keyword::Transition => "Transition",
        Keyword::Violation => "Violation",
        Keyword::Drop => "Drop",
    }
}

/// Appends the debugging notation of a token kind.
/// Appends the debugging notation of an identifier token whose name reads `quoted` in debugging notation.
pub fn append_ident_debug(out: &mut String, quoted: &String)
    ensures
        final(out)@ == old(out)@ + ident_debug(quoted@),
{
    out.append("Ident(");
    out.append(quoted.as_str());
    out.append(")");
    assert(final(out)@ =~= old(out)@ + ident_debug(quoted@));
}

pub fn append_kind_debug(out: &mut String, k: &TokenKind)
    ensures
        final(out)@ == old(out)@ + kind_debug(k@),
{
    match k {
        TokenKind::Ident(s) => {
            let quoted = debug_text(s.as_str());
            append_ident_debug(out, &quoted);
        },
        TokenKind::Number(n) => {
            out.append("Number(");
            push_decimal(out, *n);
            out.append(")");
        },
        TokenKind::Keyword(kw) => {
            out.append("Keyword(");
            out.append(keyword_str(*kw));
            out.append(")");
        },
        TokenKind::LBrace => out.append("LBrace"),
        TokenKind::RBrace => out.append("RBrace"),
        TokenKind::LParen => out.append("LParen"),
        TokenKind::RParen => out.append("RParen"),
        TokenKind::Colon => out.append("Colon"),
        TokenKind::Semicolon => out.append("Semicolon"),
        TokenKind::Comma => out.append("Comma"),
        TokenKind::Dot => out.append("Dot"),
        TokenKind::Plus => out.append("Plus"),
        TokenKind::Minus => out.append("Minus"),
        TokenKind::EqEq => out.append("EqEq"),
        TokenKind::Greater => out.append("Greater"),
        TokenKind::Less => out.append("Less"),
        TokenKind::Assign => out.append("Assign"),
        TokenKind::Arrow => out.append("Arrow"),
        TokenKind::Eof => out.append("Eof"),
    }
    assert(final(out)@ =~= old(out)@ + kind_debug(k@));
}


/// A comparison token between two sums makes the node of its own operator:
/// `<` an `Lt`, `>` a `Gt` and `==` an `Eq`, with the sums as operands in order.
pub proof fn law_comparison_operators(
    toks: Seq<SpecToken>,
    p: int,
    l: SpecExpr,
    q: int,
    r: SpecExpr,
    q2: int,
)
    requires
        0 <= p < q < q2 < toks.len(),
        spec_parse_additive(toks, p) == Ok::<(SpecExpr, int), SpecCompileError>((l, q)),
        spec_parse_additive(toks, q + 1) == Ok::<(SpecExpr, int), SpecCompileError>((r, q2)),
        !(kind_at(toks, q2) is EqEq || kind_at(toks, q2) is Greater || kind_at(toks, q2) is Less),
    ensures
        kind_at(toks, q) is Less ==> spec_parse_comparison(toks, p) == Ok::<(SpecExpr, int), SpecCompileError>(
            (SpecExpr::Lt(Box::new(l), Box::new(r)), q2),
        ),
        kind_at(toks, q) is Greater ==> spec_parse_comparison(toks, p) == Ok::<(SpecExpr, int), SpecCompileError>(
            (SpecExpr::Gt(Box::new(l), Box::new(r)), q2),
        ),
        kind_at(toks, q) is EqEq ==> spec_parse_comparison(toks, p) == Ok::<(SpecExpr, int), SpecCompileError>(
            (SpecExpr::Eq(Box::new(l), Box::new(r)), q2),
        ),
{
    let k = kind_at(toks, q);
    if k is EqEq || k is Greater || k is Less {
        let e = if k is EqEq {
            SpecExpr::Eq(Box::new(l), Box::new(r))
        } else if k is Greater {
            SpecExpr::Gt(Box::new(l), Box::new(r))
        } else {
            SpecExpr::Lt(Box::new(l), Box::new(r))
        };
        assert(spec_comparison_rest(toks, q2, e) == Ok::<(SpecExpr, int), SpecCompileError>((e, q2)));
        assert(spec_comparison_rest(toks, q, l) == spec_comparison_rest(toks, q2, e));
    }
}

/// A `+` or `-` between two operands makes an `Add` or a `Sub` node, with the
/// operands in order.
pub proof fn law_additive_operators(
    toks: Seq<SpecToken>,
    p: int,
    l: SpecExpr,
    q: int,
    r: SpecExpr,
    q2: int,
)
    requires
        0 <= p < q < q2 < toks.len(),
        spec_parse_primary(toks, p) == Ok::<(SpecExpr, int), SpecCompileError>((l, q)),
        spec_parse_primary(toks, q + 1) == Ok::<(SpecExpr, int), SpecCompileError>((r, q2)),
        !(kind_at(toks, q2) is Plus || kind_at(toks, q2) is Minus),
    ensures
        kind_at(toks, q) is Plus ==> spec_parse_additive(toks, p) == Ok::<(SpecExpr, int), SpecCompileError>(
            (SpecExpr::Add(Box::new(l), Box::new(r)), q2),
        ),
        kind_at(toks, q) is Minus ==> spec_parse_additive(toks, p) == Ok::<(SpecExpr, int), SpecCompileError>(
            (SpecExpr::Sub(Box::new(l), Box::new(r)), q2),
        ),
{
    let k = kind_at(toks, q);
    if k is Plus || k is Minus {
        let e = if k is Plus {
            SpecExpr::Add(Box::new(l), Box::new(r))
        } else {
            SpecExpr::Sub(Box::new(l), Box::new(r))
        };
        assert(spec_additive_rest(toks, q2, e) == Ok::<(SpecExpr, int), SpecCompileError>((e, q2)));
        assert(spec_additive_rest(toks, q, l) == spec_additive_rest(toks, q2, e));
    }
}
} // verus!
