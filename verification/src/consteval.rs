//! Evaluation of constant expressions and the search for one in a handler.
use vstd::prelude::*;

use crate::ast::{views, Expr, SpecExpr, SpecStmt, Stmt};

verus! {

/// Whether `v` fits in an `i64`.
pub open spec fn fits_i64(v: int) -> bool {
    i64::MIN <= v <= i64::MAX
}

/// The value of a constant additive expression: numbers that fit in an
/// `i64`, joined by `+` and `-`. Anything else has no value.
pub open spec fn spec_eval_const(e: SpecExpr) -> Option<int>
    decreases e,
{
    match e {
        SpecExpr::Number(n) => if n <= i64::MAX {
            Some(n as int)
        } else {
            None
        },
        SpecExpr::Add(l, r) => match (spec_eval_const(*l), spec_eval_const(*r)) {
            (Some(a), Some(b)) => Some(a + b),
            _ => None,
        },
        SpecExpr::Sub(l, r) => match (spec_eval_const(*l), spec_eval_const(*r)) {
            (Some(a), Some(b)) => Some(a - b),
            _ => None,
        },
        _ => None,
    }
}

/// Evaluation in `i64`, left operand first, never leaves the range of `i64`.
pub open spec fn spec_eval_ok(e: SpecExpr) -> bool
    decreases e,
{
    match e {
        SpecExpr::Add(l, r) => spec_eval_ok(*l) && (spec_eval_const(*l) is Some ==> spec_eval_ok(*r)
            && (spec_eval_const(*r) is Some ==> fits_i64(
            spec_eval_const(*l)->0 + spec_eval_const(*r)->0,
        ))),
        SpecExpr::Sub(l, r) => spec_eval_ok(*l) && (spec_eval_const(*l) is Some ==> spec_eval_ok(*r)
            && (spec_eval_const(*r) is Some ==> fits_i64(
            spec_eval_const(*l)->0 - spec_eval_const(*r)->0,
        ))),
        _ => true,
    }
}

/// The truth of a constant condition: a comparison of two constants, or a
/// constant that is not zero.
pub open spec fn spec_eval_bool(e: SpecExpr) -> Option<bool> {
    match e {
        SpecExpr::Eq(l, r) => match (spec_eval_const(*l), spec_eval_const(*r)) {
            (Some(a), Some(b)) => Some(a == b),
            _ => None,
        },
        SpecExpr::Gt(l, r) => match (spec_eval_const(*l), spec_eval_const(*r)) {
            (Some(a), Some(b)) => Some(a > b),
            _ => None,
        },
        SpecExpr::Lt(l, r) => match (spec_eval_const(*l), spec_eval_const(*r)) {
            (Some(a), Some(b)) => Some(a < b),
            _ => None,
        },
        _ => match spec_eval_const(e) {
            Some(v) => Some(v != 0),
            None => None,
        },
    }
}

/// Evaluating a condition never leaves the range of `i64`.
pub open spec fn spec_bool_ok(e: SpecExpr) -> bool {
    match e {
        SpecExpr::Eq(l, r) => spec_eval_ok(*l) && (spec_eval_const(*l) is Some ==> spec_eval_ok(*r)),
        SpecExpr::Gt(l, r) => spec_eval_ok(*l) && (spec_eval_const(*l) is Some ==> spec_eval_ok(*r)),
        SpecExpr::Lt(l, r) => spec_eval_ok(*l) && (spec_eval_const(*l) is Some ==> spec_eval_ok(*r)),
        _ => spec_eval_ok(e),
    }
}

/// The first constant expression of a statement, in the order of the search:
/// an expression statement or a `send` with a constant value; in an `if`
/// whose condition is constant only the branch taken; else the `then` branch
/// before the `else` branch; the body of a `violation` block.
pub open spec fn spec_find_in_stmt(st: SpecStmt) -> Option<SpecExpr>
    decreases st,
{
    match st {
        SpecStmt::Expr(e) => if spec_eval_const(e) is Some {
            Some(e)
        } else {
            None
        },
        SpecStmt::Send(e) => if spec_eval_const(e) is Some {
            Some(e)
        } else {
            None
        },
        SpecStmt::If { cond, then_branch, else_branch } => match spec_eval_bool(cond) {
            Some(true) => spec_find_first(then_branch),
            Some(false) => match else_branch {
                Some(b) => spec_find_first(b),
                None => None,
            },
            None => match spec_find_first(then_branch) {
                Some(x) => Some(x),
                None => match else_branch {
                    Some(b) => spec_find_first(b),
                    None => None,
                },
            },
        },
        SpecStmt::Violation(body) => spec_find_first(body),
        _ => None,
    }
}

/// The first constant expression of a block.
pub open spec fn spec_find_first(stmts: Seq<SpecStmt>) -> Option<SpecExpr>
    decreases stmts,
{
    if stmts.len() == 0 {
        None
    } else {
        match spec_find_in_stmt(stmts[0]) {
            Some(x) => Some(x),
            None => spec_find_first(stmts.drop_first()),
        }
    }
}

/// The evaluations that the search makes in a statement stay within `i64`.
pub open spec fn spec_find_stmt_ok(st: SpecStmt) -> bool
    decreases st,
{
    match st {
        SpecStmt::Expr(e) => spec_eval_ok(e),
        SpecStmt::Send(e) => spec_eval_ok(e),
        SpecStmt::If { cond, then_branch, else_branch } => spec_bool_ok(cond) && match spec_eval_bool(
            cond,
        ) {
            Some(true) => spec_find_ok(then_branch),
            Some(false) => match else_branch {
                Some(b) => spec_find_ok(b),
                None => true,
            },
            None => spec_find_ok(then_branch) && (spec_find_first(then_branch) is None ==> match else_branch {
                Some(b) => spec_find_ok(b),
                None => true,
            }),
        },
        SpecStmt::Violation(body) => spec_find_ok(body),
        _ => true,
    }
}

/// The evaluations that the search makes in a block stay within `i64`.
pub open spec fn spec_find_ok(stmts: Seq<SpecStmt>) -> bool
    decreases stmts,
{
    if stmts.len() == 0 {
        true
    } else {
        spec_find_stmt_ok(stmts[0]) && (spec_find_in_stmt(stmts[0]) is None ==> spec_find_ok(
            stmts.drop_first(),
        ))
    }
}

/// The value of a constant additive expression.
pub fn eval_const_expr(expr: &Expr) -> (r: Option<i64>)
    requires
        spec_eval_ok(expr@),
    ensures
        r is Some == spec_eval_const(expr@) is Some,
        r is Some ==> r->0 as int == spec_eval_const(expr@)->0,
    decreases expr,
{
    match expr {
        Expr::Number(n) => {
            if *n <= 9223372036854775807u64 {
                Some(*n as i64)
            } else {
                None
            }
        },
        Expr::Add(l, r) => {
            let a = eval_const_expr(l)?;
            let b = eval_const_expr(r)?;
            Some(a + b)
        },
        Expr::Sub(l, r) => {
            let a = eval_const_expr(l)?;
            let b = eval_const_expr(r)?;
            Some(a - b)
        },
        _ => None,
    }
}

/// Whether evaluating `expr` stays within `i64`.
pub fn eval_ok(expr: &Expr) -> (b: bool)
    ensures
        b == spec_eval_ok(expr@),
    decreases expr,
{
    match expr {
        Expr::Add(l, r) => {
            if !eval_ok(l) {
                return false;
            }
            let a = match eval_const_expr(l) {
                Some(a) => a,
                None => return true,
            };
            if !eval_ok(r) {
                return false;
            }
            match eval_const_expr(r) {
                Some(b) => a.checked_add(b).is_some(),
                None => true,
            }
        },
        Expr::Sub(l, r) => {
            if !eval_ok(l) {
                return false;
            }
            let a = match eval_const_expr(l) {
                Some(a) => a,
                None => return true,
            };
            if !eval_ok(r) {
                return false;
            }
            match eval_const_expr(r) {
                Some(b) => a.checked_sub(b).is_some(),
                None => true,
            }
        },
        _ => true,
    }
}

/// The truth of a constant condition.
pub fn eval_const_bool(expr: &Expr) -> (r: Option<bool>)
    requires
        spec_bool_ok(expr@),
    ensures
        r == spec_eval_bool(expr@),
{
    match expr {
        Expr::Eq(l, r) => Some(eval_const_expr(l)? == eval_const_expr(r)?),
        Expr::Gt(l, r) => Some(eval_const_expr(l)? > eval_const_expr(r)?),
        Expr::Lt(l, r) => Some(eval_const_expr(l)? < eval_const_expr(r)?),
        _ => Some(eval_const_expr(expr)? != 0),
    }
}

/// Whether evaluating a condition stays within `i64`.
pub fn bool_ok(expr: &Expr) -> (b: bool)
    ensures
        b == spec_bool_ok(expr@),
{
    match expr {
        Expr::Eq(l, r) | Expr::Gt(l, r) | Expr::Lt(l, r) => {
            if !eval_ok(l) {
                return false;
            }
            match eval_const_expr(l) {
                Some(_) => eval_ok(r),
                None => true,
            }
        },
        _ => eval_ok(expr),
    }
}


/// The first constant expression of a block, in the order of [`spec_find_first`].
pub fn find_first_const_expr<'a>(stmts: &'a [Stmt]) -> (r: Option<&'a Expr>)
    requires
        spec_find_ok(views(stmts@)),
    ensures
        match spec_find_first(views(stmts@)) {
            Some(e) => r is Some && r->0@ == e,
            None => r is None,
        },
    decreases stmts@,
{
    let ghost sv = views(stmts@);
    let mut i: usize = 0;
    assert(sv.skip(0) =~= sv);
    while i < stmts.len()
        invariant
            i <= stmts.len(),
            sv == views(stmts@),
            spec_find_first(sv) == spec_find_first(sv.skip(i as int)),
            spec_find_ok(sv.skip(i as int)),
        decreases stmts.len() - i,
    {
        proof {
            reveal_with_fuel(spec_find_ok, 2);
            reveal_with_fuel(spec_find_first, 2);
        }
        assert(sv.skip(i as int)[0] == sv[i as int]);
        assert(sv.skip(i as int).drop_first() =~= sv.skip(i + 1));
        assert(decreases_to!(stmts@ => stmts@[i as int]));
        let st = &stmts[i];
        match st {
            Stmt::Expr(expr) => {
                if eval_const_expr(expr).is_some() {
                    return Some(expr);
                }
            },
            Stmt::Send(expr) => {
                if eval_const_expr(expr).is_some() {
                    return Some(expr);
                }
            },
            Stmt::If { cond, then_branch, else_branch } => {
                proof {
                    vstd::std_specs::vec::axiom_vec_decreases_to_view(*then_branch);
                    assert(views(then_branch@) =~= match st@ {
                        SpecStmt::If { then_branch, .. } => then_branch,
                        _ => Seq::empty(),
                    });
                    if let Some(eb) = else_branch {
                        vstd::std_specs::vec::axiom_vec_decreases_to_view(*eb);
                        assert(views(eb@) =~= match st@ {
                            SpecStmt::If { else_branch: Some(b), .. } => b,
                            _ => Seq::empty(),
                        });
                    }
                }
                if let Some(cond_value) = eval_const_bool(cond) {
                    if cond_value {
                        if let Some(found) = find_first_const_expr(then_branch.as_slice()) {
                            return Some(found);
                        }
                    } else if let Some(else_b) = else_branch {
                        if let Some(found) = find_first_const_expr(else_b.as_slice()) {
                            return Some(found);
                        }
                    }
                    i = i + 1;
                    continue;
                }
                if let Some(found) = find_first_const_expr(then_branch.as_slice()) {
                    return Some(found);
                }
                if let Some(else_b) = else_branch {
                    if let Some(found) = find_first_const_expr(else_b.as_slice()) {
                        return Some(found);
                    }
                }
            },
            Stmt::Violation(body) => {
                proof {
                    vstd::std_specs::vec::axiom_vec_decreases_to_view(*body);
                    assert(views(body@) =~= match st@ {
                        SpecStmt::Violation(b) => b,
                        _ => Seq::empty(),
                    });
                }
                if let Some(found) = find_first_const_expr(body.as_slice()) {
                    return Some(found);
                }
            },
            _ => {},
        }
        i = i + 1;
    }
    None
}

/// Whether the evaluations of the search in a block stay within `i64`.
pub fn search_ok(stmts: &[Stmt]) -> (b: bool)
    ensures
        b == spec_find_ok(views(stmts@)),
    decreases stmts@,
{
    let ghost sv = views(stmts@);
    let mut i: usize = 0;
    assert(sv.skip(0) =~= sv);
    while i < stmts.len()
        invariant
            i <= stmts.len(),
            sv == views(stmts@),
            spec_find_ok(sv) == spec_find_ok(sv.skip(i as int)),
        decreases stmts.len() - i,
    {
        proof {
            reveal_with_fuel(spec_find_ok, 2);
            reveal_with_fuel(spec_find_first, 2);
        }
        assert(sv.skip(i as int)[0] == sv[i as int]);
        assert(sv.skip(i as int).drop_first() =~= sv.skip(i + 1));
        assert(decreases_to!(stmts@ => stmts@[i as int]));
        let st = &stmts[i];
        match st {
            Stmt::Expr(expr) => {
                if !eval_ok(expr) {
                    return false;
                }
                if eval_const_expr(expr).is_some() {
                    return true;
                }
            },
            Stmt::Send(expr) => {
                if !eval_ok(expr) {
                    return false;
                }
                if eval_const_expr(expr).is_some() {
                    return true;
                }
            },
            Stmt::If { cond, then_branch, else_branch } => {
                proof {
                    vstd::std_specs::vec::axiom_vec_decreases_to_view(*then_branch);
                    assert(views(then_branch@) =~= match st@ {
                        SpecStmt::If { then_branch, .. } => then_branch,
                        _ => Seq::empty(),
                    });
                    if let Some(eb) = else_branch {
                        vstd::std_specs::vec::axiom_vec_decreases_to_view(*eb);
                        assert(views(eb@) =~= match st@ {
                            SpecStmt::If { else_branch: Some(b), .. } => b,
                            _ => Seq::empty(),
                        });
                    }
                }
                if !bool_ok(cond) {
                    return false;
                }
                match eval_const_bool(cond) {
                    Some(true) => {
                        if !search_ok(then_branch.as_slice()) {
                            return false;
                        }
                        if find_first_const_expr(then_branch.as_slice()).is_some() {
                            return true;
                        }
                    },
                    Some(false) => {
                        if let Some(else_b) = else_branch {
                            if !search_ok(else_b.as_slice()) {
                                return false;
                            }
                            if find_first_const_expr(else_b.as_slice()).is_some() {
                                return true;
                            }
                        }
                    },
                    None => {
                        if !search_ok(then_branch.as_slice()) {
                            return false;
                        }
                        if find_first_const_expr(then_branch.as_slice()).is_some() {
                            return true;
                        }
                        if let Some(else_b) = else_branch {
                            if !search_ok(else_b.as_slice()) {
                                return false;
                            }
                            if find_first_const_expr(else_b.as_slice()).is_some() {
                                return true;
                            }
                        }
                    },
                }
            },
            Stmt::Violation(body) => {
                proof {
                    vstd::std_specs::vec::axiom_vec_decreases_to_view(*body);
                    assert(views(body@) =~= match st@ {
                        SpecStmt::Violation(b) => b,
                        _ => Seq::empty(),
                    });
                }
                if !search_ok(body.as_slice()) {
                    return false;
                }
                if find_first_const_expr(body.as_slice()).is_some() {
                    return true;
                }
            },
            _ => {},
        }
        i = i + 1;
    }
    true
}


/// What the search finds has a value, and the search evaluated it within `i64`.
pub proof fn lemma_found_is_constant(stmts: Seq<SpecStmt>)
    requires
        spec_find_ok(stmts),
    ensures
        spec_find_first(stmts) matches Some(e) ==> spec_eval_ok(e) && spec_eval_const(e) is Some,
    decreases stmts,
{
    if stmts.len() > 0 {
        lemma_found_in_stmt_is_constant(stmts[0]);
        if spec_find_in_stmt(stmts[0]) is None {
            lemma_found_is_constant(stmts.drop_first());
        }
    }
}

pub proof fn lemma_found_in_stmt_is_constant(st: SpecStmt)
    requires
        spec_find_stmt_ok(st),
    ensures
        spec_find_in_stmt(st) matches Some(e) ==> spec_eval_ok(e) && spec_eval_const(e) is Some,
    decreases st,
{
    match st {
        SpecStmt::If { cond, then_branch, else_branch } => {
            match spec_eval_bool(cond) {
                Some(true) => lemma_found_is_constant(then_branch),
                Some(false) => {
                    if let Some(b) = else_branch {
                        lemma_found_is_constant(b);
                    }
                },
                None => {
                    lemma_found_is_constant(then_branch);
                    if spec_find_first(then_branch) is None {
                        if let Some(b) = else_branch {
                            lemma_found_is_constant(b);
                        }
                    }
                },
            }
        },
        SpecStmt::Violation(body) => lemma_found_is_constant(body),
        _ => {},
    }
}


/// Conditions on constant operands compare their values in integer order:
/// `l > r`, `l < r` and `l == r` give the truth of the comparison of the
/// values, exactly one of the three holds, `l > r` is `r < l`, and nothing is
/// greater than itself. Sums and differences have the sum and difference of
/// the values. When an operand has no value, no comparison has one.
pub proof fn law_constant_comparisons(l: SpecExpr, r: SpecExpr)
    ensures
        spec_eval_const(l) is Some && spec_eval_const(r) is Some ==> {
            let a = spec_eval_const(l)->0;
            let b = spec_eval_const(r)->0;
            &&& spec_eval_bool(SpecExpr::Gt(Box::new(l), Box::new(r))) == Some(a > b)
            &&& spec_eval_bool(SpecExpr::Lt(Box::new(l), Box::new(r))) == Some(a < b)
            &&& spec_eval_bool(SpecExpr::Eq(Box::new(l), Box::new(r))) == Some(a == b)
            &&& spec_eval_const(SpecExpr::Add(Box::new(l), Box::new(r))) == Some(a + b)
            &&& spec_eval_const(SpecExpr::Sub(Box::new(l), Box::new(r))) == Some(a - b)
        },
        spec_eval_const(l) is Some && spec_eval_const(r) is Some ==> {
            let gt = spec_eval_bool(SpecExpr::Gt(Box::new(l), Box::new(r)))->0;
            let lt = spec_eval_bool(SpecExpr::Lt(Box::new(l), Box::new(r)))->0;
            let eq = spec_eval_bool(SpecExpr::Eq(Box::new(l), Box::new(r)))->0;
            &&& (gt || lt || eq)
            &&& !(gt && lt) && !(gt && eq) && !(lt && eq)
        },
        spec_eval_const(l) is Some && spec_eval_const(r) is Some ==> spec_eval_bool(
            SpecExpr::Gt(Box::new(l), Box::new(r)),
        ) == spec_eval_bool(SpecExpr::Lt(Box::new(r), Box::new(l))),
        spec_eval_const(l) is Some ==> spec_eval_bool(SpecExpr::Gt(Box::new(l), Box::new(l)))
            == Some(false) && spec_eval_bool(SpecExpr::Eq(Box::new(l), Box::new(l))) == Some(true),
        spec_eval_const(l) is None || spec_eval_const(r) is None ==> {
            &&& spec_eval_bool(SpecExpr::Gt(Box::new(l), Box::new(r))) is None
            &&& spec_eval_bool(SpecExpr::Lt(Box::new(l), Box::new(r))) is None
            &&& spec_eval_bool(SpecExpr::Eq(Box::new(l), Box::new(r))) is None
        },
{
    let add = SpecExpr::Add(Box::new(l), Box::new(r));
    let sub = SpecExpr::Sub(Box::new(l), Box::new(r));
    assert(spec_eval_const(add) == match (spec_eval_const(l), spec_eval_const(r)) {
        (Some(a), Some(b)) => Some(a + b),
        _ => None::<int>,
    });
    assert(spec_eval_const(sub) == match (spec_eval_const(l), spec_eval_const(r)) {
        (Some(a), Some(b)) => Some(a - b),
        _ => None::<int>,
    });
}
} // verus!
