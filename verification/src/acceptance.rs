//! Which programs the checker accepts, stated rule by rule.
use vstd::prelude::*;

use crate::ast::{
    SpecContract, SpecExpr, SpecHandler, SpecItem, SpecMember, SpecProgram, SpecState, SpecStmt,
    SpecVar,
};
use crate::error::SpecCompileError;
use crate::names::{name_insert, name_remove};
use crate::checker::{
    spec_apply_all, spec_apply_block, spec_apply_single, spec_block_terminates,
    spec_consume_args, spec_consume_expr, spec_consume_moved, spec_consume_var,
    spec_contains_violation, spec_expr_returns_linear, spec_handler_check, spec_is_linear_type,
    spec_members_check, spec_var_issues, spec_var_names, spec_has_handler, spec_state_check,
    spec_states_check, spec_item_check, spec_items_check, spec_program_issues, spec_verify_program, spec_has_linear_params, spec_has_transition,
    spec_if_issues, spec_leaks, spec_linear_params, spec_linearity_check, spec_stmt_if_issues,
    spec_structure_issues, spec_violation_issues, Names,
};

verus! {

/// No finding yet.
pub open spec fn none() -> Names {
    Seq::empty()
}

proof fn lemma_append_assoc(a: Names, b: Names, c: Names)
    ensures
        (a + b) + c == a + (b + c),
{
    assert((a + b) + c =~= a + (b + c));
}

proof fn lemma_append_none(a: Names)
    ensures
        a + none() == a,
        none() + a == a,
{
    assert(a + none() =~= a);
    assert(none() + a =~= a);
}

proof fn lemma_var_frame(var: Seq<char>, st: Names, iss: Names, h: Seq<char>)
    ensures
        spec_consume_var(var, st, iss, h).0 == spec_consume_var(var, st, none(), h).0,
        spec_consume_var(var, st, iss, h).1 == iss + spec_consume_var(var, st, none(), h).1,
{
    lemma_append_none(iss);
    let m = crate::checker::msg_use_after_move(var, h);
    assert(iss.push(m) =~= iss + none().push(m));
}

proof fn lemma_expr_frame(e: SpecExpr, st: Names, env: Names, iss: Names, h: Seq<char>)
    ensures
        spec_consume_expr(e, st, env, iss, h).0 == spec_consume_expr(e, st, env, none(), h).0,
        spec_consume_expr(e, st, env, iss, h).1 == iss + spec_consume_expr(e, st, env, none(), h).1,
    decreases e,
{
    match e {
        SpecExpr::Number(_) => lemma_append_none(iss),
        SpecExpr::Path(_) => lemma_append_none(iss),
        SpecExpr::Call { args, .. } => lemma_args_frame(args, st, env, iss, h),
        SpecExpr::Add(l, r) | SpecExpr::Sub(l, r) | SpecExpr::Eq(l, r) | SpecExpr::Gt(l, r)
        | SpecExpr::Lt(l, r) => {
            let (a, x) = spec_consume_expr(*l, st, env, iss, h);
            let x0 = spec_consume_expr(*l, st, env, none(), h).1;
            lemma_expr_frame(*l, st, env, iss, h);
            lemma_expr_frame(*r, a, env, x, h);
            lemma_expr_frame(*r, a, env, x0, h);
            let d = spec_consume_expr(*r, a, env, none(), h).1;
            lemma_append_assoc(iss, x0, d);
        },
    }
}

proof fn lemma_args_frame(args: Seq<SpecExpr>, st: Names, env: Names, iss: Names, h: Seq<char>)
    ensures
        spec_consume_args(args, st, env, iss, h).0 == spec_consume_args(args, st, env, none(), h).0,
        spec_consume_args(args, st, env, iss, h).1 == iss + spec_consume_args(
            args,
            st,
            env,
            none(),
            h,
        ).1,
    decreases args,
{
    if args.len() == 0 {
        lemma_append_none(iss);
    } else {
        let (st1, iss1) = spec_consume_args(args.drop_last(), st, env, iss, h);
        let (st10, iss10) = spec_consume_args(args.drop_last(), st, env, none(), h);
        lemma_args_frame(args.drop_last(), st, env, iss, h);
        let a = args.last();
        assert(decreases_to!(args => args[args.len() - 1]));
        lemma_expr_frame(a, st1, env, iss1, h);
        lemma_expr_frame(a, st1, env, iss10, h);
        let (st2, d2) = spec_consume_expr(a, st1, env, none(), h);
        lemma_append_assoc(iss, iss10, d2);
        let iss2 = iss1 + d2;
        let iss20 = iss10 + d2;
        match a {
            SpecExpr::Path(p) => {
                if env.contains(p) {
                    lemma_var_frame(p, st2, iss2, h);
                    lemma_var_frame(p, st2, iss20, h);
                    let d3 = spec_consume_var(p, st2, none(), h).1;
                    lemma_append_assoc(iss, iss20, d3);
                }
            },
            _ => {},
        }
    }
}

proof fn lemma_moved_frame(e: SpecExpr, st: Names, env: Names, iss: Names, h: Seq<char>)
    ensures
        spec_consume_moved(e, st, env, iss, h).0 == spec_consume_moved(e, st, env, none(), h).0,
        spec_consume_moved(e, st, env, iss, h).1 == spec_consume_moved(e, st, env, none(), h).1,
        spec_consume_moved(e, st, env, iss, h).2 == iss + spec_consume_moved(
            e,
            st,
            env,
            none(),
            h,
        ).2,
{
    lemma_expr_frame(e, st, env, iss, h);
    let (st1, d1) = spec_consume_expr(e, st, env, none(), h);
    if e is Path && env.contains(e->Path_0) {
        lemma_var_frame(e->Path_0, st1, iss + d1, h);
        lemma_var_frame(e->Path_0, st1, d1, h);
        let d2 = spec_consume_var(e->Path_0, st1, none(), h).1;
        lemma_append_assoc(iss, d1, d2);
    }
}

/// What a statement adds to the findings does not depend on the findings before it.
pub proof fn lemma_single_frame(stmt: SpecStmt, st: Names, env: Names, iss: Names, h: Seq<char>)
    ensures
        spec_apply_single(stmt, st, env, iss, h).0 == spec_apply_single(stmt, st, env, none(), h).0,
        spec_apply_single(stmt, st, env, iss, h).1 == spec_apply_single(stmt, st, env, none(), h).1,
        spec_apply_single(stmt, st, env, iss, h).2 == iss + spec_apply_single(
            stmt,
            st,
            env,
            none(),
            h,
        ).2,
    decreases stmt, 0int,
{
    match stmt {
        SpecStmt::If { cond, then_branch, else_branch } => {
            lemma_expr_frame(cond, st, env, iss, h);
            let (st1, d1) = spec_consume_expr(cond, st, env, none(), h);
            lemma_block_frame(then_branch, seq![st1], env, iss + d1, h);
            lemma_block_frame(then_branch, seq![st1], env, d1, h);
            let (tp, env2, d2) = spec_apply_block(then_branch, seq![st1], env, none(), h);
            lemma_append_assoc(iss, d1, d2);
            match else_branch {
                Some(eb) => {
                    lemma_block_frame(eb, seq![st1], env2, iss + d1 + d2, h);
                    lemma_block_frame(eb, seq![st1], env2, d1 + d2, h);
                    let d3 = spec_apply_block(eb, seq![st1], env2, none(), h).2;
                    lemma_append_assoc(iss, d1 + d2, d3);
                },
                None => {},
            }
        },
        SpecStmt::Call(e) => lemma_expr_frame(e, st, env, iss, h),
        SpecStmt::Let { name, expr } => {
            if expr is Path && env.contains(expr->Path_0) {
                lemma_var_frame(expr->Path_0, st, iss, h);
            } else {
                lemma_expr_frame(expr, st, env, iss, h);
            }
        },
        SpecStmt::Send(e) => lemma_moved_frame(e, st, env, iss, h),
        SpecStmt::Drop(e) => lemma_moved_frame(e, st, env, iss, h),
        SpecStmt::Transition(_) => lemma_append_none(iss),
        SpecStmt::Violation(body) => lemma_block_frame(body, seq![st], env, iss, h),
        SpecStmt::Expr(e) => lemma_expr_frame(e, st, env, iss, h),
    }
}

/// What a statement adds on several paths does not depend on the findings before it.
pub proof fn lemma_all_frame(stmt: SpecStmt, paths: Seq<Names>, env: Names, iss: Names, h: Seq<char>)
    ensures
        spec_apply_all(stmt, paths, env, iss, h).0 == spec_apply_all(stmt, paths, env, none(), h).0,
        spec_apply_all(stmt, paths, env, iss, h).1 == spec_apply_all(stmt, paths, env, none(), h).1,
        spec_apply_all(stmt, paths, env, iss, h).2 == iss + spec_apply_all(
            stmt,
            paths,
            env,
            none(),
            h,
        ).2,
    decreases stmt, paths.len(),
{
    if paths.len() == 0 {
        lemma_append_none(iss);
    } else {
        lemma_all_frame(stmt, paths.drop_last(), env, iss, h);
        let (ps, env1, d1) = spec_apply_all(stmt, paths.drop_last(), env, none(), h);
        lemma_single_frame(stmt, paths.last(), env1, iss + d1, h);
        lemma_single_frame(stmt, paths.last(), env1, d1, h);
        let d2 = spec_apply_single(stmt, paths.last(), env1, none(), h).2;
        lemma_append_assoc(iss, d1, d2);
    }
}

/// What a block adds to the findings does not depend on the findings before it.
pub proof fn lemma_block_frame(block: Seq<SpecStmt>, paths: Seq<Names>, env: Names, iss: Names, h: Seq<char>)
    ensures
        spec_apply_block(block, paths, env, iss, h).0 == spec_apply_block(block, paths, env, none(), h).0,
        spec_apply_block(block, paths, env, iss, h).1 == spec_apply_block(block, paths, env, none(), h).1,
        spec_apply_block(block, paths, env, iss, h).2 == iss + spec_apply_block(
            block,
            paths,
            env,
            none(),
            h,
        ).2,
    decreases block, 0int,
{
    if block.len() == 0 {
        lemma_append_none(iss);
    } else {
        lemma_block_frame(block.drop_last(), paths, env, iss, h);
        let (ps, env1, d1) = spec_apply_block(block.drop_last(), paths, env, none(), h);
        assert(decreases_to!(block => block[block.len() - 1]));
        lemma_all_frame(block.last(), ps, env1, iss + d1, h);
        lemma_all_frame(block.last(), ps, env1, d1, h);
        let d2 = spec_apply_all(block.last(), ps, env1, none(), h).2;
        lemma_append_assoc(iss, d1, d2);
    }
}

/// Every `if` in the block has an `else`, and every `else` handles a violation,
/// also in nested blocks.
pub open spec fn ifs_handled(stmts: Seq<SpecStmt>) -> bool
    decreases stmts,
{
    stmts.len() == 0 || (ifs_handled(stmts.drop_last()) && stmt_ifs_handled(stmts.last()))
}

pub open spec fn stmt_ifs_handled(st: SpecStmt) -> bool
    decreases st,
{
    match st {
        SpecStmt::If { then_branch, else_branch, .. } => match else_branch {
            Some(eb) => spec_contains_violation(eb) && ifs_handled(then_branch) && ifs_handled(eb),
            None => false,
        },
        SpecStmt::Violation(body) => ifs_handled(body),
        _ => true,
    }
}

/// Simulating the handler path by path, no linear value is used after it was
/// consumed, and none is left at the end of any path.
pub open spec fn linear_flow_clean(h: SpecHandler) -> bool {
    let env0 = spec_linear_params(h.params);
    let (paths, _, iss) = spec_apply_block(h.body, seq![env0], env0, none(), h.name);
    &&& iss.len() == 0
    &&& forall|k: int| 0 <= k < paths.len() ==> (#[trigger] paths[k]).len() == 0
}

/// The rules for one handler, in a `shared_contract` or a `contract`.
pub open spec fn handler_sound(shared: bool, h: SpecHandler) -> bool {
    &&& spec_has_linear_params(h.params) ==> spec_contains_violation(h.body) && ifs_handled(h.body)
    &&& linear_flow_clean(h)
    &&& if shared {
        !spec_has_transition(h.body)
    } else {
        spec_block_terminates(h.body)
    }
}

proof fn lemma_if_issues(stmts: Seq<SpecStmt>, c: Seq<char>, s: Seq<char>, h: Seq<char>)
    ensures
        spec_if_issues(stmts, c, s, h).len() == 0 <==> ifs_handled(stmts),
    decreases stmts,
{
    if stmts.len() > 0 {
        lemma_if_issues(stmts.drop_last(), c, s, h);
        assert(decreases_to!(stmts => stmts[stmts.len() - 1]));
        lemma_stmt_if_issues(stmts.last(), c, s, h);
    }
}

proof fn lemma_stmt_if_issues(st: SpecStmt, c: Seq<char>, s: Seq<char>, h: Seq<char>)
    ensures
        spec_stmt_if_issues(st, c, s, h).len() == 0 <==> stmt_ifs_handled(st),
    decreases st,
{
    match st {
        SpecStmt::If { then_branch, else_branch, .. } => {
            lemma_if_issues(then_branch, c, s, h);
            match else_branch {
                Some(eb) => lemma_if_issues(eb, c, s, h),
                None => {},
            }
        },
        SpecStmt::Violation(body) => lemma_if_issues(body, c, s, h),
        _ => {},
    }
}

proof fn lemma_leaks(paths: Seq<Names>, c: Seq<char>, s: Seq<char>, h: Seq<char>)
    ensures
        spec_leaks(paths, c, s, h).len() == 0 <==> forall|k: int|
            0 <= k < paths.len() ==> (#[trigger] paths[k]).len() == 0,
    decreases paths.len(),
{
    if paths.len() > 0 {
        lemma_leaks(paths.drop_last(), c, s, h);
        if spec_leaks(paths, c, s, h).len() == 0 {
            assert forall|k: int| 0 <= k < paths.len() implies (#[trigger] paths[k]).len() == 0 by {
                if k < paths.len() - 1 {
                    assert(paths.drop_last()[k] == paths[k]);
                }
            }
        } else if forall|k: int| 0 <= k < paths.len() ==> (#[trigger] paths[k]).len() == 0 {
            assert forall|k: int| 0 <= k < paths.drop_last().len() implies (
            #[trigger] paths.drop_last()[k]).len() == 0 by {
                assert(paths.drop_last()[k] == paths[k]);
            }
            assert(paths[paths.len() - 1].len() == 0);
        }
    }
}

/// The findings on a handler, after earlier ones, are those earlier ones and its own.
pub proof fn lemma_handler_frame(
    shared: bool,
    c: Seq<char>,
    s: Seq<char>,
    h: SpecHandler,
    seen: Names,
    iss: Names,
)
    ensures
        spec_handler_check(shared, c, s, h, seen, iss) == iss + spec_handler_check(
            shared,
            c,
            s,
            h,
            seen,
            none(),
        ),
{
    let env0 = spec_linear_params(h.params);
    let dup = if seen.contains(h.name) {
        none().push(crate::checker::msg_dup_handler(c, s, h.name))
    } else {
        none()
    };
    let v = spec_violation_issues(c, s, h);
    let st = spec_structure_issues(shared, c, s, h);
    let r = spec_apply_block(h.body, seq![env0], env0, none(), h.name);
    let lk = spec_leaks(r.0, c, s, h.name);
    let iss1 = if seen.contains(h.name) {
        iss.push(crate::checker::msg_dup_handler(c, s, h.name))
    } else {
        iss
    };
    assert(iss1 =~= iss + dup);
    lemma_block_frame(h.body, seq![env0], env0, iss1 + v, h.name);
    lemma_block_frame(h.body, seq![env0], env0, dup + v, h.name);
    assert(spec_handler_check(shared, c, s, h, seen, iss) =~= (iss + dup + v + r.2 + lk) + st);
    assert(spec_handler_check(shared, c, s, h, seen, none()) =~= (dup + v + r.2 + lk) + st);
    assert((iss + dup + v + r.2 + lk) + st =~= iss + ((dup + v + r.2 + lk) + st));
}

/// A handler adds no finding exactly when its name is new in its state and it keeps the rules.
pub proof fn lemma_handler_clean(
    shared: bool,
    c: Seq<char>,
    s: Seq<char>,
    h: SpecHandler,
    seen: Names,
)
    ensures
        spec_handler_check(shared, c, s, h, seen, none()).len() == 0 <==> !seen.contains(h.name)
            && handler_sound(shared, h),
{
    let env0 = spec_linear_params(h.params);
    let dup = if seen.contains(h.name) {
        none().push(crate::checker::msg_dup_handler(c, s, h.name))
    } else {
        none()
    };
    let v = spec_violation_issues(c, s, h);
    let st = spec_structure_issues(shared, c, s, h);
    let r = spec_apply_block(h.body, seq![env0], env0, none(), h.name);
    let lk = spec_leaks(r.0, c, s, h.name);
    lemma_append_none(dup);
    lemma_block_frame(h.body, seq![env0], env0, dup + v, h.name);
    assert(spec_handler_check(shared, c, s, h, seen, none()) =~= dup + v + r.2 + lk + st);
    lemma_leaks(r.0, c, s, h.name);
    lemma_if_issues(h.body, c, s, h.name);
    if spec_has_linear_params(h.params) {
        if spec_contains_violation(h.body) {
            lemma_append_none(spec_if_issues(h.body, c, s, h.name));
        }
    }
}

proof fn lemma_insert_contains(s: Names, x: Seq<char>, y: Seq<char>)
    ensures
        name_insert(s, x).contains(y) <==> s.contains(y) || y == x,
{
    if !s.contains(x) {
        let t = s.push(x);
        if y == x {
            assert(t[s.len() as int] == x);
        }
        if s.contains(y) {
            let j = choose|j: int| 0 <= j < s.len() && s[j] == y;
            assert(t[j] == y);
        }
        if t.contains(y) && y != x {
            let j = choose|j: int| 0 <= j < t.len() && t[j] == y;
            assert(j < s.len());
            assert(s[j] == y);
        }
    }
}

/// A handler of the given name is among the members.
pub open spec fn has_handler_named(ms: Seq<SpecMember>, x: Seq<char>) -> bool {
    exists|i: int| 0 <= i < ms.len() && #[trigger] ms[i] is Handler && ms[i]->Handler_0.name == x
}

/// No two handlers of the members have the same name.
pub open spec fn handler_names_distinct(ms: Seq<SpecMember>) -> bool {
    forall|i: int, j: int|
        #![trigger ms[i], ms[j]]
        0 <= i < j < ms.len() && ms[i] is Handler && ms[j] is Handler ==> ms[i]->Handler_0.name
            != ms[j]->Handler_0.name
}

/// Every handler among the members keeps the rules.
pub open spec fn handlers_sound(shared: bool, ms: Seq<SpecMember>) -> bool {
    forall|i: int|
        0 <= i < ms.len() && #[trigger] ms[i] is Handler ==> handler_sound(shared, ms[i]->Handler_0)
}

proof fn lemma_members(shared: bool, c: Seq<char>, s: Seq<char>, ms: Seq<SpecMember>, iss: Names)
    ensures
        spec_members_check(shared, c, s, ms, iss).0 == iss + spec_members_check(
            shared,
            c,
            s,
            ms,
            none(),
        ).0,
        spec_members_check(shared, c, s, ms, iss).1 == spec_members_check(
            shared,
            c,
            s,
            ms,
            none(),
        ).1,
        forall|x: Seq<char>|
            #[trigger] spec_members_check(shared, c, s, ms, none()).1.contains(x)
                <==> has_handler_named(ms, x),
        spec_members_check(shared, c, s, ms, none()).0.len() == 0 <==> handler_names_distinct(ms)
            && handlers_sound(shared, ms),
    decreases ms.len(),
{
    if ms.len() == 0 {
        lemma_append_none(iss);
    } else {
        let pre = ms.drop_last();
        lemma_members(shared, c, s, pre, iss);
        let (d1, seen) = spec_members_check(shared, c, s, pre, none());
        assert forall|i: int| 0 <= i < pre.len() implies pre[i] == ms[i] by {}
        match ms.last() {
            SpecMember::Handler(h) => {
                lemma_handler_frame(shared, c, s, h, seen, iss + d1);
                lemma_handler_frame(shared, c, s, h, seen, d1);
                let d2 = spec_handler_check(shared, c, s, h, seen, none());
                lemma_append_assoc(iss, d1, d2);
                lemma_handler_clean(shared, c, s, h, seen);
                let last = ms.len() - 1;
                assert(ms[last] is Handler && ms[last]->Handler_0 == h);
                assert forall|x: Seq<char>|
                    #[trigger] name_insert(seen, h.name).contains(x) <==> has_handler_named(
                        ms,
                        x,
                    ) by {
                    lemma_insert_contains(seen, h.name, x);
                    if has_handler_named(ms, x) {
                        let i = choose|i: int|
                            0 <= i < ms.len() && #[trigger] ms[i] is Handler
                                && ms[i]->Handler_0.name == x;
                        if i < last {
                            assert(pre[i] is Handler);
                            assert(has_handler_named(pre, x));
                        }
                    }
                    if has_handler_named(pre, x) {
                        let i = choose|i: int|
                            0 <= i < pre.len() && #[trigger] pre[i] is Handler
                                && pre[i]->Handler_0.name == x;
                        assert(ms[i] is Handler);
                    }
                }
                if (d1 + d2).len() == 0 {
                    assert forall|i: int, j: int|
                        #![trigger ms[i], ms[j]]
                        0 <= i < j < ms.len() && ms[i] is Handler && ms[j] is Handler implies ms[i]->Handler_0.name
                            != ms[j]->Handler_0.name by {
                        if j < last {
                            assert(pre[i] == ms[i] && pre[j] == ms[j]);
                        } else {
                            assert(pre[i] is Handler);
                            if ms[i]->Handler_0.name == h.name {
                                assert(has_handler_named(pre, h.name));
                            }
                        }
                    }
                    assert forall|i: int|
                        0 <= i < ms.len() && #[trigger] ms[i] is Handler implies handler_sound(
                            shared,
                            ms[i]->Handler_0,
                        ) by {
                        if i < last {
                            assert(pre[i] == ms[i]);
                        }
                    }
                }
                if handler_names_distinct(ms) && handlers_sound(shared, ms) {
                    assert forall|i: int, j: int|
                        #![trigger pre[i], pre[j]]
                        0 <= i < j < pre.len() && pre[i] is Handler && pre[j] is Handler implies pre[i]->Handler_0.name
                            != pre[j]->Handler_0.name by {
                        assert(ms[i] == pre[i] && ms[j] == pre[j]);
                    }
                    assert forall|i: int|
                        0 <= i < pre.len() && #[trigger] pre[i] is Handler implies handler_sound(
                            shared,
                            pre[i]->Handler_0,
                        ) by {
                        assert(ms[i] == pre[i]);
                    }
                    if seen.contains(h.name) {
                        let i = choose|i: int|
                            0 <= i < pre.len() && #[trigger] pre[i] is Handler
                                && pre[i]->Handler_0.name == h.name;
                        assert(ms[i] is Handler);
                        assert(ms[last] is Handler);
                    }
                    assert(handler_sound(shared, ms[last]->Handler_0));
                    assert(d2.len() == 0);
                }
            },
            SpecMember::VarDecl(_) => {
                let last = ms.len() - 1;
                assert(ms[last] is VarDecl);
                assert forall|x: Seq<char>|
                    #[trigger] seen.contains(x) <==> has_handler_named(ms, x) by {
                    if has_handler_named(ms, x) {
                        let i = choose|i: int|
                            0 <= i < ms.len() && #[trigger] ms[i] is Handler
                                && ms[i]->Handler_0.name == x;
                        assert(i < last);
                        assert(pre[i] is Handler);
                        assert(has_handler_named(pre, x));
                    }
                    if has_handler_named(pre, x) {
                        let i = choose|i: int|
                            0 <= i < pre.len() && #[trigger] pre[i] is Handler
                                && pre[i]->Handler_0.name == x;
                        assert(ms[i] is Handler);
                    }
                }
                if d1.len() == 0 {
                    assert forall|i: int, j: int|
                        #![trigger ms[i], ms[j]]
                        0 <= i < j < ms.len() && ms[i] is Handler && ms[j] is Handler implies ms[i]->Handler_0.name
                            != ms[j]->Handler_0.name by {
                        assert(j < last);
                        assert(pre[i] == ms[i] && pre[j] == ms[j]);
                    }
                    assert forall|i: int|
                        0 <= i < ms.len() && #[trigger] ms[i] is Handler implies handler_sound(
                            shared,
                            ms[i]->Handler_0,
                        ) by {
                        assert(i < last);
                        assert(pre[i] == ms[i]);
                    }
                }
                if handler_names_distinct(ms) && handlers_sound(shared, ms) {
                    assert forall|i: int, j: int|
                        #![trigger pre[i], pre[j]]
                        0 <= i < j < pre.len() && pre[i] is Handler && pre[j] is Handler implies pre[i]->Handler_0.name
                            != pre[j]->Handler_0.name by {
                        assert(ms[i] == pre[i] && ms[j] == pre[j]);
                    }
                    assert forall|i: int|
                        0 <= i < pre.len() && #[trigger] pre[i] is Handler implies handler_sound(
                            shared,
                            pre[i]->Handler_0,
                        ) by {
                        assert(ms[i] == pre[i]);
                    }
                }
            },
        }
    }
}

/// A state variable of the given name is among the members.
pub open spec fn has_var_named(ms: Seq<SpecMember>, x: Seq<char>) -> bool {
    exists|i: int| 0 <= i < ms.len() && #[trigger] ms[i] is VarDecl && ms[i]->VarDecl_0.name == x
}

/// No two state variables of the members have the same name.
pub open spec fn var_names_distinct(ms: Seq<SpecMember>) -> bool {
    forall|i: int, j: int|
        #![trigger ms[i], ms[j]]
        0 <= i < j < ms.len() && ms[i] is VarDecl && ms[j] is VarDecl ==> ms[i]->VarDecl_0.name
            != ms[j]->VarDecl_0.name
}

/// A state variable has no linear type, and is not initialised with a linear value.
pub open spec fn var_sound(v: SpecVar) -> bool {
    &&& !spec_is_linear_type(v.ty)
    &&& !(spec_expr_returns_linear(v.init) && !spec_is_linear_type(v.ty))
}

pub open spec fn vars_sound(ms: Seq<SpecMember>) -> bool {
    forall|i: int| 0 <= i < ms.len() && #[trigger] ms[i] is VarDecl ==> var_sound(ms[i]->VarDecl_0)
}

proof fn lemma_var_names(ms: Seq<SpecMember>)
    ensures
        forall|x: Seq<char>| #[trigger] spec_var_names(ms).contains(x) <==> has_var_named(ms, x),
    decreases ms.len(),
{
    if ms.len() > 0 {
        let pre = ms.drop_last();
        let last = ms.len() - 1;
        lemma_var_names(pre);
        assert forall|x: Seq<char>| #[trigger] spec_var_names(ms).contains(x) <==> has_var_named(ms, x) by {
            if let SpecMember::VarDecl(v) = ms.last() {
                lemma_insert_contains(spec_var_names(pre), v.name, x);
                assert(ms[last] is VarDecl);
            }
            if has_var_named(ms, x) {
                let i = choose|i: int|
                    0 <= i < ms.len() && #[trigger] ms[i] is VarDecl && ms[i]->VarDecl_0.name == x;
                if i < last {
                    assert(pre[i] is VarDecl);
                    assert(has_var_named(pre, x));
                }
            }
            if has_var_named(pre, x) {
                let i = choose|i: int|
                    0 <= i < pre.len() && #[trigger] pre[i] is VarDecl && pre[i]->VarDecl_0.name == x;
                assert(ms[i] is VarDecl);
            }
        }
    }
}

proof fn lemma_var_issues(c: Seq<char>, s: Seq<char>, ms: Seq<SpecMember>)
    ensures
        spec_var_issues(c, s, ms).len() == 0 <==> var_names_distinct(ms) && vars_sound(ms),
    decreases ms.len(),
{
    if ms.len() > 0 {
        let pre = ms.drop_last();
        let last = ms.len() - 1;
        lemma_var_issues(c, s, pre);
        lemma_var_names(pre);
        assert forall|i: int| 0 <= i < pre.len() implies pre[i] == ms[i] by {}
        let d1 = spec_var_issues(c, s, pre);
        let ok_last = match ms.last() {
            SpecMember::VarDecl(v) => !has_var_named(pre, v.name) && var_sound(v),
            SpecMember::Handler(_) => true,
        };
        assert(spec_var_issues(c, s, ms).len() == 0 <==> d1.len() == 0 && ok_last);
        if d1.len() == 0 && ok_last {
            assert forall|i: int, j: int|
                #![trigger ms[i], ms[j]]
                0 <= i < j < ms.len() && ms[i] is VarDecl && ms[j] is VarDecl implies ms[i]->VarDecl_0.name
                    != ms[j]->VarDecl_0.name by {
                if j < last {
                    assert(pre[i] == ms[i] && pre[j] == ms[j]);
                } else {
                    assert(pre[i] is VarDecl);
                    if ms[i]->VarDecl_0.name == ms[j]->VarDecl_0.name {
                        assert(has_var_named(pre, ms[j]->VarDecl_0.name));
                    }
                }
            }
            assert forall|i: int| 0 <= i < ms.len() && #[trigger] ms[i] is VarDecl implies var_sound(
                ms[i]->VarDecl_0,
            ) by {
                if i < last {
                    assert(pre[i] == ms[i]);
                }
            }
        }
        if var_names_distinct(ms) && vars_sound(ms) {
            assert forall|i: int, j: int|
                #![trigger pre[i], pre[j]]
                0 <= i < j < pre.len() && pre[i] is VarDecl && pre[j] is VarDecl implies pre[i]->VarDecl_0.name
                    != pre[j]->VarDecl_0.name by {
                assert(ms[i] == pre[i] && ms[j] == pre[j]);
            }
            assert forall|i: int| 0 <= i < pre.len() && #[trigger] pre[i] is VarDecl implies var_sound(
                pre[i]->VarDecl_0,
            ) by {
                assert(ms[i] == pre[i]);
            }
            if let SpecMember::VarDecl(v) = ms.last() {
                assert(ms[last] is VarDecl);
                if has_var_named(pre, v.name) {
                    let i = choose|i: int|
                        0 <= i < pre.len() && #[trigger] pre[i] is VarDecl && pre[i]->VarDecl_0.name
                            == v.name;
                    assert(ms[i] is VarDecl);
                }
            }
        }
    }
}

/// The rules for one state: its variables, its handlers, and in a `contract` at least one handler.
pub open spec fn state_sound(shared: bool, st: SpecState) -> bool {
    &&& var_names_distinct(st.members)
    &&& vars_sound(st.members)
    &&& !shared ==> spec_has_handler(st.members)
    &&& handler_names_distinct(st.members)
    &&& handlers_sound(shared, st.members)
}

proof fn lemma_state(shared: bool, c: Seq<char>, st: SpecState, seen: Names, iss: Names)
    ensures
        spec_state_check(shared, c, st, seen, iss) == iss + spec_state_check(
            shared,
            c,
            st,
            seen,
            none(),
        ),
        spec_state_check(shared, c, st, seen, none()).len() == 0 <==> !seen.contains(st.name)
            && state_sound(shared, st),
{
    let dup = if seen.contains(st.name) {
        none().push(crate::checker::msg_dup_state(c, st.name))
    } else {
        none()
    };
    let vi = spec_var_issues(c, st.name, st.members);
    let nh = if !shared && !spec_has_handler(st.members) {
        none().push(crate::checker::msg_no_handler(c, st.name))
    } else {
        none()
    };
    let iss1 = if seen.contains(st.name) {
        iss.push(crate::checker::msg_dup_state(c, st.name))
    } else {
        iss
    };
    assert(iss1 =~= iss + dup);
    let iss2 = iss1 + vi;
    let iss3 = if !shared && !spec_has_handler(st.members) {
        iss2.push(crate::checker::msg_no_handler(c, st.name))
    } else {
        iss2
    };
    assert(iss3 =~= iss + (dup + vi + nh));
    lemma_append_none(dup);
    let e2 = dup + vi;
    let e3 = if !shared && !spec_has_handler(st.members) {
        e2.push(crate::checker::msg_no_handler(c, st.name))
    } else {
        e2
    };
    assert(e3 =~= dup + vi + nh);
    lemma_members(shared, c, st.name, st.members, iss3);
    lemma_members(shared, c, st.name, st.members, e3);
    let m = spec_members_check(shared, c, st.name, st.members, none()).0;
    lemma_append_assoc(iss, dup + vi + nh, m);
    lemma_var_issues(c, st.name, st.members);
}

/// A state of the given name is among the states.
pub open spec fn has_state_named(states: Seq<SpecState>, x: Seq<char>) -> bool {
    exists|i: int| 0 <= i < states.len() && (#[trigger] states[i]).name == x
}

/// No two states have the same name.
pub open spec fn state_names_distinct(states: Seq<SpecState>) -> bool {
    forall|i: int, j: int|
        #![trigger states[i], states[j]]
        0 <= i < j < states.len() ==> states[i].name != states[j].name
}

/// The rules for a contract (`shared` for a `shared_contract`).
pub open spec fn contract_sound(shared: bool, c: SpecContract) -> bool {
    &&& state_names_distinct(c.states)
    &&& forall|i: int| 0 <= i < c.states.len() ==> state_sound(shared, #[trigger] c.states[i])
}

proof fn lemma_states(shared: bool, c: Seq<char>, states: Seq<SpecState>, iss: Names)
    ensures
        spec_states_check(shared, c, states, iss).0 == iss + spec_states_check(
            shared,
            c,
            states,
            none(),
        ).0,
        spec_states_check(shared, c, states, iss).1 == spec_states_check(
            shared,
            c,
            states,
            none(),
        ).1,
        forall|x: Seq<char>|
            #[trigger] spec_states_check(shared, c, states, none()).1.contains(x)
                <==> has_state_named(states, x),
        spec_states_check(shared, c, states, none()).0.len() == 0 <==> state_names_distinct(states)
            && forall|i: int| 0 <= i < states.len() ==> state_sound(shared, #[trigger] states[i]),
    decreases states.len(),
{
    if states.len() == 0 {
        lemma_append_none(iss);
    } else {
        let pre = states.drop_last();
        let last = states.len() - 1;
        let st = states.last();
        lemma_states(shared, c, pre, iss);
        let (d1, seen) = spec_states_check(shared, c, pre, none());
        assert forall|i: int| 0 <= i < pre.len() implies pre[i] == states[i] by {}
        lemma_state(shared, c, st, seen, iss + d1);
        lemma_state(shared, c, st, seen, d1);
        let d2 = spec_state_check(shared, c, st, seen, none());
        lemma_append_assoc(iss, d1, d2);
        assert forall|x: Seq<char>|
            #[trigger] name_insert(seen, st.name).contains(x) <==> has_state_named(states, x) by {
            lemma_insert_contains(seen, st.name, x);
            assert(states[last] == st);
            if has_state_named(states, x) {
                let i = choose|i: int| 0 <= i < states.len() && (#[trigger] states[i]).name == x;
                if i < last {
                    assert(pre[i] == states[i]);
                    assert(has_state_named(pre, x));
                }
            }
            if has_state_named(pre, x) {
                let i = choose|i: int| 0 <= i < pre.len() && (#[trigger] pre[i]).name == x;
                assert(states[i] == pre[i]);
            }
        }
        if (d1 + d2).len() == 0 {
            assert forall|i: int, j: int|
                #![trigger states[i], states[j]]
                0 <= i < j < states.len() implies states[i].name != states[j].name by {
                if j < last {
                    assert(pre[i] == states[i] && pre[j] == states[j]);
                } else {
                    assert(pre[i] == states[i]);
                    if states[i].name == st.name {
                        assert(has_state_named(pre, st.name));
                    }
                }
            }
            assert forall|i: int| 0 <= i < states.len() implies state_sound(
                shared,
                #[trigger] states[i],
            ) by {
                if i < last {
                    assert(pre[i] == states[i]);
                }
            }
        }
        if state_names_distinct(states) && forall|i: int|
            0 <= i < states.len() ==> state_sound(shared, #[trigger] states[i]) {
            assert forall|i: int, j: int|
                #![trigger pre[i], pre[j]]
                0 <= i < j < pre.len() implies pre[i].name != pre[j].name by {
                assert(states[i] == pre[i] && states[j] == pre[j]);
            }
            assert forall|i: int| 0 <= i < pre.len() implies state_sound(
                shared,
                #[trigger] pre[i],
            ) by {
                assert(states[i] == pre[i]);
            }
            if seen.contains(st.name) {
                let i = choose|i: int| 0 <= i < pre.len() && (#[trigger] pre[i]).name == st.name;
                assert(states[i] == pre[i]);
                assert(states[last] == st);
            }
            assert(state_sound(shared, states[last]));
        }
    }
}

/// The rules for one item of a program.
pub open spec fn item_sound(item: SpecItem) -> bool {
    match item {
        SpecItem::SharedContract(c) => contract_sound(true, c),
        SpecItem::Contract(c) => contract_sound(false, c),
    }
}

/// A program keeps every rule of the checker.
pub open spec fn program_sound(p: SpecProgram) -> bool {
    forall|i: int| 0 <= i < p.items.len() ==> item_sound(#[trigger] p.items[i])
}

proof fn lemma_item(item: SpecItem, iss: Names)
    ensures
        spec_item_check(item, iss) == iss + spec_item_check(item, none()),
        spec_item_check(item, none()).len() == 0 <==> item_sound(item),
{
    match item {
        SpecItem::SharedContract(c) => {
            lemma_states(true, c.name, c.states, iss);
            lemma_states(true, c.name, c.states, none());
        },
        SpecItem::Contract(c) => {
            lemma_states(false, c.name, c.states, iss);
            lemma_states(false, c.name, c.states, none());
        },
    }
}

proof fn lemma_items(items: Seq<SpecItem>, iss: Names)
    ensures
        spec_items_check(items, iss) == iss + spec_items_check(items, none()),
        spec_items_check(items, none()).len() == 0 <==> forall|i: int|
            0 <= i < items.len() ==> item_sound(#[trigger] items[i]),
    decreases items.len(),
{
    if items.len() == 0 {
        lemma_append_none(iss);
    } else {
        let pre = items.drop_last();
        let last = items.len() - 1;
        lemma_items(pre, iss);
        let d1 = spec_items_check(pre, none());
        lemma_item(items.last(), iss + d1);
        lemma_item(items.last(), d1);
        let d2 = spec_item_check(items.last(), none());
        lemma_append_assoc(iss, d1, d2);
        assert forall|i: int| 0 <= i < pre.len() implies pre[i] == items[i] by {}
        if (d1 + d2).len() == 0 {
            assert forall|i: int| 0 <= i < items.len() implies item_sound(#[trigger] items[i]) by {
                if i < last {
                    assert(pre[i] == items[i]);
                }
            }
        }
        if forall|i: int| 0 <= i < items.len() ==> item_sound(#[trigger] items[i]) {
            assert forall|i: int| 0 <= i < pre.len() implies item_sound(#[trigger] pre[i]) by {
                assert(pre[i] == items[i]);
            }
            assert(item_sound(items[last]));
        }
    }
}

/// The checker accepts a program exactly when the program keeps every rule:
/// linear values used once and none left on any path, violation handling in
/// handlers with linear input, well-formed state variables, distinct state and
/// handler names, a handler in each state of a `contract`, no transition in a
/// `shared_contract`, and every path of a `contract` handler ending in a
/// transition or a violation. A refused program is answered with all findings.
pub proof fn law_accepts_exactly_sound_programs(p: SpecProgram)
    ensures
        spec_verify_program(p) is Ok <==> program_sound(p),
        !program_sound(p) ==> spec_program_issues(p).len() > 0 && spec_verify_program(p)
            == Err::<(), SpecCompileError>(SpecCompileError::Verify(
            crate::names::join(spec_program_issues(p), "\n"@),
        )),
{
    lemma_items(p.items, none());
}

proof fn lemma_remove_gone(s: Names, x: Seq<char>)
    ensures
        !name_remove(s, x).contains(x),
    decreases s.len(),
{
    if s.len() > 0 {
        lemma_remove_gone(s.drop_last(), x);
        let r = name_remove(s.drop_last(), x);
        if s.last() != x && r.push(s.last()).contains(x) {
            let j = choose|j: int| 0 <= j < r.push(s.last()).len() && r.push(s.last())[j] == x;
            assert(r[j] == x);
        }
    }
}

/// `send x;` or `drop x;`.
pub open spec fn moves(stmt: SpecStmt, x: Seq<char>) -> bool {
    stmt == SpecStmt::Send(SpecExpr::Path(x)) || stmt == SpecStmt::Drop(SpecExpr::Path(x))
}

proof fn lemma_moves_take_away(stmt: SpecStmt, x: Seq<char>, paths: Seq<Names>, env: Names, iss: Names, h: Seq<char>)
    requires
        moves(stmt, x),
        env.contains(x),
    ensures
        spec_apply_all(stmt, paths, env, iss, h).1 == env,
        spec_apply_all(stmt, paths, env, iss, h).0.len() == paths.len(),
        forall|k: int|
            0 <= k < paths.len() ==> !(#[trigger] spec_apply_all(stmt, paths, env, iss, h).0[k]).contains(x),
    decreases paths.len(),
{
    if paths.len() > 0 {
        lemma_moves_take_away(stmt, x, paths.drop_last(), env, iss, h);
        let (ps, env1, iss1) = spec_apply_all(stmt, paths.drop_last(), env, iss, h);
        let st = paths.last();
        let qs = spec_apply_single(stmt, st, env1, iss1, h).0;
        if st.contains(x) {
            lemma_remove_gone(st, x);
        }
        assert(qs.len() == 1 && !qs[0].contains(x));
        let all = ps + qs;
        assert forall|k: int| 0 <= k < paths.len() implies !(#[trigger] all[k]).contains(x) by {
            if k < ps.len() {
                assert(all[k] == ps[k]);
            }
        }
    }
}

proof fn lemma_moves_reported(stmt: SpecStmt, x: Seq<char>, paths: Seq<Names>, env: Names, iss: Names, h: Seq<char>)
    requires
        moves(stmt, x),
        env.contains(x),
        paths.len() > 0,
        forall|k: int| 0 <= k < paths.len() ==> !(#[trigger] paths[k]).contains(x),
    ensures
        spec_apply_all(stmt, paths, env, iss, h).2.contains(crate::checker::msg_use_after_move(x, h)),
    decreases paths.len(),
{
    let m = crate::checker::msg_use_after_move(x, h);
    let (ps, env1, iss1) = spec_apply_all(stmt, paths.drop_last(), env, iss, h);
    lemma_moves_take_away(stmt, x, paths.drop_last(), env, iss, h);
    let st = paths.last();
    assert(!st.contains(x));
    let r = spec_apply_single(stmt, st, env1, iss1, h).2;
    assert(r == iss1.push(m));
    assert(r[iss1.len() as int] == m);
}

/// A linear value is consumed at most once: after `send x;` or `drop x;` on
/// some paths, a second `send x;` or `drop x;` is reported as a use after move,
/// and the first leaves `x` on none of the paths.
pub proof fn law_second_move_is_reported(
    first: SpecStmt,
    second: SpecStmt,
    x: Seq<char>,
    paths: Seq<Names>,
    env: Names,
    iss: Names,
    h: Seq<char>,
)
    requires
        moves(first, x),
        moves(second, x),
        env.contains(x),
        paths.len() > 0,
    ensures
        forall|k: int|
            0 <= k < spec_apply_block(seq![first], paths, env, iss, h).0.len() ==> !(
            #[trigger] spec_apply_block(seq![first], paths, env, iss, h).0[k]).contains(x),
        spec_apply_block(seq![first, second], paths, env, iss, h).2.contains(
            crate::checker::msg_use_after_move(x, h),
        ),
{
    let b1 = seq![first];
    let b2 = seq![first, second];
    assert(b1.drop_last() =~= Seq::<SpecStmt>::empty());
    assert(b2.drop_last() =~= b1);
    assert(b1.last() == first && b2.last() == second);
    assert(spec_apply_block(Seq::<SpecStmt>::empty(), paths, env, iss, h) == (paths, env, iss));
    assert(spec_apply_block(b1, paths, env, iss, h) == spec_apply_all(first, paths, env, iss, h));
    lemma_moves_take_away(first, x, paths, env, iss, h);
    let (ps, env1, iss1) = spec_apply_block(b1, paths, env, iss, h);
    lemma_moves_reported(second, x, ps, env1, iss1, h);
}

/// Applying a statement to two groups of paths in turn is applying it to all
/// of them: the resulting paths are those of the first group followed by those
/// of the second, which runs on the linear names and findings that the first
/// left. No paths give no paths, with names and findings unchanged.
pub proof fn law_paths_split(
    stmt: SpecStmt,
    s1: Seq<Names>,
    s2: Seq<Names>,
    env: Names,
    iss: Names,
    h: Seq<char>,
)
    ensures
        spec_apply_all(stmt, Seq::empty(), env, iss, h) == (Seq::<Names>::empty(), env, iss),
        spec_apply_all(stmt, s1 + s2, env, iss, h) == ({
            let (p1, e1, i1) = spec_apply_all(stmt, s1, env, iss, h);
            let (p2, e2, i2) = spec_apply_all(stmt, s2, e1, i1, h);
            (p1 + p2, e2, i2)
        }),
    decreases s2.len(),
{
    if s2.len() == 0 {
        assert(s1 + s2 =~= s1);
        let p1 = spec_apply_all(stmt, s1, env, iss, h).0;
        assert(p1 + Seq::<Names>::empty() =~= p1);
    } else {
        assert((s1 + s2).drop_last() =~= s1 + s2.drop_last());
        assert((s1 + s2).last() == s2.last());
        law_paths_split(stmt, s1, s2.drop_last(), env, iss, h);
        let (p1, e1, i1) = spec_apply_all(stmt, s1, env, iss, h);
        let (q, e2, i2) = spec_apply_all(stmt, s2.drop_last(), e1, i1, h);
        let (r, e3, i3) = spec_apply_single(stmt, s2.last(), e2, i2, h);
        assert(p1 + q + r =~= p1 + (q + r));
    }
}

/// Running two blocks one after the other is running their concatenation, the
/// second on the paths, linear names and findings that the first left. An
/// empty block leaves everything as it was.
pub proof fn law_blocks_concat(
    b1: Seq<SpecStmt>,
    b2: Seq<SpecStmt>,
    paths: Seq<Names>,
    env: Names,
    iss: Names,
    h: Seq<char>,
)
    ensures
        spec_apply_block(Seq::empty(), paths, env, iss, h) == (paths, env, iss),
        spec_apply_block(b1 + b2, paths, env, iss, h) == ({
            let (p1, e1, i1) = spec_apply_block(b1, paths, env, iss, h);
            spec_apply_block(b2, p1, e1, i1, h)
        }),
    decreases b2.len(),
{
    if b2.len() == 0 {
        assert(b1 + b2 =~= b1);
    } else {
        assert((b1 + b2).drop_last() =~= b1 + b2.drop_last());
        assert((b1 + b2).last() == b2.last());
        law_blocks_concat(b1, b2.drop_last(), paths, env, iss, h);
    }
}

} // verus!
