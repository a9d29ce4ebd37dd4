//! The checker: linear resources, violation handling and contract structure.
use vstd::prelude::*;
use vstd::string::*;

use crate::ast::{
    exprs_view, views, ContractDecl, Expr, HandlerDecl, Item, Param, Program, SpecContract,
    SpecExpr, SpecHandler, SpecItem, SpecMember, SpecParam, SpecProgram, SpecState, SpecStmt,
    StateDecl, StateMember, Stmt,
};
use crate::error::{CompileError, SpecCompileError};
use crate::parser::{parse_source, spec_parse_source};
use crate::names::{join, name_insert, name_remove, set_text, starts_with, NameSet};

verus! {

/// A set of names in the order in which they were added.
pub type Names = Seq<Seq<char>>;

/// One finding of the checker.
#[derive(Debug)]
pub struct VerifyIssue(pub String);

impl View for VerifyIssue {
    type V = Seq<char>;

    open spec fn view(&self) -> Seq<char> {
        self.0@
    }
}

/// `pre` + `c.s.h` + `post`.
pub open spec fn wrap3(pre: Seq<char>, c: Seq<char>, s: Seq<char>, h: Seq<char>, post: Seq<char>) -> Seq<char> {
    pre + c + "."@ + s + "."@ + h + post
}

/// `pre` + `c.s` + `post`.
pub open spec fn wrap2(pre: Seq<char>, c: Seq<char>, s: Seq<char>, post: Seq<char>) -> Seq<char> {
    pre + c + "."@ + s + post
}

pub open spec fn msg_use_after_move(var: Seq<char>, h: Seq<char>) -> Seq<char> {
    "use-after-move for '"@ + var + "' in handler '"@ + h + "'"@
}

pub open spec fn msg_leak(c: Seq<char>, s: Seq<char>, h: Seq<char>, left: Names) -> Seq<char> {
    wrap3("handler '"@, c, s, h, "' leaks linear values on one path: "@) + set_text(left)
}

/// Type names that begin with `Linear` are linear.
pub open spec fn spec_is_linear_type(ty: Seq<char>) -> bool {
    "Linear"@.is_prefix_of(ty)
}

/// Calls of functions whose names begin with `create_` produce linear values.
pub open spec fn spec_expr_returns_linear(e: SpecExpr) -> bool {
    match e {
        SpecExpr::Call { target, .. } => "create_"@.is_prefix_of(target),
        _ => false,
    }
}

/// Consuming `var` on a path: it leaves the path, or, if it was not there, a
/// use-after-move is reported.
pub open spec fn spec_consume_var(var: Seq<char>, st: Names, iss: Names, h: Seq<char>) -> (
    Names,
    Names,
) {
    if st.contains(var) {
        (name_remove(st, var), iss)
    } else {
        (st, iss.push(msg_use_after_move(var, h)))
    }
}

/// The linear values that evaluating `e` consumes: those passed directly as
/// call arguments, left to right, innermost first.
pub open spec fn spec_consume_expr(e: SpecExpr, st: Names, env: Names, iss: Names, h: Seq<char>) -> (
    Names,
    Names,
)
    decreases e,
{
    match e {
        SpecExpr::Number(_) => (st, iss),
        SpecExpr::Path(_) => (st, iss),
        SpecExpr::Call { args, .. } => spec_consume_args(args, st, env, iss, h),
        SpecExpr::Add(l, r) => {
            let (st1, iss1) = spec_consume_expr(*l, st, env, iss, h);
            spec_consume_expr(*r, st1, env, iss1, h)
        },
        SpecExpr::Sub(l, r) => {
            let (st1, iss1) = spec_consume_expr(*l, st, env, iss, h);
            spec_consume_expr(*r, st1, env, iss1, h)
        },
        SpecExpr::Eq(l, r) => {
            let (st1, iss1) = spec_consume_expr(*l, st, env, iss, h);
            spec_consume_expr(*r, st1, env, iss1, h)
        },
        SpecExpr::Gt(l, r) => {
            let (st1, iss1) = spec_consume_expr(*l, st, env, iss, h);
            spec_consume_expr(*r, st1, env, iss1, h)
        },
        SpecExpr::Lt(l, r) => {
            let (st1, iss1) = spec_consume_expr(*l, st, env, iss, h);
            spec_consume_expr(*r, st1, env, iss1, h)
        },
    }
}

/// Call arguments in order: each is evaluated, and one that is a linear name is consumed.
pub open spec fn spec_consume_args(
    args: Seq<SpecExpr>,
    st: Names,
    env: Names,
    iss: Names,
    h: Seq<char>,
) -> (Names, Names)
    decreases args,
{
    if args.len() == 0 {
        (st, iss)
    } else {
        let (st1, iss1) = spec_consume_args(args.drop_last(), st, env, iss, h);
        let a = args.last();
        let (st2, iss2) = spec_consume_expr(a, st1, env, iss1, h);
        match a {
            SpecExpr::Path(p) => if env.contains(p) {
                spec_consume_var(p, st2, iss2, h)
            } else {
                (st2, iss2)
            },
            _ => (st2, iss2),
        }
    }
}

/// The paths, linear names and findings after one statement on one path.
pub open spec fn spec_apply_single(
    stmt: SpecStmt,
    st: Names,
    env: Names,
    iss: Names,
    h: Seq<char>,
) -> (Seq<Names>, Names, Names)
    decreases stmt, 0int,
{
    match stmt {
        SpecStmt::If { cond, then_branch, else_branch } => {
            let (st1, iss1) = spec_consume_expr(cond, st, env, iss, h);
            let (tp, env2, iss2) = spec_apply_block(then_branch, seq![st1], env, iss1, h);
            match else_branch {
                Some(eb) => {
                    let (ep, env3, iss3) = spec_apply_block(eb, seq![st1], env2, iss2, h);
                    (tp + ep, env3, iss3)
                },
                None => (tp + seq![st1], env2, iss2),
            }
        },
        SpecStmt::Call(e) => {
            let (st1, iss1) = spec_consume_expr(e, st, env, iss, h);
            (seq![st1], env, iss1)
        },
        SpecStmt::Let { name, expr } => {
            if expr is Path && env.contains(expr->Path_0) {
                let (st1, iss1) = spec_consume_var(expr->Path_0, st, iss, h);
                (seq![name_insert(st1, name)], name_insert(env, name), iss1)
            } else {
                let (st1, iss1) = spec_consume_expr(expr, st, env, iss, h);
                if spec_expr_returns_linear(expr) {
                    (seq![name_insert(st1, name)], name_insert(env, name), iss1)
                } else {
                    (seq![st1], env, iss1)
                }
            }
        },
        SpecStmt::Send(e) => spec_consume_moved(e, st, env, iss, h),
        SpecStmt::Drop(e) => spec_consume_moved(e, st, env, iss, h),
        SpecStmt::Transition(_) => (seq![st], env, iss),
        SpecStmt::Violation(body) => spec_apply_block(body, seq![st], env, iss, h),
        SpecStmt::Expr(e) => {
            let (st1, iss1) = spec_consume_expr(e, st, env, iss, h);
            (seq![st1], env, iss1)
        },
    }
}

/// `send e;` and `drop e;`: `e` is evaluated, and consumed if it is a linear name.
pub open spec fn spec_consume_moved(e: SpecExpr, st: Names, env: Names, iss: Names, h: Seq<char>) -> (
    Seq<Names>,
    Names,
    Names,
) {
    let (st1, iss1) = spec_consume_expr(e, st, env, iss, h);
    if e is Path && env.contains(e->Path_0) {
        let (st2, iss2) = spec_consume_var(e->Path_0, st1, iss1, h);
        (seq![st2], env, iss2)
    } else {
        (seq![st1], env, iss1)
    }
}

/// One statement on every path, in order; the resulting paths in order.
pub open spec fn spec_apply_all(
    stmt: SpecStmt,
    paths: Seq<Names>,
    env: Names,
    iss: Names,
    h: Seq<char>,
) -> (Seq<Names>, Names, Names)
    decreases stmt, paths.len(),
{
    if paths.len() == 0 {
        (Seq::empty(), env, iss)
    } else {
        let (ps, env1, iss1) = spec_apply_all(stmt, paths.drop_last(), env, iss, h);
        let (qs, env2, iss2) = spec_apply_single(stmt, paths.last(), env1, iss1, h);
        (ps + qs, env2, iss2)
    }
}

/// A block of statements on the given paths.
pub open spec fn spec_apply_block(
    block: Seq<SpecStmt>,
    paths: Seq<Names>,
    env: Names,
    iss: Names,
    h: Seq<char>,
) -> (Seq<Names>, Names, Names)
    decreases block, 0int,
{
    if block.len() == 0 {
        (paths, env, iss)
    } else {
        let (ps, env1, iss1) = spec_apply_block(block.drop_last(), paths, env, iss, h);
        spec_apply_all(block.last(), ps, env1, iss1, h)
    }
}


pub open spec fn msg_dup_var(c: Seq<char>, s: Seq<char>, v: Seq<char>) -> Seq<char> {
    wrap3("duplicate state variable '"@, c, s, v, "'"@)
}

pub open spec fn msg_linear_var(c: Seq<char>, s: Seq<char>, v: Seq<char>, ty: Seq<char>) -> Seq<char> {
    wrap3("state variable '"@, c, s, v, "' cannot use linear type '"@) + ty + "'"@
}

pub open spec fn msg_linear_init(c: Seq<char>, s: Seq<char>, v: Seq<char>, ty: Seq<char>) -> Seq<char> {
    wrap3("state variable '"@, c, s, v, "' initializes linear value into non-linear type '"@) + ty
        + "'"@
}

pub open spec fn msg_no_violation(c: Seq<char>, s: Seq<char>, h: Seq<char>) -> Seq<char> {
    wrap3("handler '"@, c, s, h, "' has linear input but no explicit violation block"@)
}

pub open spec fn msg_if_no_else(c: Seq<char>, s: Seq<char>, h: Seq<char>) -> Seq<char> {
    wrap3("handler '"@, c, s, h, "' uses if without else; unhandled input path"@)
}

pub open spec fn msg_else_no_violation(c: Seq<char>, s: Seq<char>, h: Seq<char>) -> Seq<char> {
    wrap3("handler '"@, c, s, h, "' has else-path without violation handling"@)
}

pub open spec fn msg_dup_state(c: Seq<char>, s: Seq<char>) -> Seq<char> {
    wrap2("duplicate state '"@, c, s, "'"@)
}

pub open spec fn msg_no_handler(c: Seq<char>, s: Seq<char>) -> Seq<char> {
    wrap2("state '"@, c, s, "' has no handler"@)
}

pub open spec fn msg_dup_handler(c: Seq<char>, s: Seq<char>, h: Seq<char>) -> Seq<char> {
    wrap3("duplicate handler '"@, c, s, h, "'"@)
}

pub open spec fn msg_shared_transition(c: Seq<char>, s: Seq<char>, h: Seq<char>) -> Seq<char> {
    wrap3("shared_contract handler '"@, c, s, h, "' performs a transition"@)
}

pub open spec fn msg_unterminated(c: Seq<char>, s: Seq<char>, h: Seq<char>) -> Seq<char> {
    wrap3("handler '"@, c, s, h, "' has a path that ends without transition or violation"@)
}

/// Whether the statement holds a `violation` block, itself or in a branch of an `if`.
pub open spec fn spec_stmt_has_violation(st: SpecStmt) -> bool
    decreases st,
{
    match st {
        SpecStmt::Violation(_) => true,
        SpecStmt::If { then_branch, else_branch, .. } => spec_contains_violation(then_branch) || (
        else_branch is Some && spec_contains_violation(else_branch->Some_0)),
        _ => false,
    }
}

pub open spec fn spec_contains_violation(stmts: Seq<SpecStmt>) -> bool
    decreases stmts,
{
    stmts.len() > 0 && (spec_contains_violation(stmts.drop_last()) || spec_stmt_has_violation(stmts.last()))
}

/// The findings on `if` statements: an `if` needs an `else`, and an `else` needs violation handling.
pub open spec fn spec_if_issues(stmts: Seq<SpecStmt>, c: Seq<char>, s: Seq<char>, h: Seq<char>) -> Names
    decreases stmts,
{
    if stmts.len() == 0 {
        Seq::empty()
    } else {
        spec_if_issues(stmts.drop_last(), c, s, h) + spec_stmt_if_issues(stmts.last(), c, s, h)
    }
}

pub open spec fn spec_stmt_if_issues(st: SpecStmt, c: Seq<char>, s: Seq<char>, h: Seq<char>) -> Names
    decreases st,
{
    match st {
        SpecStmt::If { then_branch, else_branch, .. } => match else_branch {
            None => seq![msg_if_no_else(c, s, h)] + spec_if_issues(then_branch, c, s, h),
            Some(eb) => (if spec_contains_violation(eb) {
                Seq::empty()
            } else {
                seq![msg_else_no_violation(c, s, h)]
            }) + spec_if_issues(then_branch, c, s, h) + spec_if_issues(eb, c, s, h),
        },
        SpecStmt::Violation(body) => spec_if_issues(body, c, s, h),
        _ => Seq::empty(),
    }
}

pub open spec fn spec_has_linear_params(params: Seq<SpecParam>) -> bool {
    exists|i: int| 0 <= i < params.len() && spec_is_linear_type(#[trigger] params[i].ty)
}

/// The findings on violation handling of a handler; none for a handler without linear input.
pub open spec fn spec_violation_issues(c: Seq<char>, s: Seq<char>, h: SpecHandler) -> Names {
    if !spec_has_linear_params(h.params) {
        Seq::empty()
    } else {
        (if spec_contains_violation(h.body) {
            Seq::empty()
        } else {
            seq![msg_no_violation(c, s, h.name)]
        }) + spec_if_issues(h.body, c, s, h.name)
    }
}

/// The names of the linear parameters, in order.
pub open spec fn spec_linear_params(params: Seq<SpecParam>) -> Names
    decreases params.len(),
{
    if params.len() == 0 {
        Seq::empty()
    } else {
        let r = spec_linear_params(params.drop_last());
        if spec_is_linear_type(params.last().ty) {
            name_insert(r, params.last().name)
        } else {
            r
        }
    }
}

/// A finding for each path that ends with linear values left.
pub open spec fn spec_leaks(paths: Seq<Names>, c: Seq<char>, s: Seq<char>, h: Seq<char>) -> Names
    decreases paths.len(),
{
    if paths.len() == 0 {
        Seq::empty()
    } else {
        spec_leaks(paths.drop_last(), c, s, h) + (if paths.last().len() == 0 {
            Seq::empty()
        } else {
            seq![msg_leak(c, s, h, paths.last())]
        })
    }
}

/// The findings of the path-by-path check of linear values in a handler, after `iss`.
pub open spec fn spec_linearity_check(c: Seq<char>, s: Seq<char>, h: SpecHandler, iss: Names) -> Names {
    let env0 = spec_linear_params(h.params);
    let (paths, _, iss1) = spec_apply_block(h.body, seq![env0], env0, iss, h.name);
    iss1 + spec_leaks(paths, c, s, h.name)
}

pub open spec fn spec_stmt_terminates(st: SpecStmt) -> bool
    decreases st,
{
    match st {
        SpecStmt::Transition(_) => true,
        SpecStmt::Violation(_) => true,
        SpecStmt::If { then_branch, else_branch, .. } => match else_branch {
            Some(eb) => spec_block_terminates(then_branch) && spec_block_terminates(eb),
            None => false,
        },
        _ => false,
    }
}

/// Whether every path through the block passes a `transition` or a `violation`.
pub open spec fn spec_block_terminates(stmts: Seq<SpecStmt>) -> bool
    decreases stmts,
{
    stmts.len() > 0 && (spec_block_terminates(stmts.drop_last()) || spec_stmt_terminates(stmts.last()))
}

pub open spec fn spec_stmt_has_transition(st: SpecStmt) -> bool
    decreases st,
{
    match st {
        SpecStmt::Transition(_) => true,
        SpecStmt::Violation(b) => spec_has_transition(b),
        SpecStmt::If { then_branch, else_branch, .. } => spec_has_transition(then_branch) || (
        else_branch is Some && spec_has_transition(else_branch->Some_0)),
        _ => false,
    }
}

/// Whether the block holds a `transition` anywhere.
pub open spec fn spec_has_transition(stmts: Seq<SpecStmt>) -> bool
    decreases stmts,
{
    stmts.len() > 0 && (spec_has_transition(stmts.drop_last()) || spec_stmt_has_transition(stmts.last()))
}

/// The findings on how a handler ends: a `shared_contract` handler makes no
/// transition; in a `contract` every path ends in a transition or a violation.
pub open spec fn spec_structure_issues(shared: bool, c: Seq<char>, s: Seq<char>, h: SpecHandler) -> Names {
    if shared {
        if spec_has_transition(h.body) {
            seq![msg_shared_transition(c, s, h.name)]
        } else {
            Seq::empty()
        }
    } else if spec_block_terminates(h.body) {
        Seq::empty()
    } else {
        seq![msg_unterminated(c, s, h.name)]
    }
}

/// All findings on one handler, after `iss`; `seen` holds the names of the earlier handlers of its state.
pub open spec fn spec_handler_check(
    shared: bool,
    c: Seq<char>,
    s: Seq<char>,
    h: SpecHandler,
    seen: Names,
    iss: Names,
) -> Names {
    let iss1 = if seen.contains(h.name) {
        iss.push(msg_dup_handler(c, s, h.name))
    } else {
        iss
    };
    let iss2 = iss1 + spec_violation_issues(c, s, h);
    let iss3 = spec_linearity_check(c, s, h, iss2);
    iss3 + spec_structure_issues(shared, c, s, h)
}

/// The names of the state variables among the members.
pub open spec fn spec_var_names(members: Seq<SpecMember>) -> Names
    decreases members.len(),
{
    if members.len() == 0 {
        Seq::empty()
    } else {
        let r = spec_var_names(members.drop_last());
        match members.last() {
            SpecMember::VarDecl(v) => name_insert(r, v.name),
            SpecMember::Handler(_) => r,
        }
    }
}

/// The findings on the state variables of a state.
pub open spec fn spec_var_issues(c: Seq<char>, s: Seq<char>, members: Seq<SpecMember>) -> Names
    decreases members.len(),
{
    if members.len() == 0 {
        Seq::empty()
    } else {
        spec_var_issues(c, s, members.drop_last()) + match members.last() {
            SpecMember::VarDecl(v) => (if spec_var_names(members.drop_last()).contains(v.name) {
                seq![msg_dup_var(c, s, v.name)]
            } else {
                Seq::empty()
            }) + (if spec_is_linear_type(v.ty) {
                seq![msg_linear_var(c, s, v.name, v.ty)]
            } else {
                Seq::empty()
            }) + (if spec_expr_returns_linear(v.init) && !spec_is_linear_type(v.ty) {
                seq![msg_linear_init(c, s, v.name, v.ty)]
            } else {
                Seq::empty()
            }),
            SpecMember::Handler(_) => Seq::empty(),
        }
    }
}

/// The handlers of a state, in order: the findings after `iss`, and their names.
pub open spec fn spec_members_check(
    shared: bool,
    c: Seq<char>,
    s: Seq<char>,
    members: Seq<SpecMember>,
    iss: Names,
) -> (Names, Names)
    decreases members.len(),
{
    if members.len() == 0 {
        (iss, Seq::empty())
    } else {
        let (iss1, seen) = spec_members_check(shared, c, s, members.drop_last(), iss);
        match members.last() {
            SpecMember::Handler(h) => (
                spec_handler_check(shared, c, s, h, seen, iss1),
                name_insert(seen, h.name),
            ),
            SpecMember::VarDecl(_) => (iss1, seen),
        }
    }
}

pub open spec fn spec_has_handler(members: Seq<SpecMember>) -> bool {
    exists|i: int| 0 <= i < members.len() && #[trigger] members[i] is Handler
}

/// All findings on one state, after `iss`; `seen` holds the names of the earlier states.
pub open spec fn spec_state_check(
    shared: bool,
    c: Seq<char>,
    st: SpecState,
    seen: Names,
    iss: Names,
) -> Names {
    let iss1 = if seen.contains(st.name) {
        iss.push(msg_dup_state(c, st.name))
    } else {
        iss
    };
    let iss2 = iss1 + spec_var_issues(c, st.name, st.members);
    let iss3 = if !shared && !spec_has_handler(st.members) {
        iss2.push(msg_no_handler(c, st.name))
    } else {
        iss2
    };
    spec_members_check(shared, c, st.name, st.members, iss3).0
}

/// The states of a contract, in order: the findings after `iss`, and their names.
pub open spec fn spec_states_check(shared: bool, c: Seq<char>, states: Seq<SpecState>, iss: Names) -> (
    Names,
    Names,
)
    decreases states.len(),
{
    if states.len() == 0 {
        (iss, Seq::empty())
    } else {
        let (iss1, seen) = spec_states_check(shared, c, states.drop_last(), iss);
        (
            spec_state_check(shared, c, states.last(), seen, iss1),
            name_insert(seen, states.last().name),
        )
    }
}

pub open spec fn spec_item_check(item: SpecItem, iss: Names) -> Names {
    match item {
        SpecItem::SharedContract(c) => spec_states_check(true, c.name, c.states, iss).0,
        SpecItem::Contract(c) => spec_states_check(false, c.name, c.states, iss).0,
    }
}

pub open spec fn spec_items_check(items: Seq<SpecItem>, iss: Names) -> Names
    decreases items.len(),
{
    if items.len() == 0 {
        iss
    } else {
        spec_item_check(items.last(), spec_items_check(items.drop_last(), iss))
    }
}

/// All findings on a program, in order.
pub open spec fn spec_program_issues(p: SpecProgram) -> Names {
    spec_items_check(p.items, Seq::empty())
}

/// A program passes when the checker has no finding; else all findings, one per line.
pub open spec fn spec_verify_program(p: SpecProgram) -> Result<(), SpecCompileError> {
    let iss = spec_program_issues(p);
    if iss.len() == 0 {
        Ok(())
    } else {
        Err(SpecCompileError::Verify(join(iss, "\n"@)))
    }
}

pub proof fn lemma_prefix_contains_violation(s: Seq<SpecStmt>, k: int)
    requires
        0 <= k <= s.len(),
        spec_contains_violation(s.take(k)),
    ensures
        spec_contains_violation(s),
    decreases s.len(),
{
    if k < s.len() {
        assert(s.drop_last().take(k) =~= s.take(k));
        lemma_prefix_contains_violation(s.drop_last(), k);
    } else {
        assert(s.take(k) =~= s);
    }
}

pub proof fn lemma_prefix_has_transition(s: Seq<SpecStmt>, k: int)
    requires
        0 <= k <= s.len(),
        spec_has_transition(s.take(k)),
    ensures
        spec_has_transition(s),
    decreases s.len(),
{
    if k < s.len() {
        assert(s.drop_last().take(k) =~= s.take(k));
        lemma_prefix_has_transition(s.drop_last(), k);
    } else {
        assert(s.take(k) =~= s);
    }
}

pub proof fn lemma_prefix_block_terminates(s: Seq<SpecStmt>, k: int)
    requires
        0 <= k <= s.len(),
        spec_block_terminates(s.take(k)),
    ensures
        spec_block_terminates(s),
    decreases s.len(),
{
    if k < s.len() {
        assert(s.drop_last().take(k) =~= s.take(k));
        lemma_prefix_block_terminates(s.drop_last(), k);
    } else {
        assert(s.take(k) =~= s);
    }
}

pub proof fn lemma_remove_absent(s: Names, x: Seq<char>)
    requires
        !s.contains(x),
    ensures
        name_remove(s, x) == s,
    decreases s.len(),
{
    if s.len() > 0 {
        assert(!s.drop_last().contains(x)) by {
            if s.drop_last().contains(x) {
                let j = choose|j: int| 0 <= j < s.drop_last().len() && s.drop_last()[j] == x;
                assert(s[j] == x);
            }
        }
        lemma_remove_absent(s.drop_last(), x);
        assert(s.drop_last().push(s.last()) =~= s);
    }
}

/// `pre` + `c.s.h` + `post`, as a string.
fn wrap3_text(pre: &str, c: &str, s: &str, h: &str, post: &str) -> (m: String)
    ensures
        m@ == wrap3(pre@, c@, s@, h@, post@),
{
    let mut m = String::from_str(pre);
    m.append(c);
    m.append(".");
    m.append(s);
    m.append(".");
    m.append(h);
    m.append(post);
    assert(m@ =~= wrap3(pre@, c@, s@, h@, post@));
    m
}

/// `pre` + `c.s` + `post`, as a string.
fn wrap2_text(pre: &str, c: &str, s: &str, post: &str) -> (m: String)
    ensures
        m@ == wrap2(pre@, c@, s@, post@),
{
    let mut m = String::from_str(pre);
    m.append(c);
    m.append(".");
    m.append(s);
    m.append(post);
    assert(m@ =~= wrap2(pre@, c@, s@, post@));
    m
}

pub fn is_linear_type(ty: &String) -> (b: bool)
    ensures
        b == spec_is_linear_type(ty@),
{
    starts_with(ty, "Linear")
}

pub fn expr_returns_linear(expr: &Expr) -> (b: bool)
    ensures
        b == spec_expr_returns_linear(expr@),
{
    match expr {
        Expr::Call { target, .. } => starts_with(target, "create_"),
        _ => false,
    }
}

pub fn consume_var(
    var: &String,
    state: &mut NameSet,
    issues: &mut Vec<VerifyIssue>,
    handler_name: &str,
)
    ensures
        (final(state)@, views(final(issues)@)) == spec_consume_var(
            var@,
            old(state)@,
            views(old(issues)@),
            handler_name@,
        ),
{
    let ghost st0 = state@;
    if !state.remove(var) {
        proof {
            lemma_remove_absent(st0, var@);
        }
        let mut m = String::from_str("use-after-move for '");
        m.append(var.as_str());
        m.append("' in handler '");
        m.append(handler_name);
        m.append("'");
        assert(m@ =~= msg_use_after_move(var@, handler_name@));
        let ghost i0 = views(issues@);
        let issue = VerifyIssue(m);
        issues.push(issue);
        assert(views(issues@) =~= i0.push(issue@));
    }
}

pub fn consume_in_expr(
    expr: &Expr,
    state: &mut NameSet,
    linear_env: &NameSet,
    issues: &mut Vec<VerifyIssue>,
    handler_name: &str,
)
    ensures
        (final(state)@, views(final(issues)@)) == spec_consume_expr(
            expr@,
            old(state)@,
            linear_env@,
            views(old(issues)@),
            handler_name@,
        ),
    decreases expr,
{
    match expr {
        Expr::Number(_) => {},
        Expr::Path(_) => {},
        Expr::Add(l, r) => {
            consume_in_expr(l, state, linear_env, issues, handler_name);
            consume_in_expr(r, state, linear_env, issues, handler_name);
        },
        Expr::Sub(l, r) => {
            consume_in_expr(l, state, linear_env, issues, handler_name);
            consume_in_expr(r, state, linear_env, issues, handler_name);
        },
        Expr::Eq(l, r) => {
            consume_in_expr(l, state, linear_env, issues, handler_name);
            consume_in_expr(r, state, linear_env, issues, handler_name);
        },
        Expr::Gt(l, r) => {
            consume_in_expr(l, state, linear_env, issues, handler_name);
            consume_in_expr(r, state, linear_env, issues, handler_name);
        },
        Expr::Lt(l, r) => {
            consume_in_expr(l, state, linear_env, issues, handler_name);
            consume_in_expr(r, state, linear_env, issues, handler_name);
        },
        Expr::Call { args, .. } => {
            let ghost av = exprs_view(args@);
            assert(av =~= match expr@ {
                SpecExpr::Call { args, .. } => args,
                _ => Seq::empty(),
            });
            assert(decreases_to!(*expr => *args));
            let mut i: usize = 0;
            while i < args.len()
                invariant
                    i <= args.len(),
                    decreases_to!(*expr => *args),
                    av == exprs_view(args@),
                    (state@, views(issues@)) == spec_consume_args(
                        av.take(i as int),
                        old(state)@,
                        linear_env@,
                        views(old(issues)@),
                        handler_name@,
                    ),
                decreases args.len() - i,
            {
                assert(av.take(i + 1).drop_last() =~= av.take(i as int));
                let arg = &args[i];
                proof {
                    vstd::std_specs::vec::axiom_vec_index_decreases(*args, i as int);
                }
                consume_in_expr(arg, state, linear_env, issues, handler_name);
                if let Expr::Path(p) = arg {
                    if linear_env.contains(p) {
                        consume_var(p, state, issues, handler_name);
                    }
                }
                i = i + 1;
            }
            assert(av.take(args.len() as int) =~= av);
        },
    }
}


/// The list of paths that holds just `st`.
fn single_path(st: NameSet) -> (v: Vec<NameSet>)
    ensures
        views(v@) == seq![st@],
{
    let mut v: Vec<NameSet> = Vec::new();
    let ghost s = st@;
    v.push(st);
    assert(views(v@) =~= seq![s]);
    v
}

pub fn apply_stmt_single(
    stmt: &Stmt,
    state: &NameSet,
    linear_env: &mut NameSet,
    issues: &mut Vec<VerifyIssue>,
    handler_name: &str,
) -> (r: Vec<NameSet>)
    ensures
        (views(r@), final(linear_env)@, views(final(issues)@)) == spec_apply_single(
            stmt@,
            state@,
            old(linear_env)@,
            views(old(issues)@),
            handler_name@,
        ),
    decreases *stmt, 1int,
{
    let mut st = state.duplicate();
    match stmt {
        Stmt::If { cond, then_branch, else_branch } => {
            consume_in_expr(cond, &mut st, linear_env, issues, handler_name);
            proof {
                vstd::std_specs::vec::axiom_vec_decreases_to_view(*then_branch);
                assert(views(then_branch@) =~= match stmt@ {
                    SpecStmt::If { then_branch, .. } => then_branch,
                    _ => Seq::empty(),
                });
            }
            let mut out = apply_block(
                then_branch.as_slice(),
                single_path(st.duplicate()),
                linear_env,
                issues,
                handler_name,
            );
            match else_branch {
                Some(else_body) => {
                    proof {
                        vstd::std_specs::vec::axiom_vec_decreases_to_view(*else_body);
                        assert(views(else_body@) =~= match stmt@ {
                            SpecStmt::If { else_branch: Some(b), .. } => b,
                            _ => Seq::empty(),
                        });
                    }
                    let mut rest = apply_block(
                        else_body.as_slice(),
                        single_path(st),
                        linear_env,
                        issues,
                        handler_name,
                    );
                    let ghost o = views(out@);
                    let ghost e = views(rest@);
                    out.append(&mut rest);
                    assert(views(out@) =~= o + e);
                },
                None => {
                    let ghost o = views(out@);
                    let ghost s1 = st@;
                    out.push(st);
                    assert(views(out@) =~= o + seq![s1]);
                },
            }
            out
        },
        Stmt::Call(expr) => {
            consume_in_expr(expr, &mut st, linear_env, issues, handler_name);
            single_path(st)
        },
        Stmt::Let { name, expr } => {
            if let Expr::Path(p) = expr {
                if linear_env.contains(p) {
                    consume_var(p, &mut st, issues, handler_name);
                    linear_env.insert(name.clone());
                    st.insert(name.clone());
                    return single_path(st);
                }
            }
            consume_in_expr(expr, &mut st, linear_env, issues, handler_name);
            if expr_returns_linear(expr) {
                linear_env.insert(name.clone());
                st.insert(name.clone());
            }
            single_path(st)
        },
        Stmt::Send(expr) => {
            consume_moved(expr, &mut st, linear_env, issues, handler_name);
            single_path(st)
        },
        Stmt::Drop(expr) => {
            consume_moved(expr, &mut st, linear_env, issues, handler_name);
            single_path(st)
        },
        Stmt::Transition(_) => single_path(st),
        Stmt::Violation(body) => {
            proof {
                vstd::std_specs::vec::axiom_vec_decreases_to_view(*body);
                assert(views(body@) =~= match stmt@ {
                    SpecStmt::Violation(b) => b,
                    _ => Seq::empty(),
                });
            }
            apply_block(body.as_slice(), single_path(st), linear_env, issues, handler_name)
        },
        Stmt::Expr(expr) => {
            consume_in_expr(expr, &mut st, linear_env, issues, handler_name);
            single_path(st)
        },
    }
}

/// `send` and `drop`: the expression is evaluated, and consumed if it is a linear name.
fn consume_moved(
    expr: &Expr,
    st: &mut NameSet,
    linear_env: &NameSet,
    issues: &mut Vec<VerifyIssue>,
    handler_name: &str,
)
    ensures
        (seq![final(st)@], linear_env@, views(final(issues)@)) == spec_consume_moved(
            expr@,
            old(st)@,
            linear_env@,
            views(old(issues)@),
            handler_name@,
        ),
{
    consume_in_expr(expr, st, linear_env, issues, handler_name);
    if let Expr::Path(p) = expr {
        if linear_env.contains(p) {
            consume_var(p, st, issues, handler_name);
        }
    }
}

pub fn apply_stmt(
    stmt: &Stmt,
    states: &[NameSet],
    linear_env: &mut NameSet,
    issues: &mut Vec<VerifyIssue>,
    handler_name: &str,
) -> (r: Vec<NameSet>)
    ensures
        (views(r@), final(linear_env)@, views(final(issues)@)) == spec_apply_all(
            stmt@,
            views(states@),
            old(linear_env)@,
            views(old(issues)@),
            handler_name@,
        ),
    decreases *stmt, 2int,
{
    let ghost sv = views(states@);
    let mut out: Vec<NameSet> = Vec::new();
    let mut i: usize = 0;
    assert(sv.take(0) =~= Seq::<Names>::empty());
    assert(views(out@) =~= Seq::<Names>::empty());
    while i < states.len()
        invariant
            i <= states.len(),
            sv == views(states@),
            (views(out@), linear_env@, views(issues@)) == spec_apply_all(
                stmt@,
                sv.take(i as int),
                old(linear_env)@,
                views(old(issues)@),
                handler_name@,
            ),
        decreases states.len() - i,
    {
        assert(sv.take(i + 1).drop_last() =~= sv.take(i as int));
        let mut r = apply_stmt_single(stmt, &states[i], linear_env, issues, handler_name);
        let ghost o = views(out@);
        let ghost e = views(r@);
        out.append(&mut r);
        assert(views(out@) =~= o + e);
        i = i + 1;
    }
    assert(sv.take(states.len() as int) =~= sv);
    out
}

pub fn apply_block(
    block: &[Stmt],
    states: Vec<NameSet>,
    linear_env: &mut NameSet,
    issues: &mut Vec<VerifyIssue>,
    handler_name: &str,
) -> (r: Vec<NameSet>)
    ensures
        (views(r@), final(linear_env)@, views(final(issues)@)) == spec_apply_block(
            views(block@),
            views(states@),
            old(linear_env)@,
            views(old(issues)@),
            handler_name@,
        ),
    decreases block@, 0int,
{
    let ghost bv = views(block@);
    let ghost s0 = views(states@);
    let mut states = states;
    let mut i: usize = 0;
    assert(bv.take(0) =~= Seq::<SpecStmt>::empty());
    while i < block.len()
        invariant
            i <= block.len(),
            bv == views(block@),
            (views(states@), linear_env@, views(issues@)) == spec_apply_block(
                bv.take(i as int),
                s0,
                old(linear_env)@,
                views(old(issues)@),
                handler_name@,
            ),
        decreases block.len() - i,
    {
        assert(bv.take(i + 1).drop_last() =~= bv.take(i as int));
        assert(decreases_to!(block@ => block@[i as int]));
        states = apply_stmt(&block[i], states.as_slice(), linear_env, issues, handler_name);
        i = i + 1;
    }
    assert(bv.take(block.len() as int) =~= bv);
    states
}


/// Records a finding.
fn push_issue(issues: &mut Vec<VerifyIssue>, m: String)
    ensures
        views(final(issues)@) == views(old(issues)@).push(m@),
{
    let issue = VerifyIssue(m);
    let ghost i0 = views(issues@);
    issues.push(issue);
    assert(views(issues@) =~= i0.push(issue@));
}

pub fn contains_violation(stmts: &[Stmt]) -> (b: bool)
    ensures
        b == spec_contains_violation(views(stmts@)),
    decreases stmts@,
{
    let ghost sv = views(stmts@);
    let mut i: usize = 0;
    while i < stmts.len()
        invariant
            i <= stmts.len(),
            sv == views(stmts@),
            !spec_contains_violation(sv.take(i as int)),
        decreases stmts.len() - i,
    {
        assert(decreases_to!(stmts@ => stmts@[i as int]));
        let st = &stmts[i];
        match st {
            Stmt::Violation(_) => {
                assert(spec_stmt_has_violation(sv[i as int]));
                assert(sv.take(i + 1).drop_last() =~= sv.take(i as int));
                proof { lemma_prefix_contains_violation(sv, i + 1); }
                return true;
            },
            Stmt::If { then_branch, else_branch, .. } => {
                proof {
                    vstd::std_specs::vec::axiom_vec_decreases_to_view(*then_branch);
                    assert(views(then_branch@) =~= match st@ {
                        SpecStmt::If { then_branch, .. } => then_branch,
                        _ => Seq::empty(),
                    });
                }
                if contains_violation(then_branch.as_slice()) {
                    assert(spec_stmt_has_violation(sv[i as int]));
                    assert(sv.take(i + 1).drop_last() =~= sv.take(i as int));
                proof { lemma_prefix_contains_violation(sv, i + 1); }
                    return true;
                }
                if let Some(else_b) = else_branch {
                    proof {
                        vstd::std_specs::vec::axiom_vec_decreases_to_view(*else_b);
                        assert(views(else_b@) =~= match st@ {
                            SpecStmt::If { else_branch: Some(b), .. } => b,
                            _ => Seq::empty(),
                        });
                    }
                    if contains_violation(else_b.as_slice()) {
                        assert(spec_stmt_has_violation(sv[i as int]));
                        assert(sv.take(i + 1).drop_last() =~= sv.take(i as int));
                proof { lemma_prefix_contains_violation(sv, i + 1); }
                        return true;
                    }
                }
            },
            _ => {},
        }
        assert(sv.take(i + 1).drop_last() =~= sv.take(i as int));
        assert(!spec_stmt_has_violation(sv[i as int]));
        assert(sv.take(i + 1).last() == sv[i as int]);
        i = i + 1;
    }
    assert(sv.take(stmts.len() as int) =~= sv);
    false
}

/// Whether the block holds a `transition` anywhere.
pub fn contains_transition(stmts: &[Stmt]) -> (b: bool)
    ensures
        b == spec_has_transition(views(stmts@)),
    decreases stmts@,
{
    let ghost sv = views(stmts@);
    let mut i: usize = 0;
    while i < stmts.len()
        invariant
            i <= stmts.len(),
            sv == views(stmts@),
            !spec_has_transition(sv.take(i as int)),
        decreases stmts.len() - i,
    {
        assert(decreases_to!(stmts@ => stmts@[i as int]));
        let st = &stmts[i];
        match st {
            Stmt::Transition(_) => {
                assert(spec_stmt_has_transition(sv[i as int]));
                assert(sv.take(i + 1).drop_last() =~= sv.take(i as int));
                proof { lemma_prefix_has_transition(sv, i + 1); }
                return true;
            },
            Stmt::Violation(body) => {
                proof {
                    vstd::std_specs::vec::axiom_vec_decreases_to_view(*body);
                    assert(views(body@) =~= match st@ {
                        SpecStmt::Violation(b) => b,
                        _ => Seq::empty(),
                    });
                }
                if contains_transition(body.as_slice()) {
                    assert(spec_stmt_has_transition(sv[i as int]));
                    assert(sv.take(i + 1).drop_last() =~= sv.take(i as int));
                proof { lemma_prefix_has_transition(sv, i + 1); }
                    return true;
                }
            },
            Stmt::If { then_branch, else_branch, .. } => {
                proof {
                    vstd::std_specs::vec::axiom_vec_decreases_to_view(*then_branch);
                    assert(views(then_branch@) =~= match st@ {
                        SpecStmt::If { then_branch, .. } => then_branch,
                        _ => Seq::empty(),
                    });
                }
                if contains_transition(then_branch.as_slice()) {
                    assert(spec_stmt_has_transition(sv[i as int]));
                    assert(sv.take(i + 1).drop_last() =~= sv.take(i as int));
                proof { lemma_prefix_has_transition(sv, i + 1); }
                    return true;
                }
                if let Some(else_b) = else_branch {
                    proof {
                        vstd::std_specs::vec::axiom_vec_decreases_to_view(*else_b);
                        assert(views(else_b@) =~= match st@ {
                            SpecStmt::If { else_branch: Some(b), .. } => b,
                            _ => Seq::empty(),
                        });
                    }
                    if contains_transition(else_b.as_slice()) {
                        assert(spec_stmt_has_transition(sv[i as int]));
                        assert(sv.take(i + 1).drop_last() =~= sv.take(i as int));
                proof { lemma_prefix_has_transition(sv, i + 1); }
                        return true;
                    }
                }
            },
            _ => {},
        }
        assert(sv.take(i + 1).drop_last() =~= sv.take(i as int));
        assert(!spec_stmt_has_transition(sv[i as int]));
        assert(sv.take(i + 1).last() == sv[i as int]);
        i = i + 1;
    }
    assert(sv.take(stmts.len() as int) =~= sv);
    false
}

/// Whether every path through the block passes a `transition` or a `violation`.
pub fn block_terminates(stmts: &[Stmt]) -> (b: bool)
    ensures
        b == spec_block_terminates(views(stmts@)),
    decreases stmts@,
{
    let ghost sv = views(stmts@);
    let mut i: usize = 0;
    while i < stmts.len()
        invariant
            i <= stmts.len(),
            sv == views(stmts@),
            !spec_block_terminates(sv.take(i as int)),
        decreases stmts.len() - i,
    {
        assert(decreases_to!(stmts@ => stmts@[i as int]));
        let st = &stmts[i];
        match st {
            Stmt::Transition(_) => {
                assert(spec_stmt_terminates(sv[i as int]));
                assert(sv.take(i + 1).drop_last() =~= sv.take(i as int));
                proof { lemma_prefix_block_terminates(sv, i + 1); }
                return true;
            },
            Stmt::Violation(_) => {
                assert(spec_stmt_terminates(sv[i as int]));
                assert(sv.take(i + 1).drop_last() =~= sv.take(i as int));
                proof { lemma_prefix_block_terminates(sv, i + 1); }
                return true;
            },
            Stmt::If { then_branch, else_branch: Some(else_b), .. } => {
                proof {
                    vstd::std_specs::vec::axiom_vec_decreases_to_view(*then_branch);
                    vstd::std_specs::vec::axiom_vec_decreases_to_view(*else_b);
                    assert(views(then_branch@) =~= match st@ {
                        SpecStmt::If { then_branch, .. } => then_branch,
                        _ => Seq::empty(),
                    });
                    assert(views(else_b@) =~= match st@ {
                        SpecStmt::If { else_branch: Some(b), .. } => b,
                        _ => Seq::empty(),
                    });
                }
                if block_terminates(then_branch.as_slice()) && block_terminates(
                    else_b.as_slice(),
                ) {
                    assert(spec_stmt_terminates(sv[i as int]));
                    assert(sv.take(i + 1).drop_last() =~= sv.take(i as int));
                proof { lemma_prefix_block_terminates(sv, i + 1); }
                    return true;
                }
            },
            _ => {},
        }
        assert(sv.take(i + 1).drop_last() =~= sv.take(i as int));
        assert(!spec_stmt_terminates(sv[i as int]));
        assert(sv.take(i + 1).last() == sv[i as int]);
        i = i + 1;
    }
    assert(sv.take(stmts.len() as int) =~= sv);
    false
}

pub fn ensure_if_exhaustive_with_violation(
    stmts: &[Stmt],
    contract_name: &str,
    state_name: &str,
    handler_name: &str,
    issues: &mut Vec<VerifyIssue>,
)
    ensures
        views(final(issues)@) == views(old(issues)@) + spec_if_issues(
            views(stmts@),
            contract_name@,
            state_name@,
            handler_name@,
        ),
    decreases stmts@,
{
    let ghost sv = views(stmts@);
    let ghost i0 = views(issues@);
    let ghost (c, s, h) = (contract_name@, state_name@, handler_name@);
    let mut i: usize = 0;
    assert(sv.take(0) =~= Seq::<SpecStmt>::empty());
    assert(i0 =~= i0 + spec_if_issues(sv.take(0), c, s, h));
    while i < stmts.len()
        invariant
            i <= stmts.len(),
            sv == views(stmts@),
            c == contract_name@,
            s == state_name@,
            h == handler_name@,
            views(issues@) == i0 + spec_if_issues(sv.take(i as int), c, s, h),
        decreases stmts.len() - i,
    {
        assert(sv.take(i + 1).drop_last() =~= sv.take(i as int));
        assert(decreases_to!(stmts@ => stmts@[i as int]));
        let ghost before = views(issues@);
        let st = &stmts[i];
        match st {
            Stmt::If { else_branch, then_branch, .. } => {
                proof {
                    vstd::std_specs::vec::axiom_vec_decreases_to_view(*then_branch);
                    assert(views(then_branch@) =~= match st@ {
                        SpecStmt::If { then_branch, .. } => then_branch,
                        _ => Seq::empty(),
                    });
                }
                match else_branch {
                    None => {
                        push_issue(
                            issues,
                            wrap3_text(
                                "handler '",
                                contract_name,
                                state_name,
                                handler_name,
                                "' uses if without else; unhandled input path",
                            ),
                        );
                        ensure_if_exhaustive_with_violation(
                            then_branch.as_slice(),
                            contract_name,
                            state_name,
                            handler_name,
                            issues,
                        );
                    },
                    Some(else_b) => {
                        proof {
                            vstd::std_specs::vec::axiom_vec_decreases_to_view(*else_b);
                            assert(views(else_b@) =~= match st@ {
                                SpecStmt::If { else_branch: Some(b), .. } => b,
                                _ => Seq::empty(),
                            });
                        }
                        if !contains_violation(else_b.as_slice()) {
                            push_issue(
                                issues,
                                wrap3_text(
                                    "handler '",
                                    contract_name,
                                    state_name,
                                    handler_name,
                                    "' has else-path without violation handling",
                                ),
                            );
                        }
                        ensure_if_exhaustive_with_violation(
                            then_branch.as_slice(),
                            contract_name,
                            state_name,
                            handler_name,
                            issues,
                        );
                        ensure_if_exhaustive_with_violation(
                            else_b.as_slice(),
                            contract_name,
                            state_name,
                            handler_name,
                            issues,
                        );
                    },
                }
            },
            Stmt::Violation(body) => {
                proof {
                    vstd::std_specs::vec::axiom_vec_decreases_to_view(*body);
                    assert(views(body@) =~= match st@ {
                        SpecStmt::Violation(b) => b,
                        _ => Seq::empty(),
                    });
                }
                ensure_if_exhaustive_with_violation(
                    body.as_slice(),
                    contract_name,
                    state_name,
                    handler_name,
                    issues,
                );
            },
            _ => {},
        }
        assert(views(issues@) =~= before + spec_stmt_if_issues(sv[i as int], c, s, h));
        assert(views(issues@) =~= i0 + spec_if_issues(sv.take(i + 1), c, s, h));
        i = i + 1;
    }
    assert(sv.take(stmts.len() as int) =~= sv);
}


/// Whether some parameter has a linear type.
fn has_linear_params(params: &Vec<Param>) -> (b: bool)
    ensures
        b == spec_has_linear_params(views(params@)),
{
    let ghost pv = views(params@);
    let mut i: usize = 0;
    while i < params.len()
        invariant
            i <= params.len(),
            pv == views(params@),
            forall|j: int| 0 <= j < i ==> !spec_is_linear_type(#[trigger] pv[j].ty),
        decreases params.len() - i,
    {
        if is_linear_type(&params[i].ty) {
            assert(spec_is_linear_type(pv[i as int].ty));
            return true;
        }
        i = i + 1;
    }
    false
}

pub fn verify_violation_exhaustiveness(
    contract_name: &str,
    state_name: &str,
    handler: &HandlerDecl,
    issues: &mut Vec<VerifyIssue>,
)
    ensures
        views(final(issues)@) == views(old(issues)@) + spec_violation_issues(
            contract_name@,
            state_name@,
            handler@,
        ),
{
    let ghost i0 = views(issues@);
    if !has_linear_params(&handler.params) {
        assert(views(issues@) =~= i0 + Seq::<Seq<char>>::empty());
        return;
    }
    if !contains_violation(handler.body.as_slice()) {
        push_issue(
            issues,
            wrap3_text(
                "handler '",
                contract_name,
                state_name,
                handler.name.as_str(),
                "' has linear input but no explicit violation block",
            ),
        );
    }
    let ghost i1 = views(issues@);
    ensure_if_exhaustive_with_violation(
        handler.body.as_slice(),
        contract_name,
        state_name,
        handler.name.as_str(),
        issues,
    );
    assert(views(issues@) =~= i0 + spec_violation_issues(contract_name@, state_name@, handler@));
}

pub fn validate_state_members(
    contract_name: &str,
    state: &StateDecl,
    issues: &mut Vec<VerifyIssue>,
)
    ensures
        views(final(issues)@) == views(old(issues)@) + spec_var_issues(
            contract_name@,
            state@.name,
            state@.members,
        ),
{
    let ghost i0 = views(issues@);
    let ghost mv = views(state.members@);
    let ghost (c, sn) = (contract_name@, state.name@);
    let mut vars_seen = NameSet::new();
    let mut i: usize = 0;
    assert(mv.take(0) =~= Seq::<SpecMember>::empty());
    assert(views(issues@) =~= i0 + spec_var_issues(c, sn, mv.take(0)));
    while i < state.members.len()
        invariant
            i <= state.members.len(),
            mv == views(state.members@),
            c == contract_name@,
            sn == state.name@,
            vars_seen@ == spec_var_names(mv.take(i as int)),
            views(issues@) == i0 + spec_var_issues(c, sn, mv.take(i as int)),
        decreases state.members.len() - i,
    {
        assert(mv.take(i + 1).drop_last() =~= mv.take(i as int));
        let ghost before = views(issues@);
        if let StateMember::VarDecl(var) = &state.members[i] {
            if vars_seen.contains(&var.name) {
                push_issue(
                    issues,
                    wrap3_text(
                        "duplicate state variable '",
                        contract_name,
                        state.name.as_str(),
                        var.name.as_str(),
                        "'",
                    ),
                );
            } else {
                vars_seen.insert(var.name.clone());
            }
            let ghost b1 = views(issues@);
            let linear = is_linear_type(&var.ty);
            if linear {
                let mut m = wrap3_text(
                    "state variable '",
                    contract_name,
                    state.name.as_str(),
                    var.name.as_str(),
                    "' cannot use linear type '",
                );
                m.append(var.ty.as_str());
                m.append("'");
                assert(m@ =~= msg_linear_var(c, sn, var.name@, var.ty@));
                push_issue(issues, m);
            }
            let ghost b2 = views(issues@);
            if expr_returns_linear(&var.init) && !linear {
                let mut m = wrap3_text(
                    "state variable '",
                    contract_name,
                    state.name.as_str(),
                    var.name.as_str(),
                    "' initializes linear value into non-linear type '",
                );
                m.append(var.ty.as_str());
                m.append("'");
                assert(m@ =~= msg_linear_init(c, sn, var.name@, var.ty@));
                push_issue(issues, m);
            }
            proof {
                if spec_var_names(mv.take(i as int)).contains(var.name@) {
                    assert(name_insert(spec_var_names(mv.take(i as int)), var.name@) == spec_var_names(mv.take(i as int)));
                }
            }
        }
        assert(views(issues@) =~= i0 + spec_var_issues(c, sn, mv.take(i + 1)));
        i = i + 1;
    }
    assert(mv.take(state.members.len() as int) =~= mv);
}


/// All findings on one handler; `seen` holds the names of the earlier handlers of its state.
pub fn check_handler(
    shared: bool,
    contract_name: &str,
    state_name: &str,
    handler: &HandlerDecl,
    seen: &NameSet,
    issues: &mut Vec<VerifyIssue>,
)
    ensures
        views(final(issues)@) == spec_handler_check(
            shared,
            contract_name@,
            state_name@,
            handler@,
            seen@,
            views(old(issues)@),
        ),
{
    let ghost (c, sn, h) = (contract_name@, state_name@, handler@);
    if seen.contains(&handler.name) {
        push_issue(
            issues,
            wrap3_text("duplicate handler '", contract_name, state_name, handler.name.as_str(), "'"),
        );
    }
    verify_violation_exhaustiveness(contract_name, state_name, handler, issues);
    let ghost iss2 = views(issues@);
    let ghost pv = views(handler.params@);
    let mut linear_env = NameSet::new();
    let mut i: usize = 0;
    assert(pv.take(0) =~= Seq::<SpecParam>::empty());
    while i < handler.params.len()
        invariant
            i <= handler.params.len(),
            pv == views(handler.params@),
            linear_env@ == spec_linear_params(pv.take(i as int)),
        decreases handler.params.len() - i,
    {
        assert(pv.take(i + 1).drop_last() =~= pv.take(i as int));
        if is_linear_type(&handler.params[i].ty) {
            linear_env.insert(handler.params[i].name.clone());
        }
        i = i + 1;
    }
    assert(pv.take(handler.params.len() as int) =~= pv);
    let start = single_path(linear_env.duplicate());
    let states = apply_block(
        handler.body.as_slice(),
        start,
        &mut linear_env,
        issues,
        handler.name.as_str(),
    );
    let ghost iss_lin = views(issues@);
    let ghost paths = views(states@);
    let mut k: usize = 0;
    assert(paths.take(0) =~= Seq::<Names>::empty());
    assert(views(issues@) =~= iss_lin + spec_leaks(paths.take(0), c, sn, h.name));
    while k < states.len()
        invariant
            k <= states.len(),
            paths == views(states@),
            c == contract_name@,
            sn == state_name@,
            h == handler@,
            views(issues@) == iss_lin + spec_leaks(paths.take(k as int), c, sn, h.name),
        decreases states.len() - k,
    {
        assert(paths.take(k + 1).drop_last() =~= paths.take(k as int));
        if !states[k].is_empty() {
            let mut m = wrap3_text(
                "handler '",
                contract_name,
                state_name,
                handler.name.as_str(),
                "' leaks linear values on one path: ",
            );
            states[k].append_text(&mut m);
            assert(m@ =~= msg_leak(c, sn, h.name, paths[k as int]));
            push_issue(issues, m);
        }
        assert(views(issues@) =~= iss_lin + spec_leaks(paths.take(k + 1), c, sn, h.name));
        k = k + 1;
    }
    assert(paths.take(states.len() as int) =~= paths);
    let ghost iss3 = views(issues@);
    if shared {
        if contains_transition(handler.body.as_slice()) {
            push_issue(
                issues,
                wrap3_text(
                    "shared_contract handler '",
                    contract_name,
                    state_name,
                    handler.name.as_str(),
                    "' performs a transition",
                ),
            );
        }
    } else if !block_terminates(handler.body.as_slice()) {
        push_issue(
            issues,
            wrap3_text(
                "handler '",
                contract_name,
                state_name,
                handler.name.as_str(),
                "' has a path that ends without transition or violation",
            ),
        );
    }
    assert(views(issues@) =~= iss3 + spec_structure_issues(shared, c, sn, h));
}

/// Whether some member is a handler.
fn has_handler(members: &Vec<StateMember>) -> (b: bool)
    ensures
        b == spec_has_handler(views(members@)),
{
    let ghost mv = views(members@);
    let mut i: usize = 0;
    while i < members.len()
        invariant
            i <= members.len(),
            mv == views(members@),
            forall|j: int| 0 <= j < i ==> !(#[trigger] mv[j] is Handler),
        decreases members.len() - i,
    {
        if let StateMember::Handler(_) = &members[i] {
            assert(mv[i as int] is Handler);
            return true;
        }
        i = i + 1;
    }
    false
}

/// All findings on one state; `seen` holds the names of the earlier states of its contract.
pub fn check_state(
    shared: bool,
    contract_name: &str,
    state: &StateDecl,
    seen: &NameSet,
    issues: &mut Vec<VerifyIssue>,
)
    ensures
        views(final(issues)@) == spec_state_check(
            shared,
            contract_name@,
            state@,
            seen@,
            views(old(issues)@),
        ),
{
    let ghost (c, sn) = (contract_name@, state.name@);
    if seen.contains(&state.name) {
        push_issue(issues, wrap2_text("duplicate state '", contract_name, state.name.as_str(), "'"));
    }
    let ghost iss1 = views(issues@);
    validate_state_members(contract_name, state, issues);
    if !shared && !has_handler(&state.members) {
        push_issue(
            issues,
            wrap2_text("state '", contract_name, state.name.as_str(), "' has no handler"),
        );
    }
    let ghost iss3 = views(issues@);
    let ghost mv = views(state.members@);
    let mut handlers_seen = NameSet::new();
    let mut i: usize = 0;
    assert(mv.take(0) =~= Seq::<SpecMember>::empty());
    while i < state.members.len()
        invariant
            i <= state.members.len(),
            mv == views(state.members@),
            c == contract_name@,
            sn == state.name@,
            (views(issues@), handlers_seen@) == spec_members_check(
                shared,
                c,
                sn,
                mv.take(i as int),
                iss3,
            ),
        decreases state.members.len() - i,
    {
        assert(mv.take(i + 1).drop_last() =~= mv.take(i as int));
        if let StateMember::Handler(h) = &state.members[i] {
            check_handler(shared, contract_name, state.name.as_str(), h, &handlers_seen, issues);
            handlers_seen.insert(h.name.clone());
        }
        i = i + 1;
    }
    assert(mv.take(state.members.len() as int) =~= mv);
}

/// All findings on the states of a contract.
pub fn check_contract(shared: bool, contract: &ContractDecl, issues: &mut Vec<VerifyIssue>)
    ensures
        views(final(issues)@) == spec_states_check(
            shared,
            contract@.name,
            contract@.states,
            views(old(issues)@),
        ).0,
{
    let ghost sv = views(contract.states@);
    let ghost i0 = views(issues@);
    let mut states_seen = NameSet::new();
    let mut i: usize = 0;
    assert(sv.take(0) =~= Seq::<SpecState>::empty());
    while i < contract.states.len()
        invariant
            i <= contract.states.len(),
            sv == views(contract.states@),
            (views(issues@), states_seen@) == spec_states_check(
                shared,
                contract.name@,
                sv.take(i as int),
                i0,
            ),
        decreases contract.states.len() - i,
    {
        assert(sv.take(i + 1).drop_last() =~= sv.take(i as int));
        let st = &contract.states[i];
        check_state(shared, contract.name.as_str(), st, &states_seen, issues);
        states_seen.insert(st.name.clone());
        i = i + 1;
    }
    assert(sv.take(contract.states.len() as int) =~= sv);
}

/// Checks a program; all findings, one per line, when there are any.
pub fn verify_program(program: &Program) -> (r: Result<(), CompileError>)
    ensures
        match spec_verify_program(program@) {
            Ok(_) => r is Ok,
            Err(e) => r is Err && r->Err_0@ == e,
        },
{
    let ghost iv = views(program.items@);
    let mut issues: Vec<VerifyIssue> = Vec::new();
    let mut i: usize = 0;
    assert(iv.take(0) =~= Seq::<SpecItem>::empty());
    assert(views(issues@) =~= Seq::<Seq<char>>::empty());
    while i < program.items.len()
        invariant
            i <= program.items.len(),
            iv == views(program.items@),
            views(issues@) == spec_items_check(iv.take(i as int), Seq::empty()),
        decreases program.items.len() - i,
    {
        assert(iv.take(i + 1).drop_last() =~= iv.take(i as int));
        match &program.items[i] {
            Item::Contract(c) => check_contract(false, c, &mut issues),
            Item::SharedContract(c) => check_contract(true, c, &mut issues),
        }
        i = i + 1;
    }
    assert(iv.take(program.items.len() as int) =~= iv);
    if issues.len() == 0 {
        return Ok(());
    }
    let ghost all = views(issues@);
    let mut joined = String::new();
    let mut k: usize = 0;
    assert(all.take(0) =~= Seq::<Seq<char>>::empty());
    assert(joined@ =~= join(all.take(0), "\n"@));
    while k < issues.len()
        invariant
            k <= issues.len(),
            all == views(issues@),
            joined@ == join(all.take(k as int), "\n"@),
        decreases issues.len() - k,
    {
        assert(all.take(k + 1).drop_last() =~= all.take(k as int));
        if k > 0 {
            joined.append("\n");
        }
        joined.append(issues[k].0.as_str());
        proof {
            if k == 0 {
                assert(all.take(1).len() == 1);
            }
        }
        assert(joined@ =~= join(all.take(k + 1), "\n"@));
        k = k + 1;
    }
    assert(all.take(issues.len() as int) =~= all);
    Err(CompileError::Verify(joined))
}


/// A source text that parses and passes the checker gives its program.
pub open spec fn spec_check_source(src: Seq<char>) -> Result<SpecProgram, SpecCompileError> {
    match spec_parse_source(src) {
        Ok(p) => match spec_verify_program(p) {
            Ok(_) => Ok(p),
            Err(e) => Err(e),
        },
        Err(e) => Err(e),
    }
}

/// Parses and checks a source text.
pub fn check_source(source: &str) -> (r: Result<Program, CompileError>)
    requires
        source@.len() < usize::MAX,
    ensures
        match spec_check_source(source@) {
            Ok(p) => r is Ok && r->Ok_0@ == p,
            Err(e) => r is Err && r->Err_0@ == e,
        },
{
    let program = parse_source(source)?;
    verify_program(&program)?;
    Ok(program)
}


/// A handler has linear input exactly when some parameter, at any position,
/// has a type whose name begins with `Linear`: adding a parameter of another
/// type in front or at the end changes nothing, and adding a linear one there
/// always gives linear input.
pub proof fn law_linear_input_at_any_position(params: Seq<SpecParam>, extra: SpecParam)
    ensures
        spec_has_linear_params(params) <==> exists|i: int|
            0 <= i < params.len() && "Linear"@.is_prefix_of(#[trigger] params[i].ty),
        !"Linear"@.is_prefix_of(extra.ty) ==> spec_has_linear_params(params.push(extra))
            == spec_has_linear_params(params) && spec_has_linear_params(seq![extra] + params)
            == spec_has_linear_params(params),
        "Linear"@.is_prefix_of(extra.ty) ==> spec_has_linear_params(params.push(extra))
            && spec_has_linear_params(seq![extra] + params),
{
    let a = params.push(extra);
    let b = seq![extra] + params;
    assert(a[params.len() as int] == extra);
    assert(b[0] == extra);
    if spec_has_linear_params(params) {
        let i = choose|i: int| 0 <= i < params.len() && spec_is_linear_type(#[trigger] params[i].ty);
        assert(a[i] == params[i]);
        assert(b[i + 1] == params[i]);
    }
    if spec_has_linear_params(a) && !"Linear"@.is_prefix_of(extra.ty) {
        let i = choose|i: int| 0 <= i < a.len() && spec_is_linear_type(#[trigger] a[i].ty);
        assert(i < params.len());
        assert(a[i] == params[i]);
    }
    if spec_has_linear_params(b) && !"Linear"@.is_prefix_of(extra.ty) {
        let i = choose|i: int| 0 <= i < b.len() && spec_is_linear_type(#[trigger] b[i].ty);
        assert(i > 0);
        assert(b[i] == params[i - 1]);
    }
}
} // verus!
