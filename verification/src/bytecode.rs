//! The bytecode compiler, the text of expressions, and the steps of the VM.
use vstd::prelude::*;
use vstd::string::*;

use crate::ast::{
    views, ContractDecl, Expr, HandlerDecl, Item, Program, StateDecl, SpecExpr, SpecHandler, SpecItem, SpecMember,
    SpecProgram, SpecState, SpecStmt, StateMember, Stmt,
};
use crate::names::join;
use crate::text::{decimal_text, push_decimal};

verus! {

/// The text of an expression: numbers in decimal, operators between spaces,
/// calls as `f(a, b)`; no parentheses are added.
pub open spec fn spec_expr_text(e: SpecExpr) -> Seq<char>
    decreases e,
{
    match e {
        SpecExpr::Number(n) => decimal_text(n as nat),
        SpecExpr::Path(p) => p,
        SpecExpr::Call { target, args } => target + "("@ + join(spec_args_texts(args), ", "@) + ")"@,
        SpecExpr::Add(l, r) => spec_expr_text(*l) + " + "@ + spec_expr_text(*r),
        SpecExpr::Sub(l, r) => spec_expr_text(*l) + " - "@ + spec_expr_text(*r),
        SpecExpr::Eq(l, r) => spec_expr_text(*l) + " == "@ + spec_expr_text(*r),
        SpecExpr::Gt(l, r) => spec_expr_text(*l) + " > "@ + spec_expr_text(*r),
        SpecExpr::Lt(l, r) => spec_expr_text(*l) + " < "@ + spec_expr_text(*r),
    }
}

/// The texts of call arguments.
pub open spec fn spec_args_texts(args: Seq<SpecExpr>) -> Seq<Seq<char>>
    decreases args,
{
    if args.len() == 0 {
        Seq::empty()
    } else {
        spec_args_texts(args.drop_last()).push(spec_expr_text(args.last()))
    }
}

/// Appends the text of `expr` to `out`.
pub fn append_expr_text(out: &mut String, expr: &Expr)
    ensures
        final(out)@ == old(out)@ + spec_expr_text(expr@),
    decreases expr,
{
    let ghost o = out@;
    match expr {
        Expr::Number(n) => push_decimal(out, *n),
        Expr::Path(p) => out.append(p.as_str()),
        Expr::Call { target, args } => {
            out.append(target.as_str());
            out.append("(");
            let ghost av = match expr@ {
                SpecExpr::Call { args, .. } => args,
                _ => Seq::empty(),
            };
            let ghost head = out@;
            assert(head == o + target@ + "("@);
            assert(expr@ == SpecExpr::Call { target: target@, args: av });
            assert(av.take(0) =~= Seq::<SpecExpr>::empty());
            assert(decreases_to!(*expr => *args));
            let mut i: usize = 0;
            while i < args.len()
                invariant
                    i <= args.len(),
                    decreases_to!(*expr => *args),
                    av.len() == args.len(),
                    forall|k: int| 0 <= k < args.len() ==> #[trigger] av[k] == args@[k]@,
                    out@ == head + join(spec_args_texts(av.take(i as int)), ", "@),
                decreases args.len() - i,
            {
                assert(av.take(i + 1).drop_last() =~= av.take(i as int));
                if i > 0 {
                    out.append(", ");
                }
                proof {
                    vstd::std_specs::vec::axiom_vec_index_decreases(*args, i as int);
                }
                append_expr_text(out, &args[i]);
                proof {
                    let t = spec_args_texts(av.take(i as int));
                    assert(av.take(i + 1).last() == av[i as int]);
                    assert(spec_args_texts(av.take(i + 1)) == t.push(spec_expr_text(av[i as int])));
                    assert(t.push(spec_expr_text(av[i as int])).drop_last() =~= t);
                    if i == 0 {
                        assert(spec_args_texts(av.take(1)).len() == 1);
                    }
                }
                assert(out@ =~= head + join(spec_args_texts(av.take(i + 1)), ", "@));
                i = i + 1;
            }
            assert(av.take(args.len() as int) =~= av);
            out.append(")");
            assert(out@ =~= o + spec_expr_text(expr@));
        },
        Expr::Add(l, r) => {
            append_expr_text(out, l);
            out.append(" + ");
            append_expr_text(out, r);
            assert(out@ =~= o + spec_expr_text(expr@));
        },
        Expr::Sub(l, r) => {
            append_expr_text(out, l);
            out.append(" - ");
            append_expr_text(out, r);
            assert(out@ =~= o + spec_expr_text(expr@));
        },
        Expr::Eq(l, r) => {
            append_expr_text(out, l);
            out.append(" == ");
            append_expr_text(out, r);
            assert(out@ =~= o + spec_expr_text(expr@));
        },
        Expr::Gt(l, r) => {
            append_expr_text(out, l);
            out.append(" > ");
            append_expr_text(out, r);
            assert(out@ =~= o + spec_expr_text(expr@));
        },
        Expr::Lt(l, r) => {
            append_expr_text(out, l);
            out.append(" < ");
            append_expr_text(out, r);
            assert(out@ =~= o + spec_expr_text(expr@));
        },
    }
}

impl Expr {
    /// The text of the expression, as [`spec_expr_text`] gives it.
    pub fn to_text(&self) -> (s: String)
        ensures
            s@ == spec_expr_text(self@),
    {
        let mut s = String::new();
        append_expr_text(&mut s, self);
        assert(s@ =~= spec_expr_text(self@));
        s
    }
}


/// An instruction of the bytecode.
#[derive(Debug, Clone)]
pub enum Instr {
    Eval(String),
    Call(String),
    Send(String),
    Drop(String),
    JumpIfFalse { cond: String, target: usize },
    Jump { target: usize },
    Transition(String),
    Nop,
}

/// The model of an instruction.
pub enum SpecInstr {
    Eval(Seq<char>),
    Call(Seq<char>),
    Send(Seq<char>),
    Drop(Seq<char>),
    JumpIfFalse { cond: Seq<char>, target: int },
    Jump { target: int },
    Transition(Seq<char>),
    Nop,
}

impl View for Instr {
    type V = SpecInstr;

    open spec fn view(&self) -> SpecInstr {
        match self {
            Instr::Eval(s) => SpecInstr::Eval(s@),
            Instr::Call(s) => SpecInstr::Call(s@),
            Instr::Send(s) => SpecInstr::Send(s@),
            Instr::Drop(s) => SpecInstr::Drop(s@),
            Instr::JumpIfFalse { cond, target } => SpecInstr::JumpIfFalse {
                cond: cond@,
                target: *target as int,
            },
            Instr::Jump { target } => SpecInstr::Jump { target: *target as int },
            Instr::Transition(s) => SpecInstr::Transition(s@),
            Instr::Nop => SpecInstr::Nop,
        }
    }
}

/// The code of a statement placed at index `base`: an `if` jumps over its
/// `then` code when the condition is false, and the `then` code jumps over
/// the `else` code; a `violation` block is its body's code.
pub open spec fn spec_compile_stmt(st: SpecStmt, base: int) -> Seq<SpecInstr>
    decreases st,
{
    match st {
        SpecStmt::If { cond, then_branch, else_branch } => {
            let t = spec_compile_block(then_branch, base + 1);
            match else_branch {
                None => seq![
                    SpecInstr::JumpIfFalse {
                        cond: spec_expr_text(cond),
                        target: base + 1 + t.len(),
                    },
                ] + t,
                Some(eb) => {
                    let e = spec_compile_block(eb, base + 2 + t.len());
                    seq![
                        SpecInstr::JumpIfFalse {
                            cond: spec_expr_text(cond),
                            target: base + 2 + t.len(),
                        },
                    ] + t + seq![SpecInstr::Jump { target: base + 2 + t.len() + e.len() }] + e
                },
            }
        },
        SpecStmt::Call(e) => seq![SpecInstr::Call(spec_expr_text(e))],
        SpecStmt::Let { name, expr } => seq![
            SpecInstr::Eval("let "@ + name + " = "@ + spec_expr_text(expr)),
        ],
        SpecStmt::Send(e) => seq![SpecInstr::Send(spec_expr_text(e))],
        SpecStmt::Transition(t) => seq![SpecInstr::Transition(t)],
        SpecStmt::Violation(body) => spec_compile_block(body, base),
        SpecStmt::Drop(e) => seq![SpecInstr::Drop(spec_expr_text(e))],
        SpecStmt::Expr(e) => seq![SpecInstr::Eval(spec_expr_text(e))],
    }
}

/// The code of a block placed at index `base`: the code of its statements in order.
pub open spec fn spec_compile_block(stmts: Seq<SpecStmt>, base: int) -> Seq<SpecInstr>
    decreases stmts,
{
    if stmts.len() == 0 {
        Seq::empty()
    } else {
        let a = spec_compile_block(stmts.drop_last(), base);
        a + spec_compile_stmt(stmts.last(), base + a.len())
    }
}

pub fn compile_stmt(stmt: &Stmt, out: &mut Vec<Instr>)
    ensures
        views(final(out)@) == views(old(out)@) + spec_compile_stmt(stmt@, old(out)@.len() as int),
        final(out)@.len() >= old(out)@.len(),
    decreases *stmt,
{
    let ghost o = views(out@);
    match stmt {
        Stmt::If { cond, then_branch, else_branch } => {
            proof {
                vstd::std_specs::vec::axiom_vec_decreases_to_view(*then_branch);
                assert(views(then_branch@) =~= match stmt@ {
                    SpecStmt::If { then_branch, .. } => then_branch,
                    _ => Seq::empty(),
                });
            }
            let jump_if_false_idx = out.len();
            let cond_text = cond.to_text();
            push_instr(out, Instr::JumpIfFalse { cond: cond_text.clone(), target: usize::MAX });
            compile_block(then_branch.as_slice(), out);
            assert(views(out@).len() == out@.len());
            match else_branch {
                Some(else_b) => {
                    proof {
                        vstd::std_specs::vec::axiom_vec_decreases_to_view(*else_b);
                        assert(views(else_b@) =~= match stmt@ {
                            SpecStmt::If { else_branch: Some(b), .. } => b,
                            _ => Seq::empty(),
                        });
                    }
                    let jump_idx = out.len();
                    push_instr(out, Instr::Jump { target: usize::MAX });
                    let else_start = out.len();
                    set_instr(out, jump_if_false_idx, Instr::JumpIfFalse { cond: cond_text, target: else_start });
                    compile_block(else_b.as_slice(), out);
                    let end = out.len();
                    set_instr(out, jump_idx, Instr::Jump { target: end });
                },
                None => {
                    let end = out.len();
                    set_instr(out, jump_if_false_idx, Instr::JumpIfFalse { cond: cond_text, target: end });
                },
            }
            assert(views(out@) =~= o + spec_compile_stmt(stmt@, o.len() as int));
        },
        Stmt::Call(expr) => push_instr(out, Instr::Call(expr.to_text())),
        Stmt::Let { name, expr } => {
            let mut text = String::from_str("let ");
            text.append(name.as_str());
            text.append(" = ");
            append_expr_text(&mut text, expr);
            push_instr(out, Instr::Eval(text));
        },
        Stmt::Send(expr) => push_instr(out, Instr::Send(expr.to_text())),
        Stmt::Transition(target) => push_instr(out, Instr::Transition(target.clone())),
        Stmt::Violation(body) => {
            proof {
                vstd::std_specs::vec::axiom_vec_decreases_to_view(*body);
                assert(views(body@) =~= match stmt@ {
                    SpecStmt::Violation(b) => b,
                    _ => Seq::empty(),
                });
            }
            compile_block(body.as_slice(), out);
        },
        Stmt::Drop(expr) => push_instr(out, Instr::Drop(expr.to_text())),
        Stmt::Expr(expr) => push_instr(out, Instr::Eval(expr.to_text())),
    }
}

fn push_instr(out: &mut Vec<Instr>, i: Instr)
    ensures
        views(final(out)@) == views(old(out)@).push(i@),
        final(out)@.len() == old(out)@.len() + 1,
{
    let ghost o = views(out@);
    let ghost v = i@;
    out.push(i);
    assert(views(out@) =~= o.push(v));
}

fn set_instr(out: &mut Vec<Instr>, k: usize, i: Instr)
    requires
        k < old(out).len(),
    ensures
        views(final(out)@) == views(old(out)@).update(k as int, i@),
        final(out)@.len() == old(out)@.len(),
{
    let ghost o = views(out@);
    let ghost v = i@;
    out.set(k, i);
    assert(views(out@) =~= o.update(k as int, v));
}

pub fn compile_block(stmts: &[Stmt], out: &mut Vec<Instr>)
    ensures
        views(final(out)@) == views(old(out)@) + spec_compile_block(views(stmts@), old(out)@.len() as int),
        final(out)@.len() >= old(out)@.len(),
    decreases stmts@,
{
    let ghost sv = views(stmts@);
    let ghost o = views(out@);
    let mut i: usize = 0;
    assert(sv.take(0) =~= Seq::<SpecStmt>::empty());
    assert(views(out@) =~= o + spec_compile_block(sv.take(0), o.len() as int));
    while i < stmts.len()
        invariant
            i <= stmts.len(),
            sv == views(stmts@),
            views(out@) == o + spec_compile_block(sv.take(i as int), o.len() as int),
            o == views(old(out)@),
            out@.len() >= old(out)@.len(),
        decreases stmts.len() - i,
    {
        assert(sv.take(i + 1).drop_last() =~= sv.take(i as int));
        assert(decreases_to!(stmts@ => stmts@[i as int]));
        compile_stmt(&stmts[i], out);
        assert(views(out@) =~= o + spec_compile_block(sv.take(i + 1), o.len() as int));
        i = i + 1;
    }
    assert(sv.take(stmts.len() as int) =~= sv);
}


pub open spec fn spec_first_handler_members(ms: Seq<SpecMember>) -> Option<SpecHandler>
    decreases ms.len(),
{
    if ms.len() == 0 {
        None
    } else {
        match ms[0] {
            SpecMember::Handler(h) => Some(h),
            _ => spec_first_handler_members(ms.drop_first()),
        }
    }
}

pub open spec fn spec_first_handler_states(states: Seq<SpecState>) -> Option<SpecHandler>
    decreases states.len(),
{
    if states.len() == 0 {
        None
    } else {
        match spec_first_handler_members(states[0].members) {
            Some(h) => Some(h),
            None => spec_first_handler_states(states.drop_first()),
        }
    }
}

pub open spec fn spec_first_handler_items(items: Seq<SpecItem>) -> Option<SpecHandler>
    decreases items.len(),
{
    if items.len() == 0 {
        None
    } else {
        match items[0] {
            SpecItem::SharedContract(_) => spec_first_handler_items(items.drop_first()),
            SpecItem::Contract(c) => match spec_first_handler_states(c.states) {
                Some(h) => Some(h),
                None => spec_first_handler_items(items.drop_first()),
            },
        }
    }
}

/// The first handler of the first `contract` (not `shared_contract`) that has one.
pub open spec fn spec_first_handler(p: SpecProgram) -> Option<SpecHandler> {
    spec_first_handler_items(p.items)
}

fn first_handler_in_state(state: &StateDecl) -> (r: Option<&HandlerDecl>)
    ensures
        match spec_first_handler_members(state@.members) {
            Some(h) => r is Some && r->0@ == h,
            None => r is None,
        },
{
    let ghost mv = views(state.members@);
    let mut k: usize = 0;
    assert(mv.skip(0) =~= mv);
    while k < state.members.len()
        invariant
            k <= state.members.len(),
            mv == views(state.members@),
            spec_first_handler_members(mv) == spec_first_handler_members(mv.skip(k as int)),
        decreases state.members.len() - k,
    {
        assert(mv.skip(k as int)[0] == mv[k as int]);
        assert(mv.skip(k as int).drop_first() =~= mv.skip(k + 1));
        if let StateMember::Handler(h) = &state.members[k] {
            return Some(h);
        }
        k = k + 1;
    }
    None
}

fn first_handler_in_contract(contract: &ContractDecl) -> (r: Option<&HandlerDecl>)
    ensures
        match spec_first_handler_states(contract@.states) {
            Some(h) => r is Some && r->0@ == h,
            None => r is None,
        },
{
    let ghost sv = views(contract.states@);
    let mut j: usize = 0;
    assert(sv.skip(0) =~= sv);
    while j < contract.states.len()
        invariant
            j <= contract.states.len(),
            sv == views(contract.states@),
            spec_first_handler_states(sv) == spec_first_handler_states(sv.skip(j as int)),
        decreases contract.states.len() - j,
    {
        assert(sv.skip(j as int)[0] == sv[j as int]);
        assert(sv.skip(j as int).drop_first() =~= sv.skip(j + 1));
        if let Some(h) = first_handler_in_state(&contract.states[j]) {
            return Some(h);
        }
        j = j + 1;
    }
    None
}

pub fn first_handler(program: &Program) -> (r: Option<&HandlerDecl>)
    ensures
        match spec_first_handler(program@) {
            Some(h) => r is Some && r->0@ == h,
            None => r is None,
        },
{
    let ghost iv = views(program.items@);
    let mut i: usize = 0;
    assert(iv.skip(0) =~= iv);
    while i < program.items.len()
        invariant
            i <= program.items.len(),
            iv == views(program.items@),
            spec_first_handler_items(iv) == spec_first_handler_items(iv.skip(i as int)),
        decreases program.items.len() - i,
    {
        assert(iv.skip(i as int)[0] == iv[i as int]);
        assert(iv.skip(i as int).drop_first() =~= iv.skip(i + 1));
        if let Item::Contract(c) = &program.items[i] {
            if let Some(h) = first_handler_in_contract(c) {
                return Some(h);
            }
        }
        i = i + 1;
    }
    None
}

/// The code of a program: that of the first contract handler, or one `Nop`.
pub open spec fn spec_compile_program(p: SpecProgram) -> Seq<SpecInstr> {
    match spec_first_handler(p) {
        Some(h) => spec_compile_block(h.body, 0),
        None => seq![SpecInstr::Nop],
    }
}

pub fn compile_program(program: &Program) -> (r: Vec<Instr>)
    ensures
        views(r@) == spec_compile_program(program@),
{
    let mut out: Vec<Instr> = Vec::new();
    assert(views(out@) =~= Seq::<SpecInstr>::empty());
    if let Some(handler) = first_handler(program) {
        compile_block(handler.body.as_slice(), &mut out);
        assert(views(out@) =~= spec_compile_program(program@));
    } else {
        push_instr(&mut out, Instr::Nop);
        assert(views(out@) =~= spec_compile_program(program@));
    }
    out
}

/// Whether `w` occurs in `s`.
pub open spec fn contains_word(s: Seq<char>, w: Seq<char>) -> bool {
    exists|i: int| 0 <= i && i + w.len() <= s.len() && #[trigger] s.subrange(i, i + w.len()) == w
}

/// Whether the characters of `w` occur in `s`.
fn contains_chars(s: &Vec<char>, w: &Vec<char>) -> (b: bool)
    ensures
        b == contains_word(s@, w@),
{
    if w.len() > s.len() {
        return false;
    }
    let last = s.len() - w.len();
    let mut i: usize = 0;
    while i <= last
        invariant
            last == s.len() - w.len(),
            w.len() <= s.len(),
            forall|k: int| 0 <= k < i ==> #[trigger] s@.subrange(k, k + w@.len()) != w@,
        decreases last + 1 - i,
    {
        let mut j: usize = 0;
        let mut ok = true;
        while ok && j < w.len()
            invariant
                i <= last,
                last == s.len() - w.len(),
                j <= w.len(),
                forall|m: int| 0 <= m < j ==> s@[i + m] == w@[m],
                !ok ==> j < w.len() && s@[i + j] != w@[j as int],
            decreases w.len() - j, if ok { 1int } else { 0int },
        {
            if s[i + j] != w[j] {
                ok = false;
            } else {
                j = j + 1;
            }
        }
        if ok {
            assert(s@.subrange(i as int, i + w@.len()) =~= w@);
            return true;
        }
        assert(s@.subrange(i as int, i + w@.len())[j as int] != w@[j as int]);
        i = i + 1;
    }
    proof {
        if contains_word(s@, w@) {
            let k = choose|k: int| 0 <= k && k + w@.len() <= s@.len() && #[trigger] s@.subrange(k, k + w@.len()) == w@;
            assert(k < i);
        }
    }
    false
}

/// A condition of the bytecode counts as true unless its text mentions `false`.
pub open spec fn spec_eval_condition(cond: Seq<char>) -> bool {
    !contains_word(cond, "false"@)
}

pub fn eval_condition(cond: &str) -> (b: bool)
    ensures
        b == spec_eval_condition(cond@),
{
    let s = crate::text::chars_of(cond);
    let w = crate::text::chars_of("false");
    !contains_chars(&s, &w)
}

/// One step of the VM: the next instruction index and the line it prints, if any.
pub struct VmStep {
    pub next: usize,
    pub output: Option<String>,
}

/// The step of the VM at instruction `ip`.
pub open spec fn spec_vm_step(code: Seq<SpecInstr>, ip: int) -> (int, Option<Seq<char>>) {
    match code[ip] {
        SpecInstr::Eval(e) => (ip + 1, Some("[vm] eval "@ + e)),
        SpecInstr::Call(t) => (ip + 1, Some("[vm] call "@ + t)),
        SpecInstr::Send(e) => (ip + 1, Some("[vm] send "@ + e)),
        SpecInstr::Drop(e) => (ip + 1, Some("[vm] drop "@ + e)),
        SpecInstr::JumpIfFalse { cond, target } => (
            if spec_eval_condition(cond) {
                ip + 1
            } else {
                target
            },
            None,
        ),
        SpecInstr::Jump { target } => (target, None),
        SpecInstr::Transition(s) => (ip + 1, Some("[vm] transition -> "@ + s)),
        SpecInstr::Nop => (ip + 1, None),
    }
}

/// A line of output: `prefix` followed by `text`.
fn line(prefix: &str, text: &String) -> (s: String)
    ensures
        s@ == prefix@ + text@,
{
    let mut s = String::from_str(prefix);
    s.append(text.as_str());
    s
}

pub fn vm_step(code: &[Instr], ip: usize) -> (st: VmStep)
    requires
        ip < code@.len(),
    ensures
        st.next as int == spec_vm_step(views(code@), ip as int).0,
        match spec_vm_step(views(code@), ip as int).1 {
            Some(l) => st.output is Some && st.output->0@ == l,
            None => st.output is None,
        },
{
    match &code[ip] {
        Instr::Eval(expr) => VmStep { next: ip + 1, output: Some(line("[vm] eval ", expr)) },
        Instr::Call(target) => VmStep { next: ip + 1, output: Some(line("[vm] call ", target)) },
        Instr::Send(expr) => VmStep { next: ip + 1, output: Some(line("[vm] send ", expr)) },
        Instr::Drop(expr) => VmStep { next: ip + 1, output: Some(line("[vm] drop ", expr)) },
        Instr::JumpIfFalse { cond, target } => {
            let next = if eval_condition(cond.as_str()) {
                ip + 1
            } else {
                *target
            };
            VmStep { next, output: None }
        },
        Instr::Jump { target } => VmStep { next: *target, output: None },
        Instr::Transition(state) => VmStep {
            next: ip + 1,
            output: Some(line("[vm] transition -> ", state)),
        },
        Instr::Nop => VmStep { next: ip + 1, output: None },
    }
}

/// A jump at index `pos` of code that ends at `end` goes forward, and at most to `end`.
pub open spec fn jump_forward(ins: SpecInstr, pos: int, end: int) -> bool {
    match ins {
        SpecInstr::JumpIfFalse { target, .. } => pos < target <= end,
        SpecInstr::Jump { target } => pos < target <= end,
        _ => true,
    }
}

/// Every jump of `code`, placed at index `base`, goes forward and stays within it.
pub open spec fn jumps_forward(code: Seq<SpecInstr>, base: int) -> bool {
    forall|i: int|
        0 <= i < code.len() ==> jump_forward(#[trigger] code[i], base + i, base + code.len())
}

proof fn lemma_jumps_extend(a: Seq<SpecInstr>, b: Seq<SpecInstr>, base: int)
    requires
        jumps_forward(a, base),
        jumps_forward(b, base + a.len()),
    ensures
        jumps_forward(a + b, base),
{
    let c = a + b;
    assert forall|i: int| 0 <= i < c.len() implies jump_forward(#[trigger] c[i], base + i, base + c.len()) by {
        if i < a.len() {
            assert(c[i] == a[i]);
            assert(jump_forward(a[i], base + i, base + a.len()));
        } else {
            assert(c[i] == b[i - a.len()]);
            assert(jump_forward(b[i - a.len()], base + a.len() + (i - a.len()), base + a.len() + b.len()));
        }
    }
}

proof fn lemma_stmt_jumps(st: SpecStmt, base: int)
    ensures
        jumps_forward(spec_compile_stmt(st, base), base),
    decreases st,
{
    match st {
        SpecStmt::If { cond, then_branch, else_branch } => {
            let t = spec_compile_block(then_branch, base + 1);
            lemma_block_jumps(then_branch, base + 1);
            match else_branch {
                None => {
                    let j = seq![SpecInstr::JumpIfFalse { cond: spec_expr_text(cond), target: base + 1 + t.len() }];
                    let whole = j + t;
                    assert forall|i: int| 0 <= i < whole.len() implies jump_forward(
                        #[trigger] whole[i],
                        base + i,
                        base + whole.len(),
                    ) by {
                        if i >= 1 {
                            assert(whole[i] == t[i - 1]);
                            assert(jump_forward(t[i - 1], base + 1 + (i - 1), base + 1 + t.len()));
                        }
                    }
                },
                Some(eb) => {
                    let e = spec_compile_block(eb, base + 2 + t.len());
                    lemma_block_jumps(eb, base + 2 + t.len());
                    let j = seq![
                        SpecInstr::JumpIfFalse {
                            cond: spec_expr_text(cond),
                            target: base + 2 + t.len(),
                        },
                    ];
                    let k = seq![SpecInstr::Jump { target: base + 2 + t.len() + e.len() }];
                    let whole = j + t + k + e;
                    assert forall|i: int| 0 <= i < whole.len() implies jump_forward(
                        #[trigger] whole[i],
                        base + i,
                        base + whole.len(),
                    ) by {
                        if 1 <= i < 1 + t.len() {
                            assert(whole[i] == t[i - 1]);
                            assert(jump_forward(t[i - 1], base + 1 + (i - 1), base + 1 + t.len()));
                        } else if i >= 2 + t.len() {
                            assert(whole[i] == e[i - 2 - t.len()]);
                            assert(jump_forward(
                                e[i - 2 - t.len()],
                                base + 2 + t.len() + (i - 2 - t.len()),
                                base + 2 + t.len() + e.len(),
                            ));
                        }
                    }
                },
            }
        },
        SpecStmt::Violation(body) => lemma_block_jumps(body, base),
        _ => {},
    }
}

proof fn lemma_block_jumps(stmts: Seq<SpecStmt>, base: int)
    ensures
        jumps_forward(spec_compile_block(stmts, base), base),
    decreases stmts,
{
    if stmts.len() > 0 {
        let a = spec_compile_block(stmts.drop_last(), base);
        lemma_block_jumps(stmts.drop_last(), base);
        assert(decreases_to!(stmts => stmts[stmts.len() - 1]));
        lemma_stmt_jumps(stmts.last(), base + a.len());
        lemma_jumps_extend(a, spec_compile_stmt(stmts.last(), base + a.len()), base);
    }
}

/// Whether the VM, started at `ip`, leaves the code within `n` steps.
pub open spec fn vm_halts_within(code: Seq<SpecInstr>, ip: int, n: nat) -> bool
    decreases n,
{
    ip < 0 || ip >= code.len() || (n > 0 && vm_halts_within(code, spec_vm_step(code, ip).0, (n - 1) as nat))
}

proof fn lemma_forward_halts(code: Seq<SpecInstr>, ip: int)
    requires
        jumps_forward(code, 0),
        0 <= ip <= code.len(),
    ensures
        vm_halts_within(code, ip, (code.len() - ip) as nat),
    decreases code.len() - ip,
{
    if ip < code.len() {
        let next = spec_vm_step(code, ip).0;
        assert(jump_forward(code[ip], ip, code.len() as int));
        assert(ip < next <= code.len());
        lemma_forward_halts(code, next);
        lemma_halts_more(code, next, (code.len() - next) as nat, (code.len() - ip - 1) as nat);
    }
}

proof fn lemma_halts_more(code: Seq<SpecInstr>, ip: int, n: nat, m: nat)
    requires
        vm_halts_within(code, ip, n),
        n <= m,
    ensures
        vm_halts_within(code, ip, m),
    decreases n,
{
    if 0 <= ip < code.len() {
        lemma_halts_more(code, spec_vm_step(code, ip).0, (n - 1) as nat, (m - 1) as nat);
    }
}

/// The code of a program only jumps forward, to an instruction of it or to its
/// end; so each step of the VM moves forward, and a run from the first
/// instruction ends after at most as many steps as there are instructions.
pub proof fn law_compiled_code_runs_forward(p: SpecProgram)
    ensures
        jumps_forward(spec_compile_program(p), 0),
        forall|ip: int|
            0 <= ip < spec_compile_program(p).len() ==> ip < (#[trigger] spec_vm_step(
                spec_compile_program(p),
                ip,
            )).0 <= spec_compile_program(p).len(),
        vm_halts_within(spec_compile_program(p), 0, spec_compile_program(p).len()),
{
    let code = spec_compile_program(p);
    match spec_first_handler(p) {
        Some(h) => lemma_block_jumps(h.body, 0),
        None => {},
    }
    assert forall|ip: int| 0 <= ip < code.len() implies ip < (#[trigger] spec_vm_step(code, ip)).0
        <= code.len() by {
        assert(jump_forward(code[ip], ip, code.len() as int));
    }
    lemma_forward_halts(code, 0);
}

/// The lines that the VM prints for a statement, walking the source: an `if`
/// goes into the branch that its condition text selects, a `violation` block
/// is run in place.
pub open spec fn stmt_trace(st: SpecStmt) -> Seq<Seq<char>>
    decreases st,
{
    match st {
        SpecStmt::If { cond, then_branch, else_branch } => if spec_eval_condition(
            spec_expr_text(cond),
        ) {
            block_trace(then_branch)
        } else {
            match else_branch {
                Some(eb) => block_trace(eb),
                None => Seq::empty(),
            }
        },
        SpecStmt::Call(e) => seq!["[vm] call "@ + spec_expr_text(e)],
        SpecStmt::Let { name, expr } => seq!["[vm] eval "@ + ("let "@ + name + " = "@ + spec_expr_text(expr))],
        SpecStmt::Send(e) => seq!["[vm] send "@ + spec_expr_text(e)],
        SpecStmt::Transition(t) => seq!["[vm] transition -> "@ + t],
        SpecStmt::Violation(body) => block_trace(body),
        SpecStmt::Drop(e) => seq!["[vm] drop "@ + spec_expr_text(e)],
        SpecStmt::Expr(e) => seq!["[vm] eval "@ + spec_expr_text(e)],
    }
}

pub open spec fn block_trace(stmts: Seq<SpecStmt>) -> Seq<Seq<char>>
    decreases stmts,
{
    if stmts.len() == 0 {
        Seq::empty()
    } else {
        block_trace(stmts.drop_last()) + stmt_trace(stmts.last())
    }
}

/// The number of VM steps that the code of a statement takes.
pub open spec fn stmt_steps(st: SpecStmt) -> nat
    decreases st,
{
    match st {
        SpecStmt::If { cond, then_branch, else_branch } => if spec_eval_condition(
            spec_expr_text(cond),
        ) {
            1 + block_steps(then_branch) + if else_branch is Some {
                1nat
            } else {
                0nat
            }
        } else {
            match else_branch {
                Some(eb) => 1 + block_steps(eb),
                None => 1,
            }
        },
        SpecStmt::Violation(body) => block_steps(body),
        _ => 1,
    }
}

pub open spec fn block_steps(stmts: Seq<SpecStmt>) -> nat
    decreases stmts,
{
    if stmts.len() == 0 {
        0
    } else {
        block_steps(stmts.drop_last()) + stmt_steps(stmts.last())
    }
}

/// The lines the VM prints in at most `n` steps from `ip`.
pub open spec fn vm_trace(code: Seq<SpecInstr>, ip: int, n: nat) -> Seq<Seq<char>>
    decreases n,
{
    if n == 0 || ip < 0 || ip >= code.len() {
        Seq::empty()
    } else {
        let (next, out) = spec_vm_step(code, ip);
        let rest = vm_trace(code, next, (n - 1) as nat);
        match out {
            Some(l) => seq![l] + rest,
            None => rest,
        }
    }
}

/// `b` stands in `code` from index `base` on.
pub open spec fn code_at(code: Seq<SpecInstr>, base: int, b: Seq<SpecInstr>) -> bool {
    &&& 0 <= base
    &&& base + b.len() <= code.len()
    &&& forall|k: int| 0 <= k < b.len() ==> code[base + k] == #[trigger] b[k]
}

proof fn lemma_steps_within(st: SpecStmt, base: int)
    ensures
        stmt_steps(st) <= spec_compile_stmt(st, base).len(),
    decreases st,
{
    match st {
        SpecStmt::If { then_branch, else_branch, .. } => {
            lemma_block_steps_within(then_branch, base + 1);
            if let Some(eb) = else_branch {
                let t = spec_compile_block(then_branch, base + 1);
                lemma_block_steps_within(eb, base + 2 + t.len());
            }
        },
        SpecStmt::Violation(body) => lemma_block_steps_within(body, base),
        _ => {},
    }
}

proof fn lemma_block_steps_within(stmts: Seq<SpecStmt>, base: int)
    ensures
        block_steps(stmts) <= spec_compile_block(stmts, base).len(),
    decreases stmts,
{
    if stmts.len() > 0 {
        let a = spec_compile_block(stmts.drop_last(), base);
        lemma_block_steps_within(stmts.drop_last(), base);
        assert(decreases_to!(stmts => stmts[stmts.len() - 1]));
        lemma_steps_within(stmts.last(), base + a.len());
    }
}

proof fn lemma_code_split(code: Seq<SpecInstr>, base: int, a: Seq<SpecInstr>, b: Seq<SpecInstr>)
    requires
        code_at(code, base, a + b),
    ensures
        code_at(code, base, a),
        code_at(code, base + a.len(), b),
{
    assert forall|k: int| 0 <= k < a.len() implies code[base + k] == #[trigger] a[k] by {
        assert((a + b)[k] == a[k]);
    }
    assert forall|k: int| 0 <= k < b.len() implies code[base + a.len() + k] == #[trigger] b[k] by {
        assert((a + b)[a.len() + k] == b[k]);
    }
}

proof fn lemma_one_step(code: Seq<SpecInstr>, ip: int, n: nat)
    requires
        0 <= ip < code.len(),
        n > 0,
    ensures
        vm_trace(code, ip, n) == (match spec_vm_step(code, ip).1 {
            Some(l) => seq![l],
            None => Seq::empty(),
        }) + vm_trace(code, spec_vm_step(code, ip).0, (n - 1) as nat),
{
    let rest = vm_trace(code, spec_vm_step(code, ip).0, (n - 1) as nat);
    assert(Seq::<Seq<char>>::empty() + rest =~= rest);
}

proof fn lemma_stmt_runs(code: Seq<SpecInstr>, st: SpecStmt, base: int, n: nat)
    requires
        code_at(code, base, spec_compile_stmt(st, base)),
        n >= stmt_steps(st),
    ensures
        vm_trace(code, base, n) == stmt_trace(st) + vm_trace(
            code,
            base + spec_compile_stmt(st, base).len(),
            (n - stmt_steps(st)) as nat,
        ),
    decreases st,
{
    let c = spec_compile_stmt(st, base);
    match st {
        SpecStmt::If { cond, then_branch, else_branch } => {
            let t = spec_compile_block(then_branch, base + 1);
            let ct = spec_expr_text(cond);
            let holds = spec_eval_condition(ct);
            match else_branch {
                None => {
                    let j = seq![SpecInstr::JumpIfFalse { cond: ct, target: base + 1 + t.len() }];
                    assert(c == j + t);
                    lemma_code_split(code, base, j, t);
                    assert(code[base] == j[0]);
                    lemma_one_step(code, base, n);
                    if holds {
                        lemma_block_runs(code, then_branch, base + 1, (n - 1) as nat);
                        assert(Seq::<Seq<char>>::empty() + block_trace(then_branch) =~= block_trace(then_branch));
                    } else {
                        assert(Seq::<Seq<char>>::empty() + vm_trace(code, base + 1 + t.len(), (n - 1) as nat)
                            =~= vm_trace(code, base + 1 + t.len(), (n - 1) as nat));
                    }
                },
                Some(eb) => {
                    let e = spec_compile_block(eb, base + 2 + t.len());
                    let j = seq![SpecInstr::JumpIfFalse { cond: ct, target: base + 2 + t.len() }];
                    let k = seq![SpecInstr::Jump { target: base + 2 + t.len() + e.len() }];
                    assert(c == j + t + k + e);
                    lemma_code_split(code, base, j + t + k, e);
                    lemma_code_split(code, base, j + t, k);
                    lemma_code_split(code, base, j, t);
                    assert(code[base] == j[0]);
                    lemma_one_step(code, base, n);
                    if holds {
                        lemma_block_runs(code, then_branch, base + 1, (n - 1) as nat);
                        let m = (n - 1 - block_steps(then_branch)) as nat;
                        assert(code[base + 1 + t.len()] == k[0]);
                        lemma_one_step(code, base + 1 + t.len(), m);
                        assert(Seq::<Seq<char>>::empty() + vm_trace(code, base + c.len(), (m - 1) as nat)
                            =~= vm_trace(code, base + c.len(), (m - 1) as nat));
                        assert(Seq::<Seq<char>>::empty() + (block_trace(then_branch) + vm_trace(
                            code,
                            base + c.len(),
                            (m - 1) as nat,
                        )) =~= block_trace(then_branch) + vm_trace(code, base + c.len(), (m - 1) as nat));
                    } else {
                        lemma_block_runs(code, eb, base + 2 + t.len(), (n - 1) as nat);
                        assert(Seq::<Seq<char>>::empty() + (block_trace(eb) + vm_trace(
                            code,
                            base + c.len(),
                            (n - 1 - block_steps(eb)) as nat,
                        )) =~= block_trace(eb) + vm_trace(
                            code,
                            base + c.len(),
                            (n - 1 - block_steps(eb)) as nat,
                        ));
                    }
                },
            }
        },
        SpecStmt::Violation(body) => lemma_block_runs(code, body, base, n),
        _ => {
            assert(code[base] == c[0]);
            lemma_one_step(code, base, n);
        },
    }
}

proof fn lemma_block_runs(code: Seq<SpecInstr>, stmts: Seq<SpecStmt>, base: int, n: nat)
    requires
        code_at(code, base, spec_compile_block(stmts, base)),
        n >= block_steps(stmts),
    ensures
        vm_trace(code, base, n) == block_trace(stmts) + vm_trace(
            code,
            base + spec_compile_block(stmts, base).len(),
            (n - block_steps(stmts)) as nat,
        ),
    decreases stmts,
{
    if stmts.len() == 0 {
        assert(Seq::<Seq<char>>::empty() + vm_trace(code, base, n) =~= vm_trace(code, base, n));
    } else {
        let pre = stmts.drop_last();
        let a = spec_compile_block(pre, base);
        let s = spec_compile_stmt(stmts.last(), base + a.len());
        lemma_code_split(code, base, a, s);
        lemma_block_runs(code, pre, base, n);
        assert(decreases_to!(stmts => stmts[stmts.len() - 1]));
        let m = (n - block_steps(pre)) as nat;
        lemma_stmt_runs(code, stmts.last(), base + a.len(), m);
        let rest = vm_trace(code, base + a.len() + s.len(), (m - stmt_steps(stmts.last())) as nat);
        assert(block_trace(pre) + (stmt_trace(stmts.last()) + rest) =~= block_trace(stmts) + rest);
    }
}

/// Running the VM on the code of a program prints, line by line, what a walk
/// of the first contract handler prints: each statement in order, the branch
/// of each `if` that its condition selects, `violation` blocks in place. The
/// run is complete within as many steps as there are instructions.
pub proof fn law_vm_runs_the_handler(p: SpecProgram)
    ensures
        vm_trace(spec_compile_program(p), 0, spec_compile_program(p).len()) == match spec_first_handler(p) {
            Some(h) => block_trace(h.body),
            None => Seq::<Seq<char>>::empty(),
        },
{
    let code = spec_compile_program(p);
    match spec_first_handler(p) {
        Some(h) => {
            assert forall|k: int| 0 <= k < code.len() implies code[0 + k] == #[trigger] code[k] by {}
            lemma_block_steps_within(h.body, 0);
            lemma_block_runs(code, h.body, 0, code.len());
            assert(block_trace(h.body) + Seq::<Seq<char>>::empty() =~= block_trace(h.body));
        },
        None => {
            assert(vm_trace(code, 1, 0) == Seq::<Seq<char>>::empty());
        },
    }
}

/// Compiling a concatenation of blocks is compiling the first, then the
/// second placed right after it; an empty block compiles to no code. Together
/// with the contract of `compile_block`, which only appends to its output,
/// compiling `a` and then `b` into one output gives the code of `a + b`.
pub proof fn law_compile_concat(a: Seq<SpecStmt>, b: Seq<SpecStmt>, base: int)
    ensures
        spec_compile_block(Seq::empty(), base) == Seq::<SpecInstr>::empty(),
        spec_compile_block(a + b, base) == spec_compile_block(a, base) + spec_compile_block(
            b,
            base + spec_compile_block(a, base).len(),
        ),
    decreases b.len(),
{
    let ca = spec_compile_block(a, base);
    if b.len() == 0 {
        assert(a + b =~= a);
        assert(ca + Seq::<SpecInstr>::empty() =~= ca);
    } else {
        assert((a + b).drop_last() =~= a + b.drop_last());
        assert((a + b).last() == b.last());
        law_compile_concat(a, b.drop_last(), base);
        let cb = spec_compile_block(b.drop_last(), base + ca.len());
        let s = spec_compile_stmt(b.last(), base + ca.len() + cb.len());
        assert(ca + cb + s =~= ca + (cb + s));
    }
}


/// The first handler of a list of members is the handler member with the
/// least index, whatever members stand before it; there is none exactly when
/// no member is a handler.
pub proof fn law_first_handler_of_members(ms: Seq<SpecMember>, i: int)
    ensures
        0 <= i < ms.len() && ms[i] is Handler && (forall|j: int| 0 <= j < i ==> !(#[trigger] ms[j] is Handler))
            ==> spec_first_handler_members(ms) == Some(ms[i]->Handler_0),
        spec_first_handler_members(ms) is None <==> forall|j: int|
            0 <= j < ms.len() ==> !(#[trigger] ms[j] is Handler),
    decreases ms.len(),
{
    if ms.len() > 0 {
        let rest = ms.drop_first();
        law_first_handler_of_members(rest, i - 1);
        assert forall|j: int| 0 <= j < rest.len() implies rest[j] == ms[j + 1] by {}
        if !(ms[0] is Handler) {
            if forall|j: int| 0 <= j < rest.len() ==> !(#[trigger] rest[j] is Handler) {
                assert forall|j: int| 0 <= j < ms.len() implies !(#[trigger] ms[j] is Handler) by {
                    if j > 0 {
                        assert(rest[j - 1] == ms[j]);
                    }
                }
            }
            if forall|j: int| 0 <= j < ms.len() ==> !(#[trigger] ms[j] is Handler) {
                assert forall|j: int| 0 <= j < rest.len() implies !(#[trigger] rest[j] is Handler) by {
                    assert(rest[j] == ms[j + 1]);
                }
            }
            if 0 <= i < ms.len() && ms[i] is Handler && (forall|j: int|
                0 <= j < i ==> !(#[trigger] ms[j] is Handler)) {
                assert(i > 0);
                assert(rest[i - 1] == ms[i]);
                assert forall|j: int| 0 <= j < i - 1 implies !(#[trigger] rest[j] is Handler) by {
                    assert(rest[j] == ms[j + 1]);
                }
            }
        } else {
            if 0 <= i < ms.len() && ms[i] is Handler && (forall|j: int|
                0 <= j < i ==> !(#[trigger] ms[j] is Handler)) {
                assert(i == 0);
            }
        }
    }
}

/// The first handler of a list of states is the first handler of the first
/// state that has one, whatever states without handlers stand before it;
/// there is none exactly when no state has a handler.
pub proof fn law_first_handler_of_states(states: Seq<SpecState>, k: int)
    ensures
        0 <= k < states.len() && spec_first_handler_members(states[k].members) is Some && (forall|j: int|
            0 <= j < k ==> spec_first_handler_members((#[trigger] states[j]).members) is None)
            ==> spec_first_handler_states(states) == spec_first_handler_members(states[k].members),
        spec_first_handler_states(states) is None <==> forall|j: int|
            0 <= j < states.len() ==> spec_first_handler_members((#[trigger] states[j]).members) is None,
    decreases states.len(),
{
    if states.len() > 0 {
        let rest = states.drop_first();
        law_first_handler_of_states(rest, k - 1);
        assert forall|j: int| 0 <= j < rest.len() implies rest[j] == states[j + 1] by {}
        if spec_first_handler_members(states[0].members) is None {
            if forall|j: int| 0 <= j < rest.len() ==> spec_first_handler_members((#[trigger] rest[j]).members) is None {
                assert forall|j: int| 0 <= j < states.len() implies spec_first_handler_members(
                    (#[trigger] states[j]).members,
                ) is None by {
                    if j > 0 {
                        assert(rest[j - 1] == states[j]);
                    }
                }
            }
            if forall|j: int| 0 <= j < states.len() ==> spec_first_handler_members((#[trigger] states[j]).members) is None {
                assert forall|j: int| 0 <= j < rest.len() implies spec_first_handler_members(
                    (#[trigger] rest[j]).members,
                ) is None by {
                    assert(rest[j] == states[j + 1]);
                }
            }
            if 0 <= k < states.len() && spec_first_handler_members(states[k].members) is Some && (forall|j: int|
                0 <= j < k ==> spec_first_handler_members((#[trigger] states[j]).members) is None) {
                assert(k > 0);
                assert(rest[k - 1] == states[k]);
                assert forall|j: int| 0 <= j < k - 1 implies spec_first_handler_members(
                    (#[trigger] rest[j]).members,
                ) is None by {
                    assert(rest[j] == states[j + 1]);
                }
            }
        } else {
            if 0 <= k < states.len() && spec_first_handler_members(states[k].members) is Some && (forall|j: int|
                0 <= j < k ==> spec_first_handler_members((#[trigger] states[j]).members) is None) {
                assert(k == 0);
            }
        }
    }
}

/// Whether an item is a `contract` with a handler in one of its states.
pub open spec fn contract_with_handler(item: SpecItem) -> bool {
    item matches SpecItem::Contract(c) && spec_first_handler_states(c.states) is Some
}

/// The first handler of a program is that of the first `contract` with a
/// handler, whatever items stand before it; `shared_contract` items never
/// count. There is none exactly when no `contract` has a handler.
pub proof fn law_first_handler_of_items(items: Seq<SpecItem>, k: int)
    ensures
        0 <= k < items.len() && contract_with_handler(items[k]) && (forall|j: int|
            0 <= j < k ==> !contract_with_handler(#[trigger] items[j]))
            ==> spec_first_handler_items(items) == spec_first_handler_states(items[k]->Contract_0.states),
        spec_first_handler_items(items) is None <==> forall|j: int|
            0 <= j < items.len() ==> !contract_with_handler(#[trigger] items[j]),
    decreases items.len(),
{
    if items.len() > 0 {
        let rest = items.drop_first();
        law_first_handler_of_items(rest, k - 1);
        assert forall|j: int| 0 <= j < rest.len() implies rest[j] == items[j + 1] by {}
        if !contract_with_handler(items[0]) {
            assert(spec_first_handler_items(items) == spec_first_handler_items(rest));
            if forall|j: int| 0 <= j < rest.len() ==> !contract_with_handler(#[trigger] rest[j]) {
                assert forall|j: int| 0 <= j < items.len() implies !contract_with_handler(#[trigger] items[j]) by {
                    if j > 0 {
                        assert(rest[j - 1] == items[j]);
                    }
                }
            }
            if forall|j: int| 0 <= j < items.len() ==> !contract_with_handler(#[trigger] items[j]) {
                assert forall|j: int| 0 <= j < rest.len() implies !contract_with_handler(#[trigger] rest[j]) by {
                    assert(rest[j] == items[j + 1]);
                }
            }
            if 0 <= k < items.len() && contract_with_handler(items[k]) && (forall|j: int|
                0 <= j < k ==> !contract_with_handler(#[trigger] items[j])) {
                assert(k > 0);
                assert(rest[k - 1] == items[k]);
                assert forall|j: int| 0 <= j < k - 1 implies !contract_with_handler(#[trigger] rest[j]) by {
                    assert(rest[j] == items[j + 1]);
                }
            }
        } else {
            if 0 <= k < items.len() && contract_with_handler(items[k]) && (forall|j: int|
                0 <= j < k ==> !contract_with_handler(#[trigger] items[j])) {
                assert(k == 0);
            }
        }
    }
}
} // verus!
