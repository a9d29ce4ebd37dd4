//! The syntax tree of a program and its mathematical model.
use vstd::prelude::*;

verus! {

#[derive(Debug)]
pub struct Program {
    pub items: Vec<Item>,
}

#[derive(Debug)]
pub enum Item {
    SharedContract(ContractDecl),
    Contract(ContractDecl),
}

#[derive(Debug)]
pub struct ContractDecl {
    pub name: String,
    pub states: Vec<StateDecl>,
}

#[derive(Debug)]
pub struct StateDecl {
    pub name: String,
    pub members: Vec<StateMember>,
}

#[derive(Debug)]
pub enum StateMember {
    VarDecl(VarDecl),
    Handler(HandlerDecl),
}

#[derive(Debug)]
pub struct VarDecl {
    pub name: String,
    pub ty: String,
    pub init: Expr,
}

#[derive(Debug)]
pub struct HandlerDecl {
    pub name: String,
    pub params: Vec<Param>,
    pub body: Vec<Stmt>,
}

#[derive(Debug)]
pub struct Param {
    pub name: String,
    pub ty: String,
}

#[derive(Debug)]
pub enum Stmt {
    If { cond: Expr, then_branch: Vec<Stmt>, else_branch: Option<Vec<Stmt>> },
    Call(Expr),
    Let { name: String, expr: Expr },
    Send(Expr),
    Transition(String),
    Violation(Vec<Stmt>),
    Drop(Expr),
    Expr(Expr),
}

#[derive(Debug)]
pub enum Expr {
    Number(u64),
    Path(String),
    Call { target: String, args: Vec<Expr> },
    Add(Box<Expr>, Box<Expr>),
    Sub(Box<Expr>, Box<Expr>),
    Eq(Box<Expr>, Box<Expr>),
    Gt(Box<Expr>, Box<Expr>),
    Lt(Box<Expr>, Box<Expr>),
}

// The model: the same tree, with names as character sequences and lists as sequences.
pub struct SpecProgram {
    pub items: Seq<SpecItem>,
}

pub enum SpecItem {
    SharedContract(SpecContract),
    Contract(SpecContract),
}

pub struct SpecContract {
    pub name: Seq<char>,
    pub states: Seq<SpecState>,
}

pub struct SpecState {
    pub name: Seq<char>,
    pub members: Seq<SpecMember>,
}

pub enum SpecMember {
    VarDecl(SpecVar),
    Handler(SpecHandler),
}

pub struct SpecVar {
    pub name: Seq<char>,
    pub ty: Seq<char>,
    pub init: SpecExpr,
}

pub struct SpecHandler {
    pub name: Seq<char>,
    pub params: Seq<SpecParam>,
    pub body: Seq<SpecStmt>,
}

pub struct SpecParam {
    pub name: Seq<char>,
    pub ty: Seq<char>,
}

pub enum SpecStmt {
    If { cond: SpecExpr, then_branch: Seq<SpecStmt>, else_branch: Option<Seq<SpecStmt>> },
    Call(SpecExpr),
    Let { name: Seq<char>, expr: SpecExpr },
    Send(SpecExpr),
    Transition(Seq<char>),
    Violation(Seq<SpecStmt>),
    Drop(SpecExpr),
    Expr(SpecExpr),
}

pub enum SpecExpr {
    Number(u64),
    Path(Seq<char>),
    Call { target: Seq<char>, args: Seq<SpecExpr> },
    Add(Box<SpecExpr>, Box<SpecExpr>),
    Sub(Box<SpecExpr>, Box<SpecExpr>),
    Eq(Box<SpecExpr>, Box<SpecExpr>),
    Gt(Box<SpecExpr>, Box<SpecExpr>),
    Lt(Box<SpecExpr>, Box<SpecExpr>),
}

pub open spec fn expr_view(e: Expr) -> SpecExpr
    decreases e,
{
    match e {
        Expr::Number(n) => SpecExpr::Number(n),
        Expr::Path(p) => SpecExpr::Path(p@),
        Expr::Call { target, args } => SpecExpr::Call {
            target: target@,
            args: Seq::new(
                args@.len(),
                |i: int|
                    if 0 <= i < args@.len() {
                        expr_view(args@[i])
                    } else {
                        SpecExpr::Number(0)
                    },
            ),
        },
        Expr::Add(l, r) => SpecExpr::Add(Box::new(expr_view(*l)), Box::new(expr_view(*r))),
        Expr::Sub(l, r) => SpecExpr::Sub(Box::new(expr_view(*l)), Box::new(expr_view(*r))),
        Expr::Eq(l, r) => SpecExpr::Eq(Box::new(expr_view(*l)), Box::new(expr_view(*r))),
        Expr::Gt(l, r) => SpecExpr::Gt(Box::new(expr_view(*l)), Box::new(expr_view(*r))),
        Expr::Lt(l, r) => SpecExpr::Lt(Box::new(expr_view(*l)), Box::new(expr_view(*r))),
    }
}

/// The models of a list of expressions.
pub open spec fn exprs_view(s: Seq<Expr>) -> Seq<SpecExpr> {
    Seq::new(s.len(), |i: int| expr_view(s[i]))
}

pub open spec fn stmt_view(s: Stmt) -> SpecStmt
    decreases s,
{
    match s {
        Stmt::If { cond, then_branch, else_branch } => SpecStmt::If {
            cond: expr_view(cond),
            then_branch: Seq::new(
                then_branch@.len(),
                |i: int|
                    if 0 <= i < then_branch@.len() {
                        stmt_view(then_branch@[i])
                    } else {
                        SpecStmt::Transition(Seq::empty())
                    },
            ),
            else_branch: match else_branch {
                Some(b) => Some(
                    Seq::new(
                        b@.len(),
                        |i: int|
                            if 0 <= i < b@.len() {
                                stmt_view(b@[i])
                            } else {
                                SpecStmt::Transition(Seq::empty())
                            },
                    ),
                ),
                None => None,
            },
        },
        Stmt::Call(e) => SpecStmt::Call(expr_view(e)),
        Stmt::Let { name, expr } => SpecStmt::Let { name: name@, expr: expr_view(expr) },
        Stmt::Send(e) => SpecStmt::Send(expr_view(e)),
        Stmt::Transition(t) => SpecStmt::Transition(t@),
        Stmt::Violation(b) => SpecStmt::Violation(
            Seq::new(
                b@.len(),
                |i: int|
                    if 0 <= i < b@.len() {
                        stmt_view(b@[i])
                    } else {
                        SpecStmt::Transition(Seq::empty())
                    },
            ),
        ),
        Stmt::Drop(e) => SpecStmt::Drop(expr_view(e)),
        Stmt::Expr(e) => SpecStmt::Expr(expr_view(e)),
    }
}


/// The models of a list of values.
pub open spec fn views<T: View>(s: Seq<T>) -> Seq<T::V> {
    Seq::new(s.len(), |i: int| s[i]@)
}

impl View for Expr {
    type V = SpecExpr;

    open spec fn view(&self) -> SpecExpr {
        expr_view(*self)
    }
}

impl View for Stmt {
    type V = SpecStmt;

    open spec fn view(&self) -> SpecStmt {
        stmt_view(*self)
    }
}

impl View for Param {
    type V = SpecParam;

    open spec fn view(&self) -> SpecParam {
        SpecParam { name: self.name@, ty: self.ty@ }
    }
}

impl View for HandlerDecl {
    type V = SpecHandler;

    open spec fn view(&self) -> SpecHandler {
        SpecHandler {
            name: self.name@,
            params: views(self.params@),
            body: views(self.body@),
        }
    }
}

impl View for VarDecl {
    type V = SpecVar;

    open spec fn view(&self) -> SpecVar {
        SpecVar { name: self.name@, ty: self.ty@, init: self.init@ }
    }
}

impl View for StateMember {
    type V = SpecMember;

    open spec fn view(&self) -> SpecMember {
        match self {
            StateMember::VarDecl(v) => SpecMember::VarDecl(v@),
            StateMember::Handler(h) => SpecMember::Handler(h@),
        }
    }
}

impl View for StateDecl {
    type V = SpecState;

    open spec fn view(&self) -> SpecState {
        SpecState {
            name: self.name@,
            members: views(self.members@),
        }
    }
}

impl View for ContractDecl {
    type V = SpecContract;

    open spec fn view(&self) -> SpecContract {
        SpecContract {
            name: self.name@,
            states: views(self.states@),
        }
    }
}

impl View for Item {
    type V = SpecItem;

    open spec fn view(&self) -> SpecItem {
        match self {
            Item::SharedContract(c) => SpecItem::SharedContract(c@),
            Item::Contract(c) => SpecItem::Contract(c@),
        }
    }
}

impl View for Program {
    type V = SpecProgram;

    open spec fn view(&self) -> SpecProgram {
        SpecProgram { items: views(self.items@) }
    }
}

} // verus!
