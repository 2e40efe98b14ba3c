use vstd::prelude::*;

use crate::parser::expr::Expr;
use crate::parser::stmt;
use crate::parser::stmt::Let;
use crate::parser::stmt::Return;
use crate::parser::stmt::StmtView;

verus! {

/// A statement in the arena, with the place of the statement after it.
#[derive(Debug)]
pub enum Stmt<'s> {
    Let { let_: Let<'s>, next: Option<usize> },
    Return { ret: Return<'s>, next: Option<usize> },
    Expr { expr: Expr<'s>, next: Option<usize> },
}

/// What a `Stmt` of the arena stands for.
pub struct NodeView {
    pub stmt: StmtView,
    pub next: Option<usize>,
}

impl<'s> View for Stmt<'s> {
    type V = NodeView;

    open spec fn view(&self) -> NodeView {
        match self {
            Stmt::Let { let_, next } => NodeView { stmt: StmtView::Let(let_@), next: *next },
            Stmt::Return { ret, next } => NodeView { stmt: StmtView::Return(ret@), next: *next },
            Stmt::Expr { expr, next } => NodeView { stmt: StmtView::Expr(expr@), next: *next },
        }
    }
}

impl<'s> Stmt<'s> {
    /// The place of the statement after this one, if there is one.
    pub fn next(&self) -> (r: Option<usize>)
        ensures
            r == self@.next,
    {
        match self {
            Stmt::Let { next, .. } => *next,
            Stmt::Return { next, .. } => *next,
            Stmt::Expr { next, .. } => *next,
        }
    }

    /// This statement with `next` as the place of the statement after it.
    pub fn with_next(self, next: Option<usize>) -> (r: Stmt<'s>)
        ensures
            r@ == (NodeView { stmt: self@.stmt, next }),
    {
        match self {
            Stmt::Let { let_, .. } => Stmt::Let { let_, next },
            Stmt::Return { ret, .. } => Stmt::Return { ret, next },
            Stmt::Expr { expr, .. } => Stmt::Expr { expr, next },
        }
    }

    /// The statement of the arena for a parsed statement: a copy that
    /// borrows from it, with no statement after it.
    pub fn from(stmt: &'s stmt::Stmt<'s>) -> (r: Stmt<'s>)
        ensures
            r@ == (NodeView { stmt: stmt@, next: None }),
    {
        match stmt {
            stmt::Stmt::Let(let_) => Stmt::Let { let_: let_.as_ref(), next: None },
            stmt::Stmt::Return(ret) => Stmt::Return { ret: ret.as_ref(), next: None },
            stmt::Stmt::Expr(expr) => Stmt::Expr { expr: expr.as_ref(), next: None },
        }
    }
}

/// The views of the slots of an arena, in order.
pub open spec fn arena_view(stmts: Seq<Option<Stmt>>) -> Seq<Option<NodeView>> {
    Seq::new(
        stmts.len(),
        |i: int|
            match stmts[i] {
                Some(stmt) => Some(stmt@),
                None => None,
            },
    )
}

} // verus!
