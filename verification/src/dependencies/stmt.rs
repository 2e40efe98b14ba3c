use vstd::prelude::*;

use crate::ast::Stmt;
use crate::parser::stmt::StmtView;

use super::expr::expr_deps;
use super::graph::deps_view;
use super::graph::Dependency;

verus! {

/// The functions that a statement calls: those that its expression calls.
pub open spec fn stmt_deps(stmt: StmtView) -> Seq<Seq<char>> {
    match stmt {
        StmtView::Let(let_) => expr_deps(let_.value),
        StmtView::Return(expr) => expr_deps(expr),
        StmtView::Expr(expr) => expr_deps(expr),
    }
}

impl<'s> Stmt<'s> {
    /// The functions that this statement calls.
    pub fn dependencies(&'s self) -> (r: Vec<Dependency<'s>>)
        ensures
            deps_view(r@) == stmt_deps(self@.stmt),
    {
        match self {
            Stmt::Let { let_, .. } => let_.value.dependencies(),
            Stmt::Return { ret, .. } => ret.0.dependencies(),
            Stmt::Expr { expr, .. } => expr.dependencies(),
        }
    }
}

} // verus!
