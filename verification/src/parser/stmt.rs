use vstd::prelude::*;

use crate::lexer::tokens_view;
use crate::lexer::Ident;
use crate::lexer::Keyword;
use crate::lexer::Symbol;
use crate::lexer::Token;
use crate::lexer::TokenTy;
use crate::lexer::TokenView;

use super::error::concat;
use super::error::errors_view;
use super::error::max_after;
use super::error::Error;
use super::error::ErrorView;
use super::expect;
use super::expect_ident;
use super::expr::expr_handled;
use super::expr::expr_parse;
use super::expr::parsed;
use super::expr::Expr;
use super::expr::ExprView;
use super::missing;
use super::one;
use super::place;
use super::pos_at;
use super::split;
use super::try_eq_keyword;
use super::try_eq_symbol;
use super::try_get_ident;

verus! {

/// A statement.
#[derive(Debug)]
pub enum Stmt<'s> {
    Let(Let<'s>),
    Return(Return<'s>),
    Expr(Expr<'s>),
}

/// `let name = value;`
#[derive(Debug)]
pub struct Let<'l> {
    pub name: Ident<'l>,
    pub value: Expr<'l>,
}

/// `return value;`
#[derive(Debug)]
pub struct Return<'r>(pub Expr<'r>);

/// What a `Stmt` stands for.
pub enum StmtView {
    Let(LetView),
    Return(ExprView),
    Expr(ExprView),
}

/// What a `Let` stands for.
pub struct LetView {
    pub name: Seq<char>,
    pub value: ExprView,
}

impl<'l> View for Let<'l> {
    type V = LetView;

    open spec fn view(&self) -> LetView {
        LetView { name: self.name@, value: self.value@ }
    }
}

impl<'r> View for Return<'r> {
    type V = ExprView;

    open spec fn view(&self) -> ExprView {
        self.0@
    }
}

impl<'s> View for Stmt<'s> {
    type V = StmtView;

    open spec fn view(&self) -> StmtView {
        match self {
            Stmt::Let(let_) => StmtView::Let(let_@),
            Stmt::Return(ret) => StmtView::Return(ret@),
            Stmt::Expr(expr) => StmtView::Expr(expr@),
        }
    }
}

/// The kinds of token that a statement can start with.
pub open spec fn stmt_handled() -> Seq<TokenTy> {
    seq![TokenTy::Keyword(Keyword::Let), TokenTy::Keyword(Keyword::Return)] + expr_handled()
}

/// `return` and an expression, at the start of `tokens`.
pub open spec fn return_parse(tokens: Seq<TokenView>, lits: usize) -> Result<
    (nat, ExprView, usize),
    ErrorView,
> {
    match expect(tokens, 0, TokenTy::Keyword(Keyword::Return)) {
        Some(error) => Err(error),
        None => match expr_parse(tokens.skip(1), lits) {
            Ok((len, expr, lits)) => Ok((len + 1, expr, lits)),
            Err(error) => Err(max_after(error, pos_at(tokens, 0))),
        },
    }
}

/// `let`, a name, `=` and an expression, at the start of `tokens`.
pub open spec fn let_parse(tokens: Seq<TokenView>, lits: usize) -> Result<
    (nat, LetView, usize),
    ErrorView,
> {
    match expect(tokens, 0, TokenTy::Keyword(Keyword::Let)) {
        Some(error) => Err(error),
        None => match expect_ident(tokens, 1) {
            Err(error) => Err(max_after(error, pos_at(tokens, 0))),
            Ok(name) => match expect(tokens, 2, TokenTy::Symbol(Symbol::Equal)) {
                Some(error) => Err(max_after(error, pos_at(tokens, 1))),
                None => match expr_parse(tokens.skip(3), lits) {
                    Ok((len, value, lits)) => Ok((len + 3, LetView { name, value }, lits)),
                    Err(error) => Err(max_after(error, pos_at(tokens, 2))),
                },
            },
        },
    }
}

/// One way to read a statement, which `found` is the result of: it stands
/// only if a semicolon follows. An error takes the place of the last token
/// read where that is later than its own.
pub open spec fn closed<T>(tokens: Seq<TokenView>, found: Result<(nat, T, usize), ErrorView>)
    -> Result<(nat, T, usize), ErrorView> {
    match found {
        Ok((len, node, lits)) => match expect(
            tokens,
            len as int,
            TokenTy::Symbol(Symbol::SemiColon),
        ) {
            None => Ok((len + 1, node, lits)),
            Some(error) => Err(max_after(error, pos_at(tokens, len - 1))),
        },
        Err(error) => Err(max_after(error, pos_at(tokens, 0))),
    }
}

/// The statement at the start of `tokens`: a return, else a let, else an
/// expression, each with its semicolon. Where none stands, the error holds
/// the errors of all three in this order.
pub open spec fn stmt_parse(tokens: Seq<TokenView>, lits: usize) -> Result<
    (nat, StmtView, usize),
    ErrorView,
> {
    if tokens.len() == 0 {
        Err(missing(stmt_handled()))
    } else {
        match closed(tokens, return_parse(tokens, lits)) {
            Ok((len, ret, lits)) => Ok((len, StmtView::Return(ret), lits)),
            Err(first) => match closed(tokens, let_parse(tokens, lits)) {
                Ok((len, let_, lits)) => Ok((len, StmtView::Let(let_), lits)),
                Err(second) => match closed(tokens, expr_parse(tokens, lits)) {
                    Ok((len, expr, lits)) => Ok((len, StmtView::Expr(expr), lits)),
                    Err(third) => Err(
                        concat(
                            concat(concat(ErrorView::Multiple(Seq::empty()), first), second),
                            third,
                        ),
                    ),
                },
            },
        }
    }
}

/// Asks for the semicolon after a statement that was read.
fn close<'t, T: View>(
    tokens: &'t [Token<'t>],
    found: Result<(usize, T, usize), Error<'t>>,
    Ghost(out): Ghost<Result<(nat, T::V, usize), ErrorView>>,
) -> (r: Result<(usize, T, usize), Error<'t>>)
    requires
        parsed(found, out),
        found matches Ok((len, _, _)) ==> 0 < len <= tokens@.len(),
    ensures
        parsed(r, closed(tokens_view(tokens@), out)),
        r matches Ok((len, _, _)) ==> 0 < len <= tokens@.len(),
{
    match found {
        Ok((t, node, lits)) => match try_eq_symbol(tokens, t, Symbol::SemiColon) {
            Ok(()) => Ok((t + 1, node, lits)),
            Err(err) => Err(err.max_after(place(tokens, t - 1))),
        },
        Err(err) => Err(err.max_after(place(tokens, 0))),
    }
}

impl<'s> Stmt<'s> {
    pub fn handled() -> (r: Vec<TokenTy>)
        ensures
            r@ == stmt_handled(),
    {
        let mut handled: Vec<TokenTy> = Vec::new();
        let mut let_ = Let::handled();
        handled.append(&mut let_);
        let mut ret = Return::handled();
        handled.append(&mut ret);
        let mut expr = Expr::handled();
        handled.append(&mut expr);
        assert(handled@ =~= stmt_handled());
        handled
    }

    /// Parses the statement at the start of `tokens`.
    pub fn parse(tokens: &'s [Token<'s>], lits: usize) -> (r: Result<
        (usize, Stmt<'s>, usize),
        Error<'s>,
    >)
        ensures
            parsed(r, stmt_parse(tokens_view(tokens@), lits)),
            r matches Ok((len, _, _)) ==> 0 < len <= tokens@.len(),
    {
        if tokens.len() == 0 {
            return Err(Error::missing_token(Stmt::handled(), None));
        }
        let ghost tv = tokens_view(tokens@);
        let error = Error::multiple(Vec::new());
        assert(errors_view(Seq::<Error>::empty()) =~= Seq::<ErrorView>::empty());
        let error = match close(tokens, Return::parse(tokens, lits), Ghost(return_parse(tv, lits))) {
            Ok((t, ret, lits)) => {
                return Ok((t, Stmt::Return(ret), lits));
            },
            Err(err) => error.concat(err),
        };
        let error = match close(tokens, Let::parse(tokens, lits), Ghost(let_parse(tv, lits))) {
            Ok((t, let_, lits)) => {
                return Ok((t, Stmt::Let(let_), lits));
            },
            Err(err) => error.concat(err),
        };
        let error = match close(tokens, Expr::parse(tokens, lits), Ghost(expr_parse(tv, lits))) {
            Ok((t, expr, lits)) => {
                return Ok((t, Stmt::Expr(expr), lits));
            },
            Err(err) => error.concat(err),
        };
        Err(error)
    }
}

impl<'l> Let<'l> {
    /// A copy of this statement that borrows its names and texts.
    pub fn as_ref(&'l self) -> (r: Let<'l>)
        ensures
            r@ == self@,
    {
        Let { name: self.name.as_ref(), value: self.value.as_ref() }
    }

    pub fn handled() -> (r: Vec<TokenTy>)
        ensures
            r@ == seq![TokenTy::Keyword(Keyword::Let)],
    {
        one(TokenTy::Keyword(Keyword::Let))
    }

    /// Parses `let name = value` at the start of `tokens`.
    pub fn parse(tokens: &'l [Token<'l>], lits: usize) -> (r: Result<
        (usize, Let<'l>, usize),
        Error<'l>,
    >)
        ensures
            parsed(r, let_parse(tokens_view(tokens@), lits)),
            r matches Ok((len, _, _)) ==> 0 < len <= tokens@.len(),
    {
        match try_eq_keyword(tokens, 0, Keyword::Let) {
            Ok(()) => {},
            Err(err) => {
                return Err(err);
            },
        }
        let name = match try_get_ident(tokens, 1) {
            Ok(name) => name.as_ref(),
            Err(err) => {
                return Err(err.max_after(place(tokens, 0)));
            },
        };
        match try_eq_symbol(tokens, 2, Symbol::Equal) {
            Ok(()) => {},
            Err(err) => {
                return Err(err.max_after(place(tokens, 1)));
            },
        }
        match Expr::parse(split(tokens, 3), lits) {
            Ok((t, value, lits)) => Ok((t + 3, Let { name, value }, lits)),
            Err(err) => Err(err.max_after(place(tokens, 2))),
        }
    }
}

impl<'r> Return<'r> {
    /// A copy of this statement that borrows its names and texts.
    pub fn as_ref(&'r self) -> (r: Return<'r>)
        ensures
            r@ == self@,
    {
        Return(self.0.as_ref())
    }

    pub fn handled() -> (r: Vec<TokenTy>)
        ensures
            r@ == seq![TokenTy::Keyword(Keyword::Return)],
    {
        one(TokenTy::Keyword(Keyword::Return))
    }

    /// Parses `return value` at the start of `tokens`.
    pub fn parse(tokens: &'r [Token<'r>], lits: usize) -> (r: Result<
        (usize, Return<'r>, usize),
        Error<'r>,
    >)
        ensures
            parsed(r, return_parse(tokens_view(tokens@), lits)),
            r matches Ok((len, _, _)) ==> 0 < len <= tokens@.len(),
    {
        match try_eq_keyword(tokens, 0, Keyword::Return) {
            Ok(()) => {},
            Err(err) => {
                return Err(err);
            },
        }
        match Expr::parse(split(tokens, 1), lits) {
            Ok((t, expr, lits)) => Ok((t + 1, Return(expr), lits)),
            Err(err) => Err(err.max_after(place(tokens, 0))),
        }
    }
}

} // verus!
