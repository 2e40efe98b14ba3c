use vstd::prelude::*;

use crate::lexer::tokens_view;
use crate::lexer::Ident;
use crate::lexer::Keyword;
use crate::lexer::Symbol;
use crate::lexer::Token;
use crate::lexer::TokenTy;
use crate::lexer::TokenVariantView;
use crate::lexer::TokenView;
use crate::ty::Ty;
use crate::ty::TyView;
use crate::views;

use super::error::concat;
use super::error::errors_view;
use super::error::max_after;
use super::error::Error;
use super::error::ErrorView;
use super::expect;
use super::expect_ident;
use super::expect_ty;
use super::expr::parsed;
use super::missing;
use super::one;
use super::place;
use super::pos_at;
use super::split;
use super::stmt::stmt_handled;
use super::stmt::stmt_parse;
use super::stmt::Stmt;
use super::stmt::StmtView;
use super::try_eq_keyword;
use super::try_eq_symbol;
use super::try_get_ident;
use super::try_get_ty;

verus! {

/// A declaration.
#[derive(Debug)]
pub enum Decl<'d> {
    Func(Func<'d>),
}

/// The declaration of a function.
#[derive(Debug)]
pub struct Func<'f> {
    pub name: Ident<'f>,
    pub args: Vec<Arg<'f>>,
    pub ret: Ty<'f>,
    pub variadic: bool,
    pub stmts: Vec<Stmt<'f>>,
}

/// A parameter of a function.
#[derive(Debug)]
pub struct Arg<'a> {
    pub name: Ident<'a>,
    pub ty: Ty<'a>,
}

/// What a `Decl` stands for.
pub enum DeclView {
    Func(FuncView),
}

/// What a `Func` stands for.
pub struct FuncView {
    pub name: Seq<char>,
    pub args: Seq<ArgView>,
    pub ret: TyView,
    pub variadic: bool,
    pub stmts: Seq<StmtView>,
}

/// What an `Arg` stands for.
pub struct ArgView {
    pub name: Seq<char>,
    pub ty: TyView,
}

impl<'a> View for Arg<'a> {
    type V = ArgView;

    open spec fn view(&self) -> ArgView {
        ArgView { name: self.name@, ty: self.ty@ }
    }
}

impl<'f> View for Func<'f> {
    type V = FuncView;

    open spec fn view(&self) -> FuncView {
        FuncView {
            name: self.name@,
            args: views(self.args@),
            ret: self.ret@,
            variadic: self.variadic,
            stmts: views(self.stmts@),
        }
    }
}

impl<'d> View for Decl<'d> {
    type V = DeclView;

    open spec fn view(&self) -> DeclView {
        match self {
            Decl::Func(func) => DeclView::Func(func@),
        }
    }
}

/// The kinds of token that a declaration can start with.
pub open spec fn decl_handled() -> Seq<TokenTy> {
    seq![TokenTy::Keyword(Keyword::Func)]
}

/// The parameters of a function from index `t` on, after `args`: each a
/// name, `:` and a type, with a comma between each two. The result holds the
/// index of the closing parenthesis.
pub open spec fn params_parse(tokens: Seq<TokenView>, t: int, args: Seq<ArgView>) -> Result<
    (int, Seq<ArgView>),
    ErrorView,
>
    decreases tokens.len() - t,
{
    if t < 0 || t >= tokens.len() {
        Err(
            ErrorView::MissingToken {
                handled: stmt_handled().push(TokenTy::Symbol(Symbol::RightParen)),
                after: pos_at(tokens, t - 1),
            },
        )
    } else if tokens[t].token == TokenVariantView::Symbol(Symbol::RightParen) {
        Ok((t, args))
    } else {
        let comma = if args.len() > 0 {
            expect(tokens, t, TokenTy::Symbol(Symbol::Comma))
        } else {
            None
        };
        let name_at = if args.len() > 0 {
            t + 1
        } else {
            t
        };
        match comma {
            Some(error) => Err(max_after(error, pos_at(tokens, t - 1))),
            None => match expect_ident(tokens, name_at) {
                Err(error) => Err(max_after(error, pos_at(tokens, name_at - 1))),
                Ok(name) => match expect(tokens, name_at + 1, TokenTy::Symbol(Symbol::Colon)) {
                    Some(error) => Err(max_after(error, pos_at(tokens, name_at))),
                    None => match expect_ty(tokens, name_at + 2) {
                        Err(error) => Err(max_after(error, pos_at(tokens, name_at + 1))),
                        Ok(ty) => params_parse(tokens, name_at + 3, args.push(ArgView { name, ty })),
                    },
                },
            },
        }
    }
}

/// The return type of a function at index `t`: `:` and a type, or nothing,
/// which stands for `void`. The result holds the index after it.
pub open spec fn ret_parse(tokens: Seq<TokenView>, t: int) -> Result<(int, TyView), ErrorView> {
    match expect(tokens, t, TokenTy::Symbol(Symbol::Colon)) {
        None => match expect_ty(tokens, t + 1) {
            Ok(ty) => Ok((t + 2, ty)),
            Err(error) => Err(max_after(error, pos_at(tokens, t))),
        },
        Some(error) => if error is WrongToken {
            Ok((t, TyView::Void))
        } else {
            Err(max_after(error, pos_at(tokens, t - 1)))
        },
    }
}

/// The statements of a function from index `t` on, after `stmts`, up to the
/// closing brace.
pub open spec fn body_parse(tokens: Seq<TokenView>, t: int, stmts: Seq<StmtView>, lits: usize)
    -> Result<(nat, Seq<StmtView>, usize), ErrorView>
    decreases tokens.len() - t,
{
    if t < 0 || t >= tokens.len() {
        Err(
            ErrorView::MissingToken {
                handled: stmt_handled().push(TokenTy::Symbol(Symbol::RightBrace)),
                after: pos_at(tokens, t - 1),
            },
        )
    } else if tokens[t].token == TokenVariantView::Symbol(Symbol::RightBrace) {
        Ok(((t + 1) as nat, stmts, lits))
    } else {
        match stmt_parse(tokens.skip(t), lits) {
            Ok((len, stmt, lits)) => {
                if len == 0 || t + len > tokens.len() {
                    Err(missing(Seq::empty()))
                } else {
                    body_parse(tokens, t + len, stmts.push(stmt), lits)
                }
            },
            Err(error) => Err(max_after(error, pos_at(tokens, t))),
        }
    }
}

/// The function at the start of `tokens`: `func`, a name, the parameters in
/// parentheses, the return type if one is given, and the statements in
/// braces. No function that is parsed is variadic.
pub open spec fn func_parse(tokens: Seq<TokenView>, lits: usize) -> Result<
    (nat, FuncView, usize),
    ErrorView,
> {
    match expect(tokens, 0, TokenTy::Keyword(Keyword::Func)) {
        Some(error) => Err(error),
        None => match expect_ident(tokens, 1) {
            Err(error) => Err(max_after(error, pos_at(tokens, 0))),
            Ok(name) => match expect(tokens, 2, TokenTy::Symbol(Symbol::LeftParen)) {
                Some(error) => Err(max_after(error, pos_at(tokens, 1))),
                None => match params_parse(tokens, 3, Seq::empty()) {
                    Err(error) => Err(error),
                    Ok((close, args)) => match ret_parse(tokens, close + 1) {
                        Err(error) => Err(error),
                        Ok((open, ret)) => match expect(
                            tokens,
                            open,
                            TokenTy::Symbol(Symbol::LeftBrace),
                        ) {
                            Some(error) => Err(max_after(error, pos_at(tokens, open - 1))),
                            None => match body_parse(tokens, open + 1, Seq::empty(), lits) {
                                Err(error) => Err(error),
                                Ok((len, stmts, lits)) => Ok(
                                    (
                                        len,
                                        FuncView { name, args, ret, variadic: false, stmts },
                                        lits,
                                    ),
                                ),
                            },
                        },
                    },
                },
            },
        },
    }
}

/// The declaration at the start of `tokens`. Where none stands, the error
/// holds the errors of every kind of declaration.
pub open spec fn decl_parse(tokens: Seq<TokenView>, lits: usize) -> Result<
    (nat, DeclView, usize),
    ErrorView,
> {
    if tokens.len() == 0 {
        Err(missing(decl_handled()))
    } else {
        match func_parse(tokens, lits) {
            Ok((len, func, lits)) => Ok((len, DeclView::Func(func), lits)),
            Err(error) => Err(concat(ErrorView::Multiple(Seq::empty()), error)),
        }
    }
}

impl<'d> Decl<'d> {
    pub fn handled() -> (r: Vec<TokenTy>)
        ensures
            r@ == decl_handled(),
    {
        let mut handled: Vec<TokenTy> = Vec::new();
        let mut func = Func::handled();
        handled.append(&mut func);
        assert(handled@ =~= decl_handled());
        handled
    }

    /// Parses the declaration at the start of `tokens`.
    pub fn parse(tokens: &'d [Token<'d>], lits: usize) -> (r: Result<
        (usize, Decl<'d>, usize),
        Error<'d>,
    >)
        ensures
            parsed(r, decl_parse(tokens_view(tokens@), lits)),
            r matches Ok((len, _, _)) ==> 0 < len <= tokens@.len(),
    {
        if tokens.len() == 0 {
            return Err(Error::missing_token(Decl::handled(), None));
        }
        let error = Error::multiple(Vec::new());
        assert(errors_view(Seq::<Error>::empty()) =~= Seq::<ErrorView>::empty());
        match Func::parse(tokens, lits) {
            Ok((t, func, lits)) => Ok((t, Decl::Func(func), lits)),
            Err(err) => Err(error.concat(err)),
        }
    }
}

impl<'f> Func<'f> {
    pub fn handled() -> (r: Vec<TokenTy>)
        ensures
            r@ == seq![TokenTy::Keyword(Keyword::Func)],
    {
        one(TokenTy::Keyword(Keyword::Func))
    }

    /// Parses the function at the start of `tokens`.
    pub fn parse(tokens: &'f [Token<'f>], lits: usize) -> (r: Result<
        (usize, Func<'f>, usize),
        Error<'f>,
    >)
        ensures
            parsed(r, func_parse(tokens_view(tokens@), lits)),
            r matches Ok((len, _, _)) ==> 0 < len <= tokens@.len(),
    {
        match try_eq_keyword(tokens, 0, Keyword::Func) {
            Ok(()) => {},
            Err(err) => {
                return Err(err);
            },
        }
        let name = match try_get_ident(tokens, 1) {
            Ok(name) => name.as_ref(),
            Err(err) => {
                return Err(err.max_after(place(tokens, 0)));
            },
        };
        match try_eq_symbol(tokens, 2, Symbol::LeftParen) {
            Ok(()) => {},
            Err(err) => {
                return Err(err.max_after(place(tokens, 1)));
            },
        }
        let (close, args) = match Func::parse_params(tokens) {
            Ok(found) => found,
            Err(err) => {
                return Err(err);
            },
        };
        let (open, ret) = match Func::parse_ret(tokens, close + 1) {
            Ok(found) => found,
            Err(err) => {
                return Err(err);
            },
        };
        match try_eq_symbol(tokens, open, Symbol::LeftBrace) {
            Ok(()) => {},
            Err(err) => {
                return Err(err.max_after(place(tokens, open - 1)));
            },
        }
        match Func::parse_body(tokens, open + 1, lits) {
            Ok((t, stmts, lits)) => Ok((t, Func { name, args, ret, variadic: false, stmts }, lits)),
            Err(err) => Err(err),
        }
    }

    /// Parses the parameters, which start at index 3, and returns the index
    /// of the closing parenthesis with them.
    fn parse_params(tokens: &'f [Token<'f>]) -> (r: Result<(usize, Vec<Arg<'f>>), Error<'f>>)
        requires
            tokens@.len() >= 3,
        ensures
            match params_parse(tokens_view(tokens@), 3, Seq::empty()) {
                Ok((close, args)) => r is Ok && r->Ok_0.0 == close && views(r->Ok_0.1@) == args
                    && 3 <= close < tokens@.len(),
                Err(error) => r is Err && r->Err_0@ == error,
            },
    {
        let ghost tv = tokens_view(tokens@);
        let ghost whole = params_parse(tv, 3, Seq::empty());
        let n = tokens.len();
        let mut args: Vec<Arg<'f>> = Vec::new();
        let mut t: usize = 3;
        assert(views(args@) =~= Seq::<ArgView>::empty());
        loop
            invariant
                tv == tokens_view(tokens@),
                n == tokens@.len(),
                3 <= t <= n,
                whole == params_parse(tv, 3, Seq::empty()),
                params_parse(tv, t as int, views(args@)) == whole,
            decreases n - t,
        {
            if t >= n {
                let mut handled = Stmt::handled();
                handled.push(TokenTy::Symbol(Symbol::RightParen));
                return Err(Error::missing_token(handled, place(tokens, t - 1)));
            }
            assert(tv[t as int] == tokens@[t as int]@);
            if tokens[t].eq_symbol(Symbol::RightParen) {
                return Ok((t, args));
            }
            if args.len() > 0 {
                match try_eq_symbol(tokens, t, Symbol::Comma) {
                    Ok(()) => {},
                    Err(err) => {
                        return Err(err.max_after(place(tokens, t - 1)));
                    },
                }
                t += 1;
            }
            let name = match try_get_ident(tokens, t) {
                Ok(name) => name.as_ref(),
                Err(err) => {
                    return Err(err.max_after(place(tokens, t - 1)));
                },
            };
            t += 1;
            match try_eq_symbol(tokens, t, Symbol::Colon) {
                Ok(()) => {},
                Err(err) => {
                    return Err(err.max_after(place(tokens, t - 1)));
                },
            }
            t += 1;
            let ty = match try_get_ty(tokens, t) {
                Ok(ty) => ty,
                Err(err) => {
                    return Err(err.max_after(place(tokens, t - 1)));
                },
            };
            t += 1;
            let ghost before = args@;
            let arg = Arg { name, ty };
            args.push(arg);
            assert(views(args@) =~= views(before).push(arg@));
        }
    }

    /// Parses the return type at index `t`, if one is given, and returns the
    /// index after it with it.
    fn parse_ret(tokens: &'f [Token<'f>], t: usize) -> (r: Result<(usize, Ty<'f>), Error<'f>>)
        requires
            0 < t <= tokens@.len(),
        ensures
            match ret_parse(tokens_view(tokens@), t as int) {
                Ok((open, ret)) => r is Ok && r->Ok_0.0 == open && r->Ok_0.1@ == ret && t <= open
                    <= tokens@.len(),
                Err(error) => r is Err && r->Err_0@ == error,
            },
    {
        match try_eq_symbol(tokens, t, Symbol::Colon) {
            Ok(()) => match try_get_ty(tokens, t + 1) {
                Ok(ty) => Ok((t + 2, ty)),
                Err(err) => Err(err.max_after(place(tokens, t))),
            },
            Err(err) => {
                if err.is_wrong_token() {
                    Ok((t, Ty::Void))
                } else {
                    Err(err.max_after(place(tokens, t - 1)))
                }
            },
        }
    }

    /// Parses the statements from index `t` on, up to the closing brace, and
    /// returns the index after it with them.
    fn parse_body(tokens: &'f [Token<'f>], t: usize, lits: usize) -> (r: Result<
        (usize, Vec<Stmt<'f>>, usize),
        Error<'f>,
    >)
        requires
            0 < t <= tokens@.len(),
        ensures
            match body_parse(tokens_view(tokens@), t as int, Seq::empty(), lits) {
                Ok((len, stmts, lits)) => r is Ok && r->Ok_0.0 == len && views(r->Ok_0.1@)
                    == stmts && r->Ok_0.2 == lits && 0 < len <= tokens@.len(),
                Err(error) => r is Err && r->Err_0@ == error,
            },
    {
        let ghost tv = tokens_view(tokens@);
        let ghost whole = body_parse(tv, t as int, Seq::empty(), lits);
        let n = tokens.len();
        let mut stmts: Vec<Stmt<'f>> = Vec::new();
        let mut count = lits;
        let mut i: usize = t;
        assert(views(stmts@) =~= Seq::<StmtView>::empty());
        loop
            invariant
                tv == tokens_view(tokens@),
                n == tokens@.len(),
                0 < i <= n,
                whole == body_parse(tv, t as int, Seq::empty(), lits),
                body_parse(tv, i as int, views(stmts@), count) == whole,
            decreases n - i,
        {
            if i >= n {
                let mut handled = Stmt::handled();
                handled.push(TokenTy::Symbol(Symbol::RightBrace));
                return Err(Error::missing_token(handled, place(tokens, i - 1)));
            }
            assert(tv[i as int] == tokens@[i as int]@);
            if tokens[i].eq_symbol(Symbol::RightBrace) {
                return Ok((i + 1, stmts, count));
            }
            let (len, stmt, next) = match Stmt::parse(split(tokens, i), count) {
                Ok(found) => found,
                Err(err) => {
                    return Err(err.max_after(Some(tokens[i].pos)));
                },
            };
            let ghost before = stmts@;
            stmts.push(stmt);
            assert(views(stmts@) =~= views(before).push(stmt@));
            count = next;
            i += len;
        }
    }
}

impl<'a> Arg<'a> {
    /// A copy of this parameter that borrows its name.
    pub fn as_ref(&'a self) -> (r: Arg<'a>)
        ensures
            r@ == self@,
    {
        Arg { name: self.name.as_ref(), ty: self.ty.as_ref() }
    }
}

} // verus!
