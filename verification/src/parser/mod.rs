use vstd::prelude::*;

use crate::lexer::Ident;
use crate::lexer::Keyword;
use crate::lexer::Position;
use crate::lexer::Symbol;
use crate::lexer::Token;
use crate::lexer::TokenTy;
use crate::lexer::TokenVariant;
use crate::lexer::TokenVariantView;
use crate::lexer::TokenView;
use crate::lexer::tokens_view;
use crate::ty::Ty;
use crate::ty::TyView;

pub mod decl;
pub mod error;
pub mod expr;
pub mod module;
pub mod stmt;

pub use error::Error;
pub use error::ErrorKind;
pub use error::ErrorView;
pub use module::Module;
pub use module::ModuleView;

use module::module_handled;
use module::module_parse;

verus! {

/// The module that `tokens` spell, under the name `main`: declarations up
/// to the token that marks the end of the text. At most one token may
/// follow, and only another such token.
pub open spec fn module_of(tokens: Seq<TokenView>) -> Result<ModuleView, ErrorView> {
    match module_parse(tokens, 0, Seq::empty(), 0) {
        Ok((len, funcs)) => {
            if len < tokens.len() - 1 || (len < tokens.len() && !(tokens[len as int].token is EOF)) {
                Err(
                    ErrorView::MissingToken {
                        handled: module_handled(),
                        after: pos_at(tokens, len as int),
                    },
                )
            } else {
                Ok(ModuleView { name: "main"@, funcs })
            }
        },
        Err(error) => Err(error),
    }
}

/// Parses the tokens of a source text into the module `main`.
pub fn parse<'t>(tokens: &'t [Token<'t>]) -> (r: Result<Module<'t>, Error<'t>>)
    ensures
        match module_of(tokens_view(tokens@)) {
            Ok(module) => r is Ok && r->Ok_0@ == module,
            Err(error) => r is Err && r->Err_0@ == error,
        },
{
    let mut module = Module::new(Ident::Owned("main".to_owned()));
    let t = match module.parse(tokens) {
        Ok(t) => t,
        Err(err) => {
            return Err(err);
        },
    };
    if t < tokens.len() - 1 || (t < tokens.len() && !tokens[t].is_eof()) {
        Err(Error::missing_token(Module::handled(), Some(tokens[t].pos)))
    } else {
        Ok(module)
    }
}

/// The place of the token at index `at`, where there is one.
pub open spec fn pos_at(tokens: Seq<TokenView>, at: int) -> Option<Position> {
    if 0 <= at < tokens.len() {
        Some(tokens[at].pos)
    } else {
        None
    }
}

/// The error for a token that is missing.
pub open spec fn missing(handled: Seq<TokenTy>) -> ErrorView {
    ErrorView::MissingToken { handled, after: None }
}

/// The error for a token that stands in the place of another.
pub open spec fn wrong(token: TokenView, handled: Seq<TokenTy>) -> ErrorView {
    ErrorView::WrongToken { token, handled }
}

/// The type that the token at index `at` names: a built-in type by its
/// keyword, a user's type by an identifier.
pub open spec fn expect_ty(tokens: Seq<TokenView>, at: int) -> Result<TyView, ErrorView> {
    if 0 <= at < tokens.len() {
        match tokens[at].token {
            TokenVariantView::Ty(ty) => Ok(ty),
            TokenVariantView::Ident(name) => Ok(TyView::User(name)),
            _ => Err(wrong(tokens[at], seq![TokenTy::Ty, TokenTy::Ident])),
        }
    } else {
        Err(missing(seq![TokenTy::Ty, TokenTy::Ident]))
    }
}

/// The text of the identifier at index `at`.
pub open spec fn expect_ident(tokens: Seq<TokenView>, at: int) -> Result<Seq<char>, ErrorView> {
    if 0 <= at < tokens.len() {
        match tokens[at].token {
            TokenVariantView::Ident(name) => Ok(name),
            _ => Err(wrong(tokens[at], seq![TokenTy::Ident])),
        }
    } else {
        Err(missing(seq![TokenTy::Ident]))
    }
}

/// Whether the token at index `at` is of kind `ty`, which is a keyword or a
/// symbol; `None` where it is, else the error.
pub open spec fn expect(tokens: Seq<TokenView>, at: int, ty: TokenTy) -> Option<ErrorView> {
    if 0 <= at < tokens.len() {
        let found = match (tokens[at].token, ty) {
            (TokenVariantView::Keyword(found), TokenTy::Keyword(keyword)) => found == keyword,
            (TokenVariantView::Symbol(found), TokenTy::Symbol(symbol)) => found == symbol,
            _ => false,
        };
        if found {
            None
        } else {
            Some(wrong(tokens[at], seq![ty]))
        }
    } else {
        Some(missing(seq![ty]))
    }
}

/// The list that holds `ty` alone.
pub fn one(ty: TokenTy) -> (r: Vec<TokenTy>)
    ensures
        r@ == seq![ty],
{
    let mut r: Vec<TokenTy> = Vec::new();
    r.push(ty);
    assert(r@ =~= seq![ty]);
    r
}

/// The list that holds `first` and `second`.
pub fn two(first: TokenTy, second: TokenTy) -> (r: Vec<TokenTy>)
    ensures
        r@ == seq![first, second],
{
    let mut r: Vec<TokenTy> = Vec::new();
    r.push(first);
    r.push(second);
    assert(r@ =~= seq![first, second]);
    r
}

/// The place of the token at index `at`, where there is one.
pub fn place<'t>(tokens: &'t [Token<'t>], at: usize) -> (r: Option<Position>)
    ensures
        r == pos_at(tokens_view(tokens@), at as int),
{
    if at < tokens.len() {
        Some(tokens[at].pos)
    } else {
        None
    }
}

/// The tokens from index `at` on; none where `at` is past the end.
pub fn split<'t>(tokens: &'t [Token<'t>], at: usize) -> (r: &'t [Token<'t>])
    ensures
        at <= tokens@.len() ==> r@ == tokens@.skip(at as int) && tokens_view(r@) == tokens_view(
            tokens@,
        ).skip(at as int),
        at >= tokens@.len() ==> r@.len() == 0,
{
    let n = tokens.len();
    let r = if at >= n {
        &tokens[n..n]
    } else {
        &tokens[at..n]
    };
    if at <= n {
        assert(r@ =~= tokens@.skip(at as int));
        assert(tokens_view(r@) =~= tokens_view(tokens@).skip(at as int));
    }
    r
}

pub fn try_get_ty<'t>(tokens: &'t [Token<'t>], at: usize) -> (r: Result<Ty<'t>, Error<'t>>)
    ensures
        match expect_ty(tokens_view(tokens@), at as int) {
            Ok(ty) => r is Ok && r->Ok_0@ == ty,
            Err(error) => r is Err && r->Err_0@ == error,
        },
        tokens@.len() <= usize::MAX,
{
    if at < tokens.len() {
        let token = &tokens[at];
        match &token.token {
            TokenVariant::Ty(ty) => Ok(ty.as_ref()),
            TokenVariant::Ident(ident) => Ok(Ty::User(ident.as_ref())),
            _ => Err(Error::wrong_token(token, two(TokenTy::Ty, TokenTy::Ident))),
        }
    } else {
        Err(Error::missing_token(two(TokenTy::Ty, TokenTy::Ident), None))
    }
}

pub fn try_get_ident<'t>(tokens: &'t [Token<'t>], at: usize) -> (r: Result<
    &'t Ident<'t>,
    Error<'t>,
>)
    ensures
        match expect_ident(tokens_view(tokens@), at as int) {
            Ok(name) => r is Ok && r->Ok_0@ == name,
            Err(error) => r is Err && r->Err_0@ == error,
        },
        tokens@.len() <= usize::MAX,
{
    if at < tokens.len() {
        let token = &tokens[at];
        match &token.token {
            TokenVariant::Ident(ident) => Ok(ident),
            _ => Err(Error::wrong_token(token, one(TokenTy::Ident))),
        }
    } else {
        Err(Error::missing_token(one(TokenTy::Ident), None))
    }
}

pub fn try_eq_keyword<'t>(tokens: &'t [Token<'t>], at: usize, keyword: Keyword) -> (r: Result<
    (),
    Error<'t>,
>)
    ensures
        match expect(tokens_view(tokens@), at as int, TokenTy::Keyword(keyword)) {
            None => r is Ok,
            Some(error) => r is Err && r->Err_0@ == error,
        },
        tokens@.len() <= usize::MAX,
{
    if at < tokens.len() {
        let token = &tokens[at];
        if token.eq_keyword(keyword) {
            Ok(())
        } else {
            Err(Error::wrong_token(token, one(TokenTy::Keyword(keyword))))
        }
    } else {
        Err(Error::missing_token(one(TokenTy::Keyword(keyword)), None))
    }
}

pub fn try_eq_symbol<'t>(tokens: &'t [Token<'t>], at: usize, symbol: Symbol) -> (r: Result<
    (),
    Error<'t>,
>)
    ensures
        match expect(tokens_view(tokens@), at as int, TokenTy::Symbol(symbol)) {
            None => r is Ok,
            Some(error) => r is Err && r->Err_0@ == error,
        },
        tokens@.len() <= usize::MAX,
{
    if at < tokens.len() {
        let token = &tokens[at];
        if token.eq_symbol(symbol) {
            Ok(())
        } else {
            Err(Error::wrong_token(token, one(TokenTy::Symbol(symbol))))
        }
    } else {
        Err(Error::missing_token(one(TokenTy::Symbol(symbol)), None))
    }
}

} // verus!
