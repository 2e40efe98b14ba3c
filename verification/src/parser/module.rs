use vstd::prelude::*;

use crate::lexer::tokens_view;
use crate::lexer::Ident;
use crate::lexer::Token;
use crate::lexer::TokenTy;
use crate::lexer::TokenView;
use crate::views;

use super::decl::decl_handled;
use super::decl::decl_parse;
use super::decl::Decl;
use super::decl::DeclView;
use super::decl::Func;
use super::decl::FuncView;
use super::error::Error;
use super::error::ErrorView;
use super::missing;
use super::one;
use super::split;

verus! {

/// A module: a name and the functions declared in it, in order.
#[derive(Debug)]
pub struct Module<'m> {
    pub name: Ident<'m>,
    pub funcs: Vec<Func<'m>>,
}

/// What a `Module` stands for.
pub struct ModuleView {
    pub name: Seq<char>,
    pub funcs: Seq<FuncView>,
}

impl<'m> View for Module<'m> {
    type V = ModuleView;

    open spec fn view(&self) -> ModuleView {
        ModuleView { name: self.name@, funcs: views(self.funcs@) }
    }
}

/// The kinds of token that a module can go on with.
pub open spec fn module_handled() -> Seq<TokenTy> {
    decl_handled().push(TokenTy::EOF)
}

/// The declarations of a module from index `t` on, after `funcs`, up to the
/// token that marks the end of the text. The result holds the index after
/// that token.
pub open spec fn module_parse(tokens: Seq<TokenView>, t: int, funcs: Seq<FuncView>, lits: usize)
    -> Result<(nat, Seq<FuncView>), ErrorView>
    decreases tokens.len() - t,
{
    if t < 0 || t >= tokens.len() {
        Err(missing(seq![TokenTy::EOF]))
    } else if tokens[t].token is EOF {
        Ok(((t + 1) as nat, funcs))
    } else {
        match decl_parse(tokens.skip(t), lits) {
            Ok((len, DeclView::Func(func), lits)) => {
                if len == 0 || t + len > tokens.len() {
                    Err(missing(Seq::empty()))
                } else {
                    module_parse(tokens, t + len, funcs.push(func), lits)
                }
            },
            Err(error) => Err(error),
        }
    }
}

impl<'m> Module<'m> {
    pub fn new(name: Ident<'m>) -> (r: Module<'m>)
        ensures
            r@ == (ModuleView { name: name@, funcs: Seq::empty() }),
    {
        let r = Module { name, funcs: Vec::new() };
        assert(views(r.funcs@) =~= Seq::<FuncView>::empty());
        r
    }

    pub fn handled() -> (r: Vec<TokenTy>)
        ensures
            r@ == module_handled(),
    {
        let mut handled = Decl::handled();
        handled.push(TokenTy::EOF);
        handled
    }

    /// Parses the declarations of `tokens` into this module and returns the
    /// index after the token that marks the end of the text.
    pub fn parse(&mut self, tokens: &'m [Token<'m>]) -> (r: Result<usize, Error<'m>>)
        ensures
            final(self).name == old(self).name,
            match module_parse(tokens_view(tokens@), 0, old(self)@.funcs, 0) {
                Ok((len, funcs)) => r == Ok::<usize, Error<'m>>(len as usize) && final(self)@.funcs
                    == funcs && 0 < len <= tokens@.len(),
                Err(error) => r is Err && r->Err_0@ == error,
            },
    {
        let ghost tv = tokens_view(tokens@);
        let ghost whole = module_parse(tv, 0, old(self)@.funcs, 0);
        let n = tokens.len();
        let mut count: usize = 0;
        let mut t: usize = 0;
        loop
            invariant
                tv == tokens_view(tokens@),
                n == tokens@.len(),
                t <= n,
                self.name == old(self).name,
                whole == module_parse(tv, 0, old(self)@.funcs, 0),
                module_parse(tv, t as int, self@.funcs, count) == whole,
            decreases n - t,
        {
            if t >= n {
                return Err(Error::missing_token(one(TokenTy::EOF), None));
            }
            assert(tv[t as int] == tokens@[t as int]@);
            if tokens[t].is_eof() {
                return Ok(t + 1);
            }
            let (len, decl, next) = match Decl::parse(split(tokens, t), count) {
                Ok(found) => found,
                Err(err) => {
                    return Err(err);
                },
            };
            match decl {
                Decl::Func(func) => {
                    let ghost before = self.funcs@;
                    self.funcs.push(func);
                    assert(views(self.funcs@) =~= views(before).push(func@));
                },
            }
            count = next;
            t += len;
        }
    }
}

} // verus!
