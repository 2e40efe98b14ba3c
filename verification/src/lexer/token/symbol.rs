use vstd::prelude::*;

use super::super::error::Error;
use super::super::room;
use super::super::Source;
use super::done;
use super::fail;
use super::in_room;
use super::yields;
use super::Lexed;
use super::Position;
use super::Token;
use super::TokenVariant;
use super::TokenVariantView;

verus! {

/// The punctuation of the language.
#[derive(PartialEq, Eq, Structural, Copy, Clone, Debug)]
pub enum Symbol {
    Equal,
    LeftParen,
    RightParen,
    LeftBrace,
    RightBrace,
    Comma,
    Colon,
    SemiColon,
}

/// The symbol that a character spells, if it spells one.
pub open spec fn symbol_of(c: char) -> Option<Symbol> {
    if c == '=' {
        Some(Symbol::Equal)
    } else if c == '(' {
        Some(Symbol::LeftParen)
    } else if c == ')' {
        Some(Symbol::RightParen)
    } else if c == '{' {
        Some(Symbol::LeftBrace)
    } else if c == '}' {
        Some(Symbol::RightBrace)
    } else if c == ',' {
        Some(Symbol::Comma)
    } else if c == ':' {
        Some(Symbol::Colon)
    } else if c == ';' {
        Some(Symbol::SemiColon)
    } else {
        None
    }
}

/// The symbol at the start of `rest`, if one stands there.
pub open spec fn symbol_at(rest: Seq<char>, pos: Position) -> Lexed {
    if rest.len() > 0 && symbol_of(rest[0]) is Some {
        done(1, TokenVariantView::Symbol(symbol_of(rest[0])->Some_0), pos)
    } else {
        fail(pos)
    }
}

impl Symbol {
    /// The symbol that `c` spells.
    pub fn of(c: char) -> (r: Option<Symbol>)
        ensures
            r == symbol_of(c),
    {
        if c == '=' {
            Some(Symbol::Equal)
        } else if c == '(' {
            Some(Symbol::LeftParen)
        } else if c == ')' {
            Some(Symbol::RightParen)
        } else if c == '{' {
            Some(Symbol::LeftBrace)
        } else if c == '}' {
            Some(Symbol::RightBrace)
        } else if c == ',' {
            Some(Symbol::Comma)
        } else if c == ':' {
            Some(Symbol::Colon)
        } else if c == ';' {
            Some(Symbol::SemiColon)
        } else {
            None
        }
    }

    /// Reads a symbol at index `at`.
    pub fn lex<'i>(src: &Source<'i>, at: usize, pos: &mut Position) -> (r: Result<
        (usize, Token<'i>),
        Error,
    >)
        requires
            src.wf(),
            at <= src@.len(),
            room(*old(pos), src@.len() - at),
        ensures
            yields(r, *final(pos), at, symbol_at(src@.skip(at as int), *old(pos))),
            in_room(r, *final(pos), src@.len() as int),
    {
        let tpos = *pos;
        if at < src.len() {
            if let Some(symbol) = Symbol::of(src.get(at)) {
                pos.step(1);
                return Ok((at + 1, symbol.token(tpos)));
            }
        }
        Err(Error::not_handled(tpos))
    }

    fn token<'t>(self, pos: Position) -> (r: Token<'t>)
        ensures
            r@.token == TokenVariantView::Symbol(self),
            r@.pos == pos,
    {
        Token { token: TokenVariant::Symbol(self), pos }
    }
}

} // verus!
