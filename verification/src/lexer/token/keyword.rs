use vstd::prelude::*;

use super::super::error::Error;
use super::super::room;
use super::super::word_at;
use super::super::Source;
use super::done;
use super::fail;
use super::in_room;
use super::yields;
use super::Lexed;
use super::Position;
use super::Token;
use super::TokenVariant;
use super::TokenVariantView;

verus! {

/// The reserved words of the language.
#[derive(PartialEq, Eq, Structural, Copy, Clone, Debug)]
pub enum Keyword {
    Func,
    Let,
    Return,
}

/// The keyword at the start of `rest`, if one stands there as a whole word.
pub open spec fn keyword_at(rest: Seq<char>, pos: Position) -> Lexed {
    if word_at(rest, "func"@) {
        done(4, TokenVariantView::Keyword(Keyword::Func), pos)
    } else if word_at(rest, "let"@) {
        done(3, TokenVariantView::Keyword(Keyword::Let), pos)
    } else if word_at(rest, "return"@) {
        done(6, TokenVariantView::Keyword(Keyword::Return), pos)
    } else {
        fail(pos)
    }
}

impl Keyword {
    /// Reads a keyword at index `at`.
    pub fn lex<'i>(src: &Source<'i>, at: usize, pos: &mut Position) -> (r: Result<
        (usize, Token<'i>),
        Error,
    >)
        requires
            src.wf(),
            at <= src@.len(),
            room(*old(pos), src@.len() - at),
        ensures
            yields(r, *final(pos), at, keyword_at(src@.skip(at as int), *old(pos))),
            in_room(r, *final(pos), src@.len() as int),
    {
        proof {
            reveal_strlit("func");
            reveal_strlit("let");
            reveal_strlit("return");
        }
        let tpos = *pos;
        let n = src.len();
        if src.has_whole_word(at, "func") {
            pos.step(4);
            Ok((at + 4, Keyword::Func.token(tpos)))
        } else if src.has_whole_word(at, "let") {
            pos.step(3);
            Ok((at + 3, Keyword::Let.token(tpos)))
        } else if src.has_whole_word(at, "return") {
            pos.step(6);
            Ok((at + 6, Keyword::Return.token(tpos)))
        } else {
            Err(Error::not_handled(tpos))
        }
    }

    fn token<'t>(self, pos: Position) -> (r: Token<'t>)
        ensures
            r@.token == TokenVariantView::Keyword(self),
            r@.pos == pos,
    {
        Token { token: TokenVariant::Keyword(self), pos }
    }
}

} // verus!
