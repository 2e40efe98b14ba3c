use vstd::prelude::*;

use crate::ty::Ty;
use crate::ty::TyView;

use super::super::error::Error;
use super::super::room;
use super::super::word_at;
use super::super::Source;
use super::done;
use super::fail;
use super::in_room;
use super::yields;
use super::Lexed;
use super::Position;
use super::Token;
use super::TokenVariant;
use super::TokenVariantView;

verus! {

/// The name of a built-in type at the start of `rest`, if one stands there
/// as a whole word.
pub open spec fn ty_at(rest: Seq<char>, pos: Position) -> Lexed {
    if word_at(rest, "i32"@) {
        done(3, TokenVariantView::Ty(TyView::I32), pos)
    } else if word_at(rest, "str"@) {
        done(3, TokenVariantView::Ty(TyView::Str), pos)
    } else if word_at(rest, "void"@) {
        done(4, TokenVariantView::Ty(TyView::Void), pos)
    } else {
        fail(pos)
    }
}

impl<'t> Ty<'t> {
    /// Reads the name of a built-in type at index `at`.
    pub fn lex(src: &Source<'t>, at: usize, pos: &mut Position) -> (r: Result<
        (usize, Token<'t>),
        Error,
    >)
        requires
            src.wf(),
            at <= src@.len(),
            room(*old(pos), src@.len() - at),
        ensures
            yields(r, *final(pos), at, ty_at(src@.skip(at as int), *old(pos))),
            in_room(r, *final(pos), src@.len() as int),
    {
        proof {
            reveal_strlit("i32");
            reveal_strlit("str");
            reveal_strlit("void");
        }
        let tpos = *pos;
        let n = src.len();
        if src.has_whole_word(at, "i32") {
            pos.step(3);
            Ok((at + 3, Ty::I32.token(tpos)))
        } else if src.has_whole_word(at, "str") {
            pos.step(3);
            Ok((at + 3, Ty::Str.token(tpos)))
        } else if src.has_whole_word(at, "void") {
            pos.step(4);
            Ok((at + 4, Ty::Void.token(tpos)))
        } else {
            Err(Error::not_handled(tpos))
        }
    }

    fn token(self, pos: Position) -> (r: Token<'t>)
        ensures
            r@.token == TokenVariantView::Ty(self@),
            r@.pos == pos,
    {
        Token { token: TokenVariant::Ty(self), pos }
    }
}

} // verus!
