use vstd::prelude::*;

use super::super::error::Error;
use super::super::is_alpha;
use super::super::is_word;
use super::super::char_is_alpha;
use super::super::char_is_word;
use super::super::room;
use super::super::Source;
use super::done;
use super::fail;
use super::in_room;
use super::yields;
use super::Lexed;
use super::Position;
use super::Token;
use super::TokenVariant;
use super::TokenVariantView;

verus! {

/// An identifier: a slice of the source text, or a name made up later.
/// Two identifiers are the same when their texts are.
#[derive(Debug)]
pub enum Ident<'i> {
    Ref(&'i str),
    Owned(String),
}

impl<'i> View for Ident<'i> {
    type V = Seq<char>;

    open spec fn view(&self) -> Seq<char> {
        match self {
            Ident::Ref(ident) => ident@,
            Ident::Owned(ident) => ident@,
        }
    }
}

/// `str`'s `==`: whether two string slices hold the same characters.
#[verifier::external_body]
pub(crate) fn str_eq(a: &str, b: &str) -> (r: bool)
    ensures
        r == (a@ == b@),
{
    a == b
}

/// How many letters, digits and `_` stand in `rest` from index `k` on
/// without a break.
pub open spec fn word_run(rest: Seq<char>, k: int) -> nat
    decreases rest.len() - k,
{
    if 0 <= k < rest.len() && is_word(rest[k]) {
        1 + word_run(rest, k + 1)
    } else {
        0
    }
}

/// The length of the identifier at the start of `rest`: a letter or `_`,
/// then letters, digits and `_` as far as they go; 0 where none starts.
pub open spec fn ident_len(rest: Seq<char>) -> nat {
    if rest.len() > 0 && (is_alpha(rest[0]) || rest[0] == '_') {
        1 + word_run(rest, 1)
    } else {
        0
    }
}

/// The identifier at the start of `rest`, if one stands there.
pub open spec fn ident_at(rest: Seq<char>, pos: Position) -> Lexed {
    let len = ident_len(rest);
    if len > 0 {
        done(len, TokenVariantView::Ident(rest.subrange(0, len as int)), pos)
    } else {
        fail(pos)
    }
}

impl<'i> Ident<'i> {
    /// Reads an identifier at index `at`.
    pub fn lex(src: &Source<'i>, at: usize, pos: &mut Position) -> (r: Result<
        (usize, Token<'i>),
        Error,
    >)
        requires
            src.wf(),
            at <= src@.len(),
            room(*old(pos), src@.len() - at),
        ensures
            yields(r, *final(pos), at, ident_at(src@.skip(at as int), *old(pos))),
            in_room(r, *final(pos), src@.len() as int),
    {
        let tpos = *pos;
        let n = src.len();
        let ghost rest = src@.skip(at as int);
        if at >= n {
            return Err(Error::not_handled(tpos));
        }
        let first = src.get(at);
        if !(char_is_alpha(first) || first == '_') {
            return Err(Error::not_handled(tpos));
        }
        let mut i: usize = at + 1;
        while i < n && char_is_word(src.get(i))
            invariant
                at < i <= n,
                n == src@.len(),
                rest == src@.skip(at as int),
                word_run(rest, 1) == (i - at - 1) + word_run(rest, i - at),
            decreases n - i,
        {
            i += 1;
        }
        proof {
            assert(i < n ==> rest[i - at] == src@[i as int]);
            assert(word_run(rest, i - at) == 0);
            assert(src@.subrange(at as int, i as int) =~= rest.subrange(0, i - at));
        }
        pos.step(i - at);
        Ok((i, Ident::Ref(src.slice(at, i)).token(tpos)))
    }

    fn token(self, pos: Position) -> (r: Token<'i>)
        ensures
            r@.token == TokenVariantView::Ident(self@),
            r@.pos == pos,
    {
        Token { token: TokenVariant::Ident(self), pos }
    }

    /// The text of the identifier.
    pub fn inner(&self) -> (r: &str)
        ensures
            r@ == self@,
    {
        match self {
            Ident::Ref(ident) => ident,
            Ident::Owned(ident) => ident.as_str(),
        }
    }

    /// An identifier with the same text that borrows it from this one.
    pub fn as_ref(&'i self) -> (r: Ident<'i>)
        ensures
            r@ == self@,
            r is Ref,
    {
        match self {
            Ident::Ref(ident) => Ident::Ref(ident),
            Ident::Owned(ident) => Ident::Ref(ident.as_str()),
        }
    }

    /// An identifier with the same text that lives as long as the text that
    /// this one borrows: a borrowed text is borrowed again, an owned one is
    /// copied.
    pub fn duplicate(&self) -> (r: Ident<'i>)
        ensures
            r@ == self@,
    {
        match self {
            Ident::Ref(ident) => Ident::Ref(ident),
            Ident::Owned(ident) => Ident::Owned(ident.clone()),
        }
    }

    /// Whether two identifiers have the same text, whichever way each holds it.
    pub fn same(&self, other: &Ident) -> (r: bool)
        ensures
            r == (self@ == other@),
    {
        str_eq(self.inner(), other.inner())
    }
}

impl<'i> Clone for Ident<'i> {
    fn clone(&self) -> (r: Self)
        ensures
            r@ == self@,
    {
        self.duplicate()
    }
}

impl<'i> PartialEq for Ident<'i> {
    fn eq(&self, other: &Ident<'i>) -> (r: bool) {
        str_eq(self.inner(), other.inner())
    }
}

impl<'i> vstd::std_specs::cmp::PartialEqSpecImpl for Ident<'i> {
    open spec fn obeys_eq_spec() -> bool {
        true
    }

    open spec fn eq_spec(&self, other: &Ident<'i>) -> bool {
        self@ == other@
    }
}

impl<'i> Eq for Ident<'i> {}

} // verus!
