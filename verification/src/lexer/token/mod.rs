use core::cmp::Ordering;
use vstd::std_specs::cmp::PartialOrdSpec;
use vstd::prelude::*;

use crate::ty::Ty;
use crate::ty::TyView;

pub mod comment;
pub mod ident;
pub mod keyword;
pub mod literal;
pub mod symbol;
pub mod ty;

pub use ident::Ident;
pub use keyword::Keyword;
pub use literal::DynStringSeg;
pub use literal::Literal;
pub use literal::LiteralView;
pub use literal::SegView;
pub use symbol::Symbol;

use literal::literal_view;
use literal::literal_at;
use comment::comment_at;
use ident::ident_at;
use keyword::keyword_at;
use symbol::symbol_at;
use ty::ty_at;
use super::error::Error;
use super::error::ErrorKind;
use super::room;
use super::Source;
use comment::Comment;

verus! {

/// A token and the place in the source where it starts.
#[derive(Debug)]
pub struct Token<'t> {
    pub token: TokenVariant<'t>,
    pub pos: Position,
}

#[derive(Debug)]
pub enum TokenVariant<'t> {
    Keyword(Keyword),
    Ty(Ty<'t>),
    Ident(Ident<'t>),
    Literal(Literal<'t>),
    Symbol(Symbol),
    EOF,
}

/// A place in the source text. Lines and columns count from zero.
#[derive(Default, PartialEq, Eq, Ord, Structural, Copy, Clone, Debug)]
pub struct Position {
    pub line: usize,
    pub col: usize,
}

/// The kind of a token, as far as a parser asks for one.
#[derive(PartialEq, Eq, Structural, Copy, Clone, Debug)]
pub enum TokenTy {
    Keyword(Keyword),
    Ty,
    Ident,
    Literal,
    Symbol(Symbol),
    EOF,
}

/// What a `Token` stands for.
pub struct TokenView {
    pub token: TokenVariantView,
    pub pos: Position,
}

/// What a `TokenVariant` stands for.
pub enum TokenVariantView {
    Keyword(Keyword),
    Ty(TyView),
    Ident(Seq<char>),
    Literal(LiteralView),
    Symbol(Symbol),
    EOF,
}

pub open spec fn token_view(token: Token) -> TokenView
    decreases token,
{
    TokenView { token: variant_view(token.token), pos: token.pos }
}

pub open spec fn variant_view(token: TokenVariant) -> TokenVariantView
    decreases token,
{
    match token {
        TokenVariant::Keyword(keyword) => TokenVariantView::Keyword(keyword),
        TokenVariant::Ty(ty) => TokenVariantView::Ty(ty@),
        TokenVariant::Ident(ident) => TokenVariantView::Ident(ident@),
        TokenVariant::Literal(lit) => TokenVariantView::Literal(literal_view(lit)),
        TokenVariant::Symbol(symbol) => TokenVariantView::Symbol(symbol),
        TokenVariant::EOF => TokenVariantView::EOF,
    }
}

/// The views of a sequence of tokens, in order.
pub open spec fn tokens_view(tokens: Seq<Token>) -> Seq<TokenView>
    decreases tokens,
{
    Seq::new(
        tokens.len(),
        |i: int|
            if 0 <= i < tokens.len() {
                token_view(tokens[i])
            } else {
                arbitrary()
            },
    )
}

impl<'t> View for Token<'t> {
    type V = TokenView;

    open spec fn view(&self) -> TokenView {
        token_view(*self)
    }
}

impl<'t> View for TokenVariant<'t> {
    type V = TokenVariantView;

    open spec fn view(&self) -> TokenVariantView {
        variant_view(*self)
    }
}

impl PartialOrd for Position {
    fn partial_cmp(&self, other: &Position) -> (r: Option<Ordering>) {
        if self.line < other.line {
            Some(Ordering::Less)
        } else if self.line > other.line {
            Some(Ordering::Greater)
        } else if self.col < other.col {
            Some(Ordering::Less)
        } else if self.col > other.col {
            Some(Ordering::Greater)
        } else {
            Some(Ordering::Equal)
        }
    }
}

impl vstd::std_specs::cmp::PartialOrdSpecImpl for Position {
    open spec fn obeys_partial_cmp_spec() -> bool {
        true
    }

    /// Places are ordered by line, then by column.
    open spec fn partial_cmp_spec(&self, other: &Position) -> Option<Ordering> {
        if self.line < other.line {
            Some(Ordering::Less)
        } else if self.line > other.line {
            Some(Ordering::Greater)
        } else if self.col < other.col {
            Some(Ordering::Less)
        } else if self.col > other.col {
            Some(Ordering::Greater)
        } else {
            Some(Ordering::Equal)
        }
    }
}

/// A place is at or before another exactly if it compares as less or
/// equal.
pub proof fn lemma_order(a: Position, b: Position)
    ensures
        a.not_after(b) <==> (a.partial_cmp_spec(&b) == Some(Ordering::Less) || a.partial_cmp_spec(
            &b,
        ) == Some(Ordering::Equal)),
        a.not_after(b) || b.not_after(a),
        a.not_after(b) && b.not_after(a) ==> a == b,
{
}

impl Position {
    /// The place `n` columns to the right on the same line.
    pub open spec fn right(self, n: int) -> Position {
        Position { line: self.line, col: (self.col + n) as usize }
    }

    /// The start of the next line.
    pub open spec fn down(self) -> Position {
        Position { line: (self.line + 1) as usize, col: 0 }
    }

    /// The order of places in a text: by line, then by column.
    pub open spec fn not_after(self, other: Position) -> bool {
        self.line < other.line || (self.line == other.line && self.col <= other.col)
    }

    /// The later of two places.
    pub open spec fn later_of(self, other: Position) -> Position {
        if self.not_after(other) {
            other
        } else {
            self
        }
    }

    /// Whether this place is at or before `other`.
    pub fn at_or_before(&self, other: &Position) -> (r: bool)
        ensures
            r == self.not_after(*other),
    {
        self.line < other.line || (self.line == other.line && self.col <= other.col)
    }
}

impl Position {
    /// Moves `n` columns to the right.
    pub fn step(&mut self, n: usize)
        requires
            old(self).col + n <= usize::MAX,
        ensures
            *final(self) == old(self).right(n as int),
    {
        self.col = self.col + n;
    }

    /// Moves to the start of the next line.
    pub fn newline(&mut self)
        requires
            old(self).line + 1 <= usize::MAX,
        ensures
            *final(self) == old(self).down(),
    {
        self.line = self.line + 1;
        self.col = 0;
    }
}

/// What a lexer finds at the start of a text.
pub enum Lexed {
    /// It read `len` characters and left the cursor at `cursor`. A comment
    /// yields no token.
    Done { len: nat, token: Option<TokenView>, cursor: Position },
    /// Nothing it knows starts here. `at` is the place it reports and
    /// `cursor` is where it leaves the cursor.
    Fail { at: Position, cursor: Position },
}

/// A token of `len` characters that starts at `pos`, on one line.
pub open spec fn done(len: nat, token: TokenVariantView, pos: Position) -> Lexed {
    Lexed::Done { len, token: Some(TokenView { token, pos }), cursor: pos.right(len as int) }
}

/// A lexer that gives up with the cursor where it was.
pub open spec fn fail(pos: Position) -> Lexed {
    Lexed::Fail { at: pos, cursor: pos }
}

/// What stands at the start of `rest`: the end of the text, or whatever the
/// first of these lexers finds that finds anything: comments, type names,
/// keywords, identifiers, literals, symbols. Where none does, the place
/// reported is where the cursor was left.
#[verifier::opaque]
pub open spec fn token_at(rest: Seq<char>, pos: Position) -> Lexed
    decreases rest.len(), 2nat,
{
    if rest.len() == 0 {
        Lexed::Done {
            len: 0,
            token: Some(TokenView { token: TokenVariantView::EOF, pos }),
            cursor: pos,
        }
    } else if comment_at(rest, pos) is Done {
        comment_at(rest, pos)
    } else if ty_at(rest, pos) is Done {
        ty_at(rest, pos)
    } else if keyword_at(rest, pos) is Done {
        keyword_at(rest, pos)
    } else if ident_at(rest, pos) is Done {
        ident_at(rest, pos)
    } else {
        match literal_at(rest, pos) {
            Lexed::Done { len, token, cursor } => Lexed::Done { len, token, cursor },
            Lexed::Fail { at, cursor } => match symbol_at(rest, cursor) {
                Lexed::Done { len, token, cursor } => Lexed::Done { len, token, cursor },
                Lexed::Fail { at, cursor } => Lexed::Fail { at: cursor, cursor },
            },
        }
    }
}

/// Whether the result `r` of a lexer of tokens, started at index `at`, and
/// the cursor it left at `cursor`, are what `out` says.
pub open spec fn yields(
    r: Result<(usize, Token), Error>,
    cursor: Position,
    at: usize,
    out: Lexed,
) -> bool {
    match out {
        Lexed::Done { len, token, cursor: c } => {
            &&& r is Ok
            &&& r->Ok_0.0 == at + len
            &&& token == Some(r->Ok_0.1@)
            &&& cursor == c
        },
        Lexed::Fail { at: e, cursor: c } => r == Err::<(usize, Token), Error>(
            Error { kind: ErrorKind::NotHandled(e) },
        ) && cursor == c,
    }
}

/// Whether a lexer that succeeded stopped inside a text of `len` characters
/// with room left for the cursor.
pub open spec fn in_room(r: Result<(usize, Token), Error>, cursor: Position, len: int) -> bool {
    r matches Ok((end, _)) ==> end <= len && room(cursor, len - end)
}

/// Whether the result `r` of the lexer of any token, started at index `at`,
/// and the cursor it left at `cursor`, are what `out` says.
pub open spec fn yields_any(
    r: Result<(usize, Option<Token>), Error>,
    cursor: Position,
    at: usize,
    out: Lexed,
) -> bool {
    match out {
        Lexed::Done { len, token, cursor: c } => {
            &&& r is Ok
            &&& r->Ok_0.0 == at + len
            &&& token == match r->Ok_0.1 {
                Some(token) => Some(token@),
                None => None,
            }
            &&& cursor == c
        },
        Lexed::Fail { at: e, cursor: c } => r == Err::<(usize, Option<Token>), Error>(
            Error { kind: ErrorKind::NotHandled(e) },
        ) && cursor == c,
    }
}

impl<'t> Token<'t> {
    /// Reads what stands at index `at`: a token, a comment (which yields no
    /// token), or the end of the text (which yields the token that marks it).
    pub fn lex(src: &Source<'t>, at: usize, pos: &mut Position) -> (r: Result<
        (usize, Option<Token<'t>>),
        Error,
    >)
        requires
            src.wf(),
            at <= src@.len(),
            room(*old(pos), src@.len() - at),
        ensures
            yields_any(r, *final(pos), at, token_at(src@.skip(at as int), *old(pos))),
            r matches Ok((end, _)) ==> {
                &&& end <= src@.len()
                &&& room(*final(pos), src@.len() - end)
                &&& at < src@.len() ==> at < end
            },
        decreases src@.len() - at, 2nat,
    {
        let n = src.len();
        if at >= n {
            proof {
                reveal(token_at);
            }
            return Ok((at, Some(Token { token: TokenVariant::EOF, pos: *pos })));
        }
        proof {
            reveal(token_at);
            reveal_strlit("i32");
            reveal_strlit("str");
            reveal_strlit("void");
            reveal_strlit("func");
            reveal_strlit("let");
            reveal_strlit("return");
        }
        match Comment::lex(src, at, pos) {
            Ok(end) => {
                return Ok((end, None));
            },
            Err(_) => {},
        }
        match Ty::lex(src, at, pos) {
            Ok((end, token)) => {
                return Ok((end, Some(token)));
            },
            Err(_) => {},
        }
        match Keyword::lex(src, at, pos) {
            Ok((end, token)) => {
                return Ok((end, Some(token)));
            },
            Err(_) => {},
        }
        match Ident::lex(src, at, pos) {
            Ok((end, token)) => {
                return Ok((end, Some(token)));
            },
            Err(_) => {},
        }
        match Literal::lex(src, at, pos) {
            Ok((end, token)) => {
                return Ok((end, Some(token)));
            },
            Err(_) => {
                // An interpolated string that broke off inside an embedded
                // expression has left the cursor there; a backtick is no symbol.
                if src.get(at) == '`' {
                    return Err(Error::not_handled(*pos));
                }
            },
        }
        match Symbol::lex(src, at, pos) {
            Ok((end, token)) => {
                return Ok((end, Some(token)));
            },
            Err(_) => {},
        }
        Err(Error::not_handled(*pos))
    }

    pub fn is_eof(&self) -> (r: bool)
        ensures
            r == (self@.token is EOF),
    {
        match self.token {
            TokenVariant::EOF => true,
            _ => false,
        }
    }

    pub fn eq_keyword(&self, keyword: Keyword) -> (r: bool)
        ensures
            r == (self@.token == TokenVariantView::Keyword(keyword)),
    {
        match self.token {
            TokenVariant::Keyword(keyword_) => keyword_ == keyword,
            _ => false,
        }
    }

    pub fn eq_symbol(&self, symbol: Symbol) -> (r: bool)
        ensures
            r == (self@.token == TokenVariantView::Symbol(symbol)),
    {
        match self.token {
            TokenVariant::Symbol(symbol_) => symbol_ == symbol,
            _ => false,
        }
    }
}

} // verus!
