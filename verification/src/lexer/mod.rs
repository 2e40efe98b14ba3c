use vstd::prelude::*;

pub mod error;
pub mod places;
pub mod space;
pub mod token;

pub use error::Error;
pub use error::ErrorKind;
pub use token::DynStringSeg;
pub use token::Ident;
pub use token::Keyword;
pub use token::Literal;
pub use token::LiteralView;
pub use token::Position;
pub use token::SegView;
pub use token::Symbol;
pub use token::Token;
pub use token::TokenTy;
pub use token::TokenVariant;
pub use token::TokenVariantView;
pub use token::TokenView;
pub use token::tokens_view;
pub use token::Lexed;
pub use token::token_at;
pub use crate::ty::Ty;

verus! {

/// A letter of the alphabet the language is written in.
pub open spec fn is_alpha(c: char) -> bool {
    ('a' <= c && c <= 'z') || ('A' <= c && c <= 'Z')
}

/// A decimal digit.
pub open spec fn is_digit(c: char) -> bool {
    '0' <= c && c <= '9'
}

/// A character that can stand inside a word: a letter, a digit or `_`.
pub open spec fn is_word(c: char) -> bool {
    is_alpha(c) || is_digit(c) || c == '_'
}

/// A character that only separates tokens.
pub open spec fn is_space(c: char) -> bool {
    c == ' ' || c == '\t' || c == '\n'
}

/// Whether `rest` begins with the characters of `word`.
pub open spec fn starts_with(rest: Seq<char>, word: Seq<char>) -> bool {
    word.len() <= rest.len() && rest.subrange(0, word.len() as int) == word
}

/// Whether `rest` begins with `word` and the word ends there: no letter,
/// digit or `_` follows it.
pub open spec fn word_at(rest: Seq<char>, word: Seq<char>) -> bool {
    starts_with(rest, word) && (word.len() < rest.len() ==> !is_word(rest[word.len() as int]))
}

/// Whether the two characters `a`, `b` stand at index `k` of `rest`.
pub open spec fn pair_at(rest: Seq<char>, k: int, a: char, b: char) -> bool {
    0 <= k && k + 1 < rest.len() && rest[k] == a && rest[k + 1] == b
}

/// Whether a cursor at `pos` can be moved over `remaining` more characters
/// without leaving the range of `usize`: a character moves it by four
/// columns at most, or by one line.
pub open spec fn room(pos: Position, remaining: int) -> bool {
    pos.col + 4 * remaining <= usize::MAX && pos.line + remaining <= usize::MAX
}

pub fn char_is_alpha(c: char) -> (r: bool)
    ensures
        r == is_alpha(c),
{
    ('a' <= c && c <= 'z') || ('A' <= c && c <= 'Z')
}

pub fn char_is_digit(c: char) -> (r: bool)
    ensures
        r == is_digit(c),
{
    '0' <= c && c <= '9'
}

pub fn char_is_word(c: char) -> (r: bool)
    ensures
        r == is_word(c),
{
    char_is_alpha(c) || char_is_digit(c) || c == '_'
}

/// A source text together with its characters, so that the lexers can read
/// a character by its index and hand out slices of the text.
pub struct Source<'i> {
    text: &'i str,
    chars: Vec<char>,
}

impl<'i> View for Source<'i> {
    type V = Seq<char>;

    closed spec fn view(&self) -> Seq<char> {
        self.chars@
    }
}

impl<'i> Source<'i> {
    /// The characters are those of the text.
    pub closed spec fn wf(&self) -> bool {
        self.chars@ == self.text@
    }

    pub fn new(text: &'i str) -> (r: Source<'i>)
        ensures
            r.wf(),
            r@ == text@,
    {
        let mut chars: Vec<char> = Vec::new();
        for c in it: text.chars()
            invariant
                chars@ == it.seq().take(it.index() as int),
        {
            chars.push(c);
        }
        assert(chars@ =~= text@);
        Source { text, chars }
    }

    /// The number of characters.
    pub fn len(&self) -> (r: usize)
        ensures
            r == self@.len(),
    {
        self.chars.len()
    }

    /// The character at index `i`.
    pub fn get(&self, i: usize) -> (r: char)
        requires
            i < self@.len(),
        ensures
            r == self@[i as int],
    {
        self.chars[i]
    }

    /// Whether the character at index `i` exists and is `c`.
    pub fn is_at(&self, i: usize, c: char) -> (r: bool)
        ensures
            r == (i < self@.len() && self@[i as int] == c),
    {
        i < self.chars.len() && self.chars[i] == c
    }

    /// The text from character `from` up to character `to`.
    pub fn slice(&self, from: usize, to: usize) -> (r: &'i str)
        requires
            self.wf(),
            from <= to <= self@.len(),
        ensures
            r@ == self@.subrange(from as int, to as int),
    {
        self.text.substring_char(from, to)
    }

    /// Whether the characters of `word` stand at index `at`.
    pub fn has_word(&self, at: usize, word: &str) -> (r: bool)
        requires
            at <= self@.len(),
        ensures
            r == starts_with(self@.skip(at as int), word@),
    {
        let n = word.unicode_len();
        if n > self.chars.len() - at {
            return false;
        }
        let ghost rest = self@.skip(at as int);
        let mut k: usize = 0;
        while k < n
            invariant
                at + n <= self@.len() <= usize::MAX,
                n == word@.len(),
                k <= n,
                rest == self@.skip(at as int),
                forall|j: int| 0 <= j < k ==> rest[j] == word@[j],
            decreases n - k,
        {
            if self.chars[at + k] != word.get_char(k) {
                assert(rest.subrange(0, n as int)[k as int] != word@[k as int]);
                return false;
            }
            k += 1;
        }
        assert(rest.subrange(0, n as int) =~= word@);
        true
    }

    /// Whether `word` stands at index `at` and ends there.
    pub fn has_whole_word(&self, at: usize, word: &str) -> (r: bool)
        requires
            at <= self@.len(),
        ensures
            r == word_at(self@.skip(at as int), word@),
    {
        if !self.has_word(at, word) {
            return false;
        }
        let n = word.unicode_len();
        let len = self.chars.len();
        let end = at + n;
        !(end < self.chars.len() && char_is_word(self.chars[end]))
    }
}

/// `tokens` put before the tokens of a result.
pub open spec fn after(tokens: Seq<TokenView>, rest: Result<Seq<TokenView>, Position>) -> Result<
    Seq<TokenView>,
    Position,
> {
    match rest {
        Ok(more) => Ok(tokens + more),
        Err(at) => Err(at),
    }
}

/// The tokens of `rest`, read with the cursor at `pos`: spaces, tabs and
/// ends of lines between tokens only move the cursor (by one column, by
/// four columns, to the next line), comments yield nothing, and the token
/// that marks the end of the text comes last. Where no token starts at some
/// place, the result is the place that the lexer of tokens reports.
pub open spec fn tokens_from(rest: Seq<char>, pos: Position) -> Result<Seq<TokenView>, Position>
    decreases rest.len(),
{
    if rest.len() > 0 && rest[0] == ' ' {
        tokens_from(rest.skip(1), pos.right(1))
    } else if rest.len() > 0 && rest[0] == '\t' {
        tokens_from(rest.skip(1), pos.right(4))
    } else if rest.len() > 0 && rest[0] == '\n' {
        tokens_from(rest.skip(1), pos.down())
    } else {
        match token_at(rest, pos) {
            Lexed::Fail { at, cursor } => Err(at),
            Lexed::Done { len, token, cursor } => {
                let first = match token {
                    Some(token) => seq![token],
                    None => Seq::empty(),
                };
                if rest.len() == 0 || len == 0 || len > rest.len() {
                    Ok(first)
                } else {
                    after(first, tokens_from(rest.skip(len as int), cursor))
                }
            },
        }
    }
}

/// The tokens of a whole source text.
pub open spec fn tokens_of(text: Seq<char>) -> Result<Seq<TokenView>, Position> {
    tokens_from(text, Position { line: 0, col: 0 })
}

/// Whether no token stands at an earlier place than a token before it.
pub open spec fn positions_ordered(tokens: Seq<TokenView>) -> bool {
    forall|i: int, j: int| 0 <= i <= j < tokens.len() ==> tokens[i].pos.not_after(tokens[j].pos)
}

/// Putting tokens before a result twice is putting all of them before it.
pub proof fn lemma_after(
    a: Seq<TokenView>,
    b: Seq<TokenView>,
    rest: Result<Seq<TokenView>, Position>,
)
    ensures
        after(a, after(b, rest)) == after(a + b, rest),
{
    if let Ok(more) = rest {
        assert(a + (b + more) =~= (a + b) + more);
    }
}

/// Cuts a source text into its tokens. The result ends with the token that
/// marks the end of the text, and the tokens stand in the order of their
/// places. The text must be short enough for a cursor to move over it.
pub fn lex<'i>(input: &'i str) -> (r: Result<Vec<Token<'i>>, Error>)
    requires
        room(Position { line: 0, col: 0 }, input@.len() as int),
    ensures
        match tokens_of(input@) {
            Ok(tokens) => r is Ok && tokens_view(r->Ok_0@) == tokens,
            Err(at) => r == Err::<Vec<Token<'i>>, Error>(Error { kind: ErrorKind::NotHandled(at) }),
        },
        r matches Ok(tokens) ==> {
            &&& tokens@.len() > 0
            &&& tokens@.last()@.token is EOF
            &&& positions_ordered(tokens_view(tokens@))
        },
{
    let src = Source::new(input);
    let n = src.len();
    let mut tokens: Vec<Token<'i>> = Vec::new();
    let mut pos = Position { line: 0, col: 0 };
    let mut i: usize = 0;
    assert(src@.skip(0) =~= src@);
    assert(Seq::<TokenView>::empty() + tokens_view(tokens@) =~= tokens_view(tokens@));
    loop
        invariant
            src.wf(),
            src@ == input@,
            n == src@.len(),
            i <= n,
            room(pos, n - i),
            room(Position { line: 0, col: 0 }, input@.len() as int),
            after(tokens_view(tokens@), tokens_from(src@.skip(i as int), pos)) == tokens_of(
                input@,
            ),
        decreases n - i,
    {
        let ghost rest = src@.skip(i as int);
        assert(i < n ==> rest[0] == src@[i as int]);
        assert(i < n ==> rest.skip(1) =~= src@.skip(i + 1));
        if i < n && src.get(i) == ' ' {
            pos.step(1);
            i += 1;
        } else if i < n && src.get(i) == '\t' {
            pos.step(4);
            i += 1;
        } else if i < n && src.get(i) == '\n' {
            pos.newline();
            i += 1;
        } else {
            let ghost here = pos;
            let ghost seen = tokens@;
            let (end, token) = match Token::lex(&src, i, &mut pos) {
                Ok(found) => found,
                Err(err) => {
                    return Err(err);
                },
            };
            proof {
                assert(rest.skip(end - i) =~= src@.skip(end as int));
                lemma_after(
                    tokens_view(seen),
                    match token_at(rest, here) {
                        Lexed::Done { token: Some(token), .. } => seq![token],
                        _ => Seq::empty(),
                    },
                    tokens_from(src@.skip(end as int), pos),
                );
            }
            if let Some(token) = token {
                tokens.push(token);
                assert(tokens_view(tokens@) =~= tokens_view(seen) + seq![token@]);
            } else {
                assert(tokens_view(tokens@) + Seq::<TokenView>::empty() =~= tokens_view(tokens@));
            }
            if i >= n {
                proof {
                    reveal(token_at);
                    places::lemma_tokens_ordered(input@);
                }
                return Ok(tokens);
            }
            i = end;
        }
    }
}

/// The text from character `at` on; empty where `at` is past the end.
pub fn split<'a>(data: &'a str, at: usize) -> (r: &'a str)
    ensures
        r@ == (if at >= data@.len() {
            Seq::<char>::empty()
        } else {
            data@.skip(at as int)
        }),
{
    let n = data.unicode_len();
    if at >= n {
        data.substring_char(n, n)
    } else {
        data.substring_char(at, n)
    }
}

} // verus!
