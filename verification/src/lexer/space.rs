use vstd::prelude::*;

use crate::ty::TyView;

use super::after;
use super::is_space;
use super::token::comment::comment_at;
use super::token::comment::comment_scan;
use super::token::ident::ident_at;
use super::token::ident::ident_len;
use super::token::ident::word_run;
use super::token::literal::digit_run;
use super::is_digit;
use super::is_word;
use super::token::keyword::keyword_at;
use super::token::literal::after_segs;
use super::token::literal::after_tokens;
use super::token::literal::dyn_scan;
use super::token::literal::insert_scan;
use super::token::literal::literal_at;
use super::token::literal::string_scan;
use super::token::literal::DynScan;
use super::token::literal::InsertScan;
use super::token::literal::Scan;
use super::token::token_at;
use super::token::ty::ty_at;
use super::token::Lexed;
use super::tokens_from;
use super::Keyword;
use super::LiteralView;
use super::Position;
use super::SegView;
use super::Symbol;
use super::TokenVariantView;
use super::TokenView;

verus! {

/// What a token says, without the place where it stands.
pub enum Content {
    Keyword(Keyword),
    Ty(TyView),
    Ident(Seq<char>),
    Int(i32),
    String(Seq<char>),
    DynString(Seq<SegContent>),
    Symbol(Symbol),
    EOF,
}

/// What a segment of an interpolated string says, without the places of
/// its tokens.
pub enum SegContent {
    String(Seq<char>),
    Insert(Seq<Content>),
}

pub open spec fn content(token: TokenView) -> Content
    decreases token,
{
    match token.token {
        TokenVariantView::Keyword(keyword) => Content::Keyword(keyword),
        TokenVariantView::Ty(ty) => Content::Ty(ty),
        TokenVariantView::Ident(name) => Content::Ident(name),
        TokenVariantView::Literal(lit) => match lit {
            LiteralView::Int(value) => Content::Int(value),
            LiteralView::String(string) => Content::String(string),
            LiteralView::DynString(segs) => Content::DynString(seg_contents(segs)),
        },
        TokenVariantView::Symbol(symbol) => Content::Symbol(symbol),
        TokenVariantView::EOF => Content::EOF,
    }
}

pub open spec fn seg_content(seg: SegView) -> SegContent
    decreases seg,
{
    match seg {
        SegView::String(string) => SegContent::String(string),
        SegView::Insert(tokens) => SegContent::Insert(contents(tokens)),
    }
}

/// What the tokens say, in order.
pub open spec fn contents(tokens: Seq<TokenView>) -> Seq<Content>
    decreases tokens,
{
    Seq::new(
        tokens.len(),
        |i: int|
            if 0 <= i < tokens.len() {
                content(tokens[i])
            } else {
                arbitrary()
            },
    )
}

/// What the segments say, in order.
pub open spec fn seg_contents(segs: Seq<SegView>) -> Seq<SegContent>
    decreases segs,
{
    Seq::new(
        segs.len(),
        |i: int|
            if 0 <= i < segs.len() {
                seg_content(segs[i])
            } else {
                arbitrary()
            },
    )
}

/// Whether two lexers found the same: nothing both, or as many characters
/// and a token that says the same.
pub open spec fn alike(a: Lexed, b: Lexed) -> bool {
    match (a, b) {
        (Lexed::Done { len: l1, token: t1, .. }, Lexed::Done { len: l2, token: t2, .. }) => l1
            == l2 && match (t1, t2) {
            (Some(t1), Some(t2)) => content(t1) == content(t2),
            (None, None) => true,
            _ => false,
        },
        (Lexed::Fail { .. }, Lexed::Fail { .. }) => true,
        _ => false,
    }
}

/// Whether two scans of an interpolated string ended the same.
pub open spec fn dyn_alike(a: DynScan, b: DynScan) -> bool {
    match (a, b) {
        (DynScan::Closed { end: e1, segs: s1, .. }, DynScan::Closed { end: e2, segs: s2, .. }) => e1
            == e2 && seg_contents(s1) == seg_contents(s2),
        (DynScan::Closed { .. }, _) => false,
        (_, DynScan::Closed { .. }) => false,
        _ => true,
    }
}

/// Whether two scans of an embedded expression ended the same.
pub open spec fn insert_alike(a: InsertScan, b: InsertScan) -> bool {
    match (a, b) {
        (
            InsertScan::Closed { end: e1, tokens: t1, .. },
            InsertScan::Closed { end: e2, tokens: t2, .. },
        ) => e1 == e2 && contents(t1) == contents(t2),
        (InsertScan::Closed { .. }, _) => false,
        (_, InsertScan::Closed { .. }) => false,
        _ => true,
    }
}

/// Whether two texts were cut into tokens that say the same, or neither
/// could be cut.
pub open spec fn like(
    a: Result<Seq<TokenView>, Position>,
    b: Result<Seq<TokenView>, Position>,
) -> bool {
    match (a, b) {
        (Ok(a), Ok(b)) => contents(a) == contents(b),
        (Err(_), Err(_)) => true,
        _ => false,
    }
}

/// Where a comment ends does not depend on where the cursor stands.
pub proof fn lemma_comment_scan_alike(
    rest: Seq<char>,
    k: int,
    line: nat,
    block: nat,
    p: Position,
    q: Position,
)
    ensures
        match (comment_scan(rest, k, line, block, p), comment_scan(rest, k, line, block, q)) {
            (Some((e1, _)), Some((e2, _))) => e1 == e2,
            (None, None) => true,
            _ => false,
        },
    decreases rest.len() - k,
{
    if line == 0 && block == 0 {
    } else if k < 0 || k >= rest.len() {
    } else if super::pair_at(rest, k, '/', '*') {
        lemma_comment_scan_alike(rest, k + 2, line, block + 1, p.right(2), q.right(2));
    } else if super::pair_at(rest, k, '*', '/') {
        lemma_comment_scan_alike(
            rest,
            k + 2,
            line,
            if block > 0 {
                (block - 1) as nat
            } else {
                0
            },
            p.right(2),
            q.right(2),
        );
    } else if rest[k] == '\n' {
        lemma_comment_scan_alike(
            rest,
            k + 1,
            if line > 0 {
                (line - 1) as nat
            } else {
                0
            },
            block,
            p.down(),
            q.down(),
        );
    } else {
        lemma_comment_scan_alike(rest, k + 1, line, block, p, q);
    }
}

/// Where a string ends does not depend on where the cursor stands.
pub proof fn lemma_string_scan_alike(rest: Seq<char>, k: int, esc: bool, p: Position, q: Position)
    ensures
        match (string_scan(rest, k, esc, p), string_scan(rest, k, esc, q)) {
            (Scan::Closed { end: e1, .. }, Scan::Closed { end: e2, .. }) => e1 == e2,
            (Scan::Open { .. }, Scan::Open { .. }) => true,
            _ => false,
        },
    decreases rest.len() - k,
{
    if k < 0 || k >= rest.len() {
    } else if rest[k] == '\\' {
        lemma_string_scan_alike(rest, k + 1, true, p.right(1), q.right(1));
    } else if rest[k] == '"' {
        if esc {
            lemma_string_scan_alike(rest, k + 1, false, p.right(1), q.right(1));
        }
    } else if rest[k] == '\n' {
        lemma_string_scan_alike(rest, k + 1, false, p.down(), q.down());
    } else {
        lemma_string_scan_alike(rest, k + 1, false, p.right(1), q.right(1));
    }
}

/// Segments put before scans that ended the same give scans that ended
/// the same, where the segments say the same.
pub proof fn lemma_after_segs_alike(a: Seq<SegView>, b: Seq<SegView>, x: DynScan, y: DynScan)
    requires
        seg_contents(a) == seg_contents(b),
        dyn_alike(x, y),
    ensures
        dyn_alike(after_segs(a, x), after_segs(b, y)),
{
    if let DynScan::Closed { segs: s1, .. } = x {
        if let DynScan::Closed { segs: s2, .. } = y {
            assert(seg_contents(a + s1) =~= seg_contents(a) + seg_contents(s1));
            assert(seg_contents(b + s2) =~= seg_contents(b) + seg_contents(s2));
        }
    }
}

/// Tokens put before scans that ended the same give scans that ended the
/// same, where the tokens say the same.
pub proof fn lemma_after_tokens_alike(
    a: Seq<TokenView>,
    b: Seq<TokenView>,
    x: InsertScan,
    y: InsertScan,
)
    requires
        contents(a) == contents(b),
        insert_alike(x, y),
    ensures
        insert_alike(after_tokens(a, x), after_tokens(b, y)),
{
    if let InsertScan::Closed { tokens: t1, .. } = x {
        if let InsertScan::Closed { tokens: t2, .. } = y {
            assert(contents(a + t1) =~= contents(a) + contents(t1));
            assert(contents(b + t2) =~= contents(b) + contents(t2));
        }
    }
}

/// What an interpolated string holds does not depend on where the cursor
/// stands.
pub proof fn lemma_dyn_scan_alike(
    rest: Seq<char>,
    k: int,
    start: int,
    esc: bool,
    p: Position,
    q: Position,
)
    ensures
        dyn_alike(dyn_scan(rest, k, start, esc, p), dyn_scan(rest, k, start, esc, q)),
    decreases rest.len() - k, 3nat,
{
    if k < 0 || k >= rest.len() {
    } else if rest[k] == '\\' {
        lemma_dyn_scan_alike(rest, k + 1, start, true, p.right(1), q.right(1));
    } else if rest[k] == '`' {
        if esc {
            lemma_dyn_scan_alike(rest, k + 1, start, false, p.right(1), q.right(1));
        }
    } else if rest[k] == '$' {
        if k + 1 < rest.len() && rest[k + 1] == '{' {
            lemma_insert_scan_alike(rest, k + 2, p.right(2), q.right(2));
            let x = insert_scan(rest, k + 2, p.right(2));
            let y = insert_scan(rest, k + 2, q.right(2));
            if let InsertScan::Closed { end, tokens: t1, cursor: c1 } = x {
                if let InsertScan::Closed { tokens: t2, cursor: c2, .. } = y {
                    if k < end <= rest.len() {
                        lemma_dyn_scan_alike(rest, end, end, false, c1, c2);
                        let a = seq![SegView::String(rest.subrange(start, k)), SegView::Insert(t1)];
                        let b = seq![SegView::String(rest.subrange(start, k)), SegView::Insert(t2)];
                        assert(seg_contents(a) =~= seg_contents(b));
                        lemma_after_segs_alike(
                            a,
                            b,
                            dyn_scan(rest, end, end, false, c1),
                            dyn_scan(rest, end, end, false, c2),
                        );
                    }
                }
            }
        } else {
            lemma_dyn_scan_alike(rest, k + 1, start, false, p.right(1), q.right(1));
        }
    } else if rest[k] == '\n' {
        lemma_dyn_scan_alike(rest, k + 1, start, false, p.down(), q.down());
    } else {
        lemma_dyn_scan_alike(rest, k + 1, start, false, p.right(1), q.right(1));
    }
}

/// How the scan of an embedded expression goes on over a token.
pub proof fn lemma_insert_scan_step(rest: Seq<char>, k: int, pos: Position)
    requires
        0 <= k < rest.len(),
        rest[k] != '}',
    ensures
        insert_scan(rest, k, pos) == (match token_at(rest.skip(k), pos) {
            Lexed::Done { len, token, cursor } => {
                if len == 0 || k + len > rest.len() {
                    InsertScan::Open { cursor }
                } else {
                    after_tokens(
                        match token {
                            Some(token) => seq![token],
                            None => Seq::empty(),
                        },
                        insert_scan(rest, k + len, cursor),
                    )
                }
            },
            Lexed::Fail { at, cursor } => InsertScan::Broken { at, cursor },
        }),
{
    reveal(token_at);
}

/// What an embedded expression holds does not depend on where the cursor
/// stands.
pub proof fn lemma_insert_scan_alike(rest: Seq<char>, k: int, p: Position, q: Position)
    ensures
        insert_alike(insert_scan(rest, k, p), insert_scan(rest, k, q)),
    decreases rest.len() - k, 6nat,
{
    if k < 0 || k >= rest.len() {
    } else if rest[k] == '}' {
    } else {
        lemma_token_at_alike(rest.skip(k), p, q);
        lemma_insert_scan_step(rest, k, p);
        lemma_insert_scan_step(rest, k, q);
        let x = token_at(rest.skip(k), p);
        let y = token_at(rest.skip(k), q);
        if let Lexed::Done { len, token: t1, cursor: c1 } = x {
            if let Lexed::Done { token: t2, cursor: c2, .. } = y {
                if !(len == 0 || k + len > rest.len()) {
                    lemma_insert_scan_alike(rest, k + len, c1, c2);
                    let a = match t1 {
                        Some(token) => seq![token],
                        None => Seq::empty(),
                    };
                    let b = match t2 {
                        Some(token) => seq![token],
                        None => Seq::empty(),
                    };
                    assert(contents(a) =~= contents(b));
                    lemma_after_tokens_alike(
                        a,
                        b,
                        insert_scan(rest, k + len, c1),
                        insert_scan(rest, k + len, c2),
                    );
                }
            }
        }
    }
}

/// What stands at the start of a text does not depend on where the cursor
/// stands.
pub proof fn lemma_token_at_alike(rest: Seq<char>, p: Position, q: Position)
    ensures
        alike(token_at(rest, p), token_at(rest, q)),
    decreases rest.len(), 2nat,
{
    reveal(token_at);
    if rest.len() == 0 {
    } else {
        if super::pair_at(rest, 0, '/', '/') {
            lemma_comment_scan_alike(rest, 2, 1, 0, p.right(2), q.right(2));
        } else if super::pair_at(rest, 0, '/', '*') {
            lemma_comment_scan_alike(rest, 2, 0, 1, p.right(2), q.right(2));
        }
        if comment_at(rest, p) is Done {
        } else if ty_at(rest, p) is Done {
        } else if keyword_at(rest, p) is Done {
        } else if ident_at(rest, p) is Done {
        } else {
            if rest[0] == '"' {
                lemma_string_scan_alike(rest, 1, false, p, q);
            } else if rest[0] == '`' {
                lemma_dyn_scan_alike(rest, 1, 1, false, p, q);
            }
        }
    }
}

/// The tokens of a text say the same wherever the cursor starts.
pub proof fn lemma_tokens_from_alike(rest: Seq<char>, p: Position, q: Position)
    ensures
        like(tokens_from(rest, p), tokens_from(rest, q)),
    decreases rest.len(),
{
    if rest.len() > 0 && rest[0] == ' ' {
        lemma_tokens_from_alike(rest.skip(1), p.right(1), q.right(1));
    } else if rest.len() > 0 && rest[0] == '\t' {
        lemma_tokens_from_alike(rest.skip(1), p.right(4), q.right(4));
    } else if rest.len() > 0 && rest[0] == '\n' {
        lemma_tokens_from_alike(rest.skip(1), p.down(), q.down());
    } else {
        lemma_token_at_alike(rest, p, q);
        let x = token_at(rest, p);
        let y = token_at(rest, q);
        if let Lexed::Done { len, token: t1, cursor: c1 } = x {
            if let Lexed::Done { token: t2, cursor: c2, .. } = y {
                let a = match t1 {
                    Some(token) => seq![token],
                    None => Seq::empty(),
                };
                let b = match t2 {
                    Some(token) => seq![token],
                    None => Seq::empty(),
                };
                assert(contents(a) =~= contents(b));
                if !(rest.len() == 0 || len == 0 || len > rest.len()) {
                    lemma_tokens_from_alike(rest.skip(len as int), c1, c2);
                    lemma_after_like(
                        a,
                        b,
                        tokens_from(rest.skip(len as int), c1),
                        tokens_from(rest.skip(len as int), c2),
                    );
                }
            }
        }
    }
}

/// Tokens put before results that say the same give results that say the
/// same, where the tokens say the same.
pub proof fn lemma_after_like(
    a: Seq<TokenView>,
    b: Seq<TokenView>,
    x: Result<Seq<TokenView>, Position>,
    y: Result<Seq<TokenView>, Position>,
)
    requires
        contents(a) == contents(b),
        like(x, y),
    ensures
        like(after(a, x), after(b, y)),
{
    if let Ok(s1) = x {
        if let Ok(s2) = y {
            assert(contents(a + s1) =~= contents(a) + contents(s1));
            assert(contents(b + s2) =~= contents(b) + contents(s2));
        }
    }
}

/// Whether all characters of a text are spaces, tabs or ends of lines.
pub open spec fn all_space(space: Seq<char>) -> bool {
    forall|i: int| 0 <= i < space.len() ==> is_space(#[trigger] space[i])
}

/// Space before a text changes nothing of what its tokens say.
pub proof fn lemma_space_before(space: Seq<char>, rest: Seq<char>, p: Position, q: Position)
    requires
        all_space(space),
    ensures
        like(tokens_from(space + rest, p), tokens_from(rest, q)),
    decreases space.len(),
{
    if space.len() == 0 {
        assert(space + rest =~= rest);
        lemma_tokens_from_alike(rest, p, q);
    } else {
        let text = space + rest;
        assert(text[0] == space[0]);
        assert(text.skip(1) =~= space.skip(1) + rest);
        assert(all_space(space.skip(1))) by {
            assert forall|i: int| 0 <= i < space.skip(1).len() implies is_space(
                #[trigger] space.skip(1)[i],
            ) by {
                assert(space.skip(1)[i] == space[i + 1]);
            }
        }
        if text[0] == ' ' {
            lemma_space_before(space.skip(1), rest, p.right(1), q);
        } else if text[0] == '\t' {
            lemma_space_before(space.skip(1), rest, p.right(4), q);
        } else {
            lemma_space_before(space.skip(1), rest, p.down(), q);
        }
    }
}

/// Whether `other` has the first `len` characters of `rest`.
pub open spec fn same_start(rest: Seq<char>, other: Seq<char>, len: int) -> bool {
    &&& 0 <= len <= rest.len()
    &&& len <= other.len()
    &&& forall|i: int| 0 <= i < len ==> other[i] == rest[i]
}

/// Whether `other` has the first `len` characters of `rest` and goes on
/// with a space, a tab or an end of line, or with the character that `rest`
/// goes on with.
pub open spec fn agree(rest: Seq<char>, other: Seq<char>, len: int) -> bool {
    &&& same_start(rest, other, len)
    &&& len < other.len()
    &&& is_space(other[len]) || (len < rest.len() && other[len] == rest[len])
}

/// A comment that is open ends after the place where it is open, and
/// within the text.
pub proof fn lemma_comment_scan_bound(rest: Seq<char>, k: int, line: nat, block: nat, p: Position)
    requires
        0 <= k <= rest.len(),
    ensures
        comment_scan(rest, k, line, block, p) matches Some((end, _)) ==> k <= end <= rest.len()
            && (line > 0 || block > 0 ==> k < end),
    decreases rest.len() - k,
{
    if line == 0 && block == 0 {
    } else if k >= rest.len() {
    } else if super::pair_at(rest, k, '/', '*') {
        lemma_comment_scan_bound(rest, k + 2, line, block + 1, p.right(2));
    } else if super::pair_at(rest, k, '*', '/') {
        lemma_comment_scan_bound(
            rest,
            k + 2,
            line,
            if block > 0 {
                (block - 1) as nat
            } else {
                0
            },
            p.right(2),
        );
    } else if rest[k] == '\n' {
        lemma_comment_scan_bound(
            rest,
            k + 1,
            if line > 0 {
                (line - 1) as nat
            } else {
                0
            },
            block,
            p.down(),
        );
    } else {
        lemma_comment_scan_bound(rest, k + 1, line, block, p);
    }
}

/// A comment ends in the same place in every text that has its characters.
pub proof fn lemma_comment_scan_local(
    rest: Seq<char>,
    other: Seq<char>,
    k: int,
    line: nat,
    block: nat,
    p: Position,
)
    requires
        0 <= k <= rest.len(),
        comment_scan(rest, k, line, block, p) is Some,
        same_start(rest, other, comment_scan(rest, k, line, block, p)->Some_0.0),
    ensures
        comment_scan(other, k, line, block, p) == comment_scan(rest, k, line, block, p),
    decreases rest.len() - k,
{
    let end = comment_scan(rest, k, line, block, p)->Some_0.0;
    lemma_comment_scan_bound(rest, k, line, block, p);
    if line == 0 && block == 0 {
    } else if k >= rest.len() {
    } else if super::pair_at(rest, k, '/', '*') {
        lemma_comment_scan_bound(rest, k + 2, line, block + 1, p.right(2));
        lemma_comment_scan_local(rest, other, k + 2, line, block + 1, p.right(2));
    } else if super::pair_at(rest, k, '*', '/') {
        let less = if block > 0 {
            (block - 1) as nat
        } else {
            0
        };
        lemma_comment_scan_bound(rest, k + 2, line, less, p.right(2));
        lemma_comment_scan_local(rest, other, k + 2, line, less, p.right(2));
    } else if rest[k] == '\n' {
        let less = if line > 0 {
            (line - 1) as nat
        } else {
            0
        };
        lemma_comment_scan_bound(rest, k + 1, less, block, p.down());
        lemma_comment_scan_local(rest, other, k + 1, less, block, p.down());
    } else {
        lemma_comment_scan_bound(rest, k + 1, line, block, p);
        lemma_comment_scan_local(rest, other, k + 1, line, block, p);
    }
}

/// A string that is closed ends after the place where the scan stands, and
/// within the text.
pub proof fn lemma_string_scan_bound(rest: Seq<char>, k: int, esc: bool, p: Position)
    requires
        0 <= k <= rest.len(),
    ensures
        string_scan(rest, k, esc, p) matches Scan::Closed { end, .. } ==> k < end <= rest.len(),
    decreases rest.len() - k,
{
    if k >= rest.len() {
    } else if rest[k] == '\\' {
        lemma_string_scan_bound(rest, k + 1, true, p.right(1));
    } else if rest[k] == '"' {
        if esc {
            lemma_string_scan_bound(rest, k + 1, false, p.right(1));
        }
    } else if rest[k] == '\n' {
        lemma_string_scan_bound(rest, k + 1, false, p.down());
    } else {
        lemma_string_scan_bound(rest, k + 1, false, p.right(1));
    }
}

/// A string ends in the same place in every text that has its characters.
pub proof fn lemma_string_scan_local(
    rest: Seq<char>,
    other: Seq<char>,
    k: int,
    esc: bool,
    p: Position,
)
    requires
        0 <= k <= rest.len(),
        string_scan(rest, k, esc, p) is Closed,
        same_start(rest, other, string_scan(rest, k, esc, p)->Closed_end),
    ensures
        string_scan(other, k, esc, p) == string_scan(rest, k, esc, p),
    decreases rest.len() - k,
{
    lemma_string_scan_bound(rest, k, esc, p);
    if k >= rest.len() {
    } else if rest[k] == '\\' {
        lemma_string_scan_local(rest, other, k + 1, true, p.right(1));
    } else if rest[k] == '"' {
        if esc {
            lemma_string_scan_local(rest, other, k + 1, false, p.right(1));
        }
    } else if rest[k] == '\n' {
        lemma_string_scan_local(rest, other, k + 1, false, p.down());
    } else {
        lemma_string_scan_local(rest, other, k + 1, false, p.right(1));
    }
}

/// A run of word characters: they are word characters, and the run ends
/// at the end of the text or before another character.
pub proof fn lemma_word_run(rest: Seq<char>, k: int)
    requires
        0 <= k <= rest.len(),
    ensures
        k + word_run(rest, k) <= rest.len(),
        forall|i: int| k <= i < k + word_run(rest, k) ==> is_word(#[trigger] rest[i]),
        k + word_run(rest, k) < rest.len() ==> !is_word(rest[k + word_run(rest, k)]),
    decreases rest.len() - k,
{
    if k < rest.len() && is_word(rest[k]) {
        lemma_word_run(rest, k + 1);
    }
}

/// A run of word characters is as long in every text that has its
/// characters and goes on with another character.
pub proof fn lemma_word_run_local(rest: Seq<char>, other: Seq<char>, k: int, len: int)
    requires
        0 <= k <= len,
        len == k + word_run(rest, k),
        same_start(rest, other, len),
        len < other.len() ==> !is_word(other[len]),
    ensures
        word_run(other, k) == word_run(rest, k),
    decreases len - k,
{
    lemma_word_run(rest, k);
    if k < len {
        assert(is_word(rest[k]));
        lemma_word_run_local(rest, other, k + 1, len);
    }
}

/// A run of digits: they are digits, and the run ends at the end of the
/// text or before another character.
pub proof fn lemma_digit_run(rest: Seq<char>, k: int)
    requires
        0 <= k <= rest.len(),
    ensures
        k + digit_run(rest, k) <= rest.len(),
        forall|i: int| k <= i < k + digit_run(rest, k) ==> is_digit(#[trigger] rest[i]),
        k + digit_run(rest, k) < rest.len() ==> !is_digit(rest[k + digit_run(rest, k)]),
    decreases rest.len() - k,
{
    if k < rest.len() && is_digit(rest[k]) {
        lemma_digit_run(rest, k + 1);
    }
}

/// A run of digits is as long in every text that has its characters and
/// goes on with another character.
pub proof fn lemma_digit_run_local(rest: Seq<char>, other: Seq<char>, k: int, len: int)
    requires
        0 <= k <= len,
        len == k + digit_run(rest, k),
        same_start(rest, other, len),
        len < other.len() ==> !is_digit(other[len]),
    ensures
        digit_run(other, k) == digit_run(rest, k),
    decreases len - k,
{
    lemma_digit_run(rest, k);
    if k < len {
        assert(is_digit(rest[k]));
        lemma_digit_run_local(rest, other, k + 1, len);
    }
}

/// An interpolated string that is closed ends after the place where the
/// scan stands, and within the text.
pub proof fn lemma_dyn_scan_bound(rest: Seq<char>, k: int, start: int, esc: bool, p: Position)
    requires
        0 <= k <= rest.len(),
    ensures
        dyn_scan(rest, k, start, esc, p) matches DynScan::Closed { end, .. } ==> k < end
            <= rest.len(),
    decreases rest.len() - k,
{
    if k >= rest.len() {
    } else if rest[k] == '\\' {
        lemma_dyn_scan_bound(rest, k + 1, start, true, p.right(1));
    } else if rest[k] == '`' {
        if esc {
            lemma_dyn_scan_bound(rest, k + 1, start, false, p.right(1));
        }
    } else if rest[k] == '$' {
        if k + 1 < rest.len() && rest[k + 1] == '{' {
            if let InsertScan::Closed { end, cursor, .. } = insert_scan(rest, k + 2, p.right(2)) {
                if k < end <= rest.len() {
                    lemma_dyn_scan_bound(rest, end, end, false, cursor);
                }
            }
        } else {
            lemma_dyn_scan_bound(rest, k + 1, start, false, p.right(1));
        }
    } else if rest[k] == '\n' {
        lemma_dyn_scan_bound(rest, k + 1, start, false, p.down());
    } else {
        lemma_dyn_scan_bound(rest, k + 1, start, false, p.right(1));
    }
}

/// An embedded expression that is closed ends after the place where the
/// scan stands, and within the text.
pub proof fn lemma_insert_scan_bound(rest: Seq<char>, k: int, p: Position)
    requires
        0 <= k <= rest.len(),
    ensures
        insert_scan(rest, k, p) matches InsertScan::Closed { end, .. } ==> k < end <= rest.len(),
    decreases rest.len() - k,
{
    if k >= rest.len() {
    } else if rest[k] == '}' {
    } else {
        lemma_insert_scan_step(rest, k, p);
        if let Lexed::Done { len, cursor, .. } = token_at(rest.skip(k), p) {
            if !(len == 0 || k + len > rest.len()) {
                lemma_insert_scan_bound(rest, k + len, cursor);
            }
        }
    }
}

/// An interpolated string holds the same in every text that has its
/// characters.
pub proof fn lemma_dyn_scan_local(
    rest: Seq<char>,
    other: Seq<char>,
    k: int,
    start: int,
    esc: bool,
    p: Position,
)
    requires
        0 <= start <= k <= rest.len(),
        dyn_scan(rest, k, start, esc, p) is Closed,
        same_start(rest, other, dyn_scan(rest, k, start, esc, p)->Closed_end),
    ensures
        dyn_scan(other, k, start, esc, p) == dyn_scan(rest, k, start, esc, p),
    decreases rest.len() - k, 3nat,
{
    lemma_dyn_scan_bound(rest, k, start, esc, p);
    if k >= rest.len() {
    } else if rest[k] == '\\' {
        lemma_dyn_scan_local(rest, other, k + 1, start, true, p.right(1));
    } else if rest[k] == '`' {
        if esc {
            lemma_dyn_scan_local(rest, other, k + 1, start, false, p.right(1));
        } else {
            assert(other.subrange(start, k) =~= rest.subrange(start, k));
        }
    } else if rest[k] == '$' {
        if k + 1 < rest.len() && rest[k + 1] == '{' {
            let found = insert_scan(rest, k + 2, p.right(2));
            if let InsertScan::Closed { end, cursor, .. } = found {
                lemma_insert_scan_bound(rest, k + 2, p.right(2));
                lemma_dyn_scan_bound(rest, end, end, false, cursor);
                lemma_insert_scan_local(rest, other, k + 2, p.right(2));
                lemma_dyn_scan_local(rest, other, end, end, false, cursor);
                assert(other.subrange(start, k) =~= rest.subrange(start, k));
            }
        } else {
            lemma_dyn_scan_bound(rest, k + 1, start, false, p.right(1));
            lemma_dyn_scan_local(rest, other, k + 1, start, false, p.right(1));
        }
    } else if rest[k] == '\n' {
        lemma_dyn_scan_local(rest, other, k + 1, start, false, p.down());
    } else {
        lemma_dyn_scan_local(rest, other, k + 1, start, false, p.right(1));
    }
}

/// An embedded expression holds the same in every text that has its
/// characters.
pub proof fn lemma_insert_scan_local(rest: Seq<char>, other: Seq<char>, k: int, p: Position)
    requires
        0 <= k <= rest.len(),
        insert_scan(rest, k, p) is Closed,
        same_start(rest, other, insert_scan(rest, k, p)->Closed_end),
    ensures
        insert_scan(other, k, p) == insert_scan(rest, k, p),
    decreases rest.len() - k, 6nat,
{
    lemma_insert_scan_bound(rest, k, p);
    if k >= rest.len() {
    } else if rest[k] == '}' {
    } else {
        lemma_insert_scan_step(rest, k, p);
        lemma_insert_scan_step(other, k, p);
        if let Lexed::Done { len, cursor, .. } = token_at(rest.skip(k), p) {
            lemma_insert_scan_bound(rest, k + len, cursor);
            assert(agree(rest.skip(k), other.skip(k), len as int));
            lemma_token_at_local(rest.skip(k), other.skip(k), p);
            lemma_insert_scan_local(rest, other, k + len, cursor);
        }
    }
}

/// A word that stands at the start of a text and ends there does so in
/// every text that has its characters and goes on alike.
pub proof fn lemma_word_at_local(rest: Seq<char>, other: Seq<char>, word: Seq<char>)
    requires
        super::word_at(rest, word),
        agree(rest, other, word.len() as int),
    ensures
        super::word_at(other, word),
{
    assert(other.subrange(0, word.len() as int) =~= rest.subrange(0, word.len() as int));
}

/// A text that starts with a word starts with its first character.
pub proof fn lemma_starts_first(rest: Seq<char>, word: Seq<char>)
    requires
        super::starts_with(rest, word),
        word.len() > 0,
    ensures
        rest.len() > 0,
        rest[0] == word[0],
{
    assert(rest.subrange(0, word.len() as int)[0] == word[0]);
}

/// A word does not stand at the start of a text that starts with another
/// character.
pub proof fn lemma_word_at_first(other: Seq<char>, word: Seq<char>)
    requires
        word.len() > 0,
        other.len() > 0,
        other[0] != word[0],
    ensures
        !super::word_at(other, word),
{
    if super::starts_with(other, word) {
        assert(other.subrange(0, word.len() as int)[0] == word[0]);
    }
}

/// A word that does not stand whole at the start of a text that starts
/// with an identifier does not stand at the start of a text that has the
/// characters of the identifier and goes on alike.
pub proof fn lemma_word_at_ident(rest: Seq<char>, other: Seq<char>, word: Seq<char>)
    requires
        ident_len(rest) > 0,
        agree(rest, other, ident_len(rest) as int),
        !super::word_at(rest, word),
        word.len() > 0,
        forall|i: int| 0 <= i < word.len() ==> is_word(#[trigger] word[i]),
    ensures
        !super::word_at(other, word),
{
    let len = ident_len(rest) as int;
    let n = word.len() as int;
    lemma_word_run(rest, 1);
    if super::starts_with(other, word) {
        assert forall|i: int| 0 <= i < n implies other[i] == word[i] by {
            assert(other.subrange(0, n)[i] == word[i]);
        }
        if n < len {
            assert(is_word(rest[n]));
        } else if n == len {
            assert(rest.subrange(0, n) =~= word);
        } else {
            assert(is_word(word[len]));
        }
    }
}

/// What stands at the start of a text stands at the start of every text
/// that has its characters and goes on with a space, a tab or an end of
/// line, or with the same character.
pub proof fn lemma_token_at_local(rest: Seq<char>, other: Seq<char>, p: Position)
    requires
        token_at(rest, p) is Done,
        token_at(rest, p)->len > 0,
        agree(rest, other, token_at(rest, p)->len as int),
    ensures
        token_at(other, p) == token_at(rest, p),
    decreases rest.len(), 2nat,
{
    reveal(token_at);
    reveal_strlit("i32");
    reveal_strlit("str");
    reveal_strlit("void");
    reveal_strlit("func");
    reveal_strlit("let");
    reveal_strlit("return");
    let len = token_at(rest, p)->len as int;
    if comment_at(rest, p) is Done {
        let line: nat = if super::pair_at(rest, 0, '/', '/') {
            1
        } else {
            0
        };
        let block: nat = if line == 1 {
            0
        } else {
            1
        };
        lemma_comment_scan_bound(rest, 2, line, block, p.right(2));
        lemma_comment_scan_local(rest, other, 2, line, block, p.right(2));
    } else if ty_at(rest, p) is Done {
        if super::word_at(rest, "i32"@) {
            lemma_starts_first(rest, "i32"@);
            lemma_word_at_local(rest, other, "i32"@);
        } else if super::word_at(rest, "str"@) {
            lemma_starts_first(rest, "str"@);
            lemma_word_at_local(rest, other, "str"@);
            lemma_word_at_first(other, "i32"@);
        } else {
            lemma_starts_first(rest, "void"@);
            lemma_word_at_local(rest, other, "void"@);
            lemma_word_at_first(other, "i32"@);
            lemma_word_at_first(other, "str"@);
        }
    } else if keyword_at(rest, p) is Done {
        if super::word_at(rest, "func"@) {
            lemma_starts_first(rest, "func"@);
            lemma_word_at_local(rest, other, "func"@);
        } else if super::word_at(rest, "let"@) {
            lemma_starts_first(rest, "let"@);
            lemma_word_at_local(rest, other, "let"@);
            lemma_word_at_first(other, "func"@);
        } else {
            lemma_starts_first(rest, "return"@);
            lemma_word_at_local(rest, other, "return"@);
            lemma_word_at_first(other, "func"@);
            lemma_word_at_first(other, "let"@);
        }
        lemma_word_at_first(other, "i32"@);
        lemma_word_at_first(other, "str"@);
        lemma_word_at_first(other, "void"@);
    } else if ident_at(rest, p) is Done {
        lemma_word_at_ident(rest, other, "i32"@);
        lemma_word_at_ident(rest, other, "str"@);
        lemma_word_at_ident(rest, other, "void"@);
        lemma_word_at_ident(rest, other, "func"@);
        lemma_word_at_ident(rest, other, "let"@);
        lemma_word_at_ident(rest, other, "return"@);
        lemma_word_run(rest, 1);
        lemma_word_run_local(rest, other, 1, len);
        assert(other.subrange(0, len) =~= rest.subrange(0, len));
    } else {
        lemma_digit_run(rest, 0);
        lemma_word_at_first(other, "i32"@);
        lemma_word_at_first(other, "str"@);
        lemma_word_at_first(other, "void"@);
        lemma_word_at_first(other, "func"@);
        lemma_word_at_first(other, "let"@);
        lemma_word_at_first(other, "return"@);
        if literal_at(rest, p) is Done {
            if rest[0] == '"' {
                lemma_string_scan_bound(rest, 1, false, p);
                lemma_string_scan_local(rest, other, 1, false, p);
                assert(other.subrange(1, len - 1) =~= rest.subrange(1, len - 1));
            } else if rest[0] == '`' {
                lemma_dyn_scan_bound(rest, 1, 1, false, p);
                lemma_dyn_scan_local(rest, other, 1, 1, false, p);
            } else {
                lemma_digit_run_local(rest, other, 0, len);
                assert(other.subrange(0, len) =~= rest.subrange(0, len));
            }
        } else {
            assert(super::token::symbol::symbol_of(rest[0]) is Some);
            assert(digit_run(other, 0) == 0);
            assert(digit_run(rest, 0) == 0);
        }
    }
}

/// What stands at the start of a text that has characters takes up at
/// least one of them and none beyond the text.
pub proof fn lemma_token_at_bound(rest: Seq<char>, p: Position)
    requires
        rest.len() > 0,
    ensures
        token_at(rest, p) matches Lexed::Done { len, .. } ==> 0 < len <= rest.len(),
{
    reveal(token_at);
    reveal_strlit("i32");
    reveal_strlit("str");
    reveal_strlit("void");
    reveal_strlit("func");
    reveal_strlit("let");
    reveal_strlit("return");
    if comment_at(rest, p) is Done {
        if super::pair_at(rest, 0, '/', '/') {
            lemma_comment_scan_bound(rest, 2, 1, 0, p.right(2));
        } else {
            lemma_comment_scan_bound(rest, 2, 0, 1, p.right(2));
        }
    } else if ty_at(rest, p) is Done {
    } else if keyword_at(rest, p) is Done {
    } else if ident_at(rest, p) is Done {
        lemma_word_run(rest, 1);
    } else if literal_at(rest, p) is Done {
        if rest[0] == '"' {
            lemma_string_scan_bound(rest, 1, false, p);
        } else if rest[0] == '`' {
            lemma_dyn_scan_bound(rest, 1, 1, false, p);
        } else {
            lemma_digit_run(rest, 0);
        }
    }
}

/// Whether the place `k` characters into `rest` is one between tokens: the
/// start of the text, or the place just after a space, a tab, an end of
/// line, a comment or a token, where what stands before these was read
/// from a place between tokens too.
pub open spec fn between(rest: Seq<char>, k: int) -> bool
    decreases rest.len(),
{
    k == 0 || (0 < k <= rest.len() && (if is_space(rest[0]) {
        between(rest.skip(1), k - 1)
    } else {
        match token_at(rest, Position { line: 0, col: 0 }) {
            Lexed::Done { len, .. } => 0 < len <= k && between(rest.skip(len as int), k - len),
            Lexed::Fail { .. } => false,
        }
    }))
}

/// `text` with `space` put in `k` characters into it.
pub open spec fn widened(text: Seq<char>, k: int, space: Seq<char>) -> Seq<char> {
    text.subrange(0, k) + space + text.skip(k)
}

/// Spaces, tabs and ends of lines put into a text at a place between
/// tokens change nothing of what the tokens say, wherever the cursor
/// starts: the text can be cut into tokens exactly if it could before, and
/// the tokens say the same as before.
pub proof fn lemma_space_between_from(text: Seq<char>, k: int, space: Seq<char>, p: Position)
    requires
        between(text, k),
        all_space(space),
    ensures
        like(tokens_from(widened(text, k, space), p), tokens_from(text, p)),
    decreases text.len(),
{
    let wide = widened(text, k, space);
    if k == 0 {
        assert(wide =~= space + text);
        lemma_space_before(space, text, p, p);
    } else if space.len() == 0 {
        assert(wide =~= text);
        lemma_tokens_from_alike(text, p, p);
    } else if is_space(text[0]) {
        let next = if text[0] == ' ' {
            p.right(1)
        } else if text[0] == '\t' {
            p.right(4)
        } else {
            p.down()
        };
        assert(wide[0] == text[0]);
        assert(wide.skip(1) =~= widened(text.skip(1), k - 1, space));
        lemma_space_between_from(text.skip(1), k - 1, space, next);
    } else {
        let origin = Position { line: 0, col: 0 };
        lemma_token_at_alike(text, origin, p);
        let len = token_at(text, p)->len as int;
        let cursor = token_at(text, p)->Done_cursor;
        assert(wide[0] == text[0]);
        assert(agree(text, wide, len)) by {
            assert forall|i: int| 0 <= i < len implies wide[i] == text[i] by {}
            if len == k {
                assert(wide[len] == space[0]);
            } else {
                assert(wide[len] == text[len]);
            }
        }
        lemma_token_at_local(text, wide, p);
        assert(wide.skip(len) =~= widened(text.skip(len), k - len, space));
        lemma_space_between_from(text.skip(len), k - len, space, cursor);
        let first = match token_at(text, p)->token {
            Some(token) => seq![token],
            None => Seq::empty(),
        };
        lemma_after_like(
            first,
            first,
            tokens_from(wide.skip(len), cursor),
            tokens_from(text.skip(len), cursor),
        );
    }
}

/// Spaces, tabs and ends of lines put into a source text at a place
/// between tokens change nothing of what its tokens say.
pub proof fn lemma_space_between(text: Seq<char>, k: int, space: Seq<char>)
    requires
        between(text, k),
        all_space(space),
    ensures
        like(super::tokens_of(widened(text, k, space)), super::tokens_of(text)),
{
    lemma_space_between_from(text, k, space, Position { line: 0, col: 0 });
}

} // verus!
