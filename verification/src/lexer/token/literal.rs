use vstd::prelude::*;

use super::super::char_is_digit;
use super::super::error::Error;
use super::super::error::ErrorKind;
use super::super::is_digit;
use super::super::room;
use super::super::Source;
use super::done;
use super::fail;
use super::in_room;
use super::token_at;
use super::tokens_view;
use super::yields;
use super::Lexed;
use super::Position;
use super::Token;
use super::TokenVariant;
use super::TokenVariantView;
use super::TokenView;

verus! {

/// A literal as it stands in the source text.
#[derive(Debug)]
pub enum Literal<'l> {
    Int(i32),
    String(&'l str),
    DynString(Vec<DynStringSeg<'l>>),
}

/// One segment of an interpolated string: literal text, or the tokens of an
/// embedded expression.
#[derive(Debug)]
pub enum DynStringSeg<'s> {
    String(&'s str),
    Insert(Vec<Token<'s>>),
}

/// What a `Literal` stands for.
pub enum LiteralView {
    Int(i32),
    String(Seq<char>),
    DynString(Seq<SegView>),
}

/// What a `DynStringSeg` stands for.
pub enum SegView {
    String(Seq<char>),
    Insert(Seq<TokenView>),
}

pub open spec fn literal_view(lit: Literal) -> LiteralView
    decreases lit,
{
    match lit {
        Literal::Int(value) => LiteralView::Int(value),
        Literal::String(string) => LiteralView::String(string@),
        Literal::DynString(segs) => LiteralView::DynString(segs_view(segs@)),
    }
}

pub open spec fn seg_view(seg: DynStringSeg) -> SegView
    decreases seg,
{
    match seg {
        DynStringSeg::String(string) => SegView::String(string@),
        DynStringSeg::Insert(tokens) => SegView::Insert(tokens_view(tokens@)),
    }
}

/// The views of a sequence of segments, in order.
pub open spec fn segs_view(segs: Seq<DynStringSeg>) -> Seq<SegView>
    decreases segs,
{
    Seq::new(
        segs.len(),
        |i: int|
            if 0 <= i < segs.len() {
                seg_view(segs[i])
            } else {
                arbitrary()
            },
    )
}

/// How many digits stand in `rest` from index `k` on without a break.
pub open spec fn digit_run(rest: Seq<char>, k: int) -> nat
    decreases rest.len() - k,
{
    if 0 <= k < rest.len() && is_digit(rest[k]) {
        1 + digit_run(rest, k + 1)
    } else {
        0
    }
}

/// The number that a sequence of digits writes in base ten.
pub open spec fn decimal(digits: Seq<char>) -> nat
    decreases digits.len(),
{
    if digits.len() == 0 {
        0
    } else {
        (decimal(digits.drop_last()) * 10 + (digits.last() as int - '0' as int)) as nat
    }
}

/// The number at the start of `rest`: digits as far as they go, if another
/// character follows them and the number fits in an `i32`. Where there is
/// none, the place reported is the one after the digits.
pub open spec fn int_at(rest: Seq<char>, pos: Position) -> Lexed {
    let len = digit_run(rest, 0);
    let value = decimal(rest.subrange(0, len as int));
    if 0 < len < rest.len() && value <= i32::MAX {
        done(len, TokenVariantView::Literal(LiteralView::Int(value as i32)), pos)
    } else {
        Lexed::Fail { at: pos.right(len as int), cursor: pos }
    }
}

/// How the scan of a string ends.
pub enum Scan {
    /// The closing quote stands just before index `end`.
    Closed { end: int, cursor: Position },
    /// The text ends before the string does.
    Open { cursor: Position },
}

/// Scans a string from index `k` of `rest` on. `esc` says that the character
/// before was a backslash, which keeps a quote from closing the string. The
/// cursor moves one column over a character and to the next line over the
/// end of a line.
pub open spec fn string_scan(rest: Seq<char>, k: int, esc: bool, pos: Position) -> Scan
    decreases rest.len() - k,
{
    if k < 0 || k >= rest.len() {
        Scan::Open { cursor: pos }
    } else if rest[k] == '\\' {
        string_scan(rest, k + 1, true, pos.right(1))
    } else if rest[k] == '"' {
        if !esc {
            Scan::Closed { end: k + 1, cursor: pos.right(1) }
        } else {
            string_scan(rest, k + 1, false, pos.right(1))
        }
    } else if rest[k] == '\n' {
        string_scan(rest, k + 1, false, pos.down())
    } else {
        string_scan(rest, k + 1, false, pos.right(1))
    }
}

/// The string at the start of `rest`, which starts with `"`. Its text is
/// what stands between the quotes, backslashes included. The opening quote
/// does not move the cursor. A string that is not closed leaves the cursor
/// where it was and reports the end of the text.
pub open spec fn string_at(rest: Seq<char>, pos: Position) -> Lexed {
    match string_scan(rest, 1, false, pos) {
        Scan::Closed { end, cursor } => Lexed::Done {
            len: end as nat,
            token: Some(
                TokenView {
                    token: TokenVariantView::Literal(
                        LiteralView::String(rest.subrange(1, end - 1)),
                    ),
                    pos,
                },
            ),
            cursor,
        },
        Scan::Open { cursor } => Lexed::Fail { at: cursor, cursor: pos },
    }
}

/// How the scan of an interpolated string ends.
pub enum DynScan {
    /// The closing backtick stands just before index `end`; `segs` are the
    /// segments read since the scan began.
    Closed { end: int, segs: Seq<SegView>, cursor: Position },
    /// The text ends before the string does.
    Open { cursor: Position },
    /// No token starts at a place inside an embedded expression.
    Broken { at: Position, cursor: Position },
}

/// How the scan of an embedded expression ends.
pub enum InsertScan {
    /// The closing brace stands just before index `end`.
    Closed { end: int, tokens: Seq<TokenView>, cursor: Position },
    Open { cursor: Position },
    Broken { at: Position, cursor: Position },
}

/// `scan` with `segs` put before its segments.
pub open spec fn after_segs(segs: Seq<SegView>, scan: DynScan) -> DynScan {
    match scan {
        DynScan::Closed { end, segs: more, cursor } => DynScan::Closed {
            end,
            segs: segs + more,
            cursor,
        },
        other => other,
    }
}

/// `scan` with `tokens` put before its tokens.
pub open spec fn after_tokens(tokens: Seq<TokenView>, scan: InsertScan) -> InsertScan {
    match scan {
        InsertScan::Closed { end, tokens: more, cursor } => InsertScan::Closed {
            end,
            tokens: tokens + more,
            cursor,
        },
        other => other,
    }
}

/// Scans an interpolated string from index `k` of `rest` on. The text
/// segment being read began at index `start`. A backtick that no backslash
/// stands before closes the string; `${` ends the text segment and opens an
/// embedded expression, after which the next text segment begins.
pub open spec fn dyn_scan(rest: Seq<char>, k: int, start: int, esc: bool, pos: Position)
    -> DynScan
    decreases rest.len() - k, 3nat,
{
    if k < 0 || k >= rest.len() {
        DynScan::Open { cursor: pos }
    } else if rest[k] == '\\' {
        dyn_scan(rest, k + 1, start, true, pos.right(1))
    } else if rest[k] == '`' {
        if !esc {
            DynScan::Closed {
                end: k + 1,
                segs: seq![SegView::String(rest.subrange(start, k))],
                cursor: pos.right(1),
            }
        } else {
            dyn_scan(rest, k + 1, start, false, pos.right(1))
        }
    } else if rest[k] == '$' {
        if k + 1 < rest.len() && rest[k + 1] == '{' {
            match insert_scan(rest, k + 2, pos.right(2)) {
                InsertScan::Closed { end, tokens, cursor } => {
                    if k < end <= rest.len() {
                        after_segs(
                            seq![
                                SegView::String(rest.subrange(start, k)),
                                SegView::Insert(tokens),
                            ],
                            dyn_scan(rest, end, end, false, cursor),
                        )
                    } else {
                        DynScan::Open { cursor }
                    }
                },
                InsertScan::Open { cursor } => DynScan::Open { cursor },
                InsertScan::Broken { at, cursor } => DynScan::Broken { at, cursor },
            }
        } else {
            dyn_scan(rest, k + 1, start, false, pos.right(1))
        }
    } else if rest[k] == '\n' {
        dyn_scan(rest, k + 1, start, false, pos.down())
    } else {
        dyn_scan(rest, k + 1, start, false, pos.right(1))
    }
}

/// Scans an embedded expression from index `k` of `rest` on: tokens, one
/// directly after the other, up to the closing brace.
pub open spec fn insert_scan(rest: Seq<char>, k: int, pos: Position) -> InsertScan
    decreases rest.len() - k, 6nat,
{
    if k < 0 || k >= rest.len() {
        InsertScan::Open { cursor: pos }
    } else if rest[k] == '}' {
        InsertScan::Closed { end: k + 1, tokens: Seq::empty(), cursor: pos.right(1) }
    } else {
        match token_at(rest.skip(k), pos) {
            Lexed::Done { len, token, cursor } => {
                if len == 0 || k + len > rest.len() {
                    InsertScan::Open { cursor }
                } else {
                    after_tokens(
                        match token {
                            Some(token) => seq![token],
                            None => Seq::empty(),
                        },
                        insert_scan(rest, k + len, cursor),
                    )
                }
            },
            Lexed::Fail { at, cursor } => InsertScan::Broken { at, cursor },
        }
    }
}

/// The interpolated string at the start of `rest`, which starts with a
/// backtick. The opening backtick does not move the cursor. A string that
/// is not closed leaves the cursor where it was and reports the end of the
/// text; a place inside an embedded expression where no token starts is
/// reported as it is, and the cursor stays there.
pub open spec fn dyn_at(rest: Seq<char>, pos: Position) -> Lexed
    decreases rest.len(), 0nat,
{
    if rest.len() == 0 {
        fail(pos)
    } else {
        match dyn_scan(rest, 1, 1, false, pos) {
            DynScan::Closed { end, segs, cursor } => Lexed::Done {
                len: end as nat,
                token: Some(
                    TokenView {
                        token: TokenVariantView::Literal(LiteralView::DynString(segs)),
                        pos,
                    },
                ),
                cursor,
            },
            DynScan::Open { cursor } => Lexed::Fail { at: cursor, cursor: pos },
            DynScan::Broken { at, cursor } => Lexed::Fail { at, cursor },
        }
    }
}

/// The literal at the start of `rest`, if one stands there: a string after
/// `"`, an interpolated string after a backtick, else a number.
pub open spec fn literal_at(rest: Seq<char>, pos: Position) -> Lexed
    decreases rest.len(), 1nat,
{
    if rest.len() == 0 {
        fail(pos)
    } else if rest[0] == '"' {
        string_at(rest, pos)
    } else if rest[0] == '`' {
        dyn_at(rest, pos)
    } else {
        int_at(rest, pos)
    }
}

/// Putting segments before a scan twice is putting all of them before it.
pub proof fn lemma_after_segs(a: Seq<SegView>, b: Seq<SegView>, scan: DynScan)
    ensures
        after_segs(a, after_segs(b, scan)) == after_segs(a + b, scan),
{
    if let DynScan::Closed { end, segs, cursor } = scan {
        assert(a + (b + segs) =~= (a + b) + segs);
    }
}

/// Putting tokens before a scan twice is putting all of them before it.
pub proof fn lemma_after_tokens(a: Seq<TokenView>, b: Seq<TokenView>, scan: InsertScan)
    ensures
        after_tokens(a, after_tokens(b, scan)) == after_tokens(a + b, scan),
{
    if let InsertScan::Closed { end, tokens, cursor } = scan {
        assert(a + (b + tokens) =~= (a + b) + tokens);
    }
}

/// One more digit multiplies the number by ten and adds the digit.
pub proof fn lemma_decimal_step(rest: Seq<char>, k: int)
    requires
        0 <= k < rest.len(),
        is_digit(rest[k]),
    ensures
        decimal(rest.subrange(0, k + 1)) == decimal(rest.subrange(0, k)) * 10 + (rest[k] as int
            - '0' as int),
{
    assert(rest.subrange(0, k + 1).drop_last() =~= rest.subrange(0, k));
}

impl<'l> Literal<'l> {
    /// Reads a literal at index `at`.
    pub fn lex(src: &Source<'l>, at: usize, pos: &mut Position) -> (r: Result<
        (usize, Token<'l>),
        Error,
    >)
        requires
            src.wf(),
            at <= src@.len(),
            room(*old(pos), src@.len() - at),
        ensures
            yields(r, *final(pos), at, literal_at(src@.skip(at as int), *old(pos))),
            in_room(r, *final(pos), src@.len() as int),
            r matches Ok((end, _)) ==> at < end,
        decreases src@.len() - at, 1nat,
    {
        let n = src.len();
        if at >= n {
            return Err(Error::not_handled(*pos));
        }
        let first = src.get(at);
        if first == '"' {
            Literal::lex_string(src, at, pos)
        } else if first == '`' {
            Literal::lex_dyn(src, at, pos)
        } else {
            Literal::lex_int(src, at, pos)
        }
    }

    fn lex_int(src: &Source<'l>, at: usize, pos: &mut Position) -> (r: Result<
        (usize, Token<'l>),
        Error,
    >)
        requires
            src.wf(),
            at < src@.len(),
            room(*old(pos), src@.len() - at),
        ensures
            yields(r, *final(pos), at, int_at(src@.skip(at as int), *old(pos))),
            in_room(r, *final(pos), src@.len() as int),
            r matches Ok((end, _)) ==> at < end,
    {
        let n = src.len();
        let tpos = *pos;
        let ghost rest = src@.skip(at as int);
        let mut i: usize = at;
        let mut value: u64 = 0;
        let mut big = false;
        assert(rest.subrange(0, 0) =~= Seq::<char>::empty());
        while i < n && char_is_digit(src.get(i))
            invariant
                at <= i <= n,
                n == src@.len(),
                rest == src@.skip(at as int),
                digit_run(rest, 0) == (i - at) + digit_run(rest, i - at),
                !big ==> value == decimal(rest.subrange(0, i - at)) && value <= i32::MAX,
                big ==> decimal(rest.subrange(0, i - at)) > i32::MAX,
            decreases n - i,
        {
            let c = src.get(i);
            proof {
                assert(rest[i - at] == c);
                lemma_decimal_step(rest, i - at);
            }
            if !big {
                let digit = (c as u32 - '0' as u32) as u64;
                value = value * 10 + digit;
                if value > 0x7fff_ffff {
                    big = true;
                }
            }
            i += 1;
        }
        proof {
            assert(i < n ==> rest[i - at] == src@[i as int]);
            assert(digit_run(rest, i - at) == 0);
        }
        if i == at || i >= n || big {
            Err(Error::not_handled(Position { line: tpos.line, col: tpos.col + (i - at) }))
        } else {
            pos.step(i - at);
            Ok((i, Literal::Int(value as i32).token(tpos)))
        }
    }

    fn lex_string(src: &Source<'l>, at: usize, pos: &mut Position) -> (r: Result<
        (usize, Token<'l>),
        Error,
    >)
        requires
            src.wf(),
            at < src@.len(),
            room(*old(pos), src@.len() - at),
        ensures
            yields(r, *final(pos), at, string_at(src@.skip(at as int), *old(pos))),
            in_room(r, *final(pos), src@.len() as int),
            r matches Ok((end, _)) ==> at < end,
    {
        let n = src.len();
        let tpos = *pos;
        let ghost rest = src@.skip(at as int);
        let mut cur = *pos;
        let mut esc = false;
        let mut i: usize = at + 1;
        loop
            invariant
                src.wf(),
                n == src@.len(),
                rest == src@.skip(at as int),
                at + 1 <= i <= n,
                room(cur, n - i),
                *pos == tpos,
                tpos == *old(pos),
                string_scan(rest, i - at, esc, cur) == string_scan(rest, 1, false, tpos),
            decreases n - i,
        {
            if i >= n {
                return Err(Error::not_handled(cur));
            }
            let c = src.get(i);
            assert(rest[i - at] == c);
            if c == '\\' {
                esc = true;
                i += 1;
                cur.step(1);
            } else if c == '"' {
                i += 1;
                cur.step(1);
                if !esc {
                    *pos = cur;
                    assert(src@.subrange(at + 1, i - 1) =~= rest.subrange(1, i - at - 1));
                    return Ok((i, Literal::String(src.slice(at + 1, i - 1)).token(tpos)));
                }
                esc = false;
            } else if c == '\n' {
                i += 1;
                cur.newline();
                esc = false;
            } else {
                i += 1;
                cur.step(1);
                esc = false;
            }
        }
    }

    #[verifier::rlimit(50)]
    fn lex_dyn(src: &Source<'l>, at: usize, pos: &mut Position) -> (r: Result<
        (usize, Token<'l>),
        Error,
    >)
        requires
            src.wf(),
            at < src@.len(),
            room(*old(pos), src@.len() - at),
        ensures
            yields(r, *final(pos), at, dyn_at(src@.skip(at as int), *old(pos))),
            in_room(r, *final(pos), src@.len() as int),
            r matches Ok((end, _)) ==> at < end,
        decreases src@.len() - at, 0nat,
    {
        let n = src.len();
        let tpos = *pos;
        let ghost rest = src@.skip(at as int);
        let ghost whole = dyn_scan(rest, 1, 1, false, tpos);
        let mut cur = *pos;
        let mut esc = false;
        let mut segs: Vec<DynStringSeg<'l>> = Vec::new();
        let mut start: usize = at + 1;
        let mut i: usize = at + 1;
        loop
            invariant
                src.wf(),
                n == src@.len(),
                rest == src@.skip(at as int),
                at + 1 <= start <= i <= n,
                room(cur, n - i),
                *pos == tpos,
                tpos == *old(pos),
                whole == dyn_scan(rest, 1, 1, false, tpos),
                after_segs(segs_view(segs@), dyn_scan(rest, i - at, start - at, esc, cur)) == whole,
            decreases n - i,
        {
            if i >= n {
                return Err(Error::not_handled(cur));
            }
            let c = src.get(i);
            assert(rest[i - at] == c);
            assert(i + 1 < n ==> rest[i - at + 1] == src@[i + 1]);
            if c == '\\' {
                esc = true;
                i += 1;
                cur.step(1);
            } else if c == '`' {
                i += 1;
                cur.step(1);
                if !esc {
                    let text = src.slice(start, i - 1);
                    let ghost before = segs@;
                    segs.push(DynStringSeg::String(text));
                    *pos = cur;
                    proof {
                        assert(src@.subrange(start as int, i - 1) =~= rest.subrange(
                            start - at,
                            i - 1 - at,
                        ));
                        assert(segs_view(segs@) =~= segs_view(before) + seq![
                            SegView::String(text@),
                        ]);
                    }
                    return Ok((i, Literal::DynString(segs).token(tpos)));
                }
                esc = false;
            } else if c == '$' {
                if n - i >= 2 && src.is_at(i + 1, '{') {
                    let text = src.slice(start, i);
                    let ghost before = segs@;
                    cur.step(2);
                    let (j, tokens) = match Literal::lex_insert(src, at, i + 2, tpos, &mut cur) {
                        Ok(found) => found,
                        Err(err) => {
                            *pos = cur;
                            return Err(err);
                        },
                    };
                    segs.push(DynStringSeg::String(text));
                    segs.push(DynStringSeg::Insert(tokens));
                    proof {
                        assert(src@.subrange(start as int, i as int) =~= rest.subrange(
                            start - at,
                            i - at,
                        ));
                        let added = seq![
                            SegView::String(text@),
                            SegView::Insert(tokens_view(tokens@)),
                        ];
                        assert(segs_view(segs@) =~= segs_view(before) + added);
                        lemma_after_segs(
                            segs_view(before),
                            added,
                            dyn_scan(rest, j - at, j - at, false, cur),
                        );
                    }
                    i = j;
                    start = j;
                    esc = false;
                } else {
                    i += 1;
                    cur.step(1);
                    esc = false;
                }
            } else if c == '\n' {
                i += 1;
                cur.newline();
                esc = false;
            } else {
                i += 1;
                cur.step(1);
                esc = false;
            }
        }
    }

    /// Reads the tokens of an embedded expression of the interpolated string
    /// that starts at index `base`, from index `at` on, up to its closing
    /// brace. Where the text ends first, the cursor goes back to `home`.
    fn lex_insert(
        src: &Source<'l>,
        base: usize,
        at: usize,
        home: Position,
        pos: &mut Position,
    ) -> (r: Result<(usize, Vec<Token<'l>>), Error>)
        requires
            src.wf(),
            base < at <= src@.len(),
            room(*old(pos), src@.len() - at),
        ensures
            match insert_scan(src@.skip(base as int), at - base, *old(pos)) {
                InsertScan::Closed { end, tokens, cursor } => {
                    &&& r is Ok
                    &&& r->Ok_0.0 == base + end
                    &&& at < base + end <= src@.len()
                    &&& tokens_view(r->Ok_0.1@) == tokens
                    &&& *final(pos) == cursor
                    &&& room(cursor, src@.len() - (base + end))
                },
                InsertScan::Open { cursor } => r == Err::<(usize, Vec<Token<'l>>), Error>(
                    Error { kind: ErrorKind::NotHandled(cursor) },
                ) && *final(pos) == home,
                InsertScan::Broken { at: e, cursor } => r == Err::<(usize, Vec<Token<'l>>), Error>(
                    Error { kind: ErrorKind::NotHandled(e) },
                ) && *final(pos) == cursor,
            },
        decreases src@.len() - at, 3nat,
    {
        let n = src.len();
        let ghost rest = src@.skip(base as int);
        let ghost whole = insert_scan(rest, at - base, *pos);
        let mut tokens: Vec<Token<'l>> = Vec::new();
        let mut j: usize = at;
        assert(Seq::<TokenView>::empty() + tokens_view(tokens@) =~= tokens_view(tokens@));
        loop
            invariant
                src.wf(),
                n == src@.len(),
                rest == src@.skip(base as int),
                base < at <= j <= n,
                room(*pos, n - j),
                whole == insert_scan(rest, at - base, *old(pos)),
                after_tokens(tokens_view(tokens@), insert_scan(rest, j - base, *pos)) == whole,
            decreases n - j,
        {
            if j >= n {
                let err = Error::not_handled(*pos);
                *pos = home;
                return Err(err);
            }
            assert(rest[j - base] == src@[j as int]);
            if src.get(j) == '}' {
                j += 1;
                pos.step(1);
                assert(tokens_view(tokens@) + Seq::<TokenView>::empty() =~= tokens_view(
                    tokens@,
                ));
                return Ok((j, tokens));
            }
            let ghost here = *pos;
            let ghost seen = tokens@;
            assert(rest.skip(j - base) =~= src@.skip(j as int));
            match Token::lex(src, j, pos) {
                Ok((end, token)) => {
                    proof {
                        lemma_after_tokens(
                            tokens_view(seen),
                            match token_at(rest.skip(j - base), here) {
                                Lexed::Done { token: Some(token), .. } => seq![token],
                                _ => Seq::empty(),
                            },
                            insert_scan(rest, end - base, *pos),
                        );
                    }
                    if let Some(token) = token {
                        tokens.push(token);
                        assert(tokens_view(tokens@) =~= tokens_view(seen) + seq![token@]);
                    } else {
                        assert(tokens_view(tokens@) + Seq::<TokenView>::empty()
                            =~= tokens_view(tokens@));
                    }
                    j = end;
                },
                Err(err) => {
                    return Err(err);
                },
            }
        }
    }

    fn token(self, pos: Position) -> (r: Token<'l>)
        ensures
            r@.token == TokenVariantView::Literal(self@),
            r@.pos == pos,
    {
        Token { token: TokenVariant::Literal(self), pos }
    }
}

impl<'l> View for Literal<'l> {
    type V = LiteralView;

    open spec fn view(&self) -> LiteralView {
        literal_view(*self)
    }
}

impl<'s> View for DynStringSeg<'s> {
    type V = SegView;

    open spec fn view(&self) -> SegView {
        seg_view(*self)
    }
}

} // verus!
