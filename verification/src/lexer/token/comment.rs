use vstd::prelude::*;

use super::super::error::Error;
use super::super::error::ErrorKind;
use super::super::pair_at;
use super::super::room;
use super::super::Source;
use super::fail;
use super::Lexed;
use super::Position;

verus! {

/// The lexer of comments. A comment yields no token.
pub struct Comment;

/// Where a comment ends that is still open at index `k` of `rest`, with
/// `line` line comments and `block` block comments open, and where the cursor
/// stands then; `None` where the text ends first.
///
/// A `/*` opens a block comment and a `*/` closes one; the end of a line
/// closes a line comment. The cursor moves over the two characters of `/*`
/// and `*/` and to the next line at the end of a line, and stays where it is
/// over any other character of the comment.
pub open spec fn comment_scan(rest: Seq<char>, k: int, line: nat, block: nat, pos: Position)
    -> Option<(int, Position)>
    decreases rest.len() - k,
{
    if line == 0 && block == 0 {
        Some((k, pos))
    } else if k < 0 || k >= rest.len() {
        None
    } else if pair_at(rest, k, '/', '*') {
        comment_scan(rest, k + 2, line, block + 1, pos.right(2))
    } else if pair_at(rest, k, '*', '/') {
        comment_scan(rest, k + 2, line, if block > 0 { (block - 1) as nat } else { 0 }, pos.right(2))
    } else if rest[k] == '\n' {
        comment_scan(rest, k + 1, if line > 0 { (line - 1) as nat } else { 0 }, block, pos.down())
    } else {
        comment_scan(rest, k + 1, line, block, pos)
    }
}

/// The comment at the start of `rest`, if one starts there and ends within
/// the text: a line comment from `//`, or a block comment from `/*`. A
/// comment that does not end leaves the cursor where it was.
pub open spec fn comment_at(rest: Seq<char>, pos: Position) -> Lexed {
    let end = if pair_at(rest, 0, '/', '/') {
        comment_scan(rest, 2, 1, 0, pos.right(2))
    } else if pair_at(rest, 0, '/', '*') {
        comment_scan(rest, 2, 0, 1, pos.right(2))
    } else {
        None
    };
    match end {
        Some((len, cursor)) => Lexed::Done { len: len as nat, token: None, cursor },
        None => fail(pos),
    }
}

/// Whether the result `r` of the comment lexer, started at index `at`, and
/// the cursor it left at `cursor`, are what `out` says.
pub open spec fn skips(r: Result<usize, Error>, cursor: Position, at: usize, out: Lexed) -> bool {
    match out {
        Lexed::Done { len, token, cursor: c } => r == Ok::<usize, Error>((at + len) as usize)
            && at + len <= usize::MAX && cursor == c,
        Lexed::Fail { at: e, cursor: c } => r == Err::<usize, Error>(
            Error { kind: ErrorKind::NotHandled(e) },
        ) && cursor == c,
    }
}

impl Comment {
    /// Reads a comment at index `at` and returns the index after it.
    pub fn lex<'i>(src: &Source<'i>, at: usize, pos: &mut Position) -> (r: Result<usize, Error>)
        requires
            src.wf(),
            at <= src@.len(),
            room(*old(pos), src@.len() - at),
        ensures
            skips(r, *final(pos), at, comment_at(src@.skip(at as int), *old(pos))),
            r matches Ok(end) ==> at + 2 <= end <= src@.len() && room(
                *final(pos),
                src@.len() - end,
            ),
    {
        let n = src.len();
        let ghost rest = src@.skip(at as int);
        let mut tpos = *pos;
        let mut line: usize = 0;
        let mut block: usize = 0;
        if at >= n || n - at < 2 || !src.is_at(at, '/') {
            return Err(Error::not_handled(*pos));
        }
        if src.is_at(at + 1, '/') {
            line = 1;
        } else if src.is_at(at + 1, '*') {
            block = 1;
        } else {
            return Err(Error::not_handled(*pos));
        }
        tpos.step(2);
        let mut i: usize = at + 2;
        let ghost whole = comment_scan(rest, 2, line as nat, block as nat, tpos);
        loop
            invariant
                src.wf(),
                n == src@.len(),
                rest == src@.skip(at as int),
                at + 2 <= i <= n,
                line <= 1,
                block <= i - at,
                room(tpos, n - i),
                comment_scan(rest, i - at, line as nat, block as nat, tpos) == whole,
                whole is Some ==> comment_at(rest, *pos) == (Lexed::Done {
                    len: whole->Some_0.0 as nat,
                    token: None,
                    cursor: whole->Some_0.1,
                }),
                whole is None ==> comment_at(rest, *pos) == fail(*pos),
                *pos == *old(pos),
            ensures
                *pos == *old(pos),
                line == 0 && block == 0,
                at + 2 <= i <= n,
                room(tpos, n - i),
                whole == Some((i - at, tpos)),
            decreases n - i,
        {
            if line == 0 && block == 0 {
                break ;
            }
            if i >= n {
                return Err(Error::not_handled(*pos));
            }
            assert(rest[i - at] == src@[i as int]);
            assert(i + 1 < n ==> rest[i - at + 1] == src@[i + 1]);
            let c = src.get(i);
            if c == '/' && n - i >= 2 && src.is_at(i + 1, '*') {
                i += 2;
                tpos.step(2);
                block += 1;
            } else if c == '*' && n - i >= 2 && src.is_at(i + 1, '/') {
                i += 2;
                tpos.step(2);
                if block > 0 {
                    block -= 1;
                }
            } else if c == '\n' {
                i += 1;
                tpos.newline();
                if line > 0 {
                    line -= 1;
                }
            } else {
                i += 1;
            }
        }
        *pos = tpos;
        Ok(i)
    }
}

} // verus!
