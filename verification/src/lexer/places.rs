use vstd::prelude::*;

use super::pair_at;
use super::positions_ordered;
use super::room;
use super::space::lemma_digit_run;
use super::space::lemma_insert_scan_step;
use super::space::lemma_token_at_bound;
use super::space::lemma_word_run;
use super::token::comment::comment_at;
use super::token::comment::comment_scan;
use super::token::ident::ident_at;
use super::token::keyword::keyword_at;
use super::token::literal::dyn_scan;
use super::token::literal::insert_scan;
use super::token::literal::literal_at;
use super::token::literal::string_scan;
use super::token::literal::DynScan;
use super::token::literal::InsertScan;
use super::token::literal::Scan;
use super::token::token_at;
use super::token::ty::ty_at;
use super::token::Lexed;
use super::tokens_from;
use super::tokens_of;
use super::Position;

verus! {

/// Over a comment the cursor does not go back, and it keeps room for the
/// rest of the text.
pub proof fn lemma_comment_scan_moves(rest: Seq<char>, k: int, line: nat, block: nat, p: Position)
    requires
        0 <= k <= rest.len(),
        room(p, rest.len() - k),
    ensures
        comment_scan(rest, k, line, block, p) matches Some((end, cursor)) ==> p.not_after(cursor)
            && room(cursor, rest.len() - end),
    decreases rest.len() - k,
{
    if line == 0 && block == 0 {
    } else if k >= rest.len() {
    } else if pair_at(rest, k, '/', '*') {
        lemma_comment_scan_moves(rest, k + 2, line, block + 1, p.right(2));
    } else if pair_at(rest, k, '*', '/') {
        lemma_comment_scan_moves(
            rest,
            k + 2,
            line,
            if block > 0 {
                (block - 1) as nat
            } else {
                0
            },
            p.right(2),
        );
    } else if rest[k] == '\n' {
        lemma_comment_scan_moves(
            rest,
            k + 1,
            if line > 0 {
                (line - 1) as nat
            } else {
                0
            },
            block,
            p.down(),
        );
    } else {
        lemma_comment_scan_moves(rest, k + 1, line, block, p);
    }
}

/// Over a string the cursor does not go back, and it keeps room for the
/// rest of the text.
pub proof fn lemma_string_scan_moves(rest: Seq<char>, k: int, esc: bool, p: Position)
    requires
        0 <= k <= rest.len(),
        room(p, rest.len() - k),
    ensures
        string_scan(rest, k, esc, p) matches Scan::Closed { end, cursor } ==> p.not_after(cursor)
            && room(cursor, rest.len() - end),
    decreases rest.len() - k,
{
    if k >= rest.len() {
    } else if rest[k] == '\\' {
        lemma_string_scan_moves(rest, k + 1, true, p.right(1));
    } else if rest[k] == '"' {
        if esc {
            lemma_string_scan_moves(rest, k + 1, false, p.right(1));
        }
    } else if rest[k] == '\n' {
        lemma_string_scan_moves(rest, k + 1, false, p.down());
    } else {
        lemma_string_scan_moves(rest, k + 1, false, p.right(1));
    }
}

/// Over an interpolated string the cursor does not go back, and it keeps
/// room for the rest of the text.
pub proof fn lemma_dyn_scan_moves(rest: Seq<char>, k: int, start: int, esc: bool, p: Position)
    requires
        0 <= k <= rest.len(),
        room(p, rest.len() - k),
    ensures
        dyn_scan(rest, k, start, esc, p) matches DynScan::Closed { end, cursor, .. }
            ==> p.not_after(cursor) && room(cursor, rest.len() - end),
    decreases rest.len() - k, 3nat,
{
    if k >= rest.len() {
    } else if rest[k] == '\\' {
        lemma_dyn_scan_moves(rest, k + 1, start, true, p.right(1));
    } else if rest[k] == '`' {
        if esc {
            lemma_dyn_scan_moves(rest, k + 1, start, false, p.right(1));
        }
    } else if rest[k] == '$' {
        if k + 1 < rest.len() && rest[k + 1] == '{' {
            lemma_insert_scan_moves(rest, k + 2, p.right(2));
            if let InsertScan::Closed { end, cursor, .. } = insert_scan(rest, k + 2, p.right(2)) {
                if k < end <= rest.len() {
                    lemma_dyn_scan_moves(rest, end, end, false, cursor);
                }
            }
        } else {
            lemma_dyn_scan_moves(rest, k + 1, start, false, p.right(1));
        }
    } else if rest[k] == '\n' {
        lemma_dyn_scan_moves(rest, k + 1, start, false, p.down());
    } else {
        lemma_dyn_scan_moves(rest, k + 1, start, false, p.right(1));
    }
}

/// Over an embedded expression the cursor does not go back, and it keeps
/// room for the rest of the text.
pub proof fn lemma_insert_scan_moves(rest: Seq<char>, k: int, p: Position)
    requires
        0 <= k <= rest.len(),
        room(p, rest.len() - k),
    ensures
        insert_scan(rest, k, p) matches InsertScan::Closed { end, cursor, .. } ==> p.not_after(
            cursor,
        ) && room(cursor, rest.len() - end),
    decreases rest.len() - k, 6nat,
{
    if k >= rest.len() {
    } else if rest[k] == '}' {
    } else {
        lemma_insert_scan_step(rest, k, p);
        lemma_token_at_moves(rest.skip(k), p);
        if let Lexed::Done { len, cursor, .. } = token_at(rest.skip(k), p) {
            if !(len == 0 || k + len > rest.len()) {
                lemma_insert_scan_moves(rest, k + len, cursor);
            }
        }
    }
}

/// Over what stands at the start of a text the cursor does not go back,
/// and it keeps room for the rest of the text; a token stands where the
/// cursor stood.
pub proof fn lemma_token_at_moves(rest: Seq<char>, p: Position)
    requires
        room(p, rest.len() as int),
    ensures
        token_at(rest, p) matches Lexed::Done { len, token, cursor } ==> p.not_after(cursor)
            && len <= rest.len() && room(cursor, rest.len() - len) && (token matches Some(token)
            ==> token.pos == p),
    decreases rest.len(), 2nat,
{
    reveal(token_at);
    reveal_strlit("i32");
    reveal_strlit("str");
    reveal_strlit("void");
    reveal_strlit("func");
    reveal_strlit("let");
    reveal_strlit("return");
    if rest.len() > 0 {
        lemma_token_at_bound(rest, p);
    }
    if rest.len() == 0 {
    } else if comment_at(rest, p) is Done {
        if pair_at(rest, 0, '/', '/') {
            lemma_comment_scan_moves(rest, 2, 1, 0, p.right(2));
        } else {
            lemma_comment_scan_moves(rest, 2, 0, 1, p.right(2));
        }
    } else if ty_at(rest, p) is Done {
    } else if keyword_at(rest, p) is Done {
    } else if ident_at(rest, p) is Done {
        lemma_word_run(rest, 1);
    } else if literal_at(rest, p) is Done {
        if rest[0] == '"' {
            lemma_string_scan_moves(rest, 1, false, p);
        } else if rest[0] == '`' {
            lemma_dyn_scan_moves(rest, 1, 1, false, p);
        } else {
            lemma_digit_run(rest, 0);
        }
    } else {
        lemma_digit_run(rest, 0);
    }
}

/// The tokens of a text stand in the order of their places, none before
/// the place where the cursor started, and the last of them marks the end
/// of the text.
pub proof fn lemma_tokens_from_ordered(rest: Seq<char>, p: Position)
    requires
        room(p, rest.len() as int),
    ensures
        tokens_from(rest, p) matches Ok(tokens) ==> {
            &&& positions_ordered(tokens)
            &&& forall|i: int| 0 <= i < tokens.len() ==> p.not_after((#[trigger] tokens[i]).pos)
            &&& tokens.len() > 0
            &&& tokens.last().token is EOF
        },
    decreases rest.len(),
{
    if rest.len() > 0 && rest[0] == ' ' {
        lemma_tokens_from_ordered(rest.skip(1), p.right(1));
    } else if rest.len() > 0 && rest[0] == '\t' {
        lemma_tokens_from_ordered(rest.skip(1), p.right(4));
    } else if rest.len() > 0 && rest[0] == '\n' {
        lemma_tokens_from_ordered(rest.skip(1), p.down());
    } else {
        lemma_token_at_moves(rest, p);
        if rest.len() == 0 {
            reveal(token_at);
        } else {
            lemma_token_at_bound(rest, p);
            if let Lexed::Done { len, token, cursor } = token_at(rest, p) {
                lemma_tokens_from_ordered(rest.skip(len as int), cursor);
                if let Ok(more) = tokens_from(rest.skip(len as int), cursor) {
                    let first = match token {
                        Some(token) => seq![token],
                        None => Seq::empty(),
                    };
                    let all = first + more;
                    assert forall|i: int| 0 <= i < all.len() implies p.not_after(
                        (#[trigger] all[i]).pos,
                    ) by {
                        if i >= first.len() {
                            assert(all[i] == more[i - first.len()]);
                        }
                    }
                    assert forall|i: int, j: int| 0 <= i <= j < all.len() implies all[i].pos.not_after(
                        all[j].pos,
                    ) by {
                        if i >= first.len() {
                            assert(all[i] == more[i - first.len()]);
                            assert(all[j] == more[j - first.len()]);
                        } else if j >= first.len() {
                            assert(all[j] == more[j - first.len()]);
                        }
                    }
                    assert(all.last() == more.last());
                }
            }
        }
    }
}

/// The tokens of a source text that a cursor has room to move over stand
/// in the order of their places: no token stands at an earlier place than a
/// token before it, and of two tokens on different lines the later one
/// stands on the later line. The last of them marks the end of the text.
pub proof fn lemma_tokens_ordered(text: Seq<char>)
    requires
        room(Position { line: 0, col: 0 }, text.len() as int),
    ensures
        tokens_of(text) matches Ok(tokens) ==> {
            &&& positions_ordered(tokens)
            &&& forall|i: int, j: int|
                0 <= i <= j < tokens.len() && tokens[i].pos.line != tokens[j].pos.line
                    ==> tokens[i].pos.line < tokens[j].pos.line
            &&& tokens.len() > 0
            &&& tokens.last().token is EOF
        },
{
    lemma_tokens_from_ordered(text, Position { line: 0, col: 0 });
    if let Ok(tokens) = tokens_of(text) {
        assert forall|i: int, j: int|
            0 <= i <= j < tokens.len() && tokens[i].pos.line
                != tokens[j].pos.line implies tokens[i].pos.line < tokens[j].pos.line by {
            assert(tokens[i].pos.not_after(tokens[j].pos));
        }
    }
}

} // verus!
