use vstd::prelude::*;

use crate::lexer;
use crate::lexer::tokens_view;
use crate::lexer::Ident;
use crate::lexer::Symbol;
use crate::lexer::Token;
use crate::lexer::TokenTy;
use crate::lexer::TokenVariant;
use crate::lexer::TokenVariantView;
use crate::lexer::TokenView;

use super::error::concat;
use super::error::max_after;
use super::error::Error;
use super::error::ErrorView;
use super::expect;
use super::expect_ident;
use super::missing;
use super::one;
use super::place;
use super::pos_at;
use super::split;
use super::try_eq_symbol;
use super::try_get_ident;
use super::wrong;

verus! {

/// An expression.
#[derive(Debug)]
pub enum Expr<'e> {
    Literal(Literal<'e>),
    Func(Func<'e>),
    Var(Ident<'e>),
}

/// A literal with the name it was given, under which the generated code
/// holds its value.
#[derive(Debug)]
pub enum Literal<'l> {
    Int { name: Ident<'l>, value: i32 },
    String { name: Ident<'l>, string: &'l str },
    DynString { name: Ident<'l>, segs: Vec<DynStringSeg<'l>> },
}

/// One segment of an interpolated string: literal text, or an embedded
/// expression.
#[derive(Debug)]
pub enum DynStringSeg<'s> {
    String(&'s str),
    Expr(Expr<'s>),
}

/// A call of the function `name`.
#[derive(Debug)]
pub struct Func<'f> {
    pub name: Ident<'f>,
    pub args: Args<'f>,
}

/// The arguments of a call, in order.
#[derive(Debug)]
pub struct Args<'a>(pub Vec<Expr<'a>>);

/// What an `Expr` stands for.
pub enum ExprView {
    Literal(LiteralView),
    Func(FuncView),
    Var(Seq<char>),
}

/// What a `Literal` stands for.
pub enum LiteralView {
    Int { name: Seq<char>, value: i32 },
    String { name: Seq<char>, string: Seq<char> },
    DynString { name: Seq<char>, segs: Seq<SegView> },
}

/// What a `DynStringSeg` stands for.
pub enum SegView {
    String(Seq<char>),
    Expr(ExprView),
}

/// What a `Func` stands for.
pub struct FuncView {
    pub name: Seq<char>,
    pub args: Seq<ExprView>,
}

pub open spec fn expr_view(expr: Expr) -> ExprView
    decreases expr,
{
    match expr {
        Expr::Literal(lit) => ExprView::Literal(literal_view(lit)),
        Expr::Func(func) => ExprView::Func(
            FuncView { name: func.name@, args: exprs_view(func.args.0@) },
        ),
        Expr::Var(var) => ExprView::Var(var@),
    }
}

pub open spec fn literal_view(lit: Literal) -> LiteralView
    decreases lit,
{
    match lit {
        Literal::Int { name, value } => LiteralView::Int { name: name@, value },
        Literal::String { name, string } => LiteralView::String { name: name@, string: string@ },
        Literal::DynString { name, segs } => LiteralView::DynString {
            name: name@,
            segs: segs_view(segs@),
        },
    }
}

pub open spec fn seg_view(seg: DynStringSeg) -> SegView
    decreases seg,
{
    match seg {
        DynStringSeg::String(string) => SegView::String(string@),
        DynStringSeg::Expr(expr) => SegView::Expr(expr_view(expr)),
    }
}

/// The views of a sequence of expressions, in order.
pub open spec fn exprs_view(exprs: Seq<Expr>) -> Seq<ExprView>
    decreases exprs,
{
    Seq::new(
        exprs.len(),
        |i: int|
            if 0 <= i < exprs.len() {
                expr_view(exprs[i])
            } else {
                arbitrary()
            },
    )
}

/// The views of a sequence of segments, in order.
pub open spec fn segs_view(segs: Seq<DynStringSeg>) -> Seq<SegView>
    decreases segs,
{
    Seq::new(
        segs.len(),
        |i: int|
            if 0 <= i < segs.len() {
                seg_view(segs[i])
            } else {
                arbitrary()
            },
    )
}

impl<'e> View for Expr<'e> {
    type V = ExprView;

    open spec fn view(&self) -> ExprView {
        expr_view(*self)
    }
}

impl<'l> View for Literal<'l> {
    type V = LiteralView;

    open spec fn view(&self) -> LiteralView {
        literal_view(*self)
    }
}

impl<'s> View for DynStringSeg<'s> {
    type V = SegView;

    open spec fn view(&self) -> SegView {
        seg_view(*self)
    }
}

impl<'f> View for Func<'f> {
    type V = FuncView;

    open spec fn view(&self) -> FuncView {
        FuncView { name: self.name@, args: exprs_view(self.args.0@) }
    }
}

impl<'a> View for Args<'a> {
    type V = Seq<ExprView>;

    open spec fn view(&self) -> Seq<ExprView> {
        exprs_view(self.0@)
    }
}

/// The character that writes a number below ten.
pub open spec fn digit(d: nat) -> char {
    if d == 0 {
        '0'
    } else if d == 1 {
        '1'
    } else if d == 2 {
        '2'
    } else if d == 3 {
        '3'
    } else if d == 4 {
        '4'
    } else if d == 5 {
        '5'
    } else if d == 6 {
        '6'
    } else if d == 7 {
        '7'
    } else if d == 8 {
        '8'
    } else {
        '9'
    }
}

/// The digits of `n` in base ten.
pub open spec fn digits(n: nat) -> Seq<char>
    decreases n,
{
    if n < 10 {
        seq![digit(n)]
    } else {
        digits(n / 10).push(digit(n % 10))
    }
}

/// The name of the literal with number `n`: `lit` and the number.
pub open spec fn lit_name(n: usize) -> Seq<char> {
    "lit"@ + digits(n as nat)
}

/// The number of the literal after the one with number `n`. The numbers
/// start again at 0 after the greatest.
pub open spec fn next_lit(n: usize) -> usize {
    if n == usize::MAX {
        0
    } else {
        (n + 1) as usize
    }
}

/// A number has at least one digit.
pub proof fn lemma_digits_len(n: nat)
    ensures
        digits(n).len() >= 1,
        n >= 10 ==> digits(n).len() >= 2,
    decreases n,
{
    if n >= 10 {
        lemma_digits_len(n / 10);
    }
}

/// Two numbers with the same digits are the same number.
pub proof fn lemma_digits_differ(a: nat, b: nat)
    requires
        digits(a) == digits(b),
    ensures
        a == b,
    decreases a,
{
    lemma_digits_len(a);
    lemma_digits_len(b);
    if a < 10 && b < 10 {
        assert(digits(a)[0] == digit(a));
        assert(digits(b)[0] == digit(b));
    } else if a >= 10 && b >= 10 {
        assert(digits(a).last() == digit(a % 10));
        assert(digits(b).last() == digit(b % 10));
        assert(digits(a).drop_last() =~= digits(a / 10));
        assert(digits(b).drop_last() =~= digits(b / 10));
        lemma_digits_differ(a / 10, b / 10);
        assert(a % 10 == b % 10);
        assert(a == 10 * (a / 10) + a % 10);
        assert(b == 10 * (b / 10) + b % 10);
    } else if a < 10 {
        assert(digits(a).len() == 1);
    } else {
        assert(digits(b).len() == 1);
    }
}

/// Two literals with different numbers have different names.
pub proof fn lemma_lit_names_differ(a: usize, b: usize)
    requires
        a != b,
    ensures
        lit_name(a) != lit_name(b),
{
    if lit_name(a) == lit_name(b) {
        let n = "lit"@.len() as int;
        assert(lit_name(a).skip(n) =~= digits(a as nat));
        assert(lit_name(b).skip(n) =~= digits(b as nat));
        lemma_digits_differ(a as nat, b as nat);
    }
}

/// `format!` with `usize`'s `Display`: the text `lit` followed by `n` in
/// base ten, without a sign or leading zeros.
#[verifier::external_body]
fn literal_name(n: usize) -> (r: String)
    ensures
        r@ == lit_name(n),
{
    format!("lit{}", n)
}

/// The kinds of token that an expression can start with.
pub open spec fn expr_handled() -> Seq<TokenTy> {
    seq![TokenTy::Literal, TokenTy::Ident, TokenTy::Ident]
}

/// The expression at the start of `tokens`: a literal, else a call, else a
/// variable. The result holds the number of tokens read, the expression, and
/// the number of the next literal, where `lits` is the number of the first
/// one. A literal takes its name after the expressions embedded in it took
/// theirs. An embedded expression has to take up all of its tokens; the
/// first one left over is reported as standing where nothing had to stand.
pub open spec fn expr_parse(tokens: Seq<TokenView>, lits: usize) -> Result<
    (nat, ExprView, usize),
    ErrorView,
>
    decreases tokens, 2nat, 0nat,
{
    if tokens.len() == 0 {
        Err(missing(expr_handled()))
    } else {
        match tokens[0].token {
            TokenVariantView::Literal(lit) => match lit {
                lexer::LiteralView::Int(value) => Ok(
                    (
                        1,
                        ExprView::Literal(LiteralView::Int { name: lit_name(lits), value }),
                        next_lit(lits),
                    ),
                ),
                lexer::LiteralView::String(string) => Ok(
                    (
                        1,
                        ExprView::Literal(LiteralView::String { name: lit_name(lits), string }),
                        next_lit(lits),
                    ),
                ),
                lexer::LiteralView::DynString(segs) => match segs_parse(
                    segs,
                    0,
                    Seq::empty(),
                    lits,
                ) {
                    Ok((segs, lits)) => Ok(
                        (
                            1,
                            ExprView::Literal(
                                LiteralView::DynString { name: lit_name(lits), segs },
                            ),
                            next_lit(lits),
                        ),
                    ),
                    Err(error) => Err(error),
                },
            },
            _ => {
                let first = concat(
                    ErrorView::Multiple(Seq::empty()),
                    wrong(tokens[0], seq![TokenTy::Literal]),
                );
                match call_parse(tokens, lits) {
                    Ok((len, func, lits)) => Ok((len, ExprView::Func(func), lits)),
                    Err(error) => {
                        let second = concat(first, max_after(error, pos_at(tokens, 1)));
                        match tokens[0].token {
                            TokenVariantView::Ident(name) => Ok((1, ExprView::Var(name), lits)),
                            _ => Err(concat(second, wrong(tokens[0], seq![TokenTy::Ident]))),
                        }
                    },
                }
            },
        }
    }
}

/// The segments of an interpolated string from index `k` on, after `done`.
pub open spec fn segs_parse(
    segs: Seq<lexer::SegView>,
    k: int,
    done: Seq<SegView>,
    lits: usize,
) -> Result<(Seq<SegView>, usize), ErrorView>
    decreases segs, 0nat, segs.len() - k,
{
    if k < 0 || k >= segs.len() {
        Ok((done, lits))
    } else {
        match segs[k] {
            lexer::SegView::String(string) => segs_parse(
                segs,
                k + 1,
                done.push(SegView::String(string)),
                lits,
            ),
            lexer::SegView::Insert(tokens) => match expr_parse(tokens, lits) {
                Ok((len, expr, lits)) => {
                    if len < tokens.len() {
                        Err(wrong(tokens[len as int], Seq::empty()))
                    } else {
                        segs_parse(segs, k + 1, done.push(SegView::Expr(expr)), lits)
                    }
                },
                Err(error) => Err(error),
            },
        }
    }
}

/// The call at the start of `tokens`: a name, `(`, the arguments with a
/// comma between each two, `)`.
pub open spec fn call_parse(tokens: Seq<TokenView>, lits: usize) -> Result<
    (nat, FuncView, usize),
    ErrorView,
>
    decreases tokens, 1nat, 0nat,
{
    match expect_ident(tokens, 0) {
        Err(error) => Err(error),
        Ok(name) => match expect(tokens, 1, TokenTy::Symbol(Symbol::LeftParen)) {
            Some(error) => Err(max_after(error, pos_at(tokens, 0))),
            None => call_args(tokens, 2, name, Seq::empty(), lits),
        },
    }
}

/// The rest of a call of `name` from index `t` on, after the arguments
/// `args`.
pub open spec fn call_args(
    tokens: Seq<TokenView>,
    t: int,
    name: Seq<char>,
    args: Seq<ExprView>,
    lits: usize,
) -> Result<(nat, FuncView, usize), ErrorView>
    decreases tokens, 0nat, tokens.len() - t,
{
    if t < 2 || t >= tokens.len() {
        Err(
            ErrorView::MissingToken {
                handled: expr_handled().push(TokenTy::Symbol(Symbol::RightParen)),
                after: pos_at(tokens, t - 1),
            },
        )
    } else if tokens[t].token == TokenVariantView::Symbol(Symbol::RightParen) {
        Ok(((t + 1) as nat, FuncView { name, args }, lits))
    } else {
        let comma = if args.len() > 0 {
            expect(tokens, t, TokenTy::Symbol(Symbol::Comma))
        } else {
            None
        };
        let t = if args.len() > 0 {
            t + 1
        } else {
            t
        };
        match comma {
            Some(error) => Err(max_after(error, pos_at(tokens, t - 2))),
            None => match expr_parse(tokens.subrange(t, tokens.len() as int), lits) {
                Ok((len, expr, lits)) => {
                    if len == 0 || t + len > tokens.len() {
                        Err(missing(Seq::empty()))
                    } else {
                        call_args(tokens, t + len, name, args.push(expr), lits)
                    }
                },
                Err(error) => Err(error),
            },
        }
    }
}

/// Whether the result `r` of a parser is what `out` says: the number of
/// tokens read, the view of what was parsed and the number of the next
/// literal, or the view of the error.
pub open spec fn parsed<T: View>(
    r: Result<(usize, T, usize), Error>,
    out: Result<(nat, T::V, usize), ErrorView>,
) -> bool {
    match out {
        Ok((len, node, lits)) => {
            &&& r is Ok
            &&& r->Ok_0.0 == len
            &&& r->Ok_0.1@ == node
            &&& r->Ok_0.2 == lits
        },
        Err(error) => r is Err && r->Err_0@ == error,
    }
}

/// The number of the literal after the one with number `n`.
pub fn bump(n: usize) -> (r: usize)
    ensures
        r == next_lit(n),
{
    if n == usize::MAX {
        0
    } else {
        n + 1
    }
}

impl<'e> Expr<'e> {
    /// A copy of this expression that borrows its names and texts.
    pub fn as_ref(&'e self) -> (r: Expr<'e>)
        ensures
            r@ == self@,
        decreases self,
    {
        match self {
            Expr::Literal(lit) => Expr::Literal(lit.as_ref()),
            Expr::Func(func) => Expr::Func(
                Func { name: func.name.as_ref(), args: func.args.as_ref() },
            ),
            Expr::Var(var) => Expr::Var(var.as_ref()),
        }
    }

    pub fn handled() -> (r: Vec<TokenTy>)
        ensures
            r@ == expr_handled(),
    {
        let mut handled: Vec<TokenTy> = Vec::new();
        handled.push(TokenTy::Literal);
        let mut call = Func::handled();
        handled.append(&mut call);
        handled.push(TokenTy::Ident);
        assert(handled@ =~= expr_handled());
        handled
    }

    /// Parses the expression at the start of `tokens`. `lits` is the number
    /// for the first literal; the result holds the number for the next one.
    pub fn parse(tokens: &'e [Token<'e>], lits: usize) -> (r: Result<
        (usize, Expr<'e>, usize),
        Error<'e>,
    >)
        ensures
            parsed(r, expr_parse(tokens_view(tokens@), lits)),
            r matches Ok((len, _, _)) ==> 0 < len <= tokens@.len(),
        decreases tokens_view(tokens@), 2nat, 0nat,
    {
        if tokens.len() == 0 {
            return Err(Error::missing_token(Expr::handled(), None));
        }
        let ghost tv = tokens_view(tokens@);
        let first = &tokens[0];
        assert(tv[0] == first@);
        if let TokenVariant::Literal(lit) = &first.token {
            match lit {
                lexer::Literal::Int(value) => {
                    let name = Ident::Owned(literal_name(lits));
                    return Ok((1, Expr::Literal(Literal::Int { name, value: *value }), bump(lits)));
                },
                lexer::Literal::String(string) => {
                    let name = Ident::Owned(literal_name(lits));
                    return Ok((1, Expr::Literal(Literal::String { name, string }), bump(lits)));
                },
                lexer::Literal::DynString(found) => {
                    let (segs, lits) = match Expr::parse_segs(tokens, found, lits) {
                        Ok(parsed) => parsed,
                        Err(err) => {
                            return Err(err);
                        },
                    };
                    let name = Ident::Owned(literal_name(lits));
                    return Ok(
                        (1, Expr::Literal(Literal::DynString { name, segs }), bump(lits)),
                    );
                },
            }
        }
        let error = Error::multiple(Vec::new()).concat(
            Error::wrong_token(first, one(TokenTy::Literal)),
        );
        assert(super::error::errors_view(Seq::<Error>::empty()) =~= Seq::<ErrorView>::empty());
        let error = match Func::parse(tokens, lits) {
            Ok((t, func, lits)) => {
                return Ok((t, Expr::Func(func), lits));
            },
            Err(err) => error.concat(err.max_after(place(tokens, 1))),
        };
        if let TokenVariant::Ident(var) = &first.token {
            return Ok((1, Expr::Var(var.as_ref()), lits));
        }
        Err(error.concat(Error::wrong_token(first, one(TokenTy::Ident))))
    }

    /// Parses the segments `found` of the interpolated string that is the
    /// first of `tokens`.
    fn parse_segs(
        tokens: &'e [Token<'e>],
        found: &'e Vec<lexer::DynStringSeg<'e>>,
        lits: usize,
    ) -> (r: Result<(Vec<DynStringSeg<'e>>, usize), Error<'e>>)
        requires
            tokens@.len() > 0,
            tokens_view(tokens@)[0].token == TokenVariantView::Literal(
                lexer::LiteralView::DynString(lexer::token::literal::segs_view(found@)),
            ),
        ensures
            match segs_parse(lexer::token::literal::segs_view(found@), 0, Seq::empty(), lits) {
                Ok((segs, lits)) => r is Ok && segs_view(r->Ok_0.0@) == segs && r->Ok_0.1 == lits,
                Err(error) => r is Err && r->Err_0@ == error,
            },
        decreases tokens_view(tokens@), 1nat, 0nat,
    {
        let ghost all = lexer::token::literal::segs_view(found@);
        let ghost whole = segs_parse(all, 0, Seq::empty(), lits);
        let ghost tv = tokens_view(tokens@);
        let mut segs: Vec<DynStringSeg<'e>> = Vec::new();
        let mut count = lits;
        let mut k: usize = 0;
        assert(segs_view(segs@) =~= Seq::<SegView>::empty());
        while k < found.len()
            invariant
                k <= found@.len(),
                all == lexer::token::literal::segs_view(found@),
                tv == tokens_view(tokens@),
                tv.len() > 0,
                tv[0].token == TokenVariantView::Literal(lexer::LiteralView::DynString(all)),
                segs_parse(all, k as int, segs_view(segs@), count) == whole,
                whole == segs_parse(all, 0, Seq::empty(), lits),
            decreases found@.len() - k,
        {
            let ghost before = segs@;
            match &found[k] {
                lexer::DynStringSeg::String(string) => {
                    let seg = DynStringSeg::String(string);
                    segs.push(seg);
                    assert(segs_view(segs@) =~= segs_view(before).push(seg@));
                },
                lexer::DynStringSeg::Insert(inner) => {
                    proof {
                        let nested = tokens_view(inner@);
                        assert(all[k as int] == lexer::SegView::Insert(nested));
                        assert(decreases_to!(tv => tv[0]));
                        assert(decreases_to!(tv[0] => tv[0].token));
                        assert(decreases_to!(tv[0].token => tv[0].token->Literal_0));
                        assert(decreases_to!(tv[0].token->Literal_0 => tv[0].token->Literal_0->DynString_0));
                        assert(decreases_to!(all => all[k as int]));
                        assert(decreases_to!(all[k as int] => nested));
                        assert(decreases_to!(tv => nested));
                    }
                    let (len, expr, next) = match Expr::parse(inner.as_slice(), count) {
                        Ok(parsed) => parsed,
                        Err(err) => {
                            return Err(err);
                        },
                    };
                    if len < inner.len() {
                        return Err(Error::wrong_token(&inner[len], Vec::new()));
                    }
                    let seg = DynStringSeg::Expr(expr);
                    segs.push(seg);
                    assert(segs_view(segs@) =~= segs_view(before).push(seg@));
                    count = next;
                },
            }
            k += 1;
        }
        Ok((segs, count))
    }
}

impl<'l> Literal<'l> {
    /// A copy of this literal that borrows its name and texts.
    pub fn as_ref(&'l self) -> (r: Literal<'l>)
        ensures
            r@ == self@,
        decreases self,
    {
        match self {
            Literal::Int { name, value } => Literal::Int { name: name.as_ref(), value: *value },
            Literal::String { name, string } => Literal::String { name: name.as_ref(), string },
            Literal::DynString { name, segs } => {
                let mut copy: Vec<DynStringSeg<'l>> = Vec::new();
                let mut i: usize = 0;
                while i < segs.len()
                    invariant
                        i <= segs@.len(),
                        *self is DynString,
                        self->segs == *segs,
                        copy@.len() == i,
                        forall|j: int| 0 <= j < i ==> copy@[j]@ == segs@[j]@,
                    decreases segs@.len() - i,
                {
                    let seg = match &segs[i] {
                        DynStringSeg::String(string) => DynStringSeg::String(string),
                        DynStringSeg::Expr(expr) => {
                            proof {
                                assert(decreases_to!(*self => self->segs));
                                assert(decreases_to!(*segs => segs[i as int]));
                                assert(decreases_to!(segs[i as int] => *expr));
                            }
                            DynStringSeg::Expr(expr.as_ref())
                        },
                    };
                    copy.push(seg);
                    i += 1;
                }
                assert(segs_view(copy@) =~= segs_view(segs@));
                Literal::DynString { name: name.as_ref(), segs: copy }
            },
        }
    }

    /// The name of the literal.
    pub fn name(&'l self) -> (r: Ident<'l>)
        ensures
            r@ == match self@ {
                LiteralView::Int { name, .. } => name,
                LiteralView::String { name, .. } => name,
                LiteralView::DynString { name, .. } => name,
            },
    {
        match self {
            Literal::Int { name, .. } => name.as_ref(),
            Literal::String { name, .. } => name.as_ref(),
            Literal::DynString { name, .. } => name.as_ref(),
        }
    }
}

impl<'a> Args<'a> {
    /// The number of arguments.
    pub fn len(&self) -> (r: usize)
        ensures
            r == self@.len(),
    {
        self.0.len()
    }

    /// The arguments, in order.
    pub fn inner(&self) -> (r: &[Expr<'a>])
        ensures
            r@ == self.0@,
    {
        self.0.as_slice()
    }

    /// A copy of these arguments that borrows their names and texts.
    pub fn as_ref(&'a self) -> (r: Args<'a>)
        ensures
            r@ == self@,
        decreases self,
    {
        let mut copy: Vec<Expr<'a>> = Vec::new();
        let mut i: usize = 0;
        while i < self.0.len()
            invariant
                i <= self.0@.len(),
                copy@.len() == i,
                forall|j: int| 0 <= j < i ==> copy@[j]@ == self.0@[j]@,
            decreases self.0@.len() - i,
        {
            copy.push(self.0[i].as_ref());
            i += 1;
        }
        assert(exprs_view(copy@) =~= exprs_view(self.0@));
        Args(copy)
    }
}

impl<'f> Func<'f> {
    pub fn handled() -> (r: Vec<TokenTy>)
        ensures
            r@ == seq![TokenTy::Ident],
    {
        one(TokenTy::Ident)
    }

    /// Parses the call at the start of `tokens`.
    pub fn parse(tokens: &'f [Token<'f>], lits: usize) -> (r: Result<
        (usize, Func<'f>, usize),
        Error<'f>,
    >)
        ensures
            parsed(r, call_parse(tokens_view(tokens@), lits)),
            r matches Ok((len, _, _)) ==> 0 < len <= tokens@.len(),
        decreases tokens_view(tokens@), 1nat, 0nat,
    {
        let ghost tv = tokens_view(tokens@);
        let name = match try_get_ident(tokens, 0) {
            Ok(name) => name.as_ref(),
            Err(err) => {
                return Err(err);
            },
        };
        match try_eq_symbol(tokens, 1, Symbol::LeftParen) {
            Ok(()) => {},
            Err(err) => {
                return Err(err.max_after(place(tokens, 0)));
            },
        }
        let ghost whole = call_args(tv, 2, name@, Seq::empty(), lits);
        let mut args: Vec<Expr<'f>> = Vec::new();
        let mut count = lits;
        let mut t: usize = 2;
        assert(exprs_view(args@) =~= Seq::<ExprView>::empty());
        loop
            invariant
                tv == tokens_view(tokens@),
                2 <= t <= tokens@.len(),
                call_args(tv, t as int, name@, exprs_view(args@), count) == whole,
                whole == call_parse(tv, lits),
            decreases tokens@.len() - t,
        {
            if t >= tokens.len() {
                let mut handled = Expr::handled();
                handled.push(TokenTy::Symbol(Symbol::RightParen));
                return Err(Error::missing_token(handled, place(tokens, t - 1)));
            }
            assert(tv[t as int] == tokens@[t as int]@);
            if tokens[t].eq_symbol(Symbol::RightParen) {
                return Ok((t + 1, Func { name, args: Args(args) }, count));
            }
            if args.len() > 0 {
                match try_eq_symbol(tokens, t, Symbol::Comma) {
                    Ok(()) => {},
                    Err(err) => {
                        return Err(err.max_after(place(tokens, t - 1)));
                    },
                }
                t += 1;
            }
            let rest = split(tokens, t);
            assert(tv.skip(t as int) == tv.subrange(t as int, tv.len() as int));
            let (len, expr, next) = match Expr::parse(rest, count) {
                Ok(parsed) => parsed,
                Err(err) => {
                    return Err(err);
                },
            };
            let ghost before = args@;
            args.push(expr);
            assert(exprs_view(args@) =~= exprs_view(before).push(expr@));
            count = next;
            t += len;
        }
    }
}

} // verus!
