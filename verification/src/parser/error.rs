use vstd::prelude::*;

use crate::lexer::Position;
use crate::lexer::Token;
use crate::lexer::TokenTy;
use crate::lexer::TokenView;

verus! {

/// Why a sequence of tokens could not be parsed.
#[derive(Debug)]
pub struct Error<'e> {
    pub kind: ErrorKind<'e>,
}

#[derive(Debug)]
pub enum ErrorKind<'e> {
    /// The tokens end where one of the `handled` kinds had to follow the
    /// place `after`.
    MissingToken { handled: Vec<TokenTy>, after: Option<Position> },
    /// `token` stands where one of the `handled` kinds had to stand.
    WrongToken { token: &'e Token<'e>, handled: Vec<TokenTy> },
    /// Every alternative failed; these are their errors.
    Multiple(Vec<Error<'e>>),
}

/// What an `Error` stands for.
pub enum ErrorView {
    MissingToken { handled: Seq<TokenTy>, after: Option<Position> },
    WrongToken { token: TokenView, handled: Seq<TokenTy> },
    Multiple(Seq<ErrorView>),
}

pub open spec fn error_view(error: Error) -> ErrorView
    decreases error,
{
    match error.kind {
        ErrorKind::MissingToken { handled, after } => ErrorView::MissingToken {
            handled: handled@,
            after,
        },
        ErrorKind::WrongToken { token, handled } => ErrorView::WrongToken {
            token: token@,
            handled: handled@,
        },
        ErrorKind::Multiple(errors) => ErrorView::Multiple(errors_view(errors@)),
    }
}

/// The views of a sequence of errors, in order.
pub open spec fn errors_view(errors: Seq<Error>) -> Seq<ErrorView>
    decreases errors,
{
    Seq::new(
        errors.len(),
        |i: int|
            if 0 <= i < errors.len() {
                error_view(errors[i])
            } else {
                arbitrary()
            },
    )
}

impl<'e> View for Error<'e> {
    type V = ErrorView;

    open spec fn view(&self) -> ErrorView {
        error_view(*self)
    }
}

/// The error with its place moved to `after` where that is later: only the
/// place of a missing token moves, and never back.
pub open spec fn max_after(error: ErrorView, after: Option<Position>) -> ErrorView {
    match (error, after) {
        (ErrorView::MissingToken { handled, after: Some(before) }, Some(after)) =>
            ErrorView::MissingToken { handled, after: Some(before.later_of(after)) },
        (ErrorView::MissingToken { handled, after: None }, Some(after)) =>
            ErrorView::MissingToken { handled, after: Some(after) },
        _ => error,
    }
}

/// The two errors as one: the errors of both where both hold several, one
/// added at the end of the other's where one does, else the two in order.
pub open spec fn concat(left: ErrorView, right: ErrorView) -> ErrorView {
    match (left, right) {
        (ErrorView::Multiple(left), ErrorView::Multiple(right)) => ErrorView::Multiple(
            left + right,
        ),
        (ErrorView::Multiple(multi), _) => ErrorView::Multiple(multi.push(right)),
        (_, ErrorView::Multiple(multi)) => ErrorView::Multiple(multi.push(left)),
        (_, _) => ErrorView::Multiple(seq![left, right]),
    }
}

/// The place of a missing token never moves back: after a move it is at
/// or after the place that it had and at or after the place given.
pub proof fn lemma_max_after(error: ErrorView, after: Option<Position>)
    ensures
        !(error is MissingToken) ==> max_after(error, after) == error,
        error matches ErrorView::MissingToken { handled, after: before } ==> (max_after(
            error,
            after,
        ) matches ErrorView::MissingToken { handled: kept, after: moved } && kept == handled && (
        before matches Some(before) ==> moved matches Some(moved) && before.not_after(moved)) && (
        after matches Some(after) ==> moved matches Some(moved) && after.not_after(moved)) && (before
            is None && after is None ==> moved is None)),
{
}

impl Position {
    /// The later of two places.
    pub fn later(self, other: Position) -> (r: Position)
        ensures
            r == self.later_of(other),
    {
        if self.at_or_before(&other) {
            other
        } else {
            self
        }
    }
}

impl<'e> Error<'e> {
    pub fn missing_token(handled: Vec<TokenTy>, after: Option<Position>) -> (r: Self)
        ensures
            r@ == (ErrorView::MissingToken { handled: handled@, after }),
    {
        Error { kind: ErrorKind::MissingToken { handled, after } }
    }

    pub fn wrong_token(token: &'e Token<'e>, handled: Vec<TokenTy>) -> (r: Self)
        ensures
            r@ == (ErrorView::WrongToken { token: token@, handled: handled@ }),
    {
        Error { kind: ErrorKind::WrongToken { token, handled } }
    }

    pub fn multiple(errors: Vec<Error<'e>>) -> (r: Self)
        ensures
            r@ == ErrorView::Multiple(errors_view(errors@)),
    {
        Error { kind: ErrorKind::Multiple(errors) }
    }

    pub fn is_wrong_token(&self) -> (r: bool)
        ensures
            r == (self@ is WrongToken),
    {
        match self.kind {
            ErrorKind::WrongToken { .. } => true,
            _ => false,
        }
    }

    /// Moves the place of a missing token to `after` where that is later.
    pub fn max_after(self, after: Option<Position>) -> (r: Self)
        ensures
            r@ == max_after(self@, after),
    {
        match self.kind {
            ErrorKind::MissingToken { handled, after: before } => {
                let after = match (before, after) {
                    (Some(before), Some(after)) => Some(before.later(after)),
                    (None, Some(after)) => Some(after),
                    (before, None) => before,
                };
                Error { kind: ErrorKind::MissingToken { handled, after } }
            },
            kind => Error { kind },
        }
    }

    /// Joins two errors into one.
    pub fn concat(self, other: Error<'e>) -> (r: Self)
        ensures
            r@ == concat(self@, other@),
    {
        match (self.kind, other.kind) {
            (ErrorKind::Multiple(mut left), ErrorKind::Multiple(mut right)) => {
                let ghost a = left@;
                let ghost b = right@;
                left.append(&mut right);
                assert(errors_view(left@) =~= errors_view(a) + errors_view(b));
                Error::multiple(left)
            },
            (ErrorKind::Multiple(mut multi), kind) => {
                let ghost a = multi@;
                let other = Error { kind };
                multi.push(other);
                assert(errors_view(multi@) =~= errors_view(a).push(other@));
                Error::multiple(multi)
            },
            (kind, ErrorKind::Multiple(mut multi)) => {
                let ghost a = multi@;
                let this = Error { kind };
                multi.push(this);
                assert(errors_view(multi@) =~= errors_view(a).push(this@));
                Error::multiple(multi)
            },
            (left, right) => {
                let left = Error { kind: left };
                let right = Error { kind: right };
                let mut errors: Vec<Error<'e>> = Vec::new();
                errors.push(left);
                errors.push(right);
                assert(errors_view(errors@) =~= seq![left@, right@]);
                Error::multiple(errors)
            },
        }
    }
}

} // verus!
