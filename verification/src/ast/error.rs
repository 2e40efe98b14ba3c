use vstd::prelude::*;

use crate::lexer::Ident;
use crate::ty::tys_view;
use crate::ty::Ty;
use crate::ty::TyView;

use super::stmt::NodeView;
use super::stmt::Stmt;

verus! {

/// Why a tree did not pass the check of its types.
#[derive(Debug)]
pub struct Error<'e> {
    pub kind: ErrorKind<'e>,
}

#[derive(Debug)]
pub enum ErrorKind<'e> {
    /// In `stmt` a value of type `returned` stands where one of the
    /// `accepted` types had to stand.
    WrongTy { stmt: &'e Stmt<'e>, returned: Ty<'e>, accepted: Vec<Ty<'e>> },
    /// A function that returns this type has no `return`.
    MissingReturn(Ty<'e>),
    /// `stmt` reads a variable that no statement before it has set.
    UnknownVariable { stmt: &'e Stmt<'e>, name: Ident<'e> },
    /// `stmt` calls a function that the tree does not hold.
    UnknownFunction { stmt: &'e Stmt<'e>, name: Ident<'e> },
    /// These errors were found.
    Multiple(Vec<Error<'e>>),
}

/// What an `Error` stands for.
pub enum ErrorView {
    WrongTy { stmt: NodeView, returned: TyView, accepted: Seq<TyView> },
    MissingReturn(TyView),
    UnknownVariable { stmt: NodeView, name: Seq<char> },
    UnknownFunction { stmt: NodeView, name: Seq<char> },
    Multiple(Seq<ErrorView>),
}

pub open spec fn error_view(error: Error) -> ErrorView
    decreases error,
{
    match error.kind {
        ErrorKind::WrongTy { stmt, returned, accepted } => ErrorView::WrongTy {
            stmt: stmt@,
            returned: returned@,
            accepted: tys_view(accepted@),
        },
        ErrorKind::MissingReturn(ty) => ErrorView::MissingReturn(ty@),
        ErrorKind::UnknownVariable { stmt, name } => ErrorView::UnknownVariable {
            stmt: stmt@,
            name: name@,
        },
        ErrorKind::UnknownFunction { stmt, name } => ErrorView::UnknownFunction {
            stmt: stmt@,
            name: name@,
        },
        ErrorKind::Multiple(errors) => ErrorView::Multiple(errors_view(errors@)),
    }
}

/// The views of a sequence of errors, in order.
pub open spec fn errors_view(errors: Seq<Error>) -> Seq<ErrorView>
    decreases errors,
{
    Seq::new(
        errors.len(),
        |i: int|
            if 0 <= i < errors.len() {
                error_view(errors[i])
            } else {
                arbitrary()
            },
    )
}

impl<'e> View for Error<'e> {
    type V = ErrorView;

    open spec fn view(&self) -> ErrorView {
        error_view(*self)
    }
}

/// The two errors as one: the errors of both where both hold several, one
/// added at the end of the other's where one does, else the two in order.
pub open spec fn concat(left: ErrorView, right: ErrorView) -> ErrorView {
    match (left, right) {
        (ErrorView::Multiple(left), ErrorView::Multiple(right)) => ErrorView::Multiple(
            left + right,
        ),
        (ErrorView::Multiple(multi), _) => ErrorView::Multiple(multi.push(right)),
        (_, ErrorView::Multiple(multi)) => ErrorView::Multiple(multi.push(left)),
        (_, _) => ErrorView::Multiple(seq![left, right]),
    }
}

/// What a check ends with that has collected `errors`: success where there
/// is none, the error itself where there is one, all of them as one error
/// where there are more.
pub open spec fn collapse(errors: Seq<ErrorView>) -> Result<(), ErrorView> {
    if errors.len() == 0 {
        Ok(())
    } else if errors.len() == 1 {
        Err(errors[0])
    } else {
        Err(ErrorView::Multiple(errors))
    }
}

/// What a check ends with whose collected errors are held by `error`.
pub open spec fn settle(error: ErrorView) -> Result<(), ErrorView> {
    match error {
        ErrorView::Multiple(errors) => collapse(errors),
        _ => Err(error),
    }
}

/// A check that has collected errors succeeds exactly if there is none,
/// fails with the error itself if there is one, and with an error that
/// holds them all if there are more. Where none of the collected errors
/// holds several itself, the result holds several exactly if more than one
/// was collected.
pub proof fn lemma_collapse(errors: Seq<ErrorView>)
    ensures
        collapse(errors) is Ok <==> errors.len() == 0,
        errors.len() == 1 ==> collapse(errors) == Err::<(), ErrorView>(errors[0]),
        errors.len() > 1 ==> collapse(errors) == Err::<(), ErrorView>(ErrorView::Multiple(errors)),
        (forall|i: int| 0 <= i < errors.len() ==> !(#[trigger] errors[i] is Multiple)) ==> (
        collapse(errors) matches Err(ErrorView::Multiple(_)) <==> errors.len() > 1),
{
}

/// The errors that an error stands for: those that it holds, or itself.
pub open spec fn flat(error: ErrorView) -> Seq<ErrorView> {
    match error {
        ErrorView::Multiple(errors) => errors,
        _ => seq![error],
    }
}

/// Whether none of the errors holds several itself.
pub open spec fn plain(errors: Seq<ErrorView>) -> bool {
    forall|i: int| 0 <= i < errors.len() ==> !(#[trigger] errors[i] is Multiple)
}

/// A check that has collected errors, none of which holds several, and
/// fails, fails with an error that stands for the errors collected.
pub proof fn lemma_flat_collapse(errors: Seq<ErrorView>)
    requires
        plain(errors),
    ensures
        collapse(errors) matches Err(error) ==> flat(error) == errors,
{
    if errors.len() == 1 {
        assert(!(errors[0] is Multiple));
        assert(seq![errors[0]] =~= errors);
    }
}

/// Joining an error to errors collected adds the errors that it stands for.
pub proof fn lemma_concat_flat(errors: Seq<ErrorView>, error: ErrorView)
    ensures
        concat(ErrorView::Multiple(errors), error) == ErrorView::Multiple(errors + flat(error)),
{
    match error {
        ErrorView::Multiple(more) => {},
        _ => {
            assert(errors.push(error) =~= errors + seq![error]);
        },
    }
}

impl<'e> Error<'e> {
    pub fn wrong_ty(stmt: &'e Stmt<'e>, returned: Ty<'e>, accepted: Vec<Ty<'e>>) -> (r: Error<'e>)
        ensures
            r@ == (ErrorView::WrongTy {
                stmt: stmt@,
                returned: returned@,
                accepted: tys_view(accepted@),
            }),
    {
        Error { kind: ErrorKind::WrongTy { stmt, returned, accepted } }
    }

    pub fn missing_ty(ty: Ty<'e>) -> (r: Error<'e>)
        ensures
            r@ == ErrorView::MissingReturn(ty@),
    {
        Error { kind: ErrorKind::MissingReturn(ty) }
    }

    pub fn unknown_variable(stmt: &'e Stmt<'e>, name: Ident<'e>) -> (r: Error<'e>)
        ensures
            r@ == (ErrorView::UnknownVariable { stmt: stmt@, name: name@ }),
    {
        Error { kind: ErrorKind::UnknownVariable { stmt, name } }
    }

    pub fn unknown_function(stmt: &'e Stmt<'e>, name: Ident<'e>) -> (r: Error<'e>)
        ensures
            r@ == (ErrorView::UnknownFunction { stmt: stmt@, name: name@ }),
    {
        Error { kind: ErrorKind::UnknownFunction { stmt, name } }
    }

    pub fn multiple(errors: Vec<Error<'e>>) -> (r: Error<'e>)
        ensures
            r@ == ErrorView::Multiple(errors_view(errors@)),
    {
        Error { kind: ErrorKind::Multiple(errors) }
    }

    /// An error that holds no errors yet.
    pub fn none() -> (r: Error<'e>)
        ensures
            r@ == ErrorView::Multiple(Seq::empty()),
    {
        let errors: Vec<Error<'e>> = Vec::new();
        assert(errors_view(errors@) =~= Seq::<ErrorView>::empty());
        Error::multiple(errors)
    }

    /// Joins two errors into one.
    pub fn concat(self, other: Error<'e>) -> (r: Error<'e>)
        ensures
            r@ == concat(self@, other@),
    {
        match (self.kind, other.kind) {
            (ErrorKind::Multiple(mut left), ErrorKind::Multiple(mut right)) => {
                let ghost a = left@;
                let ghost b = right@;
                left.append(&mut right);
                assert(errors_view(left@) =~= errors_view(a) + errors_view(b));
                Error::multiple(left)
            },
            (ErrorKind::Multiple(mut multi), kind) => {
                let ghost a = multi@;
                let other = Error { kind };
                multi.push(other);
                assert(errors_view(multi@) =~= errors_view(a).push(other@));
                Error::multiple(multi)
            },
            (kind, ErrorKind::Multiple(mut multi)) => {
                let ghost a = multi@;
                let this = Error { kind };
                multi.push(this);
                assert(errors_view(multi@) =~= errors_view(a).push(this@));
                Error::multiple(multi)
            },
            (left, right) => {
                let left = Error { kind: left };
                let right = Error { kind: right };
                let mut errors: Vec<Error<'e>> = Vec::new();
                errors.push(left);
                errors.push(right);
                assert(errors_view(errors@) =~= seq![left@, right@]);
                Error::multiple(errors)
            },
        }
    }

    /// Ends a check that has collected the errors that this error holds.
    pub fn collapse(self) -> (r: Result<(), Error<'e>>)
        ensures
            match settle(self@) {
                Ok(()) => r is Ok,
                Err(error) => r is Err && r->Err_0@ == error,
            },
    {
        match self.kind {
            ErrorKind::Multiple(mut errors) => {
                if errors.len() == 0 {
                    Ok(())
                } else if errors.len() == 1 {
                    match errors.pop() {
                        Some(error) => Err(error),
                        None => Ok(()),
                    }
                } else {
                    Err(Error::multiple(errors))
                }
            },
            kind => Err(Error { kind }),
        }
    }
}

} // verus!
