use vstd::prelude::*;

use crate::lexer::Ident;

verus! {

/// A type of the language: one of the built-in types, or a type that is only
/// known by its name.
#[derive(Debug, PartialEq, Eq)]
pub enum Ty<'t> {
    I32,
    Str,
    Void,
    User(Ident<'t>),
}

/// What a `Ty` stands for: the built-in type, or the text of the user's name.
pub enum TyView {
    I32,
    Str,
    Void,
    User(Seq<char>),
}

impl<'t> View for Ty<'t> {
    type V = TyView;

    open spec fn view(&self) -> TyView {
        match self {
            Ty::I32 => TyView::I32,
            Ty::Str => TyView::Str,
            Ty::Void => TyView::Void,
            Ty::User(name) => TyView::User(name@),
        }
    }
}

impl<'t> Ty<'t> {
    /// A copy of this type that borrows the name of a user type.
    pub fn as_ref(&'t self) -> (r: Ty<'t>)
        ensures
            r@ == self@,
    {
        match self {
            Ty::I32 => Ty::I32,
            Ty::Str => Ty::Str,
            Ty::Void => Ty::Void,
            Ty::User(name) => Ty::User(name.as_ref()),
        }
    }

    /// A copy of this type that lives as long as the text that this one
    /// borrows.
    pub fn duplicate(&self) -> (r: Ty<'t>)
        ensures
            r@ == self@,
    {
        match self {
            Ty::I32 => Ty::I32,
            Ty::Str => Ty::Str,
            Ty::Void => Ty::Void,
            Ty::User(name) => Ty::User(name.duplicate()),
        }
    }

    /// Whether two types are the same type; user types are compared by name.
    pub fn same(&self, other: &Ty) -> (r: bool)
        ensures
            r == (self@ == other@),
    {
        match (self, other) {
            (Ty::I32, Ty::I32) => true,
            (Ty::Str, Ty::Str) => true,
            (Ty::Void, Ty::Void) => true,
            (Ty::User(a), Ty::User(b)) => a.same(b),
            _ => false,
        }
    }
}

/// The views of a sequence of types, in order.
pub open spec fn tys_view(tys: Seq<Ty>) -> Seq<TyView> {
    Seq::new(tys.len(), |i: int| tys[i]@)
}

} // verus!
