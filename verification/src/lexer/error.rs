use vstd::prelude::*;

use super::Position;

verus! {

/// Why a source text could not be cut into tokens.
#[derive(PartialEq, Eq, Structural, Copy, Clone, Debug)]
pub struct Error {
    pub kind: ErrorKind,
}

#[derive(PartialEq, Eq, Structural, Copy, Clone, Debug)]
pub enum ErrorKind {
    /// No token starts at this place.
    NotHandled(Position),
}

impl Error {
    pub fn not_handled(pos: Position) -> (r: Error)
        ensures
            r == (Error { kind: ErrorKind::NotHandled(pos) }),
    {
        Error { kind: ErrorKind::NotHandled(pos) }
    }
}

} // verus!
