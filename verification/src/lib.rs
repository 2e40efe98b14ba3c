//! Front end of a small ahead-of-time compiler: source text is cut into
//! positioned tokens, the tokens are parsed into declarations, the
//! declarations are flattened into an arena of linked statements, and two
//! independent passes check types and call dependencies on that arena.
//!
//! Every executable function carries a contract over a mathematical model of
//! its arguments: texts are sequences of characters, collections are
//! sequences and maps of views.

pub mod ast;
pub mod dependencies;
pub mod lexer;
pub mod names;
pub mod parser;
pub mod ty;

use vstd::prelude::*;

verus! {

/// The views of a sequence of values, in order.
pub open spec fn views<T: View>(values: Seq<T>) -> Seq<T::V> {
    Seq::new(values.len(), |i: int| values[i]@)
}

} // verus!
