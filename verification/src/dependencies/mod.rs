use vstd::prelude::*;

pub mod error;
pub mod expr;
pub mod func;
pub mod graph;
pub mod module;
pub mod stmt;

pub use error::Error;
pub use error::ErrorKind;
pub use error::ErrorView;
pub use graph::graph_check;
pub use graph::graph_of;
pub use graph::Dependency;
pub use graph::Graph;
pub use graph::GraphView;

verus! {

} // verus!
