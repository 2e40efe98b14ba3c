use vstd::prelude::*;

pub mod error;
pub mod expr;
pub mod func;
pub mod module;
pub mod stmt;
pub mod tree;

pub use error::Error;
pub use error::ErrorKind;
pub use error::ErrorView;
pub use func::Func;
pub use func::FuncView;
pub use module::Module;
pub use module::ModuleView;
pub use stmt::NodeView;
pub use stmt::Stmt;
pub use tree::Tree;
pub use tree::TreeView;

verus! {

} // verus!
