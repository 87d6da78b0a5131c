//! A syntax-directed Scala-to-Kotlin source translator.
//!
//! The library walks a concrete syntax tree of a Scala program (modelled by
//! [`tree::SyntaxNode`]) and emits the corresponding Kotlin program as an
//! ordered stream of text fragments.  Every rewrite rule is stated as a
//! specification and the executable code is verified against it.

pub mod dispatch;
pub mod laws;
pub mod state;
pub mod text;
pub mod tree;

pub use dispatch::converter;
pub use dispatch::translate;
pub use dispatch::work_node;
pub use state::TransState;
pub use text::str_eq;
pub use tree::SyntaxNode;
