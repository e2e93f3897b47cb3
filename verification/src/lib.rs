//! A phrase-recognition and tree-rewriting engine.
//!
//! A registry records multi-word names ("phrases") such as `perform_task`;
//! a reducer rewrites a parsed syntax tree so that every recognized run of
//! adjacent identifiers collapses into a single identifier wrapped in an
//! apply node that binds the trailing operands.

use vstd::prelude::*;

pub mod context;
pub mod model;
pub mod reduce;
pub mod text;
pub mod tree;

verus! {

pub use crate::context::{PhraseContext, PhraseStatus, SimpleContextCodes, SimplePhraseContext};
pub use crate::tree::{Definition, SyntaxNode, SyntaxTree, Token};
pub use crate::model::ReduceError;
pub use crate::reduce::{reduce_phrases, PhraseInfo};

} // verus!
