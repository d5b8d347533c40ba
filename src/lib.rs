//! A tree-walking evaluator for a small expression language in which a call
//! takes its arguments from the statements that follow it in a program.

use vstd::prelude::*;

pub mod ast;
pub mod env;
pub mod interpreter;

pub use ast::{EvalError, Fructa, Node, NodeKind, NodeValue, Operator, Proventus};
pub use env::Environment;
pub use interpreter::{apply_operator, Interpreter};

verus! {

} // verus!
