//! Arithmetic expressions read from text: a scanner that turns characters into
//! tokens, and an operator-precedence parser with two stacks that turns tokens
//! into an expression tree.
use vstd::prelude::*;

pub mod error;
pub mod laws;
pub mod parser;
pub mod scanner;
pub mod tokens;

verus! {

} // verus!
