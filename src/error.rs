use vstd::prelude::*;

verus! {

/// Why a line of text could not be split into tokens.
#[derive(Debug, Clone, Copy, PartialEq, Eq, Structural)]
pub enum TokenScanError {
    InvalidNumberLiteral,
    InvalidCharacter,
}

/// Why a token sequence could not be folded into one expression.
#[derive(Debug, Clone, Copy, PartialEq, Eq, Structural)]
pub enum ParseError {
    StackNotEmpty,
    NoOperator,
    NoNumber,
    IncorrectOperator,
}

} // verus!
