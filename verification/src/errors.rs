//! The caller-visible error kinds: what can go wrong while parsing a dice
//! expression and what can go wrong while evaluating one.

use vstd::prelude::*;

verus! {

/// Why a string was rejected as a dice expression: the grammar did not
/// match, input was left over after a complete expression, or a numeric
/// literal did not fit its integer width.
#[derive(Clone, Copy, Debug, PartialEq, Eq, Structural)]
pub enum ParseError {
    Malformed,
    TrailingInput,
    InvalidNumber,
}

/// Why an expression could not be evaluated: an arithmetic operator left
/// the range of a roll result or of an outcome weight, or a division met a
/// zero divisor.
#[derive(Clone, Copy, Debug, PartialEq, Eq, Structural)]
pub enum EvalError {
    Overflow,
    DivisionByZero,
}

} // verus!
