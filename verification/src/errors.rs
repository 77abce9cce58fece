//! Error kinds surfaced by the engine.

use vstd::prelude::*;

verus! {

/// Every failure the engine can report.  All of them are recoverable
/// values: the caller decides how to surface them, and no operation of
/// the engine panics.
#[derive(Clone, Copy, PartialEq, Eq, Structural, Debug)]
pub enum ErrorKind {
    /// The submitted line is neither a literal nor a well-formed call.
    ParseError,
    /// A call named a function that is not in the registry.
    UnknownFunction,
    /// The stack holds fewer operands than the operation needs.
    StackUnderflow,
    /// An operand's kind is incompatible with the operation.
    TypeMismatch,
    /// Matrix multiplication over incompatible dimensions.
    DimensionMismatch,
    /// Matrix multiplication over a matrix with no rows.
    EmptyOperand,
}

} // verus!
