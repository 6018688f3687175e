use vstd::prelude::*;
use crate::lexer::Token;
use crate::machine::MachineError;

verus! {

/// A minimal notion of machine error with exactly two kinds.
#[derive(Clone, Copy, Debug, PartialEq, Eq, Structural)]
pub enum MinimalMachineError {
    /// An instruction was read from a position that holds none (for
    /// example, past the end of the code).
    InvalidPC,
    /// An item was taken from a stack that does not hold it.
    StackUnderflow,
}

impl MachineError for MinimalMachineError {
    open spec fn is_invalid_pc(&self) -> bool {
        *self == MinimalMachineError::InvalidPC
    }

    open spec fn is_stack_underflow(&self) -> bool {
        *self == MinimalMachineError::StackUnderflow
    }

    fn invalid_pc() -> (r: Self) {
        MinimalMachineError::InvalidPC
    }

    fn stack_underflow() -> (r: Self) {
        MinimalMachineError::StackUnderflow
    }
}

/// Why a source text could not be compiled.
#[derive(Clone, Copy, Debug, PartialEq, Eq, Structural)]
pub enum SyntaxError {
    /// No token starts with this character, found at this offset.
    UnexpectedCharacter(char, usize),
    /// A token of another kind was expected here.
    UnexpectedToken(Token),
    /// A call names a function that has not been declared.
    UnknownFunction(Token),
    /// An expression names a variable that is not in scope.
    UnknownVariable(Token),
    /// A call supplies a number of arguments (the last field) other than
    /// the declared arity (the middle field).
    ArityMismatch(Token, usize, usize),
    /// A parameter list names the same parameter twice.
    DuplicateParameter(Token),
    /// An integer literal does not fit in a machine word.
    IntegerOverflow(Token),
}

} // verus!
