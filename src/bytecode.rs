use vstd::prelude::*;

verus! {

/// The closed instruction vocabulary shared by the compiler and by every
/// machine that runs compiled code.
///
/// Compiled expressions are laid out in prefix order: an operator comes
/// before the code of its operands.
#[derive(Clone, Copy, Debug, PartialEq, Eq, Structural)]
pub enum Bytecode {
    // Declarations
    Assert,
    Fun(usize),
    RecFun(usize),
    // Logical connectives
    Not,
    And,
    Or,
    Implies,
    // Type tests
    IsUint,
    IsBool,
    // Comparators
    Eq,
    Neq,
    Lt,
    LtEq,
    Gt,
    GtEq,
    // Arithmetic
    Add,
    Sub,
    Mul,
    Div,
    Rem,
    // Control flow
    If,
    Invoke(usize, usize),
    Return,
    Fail,
    // Literals
    Int(usize),
    Bool(bool),
    Push1(u8),
    // Locals
    Var(usize),
}

} // verus!
