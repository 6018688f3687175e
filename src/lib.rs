//! A compiler from a small first-order specification language to a flat,
//! prefix-ordered bytecode, together with the machine abstraction (words,
//! states, machines) that executes such bytecode, a concrete stack machine
//! over bytes, and a bounded checker of compiled assertions.

pub mod bytecode;
pub mod error;
pub mod lexer;
pub mod machine;
pub mod parser;
pub mod program;
pub mod stackvm;
pub mod vec;
pub mod words;

pub use bytecode::Bytecode;
pub use error::{MinimalMachineError, SyntaxError};
pub use lexer::{Lexer, Token, TokenType};
pub use machine::{Machine, MachineError, MachineState, MachineWord};
pub use parser::{Environment, Parser};
pub use program::{BoundedResult, Program};
pub use stackvm::{RuntimeOutput, StackMachine};
pub use vec::VecState;
