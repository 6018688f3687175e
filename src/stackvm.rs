use vstd::prelude::*;
use std::marker::PhantomData;
use crate::bytecode::Bytecode;
use crate::error::MinimalMachineError;
use crate::machine::{Machine, MachineState, MachineWord};
use crate::vec::VecState;

verus! {

/// What a run of the stack machine ends with.
#[derive(Clone, Copy, Debug, PartialEq, Eq, Structural)]
pub enum RuntimeOutput {
    /// The program failed (or reached an instruction that this machine
    /// does not run).
    Error,
    /// The program returned this value.
    Value(u8),
}

/// Whether `op` pops two words and pushes one.
pub open spec fn is_binary(op: Bytecode) -> bool {
    match op {
        Bytecode::Eq | Bytecode::Neq | Bytecode::Lt | Bytecode::LtEq | Bytecode::Gt | Bytecode::GtEq
        | Bytecode::Add | Bytecode::Sub | Bytecode::Mul | Bytecode::Div | Bytecode::Rem => true,
        _ => false,
    }
}

/// The word that a binary instruction computes from its left and right
/// operands, over bytes.
pub open spec fn apply_binary(op: Bytecode, l: u8, r: u8) -> u8 {
    match op {
        Bytecode::Eq => if l == r { 1 } else { 0 },
        Bytecode::Neq => if l != r { 1 } else { 0 },
        Bytecode::Lt => if l < r { 1 } else { 0 },
        Bytecode::LtEq => if l <= r { 1 } else { 0 },
        Bytecode::Gt => if l > r { 1 } else { 0 },
        Bytecode::GtEq => if l >= r { 1 } else { 0 },
        Bytecode::Add => ((l + r) % 256) as u8,
        Bytecode::Sub => ((l - r + 256) % 256) as u8,
        Bytecode::Mul => ((l * r) % 256) as u8,
        Bytecode::Div => if r == 0 { 0 } else { (l / r) as u8 },
        _ => if r == 0 { 0 } else { (l % r) as u8 },
    }
}

/// Running `code` from `pc` with `stack` (bottom first): `Push1` pushes
/// its byte; a binary instruction pops its right, then its left operand
/// and pushes its result; `Return` pops the value it returns; any other
/// instruction ends the run with `Error`. Running past the end of the
/// code, or popping an empty stack, is an error.
pub open spec fn run(code: Seq<Bytecode>, pc: nat, stack: Seq<u8>) -> Result<
    RuntimeOutput,
    MinimalMachineError,
>
    decreases code.len() - pc,
{
    if pc >= code.len() {
        Err(MinimalMachineError::InvalidPC)
    } else {
        let op = code[pc as int];
        match op {
            Bytecode::Push1(c) => run(code, pc + 1, stack.push(c)),
            Bytecode::Return => if stack.len() == 0 {
                Err(MinimalMachineError::StackUnderflow)
            } else {
                Ok(RuntimeOutput::Value(stack.last()))
            },
            _ => if is_binary(op) {
                if stack.len() < 2 {
                    Err(MinimalMachineError::StackUnderflow)
                } else {
                    let l = stack[stack.len() - 2];
                    let r = stack[stack.len() - 1];
                    run(code, pc + 1, stack.subrange(0, stack.len() - 2).push(apply_binary(op, l, r)))
                }
            } else {
                Ok(RuntimeOutput::Error)
            },
        }
    }
}

/// A stack machine over words of type `T`, with a fixed program.
pub struct StackMachine<T> {
    dummy: PhantomData<T>,
    code: Vec<Bytecode>,
}

impl<T> StackMachine<T> {
    /// The program.
    pub closed spec fn program(&self) -> Seq<Bytecode> {
        self.code@
    }

    /// A machine that runs `code`.
    pub fn new(code: Vec<Bytecode>) -> (r: Self)
        ensures
            r.program() == code@,
    {
        StackMachine { code, dummy: PhantomData }
    }
}

/// The word that a binary instruction computes, by the operations of
/// `MachineWord`.
fn binary(op: Bytecode, l: u8, r: u8) -> (w: u8)
    requires
        is_binary(op),
    ensures
        w == apply_binary(op, l, r),
{
    match op {
        Bytecode::Eq => l.equal(r),
        Bytecode::Neq => if l.equal(r) == 1 { 0 } else { 1 },
        Bytecode::Lt => l.less_than(r),
        Bytecode::LtEq => if r.less_than(l) == 1 { 0 } else { 1 },
        Bytecode::Gt => r.less_than(l),
        Bytecode::GtEq => if l.less_than(r) == 1 { 0 } else { 1 },
        Bytecode::Add => l.add(r),
        Bytecode::Sub => l.sub(r),
        Bytecode::Mul => l.mul(r),
        Bytecode::Div => l.div(r),
        _ => l.rem(r),
    }
}

impl Machine for StackMachine<u8> {
    type Error = MinimalMachineError;

    type State = VecState<u8, MinimalMachineError>;

    type Instruction = Bytecode;

    type Outcome = RuntimeOutput;

    open spec fn code(&self) -> Seq<Bytecode> {
        self.program()
    }

    fn get(&self, pc: usize) -> (r: Result<&Bytecode, MinimalMachineError>)
        ensures
            r matches Err(e) ==> e == MinimalMachineError::InvalidPC,
    {
        if pc < self.code.len() {
            Ok(&self.code[pc])
        } else {
            Err(MinimalMachineError::InvalidPC)
        }
    }

    fn execute(&self, state: VecState<u8, MinimalMachineError>) -> (r: Result<
        RuntimeOutput,
        MinimalMachineError,
    >)
        ensures
            r == run(self.code(), state.counter(), state.stack()),
    {
        let ghost start = run(self.code(), state.counter(), state.stack());
        let mut st = state;
        let total = self.code.len();
        loop
            invariant
                total == self.code().len(),
                start == run(self.code(), st.counter(), st.stack()),
                start == run(self.code(), state.counter(), state.stack()),
            decreases total - st.counter(),
        {
            let pc = st.pc();
            let insn = match self.get(pc) {
                Ok(i) => *i,
                Err(e) => {
                    return Err(e);
                },
            };
            match insn {
                Bytecode::Push1(c) => {
                    st.push(c)?;
                    st.goto(st.pc() + 1);
                },
                Bytecode::Return => {
                    let v = st.pop()?;
                    return Ok(RuntimeOutput::Value(v));
                },
                _ => {
                    if !is_binary_op(insn) {
                        return Ok(RuntimeOutput::Error);
                    }
                    let ghost s = st.stack();
                    let r = st.pop()?;
                    let l = st.pop()?;
                    st.push(binary(insn, l, r))?;
                    assert(st.stack() =~= s.subrange(0, s.len() - 2).push(apply_binary(insn, l, r)));
                    st.goto(st.pc() + 1);
                },
            }
        }
    }
}

/// Whether `op` pops two words and pushes one.
fn is_binary_op(op: Bytecode) -> (r: bool)
    ensures
        r == is_binary(op),
{
    match op {
        Bytecode::Eq | Bytecode::Neq | Bytecode::Lt | Bytecode::LtEq | Bytecode::Gt | Bytecode::GtEq
        | Bytecode::Add | Bytecode::Sub | Bytecode::Mul | Bytecode::Div | Bytecode::Rem => true,
        _ => false,
    }
}

} // verus!
