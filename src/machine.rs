use vstd::prelude::*;

verus! {

/// A minimal notion of machine error.
pub trait MachineError: Sized {
    /// Whether this error says that an instruction was read from a
    /// position that holds none.
    spec fn is_invalid_pc(&self) -> bool;

    /// Whether this error says that an item was taken from a stack that
    /// does not hold it.
    spec fn is_stack_underflow(&self) -> bool;

    /// Indicates an attempt was made to read an instruction that does
    /// not exist (e.g. is beyond the end of the code section).
    fn invalid_pc() -> (r: Self)
        ensures
            r.is_invalid_pc(),
    ;

    /// Indicates an attempt was made to pop an item from an empty
    /// stack.
    fn stack_underflow() -> (r: Self)
        ensures
            r.is_stack_underflow(),
    ;
}

/// An abstract machine which executes a fixed instruction sequence, its
/// program, over states of type `State`.
pub trait Machine {
    /// A specific state of the machine.
    type State: MachineState;

    /// The errors which this machine can raise.
    type Error;

    /// What executing a state to its end produces.
    type Outcome;

    /// An instruction which this machine can execute.
    type Instruction;

    /// The program of this machine.
    spec fn code(&self) -> Seq<Self::Instruction>;

    /// Get the instruction at a given position in the instruction
    /// stream, or an error where there is none.
    fn get(&self, pc: usize) -> (r: Result<&Self::Instruction, Self::Error>)
        ensures
            pc < self.code().len() <==> r is Ok,
            r matches Ok(i) ==> *i == self.code()[pc as int],
    ;

    /// Execute a given state until a terminating instruction is reached
    /// or an error is raised.
    fn execute(&self, state: Self::State) -> (r: Result<Self::Outcome, Self::Error>);
}

/// A single state of a stack machine: a program counter and a stack of
/// words. Operations that reach past the bottom of the stack fail and
/// leave the state as it was.
pub trait MachineState: Sized {
    /// What constitutes a word in the machine (i.e. an element of the
    /// stack).
    type Word: MachineWord;

    /// The errors which this state can raise.
    type Error;

    /// The stack, bottom first.
    spec fn stack(&self) -> Seq<Self::Word>;

    /// The position within the instruction sequence.
    spec fn counter(&self) -> nat;

    /// Get the size of the stack.
    fn size(&self) -> (r: usize)
        ensures
            r == self.stack().len(),
    ;

    /// Get the current `pc` position of this machine state.
    fn pc(&self) -> (r: usize)
        ensures
            r == self.counter(),
    ;

    /// Peek `nth` item from stack (where `n==0` is top element).
    fn peek(&self, n: usize) -> (r: Result<&Self::Word, Self::Error>)
        ensures
            n < self.stack().len() <==> r is Ok,
            r matches Ok(w) ==> *w == self.stack()[self.stack().len() - 1 - n],
    ;

    /// Push an item onto the stack.
    fn push(&mut self, item: Self::Word) -> (r: Result<(), Self::Error>)
        ensures
            r is Ok ==> final(self).stack() == old(self).stack().push(item),
            r is Err ==> *final(self) == *old(self),
            final(self).counter() == old(self).counter(),
    ;

    /// Pop an item from the stack.
    fn pop(&mut self) -> (r: Result<Self::Word, Self::Error>)
        ensures
            old(self).stack().len() > 0 <==> r is Ok,
            r matches Ok(w) ==> w == old(self).stack().last() && final(self).stack() == old(
                self,
            ).stack().drop_last(),
            r is Err ==> *final(self) == *old(self),
            final(self).counter() == old(self).counter(),
    ;

    /// Set `nth` item from stack (where `n==0` is top element),
    /// whilst returning the item previously at that position.
    fn set(&mut self, n: usize, item: Self::Word) -> (r: Result<Self::Word, Self::Error>)
        ensures
            n < old(self).stack().len() <==> r is Ok,
            r matches Ok(w) ==> w == old(self).stack()[old(self).stack().len() - 1 - n]
                && final(self).stack() == old(self).stack().update(
                old(self).stack().len() - 1 - n,
                item,
            ),
            r is Err ==> *final(self) == *old(self),
            final(self).counter() == old(self).counter(),
    ;

    /// Swap the top item on the stack with the `nth` item (where `n==0`
    /// is the top element).
    fn swap(&mut self, n: usize) -> (r: Result<(), Self::Error>)
        ensures
            n < old(self).stack().len() <==> r is Ok,
            r is Ok ==> {
                let s = old(self).stack();
                let top = s.len() - 1;
                let other = s.len() - 1 - n;
                final(self).stack() == s.update(top, s[other]).update(other, s[top])
            },
            r is Err ==> *final(self) == *old(self),
            final(self).counter() == old(self).counter(),
    ;

    /// Set position within instruction sequence.
    fn goto(&mut self, pc: usize)
        ensures
            final(self).counter() == pc,
            final(self).stack() == old(self).stack(),
    ;
}

/// The fundamental unit of computation within a stack machine. Every
/// operation is total. Comparators produce words that encode booleans.
pub trait MachineWord: Sized {
    // Comparators
    fn less_than(self, rhs: Self) -> Self;

    fn equal(self, rhs: Self) -> Self;

    // Arithmetic
    fn add(self, rhs: Self) -> Self;

    fn sub(self, rhs: Self) -> Self;

    fn mul(self, rhs: Self) -> Self;

    fn div(self, rhs: Self) -> Self;

    fn rem(self, rhs: Self) -> Self;

    fn neg(self) -> Self;

    // Bitwise
    fn and(self, rhs: Self) -> Self;

    fn or(self, rhs: Self) -> Self;

    fn xor(self, rhs: Self) -> Self;

    fn not(self) -> Self;
}

} // verus!
