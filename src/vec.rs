use vstd::prelude::*;
use std::marker::PhantomData;
use crate::error::MinimalMachineError;
use crate::machine::{MachineError, MachineState, MachineWord};

verus! {

/// A machine state which holds its stack in a single, flat vector. As
/// such, it suits concrete execution rather than abstract execution.
pub struct VecState<T, E = MinimalMachineError> {
    dummy: PhantomData<E>,
    pc: usize,
    stack: Vec<T>,
}

impl<T, E> VecState<T, E> {
    /// The stack, bottom first.
    pub closed spec fn items(&self) -> Seq<T> {
        self.stack@
    }

    /// The program counter.
    pub closed spec fn position(&self) -> nat {
        self.pc as nat
    }

    /// A state at the start of the program, with an empty stack.
    pub fn init() -> (r: Self)
        ensures
            r.items() == Seq::<T>::empty(),
            r.position() == 0,
    {
        VecState { pc: 0, stack: Vec::new(), dummy: PhantomData }
    }
}

impl<T: MachineWord, E: MachineError> MachineState for VecState<T, E> {
    type Word = T;

    type Error = E;

    open spec fn stack(&self) -> Seq<T> {
        self.items()
    }

    open spec fn counter(&self) -> nat {
        self.position()
    }

    fn size(&self) -> (r: usize) {
        self.stack.len()
    }

    fn pc(&self) -> (r: usize) {
        self.pc
    }

    fn peek(&self, n: usize) -> (r: Result<&T, E>)
        ensures
            r matches Err(e) ==> e.is_stack_underflow(),
    {
        if self.stack.len() > n {
            let m = self.stack.len() - (n + 1);
            Ok(&self.stack[m])
        } else {
            Err(E::stack_underflow())
        }
    }

    fn push(&mut self, item: T) -> (r: Result<(), E>)
        ensures
            r is Ok,
    {
        self.stack.push(item);
        Ok(())
    }

    fn pop(&mut self) -> (r: Result<T, E>)
        ensures
            r matches Err(e) ==> e.is_stack_underflow(),
    {
        if self.stack.len() == 0 {
            return Err(E::stack_underflow());
        }
        match self.stack.pop() {
            Some(item) => Ok(item),
            None => Err(E::stack_underflow()),
        }
    }

    fn set(&mut self, n: usize, item: T) -> (r: Result<T, E>)
        ensures
            r matches Err(e) ==> e.is_stack_underflow(),
    {
        if self.stack.len() > n {
            let m = self.stack.len() - (n + 1);
            let prev = self.stack.remove(m);
            self.stack.insert(m, item);
            assert(self.stack@ =~= old(self).stack@.update(m as int, item));
            Ok(prev)
        } else {
            Err(E::stack_underflow())
        }
    }

    fn swap(&mut self, n: usize) -> (r: Result<(), E>)
        ensures
            r matches Err(e) ==> e.is_stack_underflow(),
    {
        if n == 0 && self.stack.len() > 0 {
            assert(self.stack@ =~= {
                let s = old(self).stack@;
                s.update(s.len() - 1, s[s.len() - 1]).update(s.len() - 1, s[s.len() - 1])
            });
            Ok(())
        } else if self.stack.len() > n {
            let other = self.stack.len() - (n + 1);
            let top = match self.stack.pop() {
                Some(item) => item,
                None => {
                    return Err(E::stack_underflow());
                },
            };
            let below = self.stack.remove(other);
            self.stack.insert(other, top);
            self.stack.push(below);
            assert(self.stack@ =~= {
                let s = old(self).stack@;
                s.update(s.len() - 1, s[other as int]).update(other as int, s[s.len() - 1])
            });
            Ok(())
        } else {
            Err(E::stack_underflow())
        }
    }

    fn goto(&mut self, pc: usize) {
        self.pc = pc;
    }
}

} // verus!
