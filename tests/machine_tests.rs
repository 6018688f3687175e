use vcg::{
    Bytecode, Machine, MachineError, MachineState, MachineWord, MinimalMachineError, RuntimeOutput,
    StackMachine, VecState,
};

fn run(code: Vec<Bytecode>) -> Result<RuntimeOutput, MinimalMachineError> {
    StackMachine::<u8>::new(code).execute(VecState::<u8>::init())
}

#[test]
fn word_comparators_encode_booleans() {
    assert_eq!(1u8.less_than(2), 1);
    assert_eq!(2u8.less_than(1), 0);
    assert_eq!(7u8.equal(7), 1);
    assert_eq!(7u8.equal(8), 0);
}

#[test]
fn word_arithmetic_wraps() {
    assert_eq!(250u8.add(10), 4);
    assert_eq!(1u8.sub(2), 255);
    assert_eq!(16u8.mul(17), 16);
    assert_eq!(7u8.div(2), 3);
    assert_eq!(7u8.rem(2), 1);
    assert_eq!(1u8.neg(), 255);
    assert_eq!(0u8.neg(), 0);
}

#[test]
fn word_division_by_zero_is_zero() {
    assert_eq!(9u8.div(0), 0);
    assert_eq!(9u8.rem(0), 0);
}

#[test]
fn word_bitwise() {
    assert_eq!(0b1100u8.and(0b1010), 0b1000);
    assert_eq!(0b1100u8.or(0b1010), 0b1110);
    assert_eq!(0b1100u8.xor(0b1010), 0b0110);
    assert_eq!(0u8.not(), 255);
}

#[test]
fn error_constructors() {
    assert_eq!(MinimalMachineError::invalid_pc(), MinimalMachineError::InvalidPC);
    assert_eq!(MinimalMachineError::stack_underflow(), MinimalMachineError::StackUnderflow);
}

#[test]
fn vec_state_push_pop_peek() {
    let mut s = VecState::<u8>::init();
    assert_eq!(s.size(), 0);
    assert_eq!(s.pc(), 0);
    assert_eq!(s.pop(), Err(MinimalMachineError::StackUnderflow));
    assert_eq!(s.push(5), Ok(()));
    assert_eq!(s.push(6), Ok(()));
    assert_eq!(s.size(), 2);
    assert_eq!(s.peek(0), Ok(&6));
    assert_eq!(s.peek(1), Ok(&5));
    assert_eq!(s.peek(2), Err(MinimalMachineError::StackUnderflow));
    assert_eq!(s.pop(), Ok(6));
    assert_eq!(s.size(), 1);
}

#[test]
fn vec_state_set_and_swap() {
    let mut s = VecState::<u8>::init();
    s.push(1).unwrap();
    s.push(2).unwrap();
    s.push(3).unwrap();
    assert_eq!(s.set(2, 9), Ok(1));
    assert_eq!(s.peek(2), Ok(&9));
    assert_eq!(s.set(3, 0), Err(MinimalMachineError::StackUnderflow));
    assert_eq!(s.swap(2), Ok(()));
    assert_eq!(s.peek(0), Ok(&9));
    assert_eq!(s.peek(2), Ok(&3));
    assert_eq!(s.swap(0), Ok(()));
    assert_eq!(s.peek(0), Ok(&9));
    assert_eq!(s.swap(3), Err(MinimalMachineError::StackUnderflow));
    s.goto(4);
    assert_eq!(s.pc(), 4);
}

#[test]
fn machine_get() {
    let m = StackMachine::<u8>::new(vec![Bytecode::Push1(3)]);
    assert_eq!(m.get(0), Ok(&Bytecode::Push1(3)));
    assert_eq!(m.get(1), Err(MinimalMachineError::InvalidPC));
}

#[test]
fn running_off_the_end_is_invalid_pc() {
    assert_eq!(run(vec![Bytecode::Push1(1)]), Err(MinimalMachineError::InvalidPC));
    assert_eq!(run(vec![]), Err(MinimalMachineError::InvalidPC));
}

#[test]
fn one_operand_is_stack_underflow() {
    assert_eq!(run(vec![Bytecode::Push1(1), Bytecode::Add]), Err(MinimalMachineError::StackUnderflow));
    assert_eq!(run(vec![Bytecode::Return]), Err(MinimalMachineError::StackUnderflow));
}

#[test]
fn comparators_and_arithmetic() {
    let cases = vec![
        (Bytecode::Neq, 1u8, 2u8, 1u8),
        (Bytecode::Neq, 2, 2, 0),
        (Bytecode::Lt, 1, 2, 1),
        (Bytecode::LtEq, 2, 2, 1),
        (Bytecode::LtEq, 3, 2, 0),
        (Bytecode::Gt, 3, 2, 1),
        (Bytecode::GtEq, 2, 3, 0),
        (Bytecode::GtEq, 3, 3, 1),
        (Bytecode::Mul, 20, 13, 4),
        (Bytecode::Div, 9, 2, 4),
        (Bytecode::Div, 9, 0, 0),
        (Bytecode::Rem, 9, 4, 1),
    ];
    for (op, l, r, v) in cases {
        let out = run(vec![Bytecode::Push1(l), Bytecode::Push1(r), op, Bytecode::Return]);
        assert_eq!(out, Ok(RuntimeOutput::Value(v)));
    }
}

#[test]
fn fail_ends_with_error() {
    assert_eq!(run(vec![Bytecode::Push1(1), Bytecode::Fail]), Ok(RuntimeOutput::Error));
    assert_eq!(run(vec![Bytecode::Assert]), Ok(RuntimeOutput::Error));
}
