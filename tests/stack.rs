use vcg::{Bytecode, Machine, MinimalMachineError, RuntimeOutput, StackMachine, VecState};

#[test]
fn test_01() {
    let bytecode = vec![Bytecode::Push1(0x1), Bytecode::Push1(0x2), Bytecode::Add, Bytecode::Return];

    check(bytecode, Ok(RuntimeOutput::Value(0x3)))
}

#[test]
fn test_02() {
    let bytecode = vec![Bytecode::Add];

    check(bytecode, Err(MinimalMachineError::StackUnderflow))
}

#[test]
fn test_03() {
    let bytecode = vec![Bytecode::Push1(0x1), Bytecode::Push1(0x2), Bytecode::Sub, Bytecode::Return];

    check(bytecode, Ok(RuntimeOutput::Value(0xff)))
}

#[test]
fn test_04() {
    let bytecode = vec![Bytecode::Push1(0x1), Bytecode::Push1(0x2), Bytecode::Eq, Bytecode::Return];

    check(bytecode, Ok(RuntimeOutput::Value(0x0)))
}

fn check(code: Vec<Bytecode>, output: Result<RuntimeOutput, MinimalMachineError>) {
    let svm = StackMachine::<u8>::new(code);
    let init = VecState::<u8>::init();
    let o = svm.execute(init);
    assert_eq!(o, output);
}
