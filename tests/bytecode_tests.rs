use vcg::{BoundedResult, Bytecode, Program};

// ===================================================================
// Logic (Literal)
// ===================================================================

#[test]
fn test_logic_01() {
    check(true, &[Bytecode::Assert, Bytecode::Bool(true)]);
}

#[test]
fn test_logic_02() {
    check(false, &[Bytecode::Assert, Bytecode::Bool(false)]);
}

#[test]
fn test_logic_03() {
    check(true, &[Bytecode::Assert, Bytecode::Not, Bytecode::Bool(false)]);
}

#[test]
fn test_logic_04() {
    check(false, &[Bytecode::Assert, Bytecode::And, Bytecode::Bool(false), Bytecode::Bool(false)]);
}

#[test]
fn test_logic_05() {
    check(false, &[Bytecode::Assert, Bytecode::And, Bytecode::Bool(true), Bytecode::Bool(false)]);
}

#[test]
fn test_logic_06() {
    check(false, &[Bytecode::Assert, Bytecode::And, Bytecode::Bool(false), Bytecode::Bool(true)]);
}

#[test]
fn test_logic_07() {
    check(true, &[Bytecode::Assert, Bytecode::And, Bytecode::Bool(true), Bytecode::Bool(true)]);
}

#[test]
fn test_logic_08() {
    check(false, &[Bytecode::Assert, Bytecode::Or, Bytecode::Bool(false), Bytecode::Bool(false)]);
}

#[test]
fn test_logic_09() {
    check(true, &[Bytecode::Assert, Bytecode::Or, Bytecode::Bool(true), Bytecode::Bool(false)]);
}

#[test]
fn test_logic_10() {
    check(true, &[Bytecode::Assert, Bytecode::Or, Bytecode::Bool(false), Bytecode::Bool(true)]);
}

#[test]
fn test_logic_11() {
    check(true, &[Bytecode::Assert, Bytecode::Or, Bytecode::Bool(true), Bytecode::Bool(true)]);
}

#[test]
fn test_logic_12() {
    check(true, &[Bytecode::Assert, Bytecode::Not, Bytecode::And, Bytecode::Bool(false), Bytecode::Bool(false)]);
}

#[test]
fn test_logic_13() {
    check(true, &[Bytecode::Assert, Bytecode::Not, Bytecode::Or, Bytecode::Bool(false), Bytecode::Bool(false)]);
}

// ===================================================================
// Logic (Variable)
// ===================================================================

#[test]
fn test_logic_14() {
    check(false, &[Bytecode::Assert, Bytecode::Var(0)]);
}

#[test]
fn test_logic_15() {
    check(false, &[Bytecode::Assert, Bytecode::And, Bytecode::Var(0), Bytecode::Not, Bytecode::Var(0)]);
}

#[test]
fn test_logic_16() {
    check(true, &[Bytecode::Assert, Bytecode::Or, Bytecode::Bool(true), Bytecode::Var(0)]);
}

#[test]
fn test_logic_17() {
    check(true, &[Bytecode::Assert, Bytecode::Implies, Bytecode::IsBool, Bytecode::Var(0), Bytecode::Or, Bytecode::Var(0), Bytecode::Bool(true)]);
}

#[test]
fn test_logic_18() {
    check(true, &[Bytecode::Assert, Bytecode::Implies, Bytecode::IsBool, Bytecode::Var(0), Bytecode::Or, Bytecode::Var(0), Bytecode::Not, Bytecode::Var(0)]);
}

// ===================================================================
// Comparator (Literal)
// ===================================================================

#[test]
fn test_comparator_01() {
    check(true, &[Bytecode::Assert, Bytecode::Eq, Bytecode::Int(0), Bytecode::Int(0)]);
}

#[test]
fn test_comparator_02() {
    check(true, &[Bytecode::Assert, Bytecode::Neq, Bytecode::Int(0), Bytecode::Int(1)]);
}

#[test]
fn test_comparator_03() {
    check(true, &[Bytecode::Assert, Bytecode::LtEq, Bytecode::Int(0), Bytecode::Int(0)]);
}

#[test]
fn test_comparator_04() {
    check(true, &[Bytecode::Assert, Bytecode::LtEq, Bytecode::Int(0), Bytecode::Int(1)]);
}

#[test]
fn test_comparator_05() {
    check(true, &[Bytecode::Assert, Bytecode::Lt, Bytecode::Int(0), Bytecode::Int(1)]);
}

#[test]
fn test_comparator_06() {
    check(true, &[Bytecode::Assert, Bytecode::GtEq, Bytecode::Int(0), Bytecode::Int(0)]);
}

#[test]
fn test_comparator_07() {
    check(true, &[Bytecode::Assert, Bytecode::GtEq, Bytecode::Int(1), Bytecode::Int(0)]);
}

#[test]
fn test_comparator_08() {
    check(true, &[Bytecode::Assert, Bytecode::Gt, Bytecode::Int(1), Bytecode::Int(0)]);
}

// Comparator (Variable)

#[test]
fn test_comparator_09() {
    check(true, &[Bytecode::Assert, Bytecode::Implies, Bytecode::IsUint, Bytecode::Var(0), Bytecode::Eq, Bytecode::Var(0), Bytecode::Var(0)]);
}

#[test]
fn test_comparator_10() {
    check(false, &[Bytecode::Assert, Bytecode::Implies, Bytecode::IsUint, Bytecode::Var(0), Bytecode::Eq, Bytecode::Int(1), Bytecode::Var(0)]);
}

#[test]
fn test_comparator_11() {
    check(false, &[Bytecode::Assert, Bytecode::Implies, Bytecode::IsUint, Bytecode::Var(0), Bytecode::Eq, Bytecode::Var(0), Bytecode::Int(1)]);
}

#[test]
fn test_comparator_12() {
    check(true, &[Bytecode::Assert, Bytecode::Implies, Bytecode::IsUint, Bytecode::Var(0), Bytecode::LtEq, Bytecode::Var(0), Bytecode::Var(0)]);
}

#[test]
fn test_comparator_13() {
    check(true, &[Bytecode::Assert, Bytecode::Implies, Bytecode::IsUint, Bytecode::Var(0), Bytecode::LtEq, Bytecode::Int(0), Bytecode::Var(0)]);
}

#[test]
fn test_comparator_14() {
    check(true, &[Bytecode::Assert, Bytecode::Implies, Bytecode::IsUint, Bytecode::Var(0), Bytecode::GtEq, Bytecode::Var(0), Bytecode::Var(0)]);
}

#[test]
fn test_comparator_15() {
    check(true, &[Bytecode::Assert, Bytecode::Implies, Bytecode::IsUint, Bytecode::Var(0), Bytecode::GtEq, Bytecode::Var(0), Bytecode::Int(0)]);
}

#[test]
fn test_comparator_16() {
    check(false, &[Bytecode::Assert, Bytecode::Implies, Bytecode::IsUint, Bytecode::Var(0), Bytecode::Lt, Bytecode::Var(0), Bytecode::Var(0)]);
}

#[test]
fn test_comparator_17() {
    check(true, &[Bytecode::Assert, Bytecode::Implies, Bytecode::IsUint, Bytecode::Var(0), Bytecode::Not, Bytecode::Lt, Bytecode::Var(0), Bytecode::Var(0)]);
}

#[test]
fn test_comparator_18() {
    check(false, &[Bytecode::Assert, Bytecode::Implies, Bytecode::IsUint, Bytecode::Var(0), Bytecode::Gt, Bytecode::Var(0), Bytecode::Var(0)]);
}

#[test]
fn test_comparator_19() {
    check(true, &[Bytecode::Assert, Bytecode::Implies, Bytecode::IsUint, Bytecode::Var(0), Bytecode::Not, Bytecode::Gt, Bytecode::Var(0), Bytecode::Var(0)]);
}

// ===================================================================
// Arithmetic (Literal)
// ===================================================================

#[test]
fn test_arithmetic_01() {
    check(true, &[Bytecode::Assert, Bytecode::Eq, Bytecode::Int(1), Bytecode::Add, Bytecode::Int(1), Bytecode::Int(0)]);
}

#[test]
fn test_arithmetic_02() {
    check(true, &[Bytecode::Assert, Bytecode::Eq, Bytecode::Int(1), Bytecode::Add, Bytecode::Int(0), Bytecode::Int(1)]);
}

#[test]
fn test_arithmetic_03() {
    check(true, &[Bytecode::Assert, Bytecode::Eq, Bytecode::Int(1), Bytecode::Sub, Bytecode::Int(2), Bytecode::Int(1)]);
}

#[test]
fn test_arithmetic_04() {
    check(true, &[Bytecode::Assert, Bytecode::Eq, Bytecode::Int(0), Bytecode::Mul, Bytecode::Int(1), Bytecode::Int(0)]);
}

#[test]
fn test_arithmetic_05() {
    check(true, &[Bytecode::Assert, Bytecode::Eq, Bytecode::Int(0), Bytecode::Mul, Bytecode::Int(0), Bytecode::Int(1)]);
}

#[test]
fn test_arithmetic_06() {
    check(true, &[Bytecode::Assert, Bytecode::Eq, Bytecode::Int(1), Bytecode::Mul, Bytecode::Int(1), Bytecode::Int(1)]);
}

#[test]
fn test_arithmetic_07() {
    check(true, &[Bytecode::Assert, Bytecode::Eq, Bytecode::Int(2), Bytecode::Mul, Bytecode::Int(2), Bytecode::Int(1)]);
}

#[test]
fn test_arithmetic_08() {
    check(true, &[Bytecode::Assert, Bytecode::Eq, Bytecode::Int(2), Bytecode::Mul, Bytecode::Int(1), Bytecode::Int(2)]);
}

#[test]
fn test_arithmetic_09() {
    check(true, &[Bytecode::Assert, Bytecode::Eq, Bytecode::Int(2), Bytecode::Div, Bytecode::Int(2), Bytecode::Int(1)]);
}

#[test]
fn test_arithmetic_10() {
    check(true, &[Bytecode::Assert, Bytecode::Eq, Bytecode::Int(1), Bytecode::Div, Bytecode::Int(2), Bytecode::Int(2)]);
}

#[test]
fn test_arithmetic_11() {
    check(true, &[Bytecode::Assert, Bytecode::Eq, Bytecode::Int(2), Bytecode::Div, Bytecode::Int(4), Bytecode::Int(2)]);
}

#[test]
fn test_arithmetic_12() {
    check(true, &[Bytecode::Assert, Bytecode::Eq, Bytecode::Int(0), Bytecode::Rem, Bytecode::Int(2), Bytecode::Int(1)]);
}

#[test]
fn test_arithmetic_13() {
    check(true, &[Bytecode::Assert, Bytecode::Eq, Bytecode::Int(1), Bytecode::Rem, Bytecode::Int(1), Bytecode::Int(2)]);
}

#[test]
fn test_arithmetic_14() {
    check(true, &[Bytecode::Assert, Bytecode::Eq, Bytecode::Int(1), Bytecode::Rem, Bytecode::Int(7), Bytecode::Int(3)]);
}

// ===================================================================
// Arithmetic (Variable)
// ===================================================================

#[test]
fn test_arithmetic_15() {
    check(true, &[Bytecode::Assert, Bytecode::Implies, Bytecode::IsUint, Bytecode::Var(0), Bytecode::Neq, Bytecode::Add, Bytecode::Int(1), Bytecode::Var(0), Bytecode::Var(0)]);
}

#[test]
fn test_arithmetic_16() {
    check(true, &[Bytecode::Assert, Bytecode::Implies, Bytecode::IsUint, Bytecode::Var(0), Bytecode::Eq, Bytecode::Add, Bytecode::Int(1), Bytecode::Var(0), Bytecode::Add, Bytecode::Var(0), Bytecode::Int(1)]);
}

#[test]
fn test_arithmetic_17() {
    check(true, &[Bytecode::Assert, Bytecode::Implies, Bytecode::IsUint, Bytecode::Var(0), Bytecode::Eq, Bytecode::Mul, Bytecode::Int(1), Bytecode::Var(0), Bytecode::Mul, Bytecode::Var(0), Bytecode::Int(1)]);
}

#[test]
fn test_arithmetic_18() {
    check(true, &[Bytecode::Assert, Bytecode::Implies, Bytecode::IsUint, Bytecode::Var(0), Bytecode::Eq, Bytecode::Mul, Bytecode::Int(2), Bytecode::Var(0), Bytecode::Mul, Bytecode::Var(0), Bytecode::Int(2)]);
}

#[test]
fn test_arithmetic_19() {
    check(true, &[Bytecode::Assert, Bytecode::Implies, Bytecode::IsUint, Bytecode::Var(0), Bytecode::Eq, Bytecode::Add, Bytecode::Var(0), Bytecode::Var(0), Bytecode::Mul, Bytecode::Var(0), Bytecode::Int(2)]);
}

#[test]
fn test_arithmetic_20() {
    check(true, &[Bytecode::Assert, Bytecode::Implies, Bytecode::IsUint, Bytecode::Var(0), Bytecode::Eq, Bytecode::Mul, Bytecode::Var(0), Bytecode::Int(2), Bytecode::Add, Bytecode::Var(0), Bytecode::Var(0)]);
}

#[test]
fn test_arithmetic_21() {
    check(true, &[Bytecode::Assert, Bytecode::Implies, Bytecode::IsUint, Bytecode::Var(0), Bytecode::Eq, Bytecode::Var(0), Bytecode::Div, Bytecode::Mul, Bytecode::Int(2), Bytecode::Var(0), Bytecode::Int(2)]);
}

// ===================================================================
// Helpers
// ===================================================================

fn check(expect: bool, codes: &[Bytecode]) {
    let program = Program::new(codes.to_vec());
    for r in program.check() {
        match r {
            BoundedResult::Verified(_) => {
                assert!(expect, "verification should have failed");
            }
            BoundedResult::Violated(_) => {
                assert!(!expect, "verification shouldn't have failed");
            }
            BoundedResult::OutOfResource => {
                assert!(!expect, "verification out-of-resource");
            }
        }
    }
}
