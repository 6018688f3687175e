use std::str::FromStr;
use vcg::{BoundedResult, Bytecode, Program};

fn verdicts(program: &Program) -> Vec<&'static str> {
    program
        .check()
        .into_iter()
        .map(|r| match r {
            BoundedResult::Verified(_) => "verified",
            BoundedResult::Violated(_) => "violated",
            BoundedResult::OutOfResource => "out of resource",
        })
        .collect()
}

fn verdicts_of(text: &str) -> Vec<&'static str> {
    verdicts(&Program::from_str(text).unwrap())
}

#[test]
fn one_verdict_per_assertion() {
    let p = Program::new(vec![Bytecode::Assert, Bytecode::Bool(true), Bytecode::Assert, Bytecode::Bool(false)]);
    assert_eq!(verdicts(&p), vec!["verified", "violated"]);
    assert_eq!(verdicts(&Program::new(vec![])), Vec::<&str>::new());
}

#[test]
fn verified_only_when_every_value_is_covered() {
    // A counterexample among the small values.
    assert_eq!(verdicts_of("forall (x) x : uint ==> x < 7"), vec!["violated"]);
    // True of every small value, false of 8: never reported as verified.
    assert_eq!(verdicts_of("forall (x) x : uint ==> x < 8"), vec!["out of resource"]);
    // True of every natural: proved for all of them.
    assert_eq!(verdicts_of("forall (x) x : uint ==> x + x == 2 * x"), vec!["verified"]);
    assert_eq!(verdicts_of("forall (x) x : uint ==> (x * 3) / 3 >= x - 0"), vec!["verified"]);
    assert_eq!(verdicts_of("forall (x) x : uint ==> x + 2 > x"), vec!["verified"]);
    // Both booleans are covered too.
    assert_eq!(verdicts_of("forall (b) b : uint || (b == true || b == false)"), vec!["verified"]);
    // Two variables are never proved for every value.
    assert_eq!(verdicts_of("forall (x, y) x : uint ==> (y : uint ==> x + y >= x)"), vec!["out of resource"]);
    // Only one connective of a level is taken per expression.
    assert!(Program::from_str("true && true && true").is_err());
}

#[test]
fn too_many_variables_is_out_of_resource() {
    let p = Program::new(vec![Bytecode::Assert, Bytecode::Eq, Bytecode::Var(4), Bytecode::Var(4)]);
    assert_eq!(verdicts(&p), vec!["out of resource"]);
}

#[test]
fn overflow_is_out_of_resource() {
    let p = Program::new(vec![Bytecode::Assert, Bytecode::Eq, Bytecode::Add, Bytecode::Int(usize::MAX), Bytecode::Int(1), Bytecode::Int(0)]);
    assert_eq!(verdicts(&p), vec!["out of resource"]);
}

#[test]
fn ill_defined_assertions_are_violated() {
    assert_eq!(verdicts_of("1 / 0 == 0"), vec!["violated"]);
    assert_eq!(verdicts_of("0 - 1 == 0"), vec!["violated"]);
    assert_eq!(verdicts_of("1 + true == 1"), vec!["violated"]);
    assert_eq!(verdicts_of("3"), vec!["violated"]);
}

#[test]
fn one_verdict_per_assert_declaration() {
    // Code that is not a declaration has no assertion to judge.
    assert_eq!(verdicts(&Program::new(vec![Bytecode::Add])), Vec::<&str>::new());
    assert_eq!(
        verdicts(&Program::new(vec![Bytecode::Assert, Bytecode::Bool(true), Bytecode::Int(3), Bytecode::Assert, Bytecode::Bool(true)])),
        vec!["verified"]
    );
    // An assertion cut off before its end has no value.
    assert_eq!(verdicts(&Program::new(vec![Bytecode::Assert, Bytecode::Add, Bytecode::Int(1)])), vec!["violated"]);
    assert_eq!(verdicts_of("fun f (x) { x } true false"), vec!["verified", "violated"]);
}

#[test]
fn functions_are_called() {
    assert_eq!(verdicts_of("fun f (x) { x + 1 } f(2) == 3"), vec!["verified"]);
    assert_eq!(verdicts_of("fun f (x) { x + 1 } f(2) == 4"), vec!["violated"]);
    assert_eq!(
        verdicts_of("recfun g (n) { if n == 0 { 0 } else { g(n - 1) } } g(3) == 0 forall (n) n : uint ==> g(n) == 0"),
        vec!["verified", "out of resource"]
    );
}

#[test]
fn unbounded_recursion_is_out_of_resource() {
    assert_eq!(verdicts_of("recfun h (n) { h(n) } h(1) == 1"), vec!["out of resource"]);
}

#[test]
fn comparison_of_booleans() {
    assert_eq!(verdicts_of("true == true && false != true"), vec!["verified"]);
}
