use vcg::{Bytecode, Environment, Parser, SyntaxError, Token, TokenType};

fn compile(text: &str) -> Result<Vec<Bytecode>, SyntaxError> {
    Parser::new(text).parse()
}

fn ident(offset: usize, len: usize) -> Token {
    Token { kind: TokenType::Identifier, offset, len }
}

#[test]
fn arity_mismatch_is_rejected() {
    assert_eq!(compile("fun f {x} { x } f(1, 2)"), Err(SyntaxError::ArityMismatch(ident(16, 1), 1, 2)));
    assert_eq!(compile("fun f (x) { x } f()"), Err(SyntaxError::ArityMismatch(ident(16, 1), 1, 0)));
}

#[test]
fn call_carries_index_and_arity() {
    let code = compile("fun f (x) { x + 1 } fun g (a, b) { a } g(f(2), 3) == 3").unwrap();
    assert_eq!(
        code,
        vec![
            Bytecode::Fun(1),
            Bytecode::Add,
            Bytecode::Var(0),
            Bytecode::Int(1),
            Bytecode::Fun(2),
            Bytecode::Var(0),
            Bytecode::Assert,
            Bytecode::Eq,
            Bytecode::Invoke(1, 2),
            Bytecode::Invoke(0, 1),
            Bytecode::Int(2),
            Bytecode::Int(3),
            Bytecode::Int(3),
        ]
    );
}

#[test]
fn parsing_is_deterministic() {
    let text = "forall (x, y) x : uint ==> x + y >= x";
    assert_eq!(compile(text), compile(text));
    assert!(compile(text).is_ok());
}

#[test]
fn operators_are_emitted_in_prefix_order() {
    assert_eq!(compile("1 + 2"), Ok(vec![Bytecode::Assert, Bytecode::Add, Bytecode::Int(1), Bytecode::Int(2)]));
    assert_eq!(
        compile("forall (x) x : uint ==> x == x"),
        Ok(vec![
            Bytecode::Assert,
            Bytecode::Implies,
            Bytecode::IsUint,
            Bytecode::Var(0),
            Bytecode::Eq,
            Bytecode::Var(0),
            Bytecode::Var(0),
        ])
    );
    assert_eq!(
        compile("1 * 2 < 3 && true"),
        Ok(vec![
            Bytecode::Assert,
            Bytecode::And,
            Bytecode::Lt,
            Bytecode::Mul,
            Bytecode::Int(1),
            Bytecode::Int(2),
            Bytecode::Int(3),
            Bytecode::Bool(true),
        ])
    );
}

#[test]
fn variables_resolve_to_slots_of_their_own_declaration() {
    assert_eq!(
        compile("fun f (a, b) { b } forall {b} b == b"),
        Ok(vec![
            Bytecode::Fun(2),
            Bytecode::Var(1),
            Bytecode::Assert,
            Bytecode::Eq,
            Bytecode::Var(0),
            Bytecode::Var(0),
        ])
    );
    // The parameters of `f` are not in scope in the next declaration.
    assert_eq!(compile("fun f (a) { a } a"), Err(SyntaxError::UnknownVariable(ident(16, 1))));
}

#[test]
fn recursive_functions_see_themselves() {
    assert_eq!(
        compile("recfun g (n) { if n == 0 { 0 } else { g(n - 1) } }"),
        Ok(vec![
            Bytecode::RecFun(1),
            Bytecode::If,
            Bytecode::Eq,
            Bytecode::Var(0),
            Bytecode::Int(0),
            Bytecode::Int(0),
            Bytecode::Invoke(0, 1),
            Bytecode::Sub,
            Bytecode::Var(0),
            Bytecode::Int(1),
        ])
    );
    // A plain function is declared only after its body.
    assert_eq!(compile("fun g (n) { g(n) }"), Err(SyntaxError::UnknownFunction(ident(12, 1))));
}

#[test]
fn negation_and_braces() {
    assert_eq!(
        compile("!(true || false)"),
        Ok(vec![Bytecode::Assert, Bytecode::Not, Bytecode::Or, Bytecode::Bool(true), Bytecode::Bool(false)])
    );
}

#[test]
fn syntax_errors() {
    assert_eq!(compile("g(1)"), Err(SyntaxError::UnknownFunction(ident(0, 1))));
    assert_eq!(compile("fun f (x, x) { x }"), Err(SyntaxError::DuplicateParameter(ident(10, 1))));
    assert_eq!(compile("1 # 2"), Err(SyntaxError::UnexpectedCharacter('#', 2)));
    assert_eq!(
        compile(")"),
        Err(SyntaxError::UnexpectedToken(Token { kind: TokenType::RightBrace, offset: 0, len: 1 }))
    );
    assert_eq!(
        compile("forall (x) x : true"),
        Err(SyntaxError::UnexpectedToken(Token { kind: TokenType::BoolLiteral(true), offset: 15, len: 4 }))
    );
    assert_eq!(
        compile("if true { 1 }"),
        Err(SyntaxError::UnexpectedToken(Token { kind: TokenType::EOF, offset: 13, len: 0 }))
    );
    assert_eq!(
        compile("99999999999999999999999"),
        Err(SyntaxError::IntegerOverflow(Token { kind: TokenType::IntLiteral, offset: 0, len: 23 }))
    );
}

#[test]
fn empty_program_compiles_to_nothing() {
    assert_eq!(compile(" // nothing here\n"), Ok(vec![]));
}

#[test]
fn parse_expr_emits_one_expression() {
    let mut p = Parser::new("1 < 2");
    assert_eq!(p.parse_expr(), Ok(()));
    assert_eq!(p.parse(), Ok(vec![Bytecode::Lt, Bytecode::Int(1), Bytecode::Int(2)]));
}

#[test]
fn environment_bindings() {
    let mut env = Environment::new();
    assert_eq!(env.lookup_fn("f"), None);
    env.alloc_fn("f", 2);
    env.alloc_fn("g", 0);
    env.alloc_fn("f", 1);
    assert_eq!(env.lookup_fn("f"), Some((2, 1)));
    assert_eq!(env.lookup_fn("g"), Some((1, 0)));
    env.alloc_vars(&[String::from("a"), String::from("b")]);
    assert_eq!(env.lookup_var("b"), Some(1));
    assert_eq!(env.lookup_var("c"), None);
    env.alloc_vars(&[String::from("c")]);
    assert_eq!(env.lookup_var("c"), Some(0));
    assert_eq!(env.lookup_var("a"), None);
    // The most recently bound slot of a repeated name.
    env.alloc_vars(&[String::from("x"), String::from("y"), String::from("x")]);
    assert_eq!(env.lookup_var("x"), Some(2));
    assert_eq!(env.lookup_var("y"), Some(1));
}
