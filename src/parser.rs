use vstd::prelude::*;
use crate::bytecode::Bytecode;
use crate::error::SyntaxError;
use crate::lexer::{expect_at, lex_at, lex_nth, match_any_at, matches_at, token_text, Lexer, Token, TokenType};

verus! {

// ===================================================================
// Binding environment
// ===================================================================

/// The last slot among the first `i` that binds `name`.
pub open spec fn find_var(vars: Seq<Seq<char>>, name: Seq<char>, i: int) -> Option<nat>
    decreases i,
{
    if i <= 0 || i > vars.len() {
        None
    } else if vars[i - 1] == name {
        Some((i - 1) as nat)
    } else {
        find_var(vars, name, i - 1)
    }
}

/// The slot that binds `name` in a parameter list: the one most recently
/// bound, where the list names it more than once.
pub open spec fn var_slot(vars: Seq<Seq<char>>, name: Seq<char>) -> Option<nat> {
    find_var(vars, name, vars.len() as int)
}

/// The last function among the first `i` that is named `name`.
pub open spec fn find_fn(fns: Seq<(Seq<char>, nat)>, name: Seq<char>, i: int) -> Option<nat>
    decreases i,
{
    if i <= 0 || i > fns.len() {
        None
    } else if fns[i - 1].0 == name {
        Some((i - 1) as nat)
    } else {
        find_fn(fns, name, i - 1)
    }
}

/// The index of the most recent declaration of the function `name`.
pub open spec fn fn_index(fns: Seq<(Seq<char>, nat)>, name: Seq<char>) -> Option<nat> {
    find_fn(fns, name, fns.len() as int)
}

/// A slot found for `name` among the first `i` binds it, and no later one
/// of them does.
pub proof fn lemma_find_var_found(vars: Seq<Seq<char>>, name: Seq<char>, i: int)
    requires
        i <= vars.len(),
    ensures
        find_var(vars, name, i) matches Some(k) ==> k < i && vars[k as int] == name && forall|
            j: int,
        |
            k < j < i ==> vars[j] != name,
        find_var(vars, name, i) is None ==> forall|j: int| 0 <= j < i ==> vars[j] != name,
    decreases i,
{
    if i > 0 && vars[i - 1] != name {
        lemma_find_var_found(vars, name, i - 1);
    }
}

/// The names in scope while one program is compiled: the parameters of
/// the declaration being compiled, each at its slot, and every function
/// declared so far, with its index (its place in declaration order) and
/// its arity.
///
/// Bindings are kept in order of binding, not keyed by name: a name may be
/// bound more than once, and a lookup finds its most recent binding, which
/// is what a map from names would hold after the same insertions.
pub struct Environment {
    /// Names of the declared functions, in declaration order.
    fn_names: Vec<String>,
    /// Arities of the declared functions, in declaration order.
    fn_arities: Vec<usize>,
    /// Names of the variables in scope, by slot.
    var_bindings: Vec<String>,
}

impl Environment {
    /// The variables in scope, by slot.
    pub closed spec fn vars(&self) -> Seq<Seq<char>> {
        self.var_bindings@.map_values(|s: String| s@)
    }

    /// The declared functions, by index: name and arity.
    pub closed spec fn fns(&self) -> Seq<(Seq<char>, nat)> {
        Seq::new(self.fn_names@.len(), |i: int| (self.fn_names@[i]@, self.fn_arities@[i] as nat))
    }

    pub closed spec fn wf(&self) -> bool {
        self.fn_names@.len() == self.fn_arities@.len()
    }

    /// An environment with no functions and no variables.
    pub fn new() -> (r: Self)
        ensures
            r.wf(),
            r.vars() == Seq::<Seq<char>>::empty(),
            r.fns() == Seq::<(Seq<char>, nat)>::empty(),
    {
        let r = Environment { fn_names: Vec::new(), fn_arities: Vec::new(), var_bindings: Vec::new() };
        assert(r.vars() =~= Seq::<Seq<char>>::empty());
        assert(r.fns() =~= Seq::<(Seq<char>, nat)>::empty());
        r
    }

    /// Declares the function `name` with `arity`, at the next index.
    pub fn alloc_fn(&mut self, name: &str, arity: usize)
        requires
            old(self).wf(),
        ensures
            final(self).wf(),
            final(self).vars() == old(self).vars(),
            final(self).fns() == old(self).fns().push((name@, arity as nat)),
    {
        self.fn_names.push(name.to_owned());
        self.fn_arities.push(arity);
        assert(self.fns() =~= old(self).fns().push((name@, arity as nat)));
    }

    /// Makes `vars` the variables in scope, each at its position.
    pub fn alloc_vars(&mut self, vars: &[String])
        requires
            old(self).wf(),
        ensures
            final(self).wf(),
            final(self).fns() == old(self).fns(),
            final(self).vars() == vars@.map_values(|s: String| s@),
    {
        self.var_bindings.clear();
        let mut i: usize = 0;
        while i < vars.len()
            invariant
                i <= vars@.len(),
                self.wf(),
                self.fns() == old(self).fns(),
                self.var_bindings@ == vars@.subrange(0, i as int),
            decreases vars@.len() - i,
        {
            self.var_bindings.push(vars[i].clone());
            i += 1;
            assert(self.var_bindings@ =~= vars@.subrange(0, i as int));
        }
        assert(vars@.subrange(0, i as int) =~= vars@);
    }

    /// The index and arity of the most recent function named `name`.
    pub fn lookup_fn(&self, name: &str) -> (r: Option<(usize, usize)>)
        requires
            self.wf(),
        ensures
            match fn_index(self.fns(), name@) {
                Some(i) => r == Some((i as usize, self.fns()[i as int].1 as usize)),
                None => r is None,
            },
            r matches Some((i, a)) ==> i < self.fns().len() && self.fns()[i as int].1 == a as nat
                && fn_index(self.fns(), name@) == Some(i as nat),
    {
        let key = name.to_owned();
        let mut i: usize = self.fn_names.len();
        while i > 0
            invariant
                self.wf(),
                i <= self.fn_names@.len(),
                key@ == name@,
                fn_index(self.fns(), name@) == find_fn(self.fns(), name@, i as int),
            decreases i,
        {
            if self.fn_names[i - 1] == key {
                return Some((i - 1, self.fn_arities[i - 1]));
            }
            i -= 1;
        }
        None
    }

    /// The slot of the variable `name`, the most recently bound one where
    /// the variables in scope name it more than once.
    pub fn lookup_var(&self, name: &str) -> (r: Option<usize>)
        ensures
            match var_slot(self.vars(), name@) {
                Some(i) => r == Some(i as usize),
                None => r is None,
            },
    {
        let key = name.to_owned();
        let mut i: usize = self.var_bindings.len();
        while i > 0
            invariant
                i <= self.var_bindings@.len(),
                key@ == name@,
                var_slot(self.vars(), name@) == find_var(self.vars(), name@, i as int),
            decreases i,
        {
            if self.var_bindings[i - 1] == key {
                return Some(i - 1);
            }
            i -= 1;
        }
        None
    }
}

// ===================================================================
// The grammar, as a specification
// ===================================================================

/// What a compilation has produced at a point of the input: the read
/// position, the variables in scope, the functions declared so far and
/// the code emitted.
pub struct PState {
    pub off: nat,
    pub vars: Seq<Seq<char>>,
    pub fns: Seq<(Seq<char>, nat)>,
    pub code: Seq<Bytecode>,
}

/// Where a compilation starts.
pub open spec fn initial_state() -> PState {
    PState { off: 0, vars: Seq::empty(), fns: Seq::empty(), code: Seq::empty() }
}

pub open spec fn moved(st: PState, off: nat) -> PState {
    PState { off, ..st }
}

pub open spec fn emit(st: PState, b: Bytecode) -> PState {
    PState { code: st.code.push(b), ..st }
}

/// Whether the position moved from `a` to `b` without leaving the input.
/// Compilation never moves backwards: the executable parser proves this of
/// each step it takes, so on the states that a compilation reaches, every
/// check of `onward` and `past` below holds. The checks are there so that
/// the definitions terminate.
pub open spec fn onward(chars: Seq<char>, a: nat, b: nat) -> bool {
    a <= b <= chars.len()
}

/// Whether the position moved strictly forward from `a` to `b`.
pub open spec fn past(chars: Seq<char>, a: nat, b: nat) -> bool {
    a < b <= chars.len()
}

/// The binary connectives of each precedence level, from the tightest (1)
/// to the loosest (3).
pub open spec fn connectives(level: nat) -> Seq<TokenType> {
    if level == 1 {
        seq![TokenType::Minus, TokenType::Percent, TokenType::Plus, TokenType::RightSlash, TokenType::Star]
    } else if level == 2 {
        seq![
            TokenType::EqualsEquals,
            TokenType::ShreakEquals,
            TokenType::LeftAngle,
            TokenType::LeftAngleEquals,
            TokenType::RightAngle,
            TokenType::RightAngleEquals,
        ]
    } else {
        seq![TokenType::AmpersandAmpersand, TokenType::BarBar, TokenType::LongRightArrow]
    }
}

/// The instruction of a binary connective.
pub open spec fn binop(kind: TokenType) -> Bytecode {
    match kind {
        TokenType::EqualsEquals => Bytecode::Eq,
        TokenType::ShreakEquals => Bytecode::Neq,
        TokenType::LeftAngle => Bytecode::Lt,
        TokenType::LeftAngleEquals => Bytecode::LtEq,
        TokenType::RightAngle => Bytecode::Gt,
        TokenType::RightAngleEquals => Bytecode::GtEq,
        TokenType::Minus => Bytecode::Sub,
        TokenType::Percent => Bytecode::Rem,
        TokenType::Plus => Bytecode::Add,
        TokenType::RightSlash => Bytecode::Div,
        TokenType::Star => Bytecode::Mul,
        TokenType::AmpersandAmpersand => Bytecode::And,
        TokenType::BarBar => Bytecode::Or,
        _ => Bytecode::Implies,
    }
}

/// The value of a decimal digit.
pub open spec fn digit_value(c: char) -> nat {
    if '0' <= c && c <= '9' {
        ((c as u32) - ('0' as u32)) as nat
    } else {
        0
    }
}

/// The value of a run of decimal digits.
pub open spec fn decimal(s: Seq<char>) -> nat
    decreases s.len(),
{
    if s.len() == 0 {
        0
    } else {
        decimal(s.drop_last()) * 10 + digit_value(s.last())
    }
}

/// An expression: the loosest binary level.
pub open spec fn p_expr(chars: Seq<char>, st: PState) -> Result<PState, SyntaxError>
    decreases chars.len() - st.off, 20nat,
{
    p_binary(chars, st, 3)
}

/// A binary expression at `level`: an operand of the level below,
/// optionally followed by one connective of this level and a second
/// operand. The connective is placed before the first operand's code.
pub open spec fn p_binary(chars: Seq<char>, st: PState, level: nat) -> Result<PState, SyntaxError>
    decreases chars.len() - st.off, 10 + level,
{
    if level == 0 {
        p_postfix(chars, st)
    } else {
        let index = st.code.len();
        match p_binary(chars, st, (level - 1) as nat) {
            Err(e) => Err(e),
            Ok(st1) => match match_any_at(chars, st1.off, connectives(level)) {
                Err(e) => Err(e),
                Ok((None, _)) => Ok(st1),
                Ok((Some(t), off2)) => if onward(chars, st.off, st1.off) && past(
                    chars,
                    st1.off,
                    off2,
                ) {
                    let st2 = PState { off: off2, code: st1.code.insert(index as int, binop(t.kind)), ..st1 };
                    p_binary(chars, st2, (level - 1) as nat)
                } else {
                    Ok(st1)
                },
            },
        }
    }
}

/// A unit, optionally followed by `: type`; the type test is placed
/// before the unit's code.
pub open spec fn p_postfix(chars: Seq<char>, st: PState) -> Result<PState, SyntaxError>
    decreases chars.len() - st.off, 9nat,
{
    let index = st.code.len();
    match p_unit(chars, st) {
        Err(e) => Err(e),
        Ok(st1) => match matches_at(chars, st1.off, TokenType::Colon) {
            Err(e) => Err(e),
            Ok((false, _)) => Ok(st1),
            Ok((true, off2)) => match lex_at(chars, off2) {
                Err(e) => Err(e),
                Ok(t) => if t.kind == TokenType::Uint {
                    Ok(
                        PState {
                            off: (t.offset + t.len) as nat,
                            code: st1.code.insert(index as int, Bytecode::IsUint),
                            ..st1
                        },
                    )
                } else {
                    Err(SyntaxError::UnexpectedToken(t))
                },
            },
        },
    }
}

/// A literal, a parenthesised expression, a call, a variable, a negation
/// or a conditional, chosen by the next token.
pub open spec fn p_unit(chars: Seq<char>, st: PState) -> Result<PState, SyntaxError>
    decreases chars.len() - st.off, 8nat,
{
    match lex_at(chars, st.off) {
        Err(e) => Err(e),
        Ok(t) => match t.kind {
            TokenType::BoolLiteral(v) => p_bool(chars, st, v),
            TokenType::LeftBrace => p_braced(chars, st),
            TokenType::Identifier => match lex_nth(chars, st.off, 1) {
                Err(e) => Err(e),
                Ok(t1) => if t1.kind == TokenType::LeftBrace {
                    p_invoke(chars, st)
                } else {
                    p_varaccess(chars, st)
                },
            },
            TokenType::IntLiteral => p_int(chars, st),
            TokenType::Shreak => p_not(chars, st),
            TokenType::If => p_ifelse(chars, st),
            _ => Err(SyntaxError::UnexpectedToken(t)),
        },
    }
}

/// `( expr )`
pub open spec fn p_braced(chars: Seq<char>, st: PState) -> Result<PState, SyntaxError>
    decreases chars.len() - st.off, 7nat,
{
    match expect_at(chars, st.off, TokenType::LeftBrace) {
        Err(e) => Err(e),
        Ok((_, off1)) => if past(chars, st.off, off1) {
            match p_expr(chars, moved(st, off1)) {
                Err(e) => Err(e),
                Ok(st2) => match expect_at(chars, st2.off, TokenType::RightBrace) {
                    Err(e) => Err(e),
                    Ok((_, off3)) => Ok(moved(st2, off3)),
                },
            }
        } else {
            Ok(moved(st, off1))
        },
    }
}

/// `! expr`
pub open spec fn p_not(chars: Seq<char>, st: PState) -> Result<PState, SyntaxError>
    decreases chars.len() - st.off, 7nat,
{
    match expect_at(chars, st.off, TokenType::Shreak) {
        Err(e) => Err(e),
        Ok((_, off1)) => if past(chars, st.off, off1) {
            p_expr(chars, emit(moved(st, off1), Bytecode::Not))
        } else {
            Ok(moved(st, off1))
        },
    }
}

/// `if expr { expr } else { expr }`
pub open spec fn p_ifelse(chars: Seq<char>, st: PState) -> Result<PState, SyntaxError>
    decreases chars.len() - st.off, 7nat,
{
    match expect_at(chars, st.off, TokenType::If) {
        Err(e) => Err(e),
        Ok((_, off1)) => if past(chars, st.off, off1) {
            match p_expr(chars, emit(moved(st, off1), Bytecode::If)) {
                Err(e) => Err(e),
                Ok(st2) => if onward(chars, off1, st2.off) {
                    match p_block(chars, st2) {
                        Err(e) => Err(e),
                        Ok(st3) => match expect_at(chars, st3.off, TokenType::Else) {
                            Err(e) => Err(e),
                            Ok((_, off4)) => if onward(chars, st2.off, st3.off) && onward(
                                chars,
                                st3.off,
                                off4,
                            ) {
                                p_block(chars, moved(st3, off4))
                            } else {
                                Ok(st3)
                            },
                        },
                    }
                } else {
                    Ok(st2)
                },
            }
        } else {
            Ok(moved(st, off1))
        },
    }
}

/// `{ expr }`
pub open spec fn p_block(chars: Seq<char>, st: PState) -> Result<PState, SyntaxError>
    decreases chars.len() - st.off, 5nat,
{
    match expect_at(chars, st.off, TokenType::LeftCurly) {
        Err(e) => Err(e),
        Ok((_, off1)) => if past(chars, st.off, off1) {
            match p_expr(chars, moved(st, off1)) {
                Err(e) => Err(e),
                Ok(st2) => match expect_at(chars, st2.off, TokenType::RightCurly) {
                    Err(e) => Err(e),
                    Ok((_, off3)) => Ok(moved(st2, off3)),
                },
            }
        } else {
            Ok(moved(st, off1))
        },
    }
}

/// `name ( args )`: a call of a declared function, with as many
/// arguments as it was declared with.
pub open spec fn p_invoke(chars: Seq<char>, st: PState) -> Result<PState, SyntaxError>
    decreases chars.len() - st.off, 7nat,
{
    match expect_at(chars, st.off, TokenType::Identifier) {
        Err(e) => Err(e),
        Ok((id, off1)) => match fn_index(st.fns, token_text(chars, id)) {
            None => Err(SyntaxError::UnknownFunction(id)),
            Some(i) => {
                let arity = st.fns[i as int].1;
                match expect_at(chars, off1, TokenType::LeftBrace) {
                    Err(e) => Err(e),
                    Ok((_, off2)) => if past(chars, st.off, off2) {
                        let st2 = emit(moved(st, off2), Bytecode::Invoke(i as usize, arity as usize));
                        match p_exprs_until(chars, st2, TokenType::RightBrace, 0) {
                            Err(e) => Err(e),
                            Ok((st3, n)) => match expect_at(chars, st3.off, TokenType::RightBrace) {
                                Err(e) => Err(e),
                                Ok((_, off4)) => if n != arity {
                                    Err(SyntaxError::ArityMismatch(id, arity as usize, n as usize))
                                } else {
                                    Ok(moved(st3, off4))
                                },
                            },
                        }
                    } else {
                        Ok(moved(st, off2))
                    },
                }
            },
        },
    }
}

/// Comma-separated expressions up to a token of kind `end` (not
/// consumed), `n` of them already parsed; gives the state and the number
/// in all.
pub open spec fn p_exprs_until(chars: Seq<char>, st: PState, end: TokenType, n: nat) -> Result<
    (PState, nat),
    SyntaxError,
>
    decreases chars.len() - st.off, 21nat,
{
    match lex_at(chars, st.off) {
        Err(e) => Err(e),
        Ok(t) => if t.kind == end {
            Ok((st, n))
        } else {
            let sep = if n != 0 {
                expect_at(chars, st.off, TokenType::Comma)
            } else {
                Ok((t, st.off))
            };
            match sep {
                Err(e) => Err(e),
                Ok((_, off1)) => if onward(chars, st.off, off1) {
                    match p_expr(chars, moved(st, off1)) {
                        Err(e) => Err(e),
                        Ok(st2) => if past(chars, st.off, st2.off) {
                            p_exprs_until(chars, st2, end, n + 1)
                        } else {
                            Ok((st2, n + 1))
                        },
                    }
                } else {
                    Ok((st, n))
                },
            }
        },
    }
}

/// The boolean literal `v`.
#[verifier::opaque]
pub open spec fn p_bool(chars: Seq<char>, st: PState, v: bool) -> Result<PState, SyntaxError> {
    match expect_at(chars, st.off, TokenType::BoolLiteral(v)) {
        Err(e) => Err(e),
        Ok((_, off1)) => Ok(emit(moved(st, off1), Bytecode::Bool(v))),
    }
}

/// A variable in scope, compiled to its slot.
#[verifier::opaque]
pub open spec fn p_varaccess(chars: Seq<char>, st: PState) -> Result<PState, SyntaxError> {
    match expect_at(chars, st.off, TokenType::Identifier) {
        Err(e) => Err(e),
        Ok((id, off1)) => match var_slot(st.vars, token_text(chars, id)) {
            None => Err(SyntaxError::UnknownVariable(id)),
            Some(slot) => Ok(emit(moved(st, off1), Bytecode::Var(slot as usize))),
        },
    }
}

/// An integer literal that fits in a machine word.
#[verifier::opaque]
pub open spec fn p_int(chars: Seq<char>, st: PState) -> Result<PState, SyntaxError> {
    match expect_at(chars, st.off, TokenType::IntLiteral) {
        Err(e) => Err(e),
        Ok((tok, off1)) => {
            let v = decimal(token_text(chars, tok));
            if v > usize::MAX {
                Err(SyntaxError::IntegerOverflow(tok))
            } else {
                Ok(emit(moved(st, off1), Bytecode::Int(v as usize)))
            }
        },
    }
}

/// Parameter names up to and including the token of kind `close`, after
/// `params`; gives the whole list and the position after `close`.
pub open spec fn p_params(chars: Seq<char>, off: nat, params: Seq<Seq<char>>, close: TokenType) -> Result<
    (Seq<Seq<char>>, nat),
    SyntaxError,
>
    decreases chars.len() - off,
{
    match lex_at(chars, off) {
        Err(e) => Err(e),
        Ok(t) => if t.kind == close {
            Ok((params, (t.offset + t.len) as nat))
        } else {
            let sep = if params.len() != 0 {
                expect_at(chars, off, TokenType::Comma)
            } else {
                Ok((t, off))
            };
            match sep {
                Err(e) => Err(e),
                Ok((_, off1)) => match expect_at(chars, off1, TokenType::Identifier) {
                    Err(e) => Err(e),
                    Ok((id, off2)) => {
                        let name = token_text(chars, id);
                        if params.contains(name) {
                            Err(SyntaxError::DuplicateParameter(id))
                        } else if past(chars, off, off2) {
                            p_params(chars, off2, params.push(name), close)
                        } else {
                            Ok((params.push(name), off2))
                        }
                    },
                },
            }
        },
    }
}

/// The token that closes a parameter list opened by a token of `open`:
/// a list is written in parentheses or in curly braces.
pub open spec fn closing(open: TokenType) -> TokenType {
    if open == TokenType::LeftCurly {
        TokenType::RightCurly
    } else {
        TokenType::RightBrace
    }
}

/// `( name, ... )` or `{ name, ... }`: distinct parameter names.
#[verifier::opaque]
pub open spec fn p_decl_params(chars: Seq<char>, off: nat) -> Result<
    (Seq<Seq<char>>, nat),
    SyntaxError,
> {
    match lex_at(chars, off) {
        Err(e) => Err(e),
        Ok(t) => {
            let open = if t.kind == TokenType::LeftCurly {
                TokenType::LeftCurly
            } else {
                TokenType::LeftBrace
            };
            match expect_at(chars, off, open) {
                Err(e) => Err(e),
                Ok((_, off1)) => p_params(chars, off1, Seq::empty(), closing(open)),
            }
        },
    }
}

/// A bare assertion: an expression, with no variables in scope.
#[verifier::opaque]
pub open spec fn p_decl_assert(chars: Seq<char>, st: PState) -> Result<PState, SyntaxError> {
    p_expr(chars, emit(PState { vars: Seq::empty(), ..st }, Bytecode::Assert))
}

/// `forall (params) expr`: an assertion over its parameters.
#[verifier::opaque]
pub open spec fn p_decl_forall(chars: Seq<char>, st: PState) -> Result<PState, SyntaxError> {
    match expect_at(chars, st.off, TokenType::ForAll) {
        Err(e) => Err(e),
        Ok((_, off1)) => match p_decl_params(chars, off1) {
            Err(e) => Err(e),
            Ok((params, off2)) => p_expr(
                chars,
                emit(PState { off: off2, vars: params, ..st }, Bytecode::Assert),
            ),
        },
    }
}

/// `fun name (params) { body }`: the function is declared after its
/// body, which therefore cannot call it.
#[verifier::opaque]
pub open spec fn p_decl_fun(chars: Seq<char>, st: PState) -> Result<PState, SyntaxError> {
    match expect_at(chars, st.off, TokenType::Fun) {
        Err(e) => Err(e),
        Ok((_, off1)) => match expect_at(chars, off1, TokenType::Identifier) {
            Err(e) => Err(e),
            Ok((id, off2)) => match p_decl_params(chars, off2) {
                Err(e) => Err(e),
                Ok((params, off3)) => {
                    let arity = params.len();
                    let st3 = emit(
                        PState { off: off3, vars: params, ..st },
                        Bytecode::Fun(arity as usize),
                    );
                    match p_block(chars, st3) {
                        Err(e) => Err(e),
                        Ok(st4) => Ok(
                            PState { fns: st4.fns.push((token_text(chars, id), arity)), ..st4 },
                        ),
                    }
                },
            },
        },
    }
}

/// `recfun name (params) { body }`: the function is declared before its
/// body, which can therefore call it.
#[verifier::opaque]
pub open spec fn p_decl_recfun(chars: Seq<char>, st: PState) -> Result<PState, SyntaxError> {
    match expect_at(chars, st.off, TokenType::RecFun) {
        Err(e) => Err(e),
        Ok((_, off1)) => match expect_at(chars, off1, TokenType::Identifier) {
            Err(e) => Err(e),
            Ok((id, off2)) => match p_decl_params(chars, off2) {
                Err(e) => Err(e),
                Ok((params, off3)) => {
                    let arity = params.len();
                    let st3 = emit(
                        PState {
                            off: off3,
                            vars: params,
                            fns: st.fns.push((token_text(chars, id), arity)),
                            ..st
                        },
                        Bytecode::RecFun(arity as usize),
                    );
                    p_block(chars, st3)
                },
            },
        },
    }
}

/// One declaration, chosen by its first token.
#[verifier::opaque]
pub open spec fn p_declaration(chars: Seq<char>, st: PState) -> Result<PState, SyntaxError> {
    match lex_at(chars, st.off) {
        Err(e) => Err(e),
        Ok(t) => match t.kind {
            TokenType::ForAll => p_decl_forall(chars, st),
            TokenType::Fun => p_decl_fun(chars, st),
            TokenType::RecFun => p_decl_recfun(chars, st),
            _ => p_decl_assert(chars, st),
        },
    }
}

/// Declarations up to the end of the input; gives the code of all.
pub open spec fn p_program(chars: Seq<char>, st: PState) -> Result<Seq<Bytecode>, SyntaxError>
    decreases chars.len() - st.off,
{
    match lex_at(chars, st.off) {
        Err(e) => Err(e),
        Ok(t) => if t.kind == TokenType::EOF {
            Ok(st.code)
        } else {
            match p_declaration(chars, st) {
                Err(e) => Err(e),
                Ok(st1) => if past(chars, st.off, st1.off) {
                    p_program(chars, st1)
                } else {
                    Ok(st1.code)
                },
            }
        },
    }
}

/// The code that a source text compiles to, or why it does not compile.
pub open spec fn compile(text: Seq<char>) -> Result<Seq<Bytecode>, SyntaxError> {
    p_program(text, initial_state())
}

// ===================================================================
// Parser
// ===================================================================

/// Whether an executable parse step did what the specification says: on
/// success it reached the specified state, on failure it gave the
/// specified error.
pub open spec fn parsed(r: Result<(), SyntaxError>, st: PState, s: Result<PState, SyntaxError>) -> bool {
    match s {
        Ok(s1) => r is Ok && st == s1,
        Err(e) => r == Err::<(), SyntaxError>(e),
    }
}

/// The names of a parameter list.
pub open spec fn names(params: Seq<String>) -> Seq<Seq<char>> {
    params.map_values(|s: String| s@)
}

/// A recursive-descent compiler from source text to bytecode.
pub struct Parser {
    /// The tokens being read.
    lexer: Lexer,
    /// The names in scope.
    env: Environment,
    /// The code emitted so far.
    bytecodes: Vec<Bytecode>,
}

impl Parser {
    /// The source being compiled.
    pub closed spec fn chars(&self) -> Seq<char> {
        self.lexer.chars()
    }

    /// The read position, the names in scope and the code emitted so far.
    pub closed spec fn state(&self) -> PState {
        PState {
            off: self.lexer.pos(),
            vars: self.env.vars(),
            fns: self.env.fns(),
            code: self.bytecodes@,
        }
    }

    pub closed spec fn wf(&self) -> bool {
        &&& self.lexer.wf()
        &&& self.env.wf()
        &&& self.lexer.pos() <= self.lexer.chars().len() <= usize::MAX
    }

    /// Constructs a parser at the start of `content`, with nothing declared.
    pub fn new(content: &str) -> (r: Self)
        ensures
            r.wf(),
            r.chars() == content@,
            r.state() == initial_state(),
    {
        let lexer = Lexer::new(content);
        let env = Environment::new();
        let r = Parser { lexer, env, bytecodes: Vec::new() };
        assert(r.state().code =~= Seq::<Bytecode>::empty());
        r
    }

    /// Compiles the declarations from the read position to the end of the
    /// input, and returns all code emitted.
    pub fn parse(self) -> (r: Result<Vec<Bytecode>, SyntaxError>)
        requires
            self.wf(),
        ensures
            match p_program(self.chars(), self.state()) {
                Ok(c) => r matches Ok(v) && v@ == c,
                Err(e) => r == Err::<Vec<Bytecode>, SyntaxError>(e),
            },
    {
        let ghost chars = self.chars();
        let ghost st0 = self.state();
        let mut p = self;
        loop
            invariant
                p.wf(),
                p.chars() == chars,
                chars == self.chars(),
                st0 == self.state(),
                p_program(chars, st0) == p_program(chars, p.state()),
            decreases chars.len() - p.state().off,
        {
            let lookahead = p.lexer.lookahead(0)?;
            if lookahead.kind == TokenType::EOF {
                return Ok(p.bytecodes);
            }
            p.parse_declaration()?;
        }
    }

    fn parse_declaration(&mut self) -> (r: Result<(), SyntaxError>)
        requires
            old(self).wf(),
            lex_at(old(self).chars(), old(self).state().off) matches Ok(t) && t.kind
                != TokenType::EOF,
        ensures
            final(self).wf(),
            final(self).chars() == old(self).chars(),
            parsed(r, final(self).state(), p_declaration(old(self).chars(), old(self).state())),
            r is Ok ==> old(self).state().off < final(self).state().off,
    {
        reveal(p_declaration);
        let lookahead = self.lexer.lookahead(0)?;
        match lookahead.kind {
            TokenType::ForAll => self.parse_decl_forall(),
            TokenType::Fun => self.parse_decl_fun(),
            TokenType::RecFun => self.parse_decl_recfun(),
            _ => self.parse_decl_assert(),
        }
    }

    // ===============================================================
    // Declarations
    // ===============================================================

    fn parse_decl_assert(&mut self) -> (r: Result<(), SyntaxError>)
        requires
            old(self).wf(),
        ensures
            final(self).wf(),
            final(self).chars() == old(self).chars(),
            parsed(r, final(self).state(), p_decl_assert(old(self).chars(), old(self).state())),
            r is Ok ==> old(self).state().off < final(self).state().off,
    {
        reveal(p_decl_assert);
        // A bare assertion has no variables in scope.
        let none: Vec<String> = Vec::new();
        self.env.alloc_vars(none.as_slice());
        proof {
            assert(names(none@) =~= Seq::<Seq<char>>::empty());
        }
        self.bytecodes.push(Bytecode::Assert);
        self.parse_expr()
    }

    fn parse_decl_forall(&mut self) -> (r: Result<(), SyntaxError>)
        requires
            old(self).wf(),
        ensures
            final(self).wf(),
            final(self).chars() == old(self).chars(),
            parsed(r, final(self).state(), p_decl_forall(old(self).chars(), old(self).state())),
            r is Ok ==> old(self).state().off < final(self).state().off,
    {
        reveal(p_decl_forall);
        self.lexer.expect(TokenType::ForAll)?;
        let params = self.parse_decl_params()?;
        self.env.alloc_vars(params.as_slice());
        self.bytecodes.push(Bytecode::Assert);
        self.parse_expr()
    }

    fn parse_decl_fun(&mut self) -> (r: Result<(), SyntaxError>)
        requires
            old(self).wf(),
        ensures
            final(self).wf(),
            final(self).chars() == old(self).chars(),
            parsed(r, final(self).state(), p_decl_fun(old(self).chars(), old(self).state())),
            r is Ok ==> old(self).state().off < final(self).state().off,
    {
        reveal(p_decl_fun);
        self.lexer.expect(TokenType::Fun)?;
        let id = self.lexer.expect(TokenType::Identifier)?;
        let params = self.parse_decl_params()?;
        self.env.alloc_vars(params.as_slice());
        self.bytecodes.push(Bytecode::Fun(params.len()));
        self.parse_block()?;
        let name = self.lexer.to_string(&id);
        self.env.alloc_fn(name.as_str(), params.len());
        Ok(())
    }

    fn parse_decl_recfun(&mut self) -> (r: Result<(), SyntaxError>)
        requires
            old(self).wf(),
        ensures
            final(self).wf(),
            final(self).chars() == old(self).chars(),
            parsed(r, final(self).state(), p_decl_recfun(old(self).chars(), old(self).state())),
            r is Ok ==> old(self).state().off < final(self).state().off,
    {
        reveal(p_decl_recfun);
        self.lexer.expect(TokenType::RecFun)?;
        let id = self.lexer.expect(TokenType::Identifier)?;
        let params = self.parse_decl_params()?;
        self.env.alloc_vars(params.as_slice());
        let name = self.lexer.to_string(&id);
        self.env.alloc_fn(name.as_str(), params.len());
        self.bytecodes.push(Bytecode::RecFun(params.len()));
        self.parse_block()
    }

    /// Parses `( name, ... )` or `{ name, ... }` and returns the names,
    /// which must be distinct.
    fn parse_decl_params(&mut self) -> (r: Result<Vec<String>, SyntaxError>)
        requires
            old(self).wf(),
        ensures
            final(self).wf(),
            final(self).chars() == old(self).chars(),
            match p_decl_params(old(self).chars(), old(self).state().off) {
                Ok((ps, off)) => r matches Ok(v) && names(v@) == ps && final(self).state() == moved(
                    old(self).state(),
                    off,
                ),
                Err(e) => r == Err::<Vec<String>, SyntaxError>(e),
            },
            r is Ok ==> old(self).state().off < final(self).state().off,
    {
        reveal(p_decl_params);
        let ghost chars = self.chars();
        let mut params: Vec<String> = Vec::new();
        let open = if self.lexer.lookahead(0)?.kind == TokenType::LeftCurly {
            TokenType::LeftCurly
        } else {
            TokenType::LeftBrace
        };
        let close = if open == TokenType::LeftCurly {
            TokenType::RightCurly
        } else {
            TokenType::RightBrace
        };
        self.lexer.expect(open)?;
        let ghost off1 = self.state().off;
        let mut lookahead = self.lexer.lookahead(0)?;
        assert(names(params@) =~= Seq::<Seq<char>>::empty());
        while lookahead.kind != close
            invariant
                self.wf(),
                self.chars() == chars,
                chars == old(self).chars(),
                self.state() == moved(old(self).state(), self.state().off),
                old(self).state().off < off1 <= self.state().off,
                close == closing(open),
                p_decl_params(chars, old(self).state().off) == p_params(chars, off1, Seq::empty(), close),
                p_params(chars, off1, Seq::empty(), close) == p_params(chars, self.state().off, names(params@), close),
                lex_at(chars, self.state().off) == Ok::<Token, SyntaxError>(lookahead),
            decreases chars.len() - self.state().off,
        {
            if !params.is_empty() {
                self.lexer.expect(TokenType::Comma)?;
            }
            let id = self.lexer.expect(TokenType::Identifier)?;
            let var = self.lexer.to_string(&id);
            if contains_name(&params, &var) {
                return Err(SyntaxError::DuplicateParameter(id));
            }
            let ghost before = params@;
            params.push(var);
            proof {
                assert(names(params@) =~= names(before).push(var@));
            }
            lookahead = self.lexer.lookahead(0)?;
        }
        self.lexer.expect(close)?;
        Ok(params)
    }

    /// Parses a block: an expression in curly braces.
    fn parse_block(&mut self) -> (r: Result<(), SyntaxError>)
        requires
            old(self).wf(),
        ensures
            final(self).wf(),
            final(self).chars() == old(self).chars(),
            parsed(r, final(self).state(), p_block(old(self).chars(), old(self).state())),
            r is Ok ==> old(self).state().off < final(self).state().off,
            r is Ok ==> old(self).state().code.len() < final(self).state().code.len(),
        decreases old(self).chars().len() - old(self).state().off, 5nat,
    {
        self.lexer.expect(TokenType::LeftCurly)?;
        self.parse_expr()?;
        self.lexer.expect(TokenType::RightCurly)?;
        Ok(())
    }

    // ===============================================================
    // Expressions
    // ===============================================================

    /// Parses one expression at the read position and emits its code.
    pub fn parse_expr(&mut self) -> (r: Result<(), SyntaxError>)
        requires
            old(self).wf(),
        ensures
            final(self).wf(),
            final(self).chars() == old(self).chars(),
            parsed(r, final(self).state(), p_expr(old(self).chars(), old(self).state())),
            r is Ok ==> old(self).state().off < final(self).state().off,
            r is Ok ==> old(self).state().code.len() < final(self).state().code.len(),
        decreases old(self).chars().len() - old(self).state().off, 20nat,
    {
        self.parse_expr_binary(3)
    }

    /// Parses a binary expression at `level`; higher levels bind less
    /// tightly, and level 0 is a postfix expression.
    fn parse_expr_binary(&mut self, level: usize) -> (r: Result<(), SyntaxError>)
        requires
            old(self).wf(),
            level <= 3,
        ensures
            final(self).wf(),
            final(self).chars() == old(self).chars(),
            parsed(r, final(self).state(), p_binary(old(self).chars(), old(self).state(), level as nat)),
            r is Ok ==> old(self).state().off < final(self).state().off,
            r is Ok ==> old(self).state().code.len() < final(self).state().code.len(),
        decreases old(self).chars().len() - old(self).state().off, 10 + level,
    {
        if level == 0 {
            return self.parse_expr_postfix();
        }
        let index = self.bytecodes.len();
        self.parse_expr_binary(level - 1)?;
        let matched = if level == 1 {
            let ops = [TokenType::Minus, TokenType::Percent, TokenType::Plus, TokenType::RightSlash, TokenType::Star];
            proof {
                assert(ops@ =~= connectives(1));
            }
            self.lexer.match_any(ops.as_slice())?
        } else if level == 2 {
            let ops = [
                TokenType::EqualsEquals,
                TokenType::ShreakEquals,
                TokenType::LeftAngle,
                TokenType::LeftAngleEquals,
                TokenType::RightAngle,
                TokenType::RightAngleEquals,
            ];
            proof {
                assert(ops@ =~= connectives(2));
            }
            self.lexer.match_any(ops.as_slice())?
        } else {
            let ops = [TokenType::AmpersandAmpersand, TokenType::BarBar, TokenType::LongRightArrow];
            proof {
                assert(ops@ =~= connectives(3));
            }
            self.lexer.match_any(ops.as_slice())?
        };
        match matched {
            Some(t) => {
                self.bytecodes.insert(index, Self::binop_from_token(t.kind));
                self.parse_expr_binary(level - 1)
            },
            None => Ok(()),
        }
    }

    /// Parses `( expr )`.
    fn parse_expr_braced(&mut self) -> (r: Result<(), SyntaxError>)
        requires
            old(self).wf(),
        ensures
            final(self).wf(),
            final(self).chars() == old(self).chars(),
            parsed(r, final(self).state(), p_braced(old(self).chars(), old(self).state())),
            r is Ok ==> old(self).state().off < final(self).state().off,
            r is Ok ==> old(self).state().code.len() < final(self).state().code.len(),
        decreases old(self).chars().len() - old(self).state().off, 7nat,
    {
        self.lexer.expect(TokenType::LeftBrace)?;
        self.parse_expr()?;
        self.lexer.expect(TokenType::RightBrace)?;
        Ok(())
    }

    /// Parses `if expr { expr } else { expr }`.
    fn parse_expr_ifelse(&mut self) -> (r: Result<(), SyntaxError>)
        requires
            old(self).wf(),
        ensures
            final(self).wf(),
            final(self).chars() == old(self).chars(),
            parsed(r, final(self).state(), p_ifelse(old(self).chars(), old(self).state())),
            r is Ok ==> old(self).state().off < final(self).state().off,
            r is Ok ==> old(self).state().code.len() < final(self).state().code.len(),
        decreases old(self).chars().len() - old(self).state().off, 7nat,
    {
        self.lexer.expect(TokenType::If)?;
        self.bytecodes.push(Bytecode::If);
        self.parse_expr()?;
        self.parse_block()?;
        self.lexer.expect(TokenType::Else)?;
        self.parse_block()
    }

    /// Parses a call `name ( args )` of a declared function.
    #[verifier::rlimit(40)]
    fn parse_expr_invoke(&mut self) -> (r: Result<(), SyntaxError>)
        requires
            old(self).wf(),
        ensures
            final(self).wf(),
            final(self).chars() == old(self).chars(),
            parsed(r, final(self).state(), p_invoke(old(self).chars(), old(self).state())),
            r is Ok ==> old(self).state().off < final(self).state().off,
            r is Ok ==> old(self).state().code.len() < final(self).state().code.len(),
        decreases old(self).chars().len() - old(self).state().off, 7nat,
    {
        let id = self.lexer.expect(TokenType::Identifier)?;
        let name = self.lexer.to_string(&id);
        let (fid, arity) = match self.env.lookup_fn(name.as_str()) {
            Some(binding) => binding,
            None => {
                return Err(SyntaxError::UnknownFunction(id));
            },
        };
        self.lexer.expect(TokenType::LeftBrace)?;
        self.bytecodes.push(Bytecode::Invoke(fid, arity));
        let n = self.parse_exprs_until(TokenType::RightBrace)?;
        self.lexer.expect(TokenType::RightBrace)?;
        if n != arity {
            return Err(SyntaxError::ArityMismatch(id, arity, n));
        }
        Ok(())
    }

    /// Parses `! expr`.
    fn parse_expr_not(&mut self) -> (r: Result<(), SyntaxError>)
        requires
            old(self).wf(),
        ensures
            final(self).wf(),
            final(self).chars() == old(self).chars(),
            parsed(r, final(self).state(), p_not(old(self).chars(), old(self).state())),
            r is Ok ==> old(self).state().off < final(self).state().off,
            r is Ok ==> old(self).state().code.len() < final(self).state().code.len(),
        decreases old(self).chars().len() - old(self).state().off, 7nat,
    {
        self.lexer.expect(TokenType::Shreak)?;
        self.bytecodes.push(Bytecode::Not);
        self.parse_expr()
    }

    /// Parses a unit with an optional type ascription `: type`, whose
    /// test goes before the unit's code.
    fn parse_expr_postfix(&mut self) -> (r: Result<(), SyntaxError>)
        requires
            old(self).wf(),
        ensures
            final(self).wf(),
            final(self).chars() == old(self).chars(),
            parsed(r, final(self).state(), p_postfix(old(self).chars(), old(self).state())),
            r is Ok ==> old(self).state().off < final(self).state().off,
            r is Ok ==> old(self).state().code.len() < final(self).state().code.len(),
        decreases old(self).chars().len() - old(self).state().off, 9nat,
    {
        let index = self.bytecodes.len();
        self.parse_expr_unit()?;
        if self.lexer.matches(TokenType::Colon)? {
            let t = self.lexer.lookahead(0)?;
            if t.kind == TokenType::Uint {
                self.lexer.accept(&t);
                self.bytecodes.insert(index, Self::type_from_token(t.kind));
            } else {
                return Err(SyntaxError::UnexpectedToken(t));
            }
        }
        Ok(())
    }

    /// Parses the unit that the next token starts.
    fn parse_expr_unit(&mut self) -> (r: Result<(), SyntaxError>)
        requires
            old(self).wf(),
        ensures
            final(self).wf(),
            final(self).chars() == old(self).chars(),
            parsed(r, final(self).state(), p_unit(old(self).chars(), old(self).state())),
            r is Ok ==> old(self).state().off < final(self).state().off,
            r is Ok ==> old(self).state().code.len() < final(self).state().code.len(),
        decreases old(self).chars().len() - old(self).state().off, 8nat,
    {
        let lookahead = self.lexer.lookahead(0)?;
        match lookahead.kind {
            TokenType::BoolLiteral(v) => self.parse_literal_bool(v),
            TokenType::LeftBrace => self.parse_expr_braced(),
            TokenType::Identifier => {
                // A name followed by `(` is a call; otherwise a variable.
                if self.lexer.lookahead(1)?.kind == TokenType::LeftBrace {
                    self.parse_expr_invoke()
                } else {
                    self.parse_expr_varaccess()
                }
            },
            TokenType::IntLiteral => self.parse_literal_int(),
            TokenType::Shreak => self.parse_expr_not(),
            TokenType::If => self.parse_expr_ifelse(),
            _ => Err(SyntaxError::UnexpectedToken(lookahead)),
        }
    }

    /// Parses comma-separated expressions up to a token of kind `end`,
    /// which is left unconsumed, and returns how many there were.
    #[verifier::rlimit(40)]
    fn parse_exprs_until(&mut self, end: TokenType) -> (r: Result<usize, SyntaxError>)
        requires
            old(self).wf(),
        ensures
            final(self).wf(),
            final(self).chars() == old(self).chars(),
            match p_exprs_until(old(self).chars(), old(self).state(), end, 0) {
                Ok((s1, n)) => r == Ok::<usize, SyntaxError>(n as usize) && final(self).state() == s1
                    && n <= s1.off,
                Err(e) => r == Err::<usize, SyntaxError>(e),
            },
            r is Ok ==> old(self).state().off <= final(self).state().off,
            r is Ok ==> old(self).state().code.len() <= final(self).state().code.len(),
        decreases old(self).chars().len() - old(self).state().off, 21nat,
    {
        let ghost chars = self.chars();
        let mut lookahead = self.lexer.lookahead(0)?;
        let mut n: usize = 0;
        while lookahead.kind != end
            invariant
                self.wf(),
                self.chars() == chars,
                chars == old(self).chars(),
                old(self).state().off <= self.state().off,
                old(self).state().code.len() <= self.state().code.len(),
                n <= self.state().off,
                n > 0 ==> old(self).state().off < self.state().off,
                p_exprs_until(chars, old(self).state(), end, 0) == p_exprs_until(
                    chars,
                    self.state(),
                    end,
                    n as nat,
                ),
                lex_at(chars, self.state().off) == Ok::<Token, SyntaxError>(lookahead),
            decreases chars.len() - self.state().off,
        {
            let ghost prev = self.state();
            if n != 0 {
                self.lexer.expect(TokenType::Comma)?;
            }
            self.parse_expr()?;
            assert(p_exprs_until(chars, prev, end, n as nat) == p_exprs_until(
                chars,
                self.state(),
                end,
                (n + 1) as nat,
            ));
            lookahead = self.lexer.lookahead(0)?;
            n += 1;
        }
        Ok(n)
    }

    /// Parses a variable in scope and emits its slot.
    fn parse_expr_varaccess(&mut self) -> (r: Result<(), SyntaxError>)
        requires
            old(self).wf(),
        ensures
            final(self).wf(),
            final(self).chars() == old(self).chars(),
            parsed(r, final(self).state(), p_varaccess(old(self).chars(), old(self).state())),
            r is Ok ==> old(self).state().off < final(self).state().off,
            r is Ok ==> old(self).state().code.len() < final(self).state().code.len(),
    {
        reveal(p_varaccess);
        let id = self.lexer.expect(TokenType::Identifier)?;
        let name = self.lexer.to_string(&id);
        match self.env.lookup_var(name.as_str()) {
            Some(var) => {
                self.bytecodes.push(Bytecode::Var(var));
                Ok(())
            },
            None => Err(SyntaxError::UnknownVariable(id)),
        }
    }

    // ===============================================================
    // Literals
    // ===============================================================

    fn parse_literal_bool(&mut self, val: bool) -> (r: Result<(), SyntaxError>)
        requires
            old(self).wf(),
        ensures
            final(self).wf(),
            final(self).chars() == old(self).chars(),
            parsed(r, final(self).state(), p_bool(old(self).chars(), old(self).state(), val)),
            r is Ok ==> old(self).state().off < final(self).state().off,
            r is Ok ==> old(self).state().code.len() < final(self).state().code.len(),
    {
        reveal(p_bool);
        self.lexer.expect(TokenType::BoolLiteral(val))?;
        self.bytecodes.push(Bytecode::Bool(val));
        Ok(())
    }

    fn parse_literal_int(&mut self) -> (r: Result<(), SyntaxError>)
        requires
            old(self).wf(),
        ensures
            final(self).wf(),
            final(self).chars() == old(self).chars(),
            parsed(r, final(self).state(), p_int(old(self).chars(), old(self).state())),
            r is Ok ==> old(self).state().off < final(self).state().off,
            r is Ok ==> old(self).state().code.len() < final(self).state().code.len(),
    {
        reveal(p_int);
        let tok = self.lexer.expect(TokenType::IntLiteral)?;
        let s = self.lexer.to_string(&tok);
        match decimal_of(s.as_str()) {
            Some(i) => {
                self.bytecodes.push(Bytecode::Int(i));
                Ok(())
            },
            None => Err(SyntaxError::IntegerOverflow(tok)),
        }
    }

    // ===============================================================
    // Misc
    // ===============================================================

    /// The instruction of a binary connective.
    fn binop_from_token(token: TokenType) -> (r: Bytecode)
        ensures
            r == binop(token),
    {
        match token {
            // Equality
            TokenType::EqualsEquals => Bytecode::Eq,
            TokenType::ShreakEquals => Bytecode::Neq,
            // Comparison
            TokenType::LeftAngle => Bytecode::Lt,
            TokenType::LeftAngleEquals => Bytecode::LtEq,
            TokenType::RightAngle => Bytecode::Gt,
            TokenType::RightAngleEquals => Bytecode::GtEq,
            // Arithmetic
            TokenType::Minus => Bytecode::Sub,
            TokenType::Percent => Bytecode::Rem,
            TokenType::Plus => Bytecode::Add,
            TokenType::RightSlash => Bytecode::Div,
            TokenType::Star => Bytecode::Mul,
            // Logical
            TokenType::AmpersandAmpersand => Bytecode::And,
            TokenType::BarBar => Bytecode::Or,
            _ => Bytecode::Implies,
        }
    }

    /// The type test of a type name.
    fn type_from_token(token: TokenType) -> (r: Bytecode)
        requires
            token == TokenType::Uint,
        ensures
            r == Bytecode::IsUint,
    {
        Bytecode::IsUint
    }
}

/// Whether `name` is among `params`.
fn contains_name(params: &Vec<String>, name: &String) -> (r: bool)
    ensures
        r == names(params@).contains(name@),
{
    let mut i: usize = 0;
    while i < params.len()
        invariant
            i <= params@.len(),
            forall|j: int| 0 <= j < i ==> params@[j]@ != name@,
        decreases params@.len() - i,
    {
        if params[i] == *name {
            assert(names(params@)[i as int] == name@);
            return true;
        }
        i += 1;
    }
    assert(!names(params@).contains(name@)) by {
        if names(params@).contains(name@) {
            let j = choose|j: int| 0 <= j < names(params@).len() && names(params@)[j] == name@;
            assert(params@[j]@ == name@);
        }
    }
    false
}

/// The value of the decimal digits `s`, if it fits in a `usize`.
fn decimal_of(s: &str) -> (r: Option<usize>)
    ensures
        match r {
            Some(v) => v == decimal(s@),
            None => decimal(s@) > usize::MAX,
        },
{
    let n = s.unicode_len();
    let mut value: usize = 0;
    let mut i: usize = 0;
    while i < n
        invariant
            n == s@.len(),
            i <= n,
            value == decimal(s@.subrange(0, i as int)),
        decreases n - i,
    {
        let c = s.get_char(i);
        let d: usize = if '0' <= c && c <= '9' {
            ((c as u32) - ('0' as u32)) as usize
        } else {
            0
        };
        proof {
            assert(s@.subrange(0, i + 1).drop_last() =~= s@.subrange(0, i as int));
            assert(d == digit_value(c));
        }
        if value > (usize::MAX - d) / 10 {
            proof {
                lemma_decimal_overflow(s@, (i + 1) as nat);
            }
            return None;
        }
        value = value * 10 + d;
        i += 1;
    }
    assert(s@.subrange(0, i as int) =~= s@);
    Some(value)
}

/// A prefix of a digit run is worth no more than the whole run.
proof fn lemma_decimal_prefix(s: Seq<char>, k: nat)
    requires
        k <= s.len(),
    ensures
        decimal(s.subrange(0, k as int)) <= decimal(s),
    decreases s.len() - k,
{
    if k < s.len() {
        lemma_decimal_prefix(s, k + 1);
        assert(s.subrange(0, k + 1 as int).drop_last() =~= s.subrange(0, k as int));
        let p = s.subrange(0, k + 1 as int);
        assert(decimal(p) == decimal(p.drop_last()) * 10 + digit_value(p.last()));
    } else {
        assert(s.subrange(0, k as int) =~= s);
    }
}

proof fn lemma_decimal_overflow(s: Seq<char>, k: nat)
    requires
        k <= s.len(),
        decimal(s.subrange(0, k as int)) > usize::MAX,
    ensures
        decimal(s) > usize::MAX,
{
    lemma_decimal_prefix(s, k);
}

// ===================================================================
// Laws
// ===================================================================

/// Compiling is deterministic: the same source text always compiles to the
/// same code, or fails with the same error. (`Parser::new` followed by
/// `Parser::parse` computes `compile` of the text.)
pub proof fn lemma_compile_deterministic(a: Seq<char>, b: Seq<char>)
    requires
        a == b,
    ensures
        compile(a) == compile(b),
{
}

/// A variable reference compiles to `Var(slot)`, where `slot` is the
/// position most recently bound to the variable's name in the parameter
/// list in scope.
pub proof fn lemma_var_slot(chars: Seq<char>, st: PState)
    requires
        p_varaccess(chars, st) is Ok,
    ensures
        lex_at(chars, st.off) matches Ok(id) && id.kind == TokenType::Identifier && exists|
            slot: nat,
        |
            #![trigger st.vars[slot as int]]
            {
                &&& slot < st.vars.len()
                &&& st.vars[slot as int] == token_text(chars, id)
                &&& forall|j: int| slot < j < st.vars.len() ==> st.vars[j] != token_text(chars, id)
                &&& p_varaccess(chars, st) == Ok::<PState, SyntaxError>(
                    emit(moved(st, (id.offset + id.len) as nat), Bytecode::Var(slot as usize)),
                )
            },
{
    reveal(p_varaccess);
    let id = lex_at(chars, st.off)->Ok_0;
    let name = token_text(chars, id);
    lemma_find_var_found(st.vars, name, st.vars.len() as int);
    let slot = var_slot(st.vars, name)->Some_0;
    assert(st.vars[slot as int] == name);
}

/// Every declaration compiles in a scope of its own: what it compiles to
/// does not depend on the variables in scope before it, so no slot leaks
/// from one declaration into the next.
pub proof fn lemma_declaration_scope(chars: Seq<char>, st: PState, vars: Seq<Seq<char>>)
    ensures
        p_declaration(chars, st) == p_declaration(chars, PState { vars, ..st }),
{
    reveal(p_declaration);
    reveal(p_decl_assert);
    reveal(p_decl_forall);
    reveal(p_decl_fun);
    reveal(p_decl_recfun);
    let other = PState { vars, ..st };
    assert(PState { vars: Seq::empty(), ..st } == PState { vars: Seq::empty(), ..other });
}

/// A call compiles to `Invoke(index, n)` only where `n`, the number of
/// argument expressions found between its parentheses, is the declared
/// arity of the function at `index`; any other number of arguments is
/// rejected with an arity mismatch.
pub proof fn lemma_invoke_arity(chars: Seq<char>, st: PState)
    ensures
        match expect_at(chars, st.off, TokenType::Identifier) {
            Ok((id, off1)) => match fn_index(st.fns, token_text(chars, id)) {
                Some(i) => match expect_at(chars, off1, TokenType::LeftBrace) {
                    Ok((_, off2)) => past(chars, st.off, off2) ==> {
                        let arity = st.fns[i as int].1;
                        match p_exprs_until(
                            chars,
                            emit(moved(st, off2), Bytecode::Invoke(i as usize, arity as usize)),
                            TokenType::RightBrace,
                            0,
                        ) {
                            Ok((st3, n)) => match expect_at(chars, st3.off, TokenType::RightBrace) {
                                Ok((_, off4)) => {
                                    &&& n == arity ==> p_invoke(chars, st) == Ok::<PState, SyntaxError>(
                                        moved(st3, off4),
                                    )
                                    &&& n != arity ==> p_invoke(chars, st) == Err::<
                                        PState,
                                        SyntaxError,
                                    >(SyntaxError::ArityMismatch(id, arity as usize, n as usize))
                                },
                                Err(_) => true,
                            },
                            Err(_) => true,
                        }
                    },
                    Err(_) => true,
                },
                None => true,
            },
            Err(_) => true,
        },
{
}

} // verus!
