use vstd::prelude::*;
use crate::error::SyntaxError;
use vstd::std_specs::iter::IteratorSpec;

verus! {

broadcast use vstd::string::group_string_axioms;

// ===================================================================
// Tokens
// ===================================================================

/// The kind of a token.
#[derive(Clone, Copy, Debug, PartialEq, Eq, Structural)]
pub enum TokenType {
    AmpersandAmpersand,
    BarBar,
    BoolLiteral(bool),
    Colon,
    Comma,
    EqualsEquals,
    Else,
    EOF,
    ForAll,
    Fun,
    Identifier,
    If,
    IntLiteral,
    LeftAngle,
    LeftAngleEquals,
    LeftBrace,
    LeftCurly,
    LeftSquare,
    LongRightArrow,
    Minus,
    Percent,
    Plus,
    RecFun,
    RightAngle,
    RightAngleEquals,
    RightArrow,
    RightBrace,
    RightCurly,
    RightSlash,
    RightSquare,
    Shreak,
    ShreakEquals,
    Star,
    Uint,
    WhiteSpace,
}

/// A token: its kind and the span of characters it covers in the source.
#[derive(Clone, Copy, Debug, PartialEq, Eq, Structural)]
pub struct Token {
    pub kind: TokenType,
    pub offset: usize,
    pub len: usize,
}

impl Token {
    /// Moves the token to start at `offset`.
    pub fn relocate(&mut self, offset: usize)
        ensures
            *final(self) == (Token { offset, ..*old(self) }),
    {
        self.offset = offset;
    }
}

/// The token that stands for the end of the input, placed at its end.
pub open spec fn eof_token(end: nat) -> Token {
    Token { kind: TokenType::EOF, offset: end as usize, len: 0 }
}

// ===================================================================
// Character classes
// ===================================================================

pub open spec fn is_whitespace_char(c: char) -> bool {
    c == ' ' || c == '\t' || c == '\n'
}

pub open spec fn is_digit_char(c: char) -> bool {
    '0' <= c && c <= '9'
}

pub open spec fn is_identifier_start_char(c: char) -> bool {
    ('a' <= c && c <= 'z') || ('A' <= c && c <= 'Z') || c == '_'
}

pub open spec fn is_identifier_middle_char(c: char) -> bool {
    is_digit_char(c) || is_identifier_start_char(c)
}

/// The classes of characters that make up runs in the input.
pub enum CharClass {
    Space,
    Digit,
    IdentifierMiddle,
    NotNewline,
}

pub open spec fn in_class(c: char, class: CharClass) -> bool {
    match class {
        CharClass::Space => is_whitespace_char(c),
        CharClass::Digit => is_digit_char(c),
        CharClass::IdentifierMiddle => is_identifier_middle_char(c),
        CharClass::NotNewline => c != '\n',
    }
}

/// The length of the longest run of characters of `class` starting at `i`.
pub open spec fn class_run(chars: Seq<char>, i: int, class: CharClass) -> nat
    decreases chars.len() - i,
{
    if 0 <= i < chars.len() && in_class(chars[i], class) {
        1 + class_run(chars, i + 1, class)
    } else {
        0
    }
}

// ===================================================================
// Scanning, as a specification
// ===================================================================

pub open spec fn spec_scan_whitespace(chars: Seq<char>, i: int) -> Option<(TokenType, nat)> {
    let n = class_run(chars, i, CharClass::Space);
    if n >= 1 { Some((TokenType::WhiteSpace, n)) } else { None }
}

pub open spec fn spec_scan_line_comment(chars: Seq<char>, i: int) -> Option<(TokenType, nat)> {
    if 0 <= i && i + 1 < chars.len() && chars[i] == '/' && chars[i + 1] == '/' {
        Some((TokenType::WhiteSpace, 2 + class_run(chars, i + 2, CharClass::NotNewline)))
    } else {
        None
    }
}

pub open spec fn spec_scan_triple_operators(chars: Seq<char>, i: int) -> Option<(TokenType, nat)> {
    if 0 <= i && i + 2 < chars.len() && chars[i] == '=' && chars[i + 1] == '=' && chars[i + 2]
        == '>' {
        Some((TokenType::LongRightArrow, 3))
    } else {
        None
    }
}

pub open spec fn double_operator(a: char, b: char) -> Option<TokenType> {
    if a == '&' && b == '&' {
        Some(TokenType::AmpersandAmpersand)
    } else if a == '|' && b == '|' {
        Some(TokenType::BarBar)
    } else if a == '=' && b == '=' {
        Some(TokenType::EqualsEquals)
    } else if a == '<' && b == '=' {
        Some(TokenType::LeftAngleEquals)
    } else if a == '-' && b == '>' {
        Some(TokenType::RightArrow)
    } else if a == '>' && b == '=' {
        Some(TokenType::RightAngleEquals)
    } else if a == '!' && b == '=' {
        Some(TokenType::ShreakEquals)
    } else {
        None
    }
}

pub open spec fn spec_scan_double_operators(chars: Seq<char>, i: int) -> Option<(TokenType, nat)> {
    if 0 <= i && i + 1 < chars.len() {
        match double_operator(chars[i], chars[i + 1]) {
            Some(k) => Some((k, 2)),
            None => None,
        }
    } else {
        None
    }
}

pub open spec fn single_operator(c: char) -> Option<TokenType> {
    if c == ':' {
        Some(TokenType::Colon)
    } else if c == ',' {
        Some(TokenType::Comma)
    } else if c == '<' {
        Some(TokenType::LeftAngle)
    } else if c == '(' {
        Some(TokenType::LeftBrace)
    } else if c == '{' {
        Some(TokenType::LeftCurly)
    } else if c == '[' {
        Some(TokenType::LeftSquare)
    } else if c == '-' {
        Some(TokenType::Minus)
    } else if c == '%' {
        Some(TokenType::Percent)
    } else if c == '+' {
        Some(TokenType::Plus)
    } else if c == '>' {
        Some(TokenType::RightAngle)
    } else if c == ')' {
        Some(TokenType::RightBrace)
    } else if c == '}' {
        Some(TokenType::RightCurly)
    } else if c == '/' {
        Some(TokenType::RightSlash)
    } else if c == ']' {
        Some(TokenType::RightSquare)
    } else if c == '!' {
        Some(TokenType::Shreak)
    } else if c == '*' {
        Some(TokenType::Star)
    } else {
        None
    }
}

pub open spec fn spec_scan_single_operators(chars: Seq<char>, i: int) -> Option<(TokenType, nat)> {
    if 0 <= i < chars.len() {
        match single_operator(chars[i]) {
            Some(k) => Some((k, 1)),
            None => None,
        }
    } else {
        None
    }
}

pub open spec fn spec_scan_int_literal(chars: Seq<char>, i: int) -> Option<(TokenType, nat)> {
    let n = class_run(chars, i, CharClass::Digit);
    if n >= 1 { Some((TokenType::IntLiteral, n)) } else { None }
}

pub open spec fn spec_scan_identifier(chars: Seq<char>, i: int) -> Option<(TokenType, nat)> {
    if 0 <= i < chars.len() && is_identifier_start_char(chars[i]) {
        Some((TokenType::Identifier, class_run(chars, i, CharClass::IdentifierMiddle)))
    } else {
        None
    }
}

/// The reserved words and the kinds they lex to.
pub open spec fn keyword(word: Seq<char>) -> Option<TokenType> {
    if word == seq!['e', 'l', 's', 'e'] {
        Some(TokenType::Else)
    } else if word == seq!['f', 'a', 'l', 's', 'e'] {
        Some(TokenType::BoolLiteral(false))
    } else if word == seq!['f', 'o', 'r', 'a', 'l', 'l'] {
        Some(TokenType::ForAll)
    } else if word == seq!['i', 'f'] {
        Some(TokenType::If)
    } else if word == seq!['f', 'u', 'n'] {
        Some(TokenType::Fun)
    } else if word == seq!['r', 'e', 'c', 'f', 'u', 'n'] {
        Some(TokenType::RecFun)
    } else if word == seq!['t', 'r', 'u', 'e'] {
        Some(TokenType::BoolLiteral(true))
    } else if word == seq!['u', 'i', 'n', 't'] {
        Some(TokenType::Uint)
    } else {
        None
    }
}

pub open spec fn spec_scan_keyword(chars: Seq<char>, i: int) -> Option<(TokenType, nat)> {
    match spec_scan_identifier(chars, i) {
        Some((_, n)) => match keyword(chars.subrange(i, i + n)) {
            Some(k) => Some((k, n)),
            None => None,
        },
        None => None,
    }
}

/// The token that starts at `i`, by the first scanner that matches:
/// whitespace and line comments, operators longest first, integer
/// literals, keywords, identifiers.
pub open spec fn spec_scan(chars: Seq<char>, i: int) -> Option<(TokenType, nat)> {
    if spec_scan_whitespace(chars, i) is Some {
        spec_scan_whitespace(chars, i)
    } else if spec_scan_line_comment(chars, i) is Some {
        spec_scan_line_comment(chars, i)
    } else if spec_scan_triple_operators(chars, i) is Some {
        spec_scan_triple_operators(chars, i)
    } else if spec_scan_double_operators(chars, i) is Some {
        spec_scan_double_operators(chars, i)
    } else if spec_scan_single_operators(chars, i) is Some {
        spec_scan_single_operators(chars, i)
    } else if spec_scan_int_literal(chars, i) is Some {
        spec_scan_int_literal(chars, i)
    } else if spec_scan_keyword(chars, i) is Some {
        spec_scan_keyword(chars, i)
    } else {
        spec_scan_identifier(chars, i)
    }
}

/// The first token at or after `off` that is not whitespace, or the
/// character that no token starts with.
pub open spec fn lex_at(chars: Seq<char>, off: nat) -> Result<Token, SyntaxError>
    decreases chars.len() - off,
{
    if off >= chars.len() {
        Ok(eof_token(chars.len()))
    } else {
        match spec_scan(chars, off as int) {
            None => Err(SyntaxError::UnexpectedCharacter(chars[off as int], off as usize)),
            Some((kind, n)) => if kind == TokenType::WhiteSpace && n > 0 {
                proof {
                    lemma_scan_bounds(chars, off as int);
                }
                lex_at(chars, off + n)
            } else {
                Ok(Token { kind, offset: off as usize, len: n as usize })
            },
        }
    }
}

/// The `n`th token (from zero) at or after `off`.
pub open spec fn lex_nth(chars: Seq<char>, off: nat, n: nat) -> Result<Token, SyntaxError>
    decreases n,
{
    match lex_at(chars, off) {
        Ok(tok) => if n == 0 {
            Ok(tok)
        } else {
            lex_nth(chars, (tok.offset + tok.len) as nat, (n - 1) as nat)
        },
        Err(e) => Err(e),
    }
}

/// Consuming a token of `kind` at `off`: the token and the position after it.
pub open spec fn expect_at(chars: Seq<char>, off: nat, kind: TokenType) -> Result<
    (Token, nat),
    SyntaxError,
> {
    match lex_at(chars, off) {
        Ok(tok) => if tok.kind == kind {
            Ok((tok, (tok.offset + tok.len) as nat))
        } else {
            Err(SyntaxError::UnexpectedToken(tok))
        },
        Err(e) => Err(e),
    }
}

/// Consuming the next token if it is of `kind`: whether it was, and the
/// position after.
pub open spec fn matches_at(chars: Seq<char>, off: nat, kind: TokenType) -> Result<
    (bool, nat),
    SyntaxError,
> {
    match lex_at(chars, off) {
        Ok(tok) => if tok.kind == kind {
            Ok((true, (tok.offset + tok.len) as nat))
        } else {
            Ok((false, off))
        },
        Err(e) => Err(e),
    }
}

/// Consuming the next token if its kind is one of `kinds`: the token, if
/// it was, and the position after.
pub open spec fn match_any_at(chars: Seq<char>, off: nat, kinds: Seq<TokenType>) -> Result<
    (Option<Token>, nat),
    SyntaxError,
> {
    match lex_at(chars, off) {
        Ok(tok) => if kinds.contains(tok.kind) {
            Ok((Some(tok), (tok.offset + tok.len) as nat))
        } else {
            Ok((None, off))
        },
        Err(e) => Err(e),
    }
}

/// The characters that a token spans.
pub open spec fn token_text(chars: Seq<char>, tok: Token) -> Seq<char> {
    chars.subrange(tok.offset as int, tok.offset + tok.len)
}

/// Whether an executable scan result is the specified one, placed at zero.
pub open spec fn scanned(r: Option<Token>, s: Option<(TokenType, nat)>) -> bool {
    match r {
        Some(t) => s == Some((t.kind, t.len as nat)) && t.offset == 0,
        None => s is None,
    }
}

pub proof fn lemma_class_run_bound(chars: Seq<char>, i: int, class: CharClass)
    requires
        0 <= i <= chars.len(),
    ensures
        i + class_run(chars, i, class) <= chars.len(),
        class_run(chars, i, class) > 0 ==> in_class(chars[i], class),
    decreases chars.len() - i,
{
    if i < chars.len() {
        lemma_class_run_bound(chars, i + 1, class);
    }
}

/// A scanned token is never empty and never runs past the input.
pub proof fn lemma_scan_bounds(chars: Seq<char>, i: int)
    requires
        0 <= i < chars.len(),
    ensures
        spec_scan(chars, i) matches Some((_, n)) ==> n >= 1 && i + n <= chars.len(),
{
    lemma_class_run_bound(chars, i, CharClass::Space);
    lemma_class_run_bound(chars, i, CharClass::Digit);
    lemma_class_run_bound(chars, i, CharClass::IdentifierMiddle);
    if i + 2 <= chars.len() {
        lemma_class_run_bound(chars, i + 2, CharClass::NotNewline);
    }
    if 0 <= i < chars.len() && is_identifier_start_char(chars[i]) {
        assert(class_run(chars, i, CharClass::IdentifierMiddle) >= 1);
    }
}

/// A token found at or after `off` lies within the input, and only the end
/// of the input is empty.
pub proof fn lemma_lex_at_bounds(chars: Seq<char>, off: nat)
    requires
        off <= chars.len(),
        chars.len() <= usize::MAX,
    ensures
        lex_at(chars, off) matches Ok(tok) ==> off <= tok.offset && tok.offset + tok.len
            <= chars.len() && (tok.kind == TokenType::EOF <==> tok.len == 0) && (tok.kind
            == TokenType::EOF ==> tok.offset == chars.len()) && tok.kind
            != TokenType::WhiteSpace,
    decreases chars.len() - off,
{
    if off < chars.len() {
        lemma_scan_bounds(chars, off as int);
        match spec_scan(chars, off as int) {
            Some((kind, n)) => {
                if kind == TokenType::WhiteSpace && n > 0 {
                    lemma_lex_at_bounds(chars, off + n);
                }
            },
            None => {},
        }
    }
}

// ===================================================================
// Scanners
// ===================================================================

fn is_whitespace(c: char) -> (r: bool)
    ensures
        r == is_whitespace_char(c),
{
    c == ' ' || c == '\t' || c == '\n'
}

fn is_identifier_start(c: char) -> (r: bool)
    ensures
        r == is_identifier_start_char(c),
{
    ('a' <= c && c <= 'z') || ('A' <= c && c <= 'Z') || c == '_'
}

fn is_identifier_middle(c: char) -> (r: bool)
    ensures
        r == is_identifier_middle_char(c),
{
    ('0' <= c && c <= '9') || is_identifier_start(c)
}

fn is_in_class(c: char, class: &CharClass) -> (r: bool)
    ensures
        r == in_class(c, *class),
{
    match class {
        CharClass::Space => is_whitespace(c),
        CharClass::Digit => '0' <= c && c <= '9',
        CharClass::IdentifierMiddle => is_identifier_middle(c),
        CharClass::NotNewline => c != '\n',
    }
}

/// The end of the longest run of characters of `class` starting at `at`.
fn run_end(chars: &Vec<char>, at: usize, class: CharClass) -> (r: usize)
    requires
        at <= chars@.len(),
    ensures
        r == at + class_run(chars@, at as int, class),
        r <= chars@.len(),
{
    let mut i: usize = at;
    while i < chars.len() && is_in_class(chars[i], &class)
        invariant
            at <= i <= chars@.len(),
            class_run(chars@, at as int, class) == (i - at) + class_run(chars@, i as int, class),
        decreases chars@.len() - i,
    {
        i += 1;
    }
    i
}

/// Scan a run of whitespace.
fn scan_whitespace(chars: &Vec<char>, at: usize) -> (r: Option<Token>)
    requires
        at <= chars@.len(),
    ensures
        scanned(r, spec_scan_whitespace(chars@, at as int)),
{
    let end = run_end(chars, at, CharClass::Space);
    if end > at {
        Some(Token { kind: TokenType::WhiteSpace, offset: 0, len: end - at })
    } else {
        None
    }
}

/// Scan a line comment, which runs up to the end of the line.
fn scan_line_comment(chars: &Vec<char>, at: usize) -> (r: Option<Token>)
    requires
        at <= chars@.len(),
    ensures
        scanned(r, spec_scan_line_comment(chars@, at as int)),
{
    if chars.len() - at < 2 || chars[at] != '/' || chars[at + 1] != '/' {
        None
    } else {
        let end = run_end(chars, at + 2, CharClass::NotNewline);
        Some(Token { kind: TokenType::WhiteSpace, offset: 0, len: end - at })
    }
}

/// Scan the three-character operators.
fn scan_triple_operators(chars: &Vec<char>, at: usize) -> (r: Option<Token>)
    requires
        at <= chars@.len(),
    ensures
        scanned(r, spec_scan_triple_operators(chars@, at as int)),
{
    if chars.len() - at <= 2 {
        None
    } else if chars[at] == '=' && chars[at + 1] == '=' && chars[at + 2] == '>' {
        Some(Token { kind: TokenType::LongRightArrow, offset: 0, len: 3 })
    } else {
        None
    }
}

/// Scan the two-character operators.
fn scan_double_operators(chars: &Vec<char>, at: usize) -> (r: Option<Token>)
    requires
        at <= chars@.len(),
    ensures
        scanned(r, spec_scan_double_operators(chars@, at as int)),
{
    if chars.len() - at <= 1 {
        return None;
    }
    let a = chars[at];
    let b = chars[at + 1];
    let kind = if a == '&' && b == '&' {
        TokenType::AmpersandAmpersand
    } else if a == '|' && b == '|' {
        TokenType::BarBar
    } else if a == '=' && b == '=' {
        TokenType::EqualsEquals
    } else if a == '<' && b == '=' {
        TokenType::LeftAngleEquals
    } else if a == '-' && b == '>' {
        TokenType::RightArrow
    } else if a == '>' && b == '=' {
        TokenType::RightAngleEquals
    } else if a == '!' && b == '=' {
        TokenType::ShreakEquals
    } else {
        return None;
    };
    Some(Token { kind, offset: 0, len: 2 })
}

/// Scan the one-character operators.
fn scan_single_operators(chars: &Vec<char>, at: usize) -> (r: Option<Token>)
    requires
        at <= chars@.len(),
    ensures
        scanned(r, spec_scan_single_operators(chars@, at as int)),
{
    if at >= chars.len() {
        return None;
    }
    let kind = match chars[at] {
        ':' => TokenType::Colon,
        ',' => TokenType::Comma,
        '<' => TokenType::LeftAngle,
        '(' => TokenType::LeftBrace,
        '{' => TokenType::LeftCurly,
        '[' => TokenType::LeftSquare,
        '-' => TokenType::Minus,
        '%' => TokenType::Percent,
        '+' => TokenType::Plus,
        '>' => TokenType::RightAngle,
        ')' => TokenType::RightBrace,
        '}' => TokenType::RightCurly,
        '/' => TokenType::RightSlash,
        ']' => TokenType::RightSquare,
        '!' => TokenType::Shreak,
        '*' => TokenType::Star,
        _ => {
            return None;
        },
    };
    Some(Token { kind, offset: 0, len: 1 })
}

/// Scan an integer literal: a non-empty run of decimal digits.
fn scan_int_literal(chars: &Vec<char>, at: usize) -> (r: Option<Token>)
    requires
        at <= chars@.len(),
    ensures
        scanned(r, spec_scan_int_literal(chars@, at as int)),
{
    let end = run_end(chars, at, CharClass::Digit);
    if end > at {
        Some(Token { kind: TokenType::IntLiteral, offset: 0, len: end - at })
    } else {
        None
    }
}

/// Scan an identifier: a letter or an underscore, then any run of
/// letters, digits and underscores.
fn scan_identifier(chars: &Vec<char>, at: usize) -> (r: Option<Token>)
    requires
        at <= chars@.len(),
    ensures
        scanned(r, spec_scan_identifier(chars@, at as int)),
        r matches Some(t) ==> at + t.len <= chars@.len(),
{
    if at < chars.len() && is_identifier_start(chars[at]) {
        let end = run_end(chars, at, CharClass::IdentifierMiddle);
        Some(Token { kind: TokenType::Identifier, offset: 0, len: end - at })
    } else {
        None
    }
}

/// Whether the `word.len()` characters at `at` are those of `word`.
fn spells(chars: &Vec<char>, at: usize, len: usize, word: &[char]) -> (r: bool)
    requires
        at + len <= chars@.len(),
    ensures
        r == (chars@.subrange(at as int, at + len) == word@),
{
    if len != word.len() {
        return false;
    }
    let total = chars.len();
    let mut i: usize = 0;
    while i < len
        invariant
            total == chars@.len(),
            i <= len,
            len == word@.len(),
            at + len <= chars@.len(),
            forall|j: int| 0 <= j < i ==> chars@[at + j] == word@[j],
        decreases len - i,
    {
        if chars[at + i] != word[i] {
            assert(chars@.subrange(at as int, at + len)[i as int] != word@[i as int]);
            return false;
        }
        i += 1;
    }
    assert(chars@.subrange(at as int, at + len) =~= word@);
    true
}

/// Scan a keyword, which is an identifier from the reserved set.
fn scan_keyword(chars: &Vec<char>, at: usize) -> (r: Option<Token>)
    requires
        at <= chars@.len(),
    ensures
        scanned(r, spec_scan_keyword(chars@, at as int)),
{
    let ident = match scan_identifier(chars, at) {
        Some(t) => t,
        None => {
            return None;
        },
    };
    let n = ident.len;
    let kind = if spells(chars, at, n, &['e', 'l', 's', 'e']) {
        TokenType::Else
    } else if spells(chars, at, n, &['f', 'a', 'l', 's', 'e']) {
        TokenType::BoolLiteral(false)
    } else if spells(chars, at, n, &['f', 'o', 'r', 'a', 'l', 'l']) {
        TokenType::ForAll
    } else if spells(chars, at, n, &['i', 'f']) {
        TokenType::If
    } else if spells(chars, at, n, &['f', 'u', 'n']) {
        TokenType::Fun
    } else if spells(chars, at, n, &['r', 'e', 'c', 'f', 'u', 'n']) {
        TokenType::RecFun
    } else if spells(chars, at, n, &['t', 'r', 'u', 'e']) {
        TokenType::BoolLiteral(true)
    } else if spells(chars, at, n, &['u', 'i', 'n', 't']) {
        TokenType::Uint
    } else {
        return None;
    };
    Some(Token { kind, offset: 0, len: n })
}

/// Scan the token that starts at `at`; `None` where no token starts there.
fn scan(chars: &Vec<char>, at: usize) -> (r: Option<Token>)
    requires
        at <= chars@.len(),
    ensures
        scanned(r, spec_scan(chars@, at as int)),
{
    let tok = scan_whitespace(chars, at);
    if tok.is_some() {
        return tok;
    }
    let tok = scan_line_comment(chars, at);
    if tok.is_some() {
        return tok;
    }
    let tok = scan_triple_operators(chars, at);
    if tok.is_some() {
        return tok;
    }
    let tok = scan_double_operators(chars, at);
    if tok.is_some() {
        return tok;
    }
    let tok = scan_single_operators(chars, at);
    if tok.is_some() {
        return tok;
    }
    let tok = scan_int_literal(chars, at);
    if tok.is_some() {
        return tok;
    }
    let tok = scan_keyword(chars, at);
    if tok.is_some() {
        return tok;
    }
    scan_identifier(chars, at)
}

// ===================================================================
// Lexer
// ===================================================================

/// A lexer over a character sequence, with a read position into it.
pub struct Lexer {
    /// Character sequence being lexed.
    chars: Vec<char>,
    /// The source text, kept to hand out token texts.
    text: String,
    /// Index into the character sequence.
    offset: usize,
}

impl Lexer {
    /// The characters being lexed.
    pub closed spec fn chars(&self) -> Seq<char> {
        self.chars@
    }

    /// The read position.
    pub closed spec fn pos(&self) -> nat {
        self.offset as nat
    }

    pub closed spec fn wf(&self) -> bool {
        &&& self.text@ == self.chars@
        &&& self.offset <= self.chars@.len()
        &&& self.chars@.len() <= usize::MAX
    }

    /// The read position lies within the input, whose length is a `usize`.
    pub proof fn lemma_wf_bounds(&self)
        requires
            self.wf(),
        ensures
            self.pos() <= self.chars().len() <= usize::MAX,
    {
    }

    /// Constructs a lexer that reads `content` from its start.
    pub fn new(content: &str) -> (r: Self)
        ensures
            r.wf(),
            r.chars() == content@,
            r.pos() == 0,
            r.chars().len() <= usize::MAX,
    {
        let mut chars: Vec<char> = Vec::new();
        let mut it = content.chars();
        loop
            invariant
                chars@ + it.remaining() == content@,
                it.decrease() is Some,
            ensures
                chars@ == content@,
            decreases it.decrease()->0,
        {
            let ghost before = chars@;
            match it.next() {
                Some(c) => {
                    chars.push(c);
                    assert(chars@ + it.remaining() =~= before + (seq![c] + it.remaining()));
                },
                None => {
                    assert(chars@ + it.remaining() =~= chars@);
                    break;
                },
            }
        }
        proof {
            // The length of a vector is a `usize`.
            assert(chars@.len() == chars.len());
        }
        Lexer { chars, text: content.to_owned(), offset: 0 }
    }

    /// The first token at or after `offset` that is not whitespace.
    fn lookahead_from(chars: &Vec<char>, offset: usize) -> (r: Result<Token, SyntaxError>)
        requires
            offset <= chars@.len(),
        ensures
            r == lex_at(chars@, offset as nat),
    {
        let mut off = offset;
        loop
            invariant
                offset <= off <= chars@.len(),
                lex_at(chars@, offset as nat) == lex_at(chars@, off as nat),
            decreases chars@.len() - off,
        {
            if off >= chars.len() {
                return Ok(Token { kind: TokenType::EOF, offset: chars.len(), len: 0 });
            }
            proof {
                lemma_scan_bounds(chars@, off as int);
            }
            match scan(chars, off) {
                None => {
                    return Err(SyntaxError::UnexpectedCharacter(chars[off], off));
                },
                Some(tok) => {
                    if tok.kind == TokenType::WhiteSpace && tok.len > 0 {
                        off = off + tok.len;
                    } else {
                        let mut tok = tok;
                        tok.relocate(off);
                        return Ok(tok);
                    }
                },
            }
        }
    }

    /// The `n`th token (from zero) ahead of the read position, without
    /// consuming anything.
    pub fn lookahead(&self, n: usize) -> (r: Result<Token, SyntaxError>)
        requires
            self.wf(),
        ensures
            r == lex_nth(self.chars(), self.pos(), n as nat),
            r matches Ok(t) ==> self.pos() <= t.offset && t.offset + t.len <= self.chars().len(),
    {
        let total = self.chars.len();
        let mut tok = Self::lookahead_from(&self.chars, self.offset);
        proof {
            lemma_lex_at_bounds(self.chars(), self.pos());
        }
        let mut k: usize = n;
        while k > 0
            invariant
                self.wf(),
                total == self.chars@.len(),
                k <= n,
                lex_nth(self.chars(), self.pos(), n as nat) == match tok {
                    Ok(t) => if k == 0 {
                        Ok(t)
                    } else {
                        lex_nth(self.chars(), (t.offset + t.len) as nat, (k - 1) as nat)
                    },
                    Err(e) => Err(e),
                },
                tok matches Ok(t) ==> self.pos() <= t.offset && t.offset + t.len <= total,
            decreases k,
        {
            match tok {
                Ok(t) => {
                    proof {
                        lemma_lex_at_bounds(self.chars(), (t.offset + t.len) as nat);
                    }
                    tok = Self::lookahead_from(&self.chars, t.offset + t.len);
                },
                Err(_) => {
                    return tok;
                },
            }
            k -= 1;
        }
        tok
    }
    /// Constructs the text of the characters that `token` spans.
    pub fn to_string(&self, token: &Token) -> (r: String)
        requires
            self.wf(),
            token.offset + token.len <= self.chars().len(),
        ensures
            r@ == token_text(self.chars(), *token),
    {
        let n = token.offset;
        self.text.as_str().substring_char(n, n + token.len).to_owned()
    }

    /// Moves the read position past any whitespace and comments.
    fn skip_whitespace(&mut self)
        requires
            old(self).wf(),
        ensures
            final(self).wf(),
            final(self).chars() == old(self).chars(),
            old(self).pos() <= final(self).pos(),
            lex_at(final(self).chars(), final(self).pos()) == lex_at(old(self).chars(), old(self).pos()),
            lex_at(old(self).chars(), old(self).pos()) matches Ok(t) ==> final(self).pos() == t.offset,
    {
        let total = self.chars.len();
        while self.offset < total
            invariant
                self.wf(),
                total == self.chars@.len(),
                self.chars() == old(self).chars(),
                old(self).pos() <= self.pos(),
                lex_at(self.chars(), self.pos()) == lex_at(old(self).chars(), old(self).pos()),
            ensures
                self.wf(),
                self.chars() == old(self).chars(),
                old(self).pos() <= self.pos(),
                lex_at(self.chars(), self.pos()) == lex_at(old(self).chars(), old(self).pos()),
                lex_at(self.chars(), self.pos()) matches Ok(t) ==> self.pos() == t.offset,
            decreases total - self.offset,
        {
            proof {
                lemma_scan_bounds(self.chars(), self.offset as int);
            }
            match scan(&self.chars, self.offset) {
                Some(tok) => {
                    if tok.kind == TokenType::WhiteSpace {
                        self.offset = self.offset + tok.len;
                    } else {
                        break;
                    }
                },
                None => {
                    break;
                },
            }
        }
    }

    /// Consumes `token`, which must be the next token.
    pub fn accept(&mut self, token: &Token)
        requires
            old(self).wf(),
            lex_at(old(self).chars(), old(self).pos()) == Ok::<Token, SyntaxError>(*token),
        ensures
            final(self).wf(),
            final(self).chars() == old(self).chars(),
            final(self).pos() == token.offset + token.len,
            final(self).pos() <= final(self).chars().len() <= usize::MAX,
            token.kind != TokenType::EOF ==> old(self).pos() < final(self).pos(),
    {
        self.skip_whitespace();
        proof {
            lemma_lex_at_bounds(self.chars(), old(self).pos());
        }
        self.offset = token.offset + token.len;
    }

    /// Consumes the next token, which must be of `kind`.
    pub fn expect(&mut self, kind: TokenType) -> (r: Result<Token, SyntaxError>)
        requires
            old(self).wf(),
        ensures
            final(self).wf(),
            final(self).chars() == old(self).chars(),
            match expect_at(old(self).chars(), old(self).pos(), kind) {
                Ok((t, off)) => r == Ok::<Token, SyntaxError>(t) && final(self).pos() == off,
                Err(e) => r == Err::<Token, SyntaxError>(e),
            },
            final(self).pos() <= final(self).chars().len() <= usize::MAX,
            r is Ok ==> old(self).pos() <= final(self).pos(),
            r is Ok && kind != TokenType::EOF ==> old(self).pos() < final(self).pos(),
    {
        proof {
            lemma_lex_at_bounds(self.chars(), self.pos());
        }
        let tok = self.lookahead(0)?;
        if tok.kind != kind {
            return Err(SyntaxError::UnexpectedToken(tok));
        }
        self.accept(&tok);
        Ok(tok)
    }

    /// Consumes the next token if it is of `kind`, and says whether it was.
    pub fn matches(&mut self, kind: TokenType) -> (r: Result<bool, SyntaxError>)
        requires
            old(self).wf(),
        ensures
            final(self).wf(),
            final(self).chars() == old(self).chars(),
            match matches_at(old(self).chars(), old(self).pos(), kind) {
                Ok((b, off)) => r == Ok::<bool, SyntaxError>(b) && final(self).pos() == off,
                Err(e) => r == Err::<bool, SyntaxError>(e),
            },
            final(self).pos() <= final(self).chars().len() <= usize::MAX,
            r is Ok ==> old(self).pos() <= final(self).pos(),
            r == Ok::<bool, SyntaxError>(true) && kind != TokenType::EOF ==> old(self).pos()
                < final(self).pos(),
    {
        proof {
            lemma_lex_at_bounds(self.chars(), self.pos());
        }
        let lookahead = self.lookahead(0)?;
        if lookahead.kind == kind {
            self.accept(&lookahead);
            Ok(true)
        } else {
            Ok(false)
        }
    }

    /// Consumes the next token if its kind is one of `tokens`, and returns it.
    pub fn match_any(&mut self, tokens: &[TokenType]) -> (r: Result<Option<Token>, SyntaxError>)
        requires
            old(self).wf(),
        ensures
            final(self).wf(),
            final(self).chars() == old(self).chars(),
            match match_any_at(old(self).chars(), old(self).pos(), tokens@) {
                Ok((t, off)) => r == Ok::<Option<Token>, SyntaxError>(t) && final(self).pos() == off,
                Err(e) => r == Err::<Option<Token>, SyntaxError>(e),
            },
            final(self).pos() <= final(self).chars().len() <= usize::MAX,
            r is Ok ==> old(self).pos() <= final(self).pos(),
            r matches Ok(Some(t)) && t.kind != TokenType::EOF ==> old(self).pos()
                < final(self).pos(),
    {
        proof {
            lemma_lex_at_bounds(self.chars(), self.pos());
        }
        let lookahead = self.lookahead(0)?;
        let mut i: usize = 0;
        while i < tokens.len()
            invariant
                i <= tokens@.len(),
                forall|j: int| 0 <= j < i ==> tokens@[j] != lookahead.kind,
                *self == *old(self),
                self.wf(),
                lex_at(self.chars(), self.pos()) == Ok::<Token, SyntaxError>(lookahead),
            decreases tokens@.len() - i,
        {
            if lookahead.kind == tokens[i] {
                proof {
                    assert(tokens@.contains(lookahead.kind));
                    lemma_lex_at_bounds(self.chars(), self.pos());
                }
                self.accept(&lookahead);
                return Ok(Some(lookahead));
            }
            i += 1;
        }
        Ok(None)
    }
}

} // verus!
