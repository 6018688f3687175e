use vcg::{Lexer, SyntaxError, Token, TokenType};

fn tok(kind: TokenType, offset: usize, len: usize) -> Token {
    Token { kind, offset, len }
}

#[test]
fn comment_is_discarded_before_literal() {
    let lexer = Lexer::new("// comment\n123");
    assert_eq!(lexer.lookahead(0), Ok(tok(TokenType::IntLiteral, 11, 3)));
    assert_eq!(lexer.lookahead(1), Ok(tok(TokenType::EOF, 14, 0)));
}

#[test]
fn operators_longest_first() {
    let lexer = Lexer::new("==> == = >");
    assert_eq!(lexer.lookahead(0), Ok(tok(TokenType::LongRightArrow, 0, 3)));
    assert_eq!(lexer.lookahead(1), Ok(tok(TokenType::EqualsEquals, 4, 2)));
    // A lone `=` starts no token.
    assert_eq!(lexer.lookahead(2), Err(SyntaxError::UnexpectedCharacter('=', 7)));
}

#[test]
fn keywords_and_identifiers() {
    let lexer = Lexer::new("if iff true falsey uint _x9 recfun");
    assert_eq!(lexer.lookahead(0), Ok(tok(TokenType::If, 0, 2)));
    assert_eq!(lexer.lookahead(1), Ok(tok(TokenType::Identifier, 3, 3)));
    assert_eq!(lexer.lookahead(2), Ok(tok(TokenType::BoolLiteral(true), 7, 4)));
    assert_eq!(lexer.lookahead(3), Ok(tok(TokenType::Identifier, 12, 6)));
    assert_eq!(lexer.lookahead(4), Ok(tok(TokenType::Uint, 19, 4)));
    assert_eq!(lexer.lookahead(5), Ok(tok(TokenType::Identifier, 24, 3)));
    assert_eq!(lexer.lookahead(6), Ok(tok(TokenType::RecFun, 28, 6)));
}

#[test]
fn single_and_double_operators() {
    let lexer = Lexer::new("(){}[]:,-%+/*!<>&&||<=>=!=->");
    let kinds = [
        TokenType::LeftBrace,
        TokenType::RightBrace,
        TokenType::LeftCurly,
        TokenType::RightCurly,
        TokenType::LeftSquare,
        TokenType::RightSquare,
        TokenType::Colon,
        TokenType::Comma,
        TokenType::Minus,
        TokenType::Percent,
        TokenType::Plus,
        TokenType::RightSlash,
        TokenType::Star,
        TokenType::Shreak,
        TokenType::LeftAngle,
        TokenType::RightAngle,
        TokenType::AmpersandAmpersand,
        TokenType::BarBar,
        TokenType::LeftAngleEquals,
        TokenType::RightAngleEquals,
        TokenType::ShreakEquals,
        TokenType::RightArrow,
    ];
    for (i, k) in kinds.iter().enumerate() {
        assert_eq!(lexer.lookahead(i).unwrap().kind, *k);
    }
}

#[test]
fn unexpected_character_is_an_error_value() {
    let lexer = Lexer::new("  #");
    assert_eq!(lexer.lookahead(0), Err(SyntaxError::UnexpectedCharacter('#', 2)));
}

#[test]
fn consuming_tokens() {
    let mut lexer = Lexer::new("foo ( 12 )");
    let id = lexer.expect(TokenType::Identifier).unwrap();
    assert_eq!(lexer.to_string(&id), "foo");
    assert_eq!(lexer.matches(TokenType::Comma), Ok(false));
    assert_eq!(lexer.matches(TokenType::LeftBrace), Ok(true));
    let lit = lexer.match_any(&[TokenType::BoolLiteral(true), TokenType::IntLiteral]).unwrap();
    assert_eq!(lit, Some(tok(TokenType::IntLiteral, 6, 2)));
    assert_eq!(lexer.to_string(&lit.unwrap()), "12");
    assert_eq!(lexer.match_any(&[TokenType::Colon]), Ok(None));
    assert_eq!(
        lexer.expect(TokenType::Identifier),
        Err(SyntaxError::UnexpectedToken(tok(TokenType::RightBrace, 9, 1)))
    );
    let close = lexer.lookahead(0).unwrap();
    lexer.accept(&close);
    assert_eq!(lexer.lookahead(0), Ok(tok(TokenType::EOF, 10, 0)));
}

#[test]
fn relocate_moves_a_token() {
    let mut t = tok(TokenType::Plus, 0, 1);
    t.relocate(7);
    assert_eq!(t, tok(TokenType::Plus, 7, 1));
}
