use loxr::lox::Lox;
use loxr::token::{Literal, Token, TokenType};

#[test]
fn token_new_keeps_its_parts() {
    let t = Token::new(
        TokenType::STR,
        4,
        Some(String::from("hi")),
        Some(Literal::Str(String::from("hi"))),
    );
    assert_eq!(t.ttype, TokenType::STR);
    assert_eq!(t.line, 4);
    assert_eq!(t.lexeme.as_deref(), Some("hi"));
    match &t.literal {
        Some(Literal::Str(s)) => assert_eq!(s, "hi"),
        other => panic!("expected a string literal, got {:?}", other),
    }
}

#[test]
fn token_new_without_value() {
    let t = Token::new(TokenType::EOF, 1, None, None);
    assert_eq!(t.ttype, TokenType::EOF);
    assert_eq!(t.line, 1);
    assert!(t.lexeme.is_none());
    assert!(t.literal.is_none());
}

#[test]
fn lox_error_flag_starts_clear() {
    let lox = Lox::new();
    assert!(!lox.had_error());
}

#[test]
fn lox_error_flag_records_and_clears() {
    let mut lox = Lox::new();
    lox.record_error();
    assert!(lox.had_error());
    lox.clear_error();
    assert!(!lox.had_error());
}
