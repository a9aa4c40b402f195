use loxr::scanner::{Scanner, ScannerError};
use loxr::token::{Literal, Token, TokenType};

fn scan(source: &str) -> Vec<Token> {
    Scanner::new(source).scan_tokens().unwrap()
}

fn scan_err(source: &str) -> ScannerError {
    Scanner::new(source).scan_tokens().unwrap_err()
}

fn types_of(tokens: &[Token]) -> Vec<TokenType> {
    tokens.iter().map(|t| t.ttype).collect()
}

#[test]
fn empty_input_scans_to_single_eof() {
    let tokens = scan("");
    assert_eq!(tokens.len(), 1);
    assert_eq!(tokens[0].ttype, TokenType::EOF);
    assert_eq!(tokens[0].line, 1);
    assert_eq!(tokens[0].lexeme, None);
    assert!(tokens[0].literal.is_none());
}

#[test]
fn whitespace_only_scans_to_single_eof() {
    let tokens = scan(" \t\r\n  \n ");
    assert_eq!(tokens.len(), 1);
    assert_eq!(tokens[0].ttype, TokenType::EOF);
    assert_eq!(tokens[0].line, 3);
}

#[test]
fn comment_only_scans_to_single_eof() {
    let tokens = scan("// nothing here");
    assert_eq!(tokens.len(), 1);
    assert_eq!(tokens[0].ttype, TokenType::EOF);
    assert_eq!(tokens[0].line, 1);
}

#[test]
fn comments_and_whitespace_scan_to_single_eof() {
    let tokens = scan("  // first\n\t// second\n// third");
    assert_eq!(tokens.len(), 1);
    assert_eq!(tokens[0].ttype, TokenType::EOF);
    assert_eq!(tokens[0].line, 3);
}

#[test]
fn eof_is_last_and_appears_only_once() {
    let tokens = scan("var x = 1;");
    let last = tokens.last().unwrap();
    assert_eq!(last.ttype, TokenType::EOF);
    assert_eq!(last.lexeme, None);
    for t in &tokens[..tokens.len() - 1] {
        assert_ne!(t.ttype, TokenType::EOF);
    }
}

#[test]
fn single_character_tokens_match_table() {
    let tokens = scan(", . * - + / ; ( ) { }");
    assert_eq!(
        types_of(&tokens),
        vec![
            TokenType::COMMA,
            TokenType::DOT,
            TokenType::STAR,
            TokenType::MINUS,
            TokenType::PLUS,
            TokenType::SLASH,
            TokenType::SEMICOLON,
            TokenType::LPAREN,
            TokenType::RPAREN,
            TokenType::LBRACE,
            TokenType::RBRACE,
            TokenType::EOF,
        ]
    );
    assert_eq!(tokens[0].lexeme.as_deref(), Some(","));
    assert_eq!(tokens[10].lexeme.as_deref(), Some("}"));
}

#[test]
fn operators_without_equals_stay_plain() {
    assert_eq!(
        types_of(&scan("=")),
        vec![TokenType::EQUALS, TokenType::EOF]
    );
    assert_eq!(
        types_of(&scan("!")),
        vec![TokenType::EXCLAM, TokenType::EOF]
    );
    assert_eq!(types_of(&scan("<")), vec![TokenType::LESS, TokenType::EOF]);
    assert_eq!(
        types_of(&scan(">")),
        vec![TokenType::GREATER, TokenType::EOF]
    );
}

#[test]
fn operators_with_equals_take_suffixed_variant() {
    assert_eq!(
        types_of(&scan("==")),
        vec![TokenType::EQUALS_EQUALS, TokenType::EOF]
    );
    assert_eq!(
        types_of(&scan("!=")),
        vec![TokenType::EXCLAM_EQUALS, TokenType::EOF]
    );
    assert_eq!(
        types_of(&scan("<=")),
        vec![TokenType::LESS_EQUALS, TokenType::EOF]
    );
    assert_eq!(
        types_of(&scan(">=")),
        vec![TokenType::GREATER_EQUALS, TokenType::EOF]
    );
    assert_eq!(scan("<=")[0].lexeme.as_deref(), Some("<="));
}

#[test]
fn operator_lookahead_does_not_consume_other_characters() {
    assert_eq!(
        types_of(&scan("= =")),
        vec![TokenType::EQUALS, TokenType::EQUALS, TokenType::EOF]
    );
    assert_eq!(
        types_of(&scan("===")),
        vec![TokenType::EQUALS_EQUALS, TokenType::EQUALS, TokenType::EOF]
    );
    assert_eq!(
        types_of(&scan("<1")),
        vec![TokenType::LESS, TokenType::NUMBER, TokenType::EOF]
    );
}

#[test]
fn string_literal_carries_contents_without_quotes() {
    let tokens = scan("\"abc\"");
    assert_eq!(tokens.len(), 2);
    assert_eq!(tokens[0].ttype, TokenType::STR);
    assert_eq!(tokens[0].lexeme.as_deref(), Some("abc"));
    match &tokens[0].literal {
        Some(Literal::Str(s)) => assert_eq!(s, "abc"),
        other => panic!("expected a string literal, got {:?}", other),
    }
    assert_eq!(tokens[1].ttype, TokenType::EOF);
}

#[test]
fn empty_string_literal() {
    let tokens = scan("\"\"");
    assert_eq!(tokens[0].ttype, TokenType::STR);
    match &tokens[0].literal {
        Some(Literal::Str(s)) => assert_eq!(s, ""),
        other => panic!("expected a string literal, got {:?}", other),
    }
}

#[test]
fn unterminated_string_fails_at_opening_line() {
    let err = scan_err("\"abc");
    assert_eq!(err, ScannerError::UnterminatedString(1));
    assert_eq!(err.line(), 1);
}

#[test]
fn unterminated_string_reports_line_it_opened_on() {
    let err = scan_err("\n\n\"abc\ndef");
    assert_eq!(err, ScannerError::UnterminatedString(3));
    assert_eq!(err.line(), 3);
}

#[test]
fn multiline_string_counts_newlines() {
    let tokens = scan("\"a\nb\"");
    assert_eq!(tokens[0].ttype, TokenType::STR);
    assert_eq!(tokens[0].line, 2);
    match &tokens[0].literal {
        Some(Literal::Str(s)) => assert_eq!(s, "a\nb"),
        other => panic!("expected a string literal, got {:?}", other),
    }
    assert_eq!(tokens[1].line, 2);
}

#[test]
fn newlines_advance_line_once_each() {
    let tokens = scan("a\nb\n\nc");
    assert_eq!(tokens[0].line, 1);
    assert_eq!(tokens[1].line, 2);
    assert_eq!(tokens[2].line, 4);
    assert_eq!(tokens[3].line, 4);
}

#[test]
fn comment_newline_advances_line() {
    let tokens = scan("// c\nx");
    assert_eq!(tokens[0].ttype, TokenType::IDENT);
    assert_eq!(tokens[0].line, 2);
}

#[test]
fn number_literal_value_is_exact() {
    let tokens = scan("123.45");
    assert_eq!(tokens.len(), 2);
    assert_eq!(tokens[0].ttype, TokenType::NUMBER);
    assert_eq!(tokens[0].lexeme.as_deref(), Some("123.45"));
    match &tokens[0].literal {
        Some(Literal::Num(s)) => {
            assert_eq!(s, "123.45");
            let value: f64 = s.parse().unwrap();
            assert_eq!(value, 123.45);
        }
        other => panic!("expected a number literal, got {:?}", other),
    }
}

#[test]
fn integer_number_literal() {
    let tokens = scan("7");
    assert_eq!(tokens[0].ttype, TokenType::NUMBER);
    match &tokens[0].literal {
        Some(Literal::Num(s)) => assert_eq!(s, "7"),
        other => panic!("expected a number literal, got {:?}", other),
    }
}

#[test]
fn number_run_with_extra_dots_is_kept_verbatim() {
    let tokens = scan("1.2.3");
    assert_eq!(tokens.len(), 2);
    assert_eq!(tokens[0].ttype, TokenType::NUMBER);
    assert_eq!(tokens[0].lexeme.as_deref(), Some("1.2.3"));
}

#[test]
fn leading_minus_is_its_own_token() {
    assert_eq!(
        types_of(&scan("-1")),
        vec![TokenType::MINUS, TokenType::NUMBER, TokenType::EOF]
    );
}

#[test]
fn identifier_token_keeps_lexeme() {
    let tokens = scan("x_1");
    assert_eq!(tokens.len(), 2);
    assert_eq!(tokens[0].ttype, TokenType::IDENT);
    assert_eq!(tokens[0].lexeme.as_deref(), Some("x_1"));
    assert!(tokens[0].literal.is_none());
}

#[test]
fn underscore_starts_an_identifier() {
    let tokens = scan("_");
    assert_eq!(tokens[0].ttype, TokenType::IDENT);
    assert_eq!(tokens[0].lexeme.as_deref(), Some("_"));
}

#[test]
fn reserved_words_are_recognised() {
    let tokens = scan("and or if else var for while fun class super this return true false nil");
    assert_eq!(
        types_of(&tokens),
        vec![
            TokenType::AND,
            TokenType::OR,
            TokenType::IF,
            TokenType::ELSE,
            TokenType::VAR,
            TokenType::FOR,
            TokenType::WHILE,
            TokenType::FUN,
            TokenType::CLASS,
            TokenType::SUPER,
            TokenType::THIS,
            TokenType::RETURN,
            TokenType::TRUE,
            TokenType::FALSE,
            TokenType::NIL,
            TokenType::EOF,
        ]
    );
}

#[test]
fn words_extending_a_keyword_are_identifiers() {
    assert_eq!(
        types_of(&scan("variable")),
        vec![TokenType::IDENT, TokenType::EOF]
    );
    assert_eq!(
        types_of(&scan("andx")),
        vec![TokenType::IDENT, TokenType::EOF]
    );
    assert_eq!(types_of(&scan("If")), vec![TokenType::IDENT, TokenType::EOF]);
}

#[test]
fn unknown_character_fails_with_character_and_line() {
    let err = scan_err("@");
    assert_eq!(err, ScannerError::UnknownCharacter('@', 1));
    assert_eq!(err.line(), 1);
}

#[test]
fn unknown_character_reports_current_line() {
    let err = scan_err("x\n@");
    assert_eq!(err, ScannerError::UnknownCharacter('@', 2));
    assert_eq!(err.line(), 2);
}

#[test]
fn arithmetic_line_scenario() {
    let tokens = scan("1 + 2 == 3\n");
    assert_eq!(
        types_of(&tokens),
        vec![
            TokenType::NUMBER,
            TokenType::PLUS,
            TokenType::NUMBER,
            TokenType::EQUALS_EQUALS,
            TokenType::NUMBER,
            TokenType::EOF,
        ]
    );
    assert_eq!(tokens[0].lexeme.as_deref(), Some("1"));
    assert_eq!(tokens[2].lexeme.as_deref(), Some("2"));
    assert_eq!(tokens[4].lexeme.as_deref(), Some("3"));
    for t in &tokens[..5] {
        assert_eq!(t.line, 1);
    }
    assert_eq!(tokens[5].line, 2);
}

#[test]
fn comment_then_declaration_scenario() {
    let tokens = scan("// comment\nvar x = 1;");
    assert_eq!(
        types_of(&tokens),
        vec![
            TokenType::VAR,
            TokenType::IDENT,
            TokenType::EQUALS,
            TokenType::NUMBER,
            TokenType::SEMICOLON,
            TokenType::EOF,
        ]
    );
    assert_eq!(tokens[1].lexeme.as_deref(), Some("x"));
    for t in &tokens {
        assert_eq!(t.line, 2);
    }
}

#[test]
fn comment_at_end_of_input_emits_no_token() {
    let tokens = scan("x // tail comment");
    assert_eq!(types_of(&tokens), vec![TokenType::IDENT, TokenType::EOF]);
}

#[test]
fn slash_between_numbers_is_division() {
    assert_eq!(
        types_of(&scan("1/2")),
        vec![
            TokenType::NUMBER,
            TokenType::SLASH,
            TokenType::NUMBER,
            TokenType::EOF,
        ]
    );
}

#[test]
fn unicode_whitespace_is_skipped() {
    let tokens = scan("\u{00A0}\u{2003}x\u{3000}");
    assert_eq!(types_of(&tokens), vec![TokenType::IDENT, TokenType::EOF]);
    assert_eq!(tokens[0].lexeme.as_deref(), Some("x"));
}

#[test]
fn unicode_letters_form_identifiers() {
    let tokens = scan("héllo");
    assert_eq!(types_of(&tokens), vec![TokenType::IDENT, TokenType::EOF]);
    assert_eq!(tokens[0].lexeme.as_deref(), Some("héllo"));
}

#[test]
fn digit_run_ends_before_letter() {
    let tokens = scan("1a");
    assert_eq!(
        types_of(&tokens),
        vec![TokenType::NUMBER, TokenType::IDENT, TokenType::EOF]
    );
    assert_eq!(tokens[0].lexeme.as_deref(), Some("1"));
    assert_eq!(tokens[1].lexeme.as_deref(), Some("a"));
}

#[test]
fn double_slash_inside_string_is_not_a_comment() {
    let tokens = scan("\"a//b\"");
    assert_eq!(tokens.len(), 2);
    assert_eq!(tokens[0].ttype, TokenType::STR);
    match &tokens[0].literal {
        Some(Literal::Str(s)) => assert_eq!(s, "a//b"),
        other => panic!("expected a string literal, got {:?}", other),
    }
}

#[test]
fn quote_inside_comment_is_ignored() {
    let tokens = scan("// \"not a string\n1");
    assert_eq!(types_of(&tokens), vec![TokenType::NUMBER, TokenType::EOF]);
    assert_eq!(tokens[0].line, 2);
}

#[test]
fn single_slash_before_comment_is_a_token() {
    let tokens = scan("/ // rest is comment");
    assert_eq!(types_of(&tokens), vec![TokenType::SLASH, TokenType::EOF]);
}

#[test]
fn error_stops_the_scan_without_tokens() {
    let err = scan_err("1 + 2 @ 3");
    assert_eq!(err, ScannerError::UnknownCharacter('@', 1));
}
