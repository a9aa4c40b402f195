//! Token data: lexical categories, decoded literal values, and the token
//! record itself, together with the mathematical models that the scanner's
//! contracts are stated over.

use vstd::prelude::*;

verus! {

/// The closed set of lexical categories.
#[allow(non_camel_case_types)]
#[derive(Clone, Copy, Debug, PartialEq, Eq, Structural)]
pub enum TokenType {
    COMMA,
    DOT,
    STAR,
    MINUS,
    PLUS,
    EQUALS,
    SLASH,
    SEMICOLON,
    LPAREN,
    RPAREN,
    LBRACE,
    RBRACE,
    EQUALS_EQUALS,
    EXCLAM,
    EXCLAM_EQUALS,
    LESS,
    LESS_EQUALS,
    GREATER,
    GREATER_EQUALS,
    NUMBER,
    IDENT,
    STR,
    AND,
    OR,
    IF,
    ELSE,
    VAR,
    FOR,
    WHILE,
    FUN,
    CLASS,
    SUPER,
    THIS,
    RETURN,
    TRUE,
    FALSE,
    NIL,
    EOF,
}

/// The decoded value carried by a literal-bearing token: the contents of a
/// string literal, or the digit-and-dot text of a numeric literal.  The
/// numeric text is kept verbatim; decoding it into a machine number is left
/// to the caller, so that the scanner itself stays exact.
#[derive(Clone, Debug)]
pub enum Literal {
    Str(String),
    Num(String),
}

/// Model of a [`Literal`]: the same tagged value over character sequences.
pub ghost enum LiteralModel {
    Str(Seq<char>),
    Num(Seq<char>),
}

impl View for Literal {
    type V = LiteralModel;

    open spec fn view(&self) -> LiteralModel {
        match self {
            Literal::Str(s) => LiteralModel::Str(s@),
            Literal::Num(s) => LiteralModel::Num(s@),
        }
    }
}

/// Model of a [`Token`]: category, 1-based line, exact source text, and the
/// decoded literal value, all over mathematical types.
pub ghost struct TokenModel {
    pub ttype: TokenType,
    pub line: int,
    pub lexeme: Option<Seq<char>>,
    pub literal: Option<LiteralModel>,
}

/// One lexical unit: its category, the 1-based source line on which its
/// scan completed, the exact source substring that produced it (the
/// contents between the quotes for a string literal; absent for the
/// end-of-input token), and the decoded value for literal-bearing tokens.
#[derive(Clone, Debug)]
pub struct Token {
    pub ttype: TokenType,
    pub line: usize,
    pub lexeme: Option<String>,
    pub literal: Option<Literal>,
}

impl View for Token {
    type V = TokenModel;

    open spec fn view(&self) -> TokenModel {
        TokenModel {
            ttype: self.ttype,
            line: self.line as int,
            lexeme: match self.lexeme {
                Some(s) => Some(s@),
                None => None,
            },
            literal: match self.literal {
                Some(l) => Some(l@),
                None => None,
            },
        }
    }
}

impl Token {
    /// Builds a token from its parts.
    pub fn new(ttype: TokenType, line: usize, lexeme: Option<String>, literal: Option<Literal>) -> (t: Token)
        ensures
            t@ == (TokenModel {
                ttype,
                line: line as int,
                lexeme: match lexeme {
                    Some(s) => Some(s@),
                    None => None::<Seq<char>>,
                },
                literal: match literal {
                    Some(l) => Some(l@),
                    None => None::<LiteralModel>,
                },
            }),
    {
        Token { ttype, line, lexeme, literal }
    }
}

} // verus!
