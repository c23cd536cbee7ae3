//! The token model: a classified atomic unit of source text, carrying the
//! raw lexeme it was scanned from, a decoded literal (non-empty only for
//! string and number tokens) and the source line it appeared on.

use vstd::prelude::*;

verus! {

/// The fixed set of token categories the scanner can produce.
#[derive(Debug, PartialEq, Eq, Structural, Clone, Copy)]
#[allow(non_camel_case_types)]
pub enum TokenType {
    // Single-character tokens.
    LEFT_PAREN,
    RIGHT_PAREN,
    LEFT_BRACE,
    RIGHT_BRACE,
    COMMA,
    DOT,
    MINUS,
    PLUS,
    SEMICOLON,
    SLASH,
    STAR,
    // One or two character tokens.
    BANG,
    BANG_EQUAL,
    EQUAL,
    EQUAL_EQUAL,
    GREATER,
    GREATER_EQUAL,
    LESS,
    LESS_EQUAL,
    // Literals.
    IDENTIFIER,
    STRING,
    NUMBER,
    // Keywords.
    AND,
    CLASS,
    ELSE,
    FALSE,
    FUN,
    FOR,
    IF,
    NIL,
    OR,
    PRINT,
    RETURN,
    SUPER,
    THIS,
    TRUE,
    VAR,
    WHILE,
    EOF,
    UNKNOWN,
}

/// The broad classes of literal a token can carry.
#[derive(Debug, PartialEq, Eq, Structural)]
pub enum Literal {
    NUMBER,
    STRING,
    TRUE,
    FALSE,
    NIL,
}

/// Mathematical model of a token: its kind, its lexeme and literal as
/// character sequences, and the line it was scanned on.
#[verifier::ext_equal]
pub struct SpecToken {
    pub kind: TokenType,
    pub lexeme: Seq<char>,
    pub literal: Seq<char>,
    pub line: nat,
}

/// A classified atomic unit of source text.
#[derive(Debug)]
pub struct Token {
    pub tok_type: TokenType,
    pub lexeme: String,
    pub literal: String,
    pub line: usize,
}

impl View for Token {
    type V = SpecToken;

    open spec fn view(&self) -> SpecToken {
        SpecToken {
            kind: self.tok_type,
            lexeme: self.lexeme@,
            literal: self.literal@,
            line: self.line as nat,
        }
    }
}

impl Token {
    /// Builds a token from its four parts.
    pub fn new(tok_type: TokenType, lexeme: String, literal: String, line: usize) -> (t: Token)
        ensures
            t@ == (SpecToken {
                kind: tok_type,
                lexeme: lexeme@,
                literal: literal@,
                line: line as nat,
            }),
    {
        Token { tok_type, lexeme, literal, line }
    }
}

impl Clone for Token {
    /// A clone carries the same kind, lexeme, literal and line.
    fn clone(&self) -> (t: Token)
        ensures
            t@ == self@,
    {
        Token {
            tok_type: self.tok_type,
            lexeme: self.lexeme.clone(),
            literal: self.literal.clone(),
            line: self.line,
        }
    }
}

/// The model of the sequence of tokens a token vector holds.
pub open spec fn toks_of(ts: Seq<Token>) -> Seq<SpecToken> {
    ts.map_values(|t: Token| t@)
}

} // verus!
