use vstd::prelude::*;

verus! {

/// The kind of a lexical token.
#[derive(Debug, Clone, Copy, PartialEq, Eq, Structural)]
pub enum TokenType {
    Illegal,
    Eof,
    Ident,
    Int,
    Assign,
    Plus,
    Minus,
    Bang,
    Asterisk,
    Slash,
    Lt,
    Gt,
    Comma,
    Semicolon,
    Lparen,
    Rparen,
    Lbrace,
    Rbrace,
    Function,
    Let,
    True,
    False,
    If,
    Else,
    Return,
    Eq,
    NotEq,
}

/// The mathematical value of a token: its kind and its literal text.
pub struct Lexeme {
    pub kind: TokenType,
    pub text: Seq<char>,
}

/// A token: a kind together with the literal text it was scanned from.
#[derive(Debug, PartialEq, Eq)]
pub struct Token {
    pub token_type: TokenType,
    pub literal: String,
}

impl View for Token {
    type V = Lexeme;

    open spec fn view(&self) -> Lexeme {
        Lexeme { kind: self.token_type, text: self.literal@ }
    }
}

impl Clone for Token {
    fn clone(&self) -> (r: Token)
        ensures
            r@ == self@,
    {
        Token { token_type: self.token_type, literal: self.literal.clone() }
    }
}

impl Token {
    pub fn new(token_type: TokenType, literal: &str) -> (r: Token)
        ensures
            r@ == (Lexeme { kind: token_type, text: literal@ }),
    {
        Token { token_type, literal: literal.to_string() }
    }

    pub fn from_string(token_type: TokenType, literal: String) -> (r: Token)
        ensures
            r@ == (Lexeme { kind: token_type, text: literal@ }),
    {
        Token { token_type, literal }
    }

    pub fn token_type(&self) -> (r: TokenType)
        ensures
            r == self@.kind,
    {
        self.token_type
    }

    pub fn literal(&self) -> (r: &str)
        ensures
            r@ == self@.text,
    {
        self.literal.as_str()
    }
}

} // verus!
