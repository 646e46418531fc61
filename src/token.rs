use vstd::prelude::*;

verus! {

/// The lexical category of a token.
#[derive(Clone, Copy, Debug, PartialEq, Eq, Structural)]
pub enum TokenType {
    LeftParen,
    RightParen,
    LeftBrace,
    RightBrace,
    Comma,
    Dot,
    Minus,
    Plus,
    Semicolon,
    Star,
    Bang,
    BangEqual,
    Equal,
    EqualEqual,
    Less,
    LessEqual,
    Greater,
    GreaterEqual,
    Slash,
    /// A string literal; its text stands in the token's `literal`.
    Str,
    /// The end of the input.
    Eof,
}

/// A token as a mathematical value.
pub struct TokenView {
    pub kind: TokenType,
    pub lexeme: Seq<char>,
    pub literal: Option<Seq<char>>,
    pub line: nat,
}

/// A classified piece of source text and the line it starts on.
#[derive(Debug)]
pub struct Token {
    pub kind: TokenType,
    /// The exact source text of the token.
    pub lexeme: String,
    /// The text between the quotes, for a string literal.
    pub literal: Option<String>,
    pub line: usize,
}

impl View for Token {
    type V = TokenView;

    open spec fn view(&self) -> TokenView {
        TokenView {
            kind: self.kind,
            lexeme: self.lexeme@,
            literal: match self.literal {
                Some(s) => Some(s@),
                None => None,
            },
            line: self.line as nat,
        }
    }
}

impl Token {
    /// A token made of the given parts.
    pub fn new(kind: TokenType, lexeme: String, literal: Option<String>, line: usize) -> (t: Token)
        ensures
            t.kind == kind,
            t.lexeme == lexeme,
            t.literal == literal,
            t.line == line,
    {
        Token { kind, lexeme, literal, line }
    }
}

impl Clone for Token {
    fn clone(&self) -> (t: Token)
        ensures
            t@ == self@,
    {
        let literal = match &self.literal {
            Some(s) => Some(s.clone()),
            None => None,
        };
        Token { kind: self.kind, lexeme: self.lexeme.clone(), literal, line: self.line }
    }
}

} // verus!
