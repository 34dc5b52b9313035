//! The vocabulary shared by the scanner, the parser and the evaluator.

use vstd::prelude::*;

verus! {

/// The kind of a token.
#[derive(Debug, Clone, Copy, PartialEq, Eq, Structural)]
pub enum TokenType {
    LeftParen,
    RightParen,
    LeftBrace,
    RightBrace,
    Comma,
    Dot,
    Minus,
    Plus,
    Semicolon,
    Slash,
    Star,
    Bang,
    BangEqual,
    Equal,
    EqualEqual,
    Greater,
    GreaterEqual,
    Less,
    LessEqual,
    Identifier,
    String_,
    Number,
    And,
    Class,
    Else,
    False,
    Fun,
    For,
    If,
    Nil,
    Or,
    Print,
    Return,
    Super,
    This,
    True,
    Var,
    While,
    Eof,
}

/// A constant as it stands in the source text. A number is kept as its
/// numeral, digit for digit: its double-precision value is asked of the host
/// when the literal is evaluated.
#[derive(Debug, PartialEq)]
pub enum Literal {
    String_(String),
    Number(String),
    Bool(bool),
    Nil,
}

/// The mathematical value of a [`Literal`].
pub enum LiteralView {
    String_(Seq<char>),
    Number(Seq<char>),
    Bool(bool),
    Nil,
}

impl View for Literal {
    type V = LiteralView;

    open spec fn view(&self) -> LiteralView {
        match *self {
            Literal::String_(s) => LiteralView::String_(s@),
            Literal::Number(s) => LiteralView::Number(s@),
            Literal::Bool(b) => LiteralView::Bool(b),
            Literal::Nil => LiteralView::Nil,
        }
    }
}

impl Clone for Literal {
    fn clone(&self) -> (r: Self)
        ensures
            r == *self,
    {
        match self {
            Literal::String_(s) => Literal::String_(s.clone()),
            Literal::Number(s) => Literal::Number(s.clone()),
            Literal::Bool(b) => Literal::Bool(*b),
            Literal::Nil => Literal::Nil,
        }
    }
}

/// A classified lexeme with its optional constant and its source line.
#[derive(Debug, PartialEq)]
pub struct Token {
    pub type_: TokenType,
    pub lexeme: String,
    pub literal: Option<Literal>,
    pub line: usize,
}

/// The mathematical value of a [`Token`].
pub struct TokenView {
    pub type_: TokenType,
    pub lexeme: Seq<char>,
    pub literal: Option<LiteralView>,
    pub line: nat,
}

/// The view of an optional literal.
pub open spec fn literal_option_view(literal: Option<Literal>) -> Option<LiteralView> {
    match literal {
        Some(l) => Some(l@),
        None => None,
    }
}

/// The views of a sequence of tokens, in order.
pub open spec fn tokens_view(tokens: Seq<Token>) -> Seq<TokenView> {
    Seq::new(tokens.len(), |i: int| tokens[i]@)
}

impl View for Token {
    type V = TokenView;

    open spec fn view(&self) -> TokenView {
        TokenView {
            type_: self.type_,
            lexeme: self.lexeme@,
            literal: literal_option_view(self.literal),
            line: self.line as nat,
        }
    }
}

impl Clone for Token {
    fn clone(&self) -> (r: Self)
        ensures
            r == *self,
    {
        let literal = match &self.literal {
            Some(l) => Some(l.clone()),
            None => None,
        };
        Token { type_: self.type_, lexeme: self.lexeme.clone(), literal, line: self.line }
    }
}

impl Token {
    /// Builds a token from its four parts; the lexeme is copied.
    pub fn new(type_: TokenType, lexeme: &str, literal: Option<Literal>, line: usize) -> (r: Self)
        ensures
            r.type_ == type_,
            r.lexeme@ == lexeme@,
            r.literal == literal,
            r.line == line,
    {
        Token { type_, lexeme: lexeme.to_owned(), literal, line }
    }
}

} // verus!
