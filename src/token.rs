//! Tokens: the category of a lexeme, its text, its literal value and its line.
use vstd::prelude::*;
use crate::literal::{Object, ObjectModel};

verus! {

/// The closed set of token categories.
#[derive(Clone, Copy, Debug, PartialEq, Eq, Structural)]
pub enum TokenKind {
    // Single-character tokens.
    LeftParen,
    RightParen,
    LeftBrace,
    RightBrace,
    Comma,
    Dot,
    Minus,
    Plus,
    Semicolon,
    Slash,
    Star,
    // One or two character tokens.
    Bang,
    BangEqual,
    Equal,
    EqualEqual,
    Greater,
    GreaterEqual,
    Less,
    LessEqual,
    // Literals.
    Identifier,
    String,
    Number,
    // Keywords.
    And,
    Class,
    Else,
    False,
    Fun,
    For,
    If,
    Nil,
    Or,
    Print,
    Return,
    Super,
    This,
    True,
    Var,
    While,
    Eof,
}

/// A lexeme with its category, its literal value (numbers and strings only)
/// and the line it was read on.
#[derive(Clone, Debug, PartialEq)]
pub struct Token {
    pub kind: TokenKind,
    pub lexeme: String,
    pub literal: Option<Object>,
    pub line: usize,
}

/// What a [`Token`] holds, as mathematical values.
pub struct TokenModel {
    pub kind: TokenKind,
    pub lexeme: Seq<char>,
    pub literal: Option<ObjectModel>,
    pub line: nat,
}

impl View for Token {
    type V = TokenModel;

    open spec fn view(&self) -> TokenModel {
        TokenModel {
            kind: self.kind,
            lexeme: self.lexeme@,
            literal: literal_model(self.literal),
            line: self.line as nat,
        }
    }
}

/// The model of an optional literal value.
pub open spec fn literal_model(literal: Option<Object>) -> Option<ObjectModel> {
    match literal {
        Some(v) => Some(v@),
        None => None,
    }
}

/// The models of a sequence of tokens.
pub open spec fn token_models(ts: Seq<Token>) -> Seq<TokenModel> {
    ts.map_values(|t: Token| t@)
}

/// The end-of-input token for line `line`.
pub open spec fn eof_model(line: nat) -> TokenModel {
    TokenModel { kind: TokenKind::Eof, lexeme: Seq::empty(), literal: None, line }
}

impl Token {
    pub fn new(kind: TokenKind, lexeme: String, literal: Option<Object>, line: usize) -> (r: Token)
        ensures
            r.kind == kind,
            r.lexeme == lexeme,
            r.literal == literal,
            r.line == line,
    {
        Token { kind, lexeme, literal, line }
    }

    /// The end-of-input token: empty lexeme, no literal.
    pub fn eof(line: usize) -> (r: Token)
        ensures
            r@ == eof_model(line as nat),
    {
        let lexeme = String::new();
        Token { kind: TokenKind::Eof, lexeme, literal: None, line }
    }

    /// A copy of this token.
    pub fn duplicate(&self) -> (r: Token)
        ensures
            r@ == self@,
    {
        let literal = match &self.literal {
            Some(v) => Some(v.duplicate()),
            None => None,
        };
        Token { kind: self.kind, lexeme: self.lexeme.clone(), literal, line: self.line }
    }
}

} // verus!
