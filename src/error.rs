//! Errors of the scanner and of the parser, and the report a driver shows.
use vstd::prelude::*;
use crate::text::{decimal, push_char, push_decimal, push_str};
use crate::token::{Token, TokenKind, TokenModel};

verus! {

/// Why scanning stopped.
#[derive(Clone, Copy, Debug, PartialEq, Eq, Structural)]
pub enum LexErrorKind {
    UnterminatedString,
    UnterminatedComment,
    UnexpectedCharacter(char),
}

/// The first unrecoverable issue met by the scanner, with the line it was on.
#[derive(Clone, Copy, Debug, PartialEq, Eq, Structural)]
pub struct LexError {
    pub kind: LexErrorKind,
    pub line: usize,
}

/// What a [`LexError`] holds, as mathematical values.
pub struct LexErrorModel {
    pub kind: LexErrorKind,
    pub line: nat,
}

impl View for LexError {
    type V = LexErrorModel;

    open spec fn view(&self) -> LexErrorModel {
        LexErrorModel { kind: self.kind, line: self.line as nat }
    }
}

/// Which token a grammar rule required and did not find.
#[derive(Clone, Copy, Debug, PartialEq, Eq, Structural)]
pub enum ParseErrorKind {
    ExpectedRightParen,
    ExpectedExpression,
}

/// A grammar rule failed at `token`.
#[derive(Clone, Debug, PartialEq)]
pub struct ParseError {
    pub kind: ParseErrorKind,
    pub token: Token,
}

/// What a [`ParseError`] holds, as mathematical values.
pub struct ParseErrorModel {
    pub kind: ParseErrorKind,
    pub token: TokenModel,
}

impl View for ParseError {
    type V = ParseErrorModel;

    open spec fn view(&self) -> ParseErrorModel {
        ParseErrorModel { kind: self.kind, token: self.token@ }
    }
}

/// An error as a driver reports it: a line, where on it, and what went wrong.
#[derive(Clone, Debug, PartialEq)]
pub struct LoxError {
    pub line: usize,
    pub location: String,
    pub message: String,
}

pub open spec fn lex_message(kind: LexErrorKind) -> Seq<char> {
    match kind {
        LexErrorKind::UnterminatedString => "Unterminated string."@,
        LexErrorKind::UnterminatedComment => "Unterminated comment."@,
        LexErrorKind::UnexpectedCharacter(c) => "Unexpected character: "@.push(c),
    }
}

pub open spec fn parse_message(kind: ParseErrorKind) -> Seq<char> {
    match kind {
        ParseErrorKind::ExpectedRightParen => "Expect ')' after expression."@,
        ParseErrorKind::ExpectedExpression => "Expect expression."@,
    }
}

/// Where on its line a parse error was met: at the end of the input, or at
/// the lexeme of the offending token.
pub open spec fn parse_location(token: TokenModel) -> Seq<char> {
    if token.kind == TokenKind::Eof {
        " at end"@
    } else {
        " at '"@ + token.lexeme + "'"@
    }
}

/// `[line <line>] Error<location>: <message>`
pub open spec fn rendered(line: nat, location: Seq<char>, message: Seq<char>) -> Seq<char> {
    "[line "@ + decimal(line) + "] Error"@ + location + ": "@ + message
}

impl LexError {
    pub fn message(&self) -> (r: String)
        ensures
            r@ == lex_message(self.kind),
    {
        let mut s = String::new();
        match self.kind {
            LexErrorKind::UnterminatedString => push_str(&mut s, "Unterminated string."),
            LexErrorKind::UnterminatedComment => push_str(&mut s, "Unterminated comment."),
            LexErrorKind::UnexpectedCharacter(c) => {
                push_str(&mut s, "Unexpected character: ");
                push_char(&mut s, c);
            },
        }
        assert(s@ =~= lex_message(self.kind));
        s
    }

    /// The report of this error: its line, no location, its message.
    pub fn report(&self) -> (r: LoxError)
        ensures
            r.line == self.line,
            r.location@ == Seq::<char>::empty(),
            r.message@ == lex_message(self.kind),
    {
        LoxError { line: self.line, location: String::new(), message: self.message() }
    }
}

impl ParseError {
    pub fn message(&self) -> (r: String)
        ensures
            r@ == parse_message(self.kind),
    {
        let mut s = String::new();
        match self.kind {
            ParseErrorKind::ExpectedRightParen => push_str(&mut s, "Expect ')' after expression."),
            ParseErrorKind::ExpectedExpression => push_str(&mut s, "Expect expression."),
        }
        assert(s@ =~= parse_message(self.kind));
        s
    }

    /// The report of this error: the offending token's line and lexeme.
    pub fn report(&self) -> (r: LoxError)
        ensures
            r.line == self.token.line,
            r.location@ == parse_location(self.token@),
            r.message@ == parse_message(self.kind),
    {
        let mut location = String::new();
        if self.token.kind == TokenKind::Eof {
            push_str(&mut location, " at end");
        } else {
            push_str(&mut location, " at '");
            push_str(&mut location, self.token.lexeme.as_str());
            push_str(&mut location, "'");
        }
        assert(location@ =~= parse_location(self.token@));
        LoxError { line: self.token.line, location, message: self.message() }
    }
}

impl LoxError {
    /// `[line <line>] Error<location>: <message>`
    pub fn render(&self) -> (r: String)
        ensures
            r@ == rendered(self.line as nat, self.location@, self.message@),
    {
        let mut s = String::new();
        push_str(&mut s, "[line ");
        push_decimal(&mut s, self.line);
        push_str(&mut s, "] Error");
        push_str(&mut s, self.location.as_str());
        push_str(&mut s, ": ");
        push_str(&mut s, self.message.as_str());
        assert(s@ =~= rendered(self.line as nat, self.location@, self.message@));
        s
    }
}

} // verus!
