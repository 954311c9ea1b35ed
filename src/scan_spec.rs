//! What scanning means: the lexeme that starts at a position, and the token
//! sequence of a whole source text.
use vstd::prelude::*;
use crate::error::{LexErrorKind, LexErrorModel};
use crate::literal::{digit_end, lemma_digit_end_bounds, number_end, number_value, ObjectModel};
use crate::text::{is_alpha, is_alpha_numeric, is_digit, newlines};
use crate::token::{eof_model, TokenKind, TokenModel};

verus! {

/// `src[i]` exists and is `c`.
pub open spec fn next_is(src: Seq<char>, i: int, c: char) -> bool {
    0 <= i < src.len() && src[i] == c
}

/// The kind of a token made of this one character alone.
pub open spec fn single_char_kind(c: char) -> Option<TokenKind> {
    match c {
        '(' => Some(TokenKind::LeftParen),
        ')' => Some(TokenKind::RightParen),
        '{' => Some(TokenKind::LeftBrace),
        '}' => Some(TokenKind::RightBrace),
        ',' => Some(TokenKind::Comma),
        '.' => Some(TokenKind::Dot),
        '-' => Some(TokenKind::Minus),
        '+' => Some(TokenKind::Plus),
        ';' => Some(TokenKind::Semicolon),
        '*' => Some(TokenKind::Star),
        _ => None,
    }
}

/// The kind of an operator that may be followed by `=` (`!`, `=`, `<`, `>`),
/// with or without that `=`.
pub open spec fn equal_suffix_kind(c: char, with_equal: bool) -> Option<TokenKind> {
    match c {
        '!' => Some(if with_equal { TokenKind::BangEqual } else { TokenKind::Bang }),
        '=' => Some(if with_equal { TokenKind::EqualEqual } else { TokenKind::Equal }),
        '<' => Some(if with_equal { TokenKind::LessEqual } else { TokenKind::Less }),
        '>' => Some(if with_equal { TokenKind::GreaterEqual } else { TokenKind::Greater }),
        _ => None,
    }
}

/// The kind of the word `text`: a reserved word's own kind, else an identifier.
pub open spec fn keyword_kind(text: Seq<char>) -> TokenKind {
    if text == "and"@ {
        TokenKind::And
    } else if text == "class"@ {
        TokenKind::Class
    } else if text == "else"@ {
        TokenKind::Else
    } else if text == "false"@ {
        TokenKind::False
    } else if text == "for"@ {
        TokenKind::For
    } else if text == "fun"@ {
        TokenKind::Fun
    } else if text == "if"@ {
        TokenKind::If
    } else if text == "nil"@ {
        TokenKind::Nil
    } else if text == "or"@ {
        TokenKind::Or
    } else if text == "print"@ {
        TokenKind::Print
    } else if text == "return"@ {
        TokenKind::Return
    } else if text == "super"@ {
        TokenKind::Super
    } else if text == "this"@ {
        TokenKind::This
    } else if text == "true"@ {
        TokenKind::True
    } else if text == "var"@ {
        TokenKind::Var
    } else if text == "while"@ {
        TokenKind::While
    } else {
        TokenKind::Identifier
    }
}

/// First position at or after `i` that holds a line break, or the length.
pub open spec fn line_end(src: Seq<char>, i: int) -> int
    decreases src.len() - i,
{
    if 0 <= i < src.len() && src[i] != '\n' {
        line_end(src, i + 1)
    } else {
        i
    }
}

/// First position at or after `i` that holds `"`, or the length.
pub open spec fn quote_index(src: Seq<char>, i: int) -> int
    decreases src.len() - i,
{
    if 0 <= i < src.len() && src[i] != '"' {
        quote_index(src, i + 1)
    } else {
        i
    }
}

/// End of the run of letters, digits and underscores that starts at `i`.
pub open spec fn word_end(src: Seq<char>, i: int) -> int
    decreases src.len() - i,
{
    if 0 <= i < src.len() && is_alpha_numeric(src[i]) {
        word_end(src, i + 1)
    } else {
        i
    }
}

/// Inside a block comment nested `depth` deep, at position `i`: the position
/// just after the `*/` that closes the outermost comment, if the input has it.
/// Each `/*` opens one more level, each `*/` closes one.
pub open spec fn comment_close(src: Seq<char>, i: int, depth: nat) -> Option<int>
    decreases src.len() - i,
{
    if i < 0 || i >= src.len() {
        None
    } else if src[i] == '*' && next_is(src, i + 1, '/') {
        if depth <= 1 {
            Some(i + 2)
        } else {
            comment_close(src, i + 2, (depth - 1) as nat)
        }
    } else if src[i] == '/' && next_is(src, i + 1, '*') {
        comment_close(src, i + 2, depth + 1)
    } else {
        comment_close(src, i + 1, depth)
    }
}

/// What the scanner does with the input at position `i`.
pub enum Lexeme {
    /// Nothing to emit (blank or comment); go on at `next` on line `line`.
    Skip { next: int, line: nat },
    /// Emit `token`, and go on at `next` on line `token.line`.
    Emit { token: TokenModel, next: int },
    /// Stop with `error`.
    Fail { error: LexErrorModel },
}

/// A token without a literal value, made of `src[start..end]`.
pub open spec fn plain_token(src: Seq<char>, start: int, end: int, kind: TokenKind, line: nat) -> TokenModel {
    TokenModel { kind, lexeme: src.subrange(start, end), literal: None, line }
}

/// The lexeme that starts at position `i`, on line `line`.
pub open spec fn lex_step(src: Seq<char>, i: int, line: nat) -> Lexeme {
    let c = src[i];
    if single_char_kind(c) is Some {
        Lexeme::Emit { token: plain_token(src, i, i + 1, single_char_kind(c)->Some_0, line), next: i + 1 }
    } else if equal_suffix_kind(c, false) is Some {
        let eq = next_is(src, i + 1, '=');
        let end = if eq { i + 2 } else { i + 1 };
        Lexeme::Emit { token: plain_token(src, i, end, equal_suffix_kind(c, eq)->Some_0, line), next: end }
    } else if c == '/' {
        if next_is(src, i + 1, '/') {
            Lexeme::Skip { next: line_end(src, i + 2), line }
        } else if next_is(src, i + 1, '*') {
            match comment_close(src, i + 2, 1) {
                Some(end) => Lexeme::Skip { next: end, line: line + newlines(src.subrange(i + 2, end)) },
                None => Lexeme::Fail {
                    error: LexErrorModel {
                        kind: LexErrorKind::UnterminatedComment,
                        line: line + newlines(src.subrange(i + 2, src.len() as int)),
                    },
                },
            }
        } else {
            Lexeme::Emit { token: plain_token(src, i, i + 1, TokenKind::Slash, line), next: i + 1 }
        }
    } else if c == ' ' || c == '\r' || c == '\t' {
        Lexeme::Skip { next: i + 1, line }
    } else if c == '\n' {
        Lexeme::Skip { next: i + 1, line: line + 1 }
    } else if c == '"' {
        let q = quote_index(src, i + 1);
        if q >= src.len() {
            Lexeme::Fail {
                error: LexErrorModel {
                    kind: LexErrorKind::UnterminatedString,
                    line: line + newlines(src.subrange(i + 1, src.len() as int)),
                },
            }
        } else {
            Lexeme::Emit {
                token: TokenModel {
                    kind: TokenKind::String,
                    lexeme: src.subrange(i, q + 1),
                    literal: Some(ObjectModel::Str(src.subrange(i + 1, q))),
                    line: line + newlines(src.subrange(i + 1, q)),
                },
                next: q + 1,
            }
        }
    } else if is_digit(c) {
        let end = number_end(src, i);
        Lexeme::Emit {
            token: TokenModel {
                kind: TokenKind::Number,
                lexeme: src.subrange(i, end),
                literal: Some(ObjectModel::Num(number_value(src, i, end))),
                line,
            },
            next: end,
        }
    } else if is_alpha(c) {
        let end = word_end(src, i);
        Lexeme::Emit {
            token: plain_token(src, i, end, keyword_kind(src.subrange(i, end)), line),
            next: end,
        }
    } else {
        Lexeme::Fail { error: LexErrorModel { kind: LexErrorKind::UnexpectedCharacter(c), line } }
    }
}

/// Where a lexing step goes on, if it goes on.
pub open spec fn step_next(step: Lexeme) -> int {
    match step {
        Lexeme::Skip { next, .. } => next,
        Lexeme::Emit { next, .. } => next,
        Lexeme::Fail { .. } => 0,
    }
}

/// The tokens of `src` from position `i` on, scanning on line `line`, ended by
/// an end-of-input token; or the first error.
pub open spec fn scan_from(src: Seq<char>, i: int, line: nat) -> Result<Seq<TokenModel>, LexErrorModel>
    decreases src.len() - i,
{
    if i < 0 || i >= src.len() {
        Ok(seq![eof_model(line)])
    } else {
        proof {
            lemma_lex_step_advances(src, i, line);
        }
        match lex_step(src, i, line) {
            Lexeme::Skip { next, line } => scan_from(src, next, line),
            Lexeme::Emit { token, next } => match scan_from(src, next, token.line) {
                Ok(ts) => Ok(seq![token] + ts),
                Err(e) => Err(e),
            },
            Lexeme::Fail { error } => Err(error),
        }
    }
}

/// The tokens of a whole source text.
pub open spec fn scan(src: Seq<char>) -> Result<Seq<TokenModel>, LexErrorModel> {
    scan_from(src, 0, 1)
}

pub proof fn lemma_line_end_bounds(src: Seq<char>, i: int)
    requires
        0 <= i <= src.len(),
    ensures
        i <= line_end(src, i) <= src.len(),
    decreases src.len() - i,
{
    if i < src.len() && src[i] != '\n' {
        lemma_line_end_bounds(src, i + 1);
    }
}

pub proof fn lemma_quote_index_bounds(src: Seq<char>, i: int)
    requires
        0 <= i <= src.len(),
    ensures
        i <= quote_index(src, i) <= src.len(),
    decreases src.len() - i,
{
    if i < src.len() && src[i] != '"' {
        lemma_quote_index_bounds(src, i + 1);
    }
}

pub proof fn lemma_word_end_bounds(src: Seq<char>, i: int)
    requires
        0 <= i <= src.len(),
    ensures
        i <= word_end(src, i) <= src.len(),
    decreases src.len() - i,
{
    if i < src.len() && is_alpha_numeric(src[i]) {
        lemma_word_end_bounds(src, i + 1);
    }
}

pub proof fn lemma_comment_close_bounds(src: Seq<char>, i: int, depth: nat)
    ensures
        comment_close(src, i, depth) matches Some(e) ==> i + 2 <= e <= src.len(),
    decreases src.len() - i,
{
    if i < 0 || i >= src.len() {
    } else if src[i] == '*' && next_is(src, i + 1, '/') {
        if depth > 1 {
            lemma_comment_close_bounds(src, i + 2, (depth - 1) as nat);
        }
    } else if src[i] == '/' && next_is(src, i + 1, '*') {
        lemma_comment_close_bounds(src, i + 2, depth + 1);
    } else {
        lemma_comment_close_bounds(src, i + 1, depth);
    }
}

/// Every lexeme that does not fail moves forward and stays within the input.
pub proof fn lemma_lex_step_advances(src: Seq<char>, i: int, line: nat)
    requires
        0 <= i < src.len(),
    ensures
        !(lex_step(src, i, line) is Fail) ==> i < step_next(lex_step(src, i, line)) <= src.len(),
{
    let c = src[i];
    if i + 2 <= src.len() {
        lemma_line_end_bounds(src, i + 2);
    }
    lemma_comment_close_bounds(src, i + 2, 1);
    lemma_quote_index_bounds(src, i + 1);
    lemma_digit_end_bounds(src, i);
    let k = digit_end(src, i);
    if k + 1 < src.len() {
        lemma_digit_end_bounds(src, k + 1);
    }
    lemma_word_end_bounds(src, i);
    if is_alpha(c) {
        assert(word_end(src, i) == word_end(src, i + 1));
        lemma_word_end_bounds(src, i + 1);
    }
}

} // verus!
