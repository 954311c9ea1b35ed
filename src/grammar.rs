//! What parsing means: the expression grammar over a token sequence, from
//! the lowest binding level to the highest:
//! expression, equality, comparison, term, factor, unary, primary.
use vstd::prelude::*;
use crate::error::{ParseErrorKind, ParseErrorModel};
use crate::expr::ExprModel;
use crate::literal::ObjectModel;
use crate::token::{eof_model, TokenKind, TokenModel};

verus! {

/// The four left-associative binary levels, from the lowest binding.
#[derive(Clone, Copy, Debug, PartialEq, Eq, Structural)]
pub enum Level {
    Equality,
    Comparison,
    Term,
    Factor,
}

/// The operators of a level, in the order they are tried.
pub open spec fn level_ops(level: Level) -> Seq<TokenKind> {
    match level {
        Level::Equality => seq![TokenKind::BangEqual, TokenKind::EqualEqual],
        Level::Comparison => seq![
            TokenKind::Greater,
            TokenKind::GreaterEqual,
            TokenKind::Less,
            TokenKind::LessEqual,
        ],
        Level::Term => seq![TokenKind::Minus, TokenKind::Plus],
        Level::Factor => seq![TokenKind::Slash, TokenKind::Star],
    }
}

/// The prefix operators.
pub open spec fn unary_ops() -> Seq<TokenKind> {
    seq![TokenKind::Bang, TokenKind::Minus]
}

/// The next level up, whose expressions are the operands of this one.
pub open spec fn next_level(level: Level) -> Level {
    match level {
        Level::Equality => Level::Comparison,
        Level::Comparison => Level::Term,
        _ => Level::Factor,
    }
}

/// Position in the call chain, for termination: higher for lower binding.
pub open spec fn rank(level: Level) -> int {
    match level {
        Level::Equality => 9,
        Level::Comparison => 7,
        Level::Term => 5,
        Level::Factor => 3,
    }
}

/// The token at `i` is not the end of input and is one of `kinds`.
pub open spec fn matches_at(ts: Seq<TokenModel>, i: int, kinds: Seq<TokenKind>) -> bool {
    0 <= i < ts.len() && ts[i].kind != TokenKind::Eof && kinds.contains(ts[i].kind)
}

/// A parsed expression and the position after it, or the first error.
pub type Parsed = Result<(ExprModel, int), ParseErrorModel>;

pub open spec fn error_at(ts: Seq<TokenModel>, i: int, kind: ParseErrorKind) -> Parsed {
    Err(ParseErrorModel { kind, token: ts[i] })
}

/// `expression → equality`
pub open spec fn expression(ts: Seq<TokenModel>, i: int) -> Parsed
    decreases ts.len() - i, 10int,
{
    binary(ts, Level::Equality, i)
}

/// `level → operand ( op operand )*`, folded to the left.
///
/// Here and in `binary_rest` the position checks always hold (an operand
/// reads at least one token, as the parser's contracts show); they let the
/// definition be seen to terminate.
pub open spec fn binary(ts: Seq<TokenModel>, level: Level, i: int) -> Parsed
    decreases ts.len() - i, rank(level),
{
    match operand(ts, level, i) {
        Ok((left, j)) => if i <= j <= ts.len() {
            binary_rest(ts, level, left, j)
        } else {
            Ok((left, j))
        },
        Err(e) => Err(e),
    }
}

/// The operands of a level: the next level up, or unary under factor.
pub open spec fn operand(ts: Seq<TokenModel>, level: Level, i: int) -> Parsed
    decreases ts.len() - i, rank(level) - 1,
{
    if level == Level::Factor {
        unary(ts, i)
    } else {
        binary(ts, next_level(level), i)
    }
}

/// After `left`, at `j`: while an operator of the level follows, take it and
/// the next operand and fold them into `left`.
pub open spec fn binary_rest(ts: Seq<TokenModel>, level: Level, left: ExprModel, j: int) -> Parsed
    decreases ts.len() - j, rank(level) - 1,
{
    if matches_at(ts, j, level_ops(level)) {
        match operand(ts, level, j + 1) {
            Ok((right, k)) => {
                let folded = ExprModel::Binary {
                    left: Box::new(left),
                    operator: ts[j],
                    right: Box::new(right),
                };
                if j < k <= ts.len() {
                    binary_rest(ts, level, folded, k)
                } else {
                    Ok((folded, k))
                }
            },
            Err(e) => Err(e),
        }
    } else {
        Ok((left, j))
    }
}

/// `unary → ( "!" | "-" ) unary | primary`
pub open spec fn unary(ts: Seq<TokenModel>, i: int) -> Parsed
    decreases ts.len() - i, 1int,
{
    if matches_at(ts, i, unary_ops()) {
        match unary(ts, i + 1) {
            Ok((right, j)) => Ok((ExprModel::Unary { operator: ts[i], right: Box::new(right) }, j)),
            Err(e) => Err(e),
        }
    } else {
        primary(ts, i)
    }
}

/// `primary → "false" | "true" | "nil" | NUMBER | STRING | "(" expression ")"`
pub open spec fn primary(ts: Seq<TokenModel>, i: int) -> Parsed
    decreases ts.len() - i, 0int,
{
    if matches_at(ts, i, seq![TokenKind::False]) {
        Ok((ExprModel::Literal { value: ObjectModel::False }, i + 1))
    } else if matches_at(ts, i, seq![TokenKind::True]) {
        Ok((ExprModel::Literal { value: ObjectModel::True }, i + 1))
    } else if matches_at(ts, i, seq![TokenKind::Nil]) {
        Ok((ExprModel::Literal { value: ObjectModel::Nil }, i + 1))
    } else if matches_at(ts, i, seq![TokenKind::Number, TokenKind::String]) && ts[i].literal is Some {
        Ok((ExprModel::Literal { value: ts[i].literal->Some_0 }, i + 1))
    } else if matches_at(ts, i, seq![TokenKind::LeftParen]) {
        match expression(ts, i + 1) {
            Ok((inner, j)) => if matches_at(ts, j, seq![TokenKind::RightParen]) {
                Ok((ExprModel::Grouping { expression: Box::new(inner) }, j + 1))
            } else {
                error_at(ts, j, ParseErrorKind::ExpectedRightParen)
            },
            Err(e) => Err(e),
        }
    } else {
        error_at(ts, i, ParseErrorKind::ExpectedExpression)
    }
}

/// The sequence ends with an end-of-input token.
pub open spec fn is_terminated(ts: Seq<TokenModel>) -> bool {
    ts.len() > 0 && ts.last().kind == TokenKind::Eof
}

/// `ts`, with an end-of-input token added when it lacks one (on the line of
/// its last token, or line 1 when it is empty).
pub open spec fn terminated(ts: Seq<TokenModel>) -> Seq<TokenModel> {
    if is_terminated(ts) {
        ts
    } else {
        ts.push(eof_model(if ts.len() > 0 { ts.last().line } else { 1 }))
    }
}

/// The expression at the start of a token sequence.
pub open spec fn parse_tokens(ts: Seq<TokenModel>) -> Result<ExprModel, ParseErrorModel> {
    match expression(terminated(ts), 0) {
        Ok((e, _)) => Ok(e),
        Err(e) => Err(e),
    }
}

} // verus!
