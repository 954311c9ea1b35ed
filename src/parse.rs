//! The recursive-descent parser: one method per grammar level, consuming the
//! token sequence through a cursor that only moves forward.
use vstd::prelude::*;
use crate::error::{ParseError, ParseErrorKind};
use crate::expr::Expr;
use crate::grammar::{
    binary, binary_rest, expression, is_terminated, level_ops, matches_at, next_level, operand,
    primary, rank, terminated, unary, unary_ops, Level, Parsed,
};
use crate::literal::Object;
use crate::token::{token_models, Token, TokenKind};

verus! {

/// An executable parse outcome `r`, with the cursor at `end` after it, is
/// the outcome `p` of the grammar.
pub open spec fn agrees(r: Result<Expr, ParseError>, end: int, p: Parsed) -> bool {
    match p {
        Ok((e, j)) => r is Ok && r->Ok_0@ == e && end == j,
        Err(err) => r is Err && r->Err_0@ == err,
    }
}

fn level_kinds(level: Level) -> (r: Vec<TokenKind>)
    ensures
        r@ == level_ops(level),
{
    match level {
        Level::Equality => vec![TokenKind::BangEqual, TokenKind::EqualEqual],
        Level::Comparison => vec![
            TokenKind::Greater,
            TokenKind::GreaterEqual,
            TokenKind::Less,
            TokenKind::LessEqual,
        ],
        Level::Term => vec![TokenKind::Minus, TokenKind::Plus],
        Level::Factor => vec![TokenKind::Slash, TokenKind::Star],
    }
}

fn one_kind(kind: TokenKind) -> (r: Vec<TokenKind>)
    ensures
        r@ == seq![kind],
{
    let mut r = Vec::new();
    r.push(kind);
    assert(r@ =~= seq![kind]);
    r
}

fn unary_kinds() -> (r: Vec<TokenKind>)
    ensures
        r@ == unary_ops(),
{
    vec![TokenKind::Bang, TokenKind::Minus]
}

fn next_level_of(level: Level) -> (r: Level)
    ensures
        r == next_level(level),
{
    match level {
        Level::Equality => Level::Comparison,
        Level::Comparison => Level::Term,
        _ => Level::Factor,
    }
}

/// Builds one expression from a token sequence.
pub struct Parser {
    tokens: Vec<Token>,
    current: usize,
}

impl Parser {
    /// The tokens being parsed, ended by an end-of-input token.
    pub closed spec fn token_seq(&self) -> Seq<crate::token::TokenModel> {
        token_models(self.tokens@)
    }

    /// Position of the next token to read.
    pub closed spec fn cursor(&self) -> int {
        self.current as int
    }

    /// The tokens end with an end-of-input token, and the cursor is on a
    /// token.
    pub closed spec fn wf(&self) -> bool {
        &&& is_terminated(token_models(self.tokens@))
        &&& self.current < self.tokens@.len()
    }

    /// A parser at the start of `tokens`. An end-of-input token is added when
    /// the sequence lacks one.
    pub fn new(tokens: Vec<Token>) -> (r: Parser)
        ensures
            r.wf(),
            r.token_seq() == terminated(token_models(tokens@)),
            r.cursor() == 0,
    {
        let mut tokens = tokens;
        let n = tokens.len();
        if n == 0 || tokens[n - 1].kind != TokenKind::Eof {
            let line = if n > 0 { tokens[n - 1].line } else { 1 };
            let ghost before = tokens@;
            tokens.push(Token::eof(line));
            assert(token_models(tokens@) =~= token_models(before).push(tokens@[n as int]@));
        }
        Parser { tokens, current: 0 }
    }

    /// Parses one expression from the cursor on.
    pub fn parse(&mut self) -> (r: Result<Expr, ParseError>)
        requires
            old(self).wf(),
        ensures
            final(self).wf(),
            final(self).token_seq() == old(self).token_seq(),
            agrees(r, final(self).cursor(), expression(old(self).token_seq(), old(self).cursor())),
    {
        self.expression()
    }

    fn peek(&self) -> (r: &Token)
        requires
            self.wf(),
        ensures
            *r == self.tokens@[self.current as int],
    {
        &self.tokens[self.current]
    }

    fn previous(&self) -> (r: &Token)
        requires
            0 < self.current <= self.tokens@.len(),
        ensures
            *r == self.tokens@[self.current - 1],
    {
        &self.tokens[self.current - 1]
    }

    fn is_at_end(&self) -> (r: bool)
        requires
            self.wf(),
        ensures
            r == (self.tokens@[self.current as int].kind == TokenKind::Eof),
    {
        self.peek().kind == TokenKind::Eof
    }

    fn check(&self, kind: TokenKind) -> (r: bool)
        requires
            self.wf(),
        ensures
            r == (self.tokens@[self.current as int].kind != TokenKind::Eof
                && self.tokens@[self.current as int].kind == kind),
    {
        if self.is_at_end() {
            return false;
        }
        self.peek().kind == kind
    }

    /// Moves past the current token, unless it is the end of input.
    fn advance(&mut self)
        requires
            old(self).wf(),
        ensures
            final(self).wf(),
            final(self).tokens == old(self).tokens,
            final(self).current == old(self).current + if old(self).tokens@[old(
                self,
            ).current as int].kind == TokenKind::Eof {
                0int
            } else {
                1int
            },
    {
        let n = self.tokens.len();
        if !self.is_at_end() {
            proof {
                let ts = token_models(self.tokens@);
                assert(ts[self.current as int].kind == self.tokens@[self.current as int].kind);
                assert(ts.last().kind == self.tokens@.last().kind);
            }
            self.current = self.current + 1;
        }
    }

    /// Consumes the current token when its kind is one of `types`.
    fn match_token_type(&mut self, types: Vec<TokenKind>) -> (r: bool)
        requires
            old(self).wf(),
        ensures
            final(self).wf(),
            final(self).tokens == old(self).tokens,
            r == matches_at(token_models(old(self).tokens@), old(self).current as int, types@),
            final(self).current == old(self).current + if r { 1int } else { 0int },
    {
        let ghost ts = token_models(self.tokens@);
        let mut idx: usize = 0;
        while idx < types.len()
            invariant
                self.wf(),
                self.tokens == old(self).tokens,
                self.current == old(self).current,
                ts == token_models(self.tokens@),
                idx <= types@.len(),
                ts[self.current as int].kind != TokenKind::Eof ==> forall|m: int|
                    0 <= m < idx ==> types@[m] != ts[self.current as int].kind,
            decreases types@.len() - idx,
        {
            if self.check(types[idx]) {
                self.advance();
                assert(types@[idx as int] == ts[old(self).current as int].kind);
                return true;
            }
            idx = idx + 1;
        }
        false
    }

    /// `expression → equality`
    fn expression(&mut self) -> (r: Result<Expr, ParseError>)
        requires
            old(self).wf(),
        ensures
            final(self).wf(),
            final(self).tokens == old(self).tokens,
            agrees(
                r,
                final(self).current as int,
                expression(token_models(old(self).tokens@), old(self).current as int),
            ),
            r is Ok ==> final(self).current > old(self).current,
        decreases old(self).tokens@.len() - old(self).current, 10int,
    {
        self.binary(Level::Equality)
    }

    /// One binary level: an operand, then operator and operand pairs folded
    /// to the left.
    fn binary(&mut self, level: Level) -> (r: Result<Expr, ParseError>)
        requires
            old(self).wf(),
        ensures
            final(self).wf(),
            final(self).tokens == old(self).tokens,
            agrees(
                r,
                final(self).current as int,
                binary(token_models(old(self).tokens@), level, old(self).current as int),
            ),
            r is Ok ==> final(self).current > old(self).current,
        decreases old(self).tokens@.len() - old(self).current, rank(level),
    {
        let ghost ts = token_models(self.tokens@);
        let ghost i = self.current as int;
        let mut expr = self.operand(level)?;
        let ghost j0 = self.current as int;
        let ghost left0 = expr@;
        while self.match_token_type(level_kinds(level))
            invariant
                self.wf(),
                self.tokens == old(self).tokens,
                ts == token_models(self.tokens@),
                i == old(self).current,
                i < j0 <= self.current,
                binary(ts, level, i) == binary_rest(ts, level, left0, j0),
                binary_rest(ts, level, expr@, self.current as int) == binary_rest(ts, level, left0, j0),
            decreases self.tokens@.len() - self.current,
        {
            let ghost j = self.current - 1;
            let operator = self.previous().duplicate();
            let ghost left = expr@;
            let right = self.operand(level)?;
            expr = Expr::Binary { left: Box::new(expr), operator, right: Box::new(right) };
            assert(self.tokens@[j]@ == ts[j]);
        }
        Ok(expr)
    }

    /// The operands of a binary level.
    fn operand(&mut self, level: Level) -> (r: Result<Expr, ParseError>)
        requires
            old(self).wf(),
        ensures
            final(self).wf(),
            final(self).tokens == old(self).tokens,
            agrees(
                r,
                final(self).current as int,
                operand(token_models(old(self).tokens@), level, old(self).current as int),
            ),
            r is Ok ==> final(self).current > old(self).current,
        decreases old(self).tokens@.len() - old(self).current, rank(level) - 1,
    {
        if level == Level::Factor {
            self.unary()
        } else {
            self.binary(next_level_of(level))
        }
    }

    /// `unary → ( "!" | "-" ) unary | primary`
    fn unary(&mut self) -> (r: Result<Expr, ParseError>)
        requires
            old(self).wf(),
        ensures
            final(self).wf(),
            final(self).tokens == old(self).tokens,
            agrees(
                r,
                final(self).current as int,
                unary(token_models(old(self).tokens@), old(self).current as int),
            ),
            r is Ok ==> final(self).current > old(self).current,
        decreases old(self).tokens@.len() - old(self).current, 1int,
    {
        if self.match_token_type(unary_kinds()) {
            let operator = self.previous().duplicate();
            let right = self.unary()?;
            return Ok(Expr::Unary { operator, right: Box::new(right) });
        }
        self.primary()
    }

    /// `primary → "false" | "true" | "nil" | NUMBER | STRING | "(" expression ")"`
    fn primary(&mut self) -> (r: Result<Expr, ParseError>)
        requires
            old(self).wf(),
        ensures
            final(self).wf(),
            final(self).tokens == old(self).tokens,
            agrees(
                r,
                final(self).current as int,
                primary(token_models(old(self).tokens@), old(self).current as int),
            ),
            r is Ok ==> final(self).current > old(self).current,
        decreases old(self).tokens@.len() - old(self).current, 0int,
    {
        let ghost ts = token_models(self.tokens@);
        let i = self.current;
        assert(ts[i as int] == self.tokens@[i as int]@);
        if self.match_token_type(one_kind(TokenKind::False)) {
            return Ok(Expr::Literal { value: Object::False });
        }
        if self.match_token_type(one_kind(TokenKind::True)) {
            return Ok(Expr::Literal { value: Object::True });
        }
        if self.match_token_type(one_kind(TokenKind::Nil)) {
            return Ok(Expr::Literal { value: Object::Nil });
        }
        let mut literal_kinds = one_kind(TokenKind::Number);
        literal_kinds.push(TokenKind::String);
        assert(literal_kinds@ =~= seq![TokenKind::Number, TokenKind::String]);
        if self.match_token_type(literal_kinds) {
            match &self.tokens[i].literal {
                Some(value) => {
                    return Ok(Expr::Literal { value: value.duplicate() });
                },
                None => {
                    let token = self.tokens[i].duplicate();
                    return Err(ParseError { kind: ParseErrorKind::ExpectedExpression, token });
                },
            }
        }
        if self.match_token_type(one_kind(TokenKind::LeftParen)) {
            let inner = self.expression()?;
            if self.check(TokenKind::RightParen) {
                proof {
                    let j = self.current as int;
                    assert(ts[j] == self.tokens@[j]@);
                    assert(seq![TokenKind::RightParen][0] == ts[j].kind);
                }
                self.advance();
                return Ok(Expr::Grouping { expression: Box::new(inner) });
            }
            let token = self.peek().duplicate();
            proof {
                assert(ts[self.current as int] == self.tokens@[self.current as int]@);
            }
            return Err(ParseError { kind: ParseErrorKind::ExpectedRightParen, token });
        }
        let token = self.peek().duplicate();
        Err(ParseError { kind: ParseErrorKind::ExpectedExpression, token })
    }
}

} // verus!
