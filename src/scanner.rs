//! The scanner: a single left-to-right pass over the source characters that
//! emits tokens, counting lines as it goes.
use vstd::prelude::*;
use crate::error::{LexError, LexErrorKind, LexErrorModel};
use crate::literal::{is_digit_char, number_end_at, Number, Object};
use crate::scan_spec::{
    comment_close, keyword_kind, lex_step, line_end, next_is, quote_index,
    scan_from, word_end, Lexeme,
};
use crate::text::{chars_of, is_alpha, is_alpha_numeric, is_digit, newlines, string_of_range};
use crate::token::{literal_model, token_models, Token, TokenKind, TokenModel};

verus! {

/// Line breaks grow by one for each `\n` added at the end.
pub proof fn lemma_newlines_extend(s: Seq<char>, a: int, b: int)
    requires
        0 <= a <= b < s.len(),
    ensures
        newlines(s.subrange(a, b + 1)) == newlines(s.subrange(a, b)) + if s[b] == '\n' {
            1nat
        } else {
            0nat
        },
{
    assert(s.subrange(a, b + 1).drop_last() =~= s.subrange(a, b));
}

/// Appends the outcome of the rest of a scan to the tokens already emitted.
pub open spec fn after(
    emitted: Seq<TokenModel>,
    rest: Result<Seq<TokenModel>, LexErrorModel>,
) -> Result<Seq<TokenModel>, LexErrorModel> {
    match rest {
        Ok(ts) => Ok(emitted + ts),
        Err(e) => Err(e),
    }
}

fn is_alpha_char(c: char) -> (r: bool)
    ensures
        r == is_alpha(c),
{
    (c >= 'a' && c <= 'z') || (c >= 'A' && c <= 'Z') || c == '_'
}

fn is_alpha_numeric_char(c: char) -> (r: bool)
    ensures
        r == is_alpha_numeric(c),
{
    is_digit_char(c) || is_alpha_char(c)
}

/// `src[start..end]` spells `word`.
fn matches_word(src: &Vec<char>, start: usize, end: usize, word: &str) -> (r: bool)
    requires
        start <= end <= src@.len(),
    ensures
        r == (src@.subrange(start as int, end as int) == word@),
{
    let n = word.unicode_len();
    if end - start != n {
        return false;
    }
    let mut j: usize = 0;
    while j < n
        invariant
            n == word@.len(),
            end - start == n,
            start <= end <= src@.len(),
            j <= n,
            forall|m: int| 0 <= m < j ==> src@[start + m] == word@[m],
        decreases n - j,
    {
        if src[start + j] != word.get_char(j) {
            assert(src@.subrange(start as int, end as int)[j as int] != word@[j as int]);
            return false;
        }
        j = j + 1;
    }
    assert(src@.subrange(start as int, end as int) =~= word@);
    true
}

/// The kind of the word `src[start..end]`.
fn keyword_kind_at(src: &Vec<char>, start: usize, end: usize) -> (r: TokenKind)
    requires
        start <= end <= src@.len(),
    ensures
        r == keyword_kind(src@.subrange(start as int, end as int)),
{
    if matches_word(src, start, end, "and") {
        TokenKind::And
    } else if matches_word(src, start, end, "class") {
        TokenKind::Class
    } else if matches_word(src, start, end, "else") {
        TokenKind::Else
    } else if matches_word(src, start, end, "false") {
        TokenKind::False
    } else if matches_word(src, start, end, "for") {
        TokenKind::For
    } else if matches_word(src, start, end, "fun") {
        TokenKind::Fun
    } else if matches_word(src, start, end, "if") {
        TokenKind::If
    } else if matches_word(src, start, end, "nil") {
        TokenKind::Nil
    } else if matches_word(src, start, end, "or") {
        TokenKind::Or
    } else if matches_word(src, start, end, "print") {
        TokenKind::Print
    } else if matches_word(src, start, end, "return") {
        TokenKind::Return
    } else if matches_word(src, start, end, "super") {
        TokenKind::Super
    } else if matches_word(src, start, end, "this") {
        TokenKind::This
    } else if matches_word(src, start, end, "true") {
        TokenKind::True
    } else if matches_word(src, start, end, "var") {
        TokenKind::Var
    } else if matches_word(src, start, end, "while") {
        TokenKind::While
    } else {
        TokenKind::Identifier
    }
}

/// Turns source text into tokens.
pub struct Scanner {
    source: Vec<char>,
    tokens: Vec<Token>,
    start: usize,
    current: usize,
    line: usize,
}

impl Scanner {
    /// The source characters.
    pub closed spec fn source_chars(&self) -> Seq<char> {
        self.source@
    }

    /// Where scanning goes on.
    pub closed spec fn cursor(&self) -> int {
        self.current as int
    }

    /// The line scanning is on.
    pub closed spec fn line_number(&self) -> nat {
        self.line as nat
    }

    /// The tokens emitted so far.
    pub closed spec fn scanned(&self) -> Seq<TokenModel> {
        token_models(self.tokens@)
    }

    /// The cursor is within the source, and the line count is at most one
    /// more than the characters consumed.
    pub closed spec fn wf(&self) -> bool {
        &&& self.current <= self.source@.len()
        &&& 1 <= self.line <= self.current + 1
    }

    /// A scanner at the start of `source`, on line 1, with nothing emitted.
    pub fn new(source: String) -> (r: Scanner)
        ensures
            r.wf(),
            r.source_chars() == source@,
            r.cursor() == 0,
            r.line_number() == 1,
            r.scanned() == Seq::<TokenModel>::empty(),
    {
        let r = Scanner {
            source: chars_of(source.as_str()),
            tokens: Vec::new(),
            start: 0,
            current: 0,
            line: 1,
        };
        assert(token_models(r.tokens@) =~= Seq::<TokenModel>::empty());
        r
    }

    fn is_at_end(&self) -> (r: bool)
        ensures
            r == (self.current >= self.source@.len()),
    {
        self.current >= self.source.len()
    }

    fn advance(&mut self) -> (c: char)
        requires
            old(self).current < old(self).source@.len(),
        ensures
            c == old(self).source@[old(self).current as int],
            final(self).current == old(self).current + 1,
            final(self).source == old(self).source,
            final(self).tokens == old(self).tokens,
            final(self).start == old(self).start,
            final(self).line == old(self).line,
    {
        let n = self.source.len();
        assert(self.current < n);
        let c = self.source[self.current];
        self.current = self.current + 1;
        c
    }

    /// Consumes the next character when it is `expected`.
    fn is_match(&mut self, expected: char) -> (r: bool)
        requires
            old(self).current <= old(self).source@.len(),
        ensures
            r == next_is(old(self).source@, old(self).current as int, expected),
            final(self).current == old(self).current + if r { 1int } else { 0int },
            final(self).source == old(self).source,
            final(self).tokens == old(self).tokens,
            final(self).start == old(self).start,
            final(self).line == old(self).line,
    {
        if self.is_at_end() {
            return false;
        }
        let n = self.source.len();
        if self.source[self.current] == expected {
            assert(self.current < n);
            self.current = self.current + 1;
            true
        } else {
            false
        }
    }

    /// Emits a token made of `source[start..current]`.
    fn add_token(&mut self, kind: TokenKind, literal: Option<Object>)
        requires
            old(self).start <= old(self).current <= old(self).source@.len(),
        ensures
            final(self).current == old(self).current,
            final(self).source == old(self).source,
            final(self).start == old(self).start,
            final(self).line == old(self).line,
            token_models(final(self).tokens@) == token_models(old(self).tokens@).push(
                TokenModel {
                    kind,
                    lexeme: old(self).source@.subrange(
                        old(self).start as int,
                        old(self).current as int,
                    ),
                    literal: literal_model(literal),
                    line: old(self).line as nat,
                },
            ),
    {
        let lexeme = string_of_range(&self.source, self.start, self.current);
        let token = Token::new(kind, lexeme, literal, self.line);
        self.tokens.push(token);
        assert(token_models(self.tokens@) =~= token_models(old(self).tokens@).push(token@));
    }

    /// After a step that started at `old.start`, this scanner holds what
    /// the lexeme there calls for.
    closed spec fn stepped(&self, old: Scanner, r: Result<(), LexError>) -> bool {
        &&& self.source == old.source
        &&& match lex_step(old.source@, old.start as int, old.line as nat) {
            Lexeme::Skip { next, line } => {
                &&& r is Ok
                &&& self.current == next
                &&& self.line == line
                &&& self.tokens@ == old.tokens@
            },
            Lexeme::Emit { token, next } => {
                &&& r is Ok
                &&& self.current == next
                &&& self.line == token.line
                &&& token_models(self.tokens@) == token_models(old.tokens@).push(token)
            },
            Lexeme::Fail { error } => r is Err && r->Err_0@ == error,
        }
    }

    /// Inside a block comment, just after its opening `/*`.
    fn scan_comment(&mut self) -> (r: Result<(), LexError>)
        requires
            old(self).wf(),
            old(self).source@.len() < usize::MAX,
        ensures
            final(self).source == old(self).source,
            final(self).tokens == old(self).tokens,
            final(self).start == old(self).start,
            match comment_close(old(self).source@, old(self).current as int, 1) {
                Some(end) => {
                    &&& r is Ok
                    &&& final(self).current == end
                    &&& final(self).line == old(self).line + newlines(
                        old(self).source@.subrange(old(self).current as int, end),
                    )
                    &&& final(self).wf()
                },
                None => r is Err && r->Err_0@ == LexErrorModel {
                    kind: LexErrorKind::UnterminatedComment,
                    line: old(self).line as nat + newlines(
                        old(self).source@.subrange(
                            old(self).current as int,
                            old(self).source@.len() as int,
                        ),
                    ),
                },
            },
    {
        let ghost src = self.source@;
        let ghost begin = self.current as int;
        let mut depth: usize = 1;
        assert(src.subrange(begin, begin) =~= Seq::<char>::empty());
        loop
            invariant
                self.source == old(self).source,
                self.tokens == old(self).tokens,
                self.start == old(self).start,
                src == self.source@,
                src.len() < usize::MAX,
                begin == old(self).current,
                begin <= self.current <= src.len(),
                1 <= depth <= self.current - begin + 1,
                comment_close(src, self.current as int, depth as nat) == comment_close(src, begin, 1),
                self.line == old(self).line + newlines(src.subrange(begin, self.current as int)),
                1 <= self.line <= self.current + 1,
            decreases src.len() - self.current,
        {
            let n = self.source.len();
            if self.current >= n {
                return Err(LexError { kind: LexErrorKind::UnterminatedComment, line: self.line });
            }
            let c = self.source[self.current];
            let i = self.current;
            let pair = i + 1 < n;
            if c == '*' && pair && self.source[i + 1] == '/' {
                proof {
                    lemma_newlines_extend(src, begin, i as int);
                    lemma_newlines_extend(src, begin, i + 1);
                }
                self.current = i + 2;
                if depth == 1 {
                    return Ok(());
                }
                depth = depth - 1;
            } else if c == '/' && pair && self.source[i + 1] == '*' {
                proof {
                    lemma_newlines_extend(src, begin, i as int);
                    lemma_newlines_extend(src, begin, i + 1);
                }
                self.current = i + 2;
                depth = depth + 1;
            } else {
                proof {
                    lemma_newlines_extend(src, begin, i as int);
                }
                self.current = i + 1;
                if c == '\n' {
                    self.line = self.line + 1;
                }
            }
        }
    }

    /// A string literal, just after its opening quote.
    fn string(&mut self) -> (r: Result<(), LexError>)
        requires
            old(self).wf(),
            old(self).source@.len() < usize::MAX,
            old(self).start < old(self).source@.len(),
            old(self).source@[old(self).start as int] == '"',
            old(self).current == old(self).start + 1,
        ensures
            final(self).stepped(*old(self), r),
            r is Ok ==> final(self).wf(),
    {
        let ghost src = self.source@;
        let ghost begin = self.current as int;
        assert(src.subrange(begin, begin) =~= Seq::<char>::empty());
        while self.current < self.source.len() && self.source[self.current] != '"'
            invariant
                self.source == old(self).source,
                self.tokens == old(self).tokens,
                self.start == old(self).start,
                src == self.source@,
                src.len() < usize::MAX,
                begin == old(self).current,
                begin <= self.current <= src.len(),
                quote_index(src, self.current as int) == quote_index(src, begin),
                self.line == old(self).line + newlines(src.subrange(begin, self.current as int)),
                1 <= self.line <= self.current + 1,
            decreases src.len() - self.current,
        {
            proof {
                lemma_newlines_extend(src, begin, self.current as int);
            }
            if self.source[self.current] == '\n' {
                self.line = self.line + 1;
            }
            self.current = self.current + 1;
        }
        if self.is_at_end() {
            return Err(LexError { kind: LexErrorKind::UnterminatedString, line: self.line });
        }
        let close = self.current;
        self.advance();
        let value = string_of_range(&self.source, self.start + 1, close);
        self.add_token(TokenKind::String, Some(Object::String(value)));
        Ok(())
    }

    /// A number literal, just after its first digit.
    fn number(&mut self)
        requires
            old(self).wf(),
            old(self).start < old(self).source@.len(),
            is_digit(old(self).source@[old(self).start as int]),
            old(self).current == old(self).start + 1,
        ensures
            final(self).stepped(*old(self), Ok(())),
            final(self).wf(),
    {
        let end = number_end_at(&self.source, self.start);
        proof {
            crate::literal::lemma_digit_end_bounds(self.source@, self.start as int);
            let k = crate::literal::digit_end(self.source@, self.start as int);
            if k + 1 < self.source@.len() {
                crate::literal::lemma_digit_end_bounds(self.source@, k + 1);
            }
        }
        self.current = end;
        let value = Number::from_lexeme(&self.source, self.start, end);
        self.add_token(TokenKind::Number, Some(Object::Num(value)));
    }

    /// An identifier or a reserved word, just after its first character.
    fn identifier(&mut self)
        requires
            old(self).wf(),
            old(self).start < old(self).source@.len(),
            is_alpha(old(self).source@[old(self).start as int]),
            old(self).current == old(self).start + 1,
        ensures
            final(self).stepped(*old(self), Ok(())),
            final(self).wf(),
    {
        let ghost src = self.source@;
        proof {
            crate::scan_spec::lemma_word_end_bounds(src, self.current as int);
        }
        while self.current < self.source.len() && is_alpha_numeric_char(self.source[self.current])
            invariant
                self.source == old(self).source,
                self.tokens == old(self).tokens,
                self.start == old(self).start,
                self.line == old(self).line,
                src == self.source@,
                old(self).current <= self.current <= src.len(),
                word_end(src, self.current as int) == word_end(src, self.start + 1),
            decreases src.len() - self.current,
        {
            self.current = self.current + 1;
        }
        assert(word_end(src, self.start as int) == word_end(src, self.start + 1));
        let kind = keyword_kind_at(&self.source, self.start, self.current);
        self.add_token(kind, None);
    }

    /// One lexeme, starting at the cursor.
    fn scan_token(&mut self) -> (r: Result<(), LexError>)
        requires
            old(self).wf(),
            old(self).source@.len() < usize::MAX,
            old(self).start == old(self).current,
            old(self).current < old(self).source@.len(),
        ensures
            final(self).stepped(*old(self), r),
            r is Ok ==> final(self).wf(),
    {
        let c = self.advance();
        match c {
            '(' => self.add_token(TokenKind::LeftParen, None),
            ')' => self.add_token(TokenKind::RightParen, None),
            '{' => self.add_token(TokenKind::LeftBrace, None),
            '}' => self.add_token(TokenKind::RightBrace, None),
            ',' => self.add_token(TokenKind::Comma, None),
            '.' => self.add_token(TokenKind::Dot, None),
            '-' => self.add_token(TokenKind::Minus, None),
            '+' => self.add_token(TokenKind::Plus, None),
            ';' => self.add_token(TokenKind::Semicolon, None),
            '*' => self.add_token(TokenKind::Star, None),
            '!' => {
                let kind = if self.is_match('=') { TokenKind::BangEqual } else { TokenKind::Bang };
                self.add_token(kind, None);
            },
            '=' => {
                let kind = if self.is_match('=') { TokenKind::EqualEqual } else { TokenKind::Equal };
                self.add_token(kind, None);
            },
            '<' => {
                let kind = if self.is_match('=') { TokenKind::LessEqual } else { TokenKind::Less };
                self.add_token(kind, None);
            },
            '>' => {
                let kind = if self.is_match('=') {
                    TokenKind::GreaterEqual
                } else {
                    TokenKind::Greater
                };
                self.add_token(kind, None);
            },
            '/' => {
                if self.is_match('/') {
                    // A line comment runs to the end of the line.
                    proof {
                        crate::scan_spec::lemma_line_end_bounds(self.source@, self.current as int);
                    }
                    while self.current < self.source.len() && self.source[self.current] != '\n'
                        invariant
                            self.source == old(self).source,
                            self.tokens == old(self).tokens,
                            self.line == old(self).line,
                            old(self).current < self.current <= self.source@.len(),
                            line_end(self.source@, self.current as int) == line_end(
                                self.source@,
                                old(self).current + 1,
                            ),
                        decreases self.source@.len() - self.current,
                    {
                        self.current = self.current + 1;
                    }
                } else if self.is_match('*') {
                    return self.scan_comment();
                } else {
                    self.add_token(TokenKind::Slash, None);
                }
            },
            ' ' | '\r' | '\t' => {},
            '\n' => {
                self.line = self.line + 1;
            },
            '"' => {
                return self.string();
            },
            _ => {
                if is_digit_char(c) {
                    self.number();
                } else if is_alpha_char(c) {
                    self.identifier();
                } else {
                    return Err(LexError { kind: LexErrorKind::UnexpectedCharacter(c), line: self.line });
                }
            },
        }
        Ok(())
    }

    /// Scans the rest of the source and appends the end-of-input token; or
    /// stops at the first error.
    pub fn scan_tokens(&mut self) -> (r: Result<&Vec<Token>, LexError>)
        requires
            old(self).wf(),
            old(self).source_chars().len() < usize::MAX,
        ensures
            r matches Ok(ts) ==> token_models(ts@) == final(self).scanned(),
            match r {
                Ok(ts) => Ok(token_models(ts@)),
                Err(e) => Err(e@),
            } == after(
                old(self).scanned(),
                scan_from(old(self).source_chars(), old(self).cursor(), old(self).line_number()),
            ),
    {
        let ghost src = self.source@;
        while !self.is_at_end()
            invariant
                self.wf(),
                self.source@ == src,
                old(self).source@ == src,
                src.len() < usize::MAX,
                after(self.scanned(), scan_from(src, self.current as int, self.line as nat))
                    == after(
                    old(self).scanned(),
                    scan_from(src, old(self).current as int, old(self).line as nat),
                ),
            decreases src.len() - self.current,
        {
            self.start = self.current;
            let ghost before = *self;
            let r = self.scan_token();
            proof {
                let i = before.current as int;
                crate::scan_spec::lemma_lex_step_advances(src, i, before.line as nat);
                let step = lex_step(src, i, before.line as nat);
                if let Lexeme::Emit { token, next } = step {
                    if let Ok(ts) = scan_from(src, next, token.line) {
                        assert(token_models(before.tokens@).push(token) + ts =~= token_models(
                            before.tokens@,
                        ) + (seq![token] + ts));
                    }
                }
            }
            match r {
                Err(e) => {
                    return Err(e);
                },
                Ok(()) => {},
            }
        }
        let eof = Token::eof(self.line);
        let ghost emitted = self.tokens@;
        self.tokens.push(eof);
        proof {
            assert(token_models(self.tokens@) =~= token_models(emitted) + seq![eof@]);
        }
        Ok(&self.tokens)
    }

    /// The tokens emitted so far.
    pub fn into_tokens(self) -> (r: Vec<Token>)
        ensures
            token_models(r@) == self.scanned(),
    {
        self.tokens
    }
}

} // verus!
