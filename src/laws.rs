//! Properties that relate the scanner, the parser and the printer.
use vstd::prelude::*;
use crate::error::{LexErrorKind, LexErrorModel};
use crate::expr::ExprModel;
use crate::grammar::{
    binary, binary_rest, expression, level_ops, matches_at, next_level, operand, parse_tokens,
    primary, rank, terminated, unary, unary_ops, Level,
};
use crate::printer::printed;
use crate::literal::{
    all_digits, digit_end, display, is_canonical_number, is_number_text, lemma_canonical_decimal,
    lemma_digit_end_bounds, number_value, ObjectModel,
};
use crate::scan_spec::{
    comment_close, keyword_kind, lemma_lex_step_advances, lex_step, next_is, quote_index, scan,
    scan_from, word_end, Lexeme,
};
use crate::text::{is_alpha_numeric, is_digit, newlines};
use crate::token::{eof_model, TokenKind, TokenModel};

verus! {

/// Line breaks of a concatenation add up.
pub proof fn lemma_newlines_append(a: Seq<char>, b: Seq<char>)
    ensures
        newlines(a + b) == newlines(a) + newlines(b),
    decreases b.len(),
{
    if b.len() == 0 {
        assert(a + b =~= a);
    } else {
        assert((a + b).drop_last() =~= a + b.drop_last());
        lemma_newlines_append(a, b.drop_last());
    }
}

/// Text without `\n` has no line break.
pub proof fn lemma_no_newlines(s: Seq<char>)
    requires
        forall|i: int| 0 <= i < s.len() ==> s[i] != '\n',
    ensures
        newlines(s) == 0,
    decreases s.len(),
{
    if s.len() > 0 {
        lemma_no_newlines(s.drop_last());
    }
}

proof fn lemma_quote_index_exact(s: Seq<char>, i: int, q: int)
    requires
        0 <= i <= q < s.len(),
        s[q] == '"',
        forall|m: int| i <= m < q ==> s[m] != '"',
    ensures
        quote_index(s, i) == q,
    decreases q - i,
{
    if i < q {
        lemma_quote_index_exact(s, i + 1, q);
    }
}

proof fn lemma_word_end_exact(s: Seq<char>, i: int, j: int)
    requires
        0 <= i <= j <= s.len(),
        forall|m: int| i <= m < j ==> is_alpha_numeric(#[trigger] s[m]),
        j == s.len() || !is_alpha_numeric(s[j]),
    ensures
        word_end(s, i) == j,
    decreases j - i,
{
    if i < j {
        lemma_word_end_exact(s, i + 1, j);
    }
}

/// A number literal written alone scans to one number token, whose value is
/// canonical.
pub proof fn lemma_scan_number(s: Seq<char>)
    requires
        is_number_text(s),
    ensures
        scan(s) == Ok::<Seq<TokenModel>, LexErrorModel>(
            seq![
                TokenModel {
                    kind: TokenKind::Number,
                    lexeme: s,
                    literal: Some(ObjectModel::Num(number_value(s, 0, s.len() as int))),
                    line: 1,
                },
                eof_model(1),
            ],
        ),
        is_canonical_number(number_value(s, 0, s.len() as int)),
{
    let n = s.len() as int;
    assert(s.subrange(0, n) =~= s);
    assert(scan_from(s, n, 1) == Ok::<Seq<TokenModel>, LexErrorModel>(seq![eof_model(1)]));
    assert(seq![
        TokenModel {
            kind: TokenKind::Number,
            lexeme: s,
            literal: Some(ObjectModel::Num(number_value(s, 0, n))),
            line: 1,
        },
    ] + seq![eof_model(1)] =~= seq![
        TokenModel {
            kind: TokenKind::Number,
            lexeme: s,
            literal: Some(ObjectModel::Num(number_value(s, 0, n))),
            line: 1,
        },
        eof_model(1),
    ]);
    // the digits on both sides of the point
    lemma_digit_end_bounds(s, 0);
    let k = digit_end(s, 0);
    let whole = s.subrange(0, k);
    assert(all_digits(whole)) by {
        assert forall|i: int| 0 <= i < whole.len() implies is_digit(#[trigger] whole[i]) by {
            assert(whole[i] == s[i]);
        }
    }
    if k < n {
        lemma_digit_end_bounds(s, k + 1);
        let fraction = s.subrange(k + 1, n);
        assert(all_digits(fraction)) by {
            assert forall|i: int| 0 <= i < fraction.len() implies is_digit(#[trigger] fraction[i]) by {
                assert(fraction[i] == s[k + 1 + i]);
            }
        }
        lemma_canonical_decimal(whole, fraction);
    } else {
        lemma_canonical_decimal(whole, Seq::<char>::empty());
    }
}

/// A string literal written alone scans to one string token holding what
/// stands between the quotes.
pub proof fn lemma_scan_string(body: Seq<char>)
    requires
        forall|i: int| 0 <= i < body.len() ==> body[i] != '"',
    ensures
        scan(seq!['"'] + body + seq!['"']) == Ok::<Seq<TokenModel>, LexErrorModel>(
            seq![
                TokenModel {
                    kind: TokenKind::String,
                    lexeme: seq!['"'] + body + seq!['"'],
                    literal: Some(ObjectModel::Str(body)),
                    line: 1 + newlines(body),
                },
                eof_model(1 + newlines(body)),
            ],
        ),
{
    let s = seq!['"'] + body + seq!['"'];
    let n = s.len() as int;
    assert forall|m: int| 1 <= m < n - 1 implies s[m] != '"' by {
        assert(s[m] == body[m - 1]);
    }
    lemma_quote_index_exact(s, 1, n - 1);
    assert(s.subrange(1, n - 1) =~= body);
    assert(s.subrange(0, n) =~= s);
    let token = TokenModel {
        kind: TokenKind::String,
        lexeme: s,
        literal: Some(ObjectModel::Str(body)),
        line: 1 + newlines(body),
    };
    assert(lex_step(s, 0, 1) == Lexeme::Emit { token, next: n });
    assert(scan_from(s, n, token.line) == Ok::<Seq<TokenModel>, LexErrorModel>(
        seq![eof_model(token.line)],
    ));
    assert(seq![token] + seq![eof_model(token.line)] =~= seq![token, eof_model(token.line)]);
}

/// The reserved words that stand for a literal value.
pub open spec fn literal_word_kind(s: Seq<char>) -> Option<TokenKind> {
    if s == "true"@ {
        Some(TokenKind::True)
    } else if s == "false"@ {
        Some(TokenKind::False)
    } else if s == "nil"@ {
        Some(TokenKind::Nil)
    } else {
        None
    }
}

/// `true`, `false` or `nil` written alone scans to its one keyword token.
pub proof fn lemma_scan_literal_word(s: Seq<char>)
    requires
        literal_word_kind(s) is Some,
    ensures
        scan(s) == Ok::<Seq<TokenModel>, LexErrorModel>(
            seq![
                TokenModel { kind: literal_word_kind(s)->Some_0, lexeme: s, literal: None, line: 1 },
                eof_model(1),
            ],
        ),
{
    reveal_strlit("and");
    reveal_strlit("class");
    reveal_strlit("else");
    reveal_strlit("false");
    reveal_strlit("for");
    reveal_strlit("fun");
    reveal_strlit("if");
    reveal_strlit("nil");
    reveal_strlit("or");
    reveal_strlit("print");
    reveal_strlit("return");
    reveal_strlit("super");
    reveal_strlit("this");
    reveal_strlit("true");
    reveal_strlit("var");
    reveal_strlit("while");
    let n = s.len() as int;
    assert forall|m: int| 0 <= m < n implies is_alpha_numeric(#[trigger] s[m]) by {}
    lemma_word_end_exact(s, 0, n);
    assert(s.subrange(0, n) =~= s);
    assert(keyword_kind(s) == literal_word_kind(s)->Some_0);
    let token = TokenModel { kind: literal_word_kind(s)->Some_0, lexeme: s, literal: None, line: 1 };
    assert(lex_step(s, 0, 1) == Lexeme::Emit { token, next: n });
    assert(scan_from(s, n, 1) == Ok::<Seq<TokenModel>, LexErrorModel>(seq![eof_model(1)]));
    assert(seq![token] + seq![eof_model(1)] =~= seq![token, eof_model(1)]);
}

/// A string literal on one line: quotes around text without quotes or line
/// breaks.
pub open spec fn is_string_text(s: Seq<char>) -> bool {
    &&& s.len() >= 2
    &&& s[0] == '"'
    &&& s.last() == '"'
    &&& forall|i: int| 1 <= i < s.len() - 1 ==> s[i] != '"' && s[i] != '\n'
}

/// A literal written alone on one line: a number, a string, or one of the
/// words `true`, `false`, `nil`.
pub open spec fn is_literal_text(s: Seq<char>) -> bool {
    is_number_text(s) || is_string_text(s) || literal_word_kind(s) is Some
}

/// The value a token stands for as a literal expression.
pub open spec fn literal_token_value(t: TokenModel) -> Option<ObjectModel> {
    match t.kind {
        TokenKind::True => Some(ObjectModel::True),
        TokenKind::False => Some(ObjectModel::False),
        TokenKind::Nil => Some(ObjectModel::Nil),
        TokenKind::Number | TokenKind::String => t.literal,
        _ => None,
    }
}

/// Scanning a literal written alone on one line gives exactly one literal
/// token, on line 1, followed by the end of input; and scanning the display
/// form of that token's value gives back a token with the same value.
pub proof fn lemma_literal_round_trip(s: Seq<char>)
    requires
        is_literal_text(s),
    ensures
        scan(s) matches Ok(ts) && ts.len() == 2 && ts[0].lexeme == s && ts[0].line == 1
            && ts[1] == eof_model(1) && literal_token_value(ts[0]) is Some,
        scan(s) matches Ok(ts) ==> (scan(display(literal_token_value(ts[0])->Some_0)) matches Ok(us)
            && us.len() == 2 && us[1] == eof_model(1) && literal_token_value(us[0])
            == literal_token_value(ts[0])),
{
    if is_number_text(s) {
        lemma_scan_number(s);
        let v = number_value(s, 0, s.len() as int);
        lemma_scan_number(v);
    } else if is_string_text(s) {
        let body = s.subrange(1, s.len() - 1);
        assert(s =~= seq!['"'] + body + seq!['"']);
        assert forall|i: int| 0 <= i < body.len() implies body[i] != '"' && body[i] != '\n' by {
            assert(body[i] == s[i + 1]);
        }
        lemma_no_newlines(body);
        lemma_scan_string(body);
    } else {
        lemma_scan_literal_word(s);
        reveal_strlit("true");
        reveal_strlit("false");
        reveal_strlit("nil");
        let v = literal_token_value(
            TokenModel { kind: literal_word_kind(s)->Some_0, lexeme: s, literal: None, line: 1 },
        )->Some_0;
        assert(display(v) == s);
    }
}

/// A block comment that closes exactly at its end: `/*`, then text in which
/// every further `/*` is closed by its own `*/`, then the closing `*/`.
pub open spec fn is_block_comment(c: Seq<char>) -> bool {
    &&& c.len() >= 2
    &&& c[0] == '/'
    &&& c[1] == '*'
    &&& comment_close(c, 2, 1) == Some(c.len() as int)
}

proof fn lemma_comment_close_extend(c: Seq<char>, rest: Seq<char>, i: int, depth: nat)
    requires
        comment_close(c, i, depth) matches Some(e) && e <= c.len(),
    ensures
        comment_close(c + rest, i, depth) == comment_close(c, i, depth),
    decreases c.len() - i,
{
    let s = c + rest;
    assert(0 <= i < c.len());
    assert(s[i] == c[i]);
    if i + 1 < c.len() {
        assert(s[i + 1] == c[i + 1]);
    }
    if c[i] == '*' && next_is(c, i + 1, '/') {
        if depth > 1 {
            lemma_comment_close_extend(c, rest, i + 2, (depth - 1) as nat);
        }
    } else if c[i] == '/' && next_is(c, i + 1, '*') {
        lemma_comment_close_extend(c, rest, i + 2, depth + 1);
    } else {
        if i + 1 >= c.len() {
            assert(comment_close(c, i + 1, depth) is None);
        }
        lemma_comment_close_extend(c, rest, i + 1, depth);
    }
}

/// A block comment emits no token: scanning text that starts with one goes
/// on right after it, with the lines inside it counted.
pub proof fn lemma_block_comment_skipped(c: Seq<char>, rest: Seq<char>)
    requires
        is_block_comment(c),
    ensures
        scan(c + rest) == scan_from(c + rest, c.len() as int, 1 + newlines(c)),
        scan(c) == Ok::<Seq<TokenModel>, LexErrorModel>(seq![eof_model(1 + newlines(c))]),
{
    let s = c + rest;
    let n = c.len() as int;
    lemma_comment_close_extend(c, rest, 2, 1);
    assert(s[0] == '/' && s[1] == '*');
    assert(s.subrange(2, n) =~= c.subrange(2, n));
    assert(c =~= c.subrange(0, 2) + c.subrange(2, n));
    lemma_newlines_append(c.subrange(0, 2), c.subrange(2, n));
    assert forall|i: int| 0 <= i < 2 implies c.subrange(0, 2)[i] != '\n' by {
        assert(c.subrange(0, 2)[i] == c[i]);
    }
    lemma_no_newlines(c.subrange(0, 2));
    assert(lex_step(s, 0, 1) == Lexeme::Skip { next: n, line: 1 + newlines(c) });
    assert(c + Seq::<char>::empty() =~= c);
    lemma_comment_close_extend(c, Seq::<char>::empty(), 2, 1);
    assert(lex_step(c, 0, 1) == Lexeme::Skip { next: n, line: 1 + newlines(c) });
    assert(scan_from(c, n, 1 + newlines(c)) == Ok::<Seq<TokenModel>, LexErrorModel>(
        seq![eof_model(1 + newlines(c))],
    ));
}

/// A block comment left open fails with an unterminated-comment error on the
/// last line of the input.
pub proof fn lemma_unterminated_comment(s: Seq<char>)
    requires
        s.len() >= 2,
        s[0] == '/',
        s[1] == '*',
        comment_close(s, 2, 1) is None,
    ensures
        scan(s) == Err::<Seq<TokenModel>, LexErrorModel>(
            LexErrorModel { kind: LexErrorKind::UnterminatedComment, line: 1 + newlines(s) },
        ),
{
    let n = s.len() as int;
    assert(s =~= s.subrange(0, 2) + s.subrange(2, n));
    lemma_newlines_append(s.subrange(0, 2), s.subrange(2, n));
    assert forall|i: int| 0 <= i < 2 implies s.subrange(0, 2)[i] != '\n' by {
        assert(s.subrange(0, 2)[i] == s[i]);
    }
    lemma_no_newlines(s.subrange(0, 2));
}

/// Scans and parses `text`, and prints the tree it gives.
pub open spec fn reprinted(text: Seq<char>) -> Option<Seq<char>> {
    match scan(text) {
        Ok(ts) => match parse_tokens(ts) {
            Ok(e) => Some(printed(e)),
            Err(_) => None,
        },
        Err(_) => None,
    }
}

/// A literal token followed by the end of input parses to that literal.
pub proof fn lemma_parse_literal_token(ts: Seq<TokenModel>)
    requires
        ts.len() == 2,
        ts[1].kind == TokenKind::Eof,
        literal_token_value(ts[0]) is Some,
    ensures
        parse_tokens(ts) == Ok::<ExprModel, crate::error::ParseErrorModel>(
            ExprModel::Literal { value: literal_token_value(ts[0])->Some_0 },
        ),
{
    let lit = ExprModel::Literal { value: literal_token_value(ts[0])->Some_0 };
    let k = ts[0].kind;
    assert(terminated(ts) == ts);
    assert(!unary_ops().contains(k)) by {
        if unary_ops().contains(k) {
            let j = choose|j: int| 0 <= j < unary_ops().len() && unary_ops()[j] == k;
            assert(j == 0 || j == 1);
        }
    }
    assert(!matches_at(ts, 0, unary_ops()));
    if k == TokenKind::True || k == TokenKind::Nil {
        assert(!seq![TokenKind::False].contains(k)) by {
            if seq![TokenKind::False].contains(k) {
                let j = choose|j: int| 0 <= j < 1 && seq![TokenKind::False][j] == k;
            }
        }
    }
    if k == TokenKind::Nil {
        assert(!seq![TokenKind::True].contains(k)) by {
            if seq![TokenKind::True].contains(k) {
                let j = choose|j: int| 0 <= j < 1 && seq![TokenKind::True][j] == k;
            }
        }
    }
    if k == TokenKind::Number || k == TokenKind::String {
        assert(!seq![TokenKind::False].contains(k)) by {
            if seq![TokenKind::False].contains(k) {
                let j = choose|j: int| 0 <= j < 1 && seq![TokenKind::False][j] == k;
            }
        }
        assert(!seq![TokenKind::True].contains(k)) by {
            if seq![TokenKind::True].contains(k) {
                let j = choose|j: int| 0 <= j < 1 && seq![TokenKind::True][j] == k;
            }
        }
        assert(!seq![TokenKind::Nil].contains(k)) by {
            if seq![TokenKind::Nil].contains(k) {
                let j = choose|j: int| 0 <= j < 1 && seq![TokenKind::Nil][j] == k;
            }
        }
        let lits = seq![TokenKind::Number, TokenKind::String];
        assert(lits.contains(k)) by {
            if k == TokenKind::Number {
                assert(lits[0] == k);
            } else {
                assert(lits[1] == k);
            }
        }
    } else {
        assert(seq![k][0] == k);
    }
    assert(primary(ts, 0) == Ok::<(ExprModel, int), crate::error::ParseErrorModel>((lit, 1)));
    assert(unary(ts, 0) == Ok::<(ExprModel, int), crate::error::ParseErrorModel>((lit, 1)));
    assert(!matches_at(ts, 1, level_ops(Level::Factor)));
    assert(binary_rest(ts, Level::Factor, lit, 1) == Ok::<(ExprModel, int), crate::error::ParseErrorModel>((lit, 1)));
    assert(operand(ts, Level::Factor, 0) == Ok::<(ExprModel, int), crate::error::ParseErrorModel>((lit, 1)));
    assert(binary(ts, Level::Factor, 0) == Ok::<(ExprModel, int), crate::error::ParseErrorModel>((lit, 1)));
    assert(binary_rest(ts, Level::Term, lit, 1) == Ok::<(ExprModel, int), crate::error::ParseErrorModel>((lit, 1)));
    assert(operand(ts, Level::Term, 0) == Ok::<(ExprModel, int), crate::error::ParseErrorModel>((lit, 1)));
    assert(binary(ts, Level::Term, 0) == Ok::<(ExprModel, int), crate::error::ParseErrorModel>((lit, 1)));
    assert(binary_rest(ts, Level::Comparison, lit, 1) == Ok::<(ExprModel, int), crate::error::ParseErrorModel>((lit, 1)));
    assert(operand(ts, Level::Comparison, 0) == Ok::<(ExprModel, int), crate::error::ParseErrorModel>((lit, 1)));
    assert(binary(ts, Level::Comparison, 0) == Ok::<(ExprModel, int), crate::error::ParseErrorModel>((lit, 1)));
    assert(binary_rest(ts, Level::Equality, lit, 1) == Ok::<(ExprModel, int), crate::error::ParseErrorModel>((lit, 1)));
    assert(operand(ts, Level::Equality, 0) == Ok::<(ExprModel, int), crate::error::ParseErrorModel>((lit, 1)));
    assert(binary(ts, Level::Equality, 0) == Ok::<(ExprModel, int), crate::error::ParseErrorModel>((lit, 1)));
    assert(expression(ts, 0) == Ok::<(ExprModel, int), crate::error::ParseErrorModel>((lit, 1)));
}

/// Printing is a fixed point of scanning, parsing and printing again, for
/// every tree whose print form scans and parses back: a literal, holding a
/// canonical number or a string without double quotes. (A tree with an
/// operator or a grouping at its root prints with parentheses first, and the
/// grammar reads parentheses as a grouping around one expression, so its
/// print form never parses back to the same tree.)
pub proof fn lemma_print_fixed_point(e: ExprModel)
    requires
        e is Literal,
        e->Literal_value matches ObjectModel::Num(t) ==> is_canonical_number(t),
        e->Literal_value matches ObjectModel::Str(b) ==> forall|i: int|
            0 <= i < b.len() ==> b[i] != '"',
    ensures
        reprinted(printed(e)) == Some(printed(e)),
{
    let v = e->Literal_value;
    match v {
        ObjectModel::Num(t) => {
            lemma_scan_number(t);
            let ts = scan(t)->Ok_0;
            lemma_parse_literal_token(ts);
        },
        ObjectModel::Str(b) => {
            lemma_scan_string(b);
            let ts = scan(display(v))->Ok_0;
            lemma_parse_literal_token(ts);
        },
        _ => {
            reveal_strlit("true");
            reveal_strlit("false");
            reveal_strlit("nil");
            let text = display(v);
            if v is True {
                assert(text == "true"@);
            } else if v is False {
                assert(text == "false"@);
            } else {
                assert(text == "nil"@);
            }
            lemma_scan_literal_word(text);
            let ts = scan(text)->Ok_0;
            lemma_parse_literal_token(ts);
        },
    }
}

/// A successful scan ends with the end-of-input token, so it is never empty.
pub proof fn lemma_scan_ends_with_eof(src: Seq<char>, i: int, line: nat)
    ensures
        scan_from(src, i, line) matches Ok(ts) ==> ts.len() > 0 && ts.last().kind
            == TokenKind::Eof,
    decreases src.len() - i,
{
    if 0 <= i < src.len() {
        lemma_lex_step_advances(src, i, line);
        match lex_step(src, i, line) {
            Lexeme::Skip { next, line } => lemma_scan_ends_with_eof(src, next, line),
            Lexeme::Emit { token, next } => {
                lemma_scan_ends_with_eof(src, next, token.line);
                if let Ok(ts) = scan_from(src, next, token.line) {
                    assert((seq![token] + ts).last() == ts.last());
                }
            },
            Lexeme::Fail { .. } => {},
        }
    }
}

/// The kind is an operator of one of the binary levels.
pub open spec fn is_binary_operator(k: TokenKind) -> bool {
    ||| level_ops(Level::Equality).contains(k)
    ||| level_ops(Level::Comparison).contains(k)
    ||| level_ops(Level::Term).contains(k)
    ||| level_ops(Level::Factor).contains(k)
}

/// Every binary node holds a binary operator and every unary node a prefix
/// operator.
pub open spec fn operators_valid(e: ExprModel) -> bool
    decreases e,
{
    match e {
        ExprModel::Binary { left, operator, right } => is_binary_operator(operator.kind)
            && operators_valid(*left) && operators_valid(*right),
        ExprModel::Grouping { expression } => operators_valid(*expression),
        ExprModel::Literal { .. } => true,
        ExprModel::Unary { operator, right } => unary_ops().contains(operator.kind)
            && operators_valid(*right),
    }
}

proof fn lemma_expression_operators(ts: Seq<TokenModel>, i: int)
    ensures
        expression(ts, i) matches Ok((e, _)) ==> operators_valid(e),
    decreases ts.len() - i, 10int,
{
    lemma_binary_operators(ts, Level::Equality, i);
}

proof fn lemma_binary_operators(ts: Seq<TokenModel>, level: Level, i: int)
    ensures
        binary(ts, level, i) matches Ok((e, _)) ==> operators_valid(e),
    decreases ts.len() - i, rank(level),
{
    lemma_operand_operators(ts, level, i);
    if let Ok((left, j)) = operand(ts, level, i) {
        if i <= j <= ts.len() {
            lemma_rest_operators(ts, level, left, j);
        }
    }
}

proof fn lemma_operand_operators(ts: Seq<TokenModel>, level: Level, i: int)
    ensures
        operand(ts, level, i) matches Ok((e, _)) ==> operators_valid(e),
    decreases ts.len() - i, rank(level) - 1,
{
    if level == Level::Factor {
        lemma_unary_operators(ts, i);
    } else {
        lemma_binary_operators(ts, next_level(level), i);
    }
}

proof fn lemma_rest_operators(ts: Seq<TokenModel>, level: Level, left: ExprModel, j: int)
    requires
        operators_valid(left),
    ensures
        binary_rest(ts, level, left, j) matches Ok((e, _)) ==> operators_valid(e),
    decreases ts.len() - j, rank(level) - 1,
{
    if matches_at(ts, j, level_ops(level)) {
        lemma_operand_operators(ts, level, j + 1);
        if let Ok((right, k)) = operand(ts, level, j + 1) {
            let folded = ExprModel::Binary {
                left: Box::new(left),
                operator: ts[j],
                right: Box::new(right),
            };
            assert(is_binary_operator(ts[j].kind));
            assert(operators_valid(folded));
            if j < k <= ts.len() {
                lemma_rest_operators(ts, level, folded, k);
            }
        }
    }
}

proof fn lemma_unary_operators(ts: Seq<TokenModel>, i: int)
    ensures
        unary(ts, i) matches Ok((e, _)) ==> operators_valid(e),
    decreases ts.len() - i, 1int,
{
    if matches_at(ts, i, unary_ops()) {
        lemma_unary_operators(ts, i + 1);
    } else {
        lemma_primary_operators(ts, i);
    }
}

proof fn lemma_primary_operators(ts: Seq<TokenModel>, i: int)
    ensures
        primary(ts, i) matches Ok((e, _)) ==> operators_valid(e),
    decreases ts.len() - i, 0int,
{
    if matches_at(ts, i, seq![TokenKind::LeftParen]) {
        lemma_expression_operators(ts, i + 1);
    }
}

/// Every operator in a parsed tree is one the grammar allows where it stands:
/// a binary operator in a binary node, a prefix operator in a unary node.
pub proof fn lemma_parsed_operators_valid(ts: Seq<TokenModel>)
    ensures
        parse_tokens(ts) matches Ok(e) ==> operators_valid(e),
{
    lemma_expression_operators(terminated(ts), 0);
}

} // verus!
