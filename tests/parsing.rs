use rlox::error::{ParseError, ParseErrorKind};
use rlox::expr::Expr;
use rlox::literal::{Number, Object};
use rlox::parse::Parser;
use rlox::printer::AstPrinter;
use rlox::scanner::Scanner;
use rlox::token::{Token, TokenKind};

fn parse(source: &str) -> Result<Expr, ParseError> {
    let mut scanner = Scanner::new(String::from(source));
    let tokens = scanner.scan_tokens().unwrap().clone();
    Parser::new(tokens).parse()
}

fn print(source: &str) -> String {
    AstPrinter.print(&parse(source).unwrap())
}

#[test]
fn subtraction_is_left_associative() {
    assert_eq!(print("1 - 2 - 3"), "(- (- 1 2) 3)");
}

#[test]
fn factor_binds_tighter_than_term() {
    assert_eq!(print("1 + 2 * 3"), "(+ 1 (* 2 3))");
    assert_ne!(print("1 + 2 * 3"), "(* (+ 1 2) 3)");
}

#[test]
fn grouping_is_kept() {
    assert_eq!(print("(1 + 2) * 3"), "(* (group (+ 1 2)) 3)");
}

#[test]
fn unary_is_right_associative() {
    assert_eq!(print("--1"), "(- (- 1))");
    assert_eq!(print("!!true"), "(! (! true))");
}

#[test]
fn full_precedence_ladder() {
    assert_eq!(
        print("1 == 2 != 3 < 4 + 5 * -6"),
        "(!= (== 1 2) (< 3 (+ 4 (* 5 (- 6)))))"
    );
    assert_eq!(print("1 >= 2 <= 3 > 4"), "(> (<= (>= 1 2) 3) 4)");
    assert_eq!(print("8 / 4 / 2"), "(/ (/ 8 4) 2)");
    assert_eq!(print("\"a\" == nil"), "(== \"a\" nil)");
}

#[test]
fn missing_close_paren_fails() {
    let e = parse("(1 + 2").unwrap_err();
    assert_eq!(e.kind, ParseErrorKind::ExpectedRightParen);
    assert_eq!(e.token.kind, TokenKind::Eof);
    assert_eq!(e.report().render(), "[line 1] Error at end: Expect ')' after expression.");
}

#[test]
fn empty_token_stream_fails_at_primary() {
    let e = Parser::new(Vec::new()).parse().unwrap_err();
    assert_eq!(e.kind, ParseErrorKind::ExpectedExpression);
    assert_eq!(e.token.kind, TokenKind::Eof);
    assert_eq!(e.token.line, 1);
    let e = parse("").unwrap_err();
    assert_eq!(e.kind, ParseErrorKind::ExpectedExpression);
}

#[test]
fn missing_operand_fails_at_its_token() {
    let e = parse("1 + )").unwrap_err();
    assert_eq!(e.kind, ParseErrorKind::ExpectedExpression);
    assert_eq!(e.token.lexeme, ")");
    assert_eq!(e.message(), "Expect expression.");
    assert_eq!(e.report().render(), "[line 1] Error at ')': Expect expression.");
}

#[test]
fn stream_without_eof_is_terminated() {
    let tokens = vec![
        Token::new(TokenKind::Number, String::from("4"), Some(Object::Num(Number::from_text("4").unwrap())), 7),
        Token::new(TokenKind::Plus, String::from("+"), None, 7),
    ];
    let e = Parser::new(tokens).parse().unwrap_err();
    assert_eq!(e.kind, ParseErrorKind::ExpectedExpression);
    assert_eq!(e.token.kind, TokenKind::Eof);
    assert_eq!(e.token.line, 7);
}

#[test]
fn number_token_without_value_is_no_expression() {
    let tokens = vec![Token::new(TokenKind::Number, String::from("4"), None, 1), Token::eof(1)];
    let e = Parser::new(tokens).parse().unwrap_err();
    assert_eq!(e.kind, ParseErrorKind::ExpectedExpression);
    assert_eq!(e.token.lexeme, "4");
}

#[test]
fn parse_reads_one_expression_and_stops() {
    let mut scanner = Scanner::new(String::from("1 2"));
    let tokens = scanner.scan_tokens().unwrap().clone();
    let mut parser = Parser::new(tokens);
    assert_eq!(AstPrinter.print(&parser.parse().unwrap()), "1");
    assert_eq!(AstPrinter.print(&parser.parse().unwrap()), "2");
    assert!(parser.parse().is_err());
}

#[test]
fn printing_literals_is_a_fixed_point() {
    for source in ["12.5", "\"text\"", "true", "false", "nil", "0"] {
        let once = print(source);
        assert_eq!(print(&once), once);
    }
}

#[test]
fn printing_operators_does_not_parse_back() {
    let once = print("1 + 2");
    assert_eq!(once, "(+ 1 2)");
    assert!(parse(&once).is_err());
}
