use rlox::error::{LexError, LexErrorKind};
use rlox::literal::{Number, Object};
use rlox::lox::Lox;
use rlox::scanner::Scanner;
use rlox::token::{Token, TokenKind};

fn scan(source: &str) -> Result<Vec<Token>, LexError> {
    let mut scanner = Scanner::new(String::from(source));
    scanner.scan_tokens().map(|ts| ts.clone())
}

fn kinds(source: &str) -> Vec<TokenKind> {
    scan(source).unwrap().iter().map(|t| t.kind).collect()
}

#[test]
fn empty_source_gives_only_eof() {
    let ts = scan("").unwrap();
    assert_eq!(ts.len(), 1);
    assert_eq!(ts[0].kind, TokenKind::Eof);
    assert_eq!(ts[0].line, 1);
    assert_eq!(ts[0].lexeme, "");
}

#[test]
fn number_literal_alone() {
    let ts = scan("123.45").unwrap();
    assert_eq!(ts.len(), 2);
    assert_eq!(ts[0].kind, TokenKind::Number);
    assert_eq!(ts[0].lexeme, "123.45");
    assert_eq!(ts[0].line, 1);
    assert_eq!(ts[0].literal, Some(Object::Num(Number::from_text("123.45").unwrap())));
    assert_eq!(ts[1].kind, TokenKind::Eof);
}

#[test]
fn number_value_round_trips_through_display() {
    let ts = scan("0012.500").unwrap();
    let value = ts[0].literal.clone().unwrap();
    assert_eq!(value.display(), "12.5");
    let again = scan(&value.display()).unwrap();
    assert_eq!(again.len(), 2);
    assert_eq!(again[0].literal, Some(value));
}

#[test]
fn string_literal_alone() {
    let ts = scan("\"hello world\"").unwrap();
    assert_eq!(ts.len(), 2);
    assert_eq!(ts[0].kind, TokenKind::String);
    assert_eq!(ts[0].lexeme, "\"hello world\"");
    assert_eq!(ts[0].literal, Some(Object::String(String::from("hello world"))));
    let again = scan(&ts[0].literal.clone().unwrap().display()).unwrap();
    assert_eq!(again[0].literal, ts[0].literal);
}

#[test]
fn boolean_and_nil_literals_alone() {
    assert_eq!(kinds("true"), vec![TokenKind::True, TokenKind::Eof]);
    assert_eq!(kinds("false"), vec![TokenKind::False, TokenKind::Eof]);
    assert_eq!(kinds("nil"), vec![TokenKind::Nil, TokenKind::Eof]);
    assert_eq!(scan("nil").unwrap()[0].literal, None);
}

#[test]
fn trailing_dot_is_not_part_of_a_number() {
    let ts = scan("1.").unwrap();
    assert_eq!(ts[0].kind, TokenKind::Number);
    assert_eq!(ts[0].lexeme, "1");
    assert_eq!(ts[1].kind, TokenKind::Dot);
    assert_eq!(ts[2].kind, TokenKind::Eof);
}

#[test]
fn one_and_two_character_operators() {
    assert_eq!(
        kinds("! != = == < <= > >="),
        vec![
            TokenKind::Bang,
            TokenKind::BangEqual,
            TokenKind::Equal,
            TokenKind::EqualEqual,
            TokenKind::Less,
            TokenKind::LessEqual,
            TokenKind::Greater,
            TokenKind::GreaterEqual,
            TokenKind::Eof,
        ]
    );
    assert_eq!(
        kinds("(){},.-+;*/"),
        vec![
            TokenKind::LeftParen,
            TokenKind::RightParen,
            TokenKind::LeftBrace,
            TokenKind::RightBrace,
            TokenKind::Comma,
            TokenKind::Dot,
            TokenKind::Minus,
            TokenKind::Plus,
            TokenKind::Semicolon,
            TokenKind::Star,
            TokenKind::Slash,
            TokenKind::Eof,
        ]
    );
}

#[test]
fn reserved_words_and_identifiers() {
    assert_eq!(
        kinds("and class else for fun if or print return super this var while"),
        vec![
            TokenKind::And,
            TokenKind::Class,
            TokenKind::Else,
            TokenKind::For,
            TokenKind::Fun,
            TokenKind::If,
            TokenKind::Or,
            TokenKind::Print,
            TokenKind::Return,
            TokenKind::Super,
            TokenKind::This,
            TokenKind::Var,
            TokenKind::While,
            TokenKind::Eof,
        ]
    );
    let ts = scan("orchid _x1 Nil").unwrap();
    assert_eq!(ts[0].kind, TokenKind::Identifier);
    assert_eq!(ts[0].lexeme, "orchid");
    assert_eq!(ts[1].kind, TokenKind::Identifier);
    assert_eq!(ts[1].lexeme, "_x1");
    assert_eq!(ts[2].kind, TokenKind::Identifier);
}

#[test]
fn lines_are_counted() {
    let ts = scan("1\n2\r\n\t3").unwrap();
    assert_eq!(ts[0].line, 1);
    assert_eq!(ts[1].line, 2);
    assert_eq!(ts[2].line, 3);
    assert_eq!(ts[3].line, 3);
    let ts = scan("\"a\nb\" x").unwrap();
    assert_eq!(ts[0].line, 2);
    assert_eq!(ts[0].literal, Some(Object::String(String::from("a\nb"))));
    assert_eq!(ts[1].line, 2);
}

#[test]
fn line_comment_is_skipped() {
    let ts = scan("1 // two 2\n3").unwrap();
    assert_eq!(ts.len(), 3);
    assert_eq!(ts[0].lexeme, "1");
    assert_eq!(ts[1].lexeme, "3");
    assert_eq!(ts[1].line, 2);
}

#[test]
fn nested_block_comment_emits_nothing() {
    assert_eq!(kinds("/* a /* b */ c */"), vec![TokenKind::Eof]);
    let ts = scan("/* a /* b */ c */ 1").unwrap();
    assert_eq!(ts.len(), 2);
    assert_eq!(ts[0].lexeme, "1");
    let ts = scan("/* a\n/* b\n*/ c */x").unwrap();
    assert_eq!(ts[0].lexeme, "x");
    assert_eq!(ts[0].line, 3);
}

#[test]
fn unterminated_block_comment_fails_on_last_line() {
    assert_eq!(
        scan("/* a"),
        Err(LexError { kind: LexErrorKind::UnterminatedComment, line: 1 })
    );
    assert_eq!(
        scan("/* a /* b */\n c"),
        Err(LexError { kind: LexErrorKind::UnterminatedComment, line: 2 })
    );
}

#[test]
fn unterminated_string_fails() {
    assert_eq!(
        scan("\"abc\ndef"),
        Err(LexError { kind: LexErrorKind::UnterminatedString, line: 2 })
    );
}

#[test]
fn unexpected_character_fails() {
    assert_eq!(
        scan("1 +\n @"),
        Err(LexError { kind: LexErrorKind::UnexpectedCharacter('@'), line: 2 })
    );
}

#[test]
fn lex_error_reports() {
    let e = LexError { kind: LexErrorKind::UnexpectedCharacter('#'), line: 12 };
    assert_eq!(e.message(), "Unexpected character: #");
    assert_eq!(e.report().render(), "[line 12] Error: Unexpected character: #");
    let e = LexError { kind: LexErrorKind::UnterminatedString, line: 3 };
    assert_eq!(e.report().render(), "[line 3] Error: Unterminated string.");
    let e = LexError { kind: LexErrorKind::UnterminatedComment, line: 105 };
    assert_eq!(e.report().render(), "[line 105] Error: Unterminated comment.");
}

#[test]
fn lox_remembers_errors_until_reset() {
    let mut lox = Lox::new();
    assert!(!lox.had_error());
    let ts = lox.run(String::from("1 + 2")).unwrap();
    assert_eq!(ts.len(), 4);
    assert!(!lox.had_error());
    assert!(lox.run(String::from("\"open")).is_err());
    assert!(lox.had_error());
    assert!(lox.run(String::from("3")).is_ok());
    assert!(lox.had_error());
    lox.reset_error();
    assert!(!lox.had_error());
    let d = Lox::default();
    assert!(!d.had_error());
}
