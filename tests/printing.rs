use rlox::expr::Expr;
use rlox::literal::{Number, Object};
use rlox::printer::AstPrinter;
use rlox::token::{Token, TokenKind};

fn number(text: &str) -> Object {
    Object::Num(Number::from_text(text).unwrap())
}

fn sample_tree() -> Expr {
    Expr::Binary {
        left: Box::new(Expr::Unary {
            operator: Token::new(TokenKind::Minus, String::from("-"), None, 1),
            right: Box::new(Expr::Literal { value: number("123") }),
        }),
        operator: Token::new(TokenKind::Star, String::from("*"), None, 1),
        right: Box::new(Expr::Grouping {
            expression: Box::new(Expr::Literal { value: number("45.67") }),
        }),
    }
}

#[test]
fn expr2_test_printer() {
    let res = AstPrinter.print(&sample_tree());
    println!("{}", res);
    assert_eq!(res, "(* (- 123) (group 45.67))");
}

#[test]
fn printer_test_printer() {
    let ast = AstPrinter;
    let s = ast.print(&sample_tree());
    println!("{s}");
    assert_eq!(s, "(* (- 123) (group 45.67))");
}

#[test]
fn literal_display_forms() {
    assert_eq!(number("7").display(), "7");
    assert_eq!(number("007.50").display(), "7.5");
    assert_eq!(number("0.0").display(), "0");
    assert_eq!(number("10.01").display(), "10.01");
    assert_eq!(Object::String(String::from("hi")).display(), "\"hi\"");
    assert_eq!(Object::Nil.display(), "nil");
    assert_eq!(Object::True.display(), "true");
    assert_eq!(Object::False.display(), "false");
}

#[test]
fn number_from_text_accepts_only_number_literals() {
    assert!(Number::from_text("12").is_some());
    assert!(Number::from_text("1.25").is_some());
    assert!(Number::from_text("").is_none());
    assert!(Number::from_text("1.").is_none());
    assert!(Number::from_text(".5").is_none());
    assert!(Number::from_text("1.2.3").is_none());
    assert!(Number::from_text("-1").is_none());
    assert_eq!(Number::from_text("1.50"), Number::from_text("01.5"));
    assert_eq!(Number::from_text("000").unwrap().as_str(), "0");
}

#[test]
fn parenthesize_joins_parts_with_spaces() {
    let parts = vec![String::from("a"), String::from("b"), String::from("c")];
    assert_eq!(AstPrinter.parenthesize("f", &parts), "(f a b c)");
    assert_eq!(AstPrinter.parenthesize("g", &Vec::new()), "(g)");
}
