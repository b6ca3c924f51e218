use saturday::ast_printer::AstPrinter;
use saturday::error::SaturdayResult;
use saturday::expr::{BinaryExpr, Expr, GroupingExpr, LiteralExpr, UnaryExpr};
use saturday::object::Object;
use saturday::saturday::Saturday;
use saturday::text::{characters, collect, decimal_text, is_word};
use saturday::token::Token;
use saturday::token_type::TokenType;

#[test]
fn every_error_has_its_format() {
    let tok = Token::new(TokenType::Identifier, "x".to_string(), None, 12);
    assert_eq!(
        SaturdayResult::error(3, "Unexpected character").report(""),
        Some("[line 3] Error: Unexpected character".to_string())
    );
    assert_eq!(
        SaturdayResult::error(3, "m").report(" here"),
        Some("[line 3] Error here: m".to_string())
    );
    assert_eq!(
        SaturdayResult::parse_error(&tok, "Expect expression.").report(""),
        Some("[line 12] Error at 'x': Expect expression.".to_string())
    );
    assert_eq!(
        SaturdayResult::runtime_error(&tok, "Illegal expression").report(""),
        Some("Illegal expression\n[line 12]".to_string())
    );
    assert_eq!(
        SaturdayResult::runtime_error(&Token::eof(40), "Illegal expression").report(""),
        Some("[line 40] Error at end: Illegal expression".to_string())
    );
    assert_eq!(
        SaturdayResult::system_error("no clock").report(""),
        Some("System Error: no clock".to_string())
    );
    assert_eq!(SaturdayResult::Break.report(""), None);
    assert_eq!(SaturdayResult::return_value(Object::Nil).report(""), None);
    assert_eq!(SaturdayResult::fail(), SaturdayResult::Fail);
}

#[test]
fn exit_codes_tell_the_phases_apart() {
    let tok = Token::eof(1);
    assert_eq!(Saturday::exit_code(&Ok(())), 0);
    assert_eq!(Saturday::exit_code(&Err(SaturdayResult::error(1, "m"))), 65);
    assert_eq!(Saturday::exit_code(&Err(SaturdayResult::parse_error(&tok, "m"))), 65);
    assert_eq!(Saturday::exit_code(&Err(SaturdayResult::runtime_error(&tok, "m"))), 70);
    assert_eq!(Saturday::exit_code(&Err(SaturdayResult::system_error("m"))), 70);
    assert_eq!(Saturday::exit_code(&Err(SaturdayResult::Fail)), 70);
}

#[test]
fn numbers_are_written_in_decimal() {
    assert_eq!(decimal_text(0), "0");
    assert_eq!(decimal_text(7), "7");
    assert_eq!(decimal_text(10), "10");
    assert_eq!(decimal_text(1234567890), "1234567890");
    assert_eq!(decimal_text(u128::MAX), "340282366920938463463374607431768211455");
}

#[test]
fn characters_and_strings_convert_both_ways() {
    let chars = characters("héllo wörld");
    assert_eq!(chars.len(), 11);
    assert_eq!(collect(&chars, 1, 5), "éllo");
    assert_eq!(collect(&chars, 3, 3), "");
    assert!(is_word(&"and".to_string(), "and"));
    assert!(!is_word(&"and".to_string(), "an"));
}

#[test]
fn values_have_their_printed_form() {
    assert_eq!(Object::Num("1.5".to_string()).to_string(), "1.5");
    assert_eq!(Object::Str("a b".to_string()).to_string(), "a b");
    assert_eq!(Object::Bool(true).to_string(), "true");
    assert_eq!(Object::Bool(false).to_string(), "false");
    assert_eq!(Object::Nil.to_string(), "nil");
    assert_eq!(Object::ArithmeticError.to_string(), "");
    assert_eq!(Object::Str("x".to_string()).dup(), Object::Str("x".to_string()));
}

#[test]
fn tokens_have_their_printed_form() {
    let number = Token::new(
        TokenType::Number,
        "12".to_string(),
        Some(Object::Num("12".to_string())),
        1,
    );
    assert_eq!(number.to_string(), "Number 12 12");
    assert_eq!(Token::eof(3).to_string(), "Eof  None");
    assert!(number.is(TokenType::Number));
    assert_eq!(number.token_type(), TokenType::Number);
    assert_eq!(number.as_string(), "12");
    assert_eq!(number.dup(), number);
    assert_eq!(TokenType::GreaterEqual.name(), "GreaterEqual");
}

#[test]
fn printer_writes_prefix_form() {
    let literal = |text: &str| Box::new(Expr::Literal(LiteralExpr { value: Some(Object::Num(text.to_string())) }));
    let expr = Expr::Binary(BinaryExpr {
        left: Box::new(Expr::Unary(UnaryExpr {
            operator: Token::new(TokenType::Minus, "-".to_string(), None, 1),
            right: literal("123"),
        })),
        operator: Token::new(TokenType::Star, "*".to_string(), None, 1),
        right: Box::new(Expr::Grouping(GroupingExpr { expression: literal("45.67") })),
    });
    assert_eq!(AstPrinter.print(&expr).ok().unwrap(), "(* (- 123) (group 45.67))");
    assert_eq!(
        AstPrinter.print(&Expr::Literal(LiteralExpr { value: None })).ok().unwrap(),
        "nil"
    );
    assert_eq!(
        AstPrinter
            .parenthesize(&"+".to_string(), &vec!["1".to_string(), "2".to_string()])
            .ok()
            .unwrap(),
        "(+ 1 2)"
    );
}
