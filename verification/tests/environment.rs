use saturday::environment::Environment;
use saturday::error::SaturdayResult;
use saturday::object::Object;
use saturday::token::Token;
use saturday::token_type::TokenType;

fn num(x: f64) -> Object {
    Object::Num(format!("{}", x))
}

#[test]
fn can_define_a_variable() {
    let mut e = Environment::new();
    e.define("One", Object::Bool(true));
    assert!(e.contains("One"));
    assert_eq!(e.lookup("One").unwrap(), Object::Bool(true));
}

#[test]
fn can_redefine_a_variable() {
    let mut e = Environment::new();
    e.define("Two", Object::Bool(true));
    e.define("Two", num(12.0));
    assert_eq!(e.lookup("Two").unwrap(), num(12.0));
}

#[test]
fn can_look_up_a_variable() {
    let mut e = Environment::new();
    e.define("Three", Object::Str("foo".to_string()));
    let arena = vec![e];
    assert_eq!(
        Environment::get(
            &arena,
            0,
            &Token::new(TokenType::Identifier, "Three".to_string(), None, 123)
        )
        .ok()
        .unwrap(),
        Object::Str("foo".to_string())
    );
}

#[test]
fn error_when_variable_undefined() {
    let arena = vec![Environment::new()];
    let three_tok = Token::new(TokenType::Identifier, "Three".to_string(), None, 0);
    assert!(Environment::get(&arena, 0, &three_tok).is_err());
}

#[test]
fn error_when_assigning_to_undefined_variable() {
    let mut arena = vec![Environment::new()];
    let four_tok = Token::new(TokenType::Identifier, "Four".to_string(), None, 0);
    assert!(Environment::assign(&mut arena, 0, &four_tok, Object::Nil).is_err());
}

#[test]
fn can_reassign_existing_variable() {
    let mut e = Environment::new();
    let four_tok = Token::new(TokenType::Identifier, "Four".to_string(), None, 0);
    e.define("Four", num(73.1));
    let mut arena = vec![e];
    assert!(Environment::assign(&mut arena, 0, &four_tok, num(89.5)).is_ok());
    assert_eq!(Environment::get(&arena, 0, &four_tok).ok(), Some(num(89.5)));
}

#[test]
fn can_enclose_an_environment() {
    let e = Environment::new();
    let f = Environment::new_with_enclosing(0);
    let arena = vec![e, f];
    assert_eq!(arena[1].enclosing(), Some(0));
    assert_eq!(arena[arena[1].enclosing().unwrap()].enclosing(), None);
}

#[test]
fn can_read_from_enclosed_environment() {
    let mut e = Environment::new();
    let four_tok = Token::new(TokenType::Identifier, "Four".to_string(), None, 0);
    e.define("Four", num(73.1));
    let f = Environment::new_with_enclosing(0);
    let arena = vec![e, f];
    assert_eq!(Environment::get(&arena, 1, &four_tok).ok(), Some(num(73.1)));
}

#[test]
fn can_assign_to_enclosed_environment() {
    let mut e = Environment::new();
    e.define("Four", num(73.1));
    let f = Environment::new_with_enclosing(0);
    let mut arena = vec![e, f];
    let four_tok = Token::new(TokenType::Identifier, "Four".to_string(), None, 0);
    assert!(Environment::assign(&mut arena, 1, &four_tok, num(91.2)).is_ok());
    assert_eq!(Environment::get(&arena, 1, &four_tok).ok(), Some(num(91.2)));
    assert_eq!(arena[0].lookup("Four"), Some(num(91.2)));
    assert!(!arena[1].contains("Four"));
}

#[test]
fn get_at_reads_the_environment_at_the_distance() {
    let mut outer = Environment::new();
    outer.define("a", num(1.0));
    let mut inner = Environment::new_with_enclosing(0);
    inner.define("a", num(2.0));
    let arena = vec![outer, inner];
    assert_eq!(Environment::get_at(&arena, 1, 0, "a").ok(), Some(num(2.0)));
    assert_eq!(Environment::get_at(&arena, 1, 1, "a").ok(), Some(num(1.0)));
    assert_eq!(Environment::get_at(&arena, 1, 2, "a"), Err(SaturdayResult::Fail));
    assert_eq!(Environment::get_at(&arena, 1, 0, "b"), Err(SaturdayResult::Fail));
}

#[test]
fn assign_at_writes_the_environment_at_the_distance() {
    let mut outer = Environment::new();
    outer.define("a", num(1.0));
    let mut inner = Environment::new_with_enclosing(0);
    inner.define("a", num(2.0));
    let mut arena = vec![outer, inner];
    let a = Token::new(TokenType::Identifier, "a".to_string(), None, 1);
    assert!(Environment::assign_at(&mut arena, 1, 1, &a, num(5.0)).is_ok());
    assert_eq!(arena[0].lookup("a"), Some(num(5.0)));
    assert_eq!(arena[1].lookup("a"), Some(num(2.0)));
    assert_eq!(
        Environment::assign_at(&mut arena, 1, 2, &a, num(6.0)),
        Err(SaturdayResult::Fail)
    );
    assert!(Environment::assign_at(&mut arena, 1, 0, &Token::new(TokenType::Identifier, "b".to_string(), None, 1), num(7.0)).is_ok());
    assert_eq!(arena[1].lookup("b"), Some(num(7.0)));
}

#[test]
fn undefined_variable_is_reported_with_its_name() {
    let arena = vec![Environment::new()];
    let tok = Token::new(TokenType::Identifier, "missing".to_string(), None, 7);
    let e = Environment::get(&arena, 0, &tok).err().unwrap();
    assert_eq!(
        e.report(""),
        Some("Undefined variable 'missing'.\n[line 7]".to_string())
    );
}

#[test]
fn chain_is_written_from_the_inside_outward() {
    let mut outer = Environment::new();
    outer.define("a", num(1.0));
    let mut inner = Environment::new_with_enclosing(0);
    inner.define("b", Object::Str("x".to_string()));
    inner.define("a", num(2.0));
    inner.define("b", Object::Bool(true));
    let empty = Environment::new_with_enclosing(1);
    let arena = vec![outer, inner, empty];
    assert_eq!(arena[1].describe(), "{b = true, a = 2}");
    assert_eq!(Environment::describe_chain(&arena, 2), "{} in {b = true, a = 2} in {a = 1}");
    assert_eq!(Environment::describe_chain(&arena, 0), "{a = 1}");
}
