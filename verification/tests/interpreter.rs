use saturday::arithmetic::Arithmetic;
use saturday::callable::{Callable, SaturdayCallable};
use saturday::error::SaturdayResult;
use saturday::expr::{
    BinaryExpr, CallExpr, Expr, LiteralExpr, LogicalExpr, UnaryExpr, VariableExpr,
};
use saturday::interpreter::{binary, short_circuits, unary, Interpreter};
use saturday::native_functions::NativeClock;
use saturday::object::Object;
use saturday::saturday_function::SaturdayFunction;
use saturday::stmt::{DefStmt, FunctionStmt};
use saturday::token::Token;
use saturday::token_type::TokenType;
use std::rc::Rc;

const FUEL: u64 = 1000;

struct Floats;

fn value(text: &str) -> f64 {
    text.parse().unwrap()
}

impl Arithmetic for Floats {
    fn numeral_of(&self, literal: String) -> String {
        self.numeral(&literal)
    }

    fn calculated(&self, op: TokenType, left: String, right: String) -> String {
        self.calculate(op, &left, &right)
    }

    fn compared(&self, op: TokenType, left: String, right: String) -> bool {
        self.compare(op, &left, &right)
    }

    fn negated(&self, operand: String) -> String {
        self.negate(&operand)
    }

    fn numeral(&self, literal: &str) -> String {
        format!("{}", value(literal))
    }

    fn calculate(&self, op: TokenType, left: &str, right: &str) -> String {
        let (a, b) = (value(left), value(right));
        let r = match op {
            TokenType::Plus => a + b,
            TokenType::Minus => a - b,
            TokenType::Star => a * b,
            TokenType::Slash => a / b,
            _ => unreachable!(),
        };
        format!("{}", r)
    }

    fn compare(&self, op: TokenType, left: &str, right: &str) -> bool {
        let (a, b) = (value(left), value(right));
        match op {
            TokenType::Greater => a > b,
            TokenType::GreaterEqual => a >= b,
            TokenType::Less => a < b,
            TokenType::LessEqual => a <= b,
            TokenType::Equal => a == b,
            TokenType::BangEqual => a != b,
            _ => unreachable!(),
        }
    }

    fn negate(&self, operand: &str) -> String {
        format!("{}", -value(operand))
    }
}

fn num(x: f64) -> Object {
    Object::Num(format!("{}", x))
}

fn make_literal(o: Object) -> Box<Expr> {
    Box::new(Expr::Literal(LiteralExpr { value: Some(o) }))
}

fn make_literal_string(s: &str) -> Box<Expr> {
    make_literal(Object::Str(s.to_string()))
}

#[test]
fn test_unary_minus() {
    let mut terp = Interpreter::new();
    let unary_expr = UnaryExpr {
        operator: Token::new(TokenType::Minus, "-".to_string(), None, 123),
        right: make_literal(num(123.0)),
    };
    let result = terp.visit_unary_expr(&Floats, &unary_expr, FUEL);
    assert!(result.is_ok());
    assert_eq!(result.ok(), Some(num(-123.0)));
}

#[test]
fn test_unary_not() {
    let mut terp = Interpreter::new();
    let unary_expr = UnaryExpr {
        operator: Token::new(TokenType::Bang, "!".to_string(), None, 123),
        right: make_literal(Object::Bool(false)),
    };
    let result = terp.visit_unary_expr(&Floats, &unary_expr, FUEL);
    assert!(result.is_ok());
    assert_eq!(result.ok(), Some(Object::Bool(true)));
}

#[test]
fn test_subtraction() {
    let mut terp = Interpreter::new();
    let binary_expr = BinaryExpr {
        left: make_literal(num(15.0)),
        operator: Token::new(TokenType::Minus, "-".to_string(), None, 123),
        right: make_literal(num(7.0)),
    };
    let result = terp.visit_binary_expr(&Floats, &binary_expr, FUEL);
    assert!(result.is_ok());
    assert_eq!(result.ok(), Some(num(8.0)));
}

#[test]
fn test_division() {
    let mut terp = Interpreter::new();
    let binary_expr = BinaryExpr {
        left: make_literal(num(21.0)),
        operator: Token::new(TokenType::Slash, "/".to_string(), None, 123),
        right: make_literal(num(7.0)),
    };
    let result = terp.visit_binary_expr(&Floats, &binary_expr, FUEL);
    assert!(result.is_ok());
    assert_eq!(result.ok(), Some(num(3.0)));
}

#[test]
fn test_multiplication() {
    let mut terp = Interpreter::new();
    let binary_expr = BinaryExpr {
        left: make_literal(num(15.0)),
        operator: Token::new(TokenType::Star, "*".to_string(), None, 123),
        right: make_literal(num(7.0)),
    };
    let result = terp.visit_binary_expr(&Floats, &binary_expr, FUEL);
    assert!(result.is_ok());
    assert_eq!(result.ok(), Some(num(105.0)));
}

#[test]
fn test_addition() {
    let mut terp = Interpreter::new();
    let binary_expr = BinaryExpr {
        left: make_literal(num(15.0)),
        operator: Token::new(TokenType::Plus, "+".to_string(), None, 123),
        right: make_literal(num(7.0)),
    };
    let result = terp.visit_binary_expr(&Floats, &binary_expr, FUEL);
    assert!(result.is_ok());
    assert_eq!(result.ok(), Some(num(22.0)));
}

#[test]
fn test_string_concatenation() {
    let mut terp = Interpreter::new();
    let binary_expr = BinaryExpr {
        left: make_literal_string("hello, "),
        operator: Token::new(TokenType::Plus, "+".to_string(), None, 123),
        right: make_literal_string("world!"),
    };
    let result = terp.visit_binary_expr(&Floats, &binary_expr, FUEL);
    assert!(result.is_ok());
    assert_eq!(result.ok(), Some(Object::Str("hello, world!".to_string())));
}

#[test]
fn test_arithmetic_error_for_subtraction() {
    let mut terp = Interpreter::new();
    let binary_expr = BinaryExpr {
        left: make_literal(num(15.0)),
        operator: Token::new(TokenType::Minus, "-".to_string(), None, 123),
        right: make_literal(Object::Bool(true)),
    };
    let result = terp.visit_binary_expr(&Floats, &binary_expr, FUEL);
    assert!(result.is_err());
}

#[test]
fn test_arithmetic_error_for_greater() {
    let mut terp = Interpreter::new();
    let binary_expr = BinaryExpr {
        left: make_literal(num(15.0)),
        operator: Token::new(TokenType::Greater, ">".to_string(), None, 123),
        right: make_literal(Object::Bool(true)),
    };
    let result = terp.visit_binary_expr(&Floats, &binary_expr, FUEL);
    assert!(result.is_err());
}

#[test]
fn test_equals() {
    run_comparison_test(
        Token::new(TokenType::Equal, "==".to_string(), None, 123),
        vec![false, true, false],
    );
}

#[test]
fn test_not_equals() {
    run_comparison_test(
        Token::new(TokenType::BangEqual, "!=".to_string(), None, 123),
        vec![true, false, true],
    );
}

#[test]
fn test_not_equals_string() {
    let mut terp = Interpreter::new();
    let binary_expr = BinaryExpr {
        left: make_literal_string("hello"),
        operator: Token::new(TokenType::Equal, "==".to_string(), None, 123),
        right: make_literal_string("hellx"),
    };
    let result = terp.visit_binary_expr(&Floats, &binary_expr, FUEL);
    assert!(result.is_ok());
    assert_eq!(result.ok(), Some(Object::Bool(false)));
}

#[test]
fn test_equals_string() {
    let mut terp = Interpreter::new();
    let binary_expr = BinaryExpr {
        left: make_literal_string("world"),
        operator: Token::new(TokenType::Equal, "==".to_string(), None, 123),
        right: make_literal_string("world"),
    };
    let result = terp.visit_binary_expr(&Floats, &binary_expr, FUEL);
    assert!(result.is_ok());
    assert_eq!(result.ok(), Some(Object::Bool(true)));
}

#[test]
fn test_equals_nil() {
    let mut terp = Interpreter::new();
    let binary_expr = BinaryExpr {
        left: make_literal(Object::Nil),
        operator: Token::new(TokenType::Equal, "==".to_string(), None, 123),
        right: make_literal(Object::Nil),
    };
    let result = terp.visit_binary_expr(&Floats, &binary_expr, FUEL);
    assert!(result.is_ok());
    assert_eq!(result.ok(), Some(Object::Bool(true)));
}

fn run_comparison_test(tok: Token, cmps: Vec<bool>) {
    let nums = vec![14.0, 15.0, 16.0];
    let mut terp = Interpreter::new();

    for (c, nums) in cmps.iter().zip(nums) {
        let binary_expr = BinaryExpr {
            left: make_literal(num(nums)),
            operator: tok.dup(),
            right: make_literal(num(15.0)),
        };
        let result = terp.visit_binary_expr(&Floats, &binary_expr, FUEL);
        assert!(result.is_ok());
        assert_eq!(
            result.ok(),
            Some(Object::Bool(*c)),
            "Testing {} {} 15.0",
            nums,
            tok.lexeme
        );
    }
}

#[test]
fn test_less_than() {
    run_comparison_test(
        Token::new(TokenType::Less, "<".to_string(), None, 123),
        vec![true, false, false],
    );
}

#[test]
fn test_less_or_equal_to() {
    run_comparison_test(
        Token::new(TokenType::LessEqual, "<=".to_string(), None, 123),
        vec![true, true, false],
    );
}

#[test]
fn test_greater_than() {
    run_comparison_test(
        Token::new(TokenType::Greater, ">".to_string(), None, 123),
        vec![false, false, true],
    );
}

#[test]
fn test_greater_or_equal_to() {
    run_comparison_test(
        Token::new(TokenType::GreaterEqual, ">=".to_string(), None, 123),
        vec![false, true, true],
    );
}

#[test]
fn test_var_stmt_with_initializer() {
    let mut terp = Interpreter::new();
    let name = Token::new(TokenType::Identifier, "foo".to_string(), None, 123);
    let def_stmt = DefStmt {
        name: name.dup(),
        initializer: Some(*make_literal(num(23.0))),
    };
    assert!(terp.visit_def_stmt(&Floats, &def_stmt, FUEL).is_ok());
    assert_eq!(terp.look_up_variable(&name, 0).ok(), Some(num(23.0)));
}

#[test]
fn test_var_stmt_without_initializer() {
    let mut terp = Interpreter::new();
    let name = Token::new(TokenType::Identifier, "foo".to_string(), None, 123);
    let def_stmt = DefStmt {
        name: name.dup(),
        initializer: None,
    };
    assert!(terp.visit_def_stmt(&Floats, &def_stmt, FUEL).is_ok());
    assert_eq!(terp.look_up_variable(&name, 0).ok(), Some(Object::Nil));
}

#[test]
fn test_variable_expr() {
    let mut terp = Interpreter::new();
    let name = Token::new(TokenType::Identifier, "foo".to_string(), None, 123);
    let def_stmt = DefStmt {
        name: name.dup(),
        initializer: Some(*make_literal(num(23.0))),
    };

    assert!(terp.visit_def_stmt(&Floats, &def_stmt, FUEL).is_ok());

    let def_expr = VariableExpr { id: 0, name: name.dup() };
    assert_eq!(terp.visit_variable_expr(&def_expr).ok(), Some(num(23.0)));
}

#[test]
fn test_undefined_variable_expr() {
    let terp = Interpreter::new();
    let name = Token::new(TokenType::Identifier, "foo".to_string(), None, 123);
    let def_expr = VariableExpr { id: 0, name: name.dup() };
    assert!(terp.visit_variable_expr(&def_expr).is_err());
}

#[test]
fn number_and_string_are_joined_by_plus() {
    let plus = Token::new(TokenType::Plus, "+".to_string(), None, 1);
    assert_eq!(
        binary(&Floats, &Object::Str("hi".to_string()), &plus, &num(1.0)).ok(),
        Some(Object::Str("hi1".to_string()))
    );
    assert_eq!(
        binary(&Floats, &num(2.5), &plus, &Object::Str("x".to_string())).ok(),
        Some(Object::Str("2.5x".to_string()))
    );
}

#[test]
fn illegal_expression_is_reported_at_the_operator() {
    let star = Token::new(TokenType::Star, "*".to_string(), None, 9);
    let e = binary(&Floats, &Object::Bool(true), &star, &Object::Bool(false)).err().unwrap();
    assert_eq!(
        e,
        SaturdayResult::RuntimeError { token: star.dup(), message: "Illegal expression".to_string() }
    );
    assert_eq!(e.report(""), Some("Illegal expression\n[line 9]".to_string()));
}

#[test]
fn nil_on_the_left_compares_with_everything() {
    let eq = Token::new(TokenType::Equal, "==".to_string(), None, 1);
    let ne = Token::new(TokenType::BangEqual, "!=".to_string(), None, 1);
    assert_eq!(binary(&Floats, &Object::Nil, &eq, &num(1.0)).ok(), Some(Object::Bool(false)));
    assert_eq!(binary(&Floats, &Object::Nil, &ne, &num(1.0)).ok(), Some(Object::Bool(true)));
    assert_eq!(binary(&Floats, &Object::Nil, &ne, &Object::Nil).ok(), Some(Object::Bool(false)));
    assert!(binary(&Floats, &num(1.0), &eq, &Object::Nil).is_err());
}

#[test]
fn division_by_zero_is_no_error() {
    let slash = Token::new(TokenType::Slash, "/".to_string(), None, 1);
    assert_eq!(binary(&Floats, &num(1.0), &slash, &num(0.0)).ok(), Some(Object::Num("inf".to_string())));
}

#[test]
fn minus_of_what_is_no_number_is_nil() {
    let minus = Token::new(TokenType::Minus, "-".to_string(), None, 1);
    assert_eq!(unary(&Floats, &minus, &Object::Str("a".to_string())).ok(), Some(Object::Nil));
    assert_eq!(unary(&Floats, &minus, &Object::Bool(true)).ok(), Some(Object::Nil));
}

#[test]
fn only_nil_and_false_are_false() {
    let terp = Interpreter::new();
    assert!(!terp.is_truthy(&Object::Nil));
    assert!(!terp.is_truthy(&Object::Bool(false)));
    assert!(terp.is_truthy(&Object::Bool(true)));
    assert!(terp.is_truthy(&num(0.0)));
    assert!(terp.is_truthy(&Object::Str(String::new())));
    assert!(terp.is_truthy(&Object::Func(Callable::Native(NativeClock))));
    assert!(terp.is_truthy(&Object::Func(Callable::Function(0))));
}

#[test]
fn logical_operators_give_the_operand_that_decided() {
    let mut terp = Interpreter::new();
    let or = Token::new(TokenType::Or, "or".to_string(), None, 1);
    let and = Token::new(TokenType::And, "and".to_string(), None, 1);
    let undefined = || {
        Box::new(Expr::Variable(VariableExpr {
            id: 0,
            name: Token::new(TokenType::Identifier, "nowhere".to_string(), None, 1),
        }))
    };
    let first = LogicalExpr { left: make_literal_string("x"), operator: or.dup(), right: undefined() };
    assert_eq!(
        terp.visit_logical_expr(&Floats, &first, FUEL).ok(),
        Some(Object::Str("x".to_string()))
    );
    let second = LogicalExpr { left: make_literal(Object::Nil), operator: and.dup(), right: undefined() };
    assert_eq!(terp.visit_logical_expr(&Floats, &second, FUEL).ok(), Some(Object::Nil));
    let third = LogicalExpr { left: make_literal(Object::Nil), operator: or.dup(), right: undefined() };
    assert!(terp.visit_logical_expr(&Floats, &third, FUEL).is_err());
    assert!(short_circuits(&or, &num(0.0)));
    assert!(!short_circuits(&and, &num(0.0)));
}

#[test]
fn clock_is_a_number_and_takes_no_argument() {
    let mut terp = Interpreter::new();
    let paren = Token::new(TokenType::RightParen, ")".to_string(), None, 4);
    let clock = || {
        Box::new(Expr::Variable(VariableExpr {
            id: 0,
            name: Token::new(TokenType::Identifier, "clock".to_string(), None, 4),
        }))
    };
    let call = CallExpr { callee: clock(), paren: paren.dup(), arguments: vec![] };
    match terp.visit_call_expr(&Floats, &call, FUEL) {
        Ok(Object::Num(n)) => assert!(value(&n) > 1.0e12),
        other => panic!("{:?}", other),
    }
    let wrong = CallExpr { callee: clock(), paren: paren.dup(), arguments: vec![*make_literal(Object::Nil)] };
    assert_eq!(
        terp.visit_call_expr(&Floats, &wrong, FUEL).err(),
        Some(SaturdayResult::RuntimeError {
            token: paren.dup(),
            message: "Expected 0 arguments but got 1.".to_string()
        })
    );
    assert_eq!(NativeClock.arity(), 0);
    assert_eq!(NativeClock.to_string(), "Native:Clock");
}

#[test]
fn only_functions_can_be_called() {
    let mut terp = Interpreter::new();
    let paren = Token::new(TokenType::RightParen, ")".to_string(), None, 2);
    let call = CallExpr { callee: make_literal_string("f"), paren: paren.dup(), arguments: vec![] };
    assert_eq!(
        terp.visit_call_expr(&Floats, &call, FUEL).err(),
        Some(SaturdayResult::RuntimeError {
            token: paren,
            message: "Can only call function and classes".to_string()
        })
    );
}

#[test]
fn evaluation_without_fuel_is_a_system_error() {
    let mut terp = Interpreter::new();
    let e = terp.evaluate(&Floats, &make_literal(Object::Nil), 0).err().unwrap();
    assert_eq!(
        e,
        SaturdayResult::SystemError { message: "Evaluation budget exhausted.".to_string() }
    );
    assert_eq!(
        e.report(""),
        Some("System Error: Evaluation budget exhausted.".to_string())
    );
}

#[test]
fn new_interpreter_knows_only_the_clock() {
    let terp = Interpreter::new();
    let clock = Token::new(TokenType::Identifier, "clock".to_string(), None, 1);
    assert_eq!(
        terp.look_up_variable(&clock, 0).ok(),
        Some(Object::Func(Callable::Native(NativeClock)))
    );
    assert_eq!(terp.globals, 0);
    assert_eq!(terp.print_environment(), "{clock = <func>}");
}

#[test]
fn reading_of_the_clock_is_a_number_or_a_system_error() {
    assert_eq!(NativeClock::reading(&Floats, Ok(1500)).ok(), Some(num(1500.0)));
    assert_eq!(
        NativeClock::reading(&Floats, Err("early".to_string())).err(),
        Some(SaturdayResult::SystemError {
            message: "Clock returned invalid duration: early".to_string()
        })
    );
}

#[test]
fn declared_function_tells_its_arity_and_name() {
    let a = Token::new(TokenType::Identifier, "a".to_string(), None, 1);
    let b = Token::new(TokenType::Identifier, "b".to_string(), None, 1);
    let declaration = FunctionStmt {
        name: Token::new(TokenType::Identifier, "add".to_string(), None, 1),
        params: Rc::new(vec![a, b]),
        body: Rc::new(vec![]),
    };
    let function = SaturdayFunction::new(&declaration, 0);
    assert_eq!(function.arity(), 2);
    assert_eq!(function.to_string(), "add");
    assert_eq!(function.closure, 0);
    assert!(Rc::ptr_eq(&function.body, &declaration.body));
    assert!(Rc::ptr_eq(&function.dup().params, &declaration.params));
    let mut terp = Interpreter::new();
    assert_eq!(
        function.call(&mut terp, &Floats, vec![num(1.0), num(2.0)], FUEL),
        Ok(Object::Nil)
    );
    assert_eq!(terp.print_environment(), "{clock = <func>}");
}
