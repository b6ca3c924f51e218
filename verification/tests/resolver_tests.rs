use saturday::error::SaturdayResult;
use saturday::expr::VariableExpr;
use saturday::interpreter::Interpreter;
use saturday::object::Object;
use saturday::parser::Parser;
use saturday::resolver::Resolver;
use saturday::scanner::Scanner;
use saturday::stmt::Stmt;
use saturday::token::Token;
use saturday::token_type::TokenType;

fn parse(source: &str) -> Vec<Stmt> {
    let tokens = Scanner::new(source.to_string()).scan_tokens().ok().unwrap();
    Parser::new(tokens).parse().ok().unwrap()
}

fn complaints(source: &str) -> Vec<String> {
    let mut interpreter = Interpreter::new();
    let mut resolver = Resolver::new();
    assert!(resolver.resolve(&mut interpreter, &parse(source)).is_ok());
    assert_eq!(resolver.success(), resolver.errors().is_empty());
    resolver.errors().iter().map(|e| e.report("").unwrap()).collect()
}

#[test]
fn program_without_fault_has_no_complaint() {
    assert!(complaints("def a = 1; { def b = a; fun f(x) { return x + b; } while (b) { break; } }").is_empty());
}

#[test]
fn every_static_error_has_its_message() {
    assert_eq!(
        complaints("{ def a = 1;\ndef a = 2; }"),
        vec!["[line 2] Error at 'a': Already a variable with this name in this scope."]
    );
    assert_eq!(
        complaints("{ def a = a; }"),
        vec!["[line 1] Error at 'a': Can't read local variable in its own initializer."]
    );
    assert_eq!(
        complaints("return;"),
        vec!["[line 1] Error at 'return': Can't return from top-level code."]
    );
    assert_eq!(
        complaints("if (true) break;"),
        vec!["[line 1] Error at 'break': break statement outside of a while/for loop."]
    );
    assert_eq!(
        complaints("fun f(a, a) {}"),
        vec!["[line 1] Error at 'a': Already a variable with this name in this scope."]
    );
}

#[test]
fn resolver_goes_on_behind_an_error() {
    assert_eq!(complaints("return 1; break; { def a = a; }").len(), 3);
}

#[test]
fn return_inside_a_function_is_allowed_and_outside_again_not() {
    assert_eq!(
        complaints("fun f() { return 1; }\nreturn 2;"),
        vec!["[line 2] Error at 'return': Can't return from top-level code."]
    );
}

#[test]
fn globals_are_not_recorded_and_locals_are() {
    let mut interpreter = Interpreter::new();
    let mut resolver = Resolver::new();
    // identities: a = 0 (inner use), b = 1
    let statements = parse("def a = 1; { def b = 2; { print a; print b; } }");
    assert!(resolver.resolve(&mut interpreter, &statements).is_ok());
    assert!(resolver.success());
    // `b` lies one scope outward of its use: with that record and no environment
    // to go to, the read fails; `a` has no record and is read among the globals.
    let a = VariableExpr { id: 0, name: Token::new(TokenType::Identifier, "a".to_string(), None, 1) };
    let b = VariableExpr { id: 1, name: Token::new(TokenType::Identifier, "b".to_string(), None, 1) };
    assert_eq!(interpreter.visit_variable_expr(&b), Err(SaturdayResult::Fail));
    assert!(matches!(
        interpreter.visit_variable_expr(&a),
        Err(SaturdayResult::RuntimeError { .. })
    ));
    interpreter.resolve(7, 0);
    let clock = VariableExpr { id: 7, name: Token::new(TokenType::Identifier, "clock".to_string(), None, 1) };
    assert!(matches!(interpreter.visit_variable_expr(&clock), Ok(Object::Func(_))));
}
