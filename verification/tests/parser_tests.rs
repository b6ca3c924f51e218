use saturday::ast_printer::AstPrinter;
use saturday::error::SaturdayResult;
use saturday::expr::Expr;
use saturday::object::Object;
use saturday::parser::{desugar_for, Parser};
use saturday::scanner::Scanner;
use saturday::stmt::{BreakStmt, Stmt};
use saturday::token::Token;
use saturday::token_type::TokenType;

fn tokens(source: &str) -> Vec<Token> {
    Scanner::new(source.to_string()).scan_tokens().ok().unwrap()
}

fn parse(source: &str) -> Vec<Stmt> {
    let mut parser = Parser::new(tokens(source));
    let statements = parser.parse().ok().unwrap();
    assert!(parser.success());
    statements
}

fn errors(source: &str) -> Vec<String> {
    let mut parser = Parser::new(tokens(source));
    assert!(parser.parse().is_err());
    assert!(!parser.success());
    parser.errors().iter().map(|e| e.report("").unwrap()).collect()
}

fn printed(source: &str) -> String {
    match &parse(source)[0] {
        Stmt::Expression(x) => AstPrinter.print(&x.expression).ok().unwrap(),
        other => panic!("{:?}", other),
    }
}

#[test]
fn operators_bind_by_precedence() {
    assert_eq!(printed("1 + 2 * 3;"), "(+ 1 (* 2 3))");
    assert_eq!(printed("1 * 2 + 3;"), "(+ (* 1 2) 3)");
    assert_eq!(printed("1 < 2 == 3 > 4;"), "(== (< 1 2) (> 3 4))");
    assert_eq!(printed("a or b and c;"), "(or a (and b c))");
    assert_eq!(printed("!a == -b;"), "(== (! a) (- b))");
    assert_eq!(printed("-!-a;"), "(- (! (- a)))");
}

#[test]
fn operators_of_one_level_join_from_the_left() {
    assert_eq!(printed("1 - 2 - 3;"), "(- (- 1 2) 3)");
    assert_eq!(printed("8 / 4 / 2;"), "(/ (/ 8 4) 2)");
    assert_eq!(printed("a and b and c;"), "(and (and a b) c)");
}

#[test]
fn assignment_joins_from_the_right() {
    assert_eq!(printed("a = b = c + 1;"), "(= a (= b (+ c 1)))");
}

#[test]
fn grouping_and_calls() {
    assert_eq!(printed("(1 + 2) * 3;"), "(* (group (+ 1 2)) 3)");
    assert_eq!(printed("f(1, g(2), \"x\")(nil);"), "(call (call f 1 (call g 2) x) nil)");
    assert_eq!(printed("f();"), "(call f)");
    assert_eq!(printed("true == false;"), "(== true false)");
}

#[test]
fn call_keeps_its_opening_parenthesis() {
    match &parse("f\n(1,\n2\n);")[0] {
        Stmt::Expression(x) => match &x.expression {
            Expr::Call(c) => {
                assert_eq!(c.paren.t_type, TokenType::LeftParen);
                assert_eq!(c.paren.line, 2);
            }
            other => panic!("{:?}", other),
        },
        other => panic!("{:?}", other),
    }
}

#[test]
fn uses_of_variables_get_identities_in_order() {
    let statements = parse("a = b; c;");
    match &statements[0] {
        Stmt::Expression(x) => match &x.expression {
            Expr::Assign(assign) => {
                assert_eq!(assign.id, 0);
                assert_eq!(assign.name.lexeme, "a");
                match &*assign.value {
                    Expr::Variable(v) => assert_eq!(v.id, 1),
                    other => panic!("{:?}", other),
                }
            }
            other => panic!("{:?}", other),
        },
        other => panic!("{:?}", other),
    }
    match &statements[1] {
        Stmt::Expression(x) => match &x.expression {
            Expr::Variable(v) => assert_eq!(v.id, 2),
            other => panic!("{:?}", other),
        },
        other => panic!("{:?}", other),
    }
    let mut parser = Parser::with_first_id(tokens("x;"), 40);
    match &parser.parse().ok().unwrap()[0] {
        Stmt::Expression(x) => match &x.expression {
            Expr::Variable(v) => assert_eq!(v.id, 40),
            other => panic!("{:?}", other),
        },
        other => panic!("{:?}", other),
    }
    assert_eq!(parser.next_id(), 41);
}

#[test]
fn for_is_a_block_with_a_loop() {
    let statements = parse("for (def i = 0; i < 3; i = i + 1) print i;");
    assert_eq!(statements.len(), 1);
    let outer = match &statements[0] {
        Stmt::Block(b) => &b.statements,
        other => panic!("{:?}", other),
    };
    assert_eq!(outer.len(), 2);
    assert!(matches!(outer[0], Stmt::Def(_)));
    let looped = match &outer[1] {
        Stmt::While(w) => w,
        other => panic!("{:?}", other),
    };
    assert_eq!(AstPrinter.print(&looped.condition).ok().unwrap(), "(< i 3)");
    let inner = match &*looped.body {
        Stmt::Block(b) => &b.statements,
        other => panic!("{:?}", other),
    };
    assert_eq!(inner.len(), 2);
    assert!(matches!(inner[0], Stmt::Print(_)));
    assert!(matches!(inner[1], Stmt::Expression(_)));
}

#[test]
fn for_without_clauses_loops_on_true() {
    let body = Stmt::Break(BreakStmt { token: Token::new(TokenType::Break, "break".to_string(), None, 1) });
    let outer = match desugar_for(None, None, None, body) {
        Stmt::Block(b) => b.statements,
        other => panic!("{:?}", other),
    };
    assert_eq!(outer.len(), 1);
    match &outer[0] {
        Stmt::While(w) => {
            match &w.condition {
                Expr::Literal(l) => assert_eq!(l.value, Some(Object::Bool(true))),
                other => panic!("{:?}", other),
            }
            match &*w.body {
                Stmt::Block(b) => assert_eq!(b.statements.len(), 1),
                other => panic!("{:?}", other),
            }
        }
        other => panic!("{:?}", other),
    }
}

#[test]
fn function_declaration_keeps_name_parameters_and_body() {
    let statements = parse("fun add(a, b) { def c = a + b; return c; }");
    match &statements[0] {
        Stmt::Function(f) => {
            assert_eq!(f.name.lexeme, "add");
            let names: Vec<&str> = f.params.iter().map(|t| t.lexeme.as_str()).collect();
            assert_eq!(names, vec!["a", "b"]);
            assert_eq!(f.body.len(), 2);
            assert!(matches!(f.body[0], Stmt::Def(_)));
            assert!(matches!(f.body[1], Stmt::Return(_)));
        }
        other => panic!("{:?}", other),
    }
}

#[test]
fn if_with_and_without_else() {
    match &parse("if (a) print 1; else print 2;")[0] {
        Stmt::If(x) => assert!(x.else_branch.is_some()),
        other => panic!("{:?}", other),
    }
    match &parse("if (a) if (b) print 1; else print 2;")[0] {
        Stmt::If(x) => {
            assert!(x.else_branch.is_none());
            match &*x.then_branch {
                Stmt::If(inner) => assert!(inner.else_branch.is_some()),
                other => panic!("{:?}", other),
            }
        }
        other => panic!("{:?}", other),
    }
}

#[test]
fn invalid_assignment_target_is_reported_at_the_equals_sign() {
    assert_eq!(
        errors("1 + 2 = 3;\nprint 4;"),
        vec!["[line 1] Error at '=': Invalid assignment target."]
    );
    let mut parser = Parser::new(tokens("a + b = c; print 4;"));
    let statements = parser.parse_all();
    assert_eq!(statements.len(), 2);
    match &statements[0] {
        Stmt::Expression(x) => assert_eq!(AstPrinter.print(&x.expression).ok().unwrap(), "(+ a b)"),
        other => panic!("{:?}", other),
    }
}

#[test]
fn parser_goes_on_behind_an_error() {
    let mut parser = Parser::new(tokens("print 1 +; print 2; def ; { print 3; }"));
    let statements = parser.parse_all();
    assert_eq!(statements.len(), 2);
    assert!(matches!(statements[0], Stmt::Print(_)));
    assert!(matches!(statements[1], Stmt::Block(_)));
    assert_eq!(parser.errors().len(), 2);
    assert_eq!(
        parser.errors()[0],
        SaturdayResult::ParseError {
            token: Token::new(TokenType::SemiColon, ";".to_string(), None, 1),
            message: "Expect expression.".to_string()
        }
    );
}

#[test]
fn missing_pieces_are_named() {
    assert_eq!(errors("(1 + 2;")[0], "[line 1] Error at ';': Expect ')' after expression.");
    assert_eq!(errors("print 1")[0], "[line 1] Error at '': Expect ';' after value.");
    assert_eq!(errors("1")[0], "[line 1] Error at '': Expect ';' after expression.");
    assert_eq!(errors("def a = 1")[0], "[line 1] Error at '': Expect ';' after variable declaration.");
    assert_eq!(errors("{ print 1;")[0], "[line 1] Error at '': Expect '}' after block.");
    assert_eq!(errors("if a) print 1;")[0], "[line 1] Error at 'a': Expect '(' after 'if'.");
    assert_eq!(errors("if (a print 1;")[0], "[line 1] Error at 'print': Expect ')' after if condition.");
    assert_eq!(errors("while a) print 1;")[0], "[line 1] Error at 'a': Expect '(' after 'while'.");
    assert_eq!(errors("while (a print 1;")[0], "[line 1] Error at 'print': Expect ')' after condition.");
    assert_eq!(errors("for a;;) print 1;")[0], "[line 1] Error at 'a': Expect '(' after 'for'.");
    assert_eq!(errors("for (;a b;) print 1;")[0], "[line 1] Error at 'b': Expect ';' after loop condition.");
    assert_eq!(errors("for (;;a b) print 1;")[0], "[line 1] Error at 'b': Expect ')' after for clauses.");
    assert_eq!(errors("fun (a) {}")[0], "[line 1] Error at '(': Expect function name.");
    assert_eq!(errors("fun f a) {}")[0], "[line 1] Error at 'a': Expect '(' after function name.");
    assert_eq!(errors("fun f(1) {}")[0], "[line 1] Error at '1': Expect parameter name.");
    assert_eq!(errors("fun f(a {}")[0], "[line 1] Error at '{': Expect ')' after parameters.");
    assert_eq!(errors("fun f(a) print 1;")[0], "[line 1] Error at 'print': Expect '{' before function body.");
    assert_eq!(errors("fun f() { return 1 }")[0], "[line 1] Error at '}': Expect ';' after return value.");
    assert_eq!(errors("while (true) break")[0], "[line 1] Error at '': Expect ';' after 'break'.");
    assert_eq!(errors("f(1, 2;")[0], "[line 1] Error at ';': Expect ')' after arguments.");
}

#[test]
fn more_than_255_arguments_are_reported_once_each() {
    let mut source = String::from("f(");
    for i in 0..257 {
        if i > 0 {
            source.push_str(", ");
        }
        source.push_str("0");
    }
    source.push_str(");");
    let found = errors(&source);
    assert_eq!(found.len(), 2);
    assert_eq!(found[0], "[line 1] Error at '0': Can't have more than 255 arguments.");
    let mut parser = Parser::new(tokens(&source));
    let statements = parser.parse_all();
    match &statements[0] {
        Stmt::Expression(x) => match &x.expression {
            Expr::Call(c) => assert_eq!(c.arguments.len(), 257),
            other => panic!("{:?}", other),
        },
        other => panic!("{:?}", other),
    }
}

#[test]
fn more_than_255_parameters_are_reported() {
    let mut source = String::from("fun f(");
    for i in 0..256 {
        if i > 0 {
            source.push_str(", ");
        }
        source.push_str(&format!("p{}", i));
    }
    source.push_str(") {}");
    assert_eq!(
        errors(&source),
        vec!["[line 1] Error at 'p255': Can't have more than 255 parameters."]
    );
}

#[test]
fn two_parses_of_one_stream_agree() {
    let source = "fun f(a) { for (def i = 0; i < a; i = i + 1) print i; return a; } print f(3) + 1;";
    let first = format!("{:?}", parse(source));
    let second = format!("{:?}", parse(source));
    assert_eq!(first, second);
}

#[test]
fn reserved_words_without_a_rule_are_no_expression() {
    assert_eq!(errors("var a = 1;"), vec!["[line 1] Error at 'var': Expect expression."]);
    assert_eq!(errors("class A {}"), vec!["[line 1] Error at 'class': Expect expression."]);
}
