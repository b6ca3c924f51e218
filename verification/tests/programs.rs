use saturday::arithmetic::Arithmetic;
use saturday::error::SaturdayResult;
use saturday::saturday::Saturday;
use saturday::token_type::TokenType;

struct Floats;

fn value(text: &str) -> f64 {
    text.parse().unwrap()
}

impl Arithmetic for Floats {
    fn numeral_of(&self, literal: String) -> String {
        self.numeral(&literal)
    }

    fn calculated(&self, op: TokenType, left: String, right: String) -> String {
        self.calculate(op, &left, &right)
    }

    fn compared(&self, op: TokenType, left: String, right: String) -> bool {
        self.compare(op, &left, &right)
    }

    fn negated(&self, operand: String) -> String {
        self.negate(&operand)
    }

    fn numeral(&self, literal: &str) -> String {
        format!("{}", value(literal))
    }

    fn calculate(&self, op: TokenType, left: &str, right: &str) -> String {
        let (a, b) = (value(left), value(right));
        let r = match op {
            TokenType::Plus => a + b,
            TokenType::Minus => a - b,
            TokenType::Star => a * b,
            TokenType::Slash => a / b,
            _ => unreachable!(),
        };
        format!("{}", r)
    }

    fn compare(&self, op: TokenType, left: &str, right: &str) -> bool {
        let (a, b) = (value(left), value(right));
        match op {
            TokenType::Greater => a > b,
            TokenType::GreaterEqual => a >= b,
            TokenType::Less => a < b,
            TokenType::LessEqual => a <= b,
            TokenType::Equal => a == b,
            TokenType::BangEqual => a != b,
            _ => unreachable!(),
        }
    }

    fn negate(&self, operand: &str) -> String {
        format!("{}", -value(operand))
    }
}

struct Run {
    output: Vec<String>,
    result: Result<(), SaturdayResult>,
    reports: Vec<String>,
    code: u8,
}

fn run_in(session: &mut Saturday, source: &str) -> Run {
    let result = session.run(&Floats, source.to_string());
    let output = session.take_output();
    let reports = session.reports().iter().map(|e| e.report("").unwrap()).collect();
    let code = Saturday::exit_code(&result);
    Run { output, result, reports, code }
}

fn run(source: &str) -> Run {
    run_in(&mut Saturday::new(), source)
}

fn prints(source: &str) -> Vec<String> {
    let r = run(source);
    assert_eq!(r.result, Ok(()), "{:?}", r.reports);
    assert_eq!(r.code, 0);
    r.output
}

#[test]
fn arithmetic_honours_precedence() {
    assert_eq!(prints("print 1 + 2 * 3;"), vec!["7"]);
    assert_eq!(prints("print (1 + 2) * 3;"), vec!["9"]);
    assert_eq!(prints("print 10 - 4 - 3;"), vec!["3"]);
    assert_eq!(prints("print -2 * -3;"), vec!["6"]);
    assert_eq!(prints("print 1 / 4;"), vec!["0.25"]);
    assert_eq!(prints("print 1.50;"), vec!["1.5"]);
}

#[test]
fn inner_declaration_shadows_outer() {
    assert_eq!(
        prints("def a = 1; { def a = 2; print a; } print a;"),
        vec!["2", "1"]
    );
}

#[test]
fn closure_keeps_its_counter() {
    assert_eq!(
        prints(
            "fun mk(){ def i=0; fun inc(){ i = i+1; return i; } return inc; } def c = mk(); print c(); print c(); print c();"
        ),
        vec!["1", "2", "3"]
    );
}

#[test]
fn two_closures_do_not_share_a_counter() {
    assert_eq!(
        prints(
            "fun mk(){ def i=0; fun inc(){ i = i+1; return i; } return inc; } def c = mk(); def d = mk(); print c(); print c(); print d();"
        ),
        vec!["1", "2", "1"]
    );
}

#[test]
fn string_and_number_are_joined() {
    assert_eq!(prints("def x = \"hi\"; print x + 1;"), vec!["hi1"]);
}

#[test]
fn for_loop_counts() {
    assert_eq!(
        prints("for (def i=0; i<3; i = i+1) print i;"),
        vec!["0", "1", "2"]
    );
}

#[test]
fn for_loop_without_clauses_runs_until_break() {
    assert_eq!(
        prints("def i = 0; for (;;) { i = i + 1; if (i == 3) break; } print i;"),
        vec!["3"]
    );
}

#[test]
fn break_leaves_the_loop() {
    assert_eq!(
        prints("def i=0; while (true) { if (i==2) break; i = i+1; } print i;"),
        vec!["2"]
    );
}

#[test]
fn undefined_variable_is_a_runtime_error() {
    let r = run("print a;");
    assert_eq!(r.code, 70);
    assert_eq!(r.reports, vec!["Undefined variable 'a'.\n[line 1]"]);
    assert!(r.output.is_empty());
    match r.result {
        Err(SaturdayResult::RuntimeError { token, message }) => {
            assert_eq!(token.lexeme, "a");
            assert_eq!(message, "Undefined variable 'a'.");
        }
        other => panic!("{:?}", other),
    }
}

#[test]
fn reading_a_variable_in_its_own_initializer_is_a_static_error() {
    let r = run("{ def a = a; }");
    assert_eq!(r.code, 65);
    assert_eq!(
        r.reports,
        vec!["[line 1] Error at 'a': Can't read local variable in its own initializer."]
    );
}

#[test]
fn return_at_top_level_is_a_static_error() {
    let r = run("print 1; return 1;");
    assert_eq!(r.code, 65);
    assert_eq!(
        r.reports,
        vec!["[line 1] Error at 'return': Can't return from top-level code."]
    );
    assert!(r.output.is_empty());
}

#[test]
fn break_outside_a_loop_is_a_static_error() {
    let r = run("break;");
    assert_eq!(r.code, 65);
    assert_eq!(
        r.reports,
        vec!["[line 1] Error at 'break': break statement outside of a while/for loop."]
    );
}

#[test]
fn break_behind_an_inner_loop_is_still_inside_the_outer_loop() {
    assert_eq!(
        prints("def i = 0; while (true) { while (false) {} i = i + 1; if (i == 2) break; } print i;"),
        vec!["2"]
    );
}

#[test]
fn redeclaration_in_a_scope_is_a_static_error() {
    let r = run("{ def a = 1; def a = 2; }");
    assert_eq!(r.code, 65);
    assert_eq!(
        r.reports,
        vec!["[line 1] Error at 'a': Already a variable with this name in this scope."]
    );
    assert_eq!(prints("def a = 1; def a = 2; print a;"), vec!["2"]);
}

#[test]
fn lexical_error_is_a_static_error() {
    let r = run("print 1;\n#\nprint \"a");
    assert_eq!(r.code, 65);
    assert_eq!(
        r.reports,
        vec![
            "[line 2] Error: Unexpected character",
            "[line 3] Error: Unterminated string."
        ]
    );
    assert_eq!(
        r.result,
        Err(SaturdayResult::Error { line: 2, message: "Unexpected character".to_string() })
    );
}

#[test]
fn syntax_errors_are_all_reported() {
    let r = run("print ;\ndef = 3;\nprint 1;");
    assert_eq!(r.code, 65);
    assert_eq!(
        r.reports,
        vec![
            "[line 1] Error at ';': Expect expression.",
            "[line 2] Error at '=': Expect variable name."
        ]
    );
    assert!(r.output.is_empty());
}

#[test]
fn short_circuit_leaves_the_right_operand_alone() {
    assert_eq!(
        prints(
            "def n = 0; fun bump(){ n = n + 1; return true; } print true or bump(); print false and bump(); print n; print false or bump(); print n;"
        ),
        vec!["true", "false", "0", "true", "1"]
    );
}

#[test]
fn zero_and_empty_string_are_true() {
    assert_eq!(
        prints("if (0) print \"zero\"; if (\"\") print \"empty\"; if (nil) print \"nil\"; else print \"not nil\"; if (clock) print \"function\";"),
        vec!["zero", "empty", "not nil", "function"]
    );
}

#[test]
fn scope_is_restored_behind_a_runtime_error() {
    let mut session = Saturday::new();
    assert_eq!(run_in(&mut session, "def a = 1;").code, 0);
    let failed = run_in(&mut session, "{ def a = 2; { def b = 3; print missing; } }");
    assert_eq!(failed.code, 70);
    assert_eq!(session.print_environment(), "{clock = <func>, a = 1}");
    assert_eq!(run_in(&mut session, "print a;").output, vec!["1"]);
}

#[test]
fn definitions_live_from_one_text_to_the_next() {
    let mut session = Saturday::new();
    assert_eq!(
        run_in(&mut session, "fun twice(f, x) { return f(f(x)); } fun inc(x) { return x + 1; }").code,
        0
    );
    assert_eq!(run_in(&mut session, "{ def y = 5; print twice(inc, y); }").output, vec!["7"]);
    assert_eq!(run_in(&mut session, "print twice;").output, vec!["<func>"]);
}

#[test]
fn recursion_works() {
    assert_eq!(
        prints("fun fib(n) { if (n < 2) return n; return fib(n - 1) + fib(n - 2); } print fib(10);"),
        vec!["55"]
    );
}

#[test]
fn function_without_return_gives_nil() {
    assert_eq!(prints("fun f() { def a = 1; } print f();"), vec!["nil"]);
    assert_eq!(prints("fun f() { return; } print f();"), vec!["nil"]);
}

#[test]
fn wrong_number_of_arguments_is_a_runtime_error() {
    let r = run("fun f(a, b) {}\nf(1);");
    assert_eq!(r.code, 70);
    assert_eq!(r.reports, vec!["Expected 2 arguments but got 1.\n[line 2]"]);
}

#[test]
fn assignment_is_an_expression() {
    assert_eq!(prints("def a; def b; a = b = 3; print a; print b; print a = 4;"), vec!["3", "3", "4"]);
}

#[test]
fn assignment_to_an_undefined_variable_is_a_runtime_error() {
    let r = run("a = 1;");
    assert_eq!(r.code, 70);
    assert_eq!(r.reports, vec!["Undefined variable 'a'.\n[line 1]"]);
}

#[test]
fn endless_loop_runs_out_of_budget() {
    let mut session = Saturday::new();
    session.set_budget(100);
    let r = run_in(&mut session, "def i = 0; while (true) i = i + 1; print i;");
    assert_eq!(r.code, 70);
    assert_eq!(r.reports, vec!["System Error: Evaluation budget exhausted."]);
    assert_eq!(run_in(&mut session, "print i > 10;").output, vec!["true"]);
}

#[test]
fn comments_are_passed_over() {
    assert_eq!(
        prints("// nothing\nprint 1; /* a /* nested */ comment */ print 2; // end"),
        vec!["1", "2"]
    );
}

#[test]
fn functions_are_equal_only_to_nil_on_the_left() {
    let r = run("fun f() {} print f == f;");
    assert_eq!(r.code, 70);
    assert_eq!(r.reports, vec!["Illegal expression\n[line 1]"]);
    assert_eq!(prints("fun f() {} print nil == f;"), vec!["false"]);
}

#[test]
fn function_sees_the_variable_that_was_in_scope_at_its_declaration() {
    assert_eq!(
        prints(
            "def a = \"global\"; { fun show() { print a; } show(); def a = \"block\"; show(); print a; }"
        ),
        vec!["global", "global", "block"]
    );
}

#[test]
fn no_program_fails_on_a_record_of_the_resolver() {
    let sources = [
        "{ def a = 1; { def b = 2; { print a + b; a = b; } print a; } }",
        "{ def a = a = 1; print a; }",
        "fun f(n) { if (n > 0) { def m = n - 1; return f(m); } return n; } print f(5);",
        "{ def i = 0; while (i < 3) { def j = i; { fun g() { return j; } i = g() + 1; } } print i; }",
        "for (def i = 0; i < 2; i = i + 1) { for (def j = 0; j < 2; j = j + 1) print i + j; }",
        "{ fun a() { return b(); } fun b() { return 1; } print a; }",
        "{ fun outer() { def x = 1; fun inner() { x = x + 1; return x; } return inner; } print outer()(); }",
        "{ fun a() { return b(); } print a(); }",
        "fun f() { return g; } fun g() {} print f()();",
    ];
    let mut session = Saturday::new();
    for source in sources {
        let r = run_in(&mut session, source);
        assert_ne!(r.result, Err(SaturdayResult::Fail), "{}", source);
    }
}

#[test]
fn assignment_in_the_initializer_of_its_own_variable_binds_it() {
    assert_eq!(prints("{ def a = a = 1; print a; }"), vec!["1"]);
}

#[test]
fn block_in_a_function_sees_parameters_and_locals() {
    assert_eq!(
        prints("fun f(a, b) { def c = a; { def d = b; { return c + d; } } } print f(1, 2);"),
        vec!["3"]
    );
}

#[test]
fn later_text_does_not_disturb_the_records_of_earlier_functions() {
    let mut session = Saturday::new();
    assert_eq!(
        run_in(&mut session, "def show; { def a = 1; fun f() { { def b = a; { return b + a; } } } show = f; }").code,
        0
    );
    assert_eq!(
        run_in(&mut session, "{ def x = 10; { def y = 20; { print x + y; print show(); } } }").output,
        vec!["30", "2"]
    );
}

#[test]
fn every_error_of_the_failing_phase_is_reported_in_order() {
    let mut session = Saturday::new();
    let scanned = run_in(&mut session, "a # b\n@ c");
    assert_eq!(
        session.reports().clone(),
        vec![
            SaturdayResult::Error { line: 1, message: "Unexpected character".to_string() },
            SaturdayResult::Error { line: 2, message: "Unexpected character".to_string() },
        ]
    );
    assert_eq!(scanned.result.err(), Some(session.reports()[0].clone()));
    let resolved = run_in(&mut session, "return 1;\nbreak;");
    assert_eq!(
        resolved.reports,
        vec![
            "[line 1] Error at 'return': Can't return from top-level code.",
            "[line 2] Error at 'break': break statement outside of a while/for loop."
        ]
    );
    let ran = run_in(&mut session, "print 1; print missing; print also_missing;");
    assert_eq!(ran.output, vec!["1"]);
    assert_eq!(ran.reports, vec!["Undefined variable 'missing'.\n[line 1]"]);
    assert!(run_in(&mut session, "print 2;").reports.is_empty());
}

#[test]
fn operands_reach_the_unit_in_their_order() {
    assert_eq!(prints("print 15 - 7; print 7 - 15; print 2 / 8; print 8 / 2;"), vec!["8", "-8", "0.25", "4"]);
    assert_eq!(prints("print 15 <= 15; print 16 <= 15; print 1 < 2; print 2 < 1;"), vec!["true", "false", "true", "false"]);
    assert_eq!(prints("print -(3); print 1.50 + 0;"), vec!["-3", "1.5"]);
}

#[test]
fn the_active_environment_is_written_with_its_bindings() {
    let mut session = Saturday::new();
    assert_eq!(session.print_environment(), "{clock = <func>}");
    assert_eq!(run_in(&mut session, "def a = 1; def s = \"x y\"; def n; a = 2;").code, 0);
    assert_eq!(session.print_environment(), "{clock = <func>, a = 2, s = x y, n = nil}");
}
