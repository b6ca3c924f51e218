use vstd::prelude::*;
use std::collections::HashMap;
use crate::arithmetic::{numbers, Arithmetic, Numbers};
use crate::callable::{Callable, SaturdayCallable};
use crate::environment::{undefined, Environment};
use crate::error::SaturdayResult;
use crate::expr::{
    AssignExpr, BinaryExpr, CallExpr, Expr, GroupingExpr, LiteralExpr, LogicalExpr, UnaryExpr,
    VariableExpr,
};
use crate::native_functions::NativeClock;
use crate::object::Object;
use crate::saturday_function::SaturdayFunction;
use crate::semantics::{
    arity_text, behind, binary_result, bound, calls, decides, evaluates, evaluates_all,
    evaluates_assign, evaluates_binary, evaluates_call, evaluates_logical, evaluates_unary,
    executes, executes_all, executes_block, executes_def, executes_expression, executes_function,
    executes_if, executes_print, executes_return, executes_scope, executes_while, extends, fails,
    given, given2, illegal, interprets, invokes, is_exhausted, is_str, literal_result, printed,
    read_result, unary_result, values, well_formed, write_result, Completion, Outcome, State,
};
use crate::stmt::{
    BlockStmt, BreakStmt, DefStmt, ExpressionStmt, FunctionStmt, IfStmt, PrintStmt, ReturnStmt,
    Stmt, WhileStmt,
};
use crate::text::decimal_text;
use crate::token::Token;
use crate::token_type::TokenType;

verus! {

/// The evaluator: the environments, the functions, the record of the
/// resolver and the lines that the program has printed.
pub struct Interpreter {
    /// The place of the environment of the globals.
    pub globals: usize,
    environment: usize,
    environments: Vec<Environment>,
    functions: Vec<SaturdayFunction>,
    locals: HashMap<u64, usize>,
    output: Vec<String>,
    budget: u64,
}

/// The error of an evaluation that used up what it was allowed.
pub fn exhausted() -> (e: SaturdayResult)
    ensures
        is_exhausted(e),
{
    SaturdayResult::system_error("Evaluation budget exhausted.")
}

fn illegal_expression(operator: &Token) -> (r: Outcome)
    ensures
        illegal(r, *operator),
{
    Err(SaturdayResult::runtime_error(operator, "Illegal expression"))
}

fn joined(left: &String, right: &String) -> (r: Outcome)
    ensures
        is_str(r, left@ + right@),
{
    let mut s = left.clone();
    s.append(right.as_str());
    Ok(Object::Str(s))
}

/// Applies a binary operator to two values.
pub fn binary<A: Arithmetic>(unit: &A, left: &Object, operator: &Token, right: &Object) -> (r:
    Outcome)
    ensures
        binary_result(numbers(unit), *left, *operator, *right, r),
{
    let op = operator.t_type;
    match left {
        Object::Num(x) => match right {
            Object::Num(y) => {
                if op == TokenType::Plus || op == TokenType::Minus || op == TokenType::Star || op
                    == TokenType::Slash {
                    Ok(Object::Num(unit.calculate(op, x.as_str(), y.as_str())))
                } else if op == TokenType::Greater || op == TokenType::GreaterEqual || op
                    == TokenType::Less || op == TokenType::LessEqual || op == TokenType::Equal
                    || op == TokenType::BangEqual {
                    Ok(Object::Bool(unit.compare(op, x.as_str(), y.as_str())))
                } else {
                    illegal_expression(operator)
                }
            },
            Object::Str(y) => {
                if op == TokenType::Plus {
                    joined(x, y)
                } else {
                    illegal_expression(operator)
                }
            },
            _ => illegal_expression(operator),
        },
        Object::Str(x) => match right {
            Object::Num(y) => {
                if op == TokenType::Plus {
                    joined(x, y)
                } else {
                    illegal_expression(operator)
                }
            },
            Object::Str(y) => {
                if op == TokenType::Plus {
                    joined(x, y)
                } else if op == TokenType::BangEqual {
                    Ok(Object::Bool(*x != *y))
                } else if op == TokenType::Equal {
                    Ok(Object::Bool(*x == *y))
                } else {
                    illegal_expression(operator)
                }
            },
            _ => illegal_expression(operator),
        },
        Object::Bool(x) => match right {
            Object::Bool(y) => {
                if op == TokenType::BangEqual {
                    Ok(Object::Bool(*x != *y))
                } else if op == TokenType::Equal {
                    Ok(Object::Bool(*x == *y))
                } else {
                    illegal_expression(operator)
                }
            },
            _ => illegal_expression(operator),
        },
        Object::Nil => {
            let other_is_nil = match right {
                Object::Nil => true,
                _ => false,
            };
            if op == TokenType::BangEqual {
                Ok(Object::Bool(!other_is_nil))
            } else if op == TokenType::Equal {
                Ok(Object::Bool(other_is_nil))
            } else {
                illegal_expression(operator)
            }
        },
        _ => illegal_expression(operator),
    }
}

/// Applies a unary operator to a value.
pub fn unary<A: Arithmetic>(unit: &A, operator: &Token, right: &Object) -> (r: Outcome)
    ensures
        unary_result(numbers(unit), *operator, *right, r),
{
    match operator.t_type {
        TokenType::Minus => match right {
            Object::Num(n) => Ok(Object::Num(unit.negate(n.as_str()))),
            _ => Ok(Object::Nil),
        },
        TokenType::Bang => Ok(Object::Bool(!right.is_truthy())),
        _ => Err(SaturdayResult::error(operator.line, "Unreachable according to Nystrom")),
    }
}

/// Whether the left operand alone decides a logical operation.
pub fn short_circuits(operator: &Token, left: &Object) -> (r: bool)
    ensures
        r == decides(*operator, *left),
{
    if operator.is(TokenType::Or) {
        left.is_truthy()
    } else {
        !left.is_truthy()
    }
}

fn arity_error(paren: &Token, expected: usize, got: usize) -> (r: Outcome)
    ensures
        fails(r, *paren, arity_text(expected as nat, got as nat)),
{
    let mut message = String::from_str("Expected ");
    message.append(decimal_text(expected as u128).as_str());
    message.append(" arguments but got ");
    message.append(decimal_text(got as u128).as_str());
    message.append(".");
    Err(SaturdayResult::RuntimeError { token: paren.dup(), message })
}

fn not_callable(paren: &Token) -> (r: Outcome)
    ensures
        fails(r, *paren, "Can only call function and classes"@),
{
    Err(SaturdayResult::runtime_error(paren, "Can only call function and classes"))
}

impl Interpreter {
    /// The state of this interpreter.
    pub closed spec fn state(&self) -> State {
        State {
            arena: self.environments@,
            functions: self.functions@,
            locals: self.locals@,
            active: self.environment,
            output: self.output@,
        }
    }

    /// What every evaluation is allowed: how deep evaluations may be nested
    /// and how often a loop may be repeated.
    pub closed spec fn allowance(&self) -> nat {
        self.budget as nat
    }

    /// The state is well formed and the globals are the first environment.
    pub closed spec fn wf(&self) -> bool {
        well_formed(self.state()) && self.globals == 0
    }

    /// What every evaluation and every execution leaves behind: a well-formed
    /// interpreter with the same allowance, whose state extends the one before.
    pub open spec fn follows(&self, before: &Interpreter) -> bool {
        &&& self.wf()
        &&& extends(before.state(), self.state())
        &&& self.allowance() == before.allowance()
    }

    /// An interpreter whose only environment holds the globals, in which
    /// `clock` is bound to the builtin clock. Its allowance is the largest there is.
    pub fn new() -> (r: Self)
        ensures
            r.wf(),
            r.allowance() == u64::MAX,
            r.state().active == 0,
            r.state().arena.len() == 1,
            r.state().arena[0].parent() is None,
            r.state().arena[0].bindings() == Map::<Seq<char>, Object>::empty().insert(
                "clock"@,
                Object::Func(Callable::Native(NativeClock)),
            ),
            r.state().functions.len() == 0,
            r.state().locals == Map::<u64, usize>::empty(),
            r.state().output.len() == 0,
    {
        let mut globals = Environment::new();
        globals.define("clock", Object::Func(Callable::Native(NativeClock)));
        let mut environments: Vec<Environment> = Vec::new();
        environments.push(globals);
        Self {
            globals: 0,
            environment: 0,
            environments,
            functions: Vec::new(),
            locals: HashMap::new(),
            output: Vec::new(),
            budget: u64::MAX,
        }
    }

    /// Sets what every evaluation is allowed from now on.
    pub fn set_budget(&mut self, budget: u64)
        ensures
            final(self).state() == old(self).state(),
            final(self).wf() == old(self).wf(),
            final(self).allowance() == budget,
    {
        self.budget = budget;
    }

    /// Hands out the lines printed since the last call, oldest first.
    pub fn take_output(&mut self) -> (lines: Vec<String>)
        ensures
            lines@ == old(self).state().output,
            final(self).state() == (State { output: Seq::empty(), ..old(self).state() }),
            final(self).wf() == old(self).wf(),
            final(self).allowance() == old(self).allowance(),
    {
        let mut lines: Vec<String> = Vec::new();
        core::mem::swap(&mut lines, &mut self.output);
        lines
    }

    /// Records that the variable which the expression `id` uses lies `depth`
    /// environments outward of the one that is active at the expression.
    pub fn resolve(&mut self, id: u64, depth: usize)
        ensures
            final(self).state() == (State {
                locals: old(self).state().locals.insert(id, depth),
                ..old(self).state()
            }),
            final(self).wf() == old(self).wf(),
            final(self).allowance() == old(self).allowance(),
    {
        self.locals.insert(id, depth);
    }

    /// Reads a variable: in the environment at the recorded distance, or
    /// among the globals if the expression has no record.
    pub fn look_up_variable(&self, name: &Token, id: u64) -> (r: Outcome)
        requires
            self.wf(),
        ensures
            read_result(self.state(), *name, id, r),
    {
        match self.locals.get(&id) {
            Some(distance) => Environment::get_at(
                &self.environments,
                self.environment,
                *distance,
                name.lexeme.as_str(),
            ),
            None => match self.environments[0].lookup(name.lexeme.as_str()) {
                Some(value) => Ok(value),
                None => Err(undefined(name)),
            },
        }
    }

    /// Writes the active environment: its variables, then those of the
    /// environment that encloses it, and so on outward.
    pub fn print_environment(&self) -> (s: String)
        requires
            self.wf(),
        ensures
            s@ == self.state().described(),
    {
        Environment::describe_chain(&self.environments, self.environment)
    }

    /// Everything is true but `nil` and `false`.
    pub fn is_truthy(&self, object: &Object) -> (r: bool)
        ensures
            r == object.truthy(),
            r == !(*object is Nil || *object == Object::Bool(false)),
    {
        object.is_truthy()
    }

    /// Assigns to a variable: in the environment at the recorded distance,
    /// or among the globals if the expression has no record.
    pub fn assign_variable(&mut self, name: &Token, id: u64, value: Object) -> (r: Outcome)
        requires
            old(self).wf(),
        ensures
            final(self).follows(old(self)),
            write_result(old(self).state(), *name, id, value, final(self).state(), r),
    {
        let ghost pre = self.state();
        let distance = match self.locals.get(&id) {
            Some(distance) => Some(*distance),
            None => None,
        };
        let copy = value.dup();
        let done = match distance {
            Some(d) => Environment::assign_at(
                &mut self.environments,
                self.environment,
                d,
                name,
                copy,
            ),
            None => Environment::assign(&mut self.environments, 0, name, copy),
        };
        match done {
            Ok(_) => {
                proof {
                    let at = choose|at: int|
                        crate::environment::rebound(
                            pre.arena,
                            self.state().arena,
                            at,
                            name.lexeme@,
                            value,
                        );
                    lemma_rebound_keeps(pre, self.state(), at, name.lexeme@, value);
                }
                Ok(value)
            },
            Err(e) => Err(e),
        }
    }

    /// Binds `name` to `value` in the active environment.
    fn define_here(&mut self, name: &Token, value: Object)
        requires
            old(self).wf(),
        ensures
            final(self).follows(old(self)),
            crate::semantics::defined(
                old(self).state(),
                name.lexeme@,
                value,
                final(self).state(),
            ),
    {
        let ghost pre = self.state();
        let at = self.environment;
        self.environments[at].define(name.lexeme.as_str(), value);
        proof {
            assert(crate::environment::rebound(
                pre.arena,
                self.state().arena,
                at as int,
                name.lexeme@,
                value,
            ));
            lemma_rebound_keeps(pre, self.state(), at as int, name.lexeme@, value);
        }
    }

    /// Evaluates an expression.
    pub fn evaluate<A: Arithmetic>(&mut self, unit: &A, expr: &Expr, fuel: u64) -> (r: Outcome)
        requires
            old(self).wf(),
        ensures
            final(self).follows(old(self)),
            evaluates(numbers(unit), old(self).state(), *expr, fuel as nat, final(self).state(), r),
        decreases fuel, 1nat,
    {
        if fuel == 0 {
            return Err(exhausted());
        }
        let n = fuel - 1;
        match expr {
            Expr::Assign(x) => self.visit_assign_expr(unit, x, n),
            Expr::Binary(x) => self.visit_binary_expr(unit, x, n),
            Expr::Call(x) => self.visit_call_expr(unit, x, n),
            Expr::Grouping(x) => self.visit_grouping_expr(unit, x, n),
            Expr::Literal(x) => self.visit_literal_expr(unit, x),
            Expr::Logical(x) => self.visit_logical_expr(unit, x, n),
            Expr::Unary(x) => self.visit_unary_expr(unit, x, n),
            Expr::Variable(x) => self.visit_variable_expr(x),
        }
    }

    /// Evaluates an assignment.
    pub fn visit_assign_expr<A: Arithmetic>(&mut self, unit: &A, expr: &AssignExpr, fuel: u64) -> (r:
        Outcome)
        requires
            old(self).wf(),
        ensures
            final(self).follows(old(self)),
            evaluates_assign(numbers(unit), old(self).state(), *expr, fuel as nat, final(self).state(), r),
        decreases fuel, 6nat,
    {
        let v = self.evaluate(unit, &expr.value, fuel);
        let ghost mid = self.state();
        assert(given2(mid, v));
        let value = match v {
            Ok(v) => v,
            Err(e) => {
                return Err(e);
            },
        };
        let r = self.assign_variable(&expr.name, expr.id, value);
        proof {
            lemma_extends_trans(old(self).state(), mid, self.state());
        }
        r
    }

    /// Evaluates an operation on two operands: the left one first.
    pub fn visit_binary_expr<A: Arithmetic>(&mut self, unit: &A, expr: &BinaryExpr, fuel: u64) -> (r:
        Outcome)
        requires
            old(self).wf(),
        ensures
            final(self).follows(old(self)),
            evaluates_binary(numbers(unit), old(self).state(), *expr, fuel as nat, final(self).state(), r),
        decreases fuel, 6nat,
    {
        let lv = self.evaluate(unit, &expr.left, fuel);
        let ghost mid = self.state();
        assert(given2(mid, lv));
        let left = match lv {
            Ok(v) => v,
            Err(e) => {
                return Err(e);
            },
        };
        let rv = self.evaluate(unit, &expr.right, fuel);
        assert(given(rv));
        proof {
            lemma_extends_trans(old(self).state(), mid, self.state());
        }
        let right = match rv {
            Ok(v) => v,
            Err(e) => {
                return Err(e);
            },
        };
        binary(unit, &left, &expr.operator, &right)
    }

    /// Evaluates a call: the callee, then the arguments from left to right.
    pub fn visit_call_expr<A: Arithmetic>(&mut self, unit: &A, expr: &CallExpr, fuel: u64) -> (r:
        Outcome)
        requires
            old(self).wf(),
        ensures
            final(self).follows(old(self)),
            evaluates_call(numbers(unit), old(self).state(), *expr, fuel as nat, final(self).state(), r),
        decreases fuel, 6nat,
    {
        let cv = self.evaluate(unit, &expr.callee, fuel);
        let ghost s1 = self.state();
        assert(given2(s1, cv));
        let callee = match cv {
            Ok(v) => v,
            Err(e) => {
                return Err(e);
            },
        };
        let found = self.evaluate_all(unit, &expr.arguments, 0, fuel);
        let ghost s2 = self.state();
        assert(given2(s2, values(found)));
        proof {
            lemma_extends_trans(old(self).state(), s1, s2);
        }
        let arguments = match found {
            Ok(v) => v,
            Err(e) => {
                return Err(e);
            },
        };
        let r = self.call_value(unit, &callee, &expr.paren, arguments, fuel);
        proof {
            lemma_extends_trans(old(self).state(), s2, self.state());
        }
        r
    }

    /// Evaluates the expressions from index `i` on, in turn.
    pub fn evaluate_all<A: Arithmetic>(&mut self, unit: &A, es: &Vec<Expr>, i: usize, fuel: u64) -> (r:
        Result<Vec<Object>, SaturdayResult>)
        requires
            old(self).wf(),
        ensures
            final(self).follows(old(self)),
            evaluates_all(
                numbers(unit),
                old(self).state(),
                es@,
                i as int,
                fuel as nat,
                final(self).state(),
                values(r),
            ),
        decreases fuel, 2nat,
    {
        let ghost init = self.state();
        let ghost num = numbers(unit);
        let mut found: Vec<Object> = Vec::new();
        let mut j = i;
        let mut k = fuel;
        loop
            invariant
                self.follows(old(self)),
                init == old(self).state(),
                num == numbers(unit),
                k <= fuel,
                forall|post: State, rest: Result<Seq<Object>, SaturdayResult>| #[trigger]
                    evaluates_all(num, self.state(), es@, j as int, k as nat, post, rest)
                        ==> evaluates_all(
                        num,
                        init,
                        es@,
                        i as int,
                        fuel as nat,
                        post,
                        behind(found@, rest),
                    ),
            decreases es@.len() - j,
        {
            let ghost s0 = self.state();
            if j >= es.len() {
                proof {
                    let none = Ok::<Seq<Object>, SaturdayResult>(Seq::empty());
                    assert(evaluates_all(num, s0, es@, j as int, k as nat, s0, none));
                    assert(found@ + Seq::<Object>::empty() =~= found@);
                }
                return Ok(found);
            }
            if k == 0 {
                let e = exhausted();
                assert(evaluates_all(
                    num,
                    s0,
                    es@,
                    j as int,
                    0,
                    s0,
                    Err::<Seq<Object>, SaturdayResult>(e),
                ));
                return Err(e);
            }
            let v = self.evaluate(unit, &es[j], k);
            let ghost mid = self.state();
            assert(given2(mid, v));
            proof {
                lemma_extends_trans(init, s0, mid);
            }
            let first = match v {
                Ok(v) => v,
                Err(e) => {
                    assert(evaluates_all(
                        num,
                        s0,
                        es@,
                        j as int,
                        k as nat,
                        mid,
                        Err::<Seq<Object>, SaturdayResult>(e),
                    ));
                    return Err(e);
                },
            };
            proof {
                let before = found@;
                assert forall|post: State, rest: Result<Seq<Object>, SaturdayResult>| #[trigger]
                    evaluates_all(
                        num,
                        mid,
                        es@,
                        j + 1,
                        (k - 1) as nat,
                        post,
                        rest,
                    ) implies evaluates_all(
                    num,
                    init,
                    es@,
                    i as int,
                    fuel as nat,
                    post,
                    behind(before.push(first), rest),
                ) by {
                    assert(given(rest));
                    let whole = behind(seq![first], rest);
                    assert(evaluates_all(num, s0, es@, j as int, k as nat, post, whole));
                    match rest {
                        Ok(others) => {
                            assert(before + (seq![first] + others) =~= before.push(first)
                                + others);
                        },
                        Err(_) => {},
                    }
                }
            }
            found.push(first);
            j = j + 1;
            k = k - 1;
        }
    }

    /// Calls a value with arguments.
    pub fn call_value<A: Arithmetic>(
        &mut self,
        unit: &A,
        callee: &Object,
        paren: &Token,
        arguments: Vec<Object>,
        fuel: u64,
    ) -> (r: Outcome)
        requires
            old(self).wf(),
        ensures
            final(self).follows(old(self)),
            invokes(
                numbers(unit),
                old(self).state(),
                *callee,
                *paren,
                arguments@,
                fuel as nat,
                final(self).state(),
                r,
            ),
        decreases fuel, 5nat,
    {
        match callee {
            Object::Func(Callable::Native(clock)) => {
                if arguments.len() != clock.arity() {
                    return arity_error(paren, 0, arguments.len());
                }
                clock.call(self, unit, arguments, fuel)
            },
            Object::Func(Callable::Function(index)) => {
                let i = *index;
                if i < self.functions.len() {
                    let function = self.functions[i].dup();
                    if arguments.len() != function.arity() {
                        return arity_error(paren, function.arity(), arguments.len());
                    }
                    function.call(self, unit, arguments, fuel)
                } else {
                    not_callable(paren)
                }
            },
            _ => not_callable(paren),
        }
    }

    /// Evaluates the expression in the parentheses.
    pub fn visit_grouping_expr<A: Arithmetic>(&mut self, unit: &A, expr: &GroupingExpr, fuel: u64) -> (r:
        Outcome)
        requires
            old(self).wf(),
        ensures
            final(self).follows(old(self)),
            evaluates(numbers(unit), old(self).state(), *expr.expression, fuel as nat, final(self).state(), r),
        decreases fuel, 6nat,
    {
        self.evaluate(unit, &expr.expression, fuel)
    }

    /// Evaluates a literal.
    pub fn visit_literal_expr<A: Arithmetic>(&self, unit: &A, expr: &LiteralExpr) -> (r: Outcome)
        ensures
            literal_result(numbers(unit), expr.value, r),
    {
        match &expr.value {
            Some(Object::Num(n)) => Ok(Object::Num(unit.numeral(n.as_str()))),
            Some(Object::ArithmeticError) => Ok(Object::Nil),
            Some(value) => Ok(value.dup()),
            None => Ok(Object::Nil),
        }
    }

    /// Evaluates `and` or `or`: the right operand only if the left one does not decide.
    pub fn visit_logical_expr<A: Arithmetic>(&mut self, unit: &A, expr: &LogicalExpr, fuel: u64) -> (r:
        Outcome)
        requires
            old(self).wf(),
        ensures
            final(self).follows(old(self)),
            evaluates_logical(numbers(unit), old(self).state(), *expr, fuel as nat, final(self).state(), r),
        decreases fuel, 6nat,
    {
        let lv = self.evaluate(unit, &expr.left, fuel);
        let ghost mid = self.state();
        assert(given2(mid, lv));
        let left = match lv {
            Ok(v) => v,
            Err(e) => {
                return Err(e);
            },
        };
        if short_circuits(&expr.operator, &left) {
            return Ok(left);
        }
        let r = self.evaluate(unit, &expr.right, fuel);
        proof {
            lemma_extends_trans(old(self).state(), mid, self.state());
        }
        r
    }

    /// Evaluates an operation on one operand.
    pub fn visit_unary_expr<A: Arithmetic>(&mut self, unit: &A, expr: &UnaryExpr, fuel: u64) -> (r:
        Outcome)
        requires
            old(self).wf(),
        ensures
            final(self).follows(old(self)),
            evaluates_unary(numbers(unit), old(self).state(), *expr, fuel as nat, final(self).state(), r),
        decreases fuel, 6nat,
    {
        let v = self.evaluate(unit, &expr.right, fuel);
        assert(given(v));
        let right = match v {
            Ok(v) => v,
            Err(e) => {
                return Err(e);
            },
        };
        unary(unit, &expr.operator, &right)
    }

    /// Evaluates the use of a variable.
    pub fn visit_variable_expr(&self, expr: &VariableExpr) -> (r: Outcome)
        requires
            self.wf(),
        ensures
            read_result(self.state(), expr.name, expr.id, r),
    {
        self.look_up_variable(&expr.name, expr.id)
    }

    /// Executes the statements with `environment` as the active environment,
    /// and makes the environment that was active before active again.
    pub fn execute_block<A: Arithmetic>(
        &mut self,
        unit: &A,
        statements: &Vec<Stmt>,
        environment: Environment,
        fuel: u64,
    ) -> (r: Completion)
        requires
            old(self).wf(),
            match environment.parent() {
                Some(p) => p < old(self).state().arena.len(),
                None => true,
            },
        ensures
            final(self).follows(old(self)),
            executes_block(
                numbers(unit),
                old(self).state(),
                statements@,
                environment,
                fuel as nat,
                final(self).state(),
                r,
            ),
        decreases fuel, 3nat,
    {
        let previous = self.environment;
        self.environments.push(environment);
        self.environment = self.environments.len() - 1;
        let ghost entered = self.state();
        assert(entered == old(self).state().entered(environment));
        let result = self.execute_all(unit, statements, 0, fuel);
        let ghost inner = self.state();
        assert(given(inner));
        self.environment = previous;
        assert(self.state() == inner.back_in(old(self).state().active));
        result
    }

    /// Executes the statements from index `i` on, in turn.
    pub fn execute_all<A: Arithmetic>(&mut self, unit: &A, statements: &Vec<Stmt>, i: usize, fuel: u64) -> (r:
        Completion)
        requires
            old(self).wf(),
        ensures
            final(self).follows(old(self)),
            executes_all(
                numbers(unit),
                old(self).state(),
                statements@,
                i as int,
                fuel as nat,
                final(self).state(),
                r,
            ),
        decreases fuel, 2nat,
    {
        let ghost init = self.state();
        let ghost num = numbers(unit);
        let mut j = i;
        let mut k = fuel;
        loop
            invariant
                self.follows(old(self)),
                init == old(self).state(),
                num == numbers(unit),
                k <= fuel,
                forall|post: State, r: Completion| #[trigger]
                    executes_all(num, self.state(), statements@, j as int, k as nat, post, r)
                        ==> executes_all(num, init, statements@, i as int, fuel as nat, post, r),
            decreases statements@.len() - j,
        {
            let ghost s0 = self.state();
            if j >= statements.len() {
                assert(executes_all(
                    num,
                    s0,
                    statements@,
                    j as int,
                    k as nat,
                    s0,
                    Ok::<(), SaturdayResult>(()),
                ));
                return Ok(());
            }
            if k == 0 {
                let e = exhausted();
                assert(executes_all(
                    num,
                    s0,
                    statements@,
                    j as int,
                    0,
                    s0,
                    Err::<(), SaturdayResult>(e),
                ));
                return Err(e);
            }
            let first = self.execute(unit, &statements[j], k);
            let ghost mid = self.state();
            assert(given2(mid, first));
            proof {
                lemma_extends_trans(init, s0, mid);
            }
            match first {
                Ok(_) => {},
                Err(e) => {
                    assert(executes_all(
                        num,
                        s0,
                        statements@,
                        j as int,
                        k as nat,
                        mid,
                        Err::<(), SaturdayResult>(e),
                    ));
                    return Err(e);
                },
            }
            proof {
                assert forall|post: State, r: Completion| #[trigger]
                    executes_all(
                        num,
                        mid,
                        statements@,
                        j + 1,
                        (k - 1) as nat,
                        post,
                        r,
                    ) implies executes_all(num, init, statements@, i as int, fuel as nat, post, r) by {
                    assert(executes_all(num, s0, statements@, j as int, k as nat, post, r));
                }
            }
            j = j + 1;
            k = k - 1;
        }
    }

    /// Executes a statement.
    pub fn execute<A: Arithmetic>(&mut self, unit: &A, stmt: &Stmt, fuel: u64) -> (r: Completion)
        requires
            old(self).wf(),
        ensures
            final(self).follows(old(self)),
            executes(numbers(unit), old(self).state(), *stmt, fuel as nat, final(self).state(), r),
        decreases fuel, 1nat,
    {
        if fuel == 0 {
            return Err(exhausted());
        }
        let n = fuel - 1;
        match stmt {
            Stmt::Block(x) => self.visit_block_stmt(unit, x, n),
            Stmt::Break(x) => self.visit_break_stmt(x),
            Stmt::Expression(x) => self.visit_expression_stmt(unit, x, n),
            Stmt::Function(x) => self.visit_function_stmt(x),
            Stmt::If(x) => self.visit_if_stmt(unit, x, n),
            Stmt::Print(x) => self.visit_print_stmt(unit, x, n),
            Stmt::Return(x) => self.visit_return_stmt(unit, x, n),
            Stmt::Def(x) => self.visit_def_stmt(unit, x, n),
            Stmt::While(x) => self.visit_while_stmt(unit, x, n),
        }
    }

    /// Executes a block in a new environment inside the active one.
    pub fn visit_block_stmt<A: Arithmetic>(&mut self, unit: &A, stmt: &BlockStmt, fuel: u64) -> (r:
        Completion)
        requires
            old(self).wf(),
        ensures
            final(self).follows(old(self)),
            executes_scope(
                numbers(unit),
                old(self).state(),
                stmt.statements@,
                fuel as nat,
                final(self).state(),
                r,
            ),
        decreases fuel, 6nat,
    {
        let e = Environment::new_with_enclosing(self.environment);
        assert(given(e));
        self.execute_block(unit, &stmt.statements, e, fuel)
    }

    /// Executes a `break`: the signal that ends the loop around it.
    pub fn visit_break_stmt(&self, stmt: &BreakStmt) -> (r: Completion)
        ensures
            r == Err::<(), SaturdayResult>(SaturdayResult::Break),
    {
        Err(SaturdayResult::Break)
    }

    /// Executes an expression statement.
    pub fn visit_expression_stmt<A: Arithmetic>(
        &mut self,
        unit: &A,
        stmt: &ExpressionStmt,
        fuel: u64,
    ) -> (r: Completion)
        requires
            old(self).wf(),
        ensures
            final(self).follows(old(self)),
            executes_expression(
                numbers(unit),
                old(self).state(),
                stmt.expression,
                fuel as nat,
                final(self).state(),
                r,
            ),
        decreases fuel, 6nat,
    {
        let v = self.evaluate(unit, &stmt.expression, fuel);
        assert(given(v));
        match v {
            Ok(_) => Ok(()),
            Err(e) => Err(e),
        }
    }

    /// Executes the declaration of a function.
    pub fn visit_function_stmt(&mut self, stmt: &FunctionStmt) -> (r: Completion)
        requires
            old(self).wf(),
        ensures
            final(self).follows(old(self)),
            executes_function(old(self).state(), *stmt, final(self).state(), r),
    {
        let function = SaturdayFunction::new(stmt, self.environment);
        let index = self.functions.len();
        self.functions.push(function);
        assert(self.functions.len() == index + 1);
        let ghost made = self.state();
        assert(made == State {
            functions: old(self).state().functions.push(function),
            ..old(self).state()
        });
        self.define_here(&stmt.name, Object::Func(Callable::Function(index)));
        proof {
            lemma_extends_trans(old(self).state(), made, self.state());
        }
        Ok(())
    }

    /// Executes an `if`.
    pub fn visit_if_stmt<A: Arithmetic>(&mut self, unit: &A, stmt: &IfStmt, fuel: u64) -> (r:
        Completion)
        requires
            old(self).wf(),
        ensures
            final(self).follows(old(self)),
            executes_if(numbers(unit), old(self).state(), *stmt, fuel as nat, final(self).state(), r),
        decreases fuel, 6nat,
    {
        let v = self.evaluate(unit, &stmt.condition, fuel);
        let ghost mid = self.state();
        assert(given2(mid, v));
        let condition = match v {
            Ok(v) => v,
            Err(e) => {
                return Err(e);
            },
        };
        let r = if self.is_truthy(&condition) {
            self.execute(unit, &stmt.then_branch, fuel)
        } else {
            match &stmt.else_branch {
                Some(other) => self.execute(unit, other, fuel),
                None => Ok(()),
            }
        };
        proof {
            lemma_extends_trans(old(self).state(), mid, self.state());
        }
        r
    }

    /// Executes a `print`: the text of the value is one more line of output.
    pub fn visit_print_stmt<A: Arithmetic>(&mut self, unit: &A, stmt: &PrintStmt, fuel: u64) -> (r:
        Completion)
        requires
            old(self).wf(),
        ensures
            final(self).follows(old(self)),
            executes_print(
                numbers(unit),
                old(self).state(),
                stmt.expression,
                fuel as nat,
                final(self).state(),
                r,
            ),
        decreases fuel, 6nat,
    {
        let v = self.evaluate(unit, &stmt.expression, fuel);
        let ghost mid = self.state();
        assert(given2(mid, v));
        let value = match v {
            Ok(v) => v,
            Err(e) => {
                return Err(e);
            },
        };
        self.output.push(value.to_string());
        proof {
            assert(self.state().output.drop_last() =~= mid.output);
            assert(printed(mid, value, self.state()));
            lemma_extends_trans(old(self).state(), mid, self.state());
        }
        Ok(())
    }

    /// Executes a `return`: the signal that carries the value to the call.
    pub fn visit_return_stmt<A: Arithmetic>(&mut self, unit: &A, stmt: &ReturnStmt, fuel: u64) -> (r:
        Completion)
        requires
            old(self).wf(),
        ensures
            final(self).follows(old(self)),
            executes_return(numbers(unit), old(self).state(), *stmt, fuel as nat, final(self).state(), r),
        decreases fuel, 6nat,
    {
        match &stmt.value {
            Some(value) => {
                let v = self.evaluate(unit, value, fuel);
                assert(given(v));
                match v {
                    Ok(v) => Err(SaturdayResult::return_value(v)),
                    Err(e) => Err(e),
                }
            },
            None => Err(SaturdayResult::return_value(Object::Nil)),
        }
    }

    /// Executes the declaration of a variable.
    pub fn visit_def_stmt<A: Arithmetic>(&mut self, unit: &A, stmt: &DefStmt, fuel: u64) -> (r:
        Completion)
        requires
            old(self).wf(),
        ensures
            final(self).follows(old(self)),
            executes_def(numbers(unit), old(self).state(), *stmt, fuel as nat, final(self).state(), r),
        decreases fuel, 6nat,
    {
        let value = match &stmt.initializer {
            Some(initializer) => {
                let v = self.evaluate(unit, initializer, fuel);
                assert(given2(self.state(), v));
                match v {
                    Ok(v) => v,
                    Err(e) => {
                        return Err(e);
                    },
                }
            },
            None => Object::Nil,
        };
        let ghost mid = self.state();
        self.define_here(&stmt.name, value);
        proof {
            lemma_extends_trans(old(self).state(), mid, self.state());
        }
        Ok(())
    }

    /// Executes a loop.
    pub fn visit_while_stmt<A: Arithmetic>(&mut self, unit: &A, stmt: &WhileStmt, fuel: u64) -> (r:
        Completion)
        requires
            old(self).wf(),
        ensures
            final(self).follows(old(self)),
            executes_while(numbers(unit), old(self).state(), *stmt, fuel as nat, final(self).state(), r),
        decreases fuel, 6nat,
    {
        let ghost init = self.state();
        let mut k = fuel;
        loop
            invariant
                self.follows(old(self)),
                init == old(self).state(),
                k <= fuel,
                forall|post: State, r: Completion| #[trigger]
                    executes_while(numbers(unit), self.state(), *stmt, k as nat, post, r) ==> executes_while(
                        numbers(unit),
                        init,
                        *stmt,
                        fuel as nat,
                        post,
                        r,
                    ),
            decreases k,
        {
            let ghost s0 = self.state();
            if k == 0 {
                let e = exhausted();
                assert(executes_while(numbers(unit), s0, *stmt, 0, s0, Err::<(), SaturdayResult>(e)));
                return Err(e);
            }
            let m = k - 1;
            let cv = self.evaluate(unit, &stmt.condition, m);
            assert(given2(self.state(), cv));
            let condition = match cv {
                Ok(v) => v,
                Err(e) => {
                    proof {
                        lemma_extends_trans(init, s0, self.state());
                        assert(executes_while(
                            numbers(unit),
                            s0,
                            *stmt,
                            k as nat,
                            self.state(),
                            Err::<(), SaturdayResult>(e),
                        ));
                    }
                    return Err(e);
                },
            };
            let ghost s1 = self.state();
            proof {
                lemma_extends_trans(init, s0, s1);
            }
            if !self.is_truthy(&condition) {
                assert(executes_while(numbers(unit), s0, *stmt, k as nat, s1, Ok::<(), SaturdayResult>(())));
                return Ok(());
            }
            let body = self.execute(unit, &stmt.body, m);
            let ghost s2 = self.state();
            assert(given2(s2, body));
            proof {
                lemma_extends_trans(init, s1, s2);
            }
            match body {
                Err(SaturdayResult::Break) => {
                    assert(executes_while(numbers(unit), s0, *stmt, k as nat, s2, Ok::<(), SaturdayResult>(())));
                    return Ok(());
                },
                Err(e) => {
                    assert(executes_while(numbers(unit), s0, *stmt, k as nat, s2, Err::<(), SaturdayResult>(e)));
                    return Err(e);
                },
                Ok(_) => {},
            }
            proof {
                assert forall|post: State, r: Completion| #[trigger]
                    executes_while(numbers(unit), s2, *stmt, m as nat, post, r) implies executes_while(
                    numbers(unit),
                    init,
                    *stmt,
                    fuel as nat,
                    post,
                    r,
                ) by {
                    assert(executes_while(numbers(unit), s0, *stmt, k as nat, post, r));
                }
            }
            k = m;
        }
    }

    /// Executes the statements of a program in turn, each with the whole
    /// allowance, and stops at the first that fails.
    pub fn interpreter<A: Arithmetic>(&mut self, unit: &A, statements: &Vec<Stmt>) -> (r: Completion)
        requires
            old(self).wf(),
        ensures
            final(self).follows(old(self)),
            interprets(
                numbers(unit),
                old(self).state(),
                statements@,
                0,
                old(self).allowance(),
                final(self).state(),
                r,
            ),
    {
        let ghost init = self.state();
        let ghost fuel = self.budget as nat;
        let mut i: usize = 0;
        while i < statements.len()
            invariant
                self.follows(old(self)),
                init == old(self).state(),
                fuel == old(self).allowance(),
                i <= statements@.len(),
                forall|post: State, r: Completion| #[trigger]
                    interprets(numbers(unit), self.state(), statements@, i as int, fuel, post, r) ==> interprets(
                        numbers(unit),
                        init,
                        statements@,
                        0,
                        fuel,
                        post,
                        r,
                    ),
            decreases statements@.len() - i,
        {
            let ghost s0 = self.state();
            let budget = self.budget;
            let first = self.execute(unit, &statements[i], budget);
            assert(given2(self.state(), first));
            match first {
                Ok(_) => {},
                Err(e) => {
                    proof {
                        lemma_extends_trans(init, s0, self.state());
                        assert(interprets(
                            numbers(unit),
                            s0,
                            statements@,
                            i as int,
                            fuel,
                            self.state(),
                            Err::<(), SaturdayResult>(e),
                        ));
                    }
                    return Err(e);
                },
            }
            proof {
                let s1 = self.state();
                lemma_extends_trans(init, s0, s1);
                assert forall|post: State, r: Completion| #[trigger]
                    interprets(numbers(unit), s1, statements@, i + 1, fuel, post, r) implies interprets(
                    numbers(unit),
                    init,
                    statements@,
                    0,
                    fuel,
                    post,
                    r,
                ) by {
                    assert(interprets(numbers(unit), s0, statements@, i as int, fuel, post, r));
                }
            }
            i = i + 1;
        }
        assert(interprets(numbers(unit), self.state(), statements@, i as int, fuel, self.state(), Ok::<(), SaturdayResult>(())));
        Ok(())
    }
}

impl SaturdayCallable for SaturdayFunction {
    /// A function can be called where its closure exists, with as many
    /// arguments as it has parameters.
    open spec fn accepts(&self, s: State, arguments: Seq<Object>) -> bool {
        self.closure < s.arena.len() && arguments.len() == self.params@.len()
    }

    /// The body runs in a new environment inside the closure, in which the
    /// parameters are bound to the arguments.
    open spec fn called(
        &self,
        num: Numbers,
        pre: State,
        arguments: Seq<Object>,
        fuel: nat,
        post: State,
        r: Outcome,
    ) -> bool {
        calls(num, pre, *self, arguments, fuel, post, r)
    }

    open spec fn parameters(&self) -> nat {
        self.params@.len()
    }

    /// A function is called as it was declared.
    open spec fn named(&self) -> Seq<char> {
        self.name.lexeme@
    }

    fn call<A: Arithmetic>(
        &self,
        interpreter: &mut Interpreter,
        unit: &A,
        arguments: Vec<Object>,
        fuel: u64,
    ) -> (r: Outcome)
        decreases fuel, 4nat,
    {
        let mut e = Environment::new_with_enclosing(self.closure);
        let mut i: usize = 0;
        while i < self.params.len()
            invariant
                i <= self.params@.len(),
                arguments@.len() == self.params@.len(),
                e.parent() == Some(self.closure),
                e.bindings() == bound(self.params@, arguments@, i as nat),
            decreases self.params@.len() - i,
        {
            e.define(self.params[i].lexeme.as_str(), arguments[i].dup());
            i = i + 1;
        }
        let ghost env = e;
        let body = interpreter.execute_block(unit, &self.body, e, fuel);
        assert(given2(env, body));
        match body {
            Err(SaturdayResult::ReturnValue { value }) => Ok(value),
            Err(e) => Err(e),
            Ok(_) => Ok(Object::Nil),
        }
    }

    fn arity(&self) -> (n: usize) {
        self.params.len()
    }

    fn to_string(&self) -> (s: String) {
        self.name.as_string()
    }
}

/// Binding a name in one environment keeps a state well formed and extends it.
pub proof fn lemma_rebound_keeps(pre: State, post: State, at: int, name: Seq<char>, value: Object)
    requires
        well_formed(pre),
        crate::environment::rebound(pre.arena, post.arena, at, name, value),
        post == (State { arena: post.arena, ..pre }),
    ensures
        well_formed(post),
        extends(pre, post),
{
    assert forall|i: int| 0 <= i < post.arena.len() implies match (#[trigger] post.arena[i]).parent() {
        Some(p) => p < i,
        None => true,
    } by {
        if i != at {
            assert(post.arena[i] == pre.arena[i]);
        }
        assert(post.arena[i].parent() == pre.arena[i].parent());
    }
    assert forall|i: int| 0 <= i < pre.arena.len() implies (#[trigger] post.arena[i]).parent()
        == pre.arena[i].parent() by {
        if i != at {
            assert(post.arena[i] == pre.arena[i]);
        }
    }
}

/// What one extension and then another keep, both together keep.
pub proof fn lemma_extends_trans(a: State, b: State, c: State)
    requires
        extends(a, b),
        extends(b, c),
    ensures
        extends(a, c),
{
    assert forall|i: int| 0 <= i < a.arena.len() implies (#[trigger] c.arena[i]).parent()
        == a.arena[i].parent() by {
        assert(c.arena[i].parent() == b.arena[i].parent());
    }
    assert forall|i: int| 0 <= i < a.functions.len() implies #[trigger] c.functions[i]
        == a.functions[i] by {
        assert(c.functions[i] == b.functions[i]);
    }
    assert forall|i: int| 0 <= i < a.output.len() implies #[trigger] c.output[i] == a.output[i] by {
        assert(c.output[i] == b.output[i]);
    }
}

} // verus!
