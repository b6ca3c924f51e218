use vstd::prelude::*;
use crate::arithmetic::{is_calculation, is_comparison, Numbers};
use crate::callable::Callable;
use crate::environment::{ancestor, described_chain, found_at, is_undefined, rebound, Environment};
use crate::error::SaturdayResult;
use crate::expr::{AssignExpr, BinaryExpr, CallExpr, Expr, LogicalExpr, UnaryExpr};
use crate::object::Object;
use crate::saturday_function::SaturdayFunction;
use crate::stmt::{DefStmt, FunctionStmt, IfStmt, ReturnStmt, Stmt, WhileStmt};
use crate::text::decimal;
use crate::token::Token;
use crate::token_type::TokenType;

verus! {

/// The state of an interpreter.
pub struct State {
    /// Every environment made so far. The first one holds the globals.
    pub arena: Seq<Environment>,
    /// Every function made so far.
    pub functions: Seq<SaturdayFunction>,
    /// The distances that the resolver recorded, by the identity of the expression.
    pub locals: Map<u64, usize>,
    /// The place of the active environment.
    pub active: usize,
    /// The lines printed so far.
    pub output: Seq<String>,
}

/// What an evaluation ends with: a value or the reason why there is none.
pub type Outcome = Result<Object, SaturdayResult>;

/// What an execution ends with: nothing, or the reason why it ended early.
pub type Completion = Result<(), SaturdayResult>;

impl State {
    /// This state with `env` as a new environment, which is made the active one.
    pub open spec fn entered(self, env: Environment) -> State {
        State { arena: self.arena.push(env), active: self.arena.len() as usize, ..self }
    }

    /// How the active environment is written: its variables, then those of
    /// the environment that encloses it, and so on outward.
    pub open spec fn described(self) -> Seq<char> {
        described_chain(self.arena, self.active as int)
    }

    /// This state with the environment at `active` made the active one.
    pub open spec fn back_in(self, active: usize) -> State {
        State { active, ..self }
    }
}

/// Names the states and results that a rule speaks of. It is always true:
/// its only use is to tell the verifier which ones to try.
pub open spec fn given<A>(a: A) -> bool {
    true
}

/// As `given`, for two things.
pub open spec fn given2<A, B>(a: A, b: B) -> bool {
    true
}

/// The message of an evaluation that used up what it was allowed.
pub open spec fn exhausted_text() -> Seq<char> {
    "Evaluation budget exhausted."@
}

/// Whether `e` is the error of an evaluation that used up what it was allowed.
pub open spec fn is_exhausted(e: SaturdayResult) -> bool {
    e matches SaturdayResult::SystemError { message } && message@ == exhausted_text()
}

/// Whether `e` is the runtime error with the message `text` at the token `at`.
pub open spec fn is_runtime_error(e: SaturdayResult, at: Token, text: Seq<char>) -> bool {
    e matches SaturdayResult::RuntimeError { token, message } && token == at && message@ == text
}

/// Whether `r` is the error of an evaluation that used up what it was allowed.
pub open spec fn out_of_fuel<T>(r: Result<T, SaturdayResult>) -> bool {
    r matches Err(e) && is_exhausted(e)
}

/// Whether `r` is the runtime error with the message `text` at the token `at`.
pub open spec fn fails(r: Outcome, at: Token, text: Seq<char>) -> bool {
    r matches Err(e) && is_runtime_error(e, at, text)
}

/// Whether `r` is the runtime error "Illegal expression" at the operator.
pub open spec fn illegal(r: Outcome, operator: Token) -> bool {
    r matches Err(e) && is_runtime_error(e, operator, "Illegal expression"@)
}

/// Whether `r` is the string that spells `text`.
pub open spec fn is_str(r: Outcome, text: Seq<char>) -> bool {
    r matches Ok(Object::Str(s)) && s@ == text
}

/// What a binary operator makes of two values.
///
/// The value of a number is not known here: where two numbers meet, the
/// result is what the arithmetic unit answers for the operator, the left
/// operand and the right operand, in this order.
pub open spec fn binary_result(
    num: Numbers,
    left: Object,
    operator: Token,
    right: Object,
    r: Outcome,
) -> bool {
    let op = operator.t_type;
    match (left, right) {
        (Object::Num(x), Object::Num(y)) => if is_calculation(op) {
            r matches Ok(Object::Num(n)) && n@ == (num.calculated)(op, x@, y@)
        } else if is_comparison(op) {
            r == Ok::<Object, SaturdayResult>(Object::Bool((num.compared)(op, x@, y@)))
        } else {
            illegal(r, operator)
        },
        (Object::Num(x), Object::Str(y)) => if op == TokenType::Plus {
            is_str(r, x@ + y@)
        } else {
            illegal(r, operator)
        },
        (Object::Str(x), Object::Num(y)) => if op == TokenType::Plus {
            is_str(r, x@ + y@)
        } else {
            illegal(r, operator)
        },
        (Object::Str(x), Object::Str(y)) => if op == TokenType::Plus {
            is_str(r, x@ + y@)
        } else if op == TokenType::BangEqual {
            r == Ok::<Object, SaturdayResult>(Object::Bool(x@ != y@))
        } else if op == TokenType::Equal {
            r == Ok::<Object, SaturdayResult>(Object::Bool(x@ == y@))
        } else {
            illegal(r, operator)
        },
        (Object::Bool(x), Object::Bool(y)) => if op == TokenType::BangEqual {
            r == Ok::<Object, SaturdayResult>(Object::Bool(x != y))
        } else if op == TokenType::Equal {
            r == Ok::<Object, SaturdayResult>(Object::Bool(x == y))
        } else {
            illegal(r, operator)
        },
        (Object::Nil, other) => if op == TokenType::BangEqual {
            r == Ok::<Object, SaturdayResult>(Object::Bool(!(other is Nil)))
        } else if op == TokenType::Equal {
            r == Ok::<Object, SaturdayResult>(Object::Bool(other is Nil))
        } else {
            illegal(r, operator)
        },
        _ => illegal(r, operator),
    }
}

/// What a unary operator makes of a value. Minus on a number gives what
/// the arithmetic unit answers for the operand; on anything else it gives `nil`.
pub open spec fn unary_result(
    num: Numbers,
    operator: Token,
    right: Object,
    r: Outcome,
) -> bool {
    match operator.t_type {
        TokenType::Minus => match right {
            Object::Num(x) => r matches Ok(Object::Num(n)) && n@ == (num.negated)(x@),
            _ => r == Ok::<Object, SaturdayResult>(Object::Nil),
        },
        TokenType::Bang => r == Ok::<Object, SaturdayResult>(Object::Bool(!right.truthy())),
        _ => r matches Err(SaturdayResult::Error { line, message }) && line == operator.line
            && message@ == "Unreachable according to Nystrom"@,
    }
}

/// Whether the left operand alone decides a logical operation: a true one
/// decides `or`, a false one decides every other.
pub open spec fn decides(operator: Token, left: Object) -> bool {
    if operator.t_type == TokenType::Or {
        left.truthy()
    } else {
        !left.truthy()
    }
}

/// What a literal evaluates to: itself, `nil` if it holds nothing or only the
/// mark of an operation without result, and for a number the numeral that
/// the arithmetic unit answers for the literal.
pub open spec fn literal_result(
    num: Numbers,
    value: Option<Object>,
    r: Outcome,
) -> bool {
    match value {
        Some(Object::Num(text)) => r matches Ok(Object::Num(n)) && n@ == (num.numeral_of)(
            text@,
        ),
        Some(Object::ArithmeticError) => r == Ok::<Object, SaturdayResult>(Object::Nil),
        Some(v) => r == Ok::<Object, SaturdayResult>(v),
        None => r == Ok::<Object, SaturdayResult>(Object::Nil),
    }
}

/// What reading a variable gives.
///
/// A variable with a recorded distance is read in the environment at that
/// distance from the active one. It is there if the record is right; if it
/// is not, the result is `Fail`. A variable without record is read among the
/// globals, and is undefined if they do not bind it.
pub open spec fn read_result(s: State, name: Token, id: u64, r: Outcome) -> bool {
    if s.locals.contains_key(id) {
        r == found_at(s.arena, ancestor(s.arena, s.active as int, s.locals[id] as nat), name.lexeme@)
    } else if s.arena[0].bindings().contains_key(name.lexeme@) {
        r == Ok::<Object, SaturdayResult>(s.arena[0].bindings()[name.lexeme@])
    } else {
        r matches Err(e) && is_undefined(e, name)
    }
}

/// The state `post` is the state `s` with `name` bound to `value` in the environment `at`.
pub open spec fn written(s: State, at: int, name: Seq<char>, value: Object, post: State) -> bool {
    &&& rebound(s.arena, post.arena, at, name, value)
    &&& post == State { arena: post.arena, ..s }
}

/// What assigning `value` to a variable does.
///
/// A variable with a recorded distance is bound in the environment at that
/// distance from the active one; if there is no such environment the result
/// is `Fail`. A variable without record is given the value among the
/// globals if they bind it, and is undefined otherwise. Where nothing is
/// bound nothing changes.
pub open spec fn write_result(
    s: State,
    name: Token,
    id: u64,
    value: Object,
    post: State,
    r: Outcome,
) -> bool {
    if s.locals.contains_key(id) {
        match ancestor(s.arena, s.active as int, s.locals[id] as nat) {
            Some(a) => written(s, a, name.lexeme@, value, post) && r == Ok::<
                Object,
                SaturdayResult,
            >(value),
            None => post == s && r == Err::<Object, SaturdayResult>(SaturdayResult::Fail),
        }
    } else if s.arena[0].bindings().contains_key(name.lexeme@) {
        written(s, 0, name.lexeme@, value, post) && r == Ok::<Object, SaturdayResult>(value)
    } else {
        post == s && (r matches Err(e) && is_undefined(e, name))
    }
}

/// The message for a call with the wrong number of arguments.
pub open spec fn arity_text(expected: nat, got: nat) -> Seq<char> {
    "Expected "@ + decimal(expected) + " arguments but got "@ + decimal(got) + "."@
}

/// The variables of a call: the first `k` parameters, each bound to its argument.
pub open spec fn bound(params: Seq<Token>, arguments: Seq<Object>, k: nat) -> Map<
    Seq<char>,
    Object,
>
    decreases k,
{
    if k == 0 {
        Map::empty()
    } else {
        bound(params, arguments, (k - 1) as nat).insert(
            params[k - 1].lexeme@,
            arguments[k - 1],
        )
    }
}

/// What a call gives of what the body of the function ended with.
pub open spec fn returned(body: Completion) -> Outcome {
    match body {
        Err(SaturdayResult::ReturnValue { value }) => Ok(value),
        Err(e) => Err(e),
        Ok(_) => Ok(Object::Nil),
    }
}

/// `evaluates(num, pre, e, fuel, post, r)`: evaluating `e` in the state `pre`
/// leaves the state `post` and ends with `r`.
///
/// `fuel` bounds how deep evaluations are nested and how often loops are
/// repeated. An evaluation that needs more ends with a system error.
pub open spec fn evaluates(
    num: Numbers,
    pre: State,
    e: Expr,
    fuel: nat,
    post: State,
    r: Outcome,
) -> bool
    decreases fuel, 1nat,
{
    if fuel == 0 {
        post == pre && out_of_fuel(r)
    } else {
        let n = (fuel - 1) as nat;
        match e {
            Expr::Assign(x) => evaluates_assign(num, pre, x, n, post, r),
            Expr::Binary(x) => evaluates_binary(num, pre, x, n, post, r),
            Expr::Call(x) => evaluates_call(num, pre, x, n, post, r),
            Expr::Grouping(x) => evaluates(num, pre, *x.expression, n, post, r),
            Expr::Literal(x) => post == pre && literal_result(num, x.value, r),
            Expr::Logical(x) => evaluates_logical(num, pre, x, n, post, r),
            Expr::Unary(x) => evaluates_unary(num, pre, x, n, post, r),
            Expr::Variable(x) => post == pre && read_result(pre, x.name, x.id, r),
        }
    }
}

/// The right side is evaluated, and its value is assigned and is the result.
pub open spec fn evaluates_assign(
    num: Numbers,
    pre: State,
    x: AssignExpr,
    n: nat,
    post: State,
    r: Outcome,
) -> bool
    decreases n, 6nat,
{
    exists|mid: State, v: Outcome| #[trigger]
        given2(mid, v) && evaluates(num, pre, *x.value, n, mid, v) && match v {
            Err(e) => post == mid && r == v,
            Ok(value) => write_result(mid, x.name, x.id, value, post, r),
        }
}

/// The left operand is evaluated, then the right one, then the operator is applied.
pub open spec fn evaluates_binary(
    num: Numbers,
    pre: State,
    x: BinaryExpr,
    n: nat,
    post: State,
    r: Outcome,
) -> bool
    decreases n, 6nat,
{
    exists|mid: State, lv: Outcome| #[trigger]
        given2(mid, lv) && evaluates(num, pre, *x.left, n, mid, lv) && match lv {
            Err(e) => post == mid && r == lv,
            Ok(left) => exists|rv: Outcome| #[trigger]
                given(rv) && evaluates(num, mid, *x.right, n, post, rv) && match rv {
                    Err(e) => r == rv,
                    Ok(right) => binary_result(num, left, x.operator, right, r),
                },
        }
}

/// The left operand is evaluated. If it decides, it is the result and the
/// right operand is not touched: the state is the one that the left operand
/// left. Otherwise the result is what the right operand evaluates to.
pub open spec fn evaluates_logical(
    num: Numbers,
    pre: State,
    x: LogicalExpr,
    n: nat,
    post: State,
    r: Outcome,
) -> bool
    decreases n, 6nat,
{
    exists|mid: State, lv: Outcome| #[trigger]
        given2(mid, lv) && evaluates(num, pre, *x.left, n, mid, lv) && match lv {
            Err(e) => post == mid && r == lv,
            Ok(left) => if decides(x.operator, left) {
                post == mid && r == lv
            } else {
                evaluates(num, mid, *x.right, n, post, r)
            },
        }
}

/// The operand is evaluated, then the operator is applied.
pub open spec fn evaluates_unary(
    num: Numbers,
    pre: State,
    x: UnaryExpr,
    n: nat,
    post: State,
    r: Outcome,
) -> bool
    decreases n, 6nat,
{
    exists|v: Outcome| #[trigger]
        given(v) && evaluates(num, pre, *x.right, n, post, v) && match v {
            Err(e) => r == v,
            Ok(right) => unary_result(num, x.operator, right, r),
        }
}

/// The callee is evaluated, then the arguments from left to right, then the call is made.
pub open spec fn evaluates_call(
    num: Numbers,
    pre: State,
    x: CallExpr,
    n: nat,
    post: State,
    r: Outcome,
) -> bool
    decreases n, 6nat,
{
    exists|s1: State, cv: Outcome| #[trigger]
        given2(s1, cv) && evaluates(num, pre, *x.callee, n, s1, cv) && match cv {
            Err(e) => post == s1 && r == cv,
            Ok(callee) => exists|s2: State, av: Result<Seq<Object>, SaturdayResult>| #[trigger]
                given2(s2, av) && evaluates_all(num, s1, x.arguments@, 0, n, s2, av) && match av {
                    Err(e) => post == s2 && r == Err::<Object, SaturdayResult>(e),
                    Ok(arguments) => invokes(num, s2, callee, x.paren, arguments, n, post, r),
                },
        }
}

/// The expressions from index `i` on are evaluated in turn; the result is
/// their values, or the first error, behind which nothing is evaluated.
pub open spec fn evaluates_all(
    num: Numbers,
    pre: State,
    es: Seq<Expr>,
    i: int,
    n: nat,
    post: State,
    r: Result<Seq<Object>, SaturdayResult>,
) -> bool
    decreases n, 2nat,
{
    if i < 0 || i >= es.len() {
        post == pre && r == Ok::<Seq<Object>, SaturdayResult>(Seq::empty())
    } else if n == 0 {
        post == pre && out_of_fuel(r)
    } else {
        exists|mid: State, v: Outcome| #[trigger]
            given2(mid, v) && evaluates(num, pre, es[i], n, mid, v) && match v {
                Err(e) => post == mid && r == Err::<Seq<Object>, SaturdayResult>(e),
                Ok(first) => exists|rest: Result<Seq<Object>, SaturdayResult>| #[trigger]
                    given(rest) && evaluates_all(num, mid, es, i + 1, (n - 1) as nat, post, rest) && match rest {
                        Err(e) => r == rest,
                        Ok(others) => r == Ok::<Seq<Object>, SaturdayResult>(seq![first] + others),
                    },
            }
    }
}

/// What calling a declared function with as many arguments as it has
/// parameters does: the body runs in a new environment inside the closure
/// of the function, in which the parameters are bound to the arguments. A
/// `return` in the body gives the result of the call; a body that runs to
/// its end gives `nil`.
pub open spec fn calls(
    num: Numbers,
    pre: State,
    function: SaturdayFunction,
    arguments: Seq<Object>,
    n: nat,
    post: State,
    r: Outcome,
) -> bool
    decreases n, 4nat,
{
    exists|env: Environment, body: Completion| #[trigger]
        given2(env, body) && executes_block(num, pre, function.body@, env, n, post, body) && env.parent() == Some(
            function.closure,
        ) && env.bindings() == bound(function.params@, arguments, arguments.len()) && r
            == returned(body)
}

/// The values `found` and behind them the values of `rest`, or the error of `rest`.
pub open spec fn behind(found: Seq<Object>, rest: Result<Seq<Object>, SaturdayResult>) -> Result<
    Seq<Object>,
    SaturdayResult,
> {
    match rest {
        Ok(others) => Ok(found + others),
        Err(e) => Err(e),
    }
}

/// The values of a list of evaluated arguments.
pub open spec fn values(r: Result<Vec<Object>, SaturdayResult>) -> Result<
    Seq<Object>,
    SaturdayResult,
> {
    match r {
        Ok(v) => Ok(v@),
        Err(e) => Err(e),
    }
}

/// A block runs its statements in a new, empty environment inside the active one.
pub open spec fn executes_scope(
    num: Numbers,
    pre: State,
    statements: Seq<Stmt>,
    n: nat,
    post: State,
    r: Completion,
) -> bool
    decreases n, 4nat,
{
    exists|env: Environment| #[trigger]
        given(env) && executes_block(num, pre, statements, env, n, post, r) && env.parent() == Some(pre.active)
            && env.bindings() == Map::<Seq<char>, Object>::empty()
}

/// The expression is evaluated and its value is dropped.
pub open spec fn executes_expression(
    num: Numbers,
    pre: State,
    e: Expr,
    n: nat,
    post: State,
    r: Completion,
) -> bool
    decreases n, 6nat,
{
    exists|v: Outcome| #[trigger]
        given(v) && evaluates(num, pre, e, n, post, v) && match v {
            Err(e) => r == Err::<(), SaturdayResult>(e),
            Ok(_) => r == Ok::<(), SaturdayResult>(()),
        }
}

/// The expression is evaluated and the text of its value is one more line of output.
pub open spec fn executes_print(
    num: Numbers,
    pre: State,
    e: Expr,
    n: nat,
    post: State,
    r: Completion,
) -> bool
    decreases n, 6nat,
{
    exists|mid: State, v: Outcome| #[trigger]
        given2(mid, v) && evaluates(num, pre, e, n, mid, v) && match v {
            Err(e) => post == mid && r == Err::<(), SaturdayResult>(e),
            Ok(value) => printed(mid, value, post) && r == Ok::<(), SaturdayResult>(()),
        }
}

/// What calling `callee` with `arguments` does.
///
/// Only a function can be called, and only with as many arguments as it has
/// parameters. The clock gives some number or a system error. A declared
/// function runs its body in a new environment inside its closure, in which
/// the parameters are bound to the arguments; afterwards the environment of
/// the caller is the active one again, however the body ended.
pub open spec fn invokes(
    num: Numbers,
    pre: State,
    callee: Object,
    paren: Token,
    arguments: Seq<Object>,
    n: nat,
    post: State,
    r: Outcome,
) -> bool
    decreases n, 5nat,
{
    match callee {
        Object::Func(Callable::Native(_)) => post == pre && if arguments.len() != 0 {
            fails(r, paren, arity_text(0, arguments.len()))
        } else {
            match r {
                Ok(value) => value is Num,
                Err(e) => e is SystemError,
            }
        },
        Object::Func(Callable::Function(i)) => if i < pre.functions.len() {
            let function = pre.functions[i as int];
            if arguments.len() != function.params@.len() {
                post == pre && fails(r, paren,
                    arity_text(function.params@.len(), arguments.len()),
                )
            } else {
                calls(num, pre, function, arguments, n, post, r)
            }
        } else {
            post == pre && fails(r, paren,
                "Can only call function and classes"@,
            )
        },
        _ => post == pre && fails(r, paren,
            "Can only call function and classes"@,
        ),
    }
}

/// The statements are executed with `env` as the new active environment;
/// afterwards the environment that was active before is active again,
/// however the statements ended. The places of the environments are
/// machine numbers, and there is one left for the new environment.
pub open spec fn executes_block(
    num: Numbers,
    pre: State,
    statements: Seq<Stmt>,
    env: Environment,
    n: nat,
    post: State,
    r: Completion,
) -> bool
    decreases n, 3nat,
{
    exists|inner: State| #[trigger]
        given(inner) && pre.arena.len() < usize::MAX && executes_all(
            num,
            pre.entered(env),
            statements,
            0,
            n,
            inner,
            r,
        ) && post == inner.back_in(pre.active)
}

/// The statements from index `i` on are executed in turn, up to the first
/// that ends with an error or a signal.
pub open spec fn executes_all(
    num: Numbers,
    pre: State,
    statements: Seq<Stmt>,
    i: int,
    n: nat,
    post: State,
    r: Completion,
) -> bool
    decreases n, 2nat,
{
    if i < 0 || i >= statements.len() {
        post == pre && r == Ok::<(), SaturdayResult>(())
    } else if n == 0 {
        post == pre && out_of_fuel(r)
    } else {
        exists|mid: State, first: Completion| #[trigger]
            given2(mid, first) && executes(num, pre, statements[i], n, mid, first) && match first {
                Err(e) => post == mid && r == first,
                Ok(_) => executes_all(num, mid, statements, i + 1, (n - 1) as nat, post, r),
            }
    }
}

/// `executes(num, pre, s, fuel, post, r)`: executing `s` in the state `pre` leaves
/// the state `post` and ends with `r`.
pub open spec fn executes(
    num: Numbers,
    pre: State,
    s: Stmt,
    fuel: nat,
    post: State,
    r: Completion,
) -> bool
    decreases fuel, 1nat,
{
    if fuel == 0 {
        post == pre && out_of_fuel(r)
    } else {
        let n = (fuel - 1) as nat;
        match s {
            Stmt::Block(x) => executes_scope(num, pre, x.statements@, n, post, r),
            Stmt::Break(_) => post == pre && r == Err::<(), SaturdayResult>(SaturdayResult::Break),
            Stmt::Expression(x) => executes_expression(num, pre, x.expression, n, post, r),
            Stmt::Function(x) => executes_function(pre, x, post, r),
            Stmt::If(x) => executes_if(num, pre, x, n, post, r),
            Stmt::Print(x) => executes_print(num, pre, x.expression, n, post, r),
            Stmt::Return(x) => executes_return(num, pre, x, n, post, r),
            Stmt::Def(x) => executes_def(num, pre, x, n, post, r),
            Stmt::While(x) => executes_while(num, pre, x, n, post, r),
        }
    }
}

/// `post` is `pre` with the text of `value` as one more line of output.
pub open spec fn printed(pre: State, value: Object, post: State) -> bool {
    &&& post == State { output: post.output, ..pre }
    &&& post.output.len() == pre.output.len() + 1
    &&& post.output.drop_last() == pre.output
    &&& post.output.last()@ == value.text()
}

/// `post` is `pre` with `name` bound to `value` in the active environment.
pub open spec fn defined(pre: State, name: Seq<char>, value: Object, post: State) -> bool {
    &&& post == State { arena: post.arena, ..pre }
    &&& rebound(pre.arena, post.arena, pre.active as int, name, value)
}

/// A declaration makes a new function, which captures the active
/// environment, and binds its name to it in the active environment. The
/// places of the functions are machine numbers, and there is one left for
/// the new function.
pub open spec fn executes_function(pre: State, x: FunctionStmt, post: State, r: Completion) -> bool {
    let function = SaturdayFunction {
        name: x.name,
        params: x.params,
        body: x.body,
        closure: pre.active,
    };
    let made = State { functions: pre.functions.push(function), ..pre };
    &&& r == Ok::<(), SaturdayResult>(())
    &&& pre.functions.len() < usize::MAX
    &&& defined(
        made,
        x.name.lexeme@,
        Object::Func(Callable::Function(pre.functions.len() as usize)),
        post,
    )
}

/// The condition is evaluated; if it is true the first branch is executed, else the second, if there is one.
pub open spec fn executes_if(
    num: Numbers,
    pre: State,
    x: IfStmt,
    n: nat,
    post: State,
    r: Completion,
) -> bool
    decreases n, 6nat,
{
    exists|mid: State, v: Outcome| #[trigger]
        given2(mid, v) && evaluates(num, pre, x.condition, n, mid, v) && match v {
            Err(e) => post == mid && r == Err::<(), SaturdayResult>(e),
            Ok(condition) => if condition.truthy() {
                executes(num, mid, *x.then_branch, n, post, r)
            } else {
                match x.else_branch {
                    Some(other) => executes(num, mid, *other, n, post, r),
                    None => post == mid && r == Ok::<(), SaturdayResult>(()),
                }
            },
        }
}

/// A `return` ends with the signal that carries the value, `nil` if there is none.
pub open spec fn executes_return(
    num: Numbers,
    pre: State,
    x: ReturnStmt,
    n: nat,
    post: State,
    r: Completion,
) -> bool
    decreases n, 6nat,
{
    match x.value {
        Some(e) => exists|v: Outcome| #[trigger]
            given(v) && evaluates(num, pre, e, n, post, v) && match v {
                Err(e) => r == Err::<(), SaturdayResult>(e),
                Ok(value) => r == Err::<(), SaturdayResult>(SaturdayResult::ReturnValue { value }),
            },
        None => post == pre && r == Err::<(), SaturdayResult>(
            SaturdayResult::ReturnValue { value: Object::Nil },
        ),
    }
}

/// A declaration binds the name in the active environment, to the value of
/// the initializer or to `nil`.
pub open spec fn executes_def(
    num: Numbers,
    pre: State,
    x: DefStmt,
    n: nat,
    post: State,
    r: Completion,
) -> bool
    decreases n, 6nat,
{
    match x.initializer {
        Some(e) => exists|mid: State, v: Outcome| #[trigger]
            given2(mid, v) && evaluates(num, pre, e, n, mid, v) && match v {
                Err(e) => post == mid && r == Err::<(), SaturdayResult>(e),
                Ok(value) => defined(mid, x.name.lexeme@, value, post) && r == Ok::<
                    (),
                    SaturdayResult,
                >(()),
            },
        None => defined(pre, x.name.lexeme@, Object::Nil, post) && r == Ok::<(), SaturdayResult>(
            (),
        ),
    }
}

/// The loop: as long as the condition is true the body is executed. A
/// `break` in the body ends the loop normally; an error or another signal
/// ends it with that error or signal.
pub open spec fn executes_while(
    num: Numbers,
    pre: State,
    x: WhileStmt,
    n: nat,
    post: State,
    r: Completion,
) -> bool
    decreases n, 6nat,
{
    if n == 0 {
        post == pre && out_of_fuel(r)
    } else {
        let m = (n - 1) as nat;
        exists|s1: State, cv: Outcome| #[trigger]
            given2(s1, cv) && evaluates(num, pre, x.condition, m, s1, cv) && match cv {
                Err(e) => post == s1 && r == Err::<(), SaturdayResult>(e),
                Ok(condition) => if !condition.truthy() {
                    post == s1 && r == Ok::<(), SaturdayResult>(())
                } else {
                    exists|s2: State, body: Completion| #[trigger]
                        given2(s2, body) && executes(num, s1, *x.body, m, s2, body) && match body {
                            Err(SaturdayResult::Break) => post == s2 && r == Ok::<
                                (),
                                SaturdayResult,
                            >(()),
                            Err(e) => post == s2 && r == body,
                            Ok(_) => executes_while(num, s2, x, m, post, r),
                        }
                },
            }
    }
}

/// Every statement is executed in turn, each with the whole of `fuel`, up to
/// the first that ends with an error or a signal.
pub open spec fn interprets(
    num: Numbers,
    pre: State,
    statements: Seq<Stmt>,
    i: int,
    fuel: nat,
    post: State,
    r: Completion,
) -> bool
    decreases statements.len() - i,
{
    if i < 0 || i >= statements.len() {
        post == pre && r == Ok::<(), SaturdayResult>(())
    } else {
        exists|mid: State, first: Completion| #[trigger]
            given2(mid, first) && executes(num, pre, statements[i], fuel, mid, first) && match first {
                Err(e) => post == mid && r == first,
                Ok(_) => interprets(num, mid, statements, i + 1, fuel, post, r),
            }
    }
}

/// A state in which every link leads to an older environment, the active
/// environment exists, and every function was made in an environment that
/// exists. The places of the environments are machine numbers.
pub open spec fn well_formed(s: State) -> bool {
    &&& 1 <= s.arena.len() <= usize::MAX
    &&& crate::environment::well_linked(s.arena)
    &&& s.active < s.arena.len()
    &&& forall|i: int|
        0 <= i < s.functions.len() ==> (#[trigger] s.functions[i]).closure < s.arena.len()
}

/// What every evaluation and every execution keeps: the active environment
/// is the same afterwards; the record of the resolver is untouched; no
/// environment, function or line of output is lost, and no environment
/// changes its place in the chain.
pub open spec fn extends(pre: State, post: State) -> bool {
    &&& post.active == pre.active
    &&& post.locals == pre.locals
    &&& post.arena.len() >= pre.arena.len()
    &&& forall|i: int|
        0 <= i < pre.arena.len() ==> (#[trigger] post.arena[i]).parent() == pre.arena[i].parent()
    &&& post.functions.len() >= pre.functions.len()
    &&& forall|i: int| 0 <= i < pre.functions.len() ==> #[trigger] post.functions[i] == pre.functions[i]
    &&& post.output.len() >= pre.output.len()
    &&& forall|i: int| 0 <= i < pre.output.len() ==> #[trigger] post.output[i] == pre.output[i]
}


/// The left operand of a logical operation that decides is all there is to
/// the operation: the state that the left operand leaves and the value that
/// it gives are those of the whole, whatever the right operand is. The right
/// operand is not evaluated and has no effect.
pub proof fn lemma_short_circuit(
    num: Numbers,
    pre: State,
    x: LogicalExpr,
    n: nat,
    mid: State,
    left: Object,
)
    requires
        evaluates(num, pre, *x.left, n, mid, Ok(left)),
        decides(x.operator, left),
    ensures
        evaluates_logical(num, pre, x, n, mid, Ok(left)),
        evaluates(num, pre, Expr::Logical(x), n + 1, mid, Ok(left)),
{
    assert(given2(mid, Ok::<Object, SaturdayResult>(left)));
}

/// A `break` ends the loop normally, in whichever turn it comes: where the
/// condition is true and the body ends with the signal of a `break`, the
/// loop ends with `Ok` in the state that the body left.
pub proof fn lemma_break_ends_loop(
    num: Numbers,
    pre: State,
    x: WhileStmt,
    n: nat,
    s1: State,
    condition: Object,
    s2: State,
)
    requires
        evaluates(num, pre, x.condition, n, s1, Ok(condition)),
        condition.truthy(),
        executes(num, s1, *x.body, n, s2, Err(SaturdayResult::Break)),
    ensures
        executes_while(num, pre, x, n + 1, s2, Ok(())),
        executes(num, pre, Stmt::While(x), n + 2, s2, Ok(())),
{
    assert(given2(s1, Ok::<Object, SaturdayResult>(condition)));
    assert(given2(s2, Err::<(), SaturdayResult>(SaturdayResult::Break)));
}

/// The active environment after an evaluation is the one before it,
/// whatever the evaluation ended with.
pub proof fn lemma_evaluation_restores_scope(
    num: Numbers,
    pre: State,
    e: Expr,
    fuel: nat,
    post: State,
    r: Outcome,
)
    requires
        evaluates(num, pre, e, fuel, post, r),
    ensures
        post.active == pre.active,
    decreases fuel, 1nat,
{
    reveal_with_fuel(evaluates, 2);
    if fuel > 0 {
        let n = (fuel - 1) as nat;
        match e {
            Expr::Assign(x) => {
                let (mid, v) = choose|mid: State, v: Outcome| #[trigger]
                    given2(mid, v) && evaluates(num, pre, *x.value, n, mid, v) && match v {
                        Err(e) => post == mid && r == v,
                        Ok(value) => write_result(mid, x.name, x.id, value, post, r),
                    };
                lemma_evaluation_restores_scope(num, pre, *x.value, n, mid, v);
            },
            Expr::Binary(x) => {
                let (mid, lv) = choose|mid: State, lv: Outcome| #[trigger]
                    given2(mid, lv) && evaluates(num, pre, *x.left, n, mid, lv) && match lv {
                        Err(e) => post == mid && r == lv,
                        Ok(left) => exists|rv: Outcome| #[trigger]
                            given(rv) && evaluates(num, mid, *x.right, n, post, rv) && match rv {
                                Err(e) => r == rv,
                                Ok(right) => binary_result(num, left, x.operator, right, r),
                            },
                    };
                lemma_evaluation_restores_scope(num, pre, *x.left, n, mid, lv);
                match lv {
                    Ok(left) => {
                        let rv = choose|rv: Outcome| #[trigger]
                            given(rv) && evaluates(num, mid, *x.right, n, post, rv) && match rv {
                                Err(e) => r == rv,
                                Ok(right) => binary_result(num, left, x.operator, right, r),
                            };
                        lemma_evaluation_restores_scope(num, mid, *x.right, n, post, rv);
                    },
                    Err(_) => {},
                }
            },
            Expr::Call(x) => {
                let (s1, cv) = choose|s1: State, cv: Outcome| #[trigger]
                    given2(s1, cv) && evaluates(num, pre, *x.callee, n, s1, cv) && match cv {
                        Err(e) => post == s1 && r == cv,
                        Ok(callee) => exists|s2: State, av: Result<Seq<Object>, SaturdayResult>| #[trigger]
                            given2(s2, av) && evaluates_all(num, s1, x.arguments@, 0, n, s2, av)
                                && match av {
                                Err(e) => post == s2 && r == Err::<Object, SaturdayResult>(e),
                                Ok(arguments) => invokes(num, s2, callee, x.paren, arguments, n, post, r),
                            },
                    };
                lemma_evaluation_restores_scope(num, pre, *x.callee, n, s1, cv);
                match cv {
                    Ok(callee) => {
                        let (s2, av) = choose|s2: State, av: Result<Seq<Object>, SaturdayResult>| #[trigger]
                            given2(s2, av) && evaluates_all(num, s1, x.arguments@, 0, n, s2, av)
                                && match av {
                                Err(e) => post == s2 && r == Err::<Object, SaturdayResult>(e),
                                Ok(arguments) => invokes(num, s2, callee, x.paren, arguments, n, post, r),
                            };
                        lemma_arguments_restore_scope(num, s1, x.arguments@, 0, n, s2, av);
                        match av {
                            Ok(arguments) => {
                                lemma_call_restores_scope(num, s2, callee, x.paren, arguments, n, post, r);
                            },
                            Err(_) => {},
                        }
                    },
                    Err(_) => {},
                }
            },
            Expr::Grouping(x) => {
                lemma_evaluation_restores_scope(num, pre, *x.expression, n, post, r);
            },
            Expr::Literal(_) => {},
            Expr::Logical(x) => {
                let (mid, lv) = choose|mid: State, lv: Outcome| #[trigger]
                    given2(mid, lv) && evaluates(num, pre, *x.left, n, mid, lv) && match lv {
                        Err(e) => post == mid && r == lv,
                        Ok(left) => if decides(x.operator, left) {
                            post == mid && r == lv
                        } else {
                            evaluates(num, mid, *x.right, n, post, r)
                        },
                    };
                lemma_evaluation_restores_scope(num, pre, *x.left, n, mid, lv);
                match lv {
                    Ok(left) => {
                        if !decides(x.operator, left) {
                            lemma_evaluation_restores_scope(num, mid, *x.right, n, post, r);
                        }
                    },
                    Err(_) => {},
                }
            },
            Expr::Unary(x) => {
                let v = choose|v: Outcome| #[trigger]
                    given(v) && evaluates(num, pre, *x.right, n, post, v) && match v {
                        Err(e) => r == v,
                        Ok(right) => unary_result(num, x.operator, right, r),
                    };
                lemma_evaluation_restores_scope(num, pre, *x.right, n, post, v);
            },
            Expr::Variable(_) => {},
        }
    }
}

/// The active environment after the evaluation of arguments is the one before it.
pub proof fn lemma_arguments_restore_scope(
    num: Numbers,
    pre: State,
    es: Seq<Expr>,
    i: int,
    n: nat,
    post: State,
    r: Result<Seq<Object>, SaturdayResult>,
)
    requires
        evaluates_all(num, pre, es, i, n, post, r),
    ensures
        post.active == pre.active,
    decreases n, 2nat,
{
    if !(i < 0 || i >= es.len()) && n > 0 {
        let (mid, v) = choose|mid: State, v: Outcome| #[trigger]
            given2(mid, v) && evaluates(num, pre, es[i], n, mid, v) && match v {
                Err(e) => post == mid && r == Err::<Seq<Object>, SaturdayResult>(e),
                Ok(first) => exists|rest: Result<Seq<Object>, SaturdayResult>| #[trigger]
                    given(rest) && evaluates_all(num, mid, es, i + 1, (n - 1) as nat, post, rest)
                        && match rest {
                        Err(e) => r == rest,
                        Ok(others) => r == Ok::<Seq<Object>, SaturdayResult>(seq![first] + others),
                    },
            };
        lemma_evaluation_restores_scope(num, pre, es[i], n, mid, v);
        match v {
            Ok(first) => {
                let rest = choose|rest: Result<Seq<Object>, SaturdayResult>| #[trigger]
                    given(rest) && evaluates_all(num, mid, es, i + 1, (n - 1) as nat, post, rest)
                        && match rest {
                        Err(e) => r == rest,
                        Ok(others) => r == Ok::<Seq<Object>, SaturdayResult>(seq![first] + others),
                    };
                lemma_arguments_restore_scope(num, mid, es, i + 1, (n - 1) as nat, post, rest);
            },
            Err(_) => {},
        }
    }
}

/// The active environment after a call is the one of the caller, however the call ended.
pub proof fn lemma_call_restores_scope(
    num: Numbers,
    pre: State,
    callee: Object,
    paren: Token,
    arguments: Seq<Object>,
    n: nat,
    post: State,
    r: Outcome,
)
    requires
        invokes(num, pre, callee, paren, arguments, n, post, r),
    ensures
        post.active == pre.active,
    decreases n, 5nat,
{
    reveal_with_fuel(invokes, 2);
    match callee {
        Object::Func(Callable::Function(i)) => {
            if i < pre.functions.len() {
                let function = pre.functions[i as int];
                if arguments.len() == function.params@.len() {
                    let (env, body) = choose|env: Environment, body: Completion| #[trigger]
                        given2(env, body) && executes_block(
                            num,
                            pre,
                            function.body@,
                            env,
                            n,
                            post,
                            body,
                        ) && env.parent() == Some(function.closure) && env.bindings() == bound(
                            function.params@,
                            arguments,
                            arguments.len(),
                        ) && r == returned(body);
                    lemma_block_restores_scope(num, pre, function.body@, env, n, post, body);
                }
            }
        },
        _ => {},
    }
}

/// The active environment after a block is the one before it, however the block ended.
pub proof fn lemma_block_restores_scope(
    num: Numbers,
    pre: State,
    statements: Seq<Stmt>,
    env: Environment,
    n: nat,
    post: State,
    r: Completion,
)
    requires
        executes_block(num, pre, statements, env, n, post, r),
    ensures
        post.active == pre.active,
{
}

/// The active environment after the execution of statements is the one before it.
pub proof fn lemma_statements_restore_scope(
    num: Numbers,
    pre: State,
    statements: Seq<Stmt>,
    i: int,
    n: nat,
    post: State,
    r: Completion,
)
    requires
        executes_all(num, pre, statements, i, n, post, r),
    ensures
        post.active == pre.active,
    decreases n, 2nat,
{
    if !(i < 0 || i >= statements.len()) && n > 0 {
        let (mid, first) = choose|mid: State, first: Completion| #[trigger]
            given2(mid, first) && executes(num, pre, statements[i], n, mid, first) && match first {
                Err(e) => post == mid && r == first,
                Ok(_) => executes_all(num, mid, statements, i + 1, (n - 1) as nat, post, r),
            };
        lemma_execution_restores_scope(num, pre, statements[i], n, mid, first);
        match first {
            Ok(_) => {
                lemma_statements_restore_scope(num, mid, statements, i + 1, (n - 1) as nat, post, r);
            },
            Err(_) => {},
        }
    }
}

/// Scope restoration: the active environment after the execution of a
/// statement is the one before it, whatever the execution ended with, be it
/// an error, a `return` or a `break`.
pub proof fn lemma_execution_restores_scope(
    num: Numbers,
    pre: State,
    s: Stmt,
    fuel: nat,
    post: State,
    r: Completion,
)
    requires
        executes(num, pre, s, fuel, post, r),
    ensures
        post.active == pre.active,
    decreases fuel, 1nat,
{
    reveal_with_fuel(executes, 3);
    if fuel > 0 {
        let n = (fuel - 1) as nat;
        match s {
            Stmt::Block(x) => {},
            Stmt::Break(_) => {},
            Stmt::Expression(x) => {
                let v = choose|v: Outcome| #[trigger]
                    given(v) && evaluates(num, pre, x.expression, n, post, v) && match v {
                        Err(e) => r == Err::<(), SaturdayResult>(e),
                        Ok(_) => r == Ok::<(), SaturdayResult>(()),
                    };
                lemma_evaluation_restores_scope(num, pre, x.expression, n, post, v);
            },
            Stmt::Function(x) => {},
            Stmt::If(x) => {
                let (mid, v) = choose|mid: State, v: Outcome| #[trigger]
                    given2(mid, v) && evaluates(num, pre, x.condition, n, mid, v) && match v {
                        Err(e) => post == mid && r == Err::<(), SaturdayResult>(e),
                        Ok(condition) => if condition.truthy() {
                            executes(num, mid, *x.then_branch, n, post, r)
                        } else {
                            match x.else_branch {
                                Some(other) => executes(num, mid, *other, n, post, r),
                                None => post == mid && r == Ok::<(), SaturdayResult>(()),
                            }
                        },
                    };
                lemma_evaluation_restores_scope(num, pre, x.condition, n, mid, v);
                match v {
                    Ok(condition) => {
                        if condition.truthy() {
                            lemma_execution_restores_scope(num, mid, *x.then_branch, n, post, r);
                        } else {
                            match x.else_branch {
                                Some(other) => {
                                    lemma_execution_restores_scope(num, mid, *other, n, post, r);
                                },
                                None => {},
                            }
                        }
                    },
                    Err(_) => {},
                }
            },
            Stmt::Print(x) => {
                let (mid, v) = choose|mid: State, v: Outcome| #[trigger]
                    given2(mid, v) && evaluates(num, pre, x.expression, n, mid, v) && match v {
                        Err(e) => post == mid && r == Err::<(), SaturdayResult>(e),
                        Ok(value) => printed(mid, value, post) && r == Ok::<(), SaturdayResult>(()),
                    };
                lemma_evaluation_restores_scope(num, pre, x.expression, n, mid, v);
            },
            Stmt::Return(x) => {
                match x.value {
                    Some(e) => {
                        let v = choose|v: Outcome| #[trigger]
                            given(v) && evaluates(num, pre, e, n, post, v) && match v {
                                Err(e) => r == Err::<(), SaturdayResult>(e),
                                Ok(value) => r == Err::<(), SaturdayResult>(
                                    SaturdayResult::ReturnValue { value },
                                ),
                            };
                        lemma_evaluation_restores_scope(num, pre, e, n, post, v);
                    },
                    None => {},
                }
            },
            Stmt::Def(x) => {
                match x.initializer {
                    Some(e) => {
                        let (mid, v) = choose|mid: State, v: Outcome| #[trigger]
                            given2(mid, v) && evaluates(num, pre, e, n, mid, v) && match v {
                                Err(e) => post == mid && r == Err::<(), SaturdayResult>(e),
                                Ok(value) => defined(mid, x.name.lexeme@, value, post) && r == Ok::<
                                    (),
                                    SaturdayResult,
                                >(()),
                            };
                        lemma_evaluation_restores_scope(num, pre, e, n, mid, v);
                    },
                    None => {},
                }
            },
            Stmt::While(x) => {
                lemma_loop_restores_scope(num, pre, x, n, post, r);
            },
        }
    }
}

/// The active environment after a loop is the one before it.
pub proof fn lemma_loop_restores_scope(
    num: Numbers,
    pre: State,
    x: WhileStmt,
    n: nat,
    post: State,
    r: Completion,
)
    requires
        executes_while(num, pre, x, n, post, r),
    ensures
        post.active == pre.active,
    decreases n, 6nat,
{
    if n > 0 {
        let m = (n - 1) as nat;
        let (s1, cv) = choose|s1: State, cv: Outcome| #[trigger]
            given2(s1, cv) && evaluates(num, pre, x.condition, m, s1, cv) && match cv {
                Err(e) => post == s1 && r == Err::<(), SaturdayResult>(e),
                Ok(condition) => if !condition.truthy() {
                    post == s1 && r == Ok::<(), SaturdayResult>(())
                } else {
                    exists|s2: State, body: Completion| #[trigger]
                        given2(s2, body) && executes(num, s1, *x.body, m, s2, body) && match body {
                            Err(SaturdayResult::Break) => post == s2 && r == Ok::<
                                (),
                                SaturdayResult,
                            >(()),
                            Err(e) => post == s2 && r == body,
                            Ok(_) => executes_while(num, s2, x, m, post, r),
                        }
                },
            };
        lemma_evaluation_restores_scope(num, pre, x.condition, m, s1, cv);
        match cv {
            Ok(condition) => {
                if condition.truthy() {
                    let (s2, body) = choose|s2: State, body: Completion| #[trigger]
                        given2(s2, body) && executes(num, s1, *x.body, m, s2, body) && match body {
                            Err(SaturdayResult::Break) => post == s2 && r == Ok::<
                                (),
                                SaturdayResult,
                            >(()),
                            Err(e) => post == s2 && r == body,
                            Ok(_) => executes_while(num, s2, x, m, post, r),
                        };
                    lemma_execution_restores_scope(num, s1, *x.body, m, s2, body);
                    match body {
                        Ok(_) => {
                            lemma_loop_restores_scope(num, s2, x, m, post, r);
                        },
                        Err(_) => {},
                    }
                }
            },
            Err(_) => {},
        }
    }
}

/// The active environment after a program is the one before it.
pub proof fn lemma_program_restores_scope(
    num: Numbers,
    pre: State,
    statements: Seq<Stmt>,
    i: int,
    fuel: nat,
    post: State,
    r: Completion,
)
    requires
        interprets(num, pre, statements, i, fuel, post, r),
    ensures
        post.active == pre.active,
    decreases statements.len() - i,
{
    if !(i < 0 || i >= statements.len()) {
        let (mid, first) = choose|mid: State, first: Completion| #[trigger]
            given2(mid, first) && executes(num, pre, statements[i], fuel, mid, first) && match first {
                Err(e) => post == mid && r == first,
                Ok(_) => interprets(num, mid, statements, i + 1, fuel, post, r),
            };
        lemma_execution_restores_scope(num, pre, statements[i], fuel, mid, first);
        match first {
            Ok(_) => {
                lemma_program_restores_scope(num, mid, statements, i + 1, fuel, post, r);
            },
            Err(_) => {},
        }
    }
}

} // verus!
