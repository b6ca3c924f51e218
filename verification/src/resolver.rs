use vstd::prelude::*;
use vstd::hash_map::StringHashMap;
use crate::error::{complaints_of, Complaint, SaturdayResult};
use crate::expr::{
    AssignExpr, BinaryExpr, CallExpr, Expr, GroupingExpr, LiteralExpr, LogicalExpr, UnaryExpr,
    VariableExpr,
};
use crate::interpreter::Interpreter;
use crate::semantics::State;
use crate::stmt::{
    BlockStmt, BreakStmt, DefStmt, ExpressionStmt, FunctionStmt, IfStmt, PrintStmt, ReturnStmt,
    Stmt, WhileStmt,
};
use crate::token::Token;

verus! {

/// Whether the code under analysis lies inside a function.
#[derive(Debug, Clone, Copy, PartialEq, Eq, Structural)]
pub enum FunctionType {
    Top,
    Function,
}

/// The state of an analysis.
pub struct Analysis {
    /// The scopes around the code under analysis, the innermost last. A name
    /// is mapped to `false` from its declaration to the end of its
    /// initializer, and to `true` from then on.
    pub scopes: Seq<Map<Seq<char>, bool>>,
    /// The distances recorded so far, by the identity of the expression.
    pub locals: Map<u64, usize>,
    /// The errors found so far.
    pub errors: Seq<Complaint>,
    /// Whether the code under analysis lies inside a function.
    pub function: FunctionType,
    /// Whether the code under analysis lies inside the body of a loop.
    pub in_while: bool,
}

/// The analysis with which the resolver starts on a program: outside every
/// scope, function and loop, with the distances recorded for earlier programs.
pub open spec fn fresh_analysis(locals: Map<u64, usize>) -> Analysis {
    Analysis {
        scopes: Seq::empty(),
        locals,
        errors: Seq::empty(),
        function: FunctionType::Top,
        in_while: false,
    }
}

/// The analysis with one more error, at `token`.
pub open spec fn complains(a: Analysis, token: Token, message: Seq<char>) -> Analysis {
    Analysis { errors: a.errors.push(Complaint { token, message }), ..a }
}

/// The analysis with one more scope, which is empty.
pub open spec fn begun(a: Analysis) -> Analysis {
    Analysis { scopes: a.scopes.push(Map::empty()), ..a }
}

/// The analysis without its innermost scope.
pub open spec fn ended(a: Analysis) -> Analysis {
    if a.scopes.len() > 0 {
        Analysis { scopes: a.scopes.drop_last(), ..a }
    } else {
        a
    }
}

/// The innermost scope holds `name` with `ready`. Outside every scope nothing is kept.
pub open spec fn noted(a: Analysis, name: Seq<char>, ready: bool) -> Analysis {
    if a.scopes.len() > 0 {
        Analysis {
            scopes: a.scopes.update(a.scopes.len() - 1, a.scopes.last().insert(name, ready)),
            ..a
        }
    } else {
        a
    }
}

/// A name is declared: it is an error if the innermost scope holds it
/// already, and in either case the scope holds it afterwards as not yet defined.
pub open spec fn declared(a: Analysis, name: Token) -> Analysis {
    if a.scopes.len() > 0 && a.scopes.last().contains_key(name.lexeme@) {
        noted(
            complains(a, name, "Already a variable with this name in this scope."@),
            name.lexeme@,
            false,
        )
    } else {
        noted(a, name.lexeme@, false)
    }
}

/// A name is defined: the innermost scope holds it as ready to be read.
pub open spec fn defined(a: Analysis, name: Token) -> Analysis {
    noted(a, name.lexeme@, true)
}

/// How many of the innermost `k` scopes lie inside the nearest one that
/// holds `name`; `None` if none of the `k` innermost scopes holds it.
pub open spec fn distance(scopes: Seq<Map<Seq<char>, bool>>, name: Seq<char>, k: nat) -> Option<nat>
    decreases scopes.len() - k,
{
    if k >= scopes.len() {
        None
    } else if scopes[scopes.len() - 1 - k].contains_key(name) {
        Some(k)
    } else {
        distance(scopes, name, k + 1)
    }
}

/// The use of a local variable is recorded with its distance: the number
/// of scopes between the use and the nearest scope that holds the name.
/// Where no scope holds the name nothing is recorded, and the variable is
/// looked for among the globals when the program runs.
pub open spec fn resolved_local(a: Analysis, id: u64, name: Token) -> Analysis {
    match distance(a.scopes, name.lexeme@, 0) {
        Some(d) => Analysis { locals: a.locals.insert(id, d as usize), ..a },
        None => a,
    }
}

/// Reading a variable inside its own initializer is an error; every other
/// use is recorded.
pub open spec fn resolved_variable(a: Analysis, x: VariableExpr) -> Analysis {
    if a.scopes.len() > 0 && a.scopes.last().contains_key(x.name.lexeme@) && !a.scopes.last()[x.name.lexeme@] {
        complains(a, x.name, "Can't read local variable in its own initializer."@)
    } else {
        resolved_local(a, x.id, x.name)
    }
}

/// What the analysis of an expression leaves.
pub open spec fn resolved_expr(a: Analysis, e: Expr) -> Analysis
    decreases e, 0int,
{
    match e {
        Expr::Assign(x) => resolved_local(resolved_expr(a, *x.value), x.id, x.name),
        Expr::Binary(x) => resolved_expr(resolved_expr(a, *x.left), *x.right),
        Expr::Call(x) => resolved_exprs(resolved_expr(a, *x.callee), x.arguments@, 0),
        Expr::Grouping(x) => resolved_expr(a, *x.expression),
        Expr::Literal(_) => a,
        Expr::Logical(x) => resolved_expr(resolved_expr(a, *x.left), *x.right),
        Expr::Unary(x) => resolved_expr(a, *x.right),
        Expr::Variable(x) => resolved_variable(a, x),
    }
}

/// What the analysis of the expressions from index `i` on leaves.
pub open spec fn resolved_exprs(a: Analysis, es: Seq<Expr>, i: int) -> Analysis
    decreases es, es.len() - i,
{
    if i < 0 || i >= es.len() {
        a
    } else {
        resolved_exprs(resolved_expr(a, es[i]), es, i + 1)
    }
}

/// The first `k` parameters are declared and defined in turn.
pub open spec fn with_params(a: Analysis, params: Seq<Token>, k: nat) -> Analysis
    decreases k,
{
    if k == 0 || k > params.len() {
        a
    } else {
        defined(declared(with_params(a, params, (k - 1) as nat), params[k - 1]), params[k - 1])
    }
}

/// What the analysis of a statement leaves.
pub open spec fn resolved_stmt(a: Analysis, s: Stmt) -> Analysis
    decreases s, 0int,
{
    match s {
        Stmt::Block(x) => ended(resolved_stmts(begun(a), x.statements@, 0)),
        Stmt::Break(x) => if a.in_while {
            a
        } else {
            complains(a, x.token, "break statement outside of a while/for loop."@)
        },
        Stmt::Expression(x) => resolved_expr(a, x.expression),
        Stmt::Function(x) => {
            let named = defined(declared(a, x.name), x.name);
            let inside = with_params(
                begun(Analysis { function: FunctionType::Function, ..named }),
                x.params@,
                x.params@.len(),
            );
            let done = ended(resolved_stmts(inside, x.body@, 0));
            Analysis { function: a.function, ..done }
        },
        Stmt::If(x) => {
            let taken = resolved_stmt(resolved_expr(a, x.condition), *x.then_branch);
            match x.else_branch {
                Some(other) => resolved_stmt(taken, *other),
                None => taken,
            }
        },
        Stmt::Print(x) => resolved_expr(a, x.expression),
        Stmt::Return(x) => {
            let checked = if a.function == FunctionType::Top {
                complains(a, x.keyword, "Can't return from top-level code."@)
            } else {
                a
            };
            match x.value {
                Some(value) => resolved_expr(checked, value),
                None => checked,
            }
        },
        Stmt::Def(x) => {
            let begun = declared(a, x.name);
            let valued = match x.initializer {
                Some(value) => resolved_expr(begun, value),
                None => begun,
            };
            defined(valued, x.name)
        },
        Stmt::While(x) => {
            let inside = Analysis { in_while: true, ..a };
            let done = resolved_stmt(resolved_expr(inside, x.condition), *x.body);
            Analysis { in_while: a.in_while, ..done }
        },
    }
}

/// What the analysis of the statements from index `i` on leaves.
pub open spec fn resolved_stmts(a: Analysis, ss: Seq<Stmt>, i: int) -> Analysis
    decreases ss, ss.len() - i,
{
    if i < 0 || i >= ss.len() {
        a
    } else {
        resolved_stmts(resolved_stmt(a, ss[i]), ss, i + 1)
    }
}


/// The interpreter `after` is `before` but for what the resolver recorded.
pub open spec fn recorded(before: &Interpreter, after: &Interpreter) -> bool {
    &&& after.state() == (State { locals: after.state().locals, ..before.state() })
    &&& after.wf() == before.wf()
    &&& after.allowance() == before.allowance()
}

/// The static resolver.
///
/// It walks a program once, before it runs, and records for every use of a
/// local variable how many environments lie between the use and the
/// declaration. It also finds the errors that can be found without running
/// the program.
pub struct Resolver {
    scopes: Vec<StringHashMap<bool>>,
    errors: Vec<SaturdayResult>,
    had_error: bool,
    current_function: FunctionType,
    in_while: bool,
}

impl Resolver {
    /// The scopes around the code under analysis, the innermost last.
    pub closed spec fn scopes(&self) -> Seq<Map<Seq<char>, bool>> {
        Seq::new(self.scopes@.len(), |i: int| self.scopes@[i]@)
    }

    /// The errors found so far.
    pub closed spec fn complaints(&self) -> Seq<Complaint> {
        complaints_of(self.errors@)
    }

    /// The errors found so far, as they are reported.
    pub closed spec fn reported(&self) -> Seq<SaturdayResult> {
        self.errors@
    }

    /// Whether the code under analysis lies inside a function.
    pub closed spec fn function(&self) -> FunctionType {
        self.current_function
    }

    /// Whether the code under analysis lies inside the body of a loop.
    pub closed spec fn looping(&self) -> bool {
        self.in_while
    }

    /// The flag of failure is set exactly when an error was found.
    pub closed spec fn wf(&self) -> bool {
        &&& self.had_error == (self.errors@.len() > 0)
        &&& forall|i: int| 0 <= i < self.errors@.len() ==> (#[trigger] self.errors@[i]) is ParseError
    }

    /// The state of the analysis, for the distances `locals` recorded so far.
    pub open spec fn analysis(&self, locals: Map<u64, usize>) -> Analysis {
        Analysis {
            scopes: self.scopes(),
            locals,
            errors: self.complaints(),
            function: self.function(),
            in_while: self.looping(),
        }
    }

    /// A resolver outside every scope, function and loop, without errors.
    pub fn new() -> (r: Self)
        ensures
            r.wf(),
            r.scopes() == Seq::<Map<Seq<char>, bool>>::empty(),
            r.complaints() == Seq::<Complaint>::empty(),
            r.function() == FunctionType::Top,
            !r.looping(),
    {
        let r = Self {
            scopes: Vec::new(),
            errors: Vec::new(),
            had_error: false,
            current_function: FunctionType::Top,
            in_while: false,
        };
        assert(r.scopes() =~= Seq::<Map<Seq<char>, bool>>::empty());
        assert(r.complaints() =~= Seq::<Complaint>::empty());
        r
    }

    /// Analyses the statements of a program in turn. The result is always
    /// `Ok`: what was found is told by `success` and `errors`.
    pub fn resolve(&mut self, interpreter: &mut Interpreter, statements: &Vec<Stmt>) -> (r: Result<
        (),
        SaturdayResult,
    >)
        requires
            old(self).wf(),
        ensures
            r is Ok,
            final(self).wf(),
            recorded(old(interpreter), final(interpreter)),
            final(self).analysis(final(interpreter).state().locals) == resolved_stmts(
                old(self).analysis(old(interpreter).state().locals),
                statements@,
                0,
            ),
        decreases statements@, statements@.len(),
    {
        self.resolve_from(interpreter, statements, 0);
        Ok(())
    }

    /// Analyses the statements from index `i` on.
    fn resolve_from(&mut self, interpreter: &mut Interpreter, statements: &Vec<Stmt>, i: usize)
        requires
            old(self).wf(),
        ensures
            final(self).wf(),
            recorded(old(interpreter), final(interpreter)),
            final(self).analysis(final(interpreter).state().locals) == resolved_stmts(
                old(self).analysis(old(interpreter).state().locals),
                statements@,
                i as int,
            ),
        decreases statements@, statements@.len() - i,
    {
        let ghost goal = resolved_stmts(
            self.analysis(interpreter.state().locals),
            statements@,
            i as int,
        );
        let mut j = i;
        while j < statements.len()
            invariant
                self.wf(),
                recorded(old(interpreter), interpreter),
                resolved_stmts(self.analysis(interpreter.state().locals), statements@, j as int)
                    == goal,
            decreases statements@.len() - j,
        {
            self.resolve_stmt(interpreter, &statements[j]);
            j = j + 1;
        }
    }

    /// Whether no error was found.
    pub fn success(&self) -> (r: bool)
        requires
            self.wf(),
        ensures
            r == (self.complaints().len() == 0),
    {
        !self.had_error
    }

    /// The errors found so far, in the order in which they were found.
    pub fn errors(&self) -> (r: &Vec<SaturdayResult>)
        ensures
            r@ == self.reported(),
            complaints_of(r@) == self.complaints(),
            self.wf() ==> forall|i: int| 0 <= i < r@.len() ==> (#[trigger] r@[i]) is ParseError,
    {
        &self.errors
    }

    /// Analyses a statement.
    pub fn resolve_stmt(&mut self, interpreter: &mut Interpreter, stmt: &Stmt)
        requires
            old(self).wf(),
        ensures
            final(self).wf(),
            recorded(old(interpreter), final(interpreter)),
            final(self).analysis(final(interpreter).state().locals) == resolved_stmt(
                old(self).analysis(old(interpreter).state().locals),
                *stmt,
            ),
        decreases *stmt, 0int,
    {
        match stmt {
            Stmt::Block(x) => self.visit_block_stmt(interpreter, x),
            Stmt::Break(x) => self.visit_break_stmt(interpreter, x),
            Stmt::Expression(x) => self.visit_expression_stmt(interpreter, x),
            Stmt::Function(x) => self.visit_function_stmt(interpreter, x),
            Stmt::If(x) => self.visit_if_stmt(interpreter, x),
            Stmt::Print(x) => self.visit_print_stmt(interpreter, x),
            Stmt::Return(x) => self.visit_return_stmt(interpreter, x),
            Stmt::Def(x) => self.visit_def_stmt(interpreter, x),
            Stmt::While(x) => self.visit_while_stmt(interpreter, x),
        }
    }

    /// Analyses an expression.
    pub fn resolve_expr(&mut self, interpreter: &mut Interpreter, expr: &Expr)
        requires
            old(self).wf(),
        ensures
            final(self).wf(),
            recorded(old(interpreter), final(interpreter)),
            final(self).analysis(final(interpreter).state().locals) == resolved_expr(
                old(self).analysis(old(interpreter).state().locals),
                *expr,
            ),
        decreases *expr, 0int,
    {
        match expr {
            Expr::Assign(x) => self.visit_assign_expr(interpreter, x),
            Expr::Binary(x) => self.visit_binary_expr(interpreter, x),
            Expr::Call(x) => self.visit_call_expr(interpreter, x),
            Expr::Grouping(x) => self.visit_grouping_expr(interpreter, x),
            Expr::Literal(x) => self.visit_literal_expr(x),
            Expr::Logical(x) => self.visit_logical_expr(interpreter, x),
            Expr::Unary(x) => self.visit_unary_expr(interpreter, x),
            Expr::Variable(x) => self.visit_variable_expr(interpreter, x),
        }
    }

    /// Analyses the expressions from index `i` on.
    fn resolve_exprs(&mut self, interpreter: &mut Interpreter, es: &Vec<Expr>, i: usize)
        requires
            old(self).wf(),
        ensures
            final(self).wf(),
            recorded(old(interpreter), final(interpreter)),
            final(self).analysis(final(interpreter).state().locals) == resolved_exprs(
                old(self).analysis(old(interpreter).state().locals),
                es@,
                i as int,
            ),
        decreases es@, es@.len() - i,
    {
        let ghost goal = resolved_exprs(self.analysis(interpreter.state().locals), es@, i as int);
        let mut j = i;
        while j < es.len()
            invariant
                self.wf(),
                recorded(old(interpreter), interpreter),
                resolved_exprs(self.analysis(interpreter.state().locals), es@, j as int) == goal,
            decreases es@.len() - j,
        {
            self.resolve_expr(interpreter, &es[j]);
            j = j + 1;
        }
    }

    fn begin_scope(&mut self, Ghost(l): Ghost<Map<u64, usize>>)
        requires
            old(self).wf(),
        ensures
            final(self).wf(),
            final(self).analysis(l) == begun(old(self).analysis(l)),
    {
        self.scopes.push(StringHashMap::new());
        assert(self.scopes() =~= old(self).scopes().push(Map::empty()));
    }

    fn end_scope(&mut self, Ghost(l): Ghost<Map<u64, usize>>)
        requires
            old(self).wf(),
        ensures
            final(self).wf(),
            final(self).analysis(l) == ended(old(self).analysis(l)),
    {
        let _ = self.scopes.pop();
        proof {
            if old(self).scopes@.len() > 0 {
                assert(self.scopes() =~= old(self).scopes().drop_last());
            } else {
                assert(self.scopes() =~= old(self).scopes());
            }
        }
    }

    /// Keeps `name` in the innermost scope, as ready to be read or not.
    fn note(&mut self, name: &Token, ready: bool, Ghost(l): Ghost<Map<u64, usize>>)
        requires
            old(self).wf(),
        ensures
            final(self).wf(),
            final(self).analysis(l) == noted(old(self).analysis(l), name.lexeme@, ready),
    {
        let n = self.scopes.len();
        if n > 0 {
            self.scopes[n - 1].insert(name.lexeme.clone(), ready);
            assert(self.scopes() =~= old(self).scopes().update(
                n - 1,
                old(self).scopes().last().insert(name.lexeme@, ready),
            ));
        }
    }

    fn declare(&mut self, name: &Token, Ghost(l): Ghost<Map<u64, usize>>)
        requires
            old(self).wf(),
        ensures
            final(self).wf(),
            final(self).analysis(l) == declared(old(self).analysis(l), *name),
    {
        let n = self.scopes.len();
        if n > 0 && self.scopes[n - 1].contains_key(name.lexeme.as_str()) {
            self.error(name, "Already a variable with this name in this scope.", Ghost(l));
        }
        self.note(name, false, Ghost(l));
    }

    fn define(&mut self, name: &Token, Ghost(l): Ghost<Map<u64, usize>>)
        requires
            old(self).wf(),
        ensures
            final(self).wf(),
            final(self).analysis(l) == defined(old(self).analysis(l), *name),
    {
        self.note(name, true, Ghost(l));
    }

    /// Records the use of a local variable with its distance.
    pub fn resolve_local(&self, interpreter: &mut Interpreter, id: u64, name: &Token)
        ensures
            recorded(old(interpreter), final(interpreter)),
            self.analysis(final(interpreter).state().locals) == resolved_local(
                self.analysis(old(interpreter).state().locals),
                id,
                *name,
            ),
    {
        let n = self.scopes.len();
        let mut k: usize = 0;
        while k < n
            invariant
                n == self.scopes@.len(),
                k <= n,
                *interpreter == *old(interpreter),
                distance(self.scopes(), name.lexeme@, k as nat) == distance(
                    self.scopes(),
                    name.lexeme@,
                    0,
                ),
            decreases n - k,
        {
            if self.scopes[n - 1 - k].contains_key(name.lexeme.as_str()) {
                interpreter.resolve(id, k);
                return ;
            }
            k = k + 1;
        }
    }

    /// Analyses the parameters and the body of a function.
    fn resolve_function(&mut self, interpreter: &mut Interpreter, function: &FunctionStmt, f_type: FunctionType)
        requires
            old(self).wf(),
        ensures
            final(self).wf(),
            recorded(old(interpreter), final(interpreter)),
            final(self).analysis(final(interpreter).state().locals) == ({
                let a = old(self).analysis(old(interpreter).state().locals);
                let inside = with_params(
                    begun(Analysis { function: f_type, ..a }),
                    function.params@,
                    function.params@.len(),
                );
                let done = ended(resolved_stmts(inside, function.body@, 0));
                Analysis { function: a.function, ..done }
            }),
        decreases *function, 0int,
    {
        let ghost l = interpreter.state().locals;
        let enclosing_function = self.current_function;
        self.current_function = f_type;
        self.begin_scope(Ghost(l));
        let ghost entered = self.analysis(l);
        let mut i: usize = 0;
        while i < function.params.len()
            invariant
                self.wf(),
                i <= function.params@.len(),
                self.analysis(l) == with_params(entered, function.params@, i as nat),
            decreases function.params@.len() - i,
        {
            self.declare(&function.params[i], Ghost(l));
            self.define(&function.params[i], Ghost(l));
            i = i + 1;
        }
        self.resolve_from(interpreter, &function.body, 0);
        self.end_scope(Ghost(interpreter.state().locals));
        self.current_function = enclosing_function;
    }

    /// Keeps an error and sets the flag of failure.
    fn error(&mut self, token: &Token, message: &str, Ghost(l): Ghost<Map<u64, usize>>)
        requires
            old(self).wf(),
        ensures
            final(self).wf(),
            final(self).analysis(l) == complains(old(self).analysis(l), *token, message@),
    {
        self.had_error = true;
        self.errors.push(SaturdayResult::parse_error(token, message));
        assert(self.complaints() =~= old(self).complaints().push(
            Complaint { token: *token, message: message@ },
        ));
    }

    /// Analyses a block in a scope of its own.
    pub fn visit_block_stmt(&mut self, interpreter: &mut Interpreter, stmt: &BlockStmt)
        requires
            old(self).wf(),
        ensures
            final(self).wf(),
            recorded(old(interpreter), final(interpreter)),
            final(self).analysis(final(interpreter).state().locals) == ended(
                resolved_stmts(
                    begun(old(self).analysis(old(interpreter).state().locals)),
                    stmt.statements@,
                    0,
                ),
            ),
        decreases *stmt, 0int,
    {
        self.begin_scope(Ghost(interpreter.state().locals));
        self.resolve_from(interpreter, &stmt.statements, 0);
        self.end_scope(Ghost(interpreter.state().locals));
    }

    /// A `break` outside every loop is an error.
    pub fn visit_break_stmt(&mut self, interpreter: &Interpreter, stmt: &BreakStmt)
        requires
            old(self).wf(),
        ensures
            final(self).wf(),
            final(self).analysis(interpreter.state().locals) == resolved_stmt(
                old(self).analysis(interpreter.state().locals),
                Stmt::Break(*stmt),
            ),
    {
        if !self.in_while {
            self.error(
                &stmt.token,
                "break statement outside of a while/for loop.",
                Ghost(interpreter.state().locals),
            );
        }
    }

    /// Analyses an expression statement.
    pub fn visit_expression_stmt(&mut self, interpreter: &mut Interpreter, stmt: &ExpressionStmt)
        requires
            old(self).wf(),
        ensures
            final(self).wf(),
            recorded(old(interpreter), final(interpreter)),
            final(self).analysis(final(interpreter).state().locals) == resolved_expr(
                old(self).analysis(old(interpreter).state().locals),
                stmt.expression,
            ),
        decreases *stmt, 0int,
    {
        self.resolve_expr(interpreter, &stmt.expression);
    }

    /// Declares and defines the name of a function, then analyses its parameters and its body.
    pub fn visit_function_stmt(&mut self, interpreter: &mut Interpreter, stmt: &FunctionStmt)
        requires
            old(self).wf(),
        ensures
            final(self).wf(),
            recorded(old(interpreter), final(interpreter)),
            final(self).analysis(final(interpreter).state().locals) == resolved_stmt(
                old(self).analysis(old(interpreter).state().locals),
                Stmt::Function(*stmt),
            ),
        decreases *stmt, 1int,
    {
        self.declare(&stmt.name, Ghost(interpreter.state().locals));
        self.define(&stmt.name, Ghost(interpreter.state().locals));
        self.resolve_function(interpreter, stmt, FunctionType::Function);
    }

    /// Analyses the condition and the branches of an `if`.
    pub fn visit_if_stmt(&mut self, interpreter: &mut Interpreter, stmt: &IfStmt)
        requires
            old(self).wf(),
        ensures
            final(self).wf(),
            recorded(old(interpreter), final(interpreter)),
            final(self).analysis(final(interpreter).state().locals) == resolved_stmt(
                old(self).analysis(old(interpreter).state().locals),
                Stmt::If(*stmt),
            ),
        decreases *stmt, 0int,
    {
        self.resolve_expr(interpreter, &stmt.condition);
        self.resolve_stmt(interpreter, &stmt.then_branch);
        match &stmt.else_branch {
            Some(else_branch) => {
                self.resolve_stmt(interpreter, else_branch);
            },
            None => {},
        }
    }

    /// Analyses a `print`.
    pub fn visit_print_stmt(&mut self, interpreter: &mut Interpreter, stmt: &PrintStmt)
        requires
            old(self).wf(),
        ensures
            final(self).wf(),
            recorded(old(interpreter), final(interpreter)),
            final(self).analysis(final(interpreter).state().locals) == resolved_expr(
                old(self).analysis(old(interpreter).state().locals),
                stmt.expression,
            ),
        decreases *stmt, 0int,
    {
        self.resolve_expr(interpreter, &stmt.expression);
    }

    /// A `return` outside every function is an error.
    pub fn visit_return_stmt(&mut self, interpreter: &mut Interpreter, stmt: &ReturnStmt)
        requires
            old(self).wf(),
        ensures
            final(self).wf(),
            recorded(old(interpreter), final(interpreter)),
            final(self).analysis(final(interpreter).state().locals) == resolved_stmt(
                old(self).analysis(old(interpreter).state().locals),
                Stmt::Return(*stmt),
            ),
        decreases *stmt, 0int,
    {
        if self.current_function == FunctionType::Top {
            self.error(
                &stmt.keyword,
                "Can't return from top-level code.",
                Ghost(interpreter.state().locals),
            );
        }
        match &stmt.value {
            Some(value) => {
                self.resolve_expr(interpreter, value);
            },
            None => {},
        }
    }

    /// Declares a variable, analyses its initializer, and defines it.
    pub fn visit_def_stmt(&mut self, interpreter: &mut Interpreter, stmt: &DefStmt)
        requires
            old(self).wf(),
        ensures
            final(self).wf(),
            recorded(old(interpreter), final(interpreter)),
            final(self).analysis(final(interpreter).state().locals) == resolved_stmt(
                old(self).analysis(old(interpreter).state().locals),
                Stmt::Def(*stmt),
            ),
        decreases *stmt, 0int,
    {
        self.declare(&stmt.name, Ghost(interpreter.state().locals));
        match &stmt.initializer {
            Some(init) => {
                self.resolve_expr(interpreter, init);
            },
            None => {},
        }
        self.define(&stmt.name, Ghost(interpreter.state().locals));
    }

    /// Analyses the condition and the body of a loop.
    pub fn visit_while_stmt(&mut self, interpreter: &mut Interpreter, stmt: &WhileStmt)
        requires
            old(self).wf(),
        ensures
            final(self).wf(),
            recorded(old(interpreter), final(interpreter)),
            final(self).analysis(final(interpreter).state().locals) == resolved_stmt(
                old(self).analysis(old(interpreter).state().locals),
                Stmt::While(*stmt),
            ),
        decreases *stmt, 0int,
    {
        let enclosing = self.in_while;
        self.in_while = true;
        self.resolve_expr(interpreter, &stmt.condition);
        self.resolve_stmt(interpreter, &stmt.body);
        self.in_while = enclosing;
    }

    /// Analyses the value of an assignment, then records the use of the variable.
    pub fn visit_assign_expr(&mut self, interpreter: &mut Interpreter, expr: &AssignExpr)
        requires
            old(self).wf(),
        ensures
            final(self).wf(),
            recorded(old(interpreter), final(interpreter)),
            final(self).analysis(final(interpreter).state().locals) == resolved_expr(
                old(self).analysis(old(interpreter).state().locals),
                Expr::Assign(*expr),
            ),
        decreases *expr, 0int,
    {
        self.resolve_expr(interpreter, &expr.value);
        self.resolve_local(interpreter, expr.id, &expr.name);
    }

    /// Analyses both operands.
    pub fn visit_binary_expr(&mut self, interpreter: &mut Interpreter, expr: &BinaryExpr)
        requires
            old(self).wf(),
        ensures
            final(self).wf(),
            recorded(old(interpreter), final(interpreter)),
            final(self).analysis(final(interpreter).state().locals) == resolved_expr(
                old(self).analysis(old(interpreter).state().locals),
                Expr::Binary(*expr),
            ),
        decreases *expr, 0int,
    {
        self.resolve_expr(interpreter, &expr.left);
        self.resolve_expr(interpreter, &expr.right);
    }

    /// Analyses the callee and the arguments.
    pub fn visit_call_expr(&mut self, interpreter: &mut Interpreter, expr: &CallExpr)
        requires
            old(self).wf(),
        ensures
            final(self).wf(),
            recorded(old(interpreter), final(interpreter)),
            final(self).analysis(final(interpreter).state().locals) == resolved_expr(
                old(self).analysis(old(interpreter).state().locals),
                Expr::Call(*expr),
            ),
        decreases *expr, 0int,
    {
        self.resolve_expr(interpreter, &expr.callee);
        self.resolve_exprs(interpreter, &expr.arguments, 0);
    }

    /// Analyses the expression in the parentheses.
    pub fn visit_grouping_expr(&mut self, interpreter: &mut Interpreter, expr: &GroupingExpr)
        requires
            old(self).wf(),
        ensures
            final(self).wf(),
            recorded(old(interpreter), final(interpreter)),
            final(self).analysis(final(interpreter).state().locals) == resolved_expr(
                old(self).analysis(old(interpreter).state().locals),
                *expr.expression,
            ),
        decreases *expr, 0int,
    {
        self.resolve_expr(interpreter, &expr.expression);
    }

    /// A literal uses no variable.
    pub fn visit_literal_expr(&self, expr: &LiteralExpr) {
    }

    /// Analyses both operands.
    pub fn visit_logical_expr(&mut self, interpreter: &mut Interpreter, expr: &LogicalExpr)
        requires
            old(self).wf(),
        ensures
            final(self).wf(),
            recorded(old(interpreter), final(interpreter)),
            final(self).analysis(final(interpreter).state().locals) == resolved_expr(
                old(self).analysis(old(interpreter).state().locals),
                Expr::Logical(*expr),
            ),
        decreases *expr, 0int,
    {
        self.resolve_expr(interpreter, &expr.left);
        self.resolve_expr(interpreter, &expr.right);
    }

    /// Analyses the operand.
    pub fn visit_unary_expr(&mut self, interpreter: &mut Interpreter, expr: &UnaryExpr)
        requires
            old(self).wf(),
        ensures
            final(self).wf(),
            recorded(old(interpreter), final(interpreter)),
            final(self).analysis(final(interpreter).state().locals) == resolved_expr(
                old(self).analysis(old(interpreter).state().locals),
                *expr.right,
            ),
        decreases *expr, 0int,
    {
        self.resolve_expr(interpreter, &expr.right);
    }

    /// Reading a variable inside its own initializer is an error; every
    /// other use is recorded with its distance.
    pub fn visit_variable_expr(&mut self, interpreter: &mut Interpreter, expr: &VariableExpr)
        requires
            old(self).wf(),
        ensures
            final(self).wf(),
            recorded(old(interpreter), final(interpreter)),
            final(self).analysis(final(interpreter).state().locals) == resolved_variable(
                old(self).analysis(old(interpreter).state().locals),
                *expr,
            ),
    {
        let n = self.scopes.len();
        let unready = n > 0 && match self.scopes[n - 1].get(expr.name.lexeme.as_str()) {
            Some(ready) => !*ready,
            None => false,
        };
        if unready {
            self.error(
                &expr.name,
                "Can't read local variable in its own initializer.",
                Ghost(interpreter.state().locals),
            );
        } else {
            self.resolve_local(interpreter, expr.id, &expr.name);
        }
    }
}

} // verus!
