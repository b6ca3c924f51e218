use vstd::prelude::*;
use std::rc::Rc;
use crate::error::{complaints_of, Complaint, SaturdayResult};
use crate::expr::{
    AssignExpr, BinaryExpr, CallExpr, Expr, GroupingExpr, LiteralExpr, LogicalExpr, UnaryExpr,
    VariableExpr,
};
use crate::grammar::{
    arguments, arguments_more, assignment, at_end, block, block_items, break_statement, call,
    call_rest, check, consume, declaration, def_declaration, expr_model, expr_models, expression,
    expression_statement, fail, for_initializer, for_loop, for_statement, function, if_statement,
    infix, infix_rest, is_operator, none, operand, optional_expression, parameters,
    parameters_more, primary, print_statement, program, recover, return_statement, statement, step,
    stmt_model, stmt_models, synchronize, unary, while_statement, Cursor, ExprModel, Parsed,
    StmtModel,
};
use crate::numbering::{
    distinct_expr, distinct_stmt, distinct_stmts, expr_ids, lemma_stmts_ids_push, lemma_stmts_push,
    lemma_tagged_exprs_push, lemma_tagged_stmts_push, lemma_tagged_stmts_wider, stmt_ids,
    stmts_ids, tagged_expr, tagged_exprs, tagged_stmt, tagged_stmts,
};
use crate::object::Object;
use crate::soundness::{is_declaration, well_placed, well_placed_all};
use crate::stmt::{
    BlockStmt, BreakStmt, DefStmt, ExpressionStmt, FunctionStmt, IfStmt, PrintStmt, ReturnStmt,
    Stmt, WhileStmt,
};
use crate::token::Token;
use crate::token_type::TokenType;

verus! {

/// Whether `r` is the expression that the rule gave, or an error where the rule gave nothing.
pub open spec fn gives_expr(r: Result<Expr, SaturdayResult>, p: Parsed<ExprModel>) -> bool {
    match r {
        Ok(e) => p.value == Some(expr_model(e)),
        Err(_) => p.value is None,
    }
}

/// The same for an expression that may be absent.
pub open spec fn gives_optional_expr(r: Result<Option<Expr>, SaturdayResult>, p: Parsed<Option<ExprModel>>) -> bool {
    match r {
        Ok(Some(e)) => p.value == Some(Some(expr_model(e))),
        Ok(None) => p.value == Some(None::<ExprModel>),
        Err(_) => p.value is None,
    }
}

/// The same for a list of expressions.
pub open spec fn gives_exprs(r: Result<Vec<Expr>, SaturdayResult>, p: Parsed<Seq<ExprModel>>) -> bool {
    match r {
        Ok(es) => p.value == Some(expr_models(es@, es@.len())),
        Err(_) => p.value is None,
    }
}

/// The same for a statement.
pub open spec fn gives_stmt(r: Result<Stmt, SaturdayResult>, p: Parsed<StmtModel>) -> bool {
    match r {
        Ok(s) => p.value == Some(stmt_model(s)),
        Err(_) => p.value is None,
    }
}

/// The same for a statement that may be absent.
pub open spec fn gives_optional_stmt(r: Result<Option<Stmt>, SaturdayResult>, p: Parsed<Option<StmtModel>>) -> bool {
    match r {
        Ok(Some(s)) => p.value == Some(Some(stmt_model(s))),
        Ok(None) => p.value == Some(None::<StmtModel>),
        Err(_) => p.value is None,
    }
}

/// The same for a list of statements.
pub open spec fn gives_stmts(r: Result<Vec<Stmt>, SaturdayResult>, p: Parsed<Seq<StmtModel>>) -> bool {
    match r {
        Ok(ss) => p.value == Some(stmt_models(ss@, ss@.len())),
        Err(_) => p.value is None,
    }
}

/// The same for a token.
pub open spec fn gives_token(r: Result<Token, SaturdayResult>, p: Parsed<Token>) -> bool {
    match r {
        Ok(t) => p.value == Some(t),
        Err(_) => p.value is None,
    }
}

/// The same for a list of tokens.
pub open spec fn gives_tokens(r: Result<Vec<Token>, SaturdayResult>, p: Parsed<Seq<Token>>) -> bool {
    match r {
        Ok(ts) => p.value == Some(ts@),
        Err(_) => p.value is None,
    }
}

/// The shapes of a list do not depend on what lies behind the part that is asked for.
pub proof fn lemma_expr_models_prefix(a: Seq<Expr>, b: Seq<Expr>, k: nat)
    requires
        k <= a.len(),
        k <= b.len(),
        forall|i: int| 0 <= i < k ==> a[i] == b[i],
    ensures
        expr_models(a, k) == expr_models(b, k),
    decreases k,
{
    if k > 0 {
        lemma_expr_models_prefix(a, b, (k - 1) as nat);
    }
}

/// A list has as many shapes as it has expressions.
pub proof fn lemma_expr_models_len(es: Seq<Expr>, k: nat)
    requires
        k <= es.len(),
    ensures
        expr_models(es, k).len() == k,
    decreases k,
{
    if k > 0 {
        lemma_expr_models_len(es, (k - 1) as nat);
    }
}

/// The shapes of a list with one more expression at its end.
pub proof fn lemma_expr_models_push(es: Seq<Expr>, x: Expr)
    ensures
        expr_models(es.push(x), es.len() + 1) == expr_models(es, es.len()).push(expr_model(x)),
{
    lemma_expr_models_prefix(es.push(x), es, es.len());
}

/// The same for statements.
pub proof fn lemma_stmt_models_prefix(a: Seq<Stmt>, b: Seq<Stmt>, k: nat)
    requires
        k <= a.len(),
        k <= b.len(),
        forall|i: int| 0 <= i < k ==> a[i] == b[i],
    ensures
        stmt_models(a, k) == stmt_models(b, k),
    decreases k,
{
    if k > 0 {
        lemma_stmt_models_prefix(a, b, (k - 1) as nat);
    }
}

/// The shapes of a list with one more statement at its end.
pub proof fn lemma_stmt_models_push(ss: Seq<Stmt>, x: Stmt)
    ensures
        stmt_models(ss.push(x), ss.len() + 1) == stmt_models(ss, ss.len()).push(stmt_model(x)),
{
    lemma_stmt_models_prefix(ss.push(x), ss, ss.len());
}

/// The parser: a cursor over a token stream that ends with the end-of-file
/// token, the identity for the next use of a variable, and the errors
/// reported so far.
pub struct Parser {
    tokens: Vec<Token>,
    current: usize,
    next_id: u64,
    errors: Vec<SaturdayResult>,
}

impl Parser {
    /// The token stream.
    pub closed spec fn tokens(&self) -> Seq<Token> {
        self.tokens@
    }

    /// Where the parser stands.
    pub closed spec fn cursor(&self) -> Cursor {
        Cursor {
            pos: self.current as int,
            id: self.next_id as nat,
            errors: complaints_of(self.errors@),
        }
    }

    /// The errors reported so far, as they are reported.
    pub closed spec fn reported(&self) -> Seq<SaturdayResult> {
        self.errors@
    }

    /// The stream ends with the end-of-file token, the cursor stands inside
    /// it, and there is an identity left for every token still to come.
    pub closed spec fn wf(&self) -> bool {
        &&& self.tokens@.len() > 0
        &&& self.tokens@.last().t_type == TokenType::Eof
        &&& self.current < self.tokens@.len()
        &&& self.next_id + (self.tokens@.len() - self.current) <= u64::MAX
        &&& forall|i: int| 0 <= i < self.errors@.len() ==> (#[trigger] self.errors@[i]) is ParseError
    }

    /// The parser has gone on from `before` to the cursor `c`.
    spec fn at(&self, before: &Parser, c: Cursor) -> bool {
        &&& self.wf()
        &&& self.tokens@ == before.tokens@
        &&& self.current >= before.current
        &&& self.next_id >= before.next_id
        &&& self.errors@.len() >= before.errors@.len()
        &&& self.cursor() == c
    }

    /// The parser has applied a rule for an expression, which gave `p`, with the result `r`.
    spec fn made_expr(&self, before: &Parser, r: Result<Expr, SaturdayResult>, p: Parsed<ExprModel>) -> bool {
        &&& self.at(before, p.cursor)
        &&& gives_expr(r, p)
        &&& r is Ok ==> self.current > before.current
        &&& r matches Ok(e) ==> tagged_expr(e, before.next_id as nat, self.next_id as nat)
    }

    /// The parser has applied a rule for a statement, which gave `p`, with the result `r`.
    spec fn made_stmt(&self, before: &Parser, r: Result<Stmt, SaturdayResult>, p: Parsed<StmtModel>) -> bool {
        &&& self.at(before, p.cursor)
        &&& gives_stmt(r, p)
        &&& r is Ok ==> self.current > before.current
        &&& r matches Ok(s) ==> tagged_stmt(s, before.next_id as nat, self.next_id as nat)
    }

    /// As `made_stmt`, for a rule that gives no declaration.
    spec fn made_plain(&self, before: &Parser, r: Result<Stmt, SaturdayResult>, p: Parsed<StmtModel>) -> bool {
        &&& self.made_stmt(before, r, p)
        &&& r matches Ok(s) ==> !is_declaration(s)
    }

    /// A parser at the start of `tokens`, which gives the first use of a variable the identity 0.
    pub fn new(tokens: Vec<Token>) -> (r: Self)
        requires
            tokens@.len() > 0,
            tokens@.last().t_type == TokenType::Eof,
            tokens@.len() <= u64::MAX,
        ensures
            r.wf(),
            r.tokens() == tokens@,
            r.cursor() == (Cursor { pos: 0, id: 0, errors: Seq::empty() }),
    {
        Parser::with_first_id(tokens, 0)
    }

    /// A parser at the start of `tokens`, which gives the first use of a
    /// variable the identity `first_id`.
    pub fn with_first_id(tokens: Vec<Token>, first_id: u64) -> (r: Self)
        requires
            tokens@.len() > 0,
            tokens@.last().t_type == TokenType::Eof,
            first_id + tokens@.len() <= u64::MAX,
        ensures
            r.wf(),
            r.tokens() == tokens@,
            r.cursor() == (Cursor { pos: 0, id: first_id as nat, errors: Seq::empty() }),
    {
        let r = Self { tokens, current: 0, next_id: first_id, errors: Vec::new() };
        assert(r.cursor().errors =~= Seq::<Complaint>::empty());
        r
    }

    /// The identity that the next use of a variable gets.
    pub fn next_id(&self) -> (r: u64)
        ensures
            r == self.cursor().id,
    {
        self.next_id
    }

    /// Whether no error was reported.
    pub fn success(&self) -> (r: bool)
        ensures
            r == (self.cursor().errors.len() == 0),
    {
        self.errors.len() == 0
    }

    /// The errors reported so far, in the order of the tokens.
    pub fn errors(&self) -> (r: &Vec<SaturdayResult>)
        ensures
            r@ == self.reported(),
            complaints_of(r@) == self.cursor().errors,
            self.wf() ==> forall|i: int| 0 <= i < r@.len() ==> (#[trigger] r@[i]) is ParseError,
    {
        &self.errors
    }

    /// Parses a program. Every declaration is parsed, also behind an error.
    /// The result is the statements if no error was reported by this call,
    /// else the first of its errors.
    pub fn parse(&mut self) -> (r: Result<Vec<Stmt>, SaturdayResult>)
        requires
            old(self).wf(),
        ensures
            final(self).wf(),
            final(self).tokens() == old(self).tokens(),
            final(self).cursor() == program(
                old(self).tokens(),
                old(self).cursor(),
                Seq::empty(),
            ).cursor,
            final(self).cursor().errors.len() >= old(self).cursor().errors.len(),
            final(self).cursor().id >= old(self).cursor().id,
            r matches Ok(statements) ==> tagged_stmts(
                statements@,
                old(self).cursor().id,
                final(self).cursor().id,
            ),
            match r {
                Ok(statements) => final(self).cursor().errors.len() == old(
                    self,
                ).cursor().errors.len() && Some(stmt_models(statements@, statements@.len()))
                    == program(old(self).tokens(), old(self).cursor(), Seq::empty()).value,
                Err(e) => final(self).cursor().errors.len() > old(self).cursor().errors.len() && e
                    == final(self).reported()[old(self).cursor().errors.len() as int] && e
                    is ParseError,
            },
    {
        let before = self.errors.len();
        let statements = self.parse_all();
        if self.errors.len() > before {
            Err(self.errors[before].clone_error())
        } else {
            Ok(statements)
        }
    }

    /// Parses a program and gives every statement that could be parsed,
    /// whether or not an error was reported.
    pub fn parse_all(&mut self) -> (r: Vec<Stmt>)
        requires
            old(self).wf(),
        ensures
            final(self).wf(),
            final(self).tokens() == old(self).tokens(),
            final(self).cursor() == program(
                old(self).tokens(),
                old(self).cursor(),
                Seq::empty(),
            ).cursor,
            final(self).cursor().errors.len() >= old(self).cursor().errors.len(),
            final(self).reported().len() == final(self).cursor().errors.len(),
            final(self).cursor().id >= old(self).cursor().id,
            tagged_stmts(r@, old(self).cursor().id, final(self).cursor().id),
            Some(stmt_models(r@, r@.len())) == program(
                old(self).tokens(),
                old(self).cursor(),
                Seq::empty(),
            ).value,
    {
        let ghost ts = self.tokens@;
        let ghost c0 = self.cursor();
        let mut statements: Vec<Stmt> = Vec::new();
        while !self.is_at_end()
            invariant
                self.wf(),
                self.tokens@ == ts,
                ts == old(self).tokens@,
                c0 == old(self).cursor(),
                self.current >= old(self).current,
                self.errors@.len() >= old(self).errors@.len(),
                program(ts, self.cursor(), stmt_models(statements@, statements@.len())) == program(
                    ts,
                    c0,
                    Seq::empty(),
                ),
                self.next_id >= old(self).next_id,
                tagged_stmts(statements@, old(self).next_id as nat, self.next_id as nat),
            decreases ts.len() - self.current,
        {
            let ghost c = self.cursor();
            let ghost found = stmt_models(statements@, statements@.len());
            let ghost mark = self.next_id;
            match self.declaration() {
                Ok(s) => {
                    proof {
                        lemma_stmt_models_push(statements@, s);
                        lemma_tagged_stmts_push(
                            statements@,
                            s,
                            old(self).next_id as nat,
                            mark as nat,
                            self.next_id as nat,
                        );
                    }
                    statements.push(s);
                },
                Err(_) => {
                    proof {
                        lemma_tagged_stmts_wider(
                            statements@,
                            old(self).next_id as nat,
                            mark as nat,
                            self.next_id as nat,
                        );
                    }
                },
            }
        }
        statements
    }

    fn is_at_end(&self) -> (r: bool)
        requires
            self.wf(),
        ensures
            r == at_end(self.tokens(), self.cursor()),
            r == (self.tokens@[self.current as int].t_type == TokenType::Eof),
    {
        self.tokens[self.current].is(TokenType::Eof)
    }

    fn check(&self, kind: TokenType) -> (r: bool)
        requires
            self.wf(),
        ensures
            r == check(self.tokens(), self.cursor(), kind),
    {
        !self.is_at_end() && self.tokens[self.current].is(kind)
    }

    /// The next token.
    fn peek(&self) -> (t: Token)
        requires
            self.wf(),
        ensures
            t == self.tokens@[self.current as int],
    {
        self.tokens[self.current].dup()
    }

    /// Passes the next token, unless it is the end-of-file token.
    fn advance(&mut self)
        requires
            old(self).wf(),
        ensures
            final(self).at(old(self), step(old(self).tokens(), old(self).cursor())),
    {
        if !self.is_at_end() {
            let n = self.tokens.len();
            assert(self.tokens@.last() == self.tokens@[n - 1]);
            self.current = self.current + 1;
        }
    }

    /// Passes the next token if it is of the kind `kind`.
    fn is_match(&mut self, kind: TokenType) -> (r: bool)
        requires
            old(self).wf(),
        ensures
            r == check(old(self).tokens(), old(self).cursor(), kind),
            final(self).at(
                old(self),
                if r {
                    step(old(self).tokens(), old(self).cursor())
                } else {
                    old(self).cursor()
                },
            ),
    {
        if self.check(kind) {
            self.advance();
            true
        } else {
            false
        }
    }

    /// Reports an error at `token`.
    fn error(&mut self, token: &Token, message: &str) -> (e: SaturdayResult)
        requires
            old(self).wf(),
        ensures
            final(self).at(old(self), old(self).cursor().complain(*token, message@)),
            final(self).errors@.len() == old(self).errors@.len() + 1,
    {
        let e = SaturdayResult::parse_error(token, message);
        self.errors.push(e.clone_error());
        assert(complaints_of(self.errors@) =~= complaints_of(old(self).errors@).push(
            Complaint { token: *token, message: message@ },
        ));
        e
    }

    /// Reports an error at the next token.
    fn fail(&mut self, message: &str) -> (e: SaturdayResult)
        requires
            old(self).wf(),
        ensures
            final(self).at(
                old(self),
                fail::<()>(old(self).tokens(), old(self).cursor(), message@).cursor,
            ),
            final(self).errors@.len() == old(self).errors@.len() + 1,
    {
        let token = self.peek();
        self.error(&token, message)
    }

    /// Passes the next token if it is of the kind `kind`, else reports `message`.
    fn consume(&mut self, kind: TokenType, message: &str) -> (r: Result<Token, SaturdayResult>)
        requires
            old(self).wf(),
        ensures
            final(self).at(
                old(self),
                consume(old(self).tokens(), old(self).cursor(), kind, message@).cursor,
            ),
            gives_token(r, consume(old(self).tokens(), old(self).cursor(), kind, message@)),
            r is Ok ==> final(self).current > old(self).current,
            final(self).errors@.len() >= old(self).errors@.len(),
    {
        if self.check(kind) {
            let token = self.peek();
            self.advance();
            Ok(token)
        } else {
            Err(self.fail(message))
        }
    }

    /// Goes on behind an error.
    fn synchronize(&mut self)
        requires
            old(self).wf(),
        ensures
            final(self).at(old(self), synchronize(old(self).tokens(), old(self).cursor())),
            !at_end(old(self).tokens(), old(self).cursor()) ==> final(self).current > old(
                self,
            ).current,
    {
        let ghost ts = self.tokens@;
        self.advance();
        loop
            invariant
                self.wf(),
                self.tokens@ == ts,
                ts == old(self).tokens@,
                self.errors@.len() >= old(self).errors@.len(),
                self.next_id == old(self).next_id,
                self.current >= old(self).current,
                !at_end(ts, old(self).cursor()) ==> self.current > old(self).current,
                recover(ts, self.cursor()) == synchronize(ts, old(self).cursor()),
            ensures
                self.at(old(self), synchronize(ts, old(self).cursor())),
                !at_end(ts, old(self).cursor()) ==> self.current > old(self).current,
            decreases ts.len() - self.current,
        {
            if self.is_at_end() {
                break ;
            }
            if self.current > 0 && self.tokens[self.current - 1].is(TokenType::SemiColon) {
                break ;
            }
            let kind = self.tokens[self.current].token_type();
            if kind == TokenType::Def || kind == TokenType::Fun || kind == TokenType::For || kind
                == TokenType::If || kind == TokenType::While || kind == TokenType::Print || kind
                == TokenType::Return || kind == TokenType::Break {
                break ;
            }
            self.advance();
        }
    }

    /// primary := "true" | "false" | "nil" | NUMBER | STRING | "(" expression ")" | IDENT
    fn primary(&mut self) -> (r: Result<Expr, SaturdayResult>)
        requires
            old(self).wf(),
        ensures
            final(self).made_expr(old(self), r, primary(old(self).tokens@, old(self).cursor())),
        decreases old(self).tokens@.len() - old(self).current, 0nat,
    {
        if self.is_match(TokenType::False) {
            return Ok(Expr::Literal(LiteralExpr { value: Some(Object::Bool(false)) }));
        }
        if self.is_match(TokenType::True) {
            return Ok(Expr::Literal(LiteralExpr { value: Some(Object::Bool(true)) }));
        }
        if self.is_match(TokenType::Nil) {
            return Ok(Expr::Literal(LiteralExpr { value: Some(Object::Nil) }));
        }
        if self.check(TokenType::Number) || self.check(TokenType::String) {
            let token = self.peek();
            self.advance();
            return Ok(Expr::Literal(LiteralExpr { value: token.literal }));
        }
        if self.check(TokenType::Identifier) {
            let name = self.peek();
            let id = self.next_id;
            let n = self.tokens.len();
            assert(self.tokens@.last() == self.tokens@[n - 1]);
            self.next_id = id + 1;
            self.current = self.current + 1;
            return Ok(Expr::Variable(VariableExpr { id, name }));
        }
        if self.is_match(TokenType::LeftParen) {
            let e = match self.expression() {
                Ok(e) => e,
                Err(x) => {
                    return Err(x);
                },
            };
            match self.consume(TokenType::RightParen, "Expect ')' after expression.") {
                Ok(_) => Ok(Expr::Grouping(GroupingExpr { expression: Box::new(e) })),
                Err(x) => Err(x),
            }
        } else {
            Err(self.fail("Expect expression."))
        }
    }

    /// call := primary ("(" args? ")")*
    fn call(&mut self) -> (r: Result<Expr, SaturdayResult>)
        requires
            old(self).wf(),
        ensures
            final(self).made_expr(old(self), r, call(old(self).tokens@, old(self).cursor())),
        decreases old(self).tokens@.len() - old(self).current, 2nat,
    {
        let e = match self.primary() {
            Ok(e) => e,
            Err(x) => {
                return Err(x);
            },
        };
        self.call_rest(e, Ghost(old(self).next_id as nat))
    }

    /// The calls behind a callee.
    fn call_rest(&mut self, callee: Expr, Ghost(lo): Ghost<nat>) -> (r: Result<
        Expr,
        SaturdayResult,
    >)
        requires
            old(self).wf(),
            tagged_expr(callee, lo, old(self).next_id as nat),
            lo <= old(self).next_id,
        ensures
            r matches Ok(e) ==> tagged_expr(e, lo, final(self).next_id as nat),
            final(self).at(
                old(self),
                call_rest(old(self).tokens@, expr_model(callee), old(self).cursor()).cursor,
            ),
            gives_expr(r, call_rest(old(self).tokens@, expr_model(callee), old(self).cursor())),
        decreases old(self).tokens@.len() - old(self).current, 1nat,
    {
        let ghost ts = self.tokens@;
        let ghost goal = call_rest(ts, expr_model(callee), self.cursor());
        let mut expr = callee;
        loop
            invariant
                self.wf(),
                self.tokens@ == ts,
                ts == old(self).tokens@,
                self.current >= old(self).current,
                self.errors@.len() >= old(self).errors@.len(),
                call_rest(ts, expr_model(expr), self.cursor()) == goal,
                goal == call_rest(old(self).tokens@, expr_model(callee), old(self).cursor()),
                self.next_id >= old(self).next_id,
                lo <= old(self).next_id,
                tagged_expr(expr, lo, self.next_id as nat),
            decreases ts.len() - self.current,
        {
            if !self.check(TokenType::LeftParen) {
                return Ok(expr);
            }
            let paren = self.peek();
            self.advance();
            let args = match self.arguments() {
                Ok(v) => v,
                Err(x) => {
                    return Err(x);
                },
            };
            match self.consume(TokenType::RightParen, "Expect ')' after arguments.") {
                Ok(_) => {},
                Err(x) => {
                    return Err(x);
                },
            }
            expr = Expr::Call(CallExpr { callee: Box::new(expr), paren, arguments: args });
        }
    }

    /// args := expression ("," expression)*, or nothing before a `)`.
    fn arguments(&mut self) -> (r: Result<Vec<Expr>, SaturdayResult>)
        requires
            old(self).wf(),
        ensures
            final(self).at(old(self), arguments(old(self).tokens@, old(self).cursor()).cursor),
            gives_exprs(r, arguments(old(self).tokens@, old(self).cursor())),
            r matches Ok(es) ==> tagged_exprs(
                es@,
                old(self).next_id as nat,
                final(self).next_id as nat,
            ),
        decreases old(self).tokens@.len() - old(self).current, 19nat,
    {
        let ghost ts = self.tokens@;
        let mut found: Vec<Expr> = Vec::new();
        if self.check(TokenType::RightParen) {
            return Ok(found);
        }
        loop
            invariant
                self.wf(),
                self.tokens@ == ts,
                ts == old(self).tokens@,
                self.current >= old(self).current,
                self.errors@.len() >= old(self).errors@.len(),
                arguments_more(ts, self.cursor(), expr_models(found@, found@.len())) == arguments(
                    ts,
                    old(self).cursor(),
                ),
                self.next_id >= old(self).next_id,
                tagged_exprs(found@, old(self).next_id as nat, self.next_id as nat),
            decreases ts.len() - self.current,
        {
            proof {
                lemma_expr_models_len(found@, found@.len());
            }
            if found.len() >= 255 {
                let token = self.peek();
                let _ = self.error(&token, "Can't have more than 255 arguments.");
            }
            let ghost mark = self.next_id;
            let e = match self.expression() {
                Ok(e) => e,
                Err(x) => {
                    return Err(x);
                },
            };
            proof {
                lemma_expr_models_push(found@, e);
                lemma_tagged_exprs_push(
                    found@,
                    e,
                    old(self).next_id as nat,
                    mark as nat,
                    self.next_id as nat,
                );
            }
            found.push(e);
            if !self.is_match(TokenType::Comma) {
                return Ok(found);
            }
        }
    }

    /// unary := ("!" | "-") unary | call
    fn unary(&mut self) -> (r: Result<Expr, SaturdayResult>)
        requires
            old(self).wf(),
        ensures
            final(self).made_expr(old(self), r, unary(old(self).tokens@, old(self).cursor())),
        decreases old(self).tokens@.len() - old(self).current, 3nat,
    {
        if self.check(TokenType::Bang) || self.check(TokenType::Minus) {
            let operator = self.peek();
            self.advance();
            match self.unary() {
                Ok(right) => Ok(Expr::Unary(UnaryExpr { operator, right: Box::new(right) })),
                Err(x) => Err(x),
            }
        } else {
            self.call()
        }
    }

    /// Whether a token of the kind `kind` is an operator of the level `level`.
    fn is_operator(level: u8, kind: TokenType) -> (r: bool)
        ensures
            r == is_operator(level as nat, kind),
    {
        if level == 0 {
            kind == TokenType::Slash || kind == TokenType::Star
        } else if level == 1 {
            kind == TokenType::Minus || kind == TokenType::Plus
        } else if level == 2 {
            kind == TokenType::Greater || kind == TokenType::GreaterEqual || kind
                == TokenType::Less || kind == TokenType::LessEqual
        } else if level == 3 {
            kind == TokenType::BangEqual || kind == TokenType::Equal
        } else if level == 4 {
            kind == TokenType::And
        } else {
            kind == TokenType::Or
        }
    }

    /// The infix operations of a level: factor, term, comparison, equality,
    /// logic_and and logic_or are the levels 0 to 5.
    fn infix(&mut self, level: u8) -> (r: Result<Expr, SaturdayResult>)
        requires
            old(self).wf(),
            level <= 5,
        ensures
            final(self).made_expr(
                old(self),
                r,
                infix(old(self).tokens@, old(self).cursor(), level as nat),
            ),
        decreases old(self).tokens@.len() - old(self).current, 5 + 2 * level,
    {
        let left = match self.operand(level) {
            Ok(e) => e,
            Err(x) => {
                return Err(x);
            },
        };
        self.infix_rest(left, level, Ghost(old(self).next_id as nat))
    }

    /// An operand of a level.
    fn operand(&mut self, level: u8) -> (r: Result<Expr, SaturdayResult>)
        requires
            old(self).wf(),
            level <= 5,
        ensures
            final(self).made_expr(
                old(self),
                r,
                operand(old(self).tokens@, old(self).cursor(), level as nat),
            ),
        decreases old(self).tokens@.len() - old(self).current, 4 + 2 * level,
    {
        if level == 0 {
            self.unary()
        } else {
            self.infix(level - 1)
        }
    }

    /// The operators and operands behind a left operand.
    fn infix_rest(&mut self, left: Expr, level: u8, Ghost(lo): Ghost<nat>) -> (r: Result<
        Expr,
        SaturdayResult,
    >)
        requires
            old(self).wf(),
            level <= 5,
            tagged_expr(left, lo, old(self).next_id as nat),
            lo <= old(self).next_id,
        ensures
            r matches Ok(e) ==> tagged_expr(e, lo, final(self).next_id as nat),
            final(self).at(
                old(self),
                infix_rest(
                    old(self).tokens@,
                    expr_model(left),
                    old(self).cursor(),
                    level as nat,
                ).cursor,
            ),
            gives_expr(
                r,
                infix_rest(old(self).tokens@, expr_model(left), old(self).cursor(), level as nat),
            ),
        decreases old(self).tokens@.len() - old(self).current, 4 + 2 * level,
    {
        let ghost ts = self.tokens@;
        let ghost goal = infix_rest(ts, expr_model(left), self.cursor(), level as nat);
        let mut expr = left;
        loop
            invariant
                self.wf(),
                level <= 5,
                self.tokens@ == ts,
                ts == old(self).tokens@,
                self.current >= old(self).current,
                self.errors@.len() >= old(self).errors@.len(),
                infix_rest(ts, expr_model(expr), self.cursor(), level as nat) == goal,
                self.next_id >= old(self).next_id,
                lo <= old(self).next_id,
                tagged_expr(expr, lo, self.next_id as nat),
                goal == infix_rest(
                    old(self).tokens@,
                    expr_model(left),
                    old(self).cursor(),
                    level as nat,
                ),
            decreases ts.len() - self.current,
        {
            if self.is_at_end() || !Parser::is_operator(
                level,
                self.tokens[self.current].token_type(),
            ) {
                return Ok(expr);
            }
            let operator = self.peek();
            self.advance();
            let right = match self.operand(level) {
                Ok(e) => e,
                Err(x) => {
                    return Err(x);
                },
            };
            expr = if level >= 4 {
                Expr::Logical(LogicalExpr { left: Box::new(expr), operator, right: Box::new(right) })
            } else {
                Expr::Binary(BinaryExpr { left: Box::new(expr), operator, right: Box::new(right) })
            };
        }
    }

    /// assignment := IDENT "=" assignment | logic_or
    fn assignment(&mut self) -> (r: Result<Expr, SaturdayResult>)
        requires
            old(self).wf(),
        ensures
            final(self).made_expr(old(self), r, assignment(old(self).tokens@, old(self).cursor())),
        decreases old(self).tokens@.len() - old(self).current, 16nat,
    {
        let target = match self.infix(5) {
            Ok(e) => e,
            Err(x) => {
                return Err(x);
            },
        };
        if self.check(TokenType::Assign) {
            let equals = self.peek();
            self.advance();
            let value = match self.assignment() {
                Ok(e) => e,
                Err(x) => {
                    return Err(x);
                },
            };
            match target {
                Expr::Variable(x) => Ok(
                    Expr::Assign(AssignExpr { id: x.id, name: x.name, value: Box::new(value) }),
                ),
                other => {
                    let _ = self.error(&equals, "Invalid assignment target.");
                    Ok(other)
                },
            }
        } else {
            Ok(target)
        }
    }

    /// expression := assignment
    fn expression(&mut self) -> (r: Result<Expr, SaturdayResult>)
        requires
            old(self).wf(),
        ensures
            final(self).made_expr(old(self), r, expression(old(self).tokens@, old(self).cursor())),
        decreases old(self).tokens@.len() - old(self).current, 17nat,
    {
        self.assignment()
    }

    /// No expression before a token of the kind `stop`, else an expression.
    fn optional_expression(&mut self, stop: TokenType) -> (r: Result<Option<Expr>, SaturdayResult>)
        requires
            old(self).wf(),
        ensures
            final(self).at(
                old(self),
                optional_expression(old(self).tokens@, old(self).cursor(), stop).cursor,
            ),
            gives_optional_expr(
                r,
                optional_expression(old(self).tokens@, old(self).cursor(), stop),
            ),
            r matches Ok(Some(e)) ==> tagged_expr(
                e,
                old(self).next_id as nat,
                final(self).next_id as nat,
            ),
    {
        if self.check(stop) {
            Ok(None)
        } else {
            match self.expression() {
                Ok(e) => Ok(Some(e)),
                Err(x) => Err(x),
            }
        }
    }

    /// expr_stmt := expression ";"
    fn expression_statement(&mut self) -> (r: Result<Stmt, SaturdayResult>)
        requires
            old(self).wf(),
        ensures
            final(self).made_plain(
                old(self),
                r,
                expression_statement(old(self).tokens@, old(self).cursor()),
            ),
    {
        let expression = match self.expression() {
            Ok(e) => e,
            Err(x) => {
                return Err(x);
            },
        };
        match self.consume(TokenType::SemiColon, "Expect ';' after expression.") {
            Ok(_) => Ok(Stmt::Expression(ExpressionStmt { expression })),
            Err(x) => Err(x),
        }
    }

    /// print_stmt := "print" expression ";", behind the keyword.
    fn print_statement(&mut self) -> (r: Result<Stmt, SaturdayResult>)
        requires
            old(self).wf(),
        ensures
            final(self).made_plain(
                old(self),
                r,
                print_statement(old(self).tokens@, old(self).cursor()),
            ),
    {
        let expression = match self.expression() {
            Ok(e) => e,
            Err(x) => {
                return Err(x);
            },
        };
        match self.consume(TokenType::SemiColon, "Expect ';' after value.") {
            Ok(_) => Ok(Stmt::Print(PrintStmt { expression })),
            Err(x) => Err(x),
        }
    }

    /// break_stmt := "break" ";", behind the keyword.
    fn break_statement(&mut self, token: Token) -> (r: Result<Stmt, SaturdayResult>)
        requires
            old(self).wf(),
        ensures
            final(self).made_plain(
                old(self),
                r,
                break_statement(old(self).tokens@, token, old(self).cursor()),
            ),
    {
        match self.consume(TokenType::SemiColon, "Expect ';' after 'break'.") {
            Ok(_) => Ok(Stmt::Break(BreakStmt { token })),
            Err(x) => Err(x),
        }
    }

    /// return_stmt := "return" expression? ";", behind the keyword.
    fn return_statement(&mut self, keyword: Token) -> (r: Result<Stmt, SaturdayResult>)
        requires
            old(self).wf(),
        ensures
            final(self).made_plain(
                old(self),
                r,
                return_statement(old(self).tokens@, keyword, old(self).cursor()),
            ),
    {
        let value = match self.optional_expression(TokenType::SemiColon) {
            Ok(v) => v,
            Err(x) => {
                return Err(x);
            },
        };
        match self.consume(TokenType::SemiColon, "Expect ';' after return value.") {
            Ok(_) => Ok(Stmt::Return(ReturnStmt { keyword, value })),
            Err(x) => Err(x),
        }
    }

    /// def_decl := "def" IDENT ("=" expression)? ";", behind the keyword.
    fn def_declaration(&mut self) -> (r: Result<Stmt, SaturdayResult>)
        requires
            old(self).wf(),
        ensures
            final(self).made_stmt(
                old(self),
                r,
                def_declaration(old(self).tokens@, old(self).cursor()),
            ),
    {
        let name = match self.consume(TokenType::Identifier, "Expect variable name.") {
            Ok(t) => t,
            Err(x) => {
                return Err(x);
            },
        };
        let initializer = if self.is_match(TokenType::Assign) {
            match self.expression() {
                Ok(e) => Some(e),
                Err(x) => {
                    return Err(x);
                },
            }
        } else {
            None
        };
        match self.consume(TokenType::SemiColon, "Expect ';' after variable declaration.") {
            Ok(_) => Ok(Stmt::Def(DefStmt { name, initializer })),
            Err(x) => Err(x),
        }
    }

    /// params := IDENT ("," IDENT)*, or nothing before a `)`.
    fn parameters(&mut self) -> (r: Result<Vec<Token>, SaturdayResult>)
        requires
            old(self).wf(),
        ensures
            final(self).at(old(self), parameters(old(self).tokens@, old(self).cursor()).cursor),
            gives_tokens(r, parameters(old(self).tokens@, old(self).cursor())),
    {
        let ghost ts = self.tokens@;
        let mut found: Vec<Token> = Vec::new();
        if self.check(TokenType::RightParen) {
            return Ok(found);
        }
        loop
            invariant
                self.wf(),
                self.tokens@ == ts,
                ts == old(self).tokens@,
                self.current >= old(self).current,
                self.errors@.len() >= old(self).errors@.len(),
                self.next_id == old(self).next_id,
                parameters_more(ts, self.cursor(), found@) == parameters(ts, old(self).cursor()),
            decreases ts.len() - self.current,
        {
            if found.len() >= 255 {
                let token = self.peek();
                let _ = self.error(&token, "Can't have more than 255 parameters.");
            }
            let name = match self.consume(TokenType::Identifier, "Expect parameter name.") {
                Ok(t) => t,
                Err(x) => {
                    return Err(x);
                },
            };
            found.push(name);
            if !self.is_match(TokenType::Comma) {
                return Ok(found);
            }
        }
    }

    /// declaration := def_decl | fun_decl | statement
    fn declaration(&mut self) -> (r: Result<Stmt, SaturdayResult>)
        requires
            old(self).wf(),
        ensures
            final(self).at(old(self), declaration(old(self).tokens@, old(self).cursor()).cursor),
            gives_stmt(r, declaration(old(self).tokens@, old(self).cursor())),
            !at_end(old(self).tokens@, old(self).cursor()) ==> final(self).current > old(
                self,
            ).current,
            r matches Ok(s) ==> tagged_stmt(
                s,
                old(self).next_id as nat,
                final(self).next_id as nat,
            ),
        decreases old(self).tokens@.len() - old(self).current, 22nat,
    {
        let result = if self.is_match(TokenType::Def) {
            self.def_declaration()
        } else if self.is_match(TokenType::Fun) {
            self.function()
        } else {
            self.statement()
        };
        match result {
            Ok(s) => Ok(s),
            Err(x) => {
                self.synchronize();
                Err(x)
            },
        }
    }

    /// statement := print_stmt | block | if_stmt | while_stmt | for_stmt
    ///            | return_stmt | break_stmt | expr_stmt
    fn statement(&mut self) -> (r: Result<Stmt, SaturdayResult>)
        requires
            old(self).wf(),
        ensures
            final(self).made_plain(old(self), r, statement(old(self).tokens@, old(self).cursor())),
        decreases old(self).tokens@.len() - old(self).current, 21nat,
    {
        if self.is_match(TokenType::Print) {
            self.print_statement()
        } else if self.is_match(TokenType::LeftBrace) {
            match self.block() {
                Ok(statements) => Ok(block_of(statements)),
                Err(x) => Err(x),
            }
        } else if self.is_match(TokenType::If) {
            self.if_statement()
        } else if self.is_match(TokenType::While) {
            self.while_statement()
        } else if self.is_match(TokenType::For) {
            self.for_statement()
        } else if self.check(TokenType::Return) {
            let keyword = self.peek();
            self.advance();
            self.return_statement(keyword)
        } else if self.check(TokenType::Break) {
            let token = self.peek();
            self.advance();
            self.break_statement(token)
        } else {
            self.expression_statement()
        }
    }

    /// block := "{" declaration* "}", behind the opening brace.
    fn block(&mut self) -> (r: Result<Vec<Stmt>, SaturdayResult>)
        requires
            old(self).wf(),
        ensures
            final(self).at(old(self), block(old(self).tokens@, old(self).cursor()).cursor),
            gives_stmts(r, block(old(self).tokens@, old(self).cursor())),
            r is Ok ==> final(self).current > old(self).current,
            r matches Ok(ss) ==> tagged_stmts(
                ss@,
                old(self).next_id as nat,
                final(self).next_id as nat,
            ),
        decreases old(self).tokens@.len() - old(self).current, 24nat,
    {
        let ghost ts = self.tokens@;
        let mut statements: Vec<Stmt> = Vec::new();
        while !self.check(TokenType::RightBrace) && !self.is_at_end()
            invariant
                self.wf(),
                self.tokens@ == ts,
                ts == old(self).tokens@,
                self.current >= old(self).current,
                self.errors@.len() >= old(self).errors@.len(),
                block_items(ts, self.cursor(), stmt_models(statements@, statements@.len()))
                    == block_items(ts, old(self).cursor(), Seq::empty()),
                self.next_id >= old(self).next_id,
                tagged_stmts(statements@, old(self).next_id as nat, self.next_id as nat),
            decreases ts.len() - self.current,
        {
            let ghost mark = self.next_id;
            match self.declaration() {
                Ok(s) => {
                    proof {
                        lemma_stmt_models_push(statements@, s);
                        lemma_tagged_stmts_push(
                            statements@,
                            s,
                            old(self).next_id as nat,
                            mark as nat,
                            self.next_id as nat,
                        );
                    }
                    statements.push(s);
                },
                Err(_) => {
                    proof {
                        lemma_tagged_stmts_wider(
                            statements@,
                            old(self).next_id as nat,
                            mark as nat,
                            self.next_id as nat,
                        );
                    }
                },
            }
        }
        match self.consume(TokenType::RightBrace, "Expect '}' after block.") {
            Ok(_) => Ok(statements),
            Err(x) => Err(x),
        }
    }

    /// if_stmt := "if" "(" expression ")" statement ("else" statement)?, behind the keyword.
    fn if_statement(&mut self) -> (r: Result<Stmt, SaturdayResult>)
        requires
            old(self).wf(),
        ensures
            final(self).made_plain(old(self), r, if_statement(old(self).tokens@, old(self).cursor())),
        decreases old(self).tokens@.len() - old(self).current, 25nat,
    {
        match self.consume(TokenType::LeftParen, "Expect '(' after 'if'.") {
            Ok(_) => {},
            Err(x) => {
                return Err(x);
            },
        }
        let condition = match self.expression() {
            Ok(e) => e,
            Err(x) => {
                return Err(x);
            },
        };
        match self.consume(TokenType::RightParen, "Expect ')' after if condition.") {
            Ok(_) => {},
            Err(x) => {
                return Err(x);
            },
        }
        let then_branch = match self.statement() {
            Ok(s) => s,
            Err(x) => {
                return Err(x);
            },
        };
        let else_branch = if self.is_match(TokenType::Else) {
            match self.statement() {
                Ok(s) => Some(Box::new(s)),
                Err(x) => {
                    return Err(x);
                },
            }
        } else {
            None
        };
        Ok(Stmt::If(IfStmt { condition, then_branch: Box::new(then_branch), else_branch }))
    }

    /// while_stmt := "while" "(" expression ")" statement, behind the keyword.
    fn while_statement(&mut self) -> (r: Result<Stmt, SaturdayResult>)
        requires
            old(self).wf(),
        ensures
            final(self).made_plain(
                old(self),
                r,
                while_statement(old(self).tokens@, old(self).cursor()),
            ),
        decreases old(self).tokens@.len() - old(self).current, 25nat,
    {
        match self.consume(TokenType::LeftParen, "Expect '(' after 'while'.") {
            Ok(_) => {},
            Err(x) => {
                return Err(x);
            },
        }
        let condition = match self.expression() {
            Ok(e) => e,
            Err(x) => {
                return Err(x);
            },
        };
        match self.consume(TokenType::RightParen, "Expect ')' after condition.") {
            Ok(_) => {},
            Err(x) => {
                return Err(x);
            },
        }
        match self.statement() {
            Ok(body) => Ok(Stmt::While(WhileStmt { condition, body: Box::new(body) })),
            Err(x) => Err(x),
        }
    }

    /// The first clause of a `for`.
    fn for_initializer(&mut self) -> (r: Result<Option<Stmt>, SaturdayResult>)
        requires
            old(self).wf(),
        ensures
            final(self).at(
                old(self),
                for_initializer(old(self).tokens@, old(self).cursor()).cursor,
            ),
            gives_optional_stmt(r, for_initializer(old(self).tokens@, old(self).cursor())),
            r matches Ok(Some(s)) ==> tagged_stmt(
                s,
                old(self).next_id as nat,
                final(self).next_id as nat,
            ),
    {
        if self.is_match(TokenType::SemiColon) {
            Ok(None)
        } else {
            let s = if self.is_match(TokenType::Def) {
                self.def_declaration()
            } else {
                self.expression_statement()
            };
            match s {
                Ok(x) => Ok(Some(x)),
                Err(x) => Err(x),
            }
        }
    }

    /// for_stmt := "for" "(" (def_decl | expr_stmt | ";") expression? ";" expression? ")" statement,
    /// behind the keyword.
    fn for_statement(&mut self) -> (r: Result<Stmt, SaturdayResult>)
        requires
            old(self).wf(),
        ensures
            final(self).made_plain(
                old(self),
                r,
                for_statement(old(self).tokens@, old(self).cursor()),
            ),
        decreases old(self).tokens@.len() - old(self).current, 25nat,
    {
        match self.consume(TokenType::LeftParen, "Expect '(' after 'for'.") {
            Ok(_) => {},
            Err(x) => {
                return Err(x);
            },
        }
        let initializer = match self.for_initializer() {
            Ok(s) => s,
            Err(x) => {
                return Err(x);
            },
        };
        let condition = match self.optional_expression(TokenType::SemiColon) {
            Ok(e) => e,
            Err(x) => {
                return Err(x);
            },
        };
        match self.consume(TokenType::SemiColon, "Expect ';' after loop condition.") {
            Ok(_) => {},
            Err(x) => {
                return Err(x);
            },
        }
        let increment = match self.optional_expression(TokenType::RightParen) {
            Ok(e) => e,
            Err(x) => {
                return Err(x);
            },
        };
        match self.consume(TokenType::RightParen, "Expect ')' after for clauses.") {
            Ok(_) => {},
            Err(x) => {
                return Err(x);
            },
        }
        match self.statement() {
            Ok(body) => Ok(desugar_for(initializer, condition, increment, body)),
            Err(x) => Err(x),
        }
    }

    /// function := IDENT "(" params? ")" "{" declaration* "}", behind the keyword `fun`.
    fn function(&mut self) -> (r: Result<Stmt, SaturdayResult>)
        requires
            old(self).wf(),
        ensures
            final(self).made_stmt(old(self), r, function(old(self).tokens@, old(self).cursor())),
        decreases old(self).tokens@.len() - old(self).current, 25nat,
    {
        let name = match self.consume(TokenType::Identifier, "Expect function name.") {
            Ok(t) => t,
            Err(x) => {
                return Err(x);
            },
        };
        match self.consume(TokenType::LeftParen, "Expect '(' after function name.") {
            Ok(_) => {},
            Err(x) => {
                return Err(x);
            },
        }
        let params = match self.parameters() {
            Ok(p) => p,
            Err(x) => {
                return Err(x);
            },
        };
        match self.consume(TokenType::RightParen, "Expect ')' after parameters.") {
            Ok(_) => {},
            Err(x) => {
                return Err(x);
            },
        }
        match self.consume(TokenType::LeftBrace, "Expect '{' before function body.") {
            Ok(_) => {},
            Err(x) => {
                return Err(x);
            },
        }
        match self.block() {
            Ok(body) => Ok(
                Stmt::Function(FunctionStmt { name, params: Rc::new(params), body: Rc::new(body) }),
            ),
            Err(x) => Err(x),
        }
    }
}

/// Parsing is a function of the token stream: the statements that two parses
/// make of one stream from one cursor have the same shape.
pub proof fn lemma_two_parses_agree(ts: Seq<Token>, c: Cursor, a: Seq<Stmt>, b: Seq<Stmt>)
    requires
        Some(stmt_models(a, a.len())) == program(ts, c, Seq::empty()).value,
        Some(stmt_models(b, b.len())) == program(ts, c, Seq::empty()).value,
    ensures
        stmt_models(a, a.len()) == stmt_models(b, b.len()),
{
}

/// The shape of an expression that may be absent.
pub open spec fn optional_expr_model(e: Option<Expr>) -> Option<ExprModel> {
    match e {
        Some(x) => Some(expr_model(x)),
        None => None,
    }
}

/// The shape of a statement that may be absent.
pub open spec fn optional_stmt_model(s: Option<Stmt>) -> Option<StmtModel> {
    match s {
        Some(x) => Some(stmt_model(x)),
        None => None,
    }
}

/// The block of a list of statements.
pub fn block_of(statements: Vec<Stmt>) -> (r: Stmt)
    ensures
        r == Stmt::Block(BlockStmt { statements }),
        stmt_model(r) == (StmtModel::Block {
            statements: stmt_models(statements@, statements@.len()),
        }),
        !is_declaration(r),
        stmt_ids(r) == stmts_ids(statements@, 0),
        distinct_stmt(r) == distinct_stmts(statements@, 0),
        well_placed(r) == well_placed_all(statements@, 0),
{
    Stmt::Block(BlockStmt { statements })
}

/// The identities in a statement that may be absent.
pub open spec fn optional_stmt_ids(s: Option<Stmt>) -> Set<u64> {
    match s {
        Some(x) => stmt_ids(x),
        None => Set::empty(),
    }
}

/// The identities in an expression that may be absent.
pub open spec fn optional_expr_ids(e: Option<Expr>) -> Set<u64> {
    match e {
        Some(x) => expr_ids(x),
        None => Set::empty(),
    }
}

/// The parts of a `for` loop have identities of their own, no two parts
/// share one, declarations stand only in lists, and the body is no declaration.
pub open spec fn for_parts_tagged(
    initializer: Option<Stmt>,
    condition: Option<Expr>,
    increment: Option<Expr>,
    body: Stmt,
) -> bool {
    &&& initializer matches Some(s) ==> distinct_stmt(s) && well_placed(s)
    &&& condition matches Some(e) ==> distinct_expr(e)
    &&& increment matches Some(e) ==> distinct_expr(e)
    &&& distinct_stmt(body) && well_placed(body) && !is_declaration(body)
    &&& optional_stmt_ids(initializer).disjoint(
        optional_expr_ids(condition).union(optional_expr_ids(increment)).union(stmt_ids(body)),
    )
    &&& optional_expr_ids(condition).disjoint(optional_expr_ids(increment).union(stmt_ids(body)))
    &&& optional_expr_ids(increment).disjoint(stmt_ids(body))
}

/// Builds what a `for` loop stands for.
pub fn desugar_for(
    initializer: Option<Stmt>,
    condition: Option<Expr>,
    increment: Option<Expr>,
    body: Stmt,
) -> (r: Stmt)
    ensures
        stmt_model(r) == for_loop(
            optional_stmt_model(initializer),
            optional_expr_model(condition),
            optional_expr_model(increment),
            stmt_model(body),
        ),
        !is_declaration(r),
        stmt_ids(r) == optional_stmt_ids(initializer).union(optional_expr_ids(condition)).union(
            optional_expr_ids(increment),
        ).union(stmt_ids(body)),
        for_parts_tagged(initializer, condition, increment, body) ==> distinct_stmt(r)
            && well_placed(r),
{
    let ghost none: Seq<Stmt> = Seq::empty();
    let mut inner: Vec<Stmt> = Vec::new();
    proof {
        assert(stmt_models(inner@, 0) =~= Seq::<StmtModel>::empty());
        assert(inner@ =~= none);
        lemma_stmt_models_push(inner@, body);
        lemma_stmts_ids_push(none, body, 0);
        if for_parts_tagged(initializer, condition, increment, body) {
            lemma_stmts_push(none, body, 0);
        }
    }
    inner.push(body);
    assert(stmt_models(inner@, inner@.len()) =~= seq![stmt_model(body)]);
    assert(stmts_ids(inner@, 0) =~= stmt_ids(body));
    match increment {
        Some(e) => {
            let s = Stmt::Expression(ExpressionStmt { expression: e });
            proof {
                lemma_stmt_models_push(inner@, s);
                lemma_stmts_ids_push(inner@, s, 0);
                if for_parts_tagged(initializer, condition, increment, body) {
                    lemma_stmts_push(inner@, s, 0);
                }
            }
            inner.push(s);
        },
        None => {},
    }
    let test = match condition {
        Some(e) => e,
        None => Expr::Literal(LiteralExpr { value: Some(Object::Bool(true)) }),
    };
    let ghost steps = stmt_models(inner@, inner@.len());
    assert(steps =~= match increment {
        Some(e) => seq![stmt_model(body), StmtModel::Expression { expression: expr_model(e) }],
        None => seq![stmt_model(body)],
    });
    assert(stmts_ids(inner@, 0) =~= stmt_ids(body).union(optional_expr_ids(increment)));
    assert(expr_ids(test) =~= optional_expr_ids(condition));
    let stepped = block_of(inner);
    let repeated = Stmt::While(WhileStmt { condition: test, body: Box::new(stepped) });
    assert(stmt_model(repeated) == StmtModel::While {
        condition: expr_model(test),
        body: Box::new(StmtModel::Block { statements: steps }),
    });
    assert(stmt_ids(repeated) =~= optional_expr_ids(condition).union(
        stmt_ids(body).union(optional_expr_ids(increment)),
    ));
    let mut outer: Vec<Stmt> = Vec::new();
    assert(stmt_models(outer@, 0) =~= Seq::<StmtModel>::empty());
    assert(outer@ =~= none);
    match initializer {
        Some(s) => {
            proof {
                lemma_stmt_models_push(outer@, s);
                lemma_stmts_ids_push(none, s, 0);
                if for_parts_tagged(initializer, condition, increment, body) {
                    lemma_stmts_push(none, s, 0);
                }
            }
            outer.push(s);
            assert(stmt_models(outer@, outer@.len()) =~= seq![stmt_model(s)]);
        },
        None => {},
    }
    assert(stmts_ids(outer@, 0) =~= optional_stmt_ids(initializer));
    proof {
        lemma_stmt_models_push(outer@, repeated);
        lemma_stmts_ids_push(outer@, repeated, 0);
        if for_parts_tagged(initializer, condition, increment, body) {
            assert(distinct_stmt(repeated));
            assert(well_placed(repeated));
            lemma_stmts_push(outer@, repeated, 0);
        }
    }
    outer.push(repeated);
    proof {
        assert(stmt_models(outer@, outer@.len()) =~= match initializer {
            Some(s) => seq![stmt_model(s), stmt_model(repeated)],
            None => seq![stmt_model(repeated)],
        });
        assert(stmts_ids(outer@, 0) =~= optional_stmt_ids(initializer).union(
            optional_expr_ids(condition),
        ).union(optional_expr_ids(increment)).union(stmt_ids(body)));
    }
    block_of(outer)
}

} // verus!
