use vstd::prelude::*;
use crate::error::Complaint;
use crate::expr::Expr;
use crate::object::Object;
use crate::stmt::Stmt;
use crate::token::Token;
use crate::token_type::TokenType;

verus! {

/// The shape of an expression: the expression with its lists as sequences.
pub enum ExprModel {
    Assign { id: u64, name: Token, value: Box<ExprModel> },
    Binary { left: Box<ExprModel>, operator: Token, right: Box<ExprModel> },
    Call { callee: Box<ExprModel>, paren: Token, arguments: Seq<ExprModel> },
    Grouping { expression: Box<ExprModel> },
    Literal { value: Option<Object> },
    Logical { left: Box<ExprModel>, operator: Token, right: Box<ExprModel> },
    Unary { operator: Token, right: Box<ExprModel> },
    Variable { id: u64, name: Token },
}

/// The shape of a statement: the statement with its lists as sequences.
pub enum StmtModel {
    Block { statements: Seq<StmtModel> },
    Break { token: Token },
    Expression { expression: ExprModel },
    Function { name: Token, params: Seq<Token>, body: Seq<StmtModel> },
    If { condition: ExprModel, then_branch: Box<StmtModel>, else_branch: Option<Box<StmtModel>> },
    Print { expression: ExprModel },
    Return { keyword: Token, value: Option<ExprModel> },
    Def { name: Token, initializer: Option<ExprModel> },
    While { condition: ExprModel, body: Box<StmtModel> },
}

/// The shape of an expression.
pub open spec fn expr_model(e: Expr) -> ExprModel
    decreases e, 0int,
{
    match e {
        Expr::Assign(x) => ExprModel::Assign {
            id: x.id,
            name: x.name,
            value: Box::new(expr_model(*x.value)),
        },
        Expr::Binary(x) => ExprModel::Binary {
            left: Box::new(expr_model(*x.left)),
            operator: x.operator,
            right: Box::new(expr_model(*x.right)),
        },
        Expr::Call(x) => ExprModel::Call {
            callee: Box::new(expr_model(*x.callee)),
            paren: x.paren,
            arguments: expr_models(x.arguments@, x.arguments@.len()),
        },
        Expr::Grouping(x) => ExprModel::Grouping { expression: Box::new(expr_model(*x.expression)) },
        Expr::Literal(x) => ExprModel::Literal { value: x.value },
        Expr::Logical(x) => ExprModel::Logical {
            left: Box::new(expr_model(*x.left)),
            operator: x.operator,
            right: Box::new(expr_model(*x.right)),
        },
        Expr::Unary(x) => ExprModel::Unary {
            operator: x.operator,
            right: Box::new(expr_model(*x.right)),
        },
        Expr::Variable(x) => ExprModel::Variable { id: x.id, name: x.name },
    }
}

/// The shapes of the first `k` expressions of a list.
pub open spec fn expr_models(es: Seq<Expr>, k: nat) -> Seq<ExprModel>
    decreases es, k,
{
    if k == 0 || k > es.len() {
        Seq::empty()
    } else {
        expr_models(es, (k - 1) as nat).push(expr_model(es[k - 1]))
    }
}

/// The shape of a statement.
pub open spec fn stmt_model(s: Stmt) -> StmtModel
    decreases s, 0int,
{
    match s {
        Stmt::Block(x) => StmtModel::Block {
            statements: stmt_models(x.statements@, x.statements@.len()),
        },
        Stmt::Break(x) => StmtModel::Break { token: x.token },
        Stmt::Expression(x) => StmtModel::Expression { expression: expr_model(x.expression) },
        Stmt::Function(x) => StmtModel::Function {
            name: x.name,
            params: x.params@,
            body: stmt_models(x.body@, x.body@.len()),
        },
        Stmt::If(x) => StmtModel::If {
            condition: expr_model(x.condition),
            then_branch: Box::new(stmt_model(*x.then_branch)),
            else_branch: match x.else_branch {
                Some(other) => Some(Box::new(stmt_model(*other))),
                None => None,
            },
        },
        Stmt::Print(x) => StmtModel::Print { expression: expr_model(x.expression) },
        Stmt::Return(x) => StmtModel::Return {
            keyword: x.keyword,
            value: match x.value {
                Some(value) => Some(expr_model(value)),
                None => None,
            },
        },
        Stmt::Def(x) => StmtModel::Def {
            name: x.name,
            initializer: match x.initializer {
                Some(value) => Some(expr_model(value)),
                None => None,
            },
        },
        Stmt::While(x) => StmtModel::While {
            condition: expr_model(x.condition),
            body: Box::new(stmt_model(*x.body)),
        },
    }
}

/// The shapes of the first `k` statements of a list.
pub open spec fn stmt_models(ss: Seq<Stmt>, k: nat) -> Seq<StmtModel>
    decreases ss, k,
{
    if k == 0 || k > ss.len() {
        Seq::empty()
    } else {
        stmt_models(ss, (k - 1) as nat).push(stmt_model(ss[k - 1]))
    }
}

/// Where a parser stands: the position of the next token, the identity that
/// the next use of a variable gets, and the errors reported so far.
pub struct Cursor {
    pub pos: int,
    pub id: nat,
    pub errors: Seq<Complaint>,
}

/// What a rule of the grammar gives: a value, or `None` after an error that
/// ends the rule, and where the parser stands afterwards.
pub struct Parsed<T> {
    pub value: Option<T>,
    pub cursor: Cursor,
}

impl Cursor {
    /// This cursor, but not before position `pos`.
    pub open spec fn not_before(self, pos: int) -> Cursor {
        if self.pos >= pos {
            self
        } else {
            Cursor { pos, ..self }
        }
    }

    /// This cursor with one more error, at `token`.
    pub open spec fn complain(self, token: Token, message: Seq<char>) -> Cursor {
        Cursor { errors: self.errors.push(Complaint { token, message }), ..self }
    }
}

/// The value `value`, with the parser at `cursor`.
pub open spec fn ok<T>(value: T, cursor: Cursor) -> Parsed<T> {
    Parsed { value: Some(value), cursor }
}

/// Nothing, after an error, with the parser at `cursor`.
pub open spec fn none<T>(cursor: Cursor) -> Parsed<T> {
    Parsed { value: None, cursor }
}

/// The number of tokens from the cursor to the end.
pub open spec fn remaining(ts: Seq<Token>, c: Cursor) -> nat {
    if c.pos < ts.len() {
        (ts.len() - c.pos) as nat
    } else {
        0
    }
}

/// Whether the cursor stands at the end-of-file token, or outside the tokens.
pub open spec fn at_end(ts: Seq<Token>, c: Cursor) -> bool {
    !(0 <= c.pos < ts.len()) || ts[c.pos].t_type == TokenType::Eof
}

/// Whether the next token is of the kind `kind`. The end-of-file token is of no kind.
pub open spec fn check(ts: Seq<Token>, c: Cursor, kind: TokenType) -> bool {
    !at_end(ts, c) && ts[c.pos].t_type == kind
}

/// The cursor behind the next token. The end-of-file token is never passed.
pub open spec fn step(ts: Seq<Token>, c: Cursor) -> Cursor {
    if at_end(ts, c) {
        c
    } else {
        Cursor { pos: c.pos + 1, ..c }
    }
}

/// The error `message` at the next token, which ends the rule.
pub open spec fn fail<T>(ts: Seq<Token>, c: Cursor, message: Seq<char>) -> Parsed<T> {
    none(c.complain(ts[c.pos], message))
}

/// The next token if it is of the kind `kind`, else the error `message`.
pub open spec fn consume(ts: Seq<Token>, c: Cursor, kind: TokenType, message: Seq<char>) -> Parsed<
    Token,
> {
    if check(ts, c, kind) {
        ok(ts[c.pos], step(ts, c))
    } else {
        fail(ts, c, message)
    }
}

/// The operators of the six levels of infix operations, from the tightest
/// (`*` and `/`, level 0) to the loosest (`or`, level 5).
pub open spec fn is_operator(level: nat, kind: TokenType) -> bool {
    if level == 0 {
        kind == TokenType::Slash || kind == TokenType::Star
    } else if level == 1 {
        kind == TokenType::Minus || kind == TokenType::Plus
    } else if level == 2 {
        kind == TokenType::Greater || kind == TokenType::GreaterEqual || kind == TokenType::Less
            || kind == TokenType::LessEqual
    } else if level == 3 {
        kind == TokenType::BangEqual || kind == TokenType::Equal
    } else if level == 4 {
        kind == TokenType::And
    } else {
        kind == TokenType::Or
    }
}

/// The node of an infix operation: logical for `and` and `or`, binary otherwise.
pub open spec fn infix_node(level: nat, left: ExprModel, operator: Token, right: ExprModel) -> ExprModel {
    if level >= 4 {
        ExprModel::Logical { left: Box::new(left), operator, right: Box::new(right) }
    } else {
        ExprModel::Binary { left: Box::new(left), operator, right: Box::new(right) }
    }
}

/// primary := "true" | "false" | "nil" | NUMBER | STRING | "(" expression ")" | IDENT
pub open spec fn primary(ts: Seq<Token>, c: Cursor) -> Parsed<ExprModel>
    decreases remaining(ts, c), 0nat,
{
    if check(ts, c, TokenType::False) {
        ok(ExprModel::Literal { value: Some(Object::Bool(false)) }, step(ts, c))
    } else if check(ts, c, TokenType::True) {
        ok(ExprModel::Literal { value: Some(Object::Bool(true)) }, step(ts, c))
    } else if check(ts, c, TokenType::Nil) {
        ok(ExprModel::Literal { value: Some(Object::Nil) }, step(ts, c))
    } else if check(ts, c, TokenType::Number) || check(ts, c, TokenType::String) {
        ok(ExprModel::Literal { value: ts[c.pos].literal }, step(ts, c))
    } else if check(ts, c, TokenType::Identifier) {
        ok(
            ExprModel::Variable { id: c.id as u64, name: ts[c.pos] },
            Cursor { pos: c.pos + 1, id: c.id + 1, ..c },
        )
    } else if check(ts, c, TokenType::LeftParen) {
        let inner = expression(ts, step(ts, c));
        match inner.value {
            Some(e) => {
                let close = consume(
                    ts,
                    inner.cursor,
                    TokenType::RightParen,
                    "Expect ')' after expression."@,
                );
                match close.value {
                    Some(_) => ok(ExprModel::Grouping { expression: Box::new(e) }, close.cursor),
                    None => none(close.cursor),
                }
            },
            None => none(inner.cursor),
        }
    } else {
        fail(ts, c, "Expect expression."@)
    }
}

/// call := primary ("(" args? ")")*
pub open spec fn call(ts: Seq<Token>, c: Cursor) -> Parsed<ExprModel>
    decreases remaining(ts, c), 2nat,
{
    let p = primary(ts, c);
    match p.value {
        Some(e) => call_rest(ts, e, p.cursor.not_before(c.pos)),
        None => p,
    }
}

/// The calls behind a callee: each `(`, its arguments and its `)`. The
/// opening parenthesis is kept with the call.
pub open spec fn call_rest(ts: Seq<Token>, callee: ExprModel, c: Cursor) -> Parsed<ExprModel>
    decreases remaining(ts, c), 1nat,
{
    if check(ts, c, TokenType::LeftParen) {
        let a = arguments(ts, step(ts, c));
        match a.value {
            Some(args) => {
                let close = consume(
                    ts,
                    a.cursor,
                    TokenType::RightParen,
                    "Expect ')' after arguments."@,
                );
                match close.value {
                    Some(_) => call_rest(
                        ts,
                        ExprModel::Call {
                            callee: Box::new(callee),
                            paren: ts[c.pos],
                            arguments: args,
                        },
                        close.cursor.not_before(c.pos + 1),
                    ),
                    None => none(close.cursor),
                }
            },
            None => none(a.cursor),
        }
    } else {
        ok(callee, c)
    }
}

/// args := expression ("," expression)*, or nothing before a `)`.
pub open spec fn arguments(ts: Seq<Token>, c: Cursor) -> Parsed<Seq<ExprModel>>
    decreases remaining(ts, c), 19nat,
{
    if check(ts, c, TokenType::RightParen) {
        ok(Seq::empty(), c)
    } else {
        arguments_more(ts, c, Seq::empty())
    }
}

/// One more argument behind the arguments `found`. More than 255 arguments
/// are an error, which does not end the rule.
pub open spec fn arguments_more(ts: Seq<Token>, c: Cursor, found: Seq<ExprModel>) -> Parsed<
    Seq<ExprModel>,
>
    decreases remaining(ts, c), 18nat,
    when c.pos < ts.len()
{
    let warned = if found.len() >= 255 {
        c.complain(ts[c.pos], "Can't have more than 255 arguments."@)
    } else {
        c
    };
    let e = expression(ts, warned);
    match e.value {
        Some(x) => if check(ts, e.cursor, TokenType::Comma) {
            arguments_more(ts, step(ts, e.cursor).not_before(c.pos + 1), found.push(x))
        } else {
            ok(found.push(x), e.cursor)
        },
        None => none(e.cursor),
    }
}

/// unary := ("!" | "-") unary | call
pub open spec fn unary(ts: Seq<Token>, c: Cursor) -> Parsed<ExprModel>
    decreases remaining(ts, c), 3nat,
{
    if check(ts, c, TokenType::Bang) || check(ts, c, TokenType::Minus) {
        let r = unary(ts, step(ts, c));
        match r.value {
            Some(right) => ok(
                ExprModel::Unary { operator: ts[c.pos], right: Box::new(right) },
                r.cursor,
            ),
            None => r,
        }
    } else {
        call(ts, c)
    }
}

/// The infix operations of a level: operands of the next tighter level,
/// joined from the left by the operators of this level.
///
/// factor, term, comparison, equality, logic_and and logic_or are the levels 0 to 5.
pub open spec fn infix(ts: Seq<Token>, c: Cursor, level: nat) -> Parsed<ExprModel>
    decreases remaining(ts, c), 5 + 2 * level,
{
    let l = operand(ts, c, level);
    match l.value {
        Some(left) => infix_rest(ts, left, l.cursor.not_before(c.pos), level),
        None => l,
    }
}

/// An operand of a level: an operation of the next tighter level, a unary at level 0.
pub open spec fn operand(ts: Seq<Token>, c: Cursor, level: nat) -> Parsed<ExprModel>
    decreases remaining(ts, c), 4 + 2 * level,
{
    if level == 0 {
        unary(ts, c)
    } else {
        infix(ts, c, (level - 1) as nat)
    }
}

/// The operators and operands behind the left operand `left`.
pub open spec fn infix_rest(ts: Seq<Token>, left: ExprModel, c: Cursor, level: nat) -> Parsed<
    ExprModel,
>
    decreases remaining(ts, c), 4 + 2 * level,
{
    if !at_end(ts, c) && is_operator(level, ts[c.pos].t_type) {
        let r = operand(ts, step(ts, c), level);
        match r.value {
            Some(right) => infix_rest(
                ts,
                infix_node(level, left, ts[c.pos], right),
                r.cursor.not_before(c.pos + 1),
                level,
            ),
            None => r,
        }
    } else {
        ok(left, c)
    }
}

/// assignment := IDENT "=" assignment | logic_or
///
/// The left side is parsed as an expression. Behind a `=` the right side is
/// parsed; if the left side is no variable that is an error at the `=`,
/// which does not end the rule, and the left side alone is the result.
pub open spec fn assignment(ts: Seq<Token>, c: Cursor) -> Parsed<ExprModel>
    decreases remaining(ts, c), 16nat,
{
    let l = infix(ts, c, 5);
    match l.value {
        Some(target) => {
            let at = l.cursor.not_before(c.pos);
            if check(ts, at, TokenType::Assign) {
                let v = assignment(ts, step(ts, at));
                match v.value {
                    Some(value) => match target {
                        ExprModel::Variable { id, name } => ok(
                            ExprModel::Assign { id, name, value: Box::new(value) },
                            v.cursor,
                        ),
                        _ => ok(
                            target,
                            v.cursor.complain(ts[at.pos], "Invalid assignment target."@),
                        ),
                    },
                    None => v,
                }
            } else {
                l
            }
        },
        None => l,
    }
}

/// expression := assignment
pub open spec fn expression(ts: Seq<Token>, c: Cursor) -> Parsed<ExprModel>
    decreases remaining(ts, c), 17nat,
{
    assignment(ts, c)
}


/// `value` if the next token is of the kind `kind`, which is passed; else the error `message`.
pub open spec fn closing<T>(
    ts: Seq<Token>,
    c: Cursor,
    kind: TokenType,
    message: Seq<char>,
    value: T,
) -> Parsed<T> {
    let close = consume(ts, c, kind, message);
    match close.value {
        Some(_) => ok(value, close.cursor),
        None => none(close.cursor),
    }
}

/// No expression before a token of the kind `stop`, else an expression.
pub open spec fn optional_expression(ts: Seq<Token>, c: Cursor, stop: TokenType) -> Parsed<
    Option<ExprModel>,
> {
    if check(ts, c, stop) {
        ok(None, c)
    } else {
        let e = expression(ts, c);
        match e.value {
            Some(x) => ok(Some(x), e.cursor),
            None => none(e.cursor),
        }
    }
}

/// expr_stmt := expression ";"
pub open spec fn expression_statement(ts: Seq<Token>, c: Cursor) -> Parsed<StmtModel> {
    let e = expression(ts, c);
    match e.value {
        Some(x) => closing(
            ts,
            e.cursor,
            TokenType::SemiColon,
            "Expect ';' after expression."@,
            StmtModel::Expression { expression: x },
        ),
        None => none(e.cursor),
    }
}

/// print_stmt := "print" expression ";", behind the keyword.
pub open spec fn print_statement(ts: Seq<Token>, c: Cursor) -> Parsed<StmtModel> {
    let e = expression(ts, c);
    match e.value {
        Some(x) => closing(
            ts,
            e.cursor,
            TokenType::SemiColon,
            "Expect ';' after value."@,
            StmtModel::Print { expression: x },
        ),
        None => none(e.cursor),
    }
}

/// break_stmt := "break" ";", behind the keyword `token`.
pub open spec fn break_statement(ts: Seq<Token>, token: Token, c: Cursor) -> Parsed<StmtModel> {
    closing(ts, c, TokenType::SemiColon, "Expect ';' after 'break'."@, StmtModel::Break { token })
}

/// return_stmt := "return" expression? ";", behind the keyword `keyword`.
pub open spec fn return_statement(ts: Seq<Token>, keyword: Token, c: Cursor) -> Parsed<StmtModel> {
    let v = optional_expression(ts, c, TokenType::SemiColon);
    match v.value {
        Some(value) => closing(
            ts,
            v.cursor,
            TokenType::SemiColon,
            "Expect ';' after return value."@,
            StmtModel::Return { keyword, value },
        ),
        None => none(v.cursor),
    }
}

/// def_decl := "def" IDENT ("=" expression)? ";", behind the keyword.
pub open spec fn def_declaration(ts: Seq<Token>, c: Cursor) -> Parsed<StmtModel> {
    let n = consume(ts, c, TokenType::Identifier, "Expect variable name."@);
    match n.value {
        Some(name) => {
            let v: Parsed<Option<ExprModel>> = if check(ts, n.cursor, TokenType::Assign) {
                let e = expression(ts, step(ts, n.cursor));
                match e.value {
                    Some(x) => ok(Some(x), e.cursor),
                    None => none(e.cursor),
                }
            } else {
                ok(None, n.cursor)
            };
            match v.value {
                Some(initializer) => closing(
                    ts,
                    v.cursor,
                    TokenType::SemiColon,
                    "Expect ';' after variable declaration."@,
                    StmtModel::Def { name, initializer },
                ),
                None => none(v.cursor),
            }
        },
        None => none(n.cursor),
    }
}

/// params := IDENT ("," IDENT)*, or nothing before a `)`.
pub open spec fn parameters(ts: Seq<Token>, c: Cursor) -> Parsed<Seq<Token>> {
    if check(ts, c, TokenType::RightParen) {
        ok(Seq::empty(), c)
    } else {
        parameters_more(ts, c, Seq::empty())
    }
}

/// One more parameter behind the parameters `found`. More than 255
/// parameters are an error, which does not end the rule.
pub open spec fn parameters_more(ts: Seq<Token>, c: Cursor, found: Seq<Token>) -> Parsed<Seq<Token>>
    decreases remaining(ts, c),
{
    let warned = if found.len() >= 255 {
        c.complain(ts[c.pos], "Can't have more than 255 parameters."@)
    } else {
        c
    };
    let n = consume(ts, warned, TokenType::Identifier, "Expect parameter name."@);
    match n.value {
        Some(name) => if check(ts, n.cursor, TokenType::Comma) {
            parameters_more(ts, step(ts, n.cursor), found.push(name))
        } else {
            ok(found.push(name), n.cursor)
        },
        None => none(n.cursor),
    }
}

/// Whether a statement can begin with a token of this kind.
pub open spec fn begins_statement(kind: TokenType) -> bool {
    kind == TokenType::Def || kind == TokenType::Fun || kind == TokenType::For || kind
        == TokenType::If || kind == TokenType::While || kind == TokenType::Print || kind
        == TokenType::Return || kind == TokenType::Break
}

/// Where the parser goes on after an error: behind the next `;`, or before
/// the next token that can begin a statement, whichever comes first; in any
/// case behind the token at which it stands.
pub open spec fn synchronize(ts: Seq<Token>, c: Cursor) -> Cursor {
    recover(ts, step(ts, c))
}

/// The next place at or after the cursor where a statement can begin.
pub open spec fn recover(ts: Seq<Token>, c: Cursor) -> Cursor
    decreases remaining(ts, c),
{
    if at_end(ts, c) {
        c
    } else if c.pos > 0 && ts[c.pos - 1].t_type == TokenType::SemiColon {
        c
    } else if begins_statement(ts[c.pos].t_type) {
        c
    } else {
        recover(ts, step(ts, c))
    }
}

/// The statements `found` and one more, if there is one.
pub open spec fn with_statement(found: Seq<StmtModel>, more: Option<StmtModel>) -> Seq<StmtModel> {
    match more {
        Some(s) => found.push(s),
        None => found,
    }
}

/// What a `for` loop stands for: a block with the initializer, if there is
/// one, and a loop; the loop runs, as long as the condition holds or for
/// ever if there is none, a block with the body and the increment, if there is one.
pub open spec fn for_loop(
    initializer: Option<StmtModel>,
    condition: Option<ExprModel>,
    increment: Option<ExprModel>,
    body: StmtModel,
) -> StmtModel {
    let step = match increment {
        Some(e) => seq![body, StmtModel::Expression { expression: e }],
        None => seq![body],
    };
    let test = match condition {
        Some(e) => e,
        None => ExprModel::Literal { value: Some(Object::Bool(true)) },
    };
    let repeated = StmtModel::While {
        condition: test,
        body: Box::new(StmtModel::Block { statements: step }),
    };
    StmtModel::Block {
        statements: match initializer {
            Some(s) => seq![s, repeated],
            None => seq![repeated],
        },
    }
}

/// declaration := def_decl | fun_decl | statement
///
/// After an error the parser synchronizes, and the declaration gives nothing.
pub open spec fn declaration(ts: Seq<Token>, c: Cursor) -> Parsed<StmtModel>
    decreases remaining(ts, c), 22nat,
{
    let p = if check(ts, c, TokenType::Def) {
        def_declaration(ts, step(ts, c))
    } else if check(ts, c, TokenType::Fun) {
        function(ts, step(ts, c))
    } else {
        statement(ts, c)
    };
    match p.value {
        Some(_) => p,
        None => none(synchronize(ts, p.cursor)),
    }
}

/// statement := print_stmt | block | if_stmt | while_stmt | for_stmt
///            | return_stmt | break_stmt | expr_stmt
pub open spec fn statement(ts: Seq<Token>, c: Cursor) -> Parsed<StmtModel>
    decreases remaining(ts, c), 21nat,
{
    if check(ts, c, TokenType::Print) {
        print_statement(ts, step(ts, c))
    } else if check(ts, c, TokenType::LeftBrace) {
        let b = block(ts, step(ts, c));
        match b.value {
            Some(statements) => ok(StmtModel::Block { statements }, b.cursor),
            None => none(b.cursor),
        }
    } else if check(ts, c, TokenType::If) {
        if_statement(ts, step(ts, c))
    } else if check(ts, c, TokenType::While) {
        while_statement(ts, step(ts, c))
    } else if check(ts, c, TokenType::For) {
        for_statement(ts, step(ts, c))
    } else if check(ts, c, TokenType::Return) {
        return_statement(ts, ts[c.pos], step(ts, c))
    } else if check(ts, c, TokenType::Break) {
        break_statement(ts, ts[c.pos], step(ts, c))
    } else {
        expression_statement(ts, c)
    }
}

/// block := "{" declaration* "}", behind the opening brace.
pub open spec fn block(ts: Seq<Token>, c: Cursor) -> Parsed<Seq<StmtModel>>
    decreases remaining(ts, c), 24nat,
{
    let items = block_items(ts, c, Seq::empty());
    match items.value {
        Some(statements) => closing(
            ts,
            items.cursor,
            TokenType::RightBrace,
            "Expect '}' after block."@,
            statements,
        ),
        None => none(items.cursor),
    }
}

/// The declarations of a block behind the statements `found`, up to the
/// closing brace or the end of the tokens.
pub open spec fn block_items(ts: Seq<Token>, c: Cursor, found: Seq<StmtModel>) -> Parsed<
    Seq<StmtModel>,
>
    decreases remaining(ts, c), 23nat,
{
    if check(ts, c, TokenType::RightBrace) || at_end(ts, c) {
        ok(found, c)
    } else {
        let d = declaration(ts, c);
        block_items(ts, d.cursor.not_before(c.pos + 1), with_statement(found, d.value))
    }
}

/// if_stmt := "if" "(" expression ")" statement ("else" statement)?, behind the keyword.
pub open spec fn if_statement(ts: Seq<Token>, c: Cursor) -> Parsed<StmtModel>
    decreases remaining(ts, c), 25nat,
{
    let open = consume(ts, c, TokenType::LeftParen, "Expect '(' after 'if'."@);
    match open.value {
        Some(_) => {
            let e = expression(ts, open.cursor);
            match e.value {
                Some(condition) => {
                    let close = consume(
                        ts,
                        e.cursor,
                        TokenType::RightParen,
                        "Expect ')' after if condition."@,
                    );
                    match close.value {
                        Some(_) => {
                            let t = statement(ts, close.cursor.not_before(c.pos));
                            match t.value {
                                Some(taken) => {
                                    let at = t.cursor.not_before(c.pos);
                                    if check(ts, at, TokenType::Else) {
                                        let o = statement(ts, step(ts, at));
                                        match o.value {
                                            Some(other) => ok(
                                                StmtModel::If {
                                                    condition,
                                                    then_branch: Box::new(taken),
                                                    else_branch: Some(Box::new(other)),
                                                },
                                                o.cursor,
                                            ),
                                            None => none(o.cursor),
                                        }
                                    } else {
                                        ok(
                                            StmtModel::If {
                                                condition,
                                                then_branch: Box::new(taken),
                                                else_branch: None,
                                            },
                                            t.cursor,
                                        )
                                    }
                                },
                                None => none(t.cursor),
                            }
                        },
                        None => none(close.cursor),
                    }
                },
                None => none(e.cursor),
            }
        },
        None => none(open.cursor),
    }
}

/// while_stmt := "while" "(" expression ")" statement, behind the keyword.
pub open spec fn while_statement(ts: Seq<Token>, c: Cursor) -> Parsed<StmtModel>
    decreases remaining(ts, c), 25nat,
{
    let open = consume(ts, c, TokenType::LeftParen, "Expect '(' after 'while'."@);
    match open.value {
        Some(_) => {
            let e = expression(ts, open.cursor);
            match e.value {
                Some(condition) => {
                    let close = consume(
                        ts,
                        e.cursor,
                        TokenType::RightParen,
                        "Expect ')' after condition."@,
                    );
                    match close.value {
                        Some(_) => {
                            let b = statement(ts, close.cursor.not_before(c.pos));
                            match b.value {
                                Some(body) => ok(
                                    StmtModel::While { condition, body: Box::new(body) },
                                    b.cursor,
                                ),
                                None => none(b.cursor),
                            }
                        },
                        None => none(close.cursor),
                    }
                },
                None => none(e.cursor),
            }
        },
        None => none(open.cursor),
    }
}

/// The first clause of a `for`: nothing before a `;`, a declaration of a
/// variable, or an expression statement.
pub open spec fn for_initializer(ts: Seq<Token>, c: Cursor) -> Parsed<Option<StmtModel>> {
    if check(ts, c, TokenType::SemiColon) {
        ok(None, step(ts, c))
    } else {
        let s = if check(ts, c, TokenType::Def) {
            def_declaration(ts, step(ts, c))
        } else {
            expression_statement(ts, c)
        };
        match s.value {
            Some(x) => ok(Some(x), s.cursor),
            None => none(s.cursor),
        }
    }
}

/// for_stmt := "for" "(" (def_decl | expr_stmt | ";") expression? ";" expression? ")" statement,
/// behind the keyword.
pub open spec fn for_statement(ts: Seq<Token>, c: Cursor) -> Parsed<StmtModel>
    decreases remaining(ts, c), 25nat,
{
    let open = consume(ts, c, TokenType::LeftParen, "Expect '(' after 'for'."@);
    match open.value {
        Some(_) => {
            let i = for_initializer(ts, open.cursor);
            match i.value {
                Some(initializer) => {
                    let t = optional_expression(ts, i.cursor, TokenType::SemiColon);
                    match t.value {
                        Some(condition) => {
                            let semi = consume(
                                ts,
                                t.cursor,
                                TokenType::SemiColon,
                                "Expect ';' after loop condition."@,
                            );
                            match semi.value {
                                Some(_) => {
                                    let n = optional_expression(
                                        ts,
                                        semi.cursor,
                                        TokenType::RightParen,
                                    );
                                    match n.value {
                                        Some(increment) => {
                                            let close = consume(
                                                ts,
                                                n.cursor,
                                                TokenType::RightParen,
                                                "Expect ')' after for clauses."@,
                                            );
                                            match close.value {
                                                Some(_) => {
                                                    let b = statement(
                                                        ts,
                                                        close.cursor.not_before(c.pos),
                                                    );
                                                    match b.value {
                                                        Some(body) => ok(
                                                            for_loop(
                                                                initializer,
                                                                condition,
                                                                increment,
                                                                body,
                                                            ),
                                                            b.cursor,
                                                        ),
                                                        None => none(b.cursor),
                                                    }
                                                },
                                                None => none(close.cursor),
                                            }
                                        },
                                        None => none(n.cursor),
                                    }
                                },
                                None => none(semi.cursor),
                            }
                        },
                        None => none(t.cursor),
                    }
                },
                None => none(i.cursor),
            }
        },
        None => none(open.cursor),
    }
}

/// function := IDENT "(" params? ")" "{" declaration* "}", behind the keyword `fun`.
pub open spec fn function(ts: Seq<Token>, c: Cursor) -> Parsed<StmtModel>
    decreases remaining(ts, c), 25nat,
{
    let n = consume(ts, c, TokenType::Identifier, "Expect function name."@);
    match n.value {
        Some(name) => {
            let open = consume(
                ts,
                n.cursor,
                TokenType::LeftParen,
                "Expect '(' after function name."@,
            );
            match open.value {
                Some(_) => {
                    let p = parameters(ts, open.cursor);
                    match p.value {
                        Some(params) => {
                            let close = consume(
                                ts,
                                p.cursor,
                                TokenType::RightParen,
                                "Expect ')' after parameters."@,
                            );
                            match close.value {
                                Some(_) => {
                                    let brace = consume(
                                        ts,
                                        close.cursor,
                                        TokenType::LeftBrace,
                                        "Expect '{' before function body."@,
                                    );
                                    match brace.value {
                                        Some(_) => {
                                            let b = block(ts, brace.cursor.not_before(c.pos));
                                            match b.value {
                                                Some(body) => ok(
                                                    StmtModel::Function { name, params, body },
                                                    b.cursor,
                                                ),
                                                None => none(b.cursor),
                                            }
                                        },
                                        None => none(brace.cursor),
                                    }
                                },
                                None => none(close.cursor),
                            }
                        },
                        None => none(p.cursor),
                    }
                },
                None => none(open.cursor),
            }
        },
        None => none(n.cursor),
    }
}

/// program := declaration* EOF, behind the statements `found`.
pub open spec fn program(ts: Seq<Token>, c: Cursor, found: Seq<StmtModel>) -> Parsed<Seq<StmtModel>>
    decreases remaining(ts, c),
{
    if at_end(ts, c) {
        ok(found, c)
    } else {
        let d = declaration(ts, c);
        program(ts, d.cursor.not_before(c.pos + 1), with_statement(found, d.value))
    }
}

} // verus!
