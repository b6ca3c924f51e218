use vstd::prelude::*;
use std::rc::Rc;
use crate::expr::Expr;
use crate::token::Token;

verus! {

/// A statement of the language.
#[derive(Debug)]
pub enum Stmt {
    Block(BlockStmt),
    Break(BreakStmt),
    Expression(ExpressionStmt),
    Function(FunctionStmt),
    If(IfStmt),
    Print(PrintStmt),
    Return(ReturnStmt),
    Def(DefStmt),
    While(WhileStmt),
}

/// A list of statements with a scope of its own.
#[derive(Debug)]
pub struct BlockStmt {
    pub statements: Vec<Stmt>,
}

/// A `break`.
#[derive(Debug)]
pub struct BreakStmt {
    pub token: Token,
}

/// An expression whose value is dropped.
#[derive(Debug)]
pub struct ExpressionStmt {
    pub expression: Expr,
}

/// The declaration of a function. The parameters and the body are shared
/// with every function value that an execution of the declaration makes.
#[derive(Debug)]
pub struct FunctionStmt {
    pub name: Token,
    pub params: Rc<Vec<Token>>,
    pub body: Rc<Vec<Stmt>>,
}

/// A condition with one or two branches.
#[derive(Debug)]
pub struct IfStmt {
    pub condition: Expr,
    pub then_branch: Box<Stmt>,
    pub else_branch: Option<Box<Stmt>>,
}

/// A `print`.
#[derive(Debug)]
pub struct PrintStmt {
    pub expression: Expr,
}

/// A `return`, with or without a value.
#[derive(Debug)]
pub struct ReturnStmt {
    pub keyword: Token,
    pub value: Option<Expr>,
}

/// The declaration of a variable.
#[derive(Debug)]
pub struct DefStmt {
    pub name: Token,
    pub initializer: Option<Expr>,
}

/// A loop.
#[derive(Debug)]
pub struct WhileStmt {
    pub condition: Expr,
    pub body: Box<Stmt>,
}

/// `Rc::clone`: a second handle to the same allocation, and so to the same value.
#[verifier::external_body]
pub(crate) fn share<T>(rc: &Rc<T>) -> (res: Rc<T>)
    ensures
        res == *rc,
{
    Rc::clone(rc)
}

} // verus!
