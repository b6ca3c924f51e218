use vstd::prelude::*;
use crate::object::Object;
use crate::token::Token;

verus! {

/// An expression of the language.
///
/// A use of a variable and an assignment carry an `id`: the identity under
/// which the resolver records how far away the variable is declared.
#[derive(Debug)]
pub enum Expr {
    Assign(AssignExpr),
    Binary(BinaryExpr),
    Call(CallExpr),
    Grouping(GroupingExpr),
    Literal(LiteralExpr),
    Logical(LogicalExpr),
    Unary(UnaryExpr),
    Variable(VariableExpr),
}

/// The assignment of the value of `value` to the variable `name`.
#[derive(Debug)]
pub struct AssignExpr {
    pub id: u64,
    pub name: Token,
    pub value: Box<Expr>,
}

/// An operation on two operands.
#[derive(Debug)]
pub struct BinaryExpr {
    pub left: Box<Expr>,
    pub operator: Token,
    pub right: Box<Expr>,
}

/// A call of `callee` with `arguments`; `paren` is the opening parenthesis.
#[derive(Debug)]
pub struct CallExpr {
    pub callee: Box<Expr>,
    pub paren: Token,
    pub arguments: Vec<Expr>,
}

/// An expression in parentheses.
#[derive(Debug)]
pub struct GroupingExpr {
    pub expression: Box<Expr>,
}

/// A value that the source spells out.
#[derive(Debug)]
pub struct LiteralExpr {
    pub value: Option<Object>,
}

/// `and` or `or` of two operands.
#[derive(Debug)]
pub struct LogicalExpr {
    pub left: Box<Expr>,
    pub operator: Token,
    pub right: Box<Expr>,
}

/// An operation on one operand.
#[derive(Debug)]
pub struct UnaryExpr {
    pub operator: Token,
    pub right: Box<Expr>,
}

/// The use of the variable `name`.
#[derive(Debug)]
pub struct VariableExpr {
    pub id: u64,
    pub name: Token,
}

} // verus!
