use vstd::prelude::*;
use std::rc::Rc;
use crate::stmt::{share, FunctionStmt, Stmt};
use crate::token::Token;

verus! {

/// A function that a program declared: the declaration, and the place of the
/// environment that was active when the declaration was executed.
#[derive(Debug)]
pub struct SaturdayFunction {
    pub name: Token,
    pub params: Rc<Vec<Token>>,
    pub body: Rc<Vec<Stmt>>,
    pub closure: usize,
}

impl SaturdayFunction {
    /// The function that an execution of `declaration` makes in the environment `closure`.
    pub fn new(declaration: &FunctionStmt, closure: usize) -> (f: Self)
        ensures
            f == (SaturdayFunction {
                name: declaration.name,
                params: declaration.params,
                body: declaration.body,
                closure,
            }),
    {
        Self {
            name: declaration.name.dup(),
            params: share(&declaration.params),
            body: share(&declaration.body),
            closure,
        }
    }

    /// A second handle to the same function.
    pub fn dup(&self) -> (f: Self)
        ensures
            f == *self,
    {
        Self {
            name: self.name.dup(),
            params: share(&self.params),
            body: share(&self.body),
            closure: self.closure,
        }
    }
}

} // verus!
