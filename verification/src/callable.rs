use vstd::prelude::*;
use crate::arithmetic::{numbers, Arithmetic, Numbers};
use crate::interpreter::Interpreter;
use crate::native_functions::NativeClock;
use crate::object::Object;
use crate::semantics::{Outcome, State};

verus! {

/// A value that can be called.
///
/// A function that a program declares is known by its place in the
/// interpreter's table of functions: every execution of a declaration makes a
/// new entry, so two callables are the same exactly when they are equal here.
#[derive(Debug, Clone, Copy, PartialEq, Eq, Structural)]
pub enum Callable {
    /// The builtin clock.
    Native(NativeClock),
    /// The function at this index of the interpreter's table.
    Function(usize),
}

/// What every callable can do: be called, tell how many arguments it
/// takes, and tell its name.
pub trait SaturdayCallable {
    /// Whether the callable can be called in the state `s` with `arguments`.
    spec fn accepts(&self, s: State, arguments: Seq<Object>) -> bool;

    /// What a call with `arguments` in the state `pre` does: it leaves the
    /// state `post` and ends with `r`.
    spec fn called(
        &self,
        num: Numbers,
        pre: State,
        arguments: Seq<Object>,
        fuel: nat,
        post: State,
        r: Outcome,
    ) -> bool;

    /// The number of arguments that the callable takes.
    spec fn parameters(&self) -> nat;

    /// The name of the callable.
    spec fn named(&self) -> Seq<char>;

    /// Calls the callable.
    fn call<A: Arithmetic>(
        &self,
        interpreter: &mut Interpreter,
        unit: &A,
        arguments: Vec<Object>,
        fuel: u64,
    ) -> (r: Outcome)
        requires
            old(interpreter).wf(),
            self.accepts(old(interpreter).state(), arguments@),
        ensures
            final(interpreter).follows(old(interpreter)),
            self.called(
                numbers(unit),
                old(interpreter).state(),
                arguments@,
                fuel as nat,
                final(interpreter).state(),
                r,
            ),
    ;

    /// The number of arguments that the callable takes.
    fn arity(&self) -> (n: usize)
        ensures
            n == self.parameters(),
    ;

    /// The name of the callable.
    fn to_string(&self) -> (s: String)
        ensures
            s@ == self.named(),
    ;
}

} // verus!
