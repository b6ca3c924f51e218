use vstd::prelude::*;
use std::time::{Duration, SystemTime};
use crate::arithmetic::{numbers, Arithmetic, Numbers};
use crate::callable::SaturdayCallable;
use crate::error::SaturdayResult;
use crate::interpreter::Interpreter;
use crate::object::Object;
use crate::semantics::{Outcome, State};
use crate::text::{decimal, decimal_text};

verus! {

/// The builtin `clock`: the time since the Unix epoch, in milliseconds.
#[derive(Debug, Clone, Copy, PartialEq, Eq, Structural)]
pub struct NativeClock;

/// `SystemTime::elapsed`, asked of `SystemTime::UNIX_EPOCH`: the time that
/// has passed since the epoch, or, where the clock of the machine stands
/// before the epoch, the failure as the standard library describes it.
/// Nothing is claimed of either value: the answer depends on the moment.
#[verifier::external_body]
fn epoch_elapsed() -> (r: Result<Duration, String>) {
    match SystemTime::UNIX_EPOCH.elapsed() {
        Ok(passed) => Ok(passed),
        Err(e) => Err(format!("{:?}", e)),
    }
}

/// `Duration::as_millis`: the whole milliseconds of a duration. Nothing is
/// claimed of the number.
#[verifier::external_body]
fn whole_millis(passed: Duration) -> (r: u128) {
    passed.as_millis()
}

impl NativeClock {
    /// What the clock makes of a reading: the number that `unit` makes of
    /// the decimal numeral of the milliseconds, or a system error that tells
    /// the failure.
    pub fn reading<A: Arithmetic>(unit: &A, millis: Result<u128, String>) -> (r: Result<
        Object,
        SaturdayResult,
    >)
        ensures
            match millis {
                Ok(n) => r matches Ok(Object::Num(s)) && s@ == (numbers(unit).numeral_of)(
                    decimal(n as nat),
                ),
                Err(text) => r matches Err(SaturdayResult::SystemError { message }) && message@
                    == "Clock returned invalid duration: "@ + text@,
            },
    {
        match millis {
            Ok(n) => {
                let digits = decimal_text(n);
                Ok(Object::Num(unit.numeral(digits.as_str())))
            },
            Err(text) => {
                let mut message = String::from_str("Clock returned invalid duration: ");
                message.append(text.as_str());
                Err(SaturdayResult::SystemError { message })
            },
        }
    }
}

impl SaturdayCallable for NativeClock {
    /// The clock takes no argument.
    open spec fn accepts(&self, s: State, arguments: Seq<Object>) -> bool {
        arguments.len() == 0
    }

    /// A call changes nothing and gives some number, or a system error when
    /// the clock cannot be read.
    open spec fn called(
        &self,
        num: Numbers,
        pre: State,
        arguments: Seq<Object>,
        fuel: nat,
        post: State,
        r: Outcome,
    ) -> bool {
        post == pre && match r {
            Ok(value) => value is Num,
            Err(e) => e is SystemError,
        }
    }

    open spec fn parameters(&self) -> nat {
        0
    }

    open spec fn named(&self) -> Seq<char> {
        "Native:Clock"@
    }

    fn call<A: Arithmetic>(
        &self,
        interpreter: &mut Interpreter,
        unit: &A,
        arguments: Vec<Object>,
        fuel: u64,
    ) -> (r: Outcome) {
        let millis = match epoch_elapsed() {
            Ok(passed) => Ok(whole_millis(passed)),
            Err(text) => Err(text),
        };
        NativeClock::reading(unit, millis)
    }

    fn arity(&self) -> (n: usize) {
        0
    }

    fn to_string(&self) -> (s: String) {
        String::from_str("Native:Clock")
    }
}

} // verus!
